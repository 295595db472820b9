//! Headless sorting, filter-query and pagination state for a composed table.
//!
//! Row filtering and ordering stay caller-owned because each data set has a
//! different schema; this state only decides which column sorts which way,
//! which page is shown and which rows that page covers.

use vstd::prelude::*;
use core::ops::Range;
use vstd::std_specs::cmp::PartialEqSpec;

verus! {

#[derive(Debug, Clone, Copy, PartialEq, Eq, Structural)]
pub enum SortDirection {
    Ascending,
    Descending,
}

#[derive(Debug, Clone, PartialEq, Eq)]
pub struct Sort<Column> {
    pub column: Column,
    pub direction: SortDirection,
}

#[derive(Debug, Clone, PartialEq, Eq)]
pub struct DataTableState<Column> {
    pub sort: Option<Sort<Column>>,
    pub query: String,
    pub page: usize,
    pub page_size: usize,
}

/// Rows per page: the configured size, at least one.
pub open spec fn effective_size(page_size: int) -> int {
    if page_size < 1 {
        1
    } else {
        page_size
    }
}

/// Pages needed for `rows` rows: the rows divided by the page size, rounded up.
pub open spec fn pages_for(rows: int, page_size: int) -> int {
    let size = effective_size(page_size);
    rows / size + if rows % size == 0 {
        0int
    } else {
        1int
    }
}

/// The sort after activating `column`: unsorted columns start ascending,
/// ascending turns descending, descending turns unsorted.
pub open spec fn next_sort<Column: PartialEq>(current: Option<Sort<Column>>, column: Column) -> Option<Sort<Column>> {
    next_sort_when(current, column, current matches Some(sort) && sort.column.eq_spec(&column))
}

/// `next_sort` given whether the current sort column compared equal to `column`.
pub open spec fn next_sort_when<Column>(current: Option<Sort<Column>>, column: Column, same: bool) -> Option<Sort<Column>> {
    match current {
        Some(sort) => if same && sort.direction == SortDirection::Ascending {
            Some(Sort { column, direction: SortDirection::Descending })
        } else if same {
            None
        } else {
            Some(Sort { column, direction: SortDirection::Ascending })
        },
        None => Some(Sort { column, direction: SortDirection::Ascending }),
    }
}

impl<Column> DataTableState<Column> {
    pub fn new(page_size: usize) -> (r: Self)
        ensures
            r.sort is None,
            r.query@.len() == 0,
            r.page == 0,
            r.page_size == effective_size(page_size as int),
    {
        DataTableState {
            sort: None,
            query: String::new(),
            page: 0,
            page_size: if page_size < 1 {
                1
            } else {
                page_size
            },
        }
    }

    /// Replaces the filter query and returns to the first page.
    pub fn set_query(&mut self, query: &str)
        ensures
            final(self).query@ == query@,
            final(self).page == 0,
            final(self).sort == old(self).sort,
            final(self).page_size == old(self).page_size,
    {
        self.query = query.to_owned();
        self.page = 0;
    }

    pub fn page_count(&self, filtered_rows: usize) -> (r: usize)
        ensures
            r as int == pages_for(filtered_rows as int, self.page_size as int),
    {
        let size = if self.page_size < 1 {
            1
        } else {
            self.page_size
        };
        assert(filtered_rows % size != 0 ==> filtered_rows / size < usize::MAX) by (nonlinear_arith)
            requires
                size >= 1,
                filtered_rows <= usize::MAX,
        {
            if filtered_rows % size != 0 {
                assert(size >= 2);
            }
        }
        filtered_rows / size + if filtered_rows % size == 0 {
            0
        } else {
            1
        }
    }

    /// Moves to `page`, clamped to the last page (the first when there are no rows).
    pub fn set_page(&mut self, page: usize, filtered_rows: usize)
        ensures
            ({
                let last = pages_for(filtered_rows as int, old(self).page_size as int) - 1;
                let last = if last < 0 {
                    0
                } else {
                    last
                };
                final(self).page == if page <= last {
                    page as int
                } else {
                    last
                }
            }),
            final(self).sort == old(self).sort,
            final(self).query == old(self).query,
            final(self).page_size == old(self).page_size,
    {
        let last = self.page_count(filtered_rows).saturating_sub(1);
        self.page = if page <= last {
            page
        } else {
            last
        };
    }

    /// The rows of the current page, clamped to the filtered rows.
    pub fn visible_range(&self, filtered_rows: usize) -> (r: Range<usize>)
        ensures
            ({
                let size = effective_size(self.page_size as int);
                let start = if self.page * size < filtered_rows {
                    self.page * size
                } else {
                    filtered_rows as int
                };
                let end = if start + size < filtered_rows {
                    start + size
                } else {
                    filtered_rows as int
                };
                r.start == start && r.end == end
            }),
    {
        let size = if self.page_size < 1 {
            1
        } else {
            self.page_size
        };
        let product = match self.page.checked_mul(size) {
            Some(product) => product,
            None => usize::MAX,
        };
        let start = if product < filtered_rows {
            product
        } else {
            filtered_rows
        };
        let sum = start.saturating_add(size);
        let end = if sum < filtered_rows {
            sum
        } else {
            filtered_rows
        };
        proof {
            if (self.page * size) as int > usize::MAX {
                assert(self.page * size >= filtered_rows);
            }
        }
        start..end
    }
}

impl<Column: PartialEq> DataTableState<Column> {
    /// Cycles a column through ascending, descending and unsorted, and
    /// returns to the first page.
    pub fn toggle_sort(&mut self, column: Column)
        ensures
            final(self).sort == next_sort_when(old(self).sort, column, true) || final(self).sort
                == next_sort_when(old(self).sort, column, false),
            Column::obeys_eq_spec() ==> final(self).sort == next_sort(old(self).sort, column),
            final(self).page == 0,
            final(self).query == old(self).query,
            final(self).page_size == old(self).page_size,
    {
        let same = match &self.sort {
            Some(sort) => sort.column == column,
            None => false,
        };
        let next = match &self.sort {
            Some(sort) if same && sort.direction == SortDirection::Ascending => Some(
                Sort { column, direction: SortDirection::Descending },
            ),
            Some(sort) if same && sort.direction == SortDirection::Descending => None,
            _ => Some(Sort { column, direction: SortDirection::Ascending }),
        };
        self.sort = next;
        self.page = 0;
    }
}


/// Activating the same column three times from unsorted goes ascending,
/// descending, then back to unsorted.
pub proof fn lemma_sort_cycle<Column>(column: Column)
    ensures
        next_sort_when(None, column, false) == Some(Sort { column, direction: SortDirection::Ascending }),
        next_sort_when(next_sort_when(None, column, false), column, true) == Some(
            Sort { column, direction: SortDirection::Descending },
        ),
        next_sort_when(next_sort_when(next_sort_when(None, column, false), column, true), column, true) is None,
{
}

} // verus!
