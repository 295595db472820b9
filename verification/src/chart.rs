//! Chart decisions that need no geometry: series key validation, which data
//! points and values normalization keeps and what it reports about them, and
//! the plain result and option types.

use vstd::prelude::*;
use crate::text::{is_space, is_whitespace};

verus! {

/// Why a chart configuration or geometry was refused.
#[derive(Debug, Clone, PartialEq, Eq)]
pub enum ChartError {
    EmptyConfig,
    EmptySeriesKey,
    DuplicateSeriesKey(String),
    InvalidDomain(&'static str),
    InvalidInnerRadius,
    TooSmall,
}

pub open spec fn chart_error_text(error: ChartError) -> Seq<char> {
    match error {
        ChartError::EmptyConfig => "chart config has no series"@,
        ChartError::EmptySeriesKey => "chart series keys cannot be empty"@,
        ChartError::DuplicateSeriesKey(key) => "duplicate chart series key: "@ + key@,
        ChartError::InvalidDomain(axis) => "invalid "@ + axis@ + "-axis domain"@,
        ChartError::InvalidInnerRadius => "pie inner radius must be between 0 and 1"@,
        ChartError::TooSmall => "chart bounds are too small for its padding"@,
    }
}

impl ChartError {
    /// The message shown for this error.
    pub fn to_string(&self) -> (r: String)
        ensures
            r@ == chart_error_text(*self),
    {
        match self {
            ChartError::EmptyConfig => String::from_str("chart config has no series"),
            ChartError::EmptySeriesKey => String::from_str("chart series keys cannot be empty"),
            ChartError::DuplicateSeriesKey(key) => {
                let mut text = String::from_str("duplicate chart series key: ");
                text.append(key.as_str());
                text
            },
            ChartError::InvalidDomain(axis) => {
                let mut text = String::from_str("invalid ");
                text.append(axis);
                text.append("-axis domain");
                text
            },
            ChartError::InvalidInnerRadius => String::from_str("pie inner radius must be between 0 and 1"),
            ChartError::TooSmall => String::from_str("chart bounds are too small for its padding"),
        }
    }
}

/// Whether a key is empty once surrounding whitespace is trimmed.
pub open spec fn blank(key: Seq<char>) -> bool {
    forall|i: int| 0 <= i < key.len() ==> is_space(#[trigger] key[i])
}

/// Index of the first key, from `index` on, that is blank or repeats an
/// earlier key.
pub open spec fn first_bad_key(keys: Seq<Seq<char>>, index: int) -> Option<int>
    decreases keys.len() - index,
{
    if index < 0 || index >= keys.len() {
        None
    } else if blank(keys[index]) || exists|j: int| 0 <= j < index && keys[j] == keys[index] {
        Some(index)
    } else {
        first_bad_key(keys, index + 1)
    }
}

/// What validating `keys` in order gives: no series at all, the first blank
/// key, the first key that repeats an earlier one (carrying it), or success.
pub open spec fn keys_checked(keys: Seq<Seq<char>>, r: Result<(), ChartError>) -> bool {
    if keys.len() == 0 {
        r == Err::<(), ChartError>(ChartError::EmptyConfig)
    } else {
        match first_bad_key(keys, 0) {
            None => r == Ok::<(), ChartError>(()),
            Some(i) => if blank(keys[i]) {
                r == Err::<(), ChartError>(ChartError::EmptySeriesKey)
            } else {
                r matches Err(ChartError::DuplicateSeriesKey(k)) && k@ == keys[i]
            },
        }
    }
}

pub open spec fn str_views(keys: Seq<&str>) -> Seq<Seq<char>> {
    keys.map_values(|k: &str| k@)
}

/// Whether a key holds only whitespace.
fn is_blank(key: &str) -> (r: bool)
    ensures
        r == blank(key@),
{
    let n = key.unicode_len();
    let mut index: usize = 0;
    while index < n
        invariant
            n == key@.len(),
            0 <= index <= n,
            forall|i: int| 0 <= i < index ==> is_space(#[trigger] key@[i]),
        decreases n - index,
    {
        if !is_whitespace(key.get_char(index)) {
            return false;
        }
        index = index + 1;
    }
    true
}

/// Whether `keys[..index]` holds `keys[index]`.
fn seen_before(keys: &[&str], index: usize) -> (r: bool)
    requires
        index < keys@.len(),
    ensures
        r == exists|j: int| 0 <= j < index && str_views(keys@)[j] == str_views(keys@)[index as int],
{
    let mut j: usize = 0;
    while j < index
        invariant
            index < keys@.len(),
            0 <= j <= index,
            forall|k: int| 0 <= k < j ==> str_views(keys@)[k] != str_views(keys@)[index as int],
        decreases index - j,
    {
        if same_text(keys[j], keys[index]) {
            assert(str_views(keys@)[j as int] == str_views(keys@)[index as int]);
            return true;
        }
        j = j + 1;
    }
    false
}

/// Whether two strings hold the same characters.
fn same_text(a: &str, b: &str) -> (r: bool)
    ensures
        r == (a@ == b@),
{
    let n = a.unicode_len();
    if n != b.unicode_len() {
        return false;
    }
    let mut index: usize = 0;
    while index < n
        invariant
            n == a@.len(),
            n == b@.len(),
            0 <= index <= n,
            forall|i: int| 0 <= i < index ==> a@[i] == b@[i],
        decreases n - index,
    {
        if a.get_char(index) != b.get_char(index) {
            return false;
        }
        index = index + 1;
    }
    assert(a@ =~= b@);
    true
}

/// Checks the series keys of a chart configuration in order: there must be a
/// series, and each key must be non-blank and new.
pub fn validate_series_keys(keys: &[&str]) -> (r: Result<(), ChartError>)
    ensures
        keys_checked(str_views(keys@), r),
{
    let ghost views = str_views(keys@);
    if keys.len() == 0 {
        return Err(ChartError::EmptyConfig);
    }
    let mut index: usize = 0;
    while index < keys.len()
        invariant
            views == str_views(keys@),
            views.len() == keys@.len(),
            0 <= index <= keys.len(),
            first_bad_key(views, 0) == first_bad_key(views, index as int),
        decreases keys.len() - index,
    {
        assert(views[index as int] == keys@[index as int]@);
        if is_blank(keys[index]) {
            return Err(ChartError::EmptySeriesKey);
        }
        if seen_before(keys, index) {
            return Err(ChartError::DuplicateSeriesKey(keys[index].to_owned()));
        }
        index = index + 1;
    }
    Ok(())
}

/// How usable normalized chart data is.
#[derive(Debug, Clone, Copy, PartialEq, Eq, Structural)]
pub enum DataState {
    Empty,
    Ready,
    Partial,
    Invalid,
}

/// What normalizing chart data kept and dropped.
#[derive(Debug, Clone, Copy, PartialEq, Eq, Structural)]
pub struct DataReport {
    pub state: DataState,
    pub accepted_points: usize,
    pub dropped_points: usize,
    pub dropped_values: usize,
    pub unknown_values: usize,
}

impl Default for DataReport {
    fn default() -> (r: DataReport)
        ensures
            r == (DataReport {
                state: DataState::Empty,
                accepted_points: 0,
                dropped_points: 0,
                dropped_values: 0,
                unknown_values: 0,
            }),
    {
        DataReport {
            state: DataState::Empty,
            accepted_points: 0,
            dropped_points: 0,
            dropped_values: 0,
            unknown_values: 0,
        }
    }
}

impl DataReport {
    /// The report with its state decided: empty source, nothing accepted,
    /// something dropped or unknown, or everything kept.
    pub open spec fn finish_spec(self, source_is_empty: bool) -> DataReport {
        DataReport {
            state: if source_is_empty {
                DataState::Empty
            } else if self.accepted_points == 0 {
                DataState::Invalid
            } else if self.dropped_points + self.dropped_values + self.unknown_values > 0 {
                DataState::Partial
            } else {
                DataState::Ready
            },
            ..self
        }
    }

    /// Decides the report's state; see `finish_spec`.
    pub fn finish(self, source_is_empty: bool) -> (r: DataReport)
        ensures
            r == self.finish_spec(source_is_empty),
            source_is_empty ==> r.state == DataState::Empty,
            !source_is_empty && self.accepted_points == 0 ==> r.state == DataState::Invalid,
            !source_is_empty && self.accepted_points > 0 ==> (r.state == DataState::Ready <==> (self.dropped_points == 0
                && self.dropped_values == 0 && self.unknown_values == 0)),
            !source_is_empty && self.accepted_points > 0 && (self.dropped_points > 0 || self.dropped_values > 0
                || self.unknown_values > 0) ==> r.state == DataState::Partial,
    {
        let state = if source_is_empty {
            DataState::Empty
        } else if self.accepted_points == 0 {
            DataState::Invalid
        } else if self.dropped_points > 0 || self.dropped_values > 0 || self.unknown_values > 0 {
            DataState::Partial
        } else {
            DataState::Ready
        };
        DataReport { state, ..self }
    }
}


/// The state of a finished report: Empty for an empty source, Invalid when
/// nothing was accepted, Ready only when nothing at all was dropped or
/// unknown, and Partial as soon as one point or value was dropped or unknown.
/// The counts themselves are kept.
pub proof fn lemma_report_state(report: DataReport, source_is_empty: bool)
    ensures
        ({
            let r = report.finish_spec(source_is_empty);
            &&& r.accepted_points == report.accepted_points
            &&& r.dropped_points == report.dropped_points
            &&& r.dropped_values == report.dropped_values
            &&& r.unknown_values == report.unknown_values
            &&& source_is_empty ==> r.state == DataState::Empty
            &&& !source_is_empty && report.accepted_points == 0 ==> r.state == DataState::Invalid
            &&& !source_is_empty && report.accepted_points > 0 && report.dropped_points > 0 ==> r.state
                == DataState::Partial
            &&& r.state == DataState::Ready ==> !source_is_empty && report.accepted_points > 0
                && report.dropped_points == 0 && report.dropped_values == 0 && report.unknown_values == 0
        }),
{
}

/// Normalizing points that include one with a non-finite x never reports
/// them Ready: that point is dropped.
pub proof fn lemma_dropped_point_not_ready(points: Seq<PointFacts>, k: int)
    requires
        0 <= k < points.len(),
        !points[k].x_finite,
    ensures
        point_counts(points).1 > 0,
    decreases points.len(),
{
    if k < points.len() - 1 {
        lemma_dropped_point_not_ready(points.drop_last(), k);
    }
}


/// A point's position is kept exactly when its x is finite and one of its
/// values is usable; the kept positions come in increasing order.
pub proof fn lemma_kept_positions(points: Seq<PointFacts>)
    requires
        points.len() <= usize::MAX,
    ensures
        forall|k: int|
            0 <= k < points.len() ==> (kept_positions(points).contains(k as usize) <==> (points[k].x_finite && exists|j: int|
                0 <= j < points[k].values@.len() && points[k].values@[j] == Some(true))),
        forall|i: int| 0 <= i < kept_positions(points).len() ==> #[trigger] kept_positions(points)[i] < points.len(),
        forall|i: int, j: int|
            0 <= i < j < kept_positions(points).len() ==> kept_positions(points)[i] < kept_positions(points)[j],
    decreases points.len(),
{
    if points.len() > 0 {
        let n = points.len() - 1;
        let prefix = points.drop_last();
        lemma_kept_positions(prefix);
        let before = kept_positions(prefix);
        if point_kept(points.last()) {
            let after = before.push(n as usize);
            assert(kept_positions(points) == after);
            assert forall|i: int| 0 <= i < after.len() implies #[trigger] after[i] < points.len() by {
                if i < before.len() {
                    assert(after[i] == before[i]);
                }
            }
            assert forall|i: int, j: int| 0 <= i < j < after.len() implies after[i] < after[j] by {
                assert(after[i] == before[i]);
                if j < before.len() {
                    assert(after[j] == before[j]);
                }
            }
            assert forall|k: int| 0 <= k < points.len() implies (after.contains(k as usize) <==> point_kept(points[k])) by {
                if k < n {
                    assert(prefix[k] == points[k]);
                    if after.contains(k as usize) {
                        let w = choose|w: int| 0 <= w < after.len() && after[w] == k as usize;
                        if w < before.len() {
                            assert(before[w] == k as usize);
                        }
                    }
                    if before.contains(k as usize) {
                        let w = choose|w: int| 0 <= w < before.len() && before[w] == k as usize;
                        assert(after[w] == k as usize);
                    }
                } else {
                    assert(after[before.len() as int] == k as usize);
                }
            }
        } else {
            assert(kept_positions(points) == before);
            assert forall|k: int| 0 <= k < points.len() implies (before.contains(k as usize) <==> point_kept(points[k])) by {
                if k < n {
                    assert(prefix[k] == points[k]);
                } else if before.contains(k as usize) {
                    let w = choose|w: int| 0 <= w < before.len() && before[w] == k as usize;
                    assert(before[w] < prefix.len());
                }
            }
        }
    }
}

/// What normalizing reads of one cartesian data point.
#[derive(Debug, Clone, PartialEq, Eq)]
pub struct PointFacts {
    /// Whether its x value is finite.
    pub x_finite: bool,
    /// How many of its values name no configured series.
    pub unknown_values: usize,
    /// For each configured series in order: no value, or whether the value
    /// it has is finite.
    pub values: Vec<Option<bool>>,
}

/// How many of `values` are present but unusable.
pub open spec fn bad_values(values: Seq<Option<bool>>) -> nat
    decreases values.len(),
{
    if values.len() == 0 {
        0
    } else {
        bad_values(values.drop_last()) + if values.last() == Some(false) {
            1nat
        } else {
            0nat
        }
    }
}

/// Whether a point is kept: a finite x and at least one usable value.
pub open spec fn point_kept(point: PointFacts) -> bool {
    point.x_finite && exists|j: int| 0 <= j < point.values.len() && point.values@[j] == Some(true)
}

/// The counts of normalizing `points`: accepted points, dropped points,
/// dropped values and unknown values. A point with a non-finite x is dropped
/// without looking at its values.
pub open spec fn point_counts(points: Seq<PointFacts>) -> (nat, nat, nat, nat)
    decreases points.len(),
{
    if points.len() == 0 {
        (0, 0, 0, 0)
    } else {
        let (accepted, dropped, bad, unknown) = point_counts(points.drop_last());
        let point = points.last();
        if !point.x_finite {
            (accepted, dropped + 1, bad, unknown)
        } else if point_kept(point) {
            (accepted + 1, dropped, bad + bad_values(point.values@), unknown + point.unknown_values as nat)
        } else {
            (accepted, dropped + 1, bad + bad_values(point.values@), unknown + point.unknown_values as nat)
        }
    }
}

/// Positions of the kept points, in order.
pub open spec fn kept_positions(points: Seq<PointFacts>) -> Seq<usize>
    decreases points.len(),
{
    if points.len() == 0 {
        Seq::empty()
    } else if point_kept(points.last()) {
        kept_positions(points.drop_last()).push((points.len() - 1) as usize)
    } else {
        kept_positions(points.drop_last())
    }
}

/// Every point is either accepted or dropped, and one position is kept per
/// accepted point.
pub proof fn lemma_every_point_counted(points: Seq<PointFacts>)
    ensures
        point_counts(points).0 + point_counts(points).1 == points.len(),
        kept_positions(points).len() == point_counts(points).0,
    decreases points.len(),
{
    if points.len() > 0 {
        lemma_every_point_counted(points.drop_last());
    }
}

/// Counts never shrink as more points are read.
proof fn lemma_counts_grow(points: Seq<PointFacts>, n: int)
    requires
        0 <= n <= points.len(),
    ensures
        point_counts(points.take(n)).2 <= point_counts(points).2,
        point_counts(points.take(n)).3 <= point_counts(points).3,
    decreases points.len() - n,
{
    if n < points.len() {
        lemma_counts_grow(points, n + 1);
        assert(points.take(n + 1).drop_last() =~= points.take(n));
    } else {
        assert(points.take(n) =~= points);
    }
}

/// Reads one point's values: how many are unusable, and whether one is
/// usable.
fn read_values(values: &Vec<Option<bool>>) -> (r: (usize, bool))
    ensures
        r.0 == bad_values(values@),
        r.1 == exists|j: int| 0 <= j < values@.len() && values@[j] == Some(true),
{
    let mut bad: usize = 0;
    let mut usable = false;
    let mut j: usize = 0;
    while j < values.len()
        invariant
            0 <= j <= values.len(),
            bad == bad_values(values@.take(j as int)),
            bad <= j,
            usable == exists|k: int| 0 <= k < j && values@[k] == Some(true),
        decreases values.len() - j,
    {
        assert(values@.take(j as int + 1).drop_last() =~= values@.take(j as int));
        match values[j] {
            Some(true) => {
                usable = true;
            },
            Some(false) => {
                bad = bad + 1;
            },
            None => {},
        }
        j = j + 1;
    }
    assert(values@.take(values.len() as int) =~= values@);
    (bad, usable)
}

/// Normalizes cartesian points: the positions of the kept points, in order,
/// and the report of what was accepted, dropped or unknown.
pub fn tally_points(points: &[PointFacts]) -> (r: (Vec<usize>, DataReport))
    requires
        point_counts(points@).2 <= usize::MAX,
        point_counts(points@).3 <= usize::MAX,
    ensures
        r.0@ == kept_positions(points@),
        r.1 == (DataReport {
            state: DataState::Empty,
            accepted_points: point_counts(points@).0 as usize,
            dropped_points: point_counts(points@).1 as usize,
            dropped_values: point_counts(points@).2 as usize,
            unknown_values: point_counts(points@).3 as usize,
        }).finish_spec(points.len() == 0),
        r.1.accepted_points + r.1.dropped_points == points.len(),
        r.0.len() == r.1.accepted_points,
        (exists|k: int| 0 <= k < points@.len() && !(#[trigger] points@[k]).x_finite) ==> r.1.dropped_points > 0
            && r.1.state != DataState::Ready,
        forall|k: int|
            0 <= k < points@.len() ==> (r.0@.contains(k as usize) <==> (points@[k].x_finite && exists|j: int|
                0 <= j < points@[k].values@.len() && points@[k].values@[j] == Some(true))),
{
    let mut kept: Vec<usize> = Vec::new();
    let mut report = DataReport::default();
    let mut i: usize = 0;
    while i < points.len()
        invariant
            0 <= i <= points.len(),
            point_counts(points@).2 <= usize::MAX,
            point_counts(points@).3 <= usize::MAX,
            kept@ == kept_positions(points@.take(i as int)),
            report.state == DataState::Empty,
            report.accepted_points == point_counts(points@.take(i as int)).0,
            report.dropped_points == point_counts(points@.take(i as int)).1,
            report.dropped_values == point_counts(points@.take(i as int)).2,
            report.unknown_values == point_counts(points@.take(i as int)).3,
        decreases points.len() - i,
    {
        let ghost prefix = points@.take(i as int);
        let ghost next = points@.take(i as int + 1);
        proof {
            assert(next.drop_last() =~= prefix);
            assert(next.last() == points@[i as int]);
            lemma_counts_grow(points@, i as int + 1);
            lemma_every_point_counted(prefix);
        }
        let point = &points[i];
        if !point.x_finite {
            report.dropped_points = report.dropped_points + 1;
        } else {
            let (bad, usable) = read_values(&point.values);
            report.dropped_values = report.dropped_values + bad;
            report.unknown_values = report.unknown_values + point.unknown_values;
            if usable {
                report.accepted_points = report.accepted_points + 1;
                kept.push(i);
            } else {
                report.dropped_points = report.dropped_points + 1;
            }
        }
        i = i + 1;
    }
    proof {
        assert(points@.take(points.len() as int) =~= points@);
        lemma_every_point_counted(points@);
        lemma_kept_positions(points@);
        if exists|k: int| 0 <= k < points@.len() && !(#[trigger] points@[k]).x_finite {
            let k = choose|k: int| 0 <= k < points@.len() && !(#[trigger] points@[k]).x_finite;
            lemma_dropped_point_not_ready(points@, k);
        }
    }
    (kept, report.finish(points.len() == 0))
}

/// Normalizes pie values, one per configured series in order (no value, or
/// whether the value is finite and positive): the positions of the usable
/// values and the report, with `unknown_values` values naming no series.
pub fn tally_slices(values: &[Option<bool>], unknown_values: usize, source_is_empty: bool) -> (r: (
    Vec<usize>,
    DataReport,
))
    ensures
        r.0@.len() == r.1.accepted_points,
        forall|k: int| 0 <= k < r.0@.len() ==> values@[#[trigger] r.0@[k] as int] == Some(true),
        forall|k: int, l: int| 0 <= k < l < r.0@.len() ==> r.0@[k] < r.0@[l],
        forall|j: int|
            0 <= j < values@.len() && values@[j] == Some(true) ==> r.0@.contains(j as usize),
        r.1 == (DataReport {
            state: DataState::Empty,
            accepted_points: r.0@.len() as usize,
            dropped_points: 0,
            dropped_values: bad_values(values@) as usize,
            unknown_values,
        }).finish_spec(source_is_empty),
{
    let mut kept: Vec<usize> = Vec::new();
    let mut bad: usize = 0;
    let mut j: usize = 0;
    while j < values.len()
        invariant
            0 <= j <= values.len(),
            bad == bad_values(values@.take(j as int)),
            bad <= j,
            kept@.len() <= j,
            forall|k: int| 0 <= k < kept@.len() ==> kept@[k] < j && values@[#[trigger] kept@[k] as int] == Some(true),
            forall|k: int, l: int| 0 <= k < l < kept@.len() ==> kept@[k] < kept@[l],
            forall|m: int| 0 <= m < j && values@[m] == Some(true) ==> kept@.contains(m as usize),
        decreases values.len() - j,
    {
        assert(values@.take(j as int + 1).drop_last() =~= values@.take(j as int));
        match values[j] {
            Some(true) => {
                let ghost before = kept@;
                kept.push(j);
                assert forall|m: int| 0 <= m < j + 1 && values@[m] == Some(true) implies kept@.contains(
                    m as usize,
                ) by {
                    if m < j {
                        let k = choose|k: int| 0 <= k < before.len() && before[k] == m as usize;
                        assert(kept@[k] == m as usize);
                    } else {
                        assert(kept@[kept@.len() - 1] == m as usize);
                    }
                }
            },
            Some(false) => {
                bad = bad + 1;
            },
            None => {},
        }
        j = j + 1;
    }
    assert(values@.take(values.len() as int) =~= values@);
    let report = DataReport {
        state: DataState::Empty,
        accepted_points: kept.len(),
        dropped_points: 0,
        dropped_values: bad,
        unknown_values,
    };
    (kept, report.finish(source_is_empty))
}

#[derive(Debug, Clone, Copy, Default, PartialEq, Eq, Structural)]
pub enum BarLayout {
    #[default]
    Grouped,
    Stacked,
}

#[derive(Debug, Clone, Copy, PartialEq, Eq, Structural)]
pub enum CartesianKind {
    Line { points: bool },
    Area { points: bool },
    Bar(BarLayout),
}

impl Default for CartesianKind {
    /// A line chart with point markers.
    fn default() -> (r: CartesianKind)
        ensures
            r == (CartesianKind::Line { points: true }),
    {
        CartesianKind::Line { points: true }
    }
}

/// The datum and series under a pointer in a cartesian chart.
#[derive(Debug, Clone, PartialEq, Eq)]
pub struct ChartHit {
    pub datum_index: usize,
    pub series_key: String,
}

/// The series under a pointer in a pie chart.
#[derive(Debug, Clone, PartialEq, Eq)]
pub struct PieHit {
    pub series_key: String,
}

#[derive(Debug, Clone, Copy, Default, PartialEq, Eq, Structural)]
pub enum TooltipIndicator {
    #[default]
    Dot,
    Line,
    Dashed,
}

/// Tooltip look and the metadata keys that override its labels and names.
#[derive(Debug, Clone, Default, PartialEq, Eq)]
pub struct TooltipOptions {
    pub indicator: TooltipIndicator,
    pub label_key: Option<String>,
    pub name_key: Option<String>,
}

/// A textual table that mirrors a chart for readers who cannot see it.
#[derive(Debug, Clone, PartialEq, Eq)]
pub struct ChartCompanion {
    pub caption: String,
    pub headers: Vec<String>,
    pub rows: Vec<Vec<String>>,
}

} // verus!
