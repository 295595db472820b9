use ducktape::data_table::{DataTableState, SortDirection};

#[test]
fn sort_cycle_and_filter_reset_pagination() {
    let mut state = DataTableState::new(10);
    state.page = 2;
    state.toggle_sort("name");
    assert_eq!(
        state.sort.as_ref().map(|sort| sort.direction),
        Some(SortDirection::Ascending)
    );
    assert_eq!(state.page, 0);
    state.toggle_sort("name");
    assert_eq!(
        state.sort.as_ref().map(|sort| sort.direction),
        Some(SortDirection::Descending)
    );
    state.toggle_sort("name");
    assert_eq!(state.sort, None);

    state.page = 3;
    state.set_query("duck");
    assert_eq!(state.page, 0);
}

#[test]
fn pages_are_bounded_for_empty_and_partial_results() {
    let mut state = DataTableState::<()>::new(10);
    assert_eq!(state.page_count(0), 0);
    assert_eq!(state.page_count(21), 3);
    state.set_page(99, 21);
    assert_eq!(state.page, 2);
    assert_eq!(state.visible_range(21), 20..21);
    state.set_page(5, 0);
    assert_eq!(state.page, 0);
    assert_eq!(state.visible_range(0), 0..0);
}

#[test]
fn switching_columns_starts_ascending_again() {
    let mut state = DataTableState::new(5);
    state.toggle_sort("name");
    state.toggle_sort("name");
    state.toggle_sort("email");
    let sort = state.sort.clone().unwrap();
    assert_eq!(sort.column, "email");
    assert_eq!(sort.direction, SortDirection::Ascending);
}

#[test]
fn a_zero_page_size_counts_one_row_per_page() {
    let state = DataTableState::<()>::new(0);
    assert_eq!(state.page_size, 1);
    assert_eq!(state.page_count(3), 3);
    assert_eq!(state.visible_range(3), 0..1);
}
