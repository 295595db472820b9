use ducktape::carousel::{
    keyboard_command, swipe_direction_command, keyboard_command_in_direction, CarouselBoundary, CarouselCommand,
    CarouselEvent, CarouselOrientation, CarouselState,
};
use ducktape::direction::Direction;
use ducktape::keys::Key;

#[test]
fn bounded_and_wrapped_reducers_hold_their_edges() {
    let mut bounded = CarouselState::new(0, 3, CarouselBoundary::Bounded);
    assert!(!bounded.apply(CarouselCommand::Previous.into()));
    assert!(bounded.apply(CarouselEvent::Select(2)));
    assert!(!bounded.apply(CarouselCommand::Next.into()));
    assert_eq!(bounded.index(), 2);

    let wrapped = CarouselState::new(0, 3, CarouselBoundary::Wrap);
    assert_eq!(wrapped.reduce(CarouselCommand::Previous).index(), 2);
    assert_eq!(
        wrapped
            .reduce(CarouselCommand::Previous)
            .reduce(CarouselCommand::Next)
            .index(),
        0
    );
}

#[test]
fn count_changes_and_empty_carousels_remain_valid() {
    assert_eq!(CarouselState::new(8, 3, CarouselBoundary::Bounded).index(), 2);
    assert_eq!(CarouselState::new(8, 3, CarouselBoundary::Wrap).index(), 2);

    let empty = CarouselState::new(8, 0, CarouselBoundary::Wrap);
    assert_eq!(empty.reduce(CarouselCommand::Next).index(), 0);
    assert!(!empty.can_previous());
    assert!(!empty.can_next());
}

#[test]
fn keys_and_swipes_reverse_semantics_in_rtl() {
    let left = Key::ArrowLeft;
    assert_eq!(
        keyboard_command_in_direction(&left, CarouselOrientation::Horizontal, Direction::LeftToRight),
        Some(CarouselCommand::Previous)
    );
    assert_eq!(
        keyboard_command_in_direction(&left, CarouselOrientation::Horizontal, Direction::RightToLeft),
        Some(CarouselCommand::Next)
    );
}

#[test]
fn wrapping_next_then_previous_returns_to_the_slide() {
    for index in 0..4 {
        let state = CarouselState::new(index, 4, CarouselBoundary::Wrap);
        assert_eq!(
            state.reduce(CarouselCommand::Next).reduce(CarouselCommand::Previous).index(),
            index
        );
        assert_eq!(
            state.reduce(CarouselCommand::Previous).reduce(CarouselCommand::Next).index(),
            index
        );
    }
}

#[test]
fn bounded_steps_invert_away_from_the_edges() {
    let middle = CarouselState::new(1, 3, CarouselBoundary::Bounded);
    assert_eq!(
        middle.reduce(CarouselCommand::Previous).reduce(CarouselCommand::Next).index(),
        1
    );
    let first = CarouselState::new(0, 3, CarouselBoundary::Bounded);
    assert_eq!(
        first.reduce(CarouselCommand::Previous).reduce(CarouselCommand::Next).index(),
        1
    );
}

#[test]
fn every_step_keeps_the_index_on_a_slide() {
    for boundary in [CarouselBoundary::Bounded, CarouselBoundary::Wrap] {
        for command in [
            CarouselCommand::Previous,
            CarouselCommand::Next,
            CarouselCommand::First,
            CarouselCommand::Last,
        ] {
            for index in 0..5 {
                let next = CarouselState::new(index, 5, boundary).reduce(command);
                assert!(next.index() < 5);
            }
        }
    }
    assert_eq!(CarouselState::new(2, 5, CarouselBoundary::Wrap).reduce(CarouselCommand::Last).index(), 4);
}

#[test]
fn vertical_carousels_use_the_vertical_arrows() {
    assert_eq!(
        keyboard_command(&Key::ArrowDown, CarouselOrientation::Vertical),
        Some(CarouselCommand::Next)
    );
    assert_eq!(keyboard_command(&Key::ArrowLeft, CarouselOrientation::Vertical), None);
    assert_eq!(
        keyboard_command(&Key::Home, CarouselOrientation::Horizontal),
        Some(CarouselCommand::First)
    );
}

#[test]
fn only_real_moves_report_an_event() {
    let last = CarouselState::new(2, 3, CarouselBoundary::Bounded);
    assert_eq!(last.changed_event(CarouselCommand::Next), None);
    assert_eq!(
        last.changed_event(CarouselCommand::First),
        Some(CarouselEvent::Navigate(CarouselCommand::First))
    );
}

#[test]
fn swipes_toward_smaller_coordinates_advance_unless_reading_right_to_left() {
    assert_eq!(
        swipe_direction_command(true, CarouselOrientation::Horizontal, Direction::LeftToRight),
        CarouselCommand::Next
    );
    assert_eq!(
        swipe_direction_command(true, CarouselOrientation::Horizontal, Direction::RightToLeft),
        CarouselCommand::Previous
    );
    assert_eq!(
        swipe_direction_command(false, CarouselOrientation::Vertical, Direction::RightToLeft),
        CarouselCommand::Previous
    );
    assert_eq!(
        swipe_direction_command(true, CarouselOrientation::Vertical, Direction::RightToLeft),
        CarouselCommand::Next
    );
}
