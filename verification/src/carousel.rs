//! Controlled carousel position with bounded or wrapping navigation.

use vstd::prelude::*;
use crate::direction::Direction;
use crate::keys::Key;

verus! {

#[derive(Debug, Clone, Copy, Default, PartialEq, Eq, Structural)]
pub enum CarouselBoundary {
    #[default]
    Bounded,
    Wrap,
}

#[derive(Debug, Clone, Copy, Default, PartialEq, Eq, Structural)]
pub enum CarouselOrientation {
    #[default]
    Horizontal,
    Vertical,
}

#[derive(Debug, Clone, Copy, PartialEq, Eq, Structural)]
pub enum CarouselCommand {
    Previous,
    Next,
    First,
    Last,
}

/// A request emitted by carousel controls, indicators, keys or swipes.
#[derive(Debug, Clone, Copy, PartialEq, Eq, Structural)]
pub enum CarouselEvent {
    Navigate(CarouselCommand),
    Select(usize),
}

impl From<CarouselCommand> for CarouselEvent {
    fn from(command: CarouselCommand) -> (r: CarouselEvent) {
        CarouselEvent::Navigate(command)
    }
}

impl vstd::std_specs::convert::FromSpecImpl<CarouselCommand> for CarouselEvent {
    open spec fn obeys_from_spec() -> bool {
        true
    }

    open spec fn from_spec(v: CarouselCommand) -> CarouselEvent {
        CarouselEvent::Navigate(v)
    }
}

/// Caller-owned carousel position: the index always names a slide (or is 0
/// when there are none).
#[derive(Debug, Clone, Copy, Default, PartialEq, Eq, Structural)]
pub struct CarouselState {
    index: usize,
    slide_count: usize,
    boundary: CarouselBoundary,
}

/// A requested index brought into range: clamped when bounded, taken modulo
/// the slide count when wrapping, 0 without slides.
pub open spec fn normalized(index: int, slide_count: int, boundary: CarouselBoundary) -> int {
    if slide_count == 0 {
        0
    } else {
        match boundary {
            CarouselBoundary::Bounded => if index < slide_count {
                index
            } else {
                slide_count - 1
            },
            CarouselBoundary::Wrap => index % slide_count,
        }
    }
}

/// The index after one navigation command.
pub open spec fn stepped(index: int, slide_count: int, boundary: CarouselBoundary, command: CarouselCommand) -> int {
    match command {
        CarouselCommand::Previous => match boundary {
            CarouselBoundary::Bounded => if index > 0 {
                index - 1
            } else {
                0
            },
            CarouselBoundary::Wrap => if slide_count == 0 {
                0
            } else if index == 0 {
                slide_count - 1
            } else {
                index - 1
            },
        },
        CarouselCommand::Next => match boundary {
            CarouselBoundary::Bounded => if slide_count > 0 && index < slide_count - 1 {
                index + 1
            } else {
                index
            },
            CarouselBoundary::Wrap => if slide_count == 0 {
                0
            } else if index == slide_count - 1 {
                0
            } else {
                index + 1
            },
        },
        CarouselCommand::First => 0,
        CarouselCommand::Last => if slide_count > 0 {
            slide_count - 1
        } else {
            0
        },
    }
}

impl CarouselState {
    #[verifier::type_invariant]
    spec fn inv(self) -> bool {
        if self.slide_count == 0 {
            self.index == 0
        } else {
            self.index < self.slide_count
        }
    }

    pub closed spec fn position(self) -> int {
        self.index as int
    }

    pub closed spec fn count(self) -> int {
        self.slide_count as int
    }

    pub closed spec fn boundary_mode(self) -> CarouselBoundary {
        self.boundary
    }

    /// The index names a slide, or is 0 when there are none.
    pub open spec fn valid(self) -> bool {
        if self.count() == 0 {
            self.position() == 0
        } else {
            0 <= self.position() < self.count()
        }
    }

    pub fn new(index: usize, slide_count: usize, boundary: CarouselBoundary) -> (r: CarouselState)
        ensures
            r.position() == normalized(index as int, slide_count as int, boundary),
            r.count() == slide_count,
            r.boundary_mode() == boundary,
            r.valid(),
    {
        let index = if slide_count == 0 {
            0
        } else {
            match boundary {
                CarouselBoundary::Bounded => if index < slide_count {
                    index
                } else {
                    slide_count - 1
                },
                CarouselBoundary::Wrap => index % slide_count,
            }
        };
        CarouselState { index, slide_count, boundary }
    }

    pub fn index(self) -> (r: usize)
        ensures
            r == self.position(),
            self.valid(),
    {
        proof {
            use_type_invariant(&self);
        }
        self.index
    }

    pub fn slide_count(self) -> (r: usize)
        ensures
            r == self.count(),
    {
        self.slide_count
    }

    pub fn boundary(self) -> (r: CarouselBoundary)
        ensures
            r == self.boundary_mode(),
    {
        self.boundary
    }

    pub fn is_empty(self) -> (r: bool)
        ensures
            r == (self.count() == 0),
    {
        self.slide_count == 0
    }

    pub fn can_previous(self) -> (r: bool)
        ensures
            r == match self.boundary_mode() {
                CarouselBoundary::Bounded => self.position() > 0,
                CarouselBoundary::Wrap => self.count() > 1,
            },
    {
        match self.boundary {
            CarouselBoundary::Bounded => self.index > 0,
            CarouselBoundary::Wrap => self.slide_count > 1,
        }
    }

    pub fn can_next(self) -> (r: bool)
        ensures
            r == match self.boundary_mode() {
                CarouselBoundary::Bounded => self.count() > 0 && self.position() < self.count() - 1,
                CarouselBoundary::Wrap => self.count() > 1,
            },
    {
        match self.boundary {
            CarouselBoundary::Bounded => self.slide_count > 0 && self.index < self.slide_count - 1,
            CarouselBoundary::Wrap => self.slide_count > 1,
        }
    }

    pub fn reduce(self, command: CarouselCommand) -> (r: CarouselState)
        ensures
            r.position() == stepped(self.position(), self.count(), self.boundary_mode(), command),
            r.count() == self.count(),
            r.boundary_mode() == self.boundary_mode(),
            r.valid(),
            command == CarouselCommand::First ==> r.position() == 0,
            command == CarouselCommand::Last && self.count() > 0 ==> r.position() == self.count() - 1,
    {
        proof {
            use_type_invariant(&self);
        }
        let index = match command {
            CarouselCommand::Previous => match self.boundary {
                CarouselBoundary::Bounded => self.index.saturating_sub(1),
                CarouselBoundary::Wrap => if self.slide_count == 0 {
                    0
                } else if self.index == 0 {
                    self.slide_count - 1
                } else {
                    self.index - 1
                },
            },
            CarouselCommand::Next => match self.boundary {
                CarouselBoundary::Bounded => if self.can_next() {
                    self.index + 1
                } else {
                    self.index
                },
                CarouselBoundary::Wrap => if self.slide_count == 0 {
                    0
                } else if self.index == self.slide_count - 1 {
                    0
                } else {
                    self.index + 1
                },
            },
            CarouselCommand::First => 0,
            CarouselCommand::Last => self.slide_count.saturating_sub(1),
        };
        CarouselState { index, slide_count: self.slide_count, boundary: self.boundary }
    }

    pub fn reduce_event(self, event: CarouselEvent) -> (r: CarouselState)
        ensures
            r.position() == match event {
                CarouselEvent::Navigate(command) => stepped(self.position(), self.count(), self.boundary_mode(), command),
                CarouselEvent::Select(index) => normalized(index as int, self.count(), self.boundary_mode()),
            },
            r.count() == self.count(),
            r.boundary_mode() == self.boundary_mode(),
            r.valid(),
    {
        match event {
            CarouselEvent::Navigate(command) => self.reduce(command),
            CarouselEvent::Select(index) => CarouselState::new(index, self.slide_count, self.boundary),
        }
    }

    /// Applies an emitted event and reports whether the selected index changed.
    pub fn apply(&mut self, event: CarouselEvent) -> (changed: bool)
        ensures
            final(self).position() == match event {
                CarouselEvent::Navigate(command) => stepped(
                    old(self).position(),
                    old(self).count(),
                    old(self).boundary_mode(),
                    command,
                ),
                CarouselEvent::Select(index) => normalized(index as int, old(self).count(), old(self).boundary_mode()),
            },
            final(self).count() == old(self).count(),
            final(self).boundary_mode() == old(self).boundary_mode(),
            changed == (final(self).position() != old(self).position()),
    {
        let next = self.reduce_event(event);
        let changed = next.index != self.index;
        *self = next;
        changed
    }

    /// The event a control emits for `command`, or `None` when it would not
    /// move the carousel.
    pub fn changed_event(self, command: CarouselCommand) -> (r: Option<CarouselEvent>)
        ensures
            r == if stepped(self.position(), self.count(), self.boundary_mode(), command) == self.position() {
                None
            } else {
                Some(CarouselEvent::Navigate(command))
            },
    {
        if self.reduce(command).index == self.index {
            None
        } else {
            Some(CarouselEvent::Navigate(command))
        }
    }
}

/// Maps a focused left-to-right carousel's keyboard input to a command.
pub fn keyboard_command(key: &Key, orientation: CarouselOrientation) -> (r: Option<CarouselCommand>)
    ensures
        r == key_command(*key, orientation, Direction::LeftToRight),
{
    keyboard_command_in_direction(key, orientation, Direction::LeftToRight)
}

/// The command for a key: Home and End jump, the arrows along the carousel's
/// axis step (swapped horizontally in right-to-left layouts).
pub open spec fn key_command(key: Key, orientation: CarouselOrientation, direction: Direction) -> Option<CarouselCommand> {
    let horizontal = orientation == CarouselOrientation::Horizontal;
    let ltr = direction == Direction::LeftToRight;
    match key {
        Key::Home => Some(CarouselCommand::First),
        Key::End => Some(CarouselCommand::Last),
        Key::ArrowLeft => if horizontal {
            Some(
                if ltr {
                    CarouselCommand::Previous
                } else {
                    CarouselCommand::Next
                },
            )
        } else {
            None
        },
        Key::ArrowRight => if horizontal {
            Some(
                if ltr {
                    CarouselCommand::Next
                } else {
                    CarouselCommand::Previous
                },
            )
        } else {
            None
        },
        Key::ArrowUp => if horizontal {
            None
        } else {
            Some(CarouselCommand::Previous)
        },
        Key::ArrowDown => if horizontal {
            None
        } else {
            Some(CarouselCommand::Next)
        },
        _ => None,
    }
}

pub fn keyboard_command_in_direction(key: &Key, orientation: CarouselOrientation, direction: Direction) -> (r:
    Option<CarouselCommand>)
    ensures
        r == key_command(*key, orientation, direction),
{
    let horizontal = orientation == CarouselOrientation::Horizontal;
    let ltr = direction == Direction::LeftToRight;
    match key {
        Key::Home => Some(CarouselCommand::First),
        Key::End => Some(CarouselCommand::Last),
        Key::ArrowLeft => if horizontal {
            Some(
                if ltr {
                    CarouselCommand::Previous
                } else {
                    CarouselCommand::Next
                },
            )
        } else {
            None
        },
        Key::ArrowRight => if horizontal {
            Some(
                if ltr {
                    CarouselCommand::Next
                } else {
                    CarouselCommand::Previous
                },
            )
        } else {
            None
        },
        Key::ArrowUp => if horizontal {
            None
        } else {
            Some(CarouselCommand::Previous)
        },
        Key::ArrowDown => if horizontal {
            None
        } else {
            Some(CarouselCommand::Next)
        },
        _ => None,
    }
}


/// In a wrapping carousel, Next then Previous returns to the same slide, and
/// so does Previous then Next.
pub proof fn lemma_wrap_steps_invert(index: int, count: int)
    requires
        0 <= index < count,
    ensures
        stepped(stepped(index, count, CarouselBoundary::Wrap, CarouselCommand::Next), count, CarouselBoundary::Wrap, CarouselCommand::Previous) == index,
        stepped(stepped(index, count, CarouselBoundary::Wrap, CarouselCommand::Previous), count, CarouselBoundary::Wrap, CarouselCommand::Next) == index,
{
}

/// In a bounded carousel, Previous then Next returns to the same slide unless
/// it started on the first one, and Next then Previous unless it started on
/// the last one.
pub proof fn lemma_bounded_steps_invert(index: int, count: int)
    requires
        0 <= index < count,
    ensures
        index > 0 ==> stepped(stepped(index, count, CarouselBoundary::Bounded, CarouselCommand::Previous), count, CarouselBoundary::Bounded, CarouselCommand::Next) == index,
        index < count - 1 ==> stepped(stepped(index, count, CarouselBoundary::Bounded, CarouselCommand::Next), count, CarouselBoundary::Bounded, CarouselCommand::Previous) == index,
{
}


/// First jumps to the first slide and Last to the last one, whatever slide
/// was shown and whichever the boundary.
pub proof fn lemma_first_and_last_jump(index: int, count: int, boundary: CarouselBoundary)
    requires
        if count == 0 { index == 0 } else { 0 <= index < count },
    ensures
        stepped(index, count, boundary, CarouselCommand::First) == 0,
        count > 0 ==> stepped(index, count, boundary, CarouselCommand::Last) == count - 1,
        count == 0 ==> stepped(index, count, boundary, CarouselCommand::Last) == 0,
{
}


/// Previous and Next move by one slide; at an edge a bounded carousel stays
/// and a wrapping one goes round to the other end.
pub proof fn lemma_steps_move_one(index: int, count: int)
    requires
        0 <= index < count,
    ensures
        stepped(index, count, CarouselBoundary::Bounded, CarouselCommand::Next) == if index + 1 < count {
            index + 1
        } else {
            index
        },
        stepped(index, count, CarouselBoundary::Bounded, CarouselCommand::Previous) == if index > 0 {
            index - 1
        } else {
            index
        },
        stepped(index, count, CarouselBoundary::Wrap, CarouselCommand::Next) == (index + 1) % count,
        stepped(index, count, CarouselBoundary::Wrap, CarouselCommand::Previous) == (index + count - 1) % count,
{
    if index + 1 == count {
        vstd::arithmetic::div_mod::lemma_mod_add_multiples_vanish(0, count);
        assert((index + 1) % count == 0);
    } else {
        vstd::arithmetic::div_mod::lemma_small_mod((index + 1) as nat, count as nat);
    }
    if index == 0 {
        vstd::arithmetic::div_mod::lemma_small_mod((count - 1) as nat, count as nat);
    } else {
        vstd::arithmetic::div_mod::lemma_mod_add_multiples_vanish(index - 1, count);
        vstd::arithmetic::div_mod::lemma_small_mod((index - 1) as nat, count as nat);
        assert(count + (index - 1) == index + count - 1);
    }
}

/// Every step keeps a valid position valid: the slide exists, or the index
/// is 0 when there are none.
pub proof fn lemma_steps_stay_in_range(index: int, count: int, boundary: CarouselBoundary, command: CarouselCommand)
    requires
        if count == 0 { index == 0 } else { 0 <= index < count },
    ensures
        ({
            let next = stepped(index, count, boundary, command);
            if count == 0 { next == 0 } else { 0 <= next < count }
        }),
{
}


/// The command of a swipe that passed the distance and axis tests:
/// `negative` when it moved towards smaller coordinates along the carousel's
/// axis. Horizontally a leftward swipe advances in left-to-right layouts and
/// goes back in right-to-left ones; vertically an upward swipe advances.
pub fn swipe_direction_command(negative: bool, orientation: CarouselOrientation, direction: Direction) -> (r:
    CarouselCommand)
    ensures
        r == (if (orientation == CarouselOrientation::Vertical || direction == Direction::LeftToRight) == negative {
            CarouselCommand::Next
        } else {
            CarouselCommand::Previous
        }),
{
    match orientation {
        CarouselOrientation::Horizontal => match (negative, direction) {
            (true, Direction::LeftToRight) | (false, Direction::RightToLeft) => CarouselCommand::Next,
            _ => CarouselCommand::Previous,
        },
        CarouselOrientation::Vertical => if negative {
            CarouselCommand::Next
        } else {
            CarouselCommand::Previous
        },
    }
}

} // verus!
