//! Transcript rows of a message scroller: their stable identities, which rows
//! are scroll anchors, how a new transcript lines up with the previous one,
//! and what a new row list decides: the anchor to scroll to, the handled
//! anchors, and the unread counts.

use vstd::prelude::*;
use crate::keys::Key;

verus! {

/// Where a transcript starts out scrolled to.
#[derive(Debug, Clone, Copy, Default, PartialEq, Eq, Structural)]
pub enum MessageScrollerInitialPosition {
    Start,
    #[default]
    End,
    LastAnchor,
}

/// Where a scrolled-to row lands in the viewport.
#[derive(Debug, Clone, Copy, Default, PartialEq, Eq, Structural)]
pub enum MessageScrollerAlignment {
    #[default]
    Start,
    Center,
    End,
    Nearest,
}

/// A scroll request.
#[derive(Debug, Clone, PartialEq, Eq)]
pub enum MessageScrollerCommand {
    Start,
    End,
    LineUp,
    LineDown,
    PageUp,
    PageDown,
    Item { id: String, alignment: MessageScrollerAlignment },
}

/// Stable identity of one transcript row, and whether it anchors scrolling.
#[derive(Debug, Clone, PartialEq, Eq)]
pub struct MessageScrollerItemMeta {
    id: String,
    scroll_anchor: bool,
}

impl MessageScrollerItemMeta {
    pub closed spec fn id_text(self) -> Seq<char> {
        self.id@
    }

    pub closed spec fn anchors(self) -> bool {
        self.scroll_anchor
    }

    /// A row that does not anchor scrolling.
    pub fn new(id: &str) -> (r: MessageScrollerItemMeta)
        ensures
            r.id_text() == id@,
            !r.anchors(),
    {
        MessageScrollerItemMeta { id: id.to_owned(), scroll_anchor: false }
    }

    /// The same row, anchoring scrolling or not.
    pub fn scroll_anchor(self, scroll_anchor: bool) -> (r: MessageScrollerItemMeta)
        ensures
            r.id_text() == self.id_text(),
            r.anchors() == scroll_anchor,
    {
        MessageScrollerItemMeta { scroll_anchor, ..self }
    }

    pub fn id(&self) -> (r: &str)
        ensures
            r@ == self.id_text(),
    {
        self.id.as_str()
    }

    pub fn is_scroll_anchor(&self) -> (r: bool)
        ensures
            r == self.anchors(),
    {
        self.scroll_anchor
    }
}

/// Index of the first row of `rows` whose ID is `id`.
pub open spec fn first_with_id(rows: Seq<MessageScrollerItemMeta>, id: Seq<char>) -> Option<int> {
    if exists|i: int| 0 <= i < rows.len() && rows[i].id_text() == id {
        Some(choose|i: int| 0 <= i < rows.len() && rows[i].id_text() == id && forall|j: int| 0 <= j < i ==> rows[j].id_text() != id)
    } else {
        None
    }
}

/// Where the previous transcript sits inside the next one: the rows from the
/// first occurrence of its first ID on, when the whole previous transcript
/// follows there in order. An empty previous transcript sits at the start.
pub open spec fn retained_at(previous: Seq<MessageScrollerItemMeta>, next: Seq<MessageScrollerItemMeta>) -> Option<(int, int)> {
    if previous.len() == 0 {
        Some((0, 0))
    } else {
        match first_with_id(next, previous[0].id_text()) {
            None => None,
            Some(start) => if start + previous.len() <= next.len() && forall|k: int|
                0 <= k < previous.len() ==> #[trigger] next[start + k].id_text() == previous[k].id_text() {
                Some((start, start + previous.len()))
            } else {
                None
            },
        }
    }
}

/// Index of the first row of `rows` whose ID equals `id`.
fn position_of_id(rows: &[MessageScrollerItemMeta], id: &String) -> (r: Option<usize>)
    ensures
        first_with_id(rows@, id@) == match r {
            Some(i) => Some(i as int),
            None => None::<int>,
        },
        r matches Some(i) ==> i < rows@.len(),
{
    let mut index: usize = 0;
    while index < rows.len()
        invariant
            0 <= index <= rows.len(),
            forall|j: int| 0 <= j < index ==> rows@[j].id_text() != id@,
        decreases rows.len() - index,
    {
        if rows[index].id == *id {
            proof {
                let c = choose|c: int| 0 <= c < rows@.len() && rows@[c].id_text() == id@ && forall|j: int|
                    0 <= j < c ==> rows@[j].id_text() != id@;
                assert(rows@[index as int].id_text() == id@);
                if c < index {
                } else if c > index {
                }
            }
            return Some(index);
        }
        index = index + 1;
    }
    None
}

/// Whether the IDs of `next` from `start` on repeat those of `previous`.
fn ids_follow(previous: &[MessageScrollerItemMeta], next: &[MessageScrollerItemMeta], start: usize) -> (r: bool)
    requires
        start + previous@.len() <= next@.len(),
    ensures
        r == forall|k: int| 0 <= k < previous@.len() ==> #[trigger] next@[start + k].id_text() == previous@[k].id_text(),
{
    let n = next.len();
    let mut k: usize = 0;
    while k < previous.len()
        invariant
            n == next@.len(),
            start + previous@.len() <= next@.len(),
            0 <= k <= previous.len(),
            forall|i: int| 0 <= i < k ==> #[trigger] next@[start + i].id_text() == previous@[i].id_text(),
        decreases previous.len() - k,
    {
        if next[start + k].id != previous[k].id {
            assert(next@[start + k as int].id_text() != previous@[k as int].id_text());
            return false;
        }
        k = k + 1;
    }
    true
}

/// The range of `next` that still holds the rows of `previous`, which tells
/// prepended rows from appended ones.
pub fn retained_range(previous: &[MessageScrollerItemMeta], next: &[MessageScrollerItemMeta]) -> (r: Option<(usize, usize)>)
    ensures
        retained_at(previous@, next@) == match r {
            Some((a, b)) => Some((a as int, b as int)),
            None => None::<(int, int)>,
        },
{
    if previous.len() == 0 {
        return Some((0, 0));
    }
    let start = match position_of_id(next, &previous[0].id) {
        Some(start) => start,
        None => return None,
    };
    if next.len() < previous.len() || start > next.len() - previous.len() {
        return None;
    }
    if ids_follow(previous, next, start) {
        Some((start, start + previous.len()))
    } else {
        None
    }
}

/// The scroll command of a key pressed in a focused transcript: arrows move
/// by a line, Page Up/Down and Space (Shift+Space back) by a page, Home and
/// End to the start and the live end.
pub fn keyboard_command(key: &Key, shift: bool) -> (r: Option<MessageScrollerCommand>)
    ensures
        r == match *key {
            Key::ArrowUp => Some(MessageScrollerCommand::LineUp),
            Key::ArrowDown => Some(MessageScrollerCommand::LineDown),
            Key::PageUp => Some(MessageScrollerCommand::PageUp),
            Key::PageDown => Some(MessageScrollerCommand::PageDown),
            Key::Home => Some(MessageScrollerCommand::Start),
            Key::End => Some(MessageScrollerCommand::End),
            Key::Space => if shift {
                Some(MessageScrollerCommand::PageUp)
            } else {
                Some(MessageScrollerCommand::PageDown)
            },
            _ => None,
        },
{
    match key {
        Key::ArrowUp => Some(MessageScrollerCommand::LineUp),
        Key::ArrowDown => Some(MessageScrollerCommand::LineDown),
        Key::PageUp => Some(MessageScrollerCommand::PageUp),
        Key::PageDown => Some(MessageScrollerCommand::PageDown),
        Key::Home => Some(MessageScrollerCommand::Start),
        Key::End => Some(MessageScrollerCommand::End),
        Key::Space => if shift {
            Some(MessageScrollerCommand::PageUp)
        } else {
            Some(MessageScrollerCommand::PageDown)
        },
        _ => None,
    }
}

/// What a scroller does as the transcript changes: stay at the live end,
/// hold the row with this ID at the top, or stay where the reader left it.
#[derive(Debug, Clone, PartialEq, Eq)]
pub enum ScrollMode {
    Following,
    Anchored(String),
    Free,
}

/// What a scroll command needs to know of the scroller besides its mode and
/// unread counts.
#[derive(Debug, Clone, Copy, PartialEq, Eq, Structural)]
pub struct CommandFacts {
    /// The rows were measured once.
    pub initialized: bool,
    /// A spacer below the rows is in place.
    pub spacer_present: bool,
    pub can_scroll_start: bool,
    pub can_scroll_end: bool,
    pub auto_scroll: bool,
    /// For an item command: there are no rows yet, or a row has its ID.
    pub target_known: bool,
}

/// What the viewport must reach before a programmatic scroll counts as
/// settled.
#[derive(Debug, Clone, Copy, PartialEq, Eq, Structural)]
pub enum SettleAt {
    /// The start of the transcript.
    Start,
    /// The live end.
    End,
    /// The expected offset, keeping the reader free.
    Offset,
    /// The expected offset, following again if it reaches the end.
    RearmOffset,
}

/// What the caller does for a scroll command.
#[derive(Debug, Clone, Copy, PartialEq, Eq, Structural)]
pub enum CommandAction {
    /// Nothing: the item is unknown.
    Ignore,
    /// Keep the command until the rows are measured; drop any pending target.
    Queue,
    /// Scroll to the item once measured: it becomes the pending target.
    Target,
    /// Snap to the start or the end, removing any spacer and target.
    Snap { to_end: bool, settle: Option<SettleAt>, remeasure: bool },
    /// Scroll by a line or a page, removing any spacer and target.
    ScrollBy { toward_end: bool, page: bool, settle: Option<SettleAt>, remeasure: bool },
}

/// The mode, unread counts and action after a scroll command.
pub open spec fn command_step_spec(
    mode: ScrollMode,
    unread: (usize, usize),
    facts: CommandFacts,
    command: MessageScrollerCommand,
) -> (ScrollMode, usize, usize, CommandAction) {
    let unchanged = (mode, unread.0, unread.1);
    if command is Item && !facts.target_known {
        (mode, unread.0, unread.1, CommandAction::Ignore)
    } else if command is Item {
        (ScrollMode::Free, unread.0, unread.1, CommandAction::Target)
    } else if !facts.initialized {
        (mode, unread.0, unread.1, CommandAction::Queue)
    } else {
        match command {
            MessageScrollerCommand::Start => (
                ScrollMode::Free,
                unread.0,
                unread.1,
                CommandAction::Snap {
                    to_end: false,
                    settle: if facts.can_scroll_start {
                        Some(SettleAt::Start)
                    } else {
                        None
                    },
                    remeasure: facts.spacer_present,
                },
            ),
            MessageScrollerCommand::End => (
                if facts.auto_scroll {
                    ScrollMode::Following
                } else {
                    ScrollMode::Free
                },
                0,
                0,
                CommandAction::Snap {
                    to_end: true,
                    settle: if facts.can_scroll_end {
                        Some(SettleAt::End)
                    } else {
                        None
                    },
                    remeasure: facts.spacer_present,
                },
            ),
            _ => {
                let toward_end = command is LineDown || command is PageDown;
                let can_scroll = if toward_end {
                    facts.can_scroll_end
                } else {
                    facts.can_scroll_start
                };
                (
                    if toward_end && !facts.can_scroll_end && facts.auto_scroll {
                        ScrollMode::Following
                    } else {
                        ScrollMode::Free
                    },
                    unread.0,
                    unread.1,
                    CommandAction::ScrollBy {
                        toward_end,
                        page: command is PageUp || command is PageDown,
                        settle: if !can_scroll {
                            None
                        } else if toward_end {
                            Some(SettleAt::RearmOffset)
                        } else {
                            Some(SettleAt::Offset)
                        },
                        remeasure: facts.spacer_present,
                    },
                )
            },
        }
    }
}


/// For a measured scroller, Line Up/Down move by a line and Page Up/Down by
/// a page, Down and Page Down towards the live end and the others back;
/// Start and End snap to their edge; only End clears the unread counts.
pub proof fn lemma_scroll_commands(
    mode: ScrollMode,
    unread: (usize, usize),
    facts: CommandFacts,
    command: MessageScrollerCommand,
)
    requires
        facts.initialized,
        !(command is Item),
    ensures
        ({
            let (next_mode, unread_after, pending_after, action) = command_step_spec(mode, unread, facts, command);
            &&& (command is LineUp || command is LineDown || command is PageUp || command is PageDown)
                ==> (action matches CommandAction::ScrollBy { toward_end, page, .. } && page == (command is PageUp
                || command is PageDown) && toward_end == (command is LineDown || command is PageDown))
            &&& (command is Start || command is End) ==> (action matches CommandAction::Snap { to_end, .. } && to_end
                == (command is End))
            &&& command is End ==> unread_after == 0 && pending_after == 0
            &&& !(command is End) ==> unread_after == unread.0 && pending_after == unread.1
        }),
{
}


/// An item command for an unknown row changes nothing; one for a known row
/// frees the reader and makes the row the target, before or after the rows
/// are measured; other commands wait until the rows are measured, leaving
/// mode and unread counts alone.
pub proof fn lemma_item_and_early_commands(
    mode: ScrollMode,
    unread: (usize, usize),
    facts: CommandFacts,
    command: MessageScrollerCommand,
)
    ensures
        ({
            let r = command_step_spec(mode, unread, facts, command);
            &&& command is Item && !facts.target_known ==> r == (mode, unread.0, unread.1, CommandAction::Ignore)
            &&& command is Item && facts.target_known ==> r == (ScrollMode::Free, unread.0, unread.1, CommandAction::Target)
            &&& !(command is Item) && !facts.initialized ==> r == (mode, unread.0, unread.1, CommandAction::Queue)
            &&& command is End && facts.initialized ==> r.0 == (if facts.auto_scroll {
                ScrollMode::Following
            } else {
                ScrollMode::Free
            })
            &&& command is Start && facts.initialized ==> r.0 == ScrollMode::Free
        }),
{
}

fn copy_mode(mode: &ScrollMode) -> (r: ScrollMode)
    ensures
        r == *mode,
{
    match mode {
        ScrollMode::Following => ScrollMode::Following,
        ScrollMode::Anchored(id) => ScrollMode::Anchored(id.clone()),
        ScrollMode::Free => ScrollMode::Free,
    }
}

/// One scroll command: an unknown item is ignored; an item becomes the
/// pending target and frees the reader; before the rows are measured any
/// other command waits; Start and End snap (End follows again with
/// auto-scroll and clears the unread counts); lines and pages scroll by,
/// following again when moving down from the live end with auto-scroll.
pub fn command_step(
    mode: &ScrollMode,
    unread: (usize, usize),
    facts: CommandFacts,
    command: &MessageScrollerCommand,
) -> (r: (ScrollMode, usize, usize, CommandAction))
    ensures
        r == command_step_spec(*mode, unread, facts, *command),
        facts.initialized && !(*command is Item) ==> (r.3 matches CommandAction::ScrollBy { toward_end, page, .. }
            ==> page == (*command is PageUp || *command is PageDown) && toward_end == (*command is LineDown
            || *command is PageDown)),
        facts.initialized && (*command is LineUp || *command is LineDown || *command is PageUp
            || *command is PageDown) ==> r.3 is ScrollBy,
        facts.initialized && (*command is Start || *command is End) ==> (r.3 matches CommandAction::Snap { to_end, .. }
            && to_end == (*command is End)),
        *command is End && facts.initialized ==> r.1 == 0 && r.2 == 0,
{
    let is_item = match command {
        MessageScrollerCommand::Item { .. } => true,
        _ => false,
    };
    if is_item && !facts.target_known {
        return (copy_mode(mode), unread.0, unread.1, CommandAction::Ignore);
    }
    if is_item {
        return (ScrollMode::Free, unread.0, unread.1, CommandAction::Target);
    }
    if !facts.initialized {
        return (copy_mode(mode), unread.0, unread.1, CommandAction::Queue);
    }
    match command {
        MessageScrollerCommand::Start => (
            ScrollMode::Free,
            unread.0,
            unread.1,
            CommandAction::Snap {
                to_end: false,
                settle: if facts.can_scroll_start {
                    Some(SettleAt::Start)
                } else {
                    None
                },
                remeasure: facts.spacer_present,
            },
        ),
        MessageScrollerCommand::End => (
            if facts.auto_scroll {
                ScrollMode::Following
            } else {
                ScrollMode::Free
            },
            0,
            0,
            CommandAction::Snap {
                to_end: true,
                settle: if facts.can_scroll_end {
                    Some(SettleAt::End)
                } else {
                    None
                },
                remeasure: facts.spacer_present,
            },
        ),
        _ => {
            let toward_end = match command {
                MessageScrollerCommand::LineDown | MessageScrollerCommand::PageDown => true,
                _ => false,
            };
            let page = match command {
                MessageScrollerCommand::PageUp | MessageScrollerCommand::PageDown => true,
                _ => false,
            };
            let can_scroll = if toward_end {
                facts.can_scroll_end
            } else {
                facts.can_scroll_start
            };
            let next_mode = if toward_end && !facts.can_scroll_end && facts.auto_scroll {
                ScrollMode::Following
            } else {
                ScrollMode::Free
            };
            let settle = if !can_scroll {
                None
            } else if toward_end {
                Some(SettleAt::RearmOffset)
            } else {
                Some(SettleAt::Offset)
            };
            (
                next_mode,
                unread.0,
                unread.1,
                CommandAction::ScrollBy { toward_end, page, settle, remeasure: facts.spacer_present },
            )
        },
    }
}

/// The part of a scroller's state that a new row list updates: the rows,
/// the IDs of anchors already scrolled to, and the unread counts.
#[derive(Debug, Clone, PartialEq, Eq)]
pub struct TranscriptRows {
    pub items: Vec<MessageScrollerItemMeta>,
    pub handled_anchor_ids: Vec<String>,
    pub unread_count: usize,
    pub pending_unread_count: usize,
}

/// What a new row list decided besides the rows themselves: the position of
/// the anchor to scroll to, and whether the visible row must be kept in place.
#[derive(Debug, Clone, Copy, PartialEq, Eq, Structural)]
pub struct RowsChange {
    pub new_anchor: Option<usize>,
    pub preserve_visible_row: bool,
}

/// The IDs among `keys`.
pub open spec fn key_set(keys: Seq<String>) -> Set<Seq<char>> {
    Set::new(|s: Seq<char>| exists|i: int| 0 <= i < keys.len() && keys[i]@ == s)
}

/// The IDs of `rows`.
pub open spec fn row_ids(rows: Seq<MessageScrollerItemMeta>) -> Set<Seq<char>> {
    Set::new(|s: Seq<char>| exists|i: int| 0 <= i < rows.len() && rows[i].id_text() == s)
}

/// The IDs of the anchor rows of `rows`.
pub open spec fn anchor_ids(rows: Seq<MessageScrollerItemMeta>) -> Set<Seq<char>> {
    Set::new(|s: Seq<char>| exists|i: int| 0 <= i < rows.len() && rows[i].anchors() && rows[i].id_text() == s)
}

/// The first anchor row in `rows[from..to]` whose ID is in neither `handled`
/// nor `earlier`.
pub open spec fn first_fresh_anchor(
    rows: Seq<MessageScrollerItemMeta>,
    from: int,
    to: int,
    handled: Set<Seq<char>>,
    earlier: Set<Seq<char>>,
) -> Option<int>
    decreases to - from,
{
    if from >= to {
        None
    } else if rows[from].anchors() && !handled.contains(rows[from].id_text()) && !earlier.contains(
        rows[from].id_text(),
    ) {
        Some(from)
    } else {
        first_fresh_anchor(rows, from + 1, to, handled, earlier)
    }
}

/// How many rows of `rows[from..to]` are anchors.
pub open spec fn anchor_count(rows: Seq<MessageScrollerItemMeta>, from: int, to: int) -> nat
    decreases to - from,
{
    if from >= to {
        0
    } else {
        anchor_count(rows, from + 1, to) + if rows[from].anchors() {
            1nat
        } else {
            0nat
        }
    }
}

/// Where the appended rows of `next` start: after the retained rows, or at
/// the end when the previous rows were not retained.
pub open spec fn appended_from(previous: Seq<MessageScrollerItemMeta>, next: Seq<MessageScrollerItemMeta>) -> int {
    match retained_at(previous, next) {
        Some((_, end)) => end,
        None => next.len() as int,
    }
}

/// The rows of `next` searched for an anchor that just became one: the
/// retained rows, or all rows when the list kept its length.
pub open spec fn existing_rows(previous: Seq<MessageScrollerItemMeta>, next: Seq<MessageScrollerItemMeta>) -> Option<(int, int)> {
    match retained_at(previous, next) {
        Some(range) => Some(range),
        None => if next.len() == previous.len() {
            Some((0, next.len() as int))
        } else {
            None
        },
    }
}

/// The anchor a new row list scrolls to. None for a first list, after rows
/// were prepended, or while an explicit scroll target waits. Otherwise an
/// existing row that just became an anchor; else the first appended anchor,
/// unless a following scroller with auto-scroll got several at once.
pub open spec fn chosen_anchor(
    previous: Seq<MessageScrollerItemMeta>,
    next: Seq<MessageScrollerItemMeta>,
    handled: Set<Seq<char>>,
    explicit_target_pending: bool,
    auto_following: bool,
) -> Option<int> {
    let did_prepend = retained_at(previous, next) matches Some((start, _)) && start > 0;
    let from = appended_from(previous, next);
    if previous.len() == 0 || did_prepend || explicit_target_pending {
        None
    } else {
        let changed = match existing_rows(previous, next) {
            Some((a, b)) => first_fresh_anchor(next, a, b, handled, anchor_ids(previous)),
            None => None,
        };
        if changed is Some {
            changed
        } else if from < next.len() {
            if auto_following && anchor_count(next, from, next.len() as int) > 1 {
                None
            } else {
                first_fresh_anchor(next, from, next.len() as int, Set::empty(), Set::empty())
            }
        } else {
            None
        }
    }
}

/// `count` plus `more`, stopping at the largest `usize`.
pub open spec fn saturating(count: usize, more: int) -> usize {
    if count + more > usize::MAX {
        usize::MAX
    } else {
        (count + more) as usize
    }
}

proof fn lemma_key_set_push(keys: Seq<String>, key: String)
    ensures
        key_set(keys.push(key)) == key_set(keys).insert(key@),
{
    let pushed = keys.push(key);
    assert forall|s: Seq<char>| key_set(keys).insert(key@).contains(s) implies key_set(pushed).contains(s) by {
        if s == key@ {
            assert(pushed[keys.len() as int]@ == s);
        } else {
            let i = choose|i: int| 0 <= i < keys.len() && keys[i]@ == s;
            assert(pushed[i]@ == s);
        }
    }
    assert forall|s: Seq<char>| key_set(pushed).contains(s) implies key_set(keys).insert(key@).contains(s) by {
        let i = choose|i: int| 0 <= i < pushed.len() && pushed[i]@ == s;
        if i < keys.len() {
            assert(keys[i]@ == s);
        }
    }
    assert(key_set(pushed) =~= key_set(keys).insert(key@));
}

/// Whether `keys` holds `id`.
fn holds_key(keys: &[String], id: &String) -> (r: bool)
    ensures
        r == key_set(keys@).contains(id@),
{
    let mut i: usize = 0;
    while i < keys.len()
        invariant
            0 <= i <= keys.len(),
            forall|k: int| 0 <= k < i ==> keys@[k]@ != id@,
        decreases keys.len() - i,
    {
        if keys[i] == *id {
            assert(keys@[i as int]@ == id@);
            return true;
        }
        i = i + 1;
    }
    false
}

/// Whether a row of `rows` has the ID `id`; only anchor rows count when
/// `anchors_only`.
fn has_row(rows: &[MessageScrollerItemMeta], id: &String, anchors_only: bool) -> (r: bool)
    ensures
        r == if anchors_only {
            anchor_ids(rows@).contains(id@)
        } else {
            row_ids(rows@).contains(id@)
        },
{
    let mut i: usize = 0;
    while i < rows.len()
        invariant
            0 <= i <= rows.len(),
            forall|k: int|
                0 <= k < i ==> rows@[k].id_text() != id@ || (anchors_only && !rows@[k].anchors()),
        decreases rows.len() - i,
    {
        if rows[i].id == *id && (!anchors_only || rows[i].scroll_anchor) {
            assert(rows@[i as int].id_text() == id@);
            return true;
        }
        i = i + 1;
    }
    false
}

/// The first anchor row in `rows[from..to]` whose ID is neither in
/// `handled` nor an anchor of `earlier`; with `fresh_only` false, the first
/// anchor row at all.
fn find_anchor(
    rows: &[MessageScrollerItemMeta],
    from: usize,
    to: usize,
    handled: &[String],
    earlier: &[MessageScrollerItemMeta],
    fresh_only: bool,
) -> (r: Option<usize>)
    requires
        from <= to <= rows@.len(),
    ensures
        match r {
            Some(i) => Some(i as int),
            None => None::<int>,
        } == if fresh_only {
            first_fresh_anchor(rows@, from as int, to as int, key_set(handled@), anchor_ids(earlier@))
        } else {
            first_fresh_anchor(rows@, from as int, to as int, Set::empty(), Set::empty())
        },
        r matches Some(i) ==> from <= i < to,
{
    let ghost handled_ids = if fresh_only {
        key_set(handled@)
    } else {
        Set::<Seq<char>>::empty()
    };
    let ghost earlier_ids = if fresh_only {
        anchor_ids(earlier@)
    } else {
        Set::<Seq<char>>::empty()
    };
    let mut j = from;
    while j < to
        invariant
            from <= j <= to <= rows@.len(),
            handled_ids == if fresh_only {
                key_set(handled@)
            } else {
                Set::<Seq<char>>::empty()
            },
            earlier_ids == if fresh_only {
                anchor_ids(earlier@)
            } else {
                Set::<Seq<char>>::empty()
            },
            first_fresh_anchor(rows@, from as int, to as int, handled_ids, earlier_ids)
                == first_fresh_anchor(rows@, j as int, to as int, handled_ids, earlier_ids),
        decreases to - j,
    {
        let row = &rows[j];
        if row.scroll_anchor && (!fresh_only || (!holds_key(handled, &row.id) && !has_row(earlier, &row.id, true))) {
            return Some(j);
        }
        j = j + 1;
    }
    None
}

/// How many rows of `rows[from..to]` are anchors.
fn count_anchors(rows: &[MessageScrollerItemMeta], from: usize, to: usize) -> (r: usize)
    requires
        from <= to <= rows@.len(),
    ensures
        r == anchor_count(rows@, from as int, to as int),
{
    let mut count: usize = 0;
    let mut j = to;
    while j > from
        invariant
            from <= j <= to <= rows@.len(),
            count == anchor_count(rows@, j as int, to as int),
            count <= to - j,
        decreases j - from,
    {
        j = j - 1;
        if rows[j].scroll_anchor {
            count = count + 1;
        }
    }
    count
}

proof fn lemma_no_fresh_anchor_among_earlier(
    rows: Seq<MessageScrollerItemMeta>,
    from: int,
    to: int,
    handled: Set<Seq<char>>,
)
    requires
        0 <= from,
        to <= rows.len(),
    ensures
        first_fresh_anchor(rows, from, to, handled, anchor_ids(rows)) is None,
    decreases to - from,
{
    if from < to {
        if rows[from].anchors() {
            assert(anchor_ids(rows).contains(rows[from].id_text()));
        }
        lemma_no_fresh_anchor_among_earlier(rows, from + 1, to, handled);
    }
}

/// Sending the same rows again never picks an anchor: an anchor row that was
/// already an anchor is not new, and nothing was appended.
pub proof fn lemma_same_rows_pick_no_anchor(
    rows: Seq<MessageScrollerItemMeta>,
    handled: Set<Seq<char>>,
    explicit_target_pending: bool,
    auto_following: bool,
)
    ensures
        chosen_anchor(rows, rows, handled, explicit_target_pending, auto_following) is None,
{
    if rows.len() > 0 {
        assert(rows[0].id_text() == rows[0].id_text());
        let start = first_with_id(rows, rows[0].id_text())->0;
        assert(start == 0) by {
            if start > 0 {
                assert(rows[0].id_text() != rows[0].id_text());
            }
        }
        assert(retained_at(rows, rows) == Some((0int, rows.len() as int)));
        lemma_no_fresh_anchor_among_earlier(rows, 0, rows.len() as int, handled);
    }
}

impl TranscriptRows {
    /// Takes a new row list. It decides the anchor to scroll to, forgets
    /// handled anchors whose rows are gone and remembers the new one, counts
    /// appended rows as unread while the reader is away from the live end
    /// (or as pending while a free reader is at it), and tells whether the
    /// visible row must be kept in place.
    pub fn sync(
        &mut self,
        items: Vec<MessageScrollerItemMeta>,
        mode: &ScrollMode,
        auto_scroll: bool,
        initialized: bool,
        can_scroll_end: bool,
        explicit_target_pending: bool,
    ) -> (r: RowsChange)
        ensures
            final(self).items@ == items@,
            match r.new_anchor {
                Some(i) => Some(i as int),
                None => None::<int>,
            } == chosen_anchor(
                old(self).items@,
                items@,
                key_set(old(self).handled_anchor_ids@),
                explicit_target_pending,
                auto_scroll && *mode == ScrollMode::Following,
            ),
            r.new_anchor matches Some(i) ==> i < items@.len(),
            key_set(final(self).handled_anchor_ids@) == match r.new_anchor {
                Some(i) => key_set(old(self).handled_anchor_ids@).intersect(row_ids(items@)).insert(
                    items@[i as int].id_text(),
                ),
                None => key_set(old(self).handled_anchor_ids@).intersect(row_ids(items@)),
            },
            ({
                let appended = items@.len() - appended_from(old(self).items@, items@);
                if initialized && old(self).items@.len() > 0 && appended > 0 {
                    if r.new_anchor is Some || (*mode != ScrollMode::Following && can_scroll_end) {
                        final(self).unread_count == saturating(old(self).unread_count, appended)
                            && final(self).pending_unread_count == old(self).pending_unread_count
                    } else if *mode == ScrollMode::Free {
                        final(self).unread_count == old(self).unread_count
                            && final(self).pending_unread_count == saturating(
                            old(self).pending_unread_count,
                            appended,
                        )
                    } else {
                        final(self).unread_count == old(self).unread_count
                            && final(self).pending_unread_count == old(self).pending_unread_count
                    }
                } else {
                    final(self).unread_count == old(self).unread_count
                        && final(self).pending_unread_count == old(self).pending_unread_count
                }
            }),
            r.preserve_visible_row == (initialized && r.new_anchor is None && !explicit_target_pending
                && *mode == ScrollMode::Free),
    {
        let following = match mode {
            ScrollMode::Following => true,
            _ => false,
        };
        let free = match mode {
            ScrollMode::Free => true,
            _ => false,
        };
        let retained = retained_range(self.items.as_slice(), items.as_slice());
        proof {
            if retained is Some {
                let (a, b) = retained->0;
                if self.items@.len() > 0 {
                    let start = first_with_id(items@, self.items@[0].id_text())->0;
                    assert(a == start && b == start + self.items@.len());
                }
            }
        }
        let did_prepend = match retained {
            Some((start, _)) => start > 0,
            None => false,
        };
        let appended_start = match retained {
            Some((_, end)) => end,
            None => items.len(),
        };
        let new_anchor = if self.items.len() == 0 || did_prepend || explicit_target_pending {
            None
        } else {
            let existing = match retained {
                Some(range) => Some(range),
                None => if items.len() == self.items.len() {
                    Some((0, items.len()))
                } else {
                    None
                },
            };
            let changed = match existing {
                Some((a, b)) => find_anchor(
                    items.as_slice(),
                    a,
                    b,
                    self.handled_anchor_ids.as_slice(),
                    self.items.as_slice(),
                    true,
                ),
                None => None,
            };
            if changed.is_some() {
                changed
            } else if appended_start < items.len() {
                if auto_scroll && following && count_anchors(items.as_slice(), appended_start, items.len()) > 1 {
                    None
                } else {
                    find_anchor(items.as_slice(), appended_start, items.len(), &[], &[], false)
                }
            } else {
                None
            }
        };
        let appended = items.len() - appended_start;
        if initialized && self.items.len() > 0 && appended > 0 {
            if new_anchor.is_some() || (!following && can_scroll_end) {
                self.unread_count = self.unread_count.saturating_add(appended);
            } else if free {
                self.pending_unread_count = self.pending_unread_count.saturating_add(appended);
            }
        }
        let preserve_visible_row = initialized && new_anchor.is_none() && !explicit_target_pending && free;

        let ghost old_handled = self.handled_anchor_ids@;
        let mut handled: Vec<String> = Vec::new();
        let mut i: usize = 0;
        while i < self.handled_anchor_ids.len()
            invariant
                self.handled_anchor_ids@ == old_handled,
                0 <= i <= old_handled.len(),
                key_set(handled@) == key_set(old_handled.take(i as int)).intersect(row_ids(items@)),
            decreases old_handled.len() - i,
        {
            proof {
                assert(old_handled.take(i as int + 1) =~= old_handled.take(i as int).push(old_handled[i as int]));
                lemma_key_set_push(old_handled.take(i as int), old_handled[i as int]);
            }
            if has_row(items.as_slice(), &self.handled_anchor_ids[i], false) {
                let id = self.handled_anchor_ids[i].clone();
                proof {
                    lemma_key_set_push(handled@, id);
                }
                handled.push(id);
            }
            proof {
                assert(key_set(handled@) =~= key_set(old_handled.take(i as int + 1)).intersect(row_ids(items@)));
            }
            i = i + 1;
        }
        proof {
            assert(old_handled.take(old_handled.len() as int) =~= old_handled);
        }
        match new_anchor {
            Some(index) => {
                let id = items[index].id.clone();
                proof {
                    lemma_key_set_push(handled@, id);
                }
                handled.push(id);
            },
            None => {},
        }
        self.handled_anchor_ids = handled;
        self.items = items;
        RowsChange { new_anchor, preserve_visible_row }
    }
}

} // verus!
