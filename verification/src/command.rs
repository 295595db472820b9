//! A controlled command palette: query and active item, searchable results in
//! ordered groups, and keyboard movement over enabled results.

use vstd::prelude::*;
use crate::keys::Key;
use crate::roving::{any_enabled, first_enabled, first_enabled_at, last_enabled, last_enabled_at, nearest, nearest_enabled};
use crate::text::{
    chars_of, collapse, lemma_decimal_digits, lemma_decimal_injective, lemma_digit_runs_agree, first_index, lemma_first_index, lowercase, occurs, occurs_in, push_char,
    push_decimal, decimal, split_on, string_of, to_lowercase, utf8_len, lemma_same_bytes_same_prefix,
};

verus! {

/// Lower-cased text with runs of whitespace collapsed to single spaces and
/// trimmed at both ends.
pub open spec fn normalized(text: Seq<char>) -> Seq<char> {
    lowercase(collapse(text))
}

/// Lowercases Unicode and collapses whitespace for predictable matching.
pub fn normalize_query(value: &str) -> (r: String)
    ensures
        r@ == normalized(value@),
{
    let chars = chars_of(value);
    let collapsed = crate::text::collapse_whitespace(&chars);
    let text = string_of(&collapsed);
    to_lowercase(text.as_str())
}

/// Query and active item owned by the application.
#[derive(Debug, Clone, Default, PartialEq, Eq)]
pub struct CommandState {
    query: String,
    active: Option<String>,
}

pub open spec fn opt_text(value: Option<String>) -> Option<Seq<char>> {
    match value {
        Some(text) => Some(text@),
        None => None,
    }
}

/// A query update, keyboard highlight move, or item selection.
#[derive(Debug, Clone, PartialEq, Eq)]
pub enum CommandEvent<Value> {
    QueryChanged(String),
    /// `focus_item` is true when navigation started on a focused result item;
    /// the caller then moves focus to the new item.
    Navigate { item_id: String, focus_item: bool },
    Selected { item_id: String, value: Value },
}

/// What applying `event` to `before` leaves: a new query clears the active
/// item; navigation and selection make their item active.
pub open spec fn event_applied<Value>(event: CommandEvent<Value>, before: CommandState, after: CommandState) -> bool {
    match event {
        CommandEvent::QueryChanged(query) => {
            &&& after.query_text() == query@
            &&& after.active_id() is None
        },
        CommandEvent::Navigate { item_id, .. } | CommandEvent::Selected { item_id, .. } => {
            &&& after.query_text() == before.query_text()
            &&& after.active_id() == Some(item_id@)
        },
    }
}

impl CommandState {
    pub closed spec fn query_text(self) -> Seq<char> {
        self.query@
    }

    pub closed spec fn active_id(self) -> Option<Seq<char>> {
        opt_text(self.active)
    }

    pub fn new(query: &str) -> (r: CommandState)
        ensures
            r.query_text() == query@,
            r.active_id() is None,
    {
        CommandState { query: query.to_owned(), active: None }
    }

    pub fn query(&self) -> (r: &str)
        ensures
            r@ == self.query_text(),
    {
        self.query.as_str()
    }

    pub fn active(&self) -> (r: Option<&str>)
        ensures
            match r {
                Some(text) => self.active_id() == Some(text@),
                None => self.active_id() is None,
            },
    {
        match &self.active {
            Some(active) => Some(active.as_str()),
            None => None,
        }
    }

    /// Replaces the query and clears the active item.
    pub fn set_query(&mut self, query: &str)
        ensures
            final(self).query_text() == query@,
            final(self).active_id() is None,
    {
        self.query = query.to_owned();
        self.active = None;
    }

    pub fn set_active(&mut self, active: &str)
        ensures
            final(self).query_text() == old(self).query_text(),
            final(self).active_id() == Some(active@),
    {
        self.active = Some(active.to_owned());
    }

    pub fn clear_active(&mut self)
        ensures
            final(self).query_text() == old(self).query_text(),
            final(self).active_id() is None,
    {
        self.active = None;
    }

    /// Applies the controlled part of an event and reports whether the query
    /// or the active item changed: a new query clears the active item;
    /// navigation and selection make their item active.
    pub fn apply<Value>(&mut self, event: &CommandEvent<Value>) -> (changed: bool)
        ensures
            event_applied(*event, *old(self), *final(self)),
            changed == (final(self).query_text() != old(self).query_text() || final(self).active_id()
                != old(self).active_id()),
    {
        match event {
            CommandEvent::QueryChanged(query) => {
                let same_query = self.query == *query;
                if same_query && self.active.is_none() {
                    false
                } else {
                    self.query = query.clone();
                    self.active = None;
                    true
                }
            },
            CommandEvent::Navigate { item_id, .. } | CommandEvent::Selected { item_id, .. } => {
                let same = match &self.active {
                    Some(active) => *active == *item_id,
                    None => false,
                };
                if same {
                    false
                } else {
                    self.active = Some(item_id.clone());
                    true
                }
            },
        }
    }
}

impl<Value> CommandEvent<Value> {
    pub fn item_id(&self) -> (r: Option<&str>)
        ensures
            match *self {
                CommandEvent::QueryChanged(_) => r is None,
                CommandEvent::Navigate { item_id, .. } | CommandEvent::Selected { item_id, .. } => r matches Some(
                    text,
                ) && text@ == item_id@,
            },
    {
        match self {
            CommandEvent::QueryChanged(_) => None,
            CommandEvent::Navigate { item_id, .. } => Some(item_id.as_str()),
            CommandEvent::Selected { item_id, .. } => Some(item_id.as_str()),
        }
    }

    pub fn selection(&self) -> (r: Option<&Value>)
        ensures
            match *self {
                CommandEvent::Selected { value, .. } => r == Some(&value),
                _ => r is None,
            },
    {
        match self {
            CommandEvent::Selected { value, .. } => Some(value),
            _ => None,
        }
    }

    /// The result item that should receive focus after this event: only
    /// navigation that started on a focused result moves focus; navigation
    /// from the input keeps native text editing focus.
    pub fn focus_item(&self) -> (r: Option<&str>)
        ensures
            match *self {
                CommandEvent::Navigate { item_id, focus_item: true } => r matches Some(text) && text@
                    == item_id@,
                _ => r is None,
            },
    {
        match self {
            CommandEvent::Navigate { item_id, focus_item: true } => Some(item_id.as_str()),
            _ => None,
        }
    }
}

/// One searchable command result.
#[derive(Debug, Clone, PartialEq, Eq)]
pub struct CommandItem<Value> {
    id: String,
    value: Value,
    label: String,
    keywords: Vec<String>,
    shortcut: Option<String>,
    disabled: bool,
}

/// Text searched for a query: the normalized label, then a space and each
/// normalized keyword in turn.
pub open spec fn haystack(label: Seq<char>, keywords: Seq<String>) -> Seq<char>
    decreases keywords.len(),
{
    if keywords.len() == 0 {
        normalized(label)
    } else {
        haystack(label, keywords.drop_last()) + seq![' '] + normalized(keywords.last()@)
    }
}

/// Every piece of `terms` occurs in `text`.
pub open spec fn all_occur(terms: Seq<Seq<char>>, text: Seq<char>) -> bool {
    forall|i: int| 0 <= i < terms.len() ==> occurs_in(#[trigger] terms[i], text)
}

/// A query matches text when, once normalized, it is empty or each of its
/// space-separated terms occurs in the text.
pub open spec fn query_matches(query: Seq<char>, text: Seq<char>) -> bool {
    let q = normalized(query);
    q.len() == 0 || all_occur(split_on(q, ' '), text)
}

pub fn command_item<Value>(id: &str, value: Value, label: &str) -> (r: CommandItem<Value>)
    ensures
        r.id_text() == id@,
        r.item_value() == value,
        r.label_text() == label@,
        r.keyword_texts().len() == 0,
        r.shortcut_text() is None,
        !r.is_disabled_spec(),
{
    CommandItem {
        id: id.to_owned(),
        value,
        label: label.to_owned(),
        keywords: Vec::new(),
        shortcut: None,
        disabled: false,
    }
}

impl<Value> CommandItem<Value> {
    pub closed spec fn id_text(self) -> Seq<char> {
        self.id@
    }

    pub closed spec fn item_value(self) -> Value {
        self.value
    }

    pub closed spec fn label_text(self) -> Seq<char> {
        self.label@
    }

    pub closed spec fn keyword_texts(self) -> Seq<String> {
        self.keywords@
    }

    pub closed spec fn shortcut_text(self) -> Option<Seq<char>> {
        opt_text(self.shortcut)
    }

    pub closed spec fn is_disabled_spec(self) -> bool {
        self.disabled
    }

    /// Whether the item is a result for `query`.
    pub open spec fn matches_query(self, query: Seq<char>) -> bool {
        query_matches(query, haystack(self.label_text(), self.keyword_texts()))
    }

    pub fn id(&self) -> (r: &str)
        ensures
            r@ == self.id_text(),
    {
        self.id.as_str()
    }

    pub fn value(&self) -> (r: &Value)
        ensures
            *r == self.item_value(),
    {
        &self.value
    }

    pub fn label(&self) -> (r: &str)
        ensures
            r@ == self.label_text(),
    {
        self.label.as_str()
    }

    pub fn is_disabled(&self) -> (r: bool)
        ensures
            r == self.is_disabled_spec(),
    {
        self.disabled
    }

    pub fn keywords(self, keywords: &[&str]) -> (r: CommandItem<Value>)
        ensures
            r.keyword_texts().len() == keywords@.len(),
            forall|i: int| 0 <= i < keywords@.len() ==> (#[trigger] r.keyword_texts()[i])@ == keywords@[i]@,
            r.id_text() == self.id_text(),
            r.item_value() == self.item_value(),
            r.label_text() == self.label_text(),
            r.shortcut_text() == self.shortcut_text(),
            r.is_disabled_spec() == self.is_disabled_spec(),
    {
        let mut words: Vec<String> = Vec::new();
        let mut index: usize = 0;
        while index < keywords.len()
            invariant
                0 <= index <= keywords.len(),
                words@.len() == index,
                forall|i: int| 0 <= i < index ==> (#[trigger] words@[i])@ == keywords@[i]@,
            decreases keywords.len() - index,
        {
            words.push(keywords[index].to_owned());
            index = index + 1;
        }
        CommandItem { keywords: words, ..self }
    }

    pub fn shortcut(self, shortcut: &str) -> (r: CommandItem<Value>)
        ensures
            r.shortcut_text() == Some(shortcut@),
            r.id_text() == self.id_text(),
            r.item_value() == self.item_value(),
            r.label_text() == self.label_text(),
            r.keyword_texts() == self.keyword_texts(),
            r.is_disabled_spec() == self.is_disabled_spec(),
    {
        CommandItem { shortcut: Some(shortcut.to_owned()), ..self }
    }

    pub fn disabled(self, disabled: bool) -> (r: CommandItem<Value>)
        ensures
            r.is_disabled_spec() == disabled,
            r.id_text() == self.id_text(),
            r.item_value() == self.item_value(),
            r.label_text() == self.label_text(),
            r.keyword_texts() == self.keyword_texts(),
            r.shortcut_text() == self.shortcut_text(),
    {
        CommandItem { disabled, ..self }
    }

    /// Whether the normalized query is empty or each of its terms occurs in
    /// the normalized label or keywords.
    pub fn matches(&self, query: &str) -> (r: bool)
        ensures
            r == self.matches_query(query@),
    {
        let query = normalize_query(query);
        let query = chars_of(query.as_str());
        if query.len() == 0 {
            return true;
        }
        let haystack = self.haystack_chars();
        assert(query@.skip(0) =~= query@);
        terms_occur(&query, 0, &haystack)
    }

    fn haystack_chars(&self) -> (r: Vec<char>)
        ensures
            r@ == haystack(self.label_text(), self.keyword_texts()),
    {
        let label = normalize_query(self.label.as_str());
        let mut text = label;
        let mut index: usize = 0;
        while index < self.keywords.len()
            invariant
                0 <= index <= self.keywords.len(),
                text@ == haystack(self.label_text(), self.keyword_texts().take(index as int)),
            decreases self.keywords.len() - index,
        {
            push_char(&mut text, ' ');
            let keyword = normalize_query(self.keywords[index].as_str());
            text.append(keyword.as_str());
            proof {
                let next = self.keyword_texts().take(index as int + 1);
                assert(next.drop_last() =~= self.keyword_texts().take(index as int));
                assert(next.last() == self.keyword_texts()[index as int]);
            }
            index = index + 1;
        }
        proof {
            assert(self.keyword_texts().take(self.keywords@.len() as int) =~= self.keyword_texts());
            assert(self.keyword_texts().take(0) =~= Seq::<String>::empty());
        }
        chars_of(text.as_str())
    }
}

proof fn lemma_all_occur_split(first: Seq<char>, rest: Seq<Seq<char>>, text: Seq<char>)
    ensures
        all_occur(seq![first] + rest, text) == (occurs_in(first, text) && all_occur(rest, text)),
{
    let whole = seq![first] + rest;
    if occurs_in(first, text) && all_occur(rest, text) {
        assert forall|i: int| 0 <= i < whole.len() implies occurs_in(#[trigger] whole[i], text) by {
            if i > 0 {
                assert(whole[i] == rest[i - 1]);
            }
        }
    }
    if all_occur(whole, text) {
        assert(whole[0] == first);
        assert forall|i: int| 0 <= i < rest.len() implies occurs_in(#[trigger] rest[i], text) by {
            assert(whole[i + 1] == rest[i]);
        }
    }
}

/// Whether every space-separated term of `query` from `start` on occurs in
/// `text`.
fn terms_occur(query: &Vec<char>, start: usize, text: &Vec<char>) -> (r: bool)
    requires
        start <= query.len(),
    ensures
        r == all_occur(split_on(query@.skip(start as int), ' '), text@),
    decreases query.len() - start,
{
    let ghost rest = query@.skip(start as int);
    proof {
        lemma_first_index(rest, ' ');
    }
    let mut end = start;
    while end < query.len() && query[end] != ' '
        invariant
            start <= end <= query.len(),
            rest == query@.skip(start as int),
            rest.len() == query@.len() - start,
            0 <= first_index(rest, ' ') <= rest.len(),
            first_index(rest, ' ') < rest.len() ==> rest[first_index(rest, ' ')] == ' ',
            forall|i: int| start <= i < end ==> query@[i] != ' ',
            end - start <= first_index(rest, ' '),
        decreases query.len() - end,
    {
        proof {
            if end - start == first_index(rest, ' ') {
                assert(rest[end - start] == query@[end as int]);
            }
        }
        end = end + 1;
    }
    proof {
        if end < query.len() {
            assert(rest[end - start] == ' ');
        }
        if end - start < first_index(rest, ' ') {
            assert(rest[end - start] != ' ');
        }
        assert(end - start == first_index(rest, ' '));
    }
    let mut term: Vec<char> = Vec::new();
    let mut index = start;
    while index < end
        invariant
            start <= index <= end <= query.len(),
            term@ == query@.subrange(start as int, index as int),
        decreases end - index,
    {
        term.push(query[index]);
        assert(query@.subrange(start as int, index as int + 1) =~= query@.subrange(start as int, index as int).push(
            query@[index as int],
        ));
        index = index + 1;
    }
    let found = occurs(&term, text);
    if end >= query.len() {
        proof {
            assert(term@ =~= rest);
            assert(split_on(rest, ' ') =~= seq![rest]);
            lemma_all_occur_split(rest, Seq::empty(), text@);
            assert(seq![rest] + Seq::<Seq<char>>::empty() =~= seq![rest]);
        }
        return found;
    }
    proof {
        assert(term@ =~= rest.take(end - start));
        assert(rest.skip(end - start + 1) =~= query@.skip(end as int + 1));
        lemma_all_occur_split(term@, split_on(query@.skip(end as int + 1), ' '), text@);
    }
    if !found {
        return false;
    }
    terms_occur(query, end + 1, text)
}

/// An ordered result group with an optional heading.
#[derive(Debug, Clone, PartialEq, Eq)]
pub struct CommandGroup<Value> {
    heading: Option<String>,
    items: Vec<CommandItem<Value>>,
}

pub fn command_group<Value>(heading: &str, items: Vec<CommandItem<Value>>) -> (r: CommandGroup<Value>)
    ensures
        r.heading_text() == Some(heading@),
        r.group_items() == items@,
{
    CommandGroup { heading: Some(heading.to_owned()), items }
}

pub fn command_group_without_heading<Value>(items: Vec<CommandItem<Value>>) -> (r: CommandGroup<Value>)
    ensures
        r.heading_text() is None,
        r.group_items() == items@,
{
    CommandGroup { heading: None, items }
}

impl<Value> CommandGroup<Value> {
    pub closed spec fn heading_text(self) -> Option<Seq<char>> {
        opt_text(self.heading)
    }

    pub closed spec fn group_items(self) -> Seq<CommandItem<Value>> {
        self.items@
    }

    pub fn heading(&self) -> (r: Option<&str>)
        ensures
            match r {
                Some(text) => self.heading_text() == Some(text@),
                None => self.heading_text() is None,
            },
    {
        match &self.heading {
            Some(heading) => Some(heading.as_str()),
            None => None,
        }
    }

    pub fn items(&self) -> (r: &[CommandItem<Value>])
        ensures
            r@ == self.group_items(),
    {
        self.items.as_slice()
    }
}

/// One filtered item and its original group/item positions.
#[derive(Debug, Clone, Copy, PartialEq, Eq)]
pub struct CommandMatch<'a, Value> {
    pub group: usize,
    pub item: usize,
    pub command: &'a CommandItem<Value>,
}

/// Positions of the matching items of one group, in order.
pub open spec fn group_matches<Value>(items: Seq<CommandItem<Value>>, group: int, query: Seq<char>, upto: int) -> Seq<(int, int)>
    decreases upto,
{
    if upto <= 0 {
        seq![]
    } else {
        let before = group_matches(items, group, query, upto - 1);
        if items[upto - 1].matches_query(query) {
            before.push((group, upto - 1))
        } else {
            before
        }
    }
}

/// Positions of the matching items of the first `upto` groups, in order.
pub open spec fn all_matches<Value>(groups: Seq<CommandGroup<Value>>, query: Seq<char>, upto: int) -> Seq<(int, int)>
    decreases upto,
{
    if upto <= 0 {
        seq![]
    } else {
        let items = groups[upto - 1].group_items();
        all_matches(groups, query, upto - 1) + group_matches(items, upto - 1, query, items.len() as int)
    }
}

pub open spec fn match_position<'a, Value>(m: CommandMatch<'a, Value>) -> (int, int) {
    (m.group as int, m.item as int)
}

/// Filters without reordering, so stable IDs and visual group order survive a query.
pub fn filter_items<'a, Value>(groups: &'a [CommandGroup<Value>], query: &str) -> (r: Vec<CommandMatch<'a, Value>>)
    ensures
        r@.map_values(|m: CommandMatch<'a, Value>| match_position(m)) == all_matches(groups@, query@, groups@.len() as int),
        forall|k: int|
            0 <= k < r@.len() ==> (#[trigger] r@[k]).group < groups@.len() && r@[k].item
                < groups@[r@[k].group as int].group_items().len() && *r@[k].command
                == groups@[r@[k].group as int].group_items()[r@[k].item as int],
{
    let mut result: Vec<CommandMatch<'a, Value>> = Vec::new();
    let mut group: usize = 0;
    while group < groups.len()
        invariant
            0 <= group <= groups.len(),
            result@.map_values(|m: CommandMatch<'a, Value>| match_position(m)) == all_matches(groups@, query@, group as int),
            forall|k: int|
                0 <= k < result@.len() ==> (#[trigger] result@[k]).group < groups@.len() && result@[k].item
                    < groups@[result@[k].group as int].group_items().len() && *result@[k].command
                    == groups@[result@[k].group as int].group_items()[result@[k].item as int],
        decreases groups.len() - group,
    {
        let items = groups[group].items();
        let ghost before = result@.map_values(|m: CommandMatch<'a, Value>| match_position(m));
        let mut item: usize = 0;
        while item < items.len()
            invariant
                0 <= group < groups.len(),
                0 <= item <= items.len(),
                items@ == groups@[group as int].group_items(),
                before == all_matches(groups@, query@, group as int),
                result@.map_values(|m: CommandMatch<'a, Value>| match_position(m)) == before + group_matches(
                    items@,
                    group as int,
                    query@,
                    item as int,
                ),
                forall|k: int|
                    0 <= k < result@.len() ==> (#[trigger] result@[k]).group < groups@.len() && result@[k].item
                        < groups@[result@[k].group as int].group_items().len() && *result@[k].command
                        == groups@[result@[k].group as int].group_items()[result@[k].item as int],
            decreases items.len() - item,
        {
            let command = &items[item];
            if command.matches(query) {
                let ghost old_positions = result@.map_values(|m: CommandMatch<'a, Value>| match_position(m));
                result.push(CommandMatch { group, item, command });
                proof {
                    assert(result@.map_values(|m: CommandMatch<'a, Value>| match_position(m)) =~= old_positions.push(
                        (group as int, item as int),
                    ));
                }
            }
            item = item + 1;
        }
        group = group + 1;
    }
    result
}

/// The first match from `from` on that is enabled and, when `id` is given,
/// has that ID.
pub open spec fn first_enabled_match<'a, Value>(
    matches: Seq<CommandMatch<'a, Value>>,
    id: Option<Seq<char>>,
    from: int,
) -> Option<int>
    decreases matches.len() - from,
{
    if from < 0 || from >= matches.len() {
        None
    } else if !matches[from].command.is_disabled_spec() && (id matches Some(a) ==> matches[from].command.id_text()
        == a) {
        Some(from)
    } else {
        first_enabled_match(matches, id, from + 1)
    }
}

/// The highlighted result: the enabled match whose ID is `active`, else the
/// first enabled match, else none.
pub open spec fn active_choice<'a, Value>(matches: Seq<CommandMatch<'a, Value>>, active: Option<Seq<char>>) -> Option<int> {
    match active {
        Some(a) => match first_enabled_match(matches, Some(a), 0) {
            Some(i) => Some(i),
            None => first_enabled_match(matches, None, 0),
        },
        None => first_enabled_match(matches, None, 0),
    }
}

proof fn lemma_first_enabled_match_none<'a, Value>(matches: Seq<CommandMatch<'a, Value>>, from: int)
    requires
        0 <= from <= matches.len(),
    ensures
        first_enabled_match(matches, None, from) is None <==> forall|k: int|
            from <= k < matches.len() ==> (#[trigger] matches[k]).command.is_disabled_spec(),
    decreases matches.len() - from,
{
    if from < matches.len() {
        lemma_first_enabled_match_none(matches, from + 1);
    }
}

fn find_enabled_match<'a, Value>(matches: &[CommandMatch<'a, Value>], id: Option<&str>) -> (r: Option<usize>)
    ensures
        match r {
            Some(i) => Some(i as int),
            None => None::<int>,
        } == first_enabled_match(
            matches@,
            match id {
                Some(a) => Some(a@),
                None => None,
            },
            0,
        ),
{
    let ghost wanted = match id {
        Some(a) => Some(a@),
        None => None::<Seq<char>>,
    };
    let mut k: usize = 0;
    while k < matches.len()
        invariant
            0 <= k <= matches.len(),
            wanted == match id {
                Some(a) => Some(a@),
                None => None::<Seq<char>>,
            },
            first_enabled_match(matches@, wanted, 0) == first_enabled_match(matches@, wanted, k as int),
        decreases matches.len() - k,
    {
        let item = matches[k].command;
        if !item.is_disabled() {
            let fits = match id {
                Some(a) => same_str(item.id(), a),
                None => true,
            };
            if fits {
                return Some(k);
            }
        }
        k = k + 1;
    }
    None
}

/// Whether two strings hold the same characters.
fn same_str(a: &str, b: &str) -> (r: bool)
    ensures
        r == (a@ == b@),
{
    let n = a.unicode_len();
    if n != b.unicode_len() {
        return false;
    }
    let mut i: usize = 0;
    while i < n
        invariant
            n == a@.len(),
            n == b@.len(),
            0 <= i <= n,
            forall|j: int| 0 <= j < i ==> a@[j] == b@[j],
        decreases n - i,
    {
        if a.get_char(i) != b.get_char(i) {
            return false;
        }
        i = i + 1;
    }
    assert(a@ =~= b@);
    true
}

/// The highlighted result among the filtered matches: the enabled match
/// whose ID is `active`, otherwise the first enabled match, otherwise none
/// (exactly when no match is enabled).
pub fn command_active<'a, Value>(matches: &[CommandMatch<'a, Value>], active: Option<&str>) -> (r: Option<usize>)
    ensures
        match r {
            Some(i) => Some(i as int),
            None => None::<int>,
        } == active_choice(
            matches@,
            match active {
                Some(a) => Some(a@),
                None => None,
            },
        ),
        r matches Some(i) ==> i < matches@.len() && !matches@[i as int].command.is_disabled_spec(),
        r is None <==> forall|k: int| 0 <= k < matches@.len() ==> (#[trigger] matches@[k]).command.is_disabled_spec(),
{
    proof {
        lemma_first_enabled_match_none(matches@, 0);
    }
    let found = match active {
        Some(a) => find_enabled_match(matches, Some(a)),
        None => None,
    };
    let r = match found {
        Some(i) => Some(i),
        None => find_enabled_match(matches, None),
    };
    proof {
        lemma_first_enabled_match_in_range(matches@, match active {
            Some(a) => Some(a@),
            None => None,
        }, 0);
        lemma_first_enabled_match_in_range(matches@, None, 0);
    }
    r
}

proof fn lemma_first_enabled_match_in_range<'a, Value>(
    matches: Seq<CommandMatch<'a, Value>>,
    id: Option<Seq<char>>,
    from: int,
)
    requires
        0 <= from,
    ensures
        first_enabled_match(matches, id, from) matches Some(i) ==> from <= i < matches.len()
            && !matches[i].command.is_disabled_spec(),
    decreases matches.len() - from,
{
    if from < matches.len() {
        lemma_first_enabled_match_in_range(matches, id, from + 1);
    }
}

/// The item that Enter in the input submits: the highlighted result, if any.
pub fn command_submission<'a, Value>(matches: &[CommandMatch<'a, Value>], active: Option<&str>) -> (r: Option<
    &'a CommandItem<Value>,
>)
    ensures
        match active_choice(
            matches@,
            match active {
                Some(a) => Some(a@),
                None => None,
            },
        ) {
            Some(i) => r == Some(matches@[i].command),
            None => r is None,
        },
{
    match command_active(matches, active) {
        Some(i) => Some(matches[i].command),
        None => None,
    }
}

/// The groups shown for the matches, in order: one per run of matches of the
/// same group, so a group without matches is not shown.
pub open spec fn shown_groups<'a, Value>(matches: Seq<CommandMatch<'a, Value>>) -> Seq<usize>
    decreases matches.len(),
{
    if matches.len() == 0 {
        seq![]
    } else {
        let before = shown_groups(matches.drop_last());
        if before.len() > 0 && before.last() == matches.last().group {
            before
        } else {
            before.push(matches.last().group)
        }
    }
}

/// The groups that have matches, in result order; a group with no match is
/// dropped.
pub fn command_visible_groups<'a, Value>(matches: &[CommandMatch<'a, Value>]) -> (r: Vec<usize>)
    ensures
        r@ == shown_groups(matches@),
{
    let mut groups: Vec<usize> = Vec::new();
    let mut k: usize = 0;
    while k < matches.len()
        invariant
            0 <= k <= matches.len(),
            groups@ == shown_groups(matches@.take(k as int)),
        decreases matches.len() - k,
    {
        proof {
            assert(matches@.take(k as int + 1).drop_last() =~= matches@.take(k as int));
        }
        let group = matches[k].group;
        let n = groups.len();
        if n == 0 || groups[n - 1] != group {
            groups.push(group);
        }
        k = k + 1;
    }
    proof {
        assert(matches@.take(matches.len() as int) =~= matches@);
    }
    groups
}

#[derive(Debug, Clone, Copy, PartialEq, Eq, Structural)]
pub enum CommandMove {
    Previous,
    Next,
    First,
    Last,
}

/// List-navigation keys only; every other key stays with the text input.
pub fn command_move(key: &Key) -> (r: Option<CommandMove>)
    ensures
        r == match *key {
            Key::ArrowUp => Some(CommandMove::Previous),
            Key::ArrowDown => Some(CommandMove::Next),
            Key::Home => Some(CommandMove::First),
            Key::End => Some(CommandMove::Last),
            _ => None,
        },
{
    match key {
        Key::ArrowUp => Some(CommandMove::Previous),
        Key::ArrowDown => Some(CommandMove::Next),
        Key::Home => Some(CommandMove::First),
        Key::End => Some(CommandMove::Last),
        _ => None,
    }
}

/// Finds the next enabled result, wrapping for arrows and skipping disabled
/// rows. Without a usable current result, arrows act like First (Next) or
/// Last (Previous).
pub fn navigation_target(current: Option<usize>, enabled: &[bool], movement: CommandMove) -> (r: Option<usize>)
    ensures
        r is None <==> !any_enabled(enabled@),
        r matches Some(t) ==> match movement {
            CommandMove::First => first_enabled_at(enabled@, t as int),
            CommandMove::Last => last_enabled_at(enabled@, t as int),
            CommandMove::Next | CommandMove::Previous => if current matches Some(c) && c < enabled@.len()
                && enabled@[c as int] {
                nearest_enabled(enabled@, current->0 as int, movement == CommandMove::Next, t as int)
            } else if movement == CommandMove::Next {
                first_enabled_at(enabled@, t as int)
            } else {
                last_enabled_at(enabled@, t as int)
            },
        },
{
    match movement {
        CommandMove::First => first_enabled(enabled),
        CommandMove::Last => last_enabled(enabled),
        CommandMove::Next | CommandMove::Previous => {
            let forward = match movement {
                CommandMove::Next => true,
                _ => false,
            };
            match current {
                Some(start) if start < enabled.len() && enabled[start] => nearest(enabled, start, forward),
                _ => if forward {
                    first_enabled(enabled)
                } else {
                    last_enabled(enabled)
                },
            }
        },
    }
}

/// Stable key of a palette's native input: the palette ID prefixed by its
/// length in UTF-8 bytes, so distinct IDs can never produce the same key.
pub fn command_input_id(command_id: &str) -> (r: String)
    ensures
        r@ == "ducktape-command-input:"@ + decimal(utf8_len(command_id@)) + seq![':'] + command_id@,
{
    let mut key = String::from_str("ducktape-command-input:");
    let bytes = command_id.as_bytes().len();
    assert(bytes as nat == utf8_len(command_id@));
    push_decimal(&mut key, bytes as u64);
    push_char(&mut key, ':');
    key.append(command_id);
    key
}

/// Stable key of one result row: palette and item IDs, each prefixed by its
/// length in UTF-8 bytes, so colons inside IDs cannot make two pairs collide.
pub fn command_item_id(command_id: &str, item_id: &str) -> (r: String)
    ensures
        r@ == item_key_text(command_id@, item_id@),
{
    let mut key = String::from_str("ducktape-command-item:");
    let command_bytes = command_id.as_bytes().len();
    let item_bytes = item_id.as_bytes().len();
    assert(command_bytes as nat == utf8_len(command_id@));
    assert(item_bytes as nat == utf8_len(item_id@));
    push_decimal(&mut key, command_bytes as u64);
    push_char(&mut key, ':');
    key.append(command_id);
    push_char(&mut key, ':');
    push_decimal(&mut key, item_bytes as u64);
    push_char(&mut key, ':');
    key.append(item_id);
    key
}

pub open spec fn item_key_text(command_id: Seq<char>, item_id: Seq<char>) -> Seq<char> {
    "ducktape-command-item:"@ + decimal(utf8_len(command_id)) + seq![':'] + command_id + seq![':'] + decimal(
        utf8_len(item_id),
    ) + seq![':'] + item_id
}


/// Distinct palette and item IDs never share a result-row key, whatever
/// colons they hold: the key determines both IDs.
#[verifier::spinoff_prover]
#[verifier::rlimit(40)]
pub proof fn lemma_item_keys_do_not_alias(command_a: Seq<char>, item_a: Seq<char>, command_b: Seq<char>, item_b: Seq<char>)
    requires
        item_key_text(command_a, item_a) == item_key_text(command_b, item_b),
    ensures
        command_a == command_b,
        item_a == item_b,
{
    let prefix = "ducktape-command-item:"@;
    let da = decimal(utf8_len(command_a));
    let db = decimal(utf8_len(command_b));
    let ea = decimal(utf8_len(item_a));
    let eb = decimal(utf8_len(item_b));
    let tail_a = seq![':'] + (ea + seq![':'] + item_a);
    let tail_b = seq![':'] + (eb + seq![':'] + item_b);
    let rest_a = command_a + tail_a;
    let rest_b = command_b + tail_b;
    assert(item_key_text(command_a, item_a) =~= prefix + (da + seq![':'] + rest_a));
    assert(item_key_text(command_b, item_b) =~= prefix + (db + seq![':'] + rest_b));
    assert(da + seq![':'] + rest_a =~= (prefix + (da + seq![':'] + rest_a)).skip(prefix.len() as int));
    assert(db + seq![':'] + rest_b =~= (prefix + (db + seq![':'] + rest_b)).skip(prefix.len() as int));
    lemma_decimal_digits(utf8_len(command_a));
    lemma_decimal_digits(utf8_len(command_b));
    lemma_digit_runs_agree(da, db, ':', rest_a, rest_b);
    lemma_decimal_injective(utf8_len(command_a), utf8_len(command_b));
    lemma_same_bytes_same_prefix(command_a, command_b, tail_a, tail_b);
    let n = command_a.len() as int;
    assert(tail_a =~= rest_a.skip(n));
    assert(tail_b =~= rest_b.skip(n));
    let inner_a = ea + seq![':'] + item_a;
    let inner_b = eb + seq![':'] + item_b;
    assert(inner_a =~= tail_a.skip(1));
    assert(inner_b =~= tail_b.skip(1));
    lemma_decimal_digits(utf8_len(item_a));
    lemma_decimal_digits(utf8_len(item_b));
    lemma_digit_runs_agree(ea, eb, ':', item_a, item_b);
}


/// Applying the same event twice leaves query and active item as the first
/// application left them, so `apply` reports no second change.
pub proof fn lemma_apply_is_idempotent<Value>(
    event: CommandEvent<Value>,
    first: CommandState,
    second: CommandState,
    third: CommandState,
)
    requires
        event_applied(event, first, second),
        event_applied(event, second, third),
    ensures
        third.query_text() == second.query_text(),
        third.active_id() == second.active_id(),
{
}

} // verus!
