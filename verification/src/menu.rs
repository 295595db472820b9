//! Shared, controlled interaction for menu-like components: nested entries,
//! roving focus over the visible enabled items, submenus that open and close,
//! activation and single-character typeahead.

use vstd::prelude::*;
use crate::direction::Direction;
use crate::keys::Key;
use crate::text::{chars_of, lowercase, push_char, to_lowercase};

verus! {

pub type MenuPath = Vec<usize>;

/// Focused item, open submenus and typeahead text, owned by the caller.
#[derive(Debug, Clone, Default, PartialEq, Eq)]
pub struct MenuState {
    pub focused: Option<MenuPath>,
    pub open_submenus: Vec<MenuPath>,
    pub typeahead: String,
}

#[derive(Debug, PartialEq, Eq)]
pub enum MenuEntry {
    Item(MenuItem),
    Label(MenuLabel),
    Separator { id: String },
    Group(MenuGroup),
}

#[derive(Debug, PartialEq, Eq)]
pub struct MenuGroup {
    pub id: String,
    pub label: Option<String>,
    pub entries: Vec<MenuEntry>,
}

#[derive(Debug, Clone, PartialEq, Eq)]
pub struct MenuLabel {
    pub id: String,
    pub label: String,
    pub inset: bool,
}

#[derive(Debug, PartialEq, Eq)]
pub struct MenuItem {
    pub id: String,
    pub label: String,
    pub shortcut: Option<String>,
    pub disabled: bool,
    pub inset: bool,
    pub kind: MenuItemKind,
}

#[derive(Debug, PartialEq, Eq)]
pub enum MenuItemKind {
    Action,
    Checkbox { checked: bool },
    Radio { group: String, checked: bool },
    Submenu(Vec<MenuEntry>),
}

/// A copy of `entries`, entry by entry.
fn clone_entries(entries: &Vec<MenuEntry>) -> (r: Vec<MenuEntry>)
    decreases entries, 0nat,
{
    let mut copy: Vec<MenuEntry> = Vec::new();
    let mut i: usize = 0;
    while i < entries.len()
        invariant
            0 <= i <= entries.len(),
        decreases entries.len() - i,
    {
        assert(decreases_to!(entries => entries@[i as int]));
        copy.push(clone_entry(&entries[i]));
        i = i + 1;
    }
    copy
}

fn clone_entry(entry: &MenuEntry) -> (r: MenuEntry)
    decreases entry, 1nat,
{
    match entry {
        MenuEntry::Item(item) => MenuEntry::Item(clone_item(item)),
        MenuEntry::Label(label) => MenuEntry::Label(label.clone()),
        MenuEntry::Separator { id } => MenuEntry::Separator { id: id.clone() },
        MenuEntry::Group(group) => MenuEntry::Group(
            MenuGroup { id: group.id.clone(), label: group.label.clone(), entries: clone_entries(&group.entries) },
        ),
    }
}

fn clone_item(item: &MenuItem) -> (r: MenuItem)
    decreases item, 1nat,
{
    let kind = match &item.kind {
        MenuItemKind::Action => MenuItemKind::Action,
        MenuItemKind::Checkbox { checked } => MenuItemKind::Checkbox { checked: *checked },
        MenuItemKind::Radio { group, checked } => MenuItemKind::Radio { group: group.clone(), checked: *checked },
        MenuItemKind::Submenu(entries) => MenuItemKind::Submenu(clone_entries(entries)),
    };
    MenuItem {
        id: item.id.clone(),
        label: item.label.clone(),
        shortcut: item.shortcut.clone(),
        disabled: item.disabled,
        inset: item.inset,
        kind,
    }
}

impl Clone for MenuEntry {
    fn clone(&self) -> (r: MenuEntry) {
        clone_entry(self)
    }
}

impl Clone for MenuGroup {
    fn clone(&self) -> (r: MenuGroup) {
        MenuGroup { id: self.id.clone(), label: self.label.clone(), entries: clone_entries(&self.entries) }
    }
}

impl Clone for MenuItem {
    fn clone(&self) -> (r: MenuItem) {
        clone_item(self)
    }
}

impl Clone for MenuItemKind {
    fn clone(&self) -> (r: MenuItemKind) {
        match self {
            MenuItemKind::Action => MenuItemKind::Action,
            MenuItemKind::Checkbox { checked } => MenuItemKind::Checkbox { checked: *checked },
            MenuItemKind::Radio { group, checked } => MenuItemKind::Radio { group: group.clone(), checked: *checked },
            MenuItemKind::Submenu(entries) => MenuItemKind::Submenu(clone_entries(entries)),
        }
    }
}

#[derive(Debug, Clone, Copy, PartialEq, Eq, Structural)]
pub enum MenuCommand {
    Previous,
    Next,
    First,
    Last,
    Activate,
    Forward,
    Back,
    Escape,
    Character(char),
    ClearTypeahead,
}

#[derive(Debug, Clone, Copy, PartialEq, Eq, Structural)]
pub enum TopLevelMove {
    Previous,
    Next,
}

#[derive(Debug, Clone, PartialEq, Eq)]
pub struct MenuActivation {
    pub id: String,
    pub path: MenuPath,
    pub kind: MenuActivationKind,
}

#[derive(Debug, Clone, PartialEq, Eq)]
pub enum MenuActivationKind {
    Action,
    Checkbox { checked: bool },
    Radio { group: String },
}

#[derive(Debug, Clone, PartialEq, Eq)]
pub enum MenuEvent {
    StateChanged(MenuState),
    Activated(MenuActivation),
    Dismiss,
    MoveTopLevel(TopLevelMove),
}

#[derive(Debug, Clone, PartialEq, Eq)]
pub struct MenuTransition {
    pub state: MenuState,
    pub event: Option<MenuEvent>,
}


impl MenuEntry {
    /// A plain action item.
    pub fn item(id: &str, label: &str) -> (r: MenuEntry)
        ensures
            r matches MenuEntry::Item(item) && item.id@ == id@ && item.label@ == label@ && item.shortcut is None
                && !item.disabled && !item.inset && item.kind == MenuItemKind::Action,
    {
        MenuEntry::Item(MenuItem::new(id, label))
    }

    /// A non-interactive label.
    pub fn label(id: &str, label: &str) -> (r: MenuEntry)
        ensures
            r matches MenuEntry::Label(l) && l.id@ == id@ && l.label@ == label@ && !l.inset,
    {
        MenuEntry::Label(MenuLabel { id: id.to_owned(), label: label.to_owned(), inset: false })
    }

    /// A separator line.
    pub fn separator(id: &str) -> (r: MenuEntry)
        ensures
            r matches MenuEntry::Separator { id: sid } && sid@ == id@,
    {
        MenuEntry::Separator { id: id.to_owned() }
    }

    /// An unlabelled group of entries.
    pub fn group(id: &str, entries: Vec<MenuEntry>) -> (r: MenuEntry)
        ensures
            r matches MenuEntry::Group(g) && g.id@ == id@ && g.label is None && g.entries@ == entries@,
    {
        MenuEntry::Group(MenuGroup { id: id.to_owned(), label: None, entries })
    }
}

impl MenuGroup {
    /// An unlabelled group.
    pub fn new(id: &str, entries: Vec<MenuEntry>) -> (r: MenuGroup)
        ensures
            r.id@ == id@,
            r.label is None,
            r.entries@ == entries@,
    {
        MenuGroup { id: id.to_owned(), label: None, entries }
    }

    /// The same group with a heading.
    pub fn label(self, label: &str) -> (r: MenuGroup)
        ensures
            r.id == self.id,
            r.label matches Some(l) && l@ == label@,
            r.entries == self.entries,
    {
        MenuGroup { label: Some(label.to_owned()), ..self }
    }
}

impl MenuLabel {
    /// The same label, indented or not.
    pub fn inset(self, inset: bool) -> (r: MenuLabel)
        ensures
            r.id == self.id,
            r.label == self.label,
            r.inset == inset,
    {
        MenuLabel { inset, ..self }
    }
}

impl MenuItem {
    /// An enabled action item with no shortcut.
    pub fn new(id: &str, label: &str) -> (r: MenuItem)
        ensures
            r.id@ == id@,
            r.label@ == label@,
            r.shortcut is None,
            !r.disabled,
            !r.inset,
            r.kind == MenuItemKind::Action,
    {
        MenuItem {
            id: id.to_owned(),
            label: label.to_owned(),
            shortcut: None,
            disabled: false,
            inset: false,
            kind: MenuItemKind::Action,
        }
    }

    /// The same item with a shortcut hint.
    pub fn shortcut(self, shortcut: &str) -> (r: MenuItem)
        ensures
            r == (MenuItem { shortcut: r.shortcut, ..self }),
            r.shortcut matches Some(s) && s@ == shortcut@,
    {
        MenuItem { shortcut: Some(shortcut.to_owned()), ..self }
    }

    /// The same item, disabled or not.
    pub fn disabled(self, disabled: bool) -> (r: MenuItem)
        ensures
            r == (MenuItem { disabled, ..self }),
    {
        MenuItem { disabled, ..self }
    }

    /// The same item, indented or not.
    pub fn inset(self, inset: bool) -> (r: MenuItem)
        ensures
            r == (MenuItem { inset, ..self }),
    {
        MenuItem { inset, ..self }
    }

    /// The same item as a checkbox.
    pub fn checkbox(self, checked: bool) -> (r: MenuItem)
        ensures
            r == (MenuItem { kind: MenuItemKind::Checkbox { checked }, ..self }),
    {
        MenuItem { kind: MenuItemKind::Checkbox { checked }, ..self }
    }

    /// The same item as a radio button of `group`.
    pub fn radio(self, group: &str, checked: bool) -> (r: MenuItem)
        ensures
            r == (MenuItem { kind: r.kind, ..self }),
            r.kind matches MenuItemKind::Radio { group: g, checked: c } && g@ == group@ && c == checked,
    {
        MenuItem { kind: MenuItemKind::Radio { group: group.to_owned(), checked }, ..self }
    }

    /// The same item opening a submenu of `entries`.
    pub fn submenu(self, entries: Vec<MenuEntry>) -> (r: MenuItem)
        ensures
            r == (MenuItem { kind: MenuItemKind::Submenu(entries), ..self }),
    {
        MenuItem { kind: MenuItemKind::Submenu(entries), ..self }
    }
}

impl From<MenuItem> for MenuEntry {
    fn from(item: MenuItem) -> (r: MenuEntry) {
        MenuEntry::Item(item)
    }
}

impl vstd::std_specs::convert::FromSpecImpl<MenuItem> for MenuEntry {
    open spec fn obeys_from_spec() -> bool {
        true
    }

    open spec fn from_spec(v: MenuItem) -> MenuEntry {
        MenuEntry::Item(v)
    }
}

impl From<MenuGroup> for MenuEntry {
    fn from(group: MenuGroup) -> (r: MenuEntry) {
        MenuEntry::Group(group)
    }
}

impl vstd::std_specs::convert::FromSpecImpl<MenuGroup> for MenuEntry {
    open spec fn obeys_from_spec() -> bool {
        true
    }

    open spec fn from_spec(v: MenuGroup) -> MenuEntry {
        MenuEntry::Group(v)
    }
}

/// A visible item and where it sits.
pub type VisibleItem<'a> = (MenuPath, &'a MenuItem);

pub open spec fn path_views(paths: Seq<MenuPath>) -> Seq<Seq<usize>> {
    paths.map_values(|p: MenuPath| p@)
}

/// Mathematical view of a menu state: focused path, open submenu paths and
/// typeahead text.
pub ghost struct MenuStateModel {
    pub focused: Option<Seq<usize>>,
    pub open: Seq<Seq<usize>>,
    pub typeahead: Seq<char>,
}

impl MenuState {
    pub open spec fn model(self) -> MenuStateModel {
        MenuStateModel {
            focused: match self.focused {
                Some(p) => Some(p@),
                None => None,
            },
            open: path_views(self.open_submenus@),
            typeahead: self.typeahead@,
        }
    }
}

#[verifier::opaque]
/// Items shown for `entries[index..]` under `prefix`: every item in order,
/// followed by the items of its submenu when that submenu is enabled and open;
/// groups contribute their items; labels and separators none.
pub open spec fn visible_from(entries: Seq<MenuEntry>, prefix: Seq<usize>, open: Seq<Seq<usize>>, index: int) -> Seq<(Seq<usize>, MenuItem)>
    decreases entries, entries.len() - index,
{
    if index < 0 || index >= entries.len() {
        seq![]
    } else {
        let path = prefix.push(index as usize);
        let here = match entries[index] {
            MenuEntry::Item(item) => {
                let nested = match item.kind {
                    MenuItemKind::Submenu(children) => if !item.disabled && open.contains(path) {
                        visible_from(children@, path, open, 0)
                    } else {
                        seq![]
                    },
                    _ => seq![],
                };
                seq![(path, item)] + nested
            },
            MenuEntry::Group(group) => visible_from(group.entries@, path, open, 0),
            _ => seq![],
        };
        here + visible_from(entries, prefix, open, index + 1)
    }
}

pub open spec fn visible(entries: Seq<MenuEntry>, open: Seq<Seq<usize>>) -> Seq<(Seq<usize>, MenuItem)> {
    visible_from(entries, seq![], open, 0)
}

pub open spec fn is_enabled_item(entry: (Seq<usize>, MenuItem)) -> bool {
    !entry.1.disabled
}

/// The visible items that are not disabled, in order.
pub open spec fn enabled_items(entries: Seq<MenuEntry>, open: Seq<Seq<usize>>) -> Seq<(Seq<usize>, MenuItem)> {
    visible(entries, open).filter(enabled_filter())
}

/// Index of the first entry of `items` at `path`, if any.
pub open spec fn position_of(items: Seq<(Seq<usize>, MenuItem)>, path: Seq<usize>) -> Option<int> {
    if exists|i: int| 0 <= i < items.len() && items[i].0 == path {
        Some(choose|i: int| 0 <= i < items.len() && items[i].0 == path && forall|j: int| 0 <= j < i ==> items[j].0 != path)
    } else {
        None
    }
}

/// The item at `path`, descending through submenus and groups.
pub open spec fn item_at_path(entries: Seq<MenuEntry>, path: Seq<usize>) -> Option<MenuItem>
    decreases entries, path.len(),
{
    if path.len() == 0 || path[0] >= entries.len() {
        None
    } else {
        let rest = path.drop_first();
        match entries[path[0] as int] {
            MenuEntry::Item(item) => if rest.len() == 0 {
                Some(item)
            } else {
                match item.kind {
                    MenuItemKind::Submenu(children) => item_at_path(children@, rest),
                    _ => None,
                }
            },
            MenuEntry::Group(group) => item_at_path(group.entries@, rest),
            _ => None,
        }
    }
}

pub open spec fn is_prefix(prefix: Seq<usize>, path: Seq<usize>) -> bool {
    prefix.len() <= path.len() && path.take(prefix.len() as int) == prefix
}

/// `parent` is the deepest open submenu path that contains `focused`.
pub open spec fn deepest_open_parent(focused: Seq<usize>, open: Seq<Seq<usize>>, parent: Seq<usize>) -> bool {
    &&& open.contains(parent)
    &&& is_prefix(parent, focused)
    &&& forall|i: int| 0 <= i < open.len() && is_prefix(open[i], focused) ==> open[i].len() <= parent.len()
}

/// What activating a non-submenu item reports.
pub open spec fn activation_of(item: MenuItem, path: Seq<usize>, activation: MenuActivation) -> bool {
    &&& activation.id@ == item.id@
    &&& activation.path@ == path
    &&& match item.kind {
        MenuItemKind::Action => activation.kind == MenuActivationKind::Action,
        MenuItemKind::Checkbox { checked } => activation.kind == (MenuActivationKind::Checkbox { checked: !checked }),
        MenuItemKind::Radio { group, .. } => activation.kind matches MenuActivationKind::Radio { group: g } && g@
            == group@,
        MenuItemKind::Submenu(_) => false,
    }
}

/// The Unicode control characters (general category Cc).
pub open spec fn is_control_char(c: char) -> bool {
    (c as u32) <= 0x1F || (0x7F <= (c as u32) && (c as u32) <= 0x9F)
}

/// Whether `c` is a control character (as `char::is_control`).
pub fn is_control(c: char) -> (r: bool)
    ensures
        r == is_control_char(c),
{
    let n = c as u32;
    n <= 0x1F || (0x7F <= n && n <= 0x9F)
}


pub open spec fn visible_view<'a>(items: Seq<VisibleItem<'a>>) -> Seq<(Seq<usize>, MenuItem)> {
    items.map_values(|v: VisibleItem<'a>| (v.0@, *v.1))
}

/// A copy of a path.
pub fn copy_path(path: &[usize]) -> (r: MenuPath)
    ensures
        r@ == path@,
{
    let mut copy: Vec<usize> = Vec::new();
    let mut index: usize = 0;
    while index < path.len()
        invariant
            0 <= index <= path.len(),
            copy@ == path@.take(index as int),
        decreases path.len() - index,
    {
        copy.push(path[index]);
        assert(path@.take(index as int + 1) =~= path@.take(index as int).push(path@[index as int]));
        index = index + 1;
    }
    assert(path@.take(path@.len() as int) =~= path@);
    copy
}

/// A copy of a list of paths.
pub fn copy_paths(paths: &Vec<MenuPath>) -> (r: Vec<MenuPath>)
    ensures
        path_views(r@) == path_views(paths@),
{
    let mut copy: Vec<MenuPath> = Vec::new();
    let mut index: usize = 0;
    while index < paths.len()
        invariant
            0 <= index <= paths.len(),
            copy@.len() == index,
            forall|i: int| 0 <= i < index ==> (#[trigger] copy@[i])@ == paths@[i]@,
        decreases paths.len() - index,
    {
        copy.push(copy_path(&paths[index]));
        index = index + 1;
    }
    assert(path_views(copy@) =~= path_views(paths@));
    copy
}

/// Whether two paths are equal.
pub fn same_path(a: &[usize], b: &[usize]) -> (r: bool)
    ensures
        r == (a@ == b@),
{
    if a.len() != b.len() {
        return false;
    }
    let mut index: usize = 0;
    while index < a.len()
        invariant
            a.len() == b.len(),
            0 <= index <= a.len(),
            forall|i: int| 0 <= i < index ==> a@[i] == b@[i],
        decreases a.len() - index,
    {
        if a[index] != b[index] {
            assert(a@[index as int] != b@[index as int]);
            return false;
        }
        index = index + 1;
    }
    assert(a@ =~= b@);
    true
}

/// Whether `path` starts with `prefix`.
pub fn starts_with(path: &[usize], prefix: &[usize]) -> (r: bool)
    ensures
        r == is_prefix(prefix@, path@),
{
    if prefix.len() > path.len() {
        return false;
    }
    let mut index: usize = 0;
    while index < prefix.len()
        invariant
            prefix.len() <= path.len(),
            0 <= index <= prefix.len(),
            forall|i: int| 0 <= i < index ==> path@[i] == prefix@[i],
        decreases prefix.len() - index,
    {
        if path[index] != prefix[index] {
            assert(path@.take(prefix@.len() as int)[index as int] != prefix@[index as int]);
            return false;
        }
        index = index + 1;
    }
    assert(path@.take(prefix@.len() as int) =~= prefix@);
    true
}

/// Whether `paths` holds `path`.
pub fn contains_path(paths: &Vec<MenuPath>, path: &[usize]) -> (r: bool)
    ensures
        r == path_views(paths@).contains(path@),
{
    let mut index: usize = 0;
    while index < paths.len()
        invariant
            0 <= index <= paths.len(),
            forall|i: int| 0 <= i < index ==> paths@[i]@ != path@,
        decreases paths.len() - index,
    {
        if same_path(paths[index].as_slice(), path) {
            assert(path_views(paths@)[index as int] == path@);
            return true;
        }
        index = index + 1;
    }
    proof {
        if path_views(paths@).contains(path@) {
            let i = choose|i: int| 0 <= i < path_views(paths@).len() && path_views(paths@)[i] == path@;
            assert(paths@[i]@ == path@);
        }
    }
    false
}

fn collect_visible<'a>(
    entries: &'a [MenuEntry],
    prefix: &Vec<usize>,
    open: &Vec<MenuPath>,
    output: &mut Vec<VisibleItem<'a>>,
)
    ensures
        visible_view(final(output)@) == visible_view(old(output)@) + visible_from(entries@, prefix@, path_views(open@), 0),
    decreases entries@,
{
    reveal(visible_from);
    let ghost open_view = path_views(open@);
    let ghost start = visible_view(output@);
    let mut index: usize = 0;
    while index < entries.len()
        invariant
            0 <= index <= entries.len(),
            open_view == path_views(open@),
            start + visible_from(entries@, prefix@, open_view, 0) == visible_view(output@) + visible_from(
                entries@,
                prefix@,
                open_view,
                index as int,
            ),
        decreases entries.len() - index,
    {
        let mut path = copy_path(prefix.as_slice());
        path.push(index);
        let ghost path_view = prefix@.push(index);
        assert(path@ == path_view);
        let ghost before = visible_view(output@);
        match &entries[index] {
            MenuEntry::Item(item) => {
                let ghost item_path = path@;
                output.push((copy_path(path.as_slice()), item));
                assert(visible_view(output@) =~= before + seq![(item_path, *item)]);
                match &item.kind {
                    MenuItemKind::Submenu(children) => {
                        if !item.disabled && contains_path(open, path.as_slice()) {
                            collect_visible(children.as_slice(), &path, open, output);
                        }
                    },
                    _ => {},
                }
            },
            MenuEntry::Group(group) => {
                collect_visible(group.entries.as_slice(), &path, open, output);
            },
            _ => {},
        }
        proof {
            reveal(visible_from);
            let here = visible_view(output@).skip(before.len() as int);
            assert(visible_view(output@) =~= before + here);
            assert(visible_from(entries@, prefix@, open_view, index as int) =~= here + visible_from(
                entries@,
                prefix@,
                open_view,
                index as int + 1,
            ));
        }
        index = index + 1;
    }
}

/// The items shown for `entries` under `state`, in order.
pub fn visible_items<'a>(entries: &'a [MenuEntry], state: &MenuState) -> (r: Vec<VisibleItem<'a>>)
    ensures
        visible_view(r@) == visible(entries@, state.model().open),
{
    let mut items: Vec<VisibleItem<'a>> = Vec::new();
    let prefix: Vec<usize> = Vec::new();
    collect_visible(entries, &prefix, &state.open_submenus, &mut items);
    assert(visible_view(items@) =~= visible(entries@, state.model().open));
    items
}


pub open spec fn enabled_filter() -> spec_fn((Seq<usize>, MenuItem)) -> bool {
    |entry: (Seq<usize>, MenuItem)| is_enabled_item(entry)
}

/// The entries of `items` whose item is not disabled, in order.
fn enabled_only<'a>(items: &Vec<VisibleItem<'a>>) -> (r: Vec<VisibleItem<'a>>)
    ensures
        visible_view(r@) == visible_view(items@).filter(enabled_filter()),
{
    let ghost keep = enabled_filter();
    let ghost all = visible_view(items@);
    let mut kept: Vec<VisibleItem<'a>> = Vec::new();
    let mut index: usize = 0;
    while index < items.len()
        invariant
            0 <= index <= items.len(),
            keep == enabled_filter(),
            all == visible_view(items@),
            visible_view(kept@) == all.take(index as int).filter(keep),
        decreases items.len() - index,
    {
        proof {
            assert(all.take(index as int + 1).drop_last() =~= all.take(index as int));
            reveal(Seq::filter);
        }
        if !items[index].1.disabled {
            let ghost before = kept@;
            kept.push((copy_path(items[index].0.as_slice()), items[index].1));
            assert(visible_view(kept@) =~= visible_view(before).push(all[index as int]));
        }
        index = index + 1;
    }
    assert(all.take(items@.len() as int) =~= all);
    kept
}

/// The item at `path`, descending through submenus and groups.
pub fn item_at<'a>(entries: &'a [MenuEntry], path: &[usize]) -> (r: Option<&'a MenuItem>)
    ensures
        match r {
            Some(item) => item_at_path(entries@, path@) == Some(*item),
            None => item_at_path(entries@, path@) is None,
        },
    decreases entries@, path@.len(),
{
    if path.len() == 0 || path[0] >= entries.len() {
        return None;
    }
    let index = path[0];
    let rest = slice_rest(path);
    match &entries[index] {
        MenuEntry::Item(item) => {
            if rest.len() == 0 {
                Some(item)
            } else {
                match &item.kind {
                    MenuItemKind::Submenu(children) => item_at(children.as_slice(), rest),
                    _ => None,
                }
            }
        },
        MenuEntry::Group(group) => item_at(group.entries.as_slice(), rest),
        _ => None,
    }
}

/// Everything after the first index of a path.
fn slice_rest(path: &[usize]) -> (r: &[usize])
    requires
        path@.len() > 0,
    ensures
        r@ == path@.drop_first(),
{
    let (_, rest) = path.split_at(1);
    assert(rest@ =~= path@.drop_first());
    rest
}

/// The deepest open submenu that contains `focused`.
pub fn nearest_open_parent(focused: &[usize], open: &Vec<MenuPath>) -> (r: Option<MenuPath>)
    ensures
        match r {
            Some(parent) => deepest_open_parent(focused@, path_views(open@), parent@),
            None => forall|i: int| 0 <= i < open@.len() ==> !is_prefix(#[trigger] open@[i]@, focused@),
        },
{
    let mut best: Option<usize> = None;
    let mut index: usize = 0;
    while index < open.len()
        invariant
            0 <= index <= open.len(),
            match best {
                Some(b) => b < index && is_prefix(open@[b as int]@, focused@) && forall|i: int|
                    0 <= i < index && is_prefix(#[trigger] open@[i]@, focused@) ==> open@[i]@.len() <= open@[b as int]@.len(),
                None => forall|i: int| 0 <= i < index ==> !is_prefix(#[trigger] open@[i]@, focused@),
            },
        decreases open.len() - index,
    {
        if starts_with(focused, open[index].as_slice()) {
            best = match best {
                Some(b) => if open[index].len() >= open[b].len() {
                    Some(index)
                } else {
                    Some(b)
                },
                None => Some(index),
            };
        }
        index = index + 1;
    }
    match best {
        Some(b) => {
            let parent = copy_path(open[b].as_slice());
            proof {
                assert(path_views(open@)[b as int] == parent@);
                assert forall|i: int| 0 <= i < path_views(open@).len() && is_prefix(path_views(open@)[i], focused@) implies path_views(open@)[i].len() <= parent@.len() by {
                    assert(path_views(open@)[i] == open@[i]@);
                }
            }
            Some(parent)
        },
        None => None,
    }
}

/// What activating a non-submenu item reports.
fn activation(item: &MenuItem, path: MenuPath) -> (r: MenuActivation)
    requires
        !(item.kind is Submenu),
    ensures
        activation_of(*item, path@, r),
{
    let kind = match &item.kind {
        MenuItemKind::Action => MenuActivationKind::Action,
        MenuItemKind::Checkbox { checked } => MenuActivationKind::Checkbox { checked: !*checked },
        MenuItemKind::Radio { group, .. } => MenuActivationKind::Radio { group: group.clone() },
        MenuItemKind::Submenu(_) => MenuActivationKind::Action,
    };
    MenuActivation { id: item.id.clone(), path, kind }
}

/// A copy of a menu state.
pub fn copy_state(state: &MenuState) -> (r: MenuState)
    ensures
        r.model() == state.model(),
{
    MenuState {
        focused: match &state.focused {
            Some(path) => Some(copy_path(path.as_slice())),
            None => None,
        },
        open_submenus: copy_paths(&state.open_submenus),
        typeahead: state.typeahead.clone(),
    }
}

/// The new state together with the event that reports it.
fn changed(state: MenuState) -> (r: MenuTransition)
    ensures
        r.state.model() == state.model(),
        r.event matches Some(MenuEvent::StateChanged(reported)) && reported.model() == state.model(),
{
    let reported = copy_state(&state);
    MenuTransition { event: Some(MenuEvent::StateChanged(reported)), state }
}


/// Whether the lower-cased label of `item` starts with `query`.
pub open spec fn label_starts(item: MenuItem, query: Seq<char>) -> bool {
    let label = lowercase(item.label@);
    query.len() <= label.len() && label.take(query.len() as int) == query
}

/// Typeahead search over `items` from offset `k` on, starting at `start` with
/// wrap-around: the offset of the first item whose label starts with `query`.
pub open spec fn typeahead_from(items: Seq<(Seq<usize>, MenuItem)>, start: int, query: Seq<char>, k: int) -> Option<int>
    decreases items.len() - k,
{
    if k < 0 || k >= items.len() {
        None
    } else if label_starts(items[(start + k) % (items.len() as int)].1, query) {
        Some(k)
    } else {
        typeahead_from(items, start, query, k + 1)
    }
}

/// Index of the enabled item a movement command lands on.
pub open spec fn nav_index(current: Option<int>, n: int, command: MenuCommand) -> int {
    match command {
        MenuCommand::First => 0,
        MenuCommand::Last => n - 1,
        MenuCommand::Next => match current {
            Some(i) => (i + 1) % n,
            None => 0,
        },
        MenuCommand::Previous => match current {
            Some(i) => (i + n - 1) % n,
            None => n - 1,
        },
        _ => 0,
    }
}

pub open spec fn not_under(parent: Seq<usize>) -> spec_fn(Seq<usize>) -> bool {
    |path: Seq<usize>| !is_prefix(parent, path)
}

pub open spec fn reports_state(t: MenuTransition) -> bool {
    t.event matches Some(MenuEvent::StateChanged(reported)) && reported.model() == t.state.model()
}

pub open spec fn enabled_of(s: MenuStateModel, entries: Seq<MenuEntry>) -> Seq<(Seq<usize>, MenuItem)> {
    enabled_items(entries, s.open)
}

pub open spec fn current_of(s: MenuStateModel, entries: Seq<MenuEntry>) -> Option<int> {
    match s.focused {
        Some(p) => position_of(enabled_of(s, entries), p),
        None => None,
    }
}

/// Arrow, Home and End movement over the enabled items.
pub open spec fn step_move(s: MenuStateModel, entries: Seq<MenuEntry>, command: MenuCommand, t: MenuTransition) -> bool {
    let enabled = enabled_of(s, entries);
    let n = enabled.len() as int;
    if n == 0 {
        t.state.model() == s && t.event is None
    } else {
        &&& t.state.model() == (MenuStateModel {
            focused: Some(enabled[nav_index(current_of(s, entries), n, command)].0),
            open: s.open,
            typeahead: seq![],
        })
        &&& reports_state(t)
    }
}

/// Activation (Enter) and Forward (the arrow into a submenu): a submenu opens
/// and focuses its first enabled item; other items activate, or Forward asks
/// the menubar to move to the next menu.
pub open spec fn step_activate(s: MenuStateModel, entries: Seq<MenuEntry>, command: MenuCommand, t: MenuTransition) -> bool {
    let unchanged = t.state.model() == s;
    match s.focused {
        None => unchanged && t.event is None,
        Some(path) => match item_at_path(entries, path) {
            None => unchanged && t.event is None,
            Some(item) => if item.disabled {
                unchanged && t.event is None
            } else {
                match item.kind {
                    MenuItemKind::Submenu(children) => {
                        let open = if s.open.contains(path) {
                            s.open
                        } else {
                            s.open.push(path)
                        };
                        let inner = visible_from(children@, path, open, 0).filter(enabled_filter());
                        &&& t.state.model() == (MenuStateModel {
                            focused: Some(
                                if inner.len() > 0 {
                                    inner[0].0
                                } else {
                                    path
                                },
                            ),
                            open,
                            typeahead: s.typeahead,
                        })
                        &&& reports_state(t)
                    },
                    _ => unchanged && if command == MenuCommand::Forward {
                        t.event == Some(MenuEvent::MoveTopLevel(TopLevelMove::Next))
                    } else {
                        t.event matches Some(MenuEvent::Activated(a)) && activation_of(item, path, a)
                    },
                }
            },
        },
    }
}

/// Back and Escape close the deepest open submenu around the focus and focus
/// its trigger; at the top level Escape dismisses and Back asks the menubar
/// for the previous menu.
pub open spec fn step_back(s: MenuStateModel, command: MenuCommand, t: MenuTransition) -> bool {
    let nested = s.focused matches Some(f) && exists|i: int| 0 <= i < s.open.len() && is_prefix(#[trigger] s.open[i], f);
    if nested {
        &&& t.state.model().focused matches Some(parent) && deepest_open_parent(s.focused->0, s.open, parent)
            && t.state.model().open == s.open.filter(not_under(parent))
        &&& t.state.model().typeahead == Seq::<char>::empty()
        &&& reports_state(t)
    } else {
        t.state.model() == s && t.event == Some(
            if command == MenuCommand::Escape {
                MenuEvent::Dismiss
            } else {
                MenuEvent::MoveTopLevel(TopLevelMove::Previous)
            },
        )
    }
}

/// A printable character replaces the typeahead with its lower-case form and
/// focuses the next enabled item, after the focused one and wrapping, whose
/// label starts with it.
pub open spec fn step_character(s: MenuStateModel, entries: Seq<MenuEntry>, c: char, t: MenuTransition) -> bool {
    let enabled = enabled_of(s, entries);
    let n = enabled.len() as int;
    if is_control_char(c) {
        t.state.model() == s && t.event is None
    } else {
        let query = lowercase(seq![c]);
        let start = match current_of(s, entries) {
            Some(i) => i + 1,
            None => 0,
        };
        &&& t.state.model().open == s.open
        &&& t.state.model().typeahead == query
        &&& t.state.model().focused == match typeahead_from(enabled, start, query, 0) {
            Some(k) => Some(enabled[(start + k) % n].0),
            None => s.focused,
        }
        &&& reports_state(t)
    }
}

/// Clearing an empty typeahead changes nothing.
pub open spec fn step_clear(s: MenuStateModel, t: MenuTransition) -> bool {
    if s.typeahead.len() == 0 {
        t.state.model() == s && t.event is None
    } else {
        &&& t.state.model() == (MenuStateModel { focused: s.focused, open: s.open, typeahead: seq![] })
        &&& reports_state(t)
    }
}

/// What `reduce_menu` owes for `command` from state `s` over `entries`.
pub open spec fn menu_step(s: MenuStateModel, entries: Seq<MenuEntry>, command: MenuCommand, t: MenuTransition) -> bool {
    match command {
        MenuCommand::Previous | MenuCommand::Next | MenuCommand::First | MenuCommand::Last => step_move(
            s,
            entries,
            command,
            t,
        ),
        MenuCommand::Activate | MenuCommand::Forward => step_activate(s, entries, command, t),
        MenuCommand::Back | MenuCommand::Escape => step_back(s, command, t),
        MenuCommand::Character(c) => step_character(s, entries, c, t),
        MenuCommand::ClearTypeahead => step_clear(s, t),
    }
}

/// Index of the first entry of `items` at `path`.
fn position_in<'a>(items: &Vec<VisibleItem<'a>>, path: &[usize]) -> (r: Option<usize>)
    ensures
        match r {
            Some(i) => position_of(visible_view(items@), path@) == Some(i as int),
            None => position_of(visible_view(items@), path@) is None,
        },
        r matches Some(i) ==> i < items@.len(),
{
    let ghost view = visible_view(items@);
    let mut index: usize = 0;
    while index < items.len()
        invariant
            0 <= index <= items.len(),
            view == visible_view(items@),
            forall|j: int| 0 <= j < index ==> view[j].0 != path@,
        decreases items.len() - index,
    {
        if same_path(items[index].0.as_slice(), path) {
            proof {
                let i = index as int;
                assert(view[i].0 == path@);
                let c = choose|c: int| 0 <= c < view.len() && view[c].0 == path@ && forall|j: int| 0 <= j < c ==> view[j].0 != path@;
                if c < i {
                } else if c > i {
                }
                assert(c == i);
            }
            return Some(index);
        }
        index = index + 1;
    }
    None
}

/// Whether the lower-cased label of `item` starts with `query`.
fn label_starts_with(item: &MenuItem, query: &Vec<char>) -> (r: bool)
    ensures
        r == label_starts(*item, query@),
{
    let label = to_lowercase(item.label.as_str());
    let label = chars_of(label.as_str());
    if query.len() > label.len() {
        return false;
    }
    let mut index: usize = 0;
    while index < query.len()
        invariant
            query.len() <= label.len(),
            label@ == lowercase(item.label@),
            0 <= index <= query.len(),
            forall|j: int| 0 <= j < index ==> label@[j] == query@[j],
        decreases query.len() - index,
    {
        if label[index] != query[index] {
            assert(label@.take(query@.len() as int)[index as int] != query@[index as int]);
            return false;
        }
        index = index + 1;
    }
    assert(label@.take(query@.len() as int) =~= query@);
    true
}

/// Enabled items and the position of the focused one among them.
fn enabled_and_current<'a>(entries: &'a [MenuEntry], state: &MenuState) -> (r: (Vec<VisibleItem<'a>>, Option<usize>))
    ensures
        visible_view(r.0@) == enabled_of(state.model(), entries@),
        match r.1 {
            Some(i) => current_of(state.model(), entries@) == Some(i as int),
            None => current_of(state.model(), entries@) is None,
        },
        r.1 matches Some(i) ==> i < r.0@.len(),
{
    let items = visible_items(entries, state);
    let enabled = enabled_only(&items);
    let current = match &state.focused {
        Some(path) => position_in(&enabled, path.as_slice()),
        None => None,
    };
    (enabled, current)
}

fn reduce_move(state: &MenuState, entries: &[MenuEntry], command: MenuCommand) -> (r: MenuTransition)
    requires
        command is Previous || command is Next || command is First || command is Last,
    ensures
        step_move(state.model(), entries@, command, r),
{
    let mut next = copy_state(state);
    let (enabled, current) = enabled_and_current(entries, state);
    let n = enabled.len();
    if n == 0 {
        return MenuTransition { state: next, event: None };
    }
    let index = match command {
        MenuCommand::First => 0,
        MenuCommand::Last => n - 1,
        MenuCommand::Next => match current {
            Some(i) => (i + 1) % n,
            None => 0,
        },
        _ => match current {
            Some(i) => if i == 0 {
                n - 1
            } else {
                i - 1
            },
            None => n - 1,
        },
    };
    proof {
        if let Some(i) = current {
            assert(i < n);
            if command is Previous {
                assert((i + n - 1) % (n as int) == if i == 0 { n - 1 } else { i - 1 }) by (nonlinear_arith)
                    requires
                        i < n,
                ;
            }
        }
    }
    next.focused = Some(copy_path(enabled[index].0.as_slice()));
    next.typeahead = String::new();
    changed(next)
}

fn reduce_activate(state: &MenuState, entries: &[MenuEntry], command: MenuCommand) -> (r: MenuTransition)
    requires
        command is Activate || command is Forward,
    ensures
        step_activate(state.model(), entries@, command, r),
{
    let mut next = copy_state(state);
    let path = match &state.focused {
        Some(path) => copy_path(path.as_slice()),
        None => return MenuTransition { state: next, event: None },
    };
    let item = match item_at(entries, path.as_slice()) {
        Some(item) => item,
        None => return MenuTransition { state: next, event: None },
    };
    if item.disabled {
        return MenuTransition { state: next, event: None };
    }
    match &item.kind {
        MenuItemKind::Submenu(children) => {
            if !contains_path(&next.open_submenus, path.as_slice()) {
                let ghost before = next.open_submenus@;
                next.open_submenus.push(copy_path(path.as_slice()));
                assert(path_views(next.open_submenus@) =~= path_views(before).push(path@));
            }
            let mut inner: Vec<VisibleItem> = Vec::new();
            collect_visible(children.as_slice(), &path, &next.open_submenus, &mut inner);
            let inner = enabled_only(&inner);
            assert(visible_view(Seq::<VisibleItem>::empty()) =~= Seq::<(Seq<usize>, MenuItem)>::empty());
            if inner.len() > 0 {
                next.focused = Some(copy_path(inner[0].0.as_slice()));
            } else {
                next.focused = Some(copy_path(path.as_slice()));
            }
            changed(next)
        },
        _ => {
            if command == MenuCommand::Forward {
                MenuTransition { state: next, event: Some(MenuEvent::MoveTopLevel(TopLevelMove::Next)) }
            } else {
                let activated = activation(item, path);
                MenuTransition { state: next, event: Some(MenuEvent::Activated(activated)) }
            }
        },
    }
}

/// The open paths that do not lie under `parent`.
fn open_outside(open: &Vec<MenuPath>, parent: &[usize]) -> (r: Vec<MenuPath>)
    ensures
        path_views(r@) == path_views(open@).filter(not_under(parent@)),
{
    let mut kept: Vec<MenuPath> = Vec::new();
    let mut index: usize = 0;
    let ghost keep = not_under(parent@);
    let ghost all = path_views(open@);
    while index < open.len()
        invariant
            0 <= index <= open.len(),
            keep == not_under(parent@),
            all == path_views(open@),
            path_views(kept@) == all.take(index as int).filter(keep),
        decreases open.len() - index,
    {
        proof {
            assert(all.take(index as int + 1).drop_last() =~= all.take(index as int));
            reveal(Seq::filter);
        }
        if !starts_with(open[index].as_slice(), parent) {
            let ghost before = kept@;
            kept.push(copy_path(open[index].as_slice()));
            assert(path_views(kept@) =~= path_views(before).push(all[index as int]));
        }
        index = index + 1;
    }
    assert(all.take(all.len() as int) =~= all);
    kept
}

fn reduce_back(state: &MenuState, command: MenuCommand) -> (r: MenuTransition)
    requires
        command is Back || command is Escape,
    ensures
        step_back(state.model(), command, r),
{
    let mut next = copy_state(state);
    let ghost s = state.model();
    let parent = match &state.focused {
        Some(focused) => nearest_open_parent(focused.as_slice(), &state.open_submenus),
        None => None,
    };
    match parent {
        Some(parent) => {
            next.open_submenus = open_outside(&state.open_submenus, parent.as_slice());
            next.focused = Some(parent);
            next.typeahead = String::new();
            proof {
                let f = s.focused->0;
                let parent_view = next.focused->0@;
                assert(s.open.contains(parent_view));
                let i = choose|i: int| 0 <= i < s.open.len() && s.open[i] == parent_view;
                assert(is_prefix(s.open[i], f));
            }
            changed(next)
        },
        None => {
            proof {
                if let Some(f) = s.focused {
                    assert forall|i: int| 0 <= i < s.open.len() implies !is_prefix(#[trigger] s.open[i], f) by {
                        assert(s.open[i] == state.open_submenus@[i]@);
                    }
                }
            }
            let event = if command == MenuCommand::Escape {
                MenuEvent::Dismiss
            } else {
                MenuEvent::MoveTopLevel(TopLevelMove::Previous)
            };
            MenuTransition { state: next, event: Some(event) }
        },
    }
}

/// Offset of the first item, from `start` with wrap-around, whose label starts
/// with `query`.
fn typeahead_search<'a>(enabled: &Vec<VisibleItem<'a>>, start: usize, query: &Vec<char>) -> (r: Option<usize>)
    requires
        start <= enabled@.len(),
    ensures
        typeahead_from(visible_view(enabled@), start as int, query@, 0) == match r {
            Some(k) => Some(k as int),
            None => None::<int>,
        },
        r matches Some(k) ==> k < enabled@.len(),
{
    let ghost view = visible_view(enabled@);
    let n = enabled.len();
    let mut offset: usize = 0;
    while offset < n
        invariant
            n == enabled@.len(),
            view == visible_view(enabled@),
            0 <= offset <= n,
            start <= n,
            typeahead_from(view, start as int, query@, 0) == typeahead_from(view, start as int, query@, offset as int),
        decreases n - offset,
    {
        let index = if offset < n - start {
            start + offset
        } else {
            offset - (n - start)
        };
        assert(index == (start + offset) % (n as int)) by (nonlinear_arith)
            requires
                start <= n,
                offset < n,
                index == if offset < n - start {
                    start + offset
                } else {
                    offset - (n - start)
                },
        ;
        if label_starts_with(enabled[index].1, query) {
            return Some(offset);
        }
        offset = offset + 1;
    }
    None
}

/// The index `(start + k) % n`, for `start <= n` and `k < n`.
fn wrapped_index(start: usize, k: usize, n: usize) -> (r: usize)
    requires
        start <= n,
        k < n,
    ensures
        r == (start + k) % (n as int),
        r < n,
{
    let index = if k < n - start {
        start + k
    } else {
        k - (n - start)
    };
    assert(index == (start + k) % (n as int)) by (nonlinear_arith)
        requires
            start <= n,
            k < n,
            index == if k < n - start {
                start + k
            } else {
                k - (n - start)
            },
    ;
    index
}

fn reduce_character(state: &MenuState, entries: &[MenuEntry], character: char) -> (r: MenuTransition)
    ensures
        step_character(state.model(), entries@, character, r),
{
    let mut next = copy_state(state);
    if is_control(character) {
        return MenuTransition { state: next, event: None };
    }
    let (enabled, current) = enabled_and_current(entries, state);
    let n = enabled.len();
    let mut single = String::new();
    push_char(&mut single, character);
    assert(single@ =~= seq![character]);
    let typeahead = to_lowercase(single.as_str());
    let query = chars_of(typeahead.as_str());
    next.typeahead = typeahead;
    let start = match current {
        Some(i) => i + 1,
        None => 0,
    };
    let found = typeahead_search(&enabled, start, &query);
    if let Some(k) = found {
        let index = wrapped_index(start, k, n);
        next.focused = Some(copy_path(enabled[index].0.as_slice()));
    }
    changed(next)
}

fn reduce_clear(state: &MenuState) -> (r: MenuTransition)
    ensures
        step_clear(state.model(), r),
{
    let mut next = copy_state(state);
    if next.typeahead.unicode_len() == 0 {
        MenuTransition { state: next, event: None }
    } else {
        next.typeahead = String::new();
        changed(next)
    }
}

/// Applies one menu command. State stays caller-owned; the returned event is
/// what a rendered menu emits for the same command.
pub fn reduce_menu(state: &MenuState, entries: &[MenuEntry], command: MenuCommand) -> (r: MenuTransition)
    ensures
        menu_step(state.model(), entries@, command, r),
{
    match command {
        MenuCommand::Previous | MenuCommand::Next | MenuCommand::First | MenuCommand::Last => reduce_move(
            state,
            entries,
            command,
        ),
        MenuCommand::Activate | MenuCommand::Forward => reduce_activate(state, entries, command),
        MenuCommand::Back | MenuCommand::Escape => reduce_back(state, command),
        MenuCommand::Character(character) => reduce_character(state, entries, character),
        MenuCommand::ClearTypeahead => reduce_clear(state),
    }
}


impl MenuState {
    /// The state a freshly opened menu starts in: nothing open, no typeahead,
    /// focus on the first enabled visible item.
    pub fn initial(entries: &[MenuEntry]) -> (r: MenuState)
        ensures
            r.model() == (MenuStateModel {
                focused: if enabled_items(entries@, seq![]).len() > 0 {
                    Some(enabled_items(entries@, seq![])[0].0)
                } else {
                    None
                },
                open: seq![],
                typeahead: seq![],
            }),
    {
        let mut state = MenuState { focused: None, open_submenus: Vec::new(), typeahead: String::new() };
        assert(state.model().open =~= Seq::<Seq<usize>>::empty());
        let items = visible_items(entries, &state);
        let enabled = enabled_only(&items);
        if enabled.len() > 0 {
            state.focused = Some(copy_path(enabled[0].0.as_slice()));
        }
        assert(state.model().open =~= Seq::<Seq<usize>>::empty());
        assert(state.model().typeahead =~= Seq::<char>::empty());
        state
    }
}

/// The item that holds focus when `state` is rendered: the focused item if it
/// is visible and enabled, else the first enabled visible item.
pub open spec fn resolved_index(s: MenuStateModel, entries: Seq<MenuEntry>) -> Option<int> {
    let enabled = enabled_of(s, entries);
    match current_of(s, entries) {
        Some(i) => Some(i),
        None => if enabled.len() > 0 {
            Some(0)
        } else {
            None
        },
    }
}

/// The visible, enabled item that holds focus when `state` is rendered, with
/// its path: the focused item where it is visible and enabled, else the first
/// enabled visible item.
pub fn resolved_focus<'a>(entries: &'a [MenuEntry], state: &MenuState) -> (r: Option<VisibleItem<'a>>)
    ensures
        match resolved_index(state.model(), entries@) {
            Some(i) => r matches Some(v) && (v.0@, *v.1) == enabled_of(state.model(), entries@)[i],
            None => r is None,
        },
{
    let (enabled, current) = enabled_and_current(entries, state);
    match current {
        Some(i) => Some((copy_path(enabled[i].0.as_slice()), enabled[i].1)),
        None => if enabled.len() > 0 {
            Some((copy_path(enabled[0].0.as_slice()), enabled[0].1))
        } else {
            None
        },
    }
}

/// The command a key press maps to; the horizontal arrows follow the reading
/// direction (forward opens a submenu, back closes one).
pub fn menu_command(key: &Key, direction: Direction) -> (r: Option<MenuCommand>)
    ensures
        r == menu_command_of(*key, direction),
{
    match key {
        Key::ArrowUp => Some(MenuCommand::Previous),
        Key::ArrowDown => Some(MenuCommand::Next),
        Key::Home => Some(MenuCommand::First),
        Key::End => Some(MenuCommand::Last),
        Key::Escape => Some(MenuCommand::Escape),
        Key::ArrowRight => match direction {
            Direction::LeftToRight => Some(MenuCommand::Forward),
            Direction::RightToLeft => Some(MenuCommand::Back),
        },
        Key::ArrowLeft => match direction {
            Direction::LeftToRight => Some(MenuCommand::Back),
            Direction::RightToLeft => Some(MenuCommand::Forward),
        },
        Key::Character(value) => {
            if value.unicode_len() > 0 {
                Some(MenuCommand::Character(value.get_char(0)))
            } else {
                None
            }
        },
        _ => None,
    }
}

pub open spec fn menu_command_of(key: Key, direction: Direction) -> Option<MenuCommand> {
    match key {
        Key::ArrowUp => Some(MenuCommand::Previous),
        Key::ArrowDown => Some(MenuCommand::Next),
        Key::Home => Some(MenuCommand::First),
        Key::End => Some(MenuCommand::Last),
        Key::Escape => Some(MenuCommand::Escape),
        Key::ArrowRight => Some(
            if direction == Direction::LeftToRight {
                MenuCommand::Forward
            } else {
                MenuCommand::Back
            },
        ),
        Key::ArrowLeft => Some(
            if direction == Direction::LeftToRight {
                MenuCommand::Back
            } else {
                MenuCommand::Forward
            },
        ),
        Key::Character(value) => if value@.len() > 0 {
            Some(MenuCommand::Character(value@[0]))
        } else {
            None
        },
        _ => None,
    }
}

/// Stable focus key of a menu item: the menu ID and the caller's item ID.
/// The path does not enter it, so reordering keeps an item's identity.
pub fn menu_item_id(menu_id: &str, item_id: &str, path: &[usize]) -> (r: String)
    ensures
        r@ == "ducktape-menu:"@ + menu_id@ + seq![':'] + item_id@,
{
    let mut key = String::from_str("ducktape-menu:");
    key.append(menu_id);
    push_char(&mut key, ':');
    key.append(item_id);
    key
}


/// `s` with the item at `path` focused.
pub open spec fn focused_at(s: MenuStateModel, path: Seq<usize>) -> MenuStateModel {
    MenuStateModel { focused: Some(path), ..s }
}

/// What clicking the item at `path` reports: the event of activating it once
/// it holds focus, or, when activation reports nothing, the unchanged state.
pub fn menu_click(state: &MenuState, entries: &[MenuEntry], path: &[usize]) -> (r: MenuEvent)
    ensures
        exists|t: MenuTransition|
            menu_step(focused_at(state.model(), path@), entries@, MenuCommand::Activate, t) && match t.event {
                Some(event) => r == event,
                None => r matches MenuEvent::StateChanged(unchanged) && unchanged.model() == state.model(),
            },
{
    let mut click = copy_state(state);
    click.focused = Some(copy_path(path));
    assert(click.model() == focused_at(state.model(), path@));
    let t = reduce_menu(&click, entries, MenuCommand::Activate);
    match t.event {
        Some(event) => event,
        None => MenuEvent::StateChanged(copy_state(state)),
    }
}

/// `position_of` finds the first entry at `path`, and reports `None` only when
/// no entry is there.
pub proof fn lemma_position_of(items: Seq<(Seq<usize>, MenuItem)>, path: Seq<usize>)
    ensures
        match position_of(items, path) {
            Some(i) => 0 <= i < items.len() && items[i].0 == path && forall|j: int| 0 <= j < i ==> items[j].0 != path,
            None => forall|i: int| 0 <= i < items.len() ==> items[i].0 != path,
        },
{
    if exists|i: int| 0 <= i < items.len() && items[i].0 == path {
        let k = choose|i: int| 0 <= i < items.len() && items[i].0 == path;
        lemma_first_at(items, path, k);
    }
}

proof fn lemma_first_at(items: Seq<(Seq<usize>, MenuItem)>, path: Seq<usize>, k: int)
    requires
        0 <= k < items.len(),
        items[k].0 == path,
    ensures
        exists|i: int| 0 <= i < items.len() && items[i].0 == path && forall|j: int| 0 <= j < i ==> items[j].0 != path,
    decreases k,
{
    if exists|j: int| 0 <= j < k && items[j].0 == path {
        let j = choose|j: int| 0 <= j < k && items[j].0 == path;
        lemma_first_at(items, path, j);
    } else {
        assert(forall|j: int| 0 <= j < k ==> items[j].0 != path);
    }
}

/// Arrow, Home and End movement always lands on a visible, enabled item when
/// the menu shows one, and clears the typeahead.
pub proof fn lemma_movement_lands_on_enabled(state: MenuState, entries: Seq<MenuEntry>, command: MenuCommand, t: MenuTransition)
    requires
        command is Previous || command is Next || command is First || command is Last,
        menu_step(state.model(), entries, command, t),
        enabled_items(entries, state.model().open).len() > 0,
    ensures
        exists|i: int| #![trigger enabled_items(entries, state.model().open)[i]]
            0 <= i < enabled_items(entries, state.model().open).len()
            && t.state.model().focused == Some(enabled_items(entries, state.model().open)[i].0)
            && !enabled_items(entries, state.model().open)[i].1.disabled,
        t.state.model().typeahead.len() == 0,
{
    let s = state.model();
    let enabled = enabled_items(entries, s.open);
    let n = enabled.len() as int;
    let current = current_of(s, entries);
    if let Some(p) = s.focused {
        lemma_position_of(enabled, p);
    }
    let i = nav_index(current, n, command);
    if let Some(c) = current {
        assert(0 <= c < n);
        assert(0 <= (c + 1) % n < n) by (nonlinear_arith)
            requires
                n > 0,
        ;
        assert(0 <= (c + n - 1) % n < n) by (nonlinear_arith)
            requires
                n > 0,
        ;
    }
    assert(0 <= i < n);
    visible(entries, s.open).lemma_filter_pred(enabled_filter(), i);
}

proof fn lemma_prefix_trans(a: Seq<usize>, b: Seq<usize>, c: Seq<usize>)
    requires
        is_prefix(a, b),
        is_prefix(b, c),
    ensures
        is_prefix(a, c),
{
    assert(c.take(a.len() as int) =~= c.take(b.len() as int).take(a.len() as int));
}

proof fn lemma_prefixes_nest(a: Seq<usize>, b: Seq<usize>, c: Seq<usize>)
    requires
        is_prefix(a, c),
        is_prefix(b, c),
        a.len() <= b.len(),
    ensures
        is_prefix(a, b),
{
    assert(b.take(a.len() as int) =~= c.take(b.len() as int).take(a.len() as int));
    assert(c.take(a.len() as int) =~= c.take(b.len() as int).take(a.len() as int));
}

/// Every item shown for `entries[index..]` under `prefix` lies strictly below
/// `prefix`.
proof fn lemma_visible_under(entries: Seq<MenuEntry>, prefix: Seq<usize>, open: Seq<Seq<usize>>, index: int)
    ensures
        forall|k: int| 0 <= k < visible_from(entries, prefix, open, index).len() ==> is_prefix(prefix, #[trigger] visible_from(entries, prefix, open, index)[k].0)
            && visible_from(entries, prefix, open, index)[k].0.len() > prefix.len(),
    decreases entries, entries.len() - index,
{
    reveal(visible_from);
    if 0 <= index < entries.len() {
        let path = prefix.push(index as usize);
        assert(path.take(prefix.len() as int) =~= prefix);
        lemma_visible_under(entries, prefix, open, index + 1);
        let here = match entries[index] {
            MenuEntry::Item(item) => {
                let nested = match item.kind {
                    MenuItemKind::Submenu(children) => if !item.disabled && open.contains(path) {
                        visible_from(children@, path, open, 0)
                    } else {
                        seq![]
                    },
                    _ => seq![],
                };
                seq![(path, item)] + nested
            },
            MenuEntry::Group(group) => visible_from(group.entries@, path, open, 0),
            _ => seq![],
        };
        assert forall|k: int| 0 <= k < here.len() implies is_prefix(prefix, #[trigger] here[k].0) && here[k].0.len() > prefix.len() by {
            match entries[index] {
                MenuEntry::Item(item) => {
                    if k > 0 {
                        match item.kind {
                            MenuItemKind::Submenu(children) => {
                                lemma_visible_under(children@, path, open, 0);
                                lemma_prefix_trans(prefix, path, here[k].0);
                            },
                            _ => {},
                        }
                    }
                },
                MenuEntry::Group(group) => {
                    lemma_visible_under(group.entries@, path, open, 0);
                    lemma_prefix_trans(prefix, path, here[k].0);
                },
                _ => {},
            }
        }
        let rest = visible_from(entries, prefix, open, index + 1);
        assert(visible_from(entries, prefix, open, index) == here + rest);
        assert forall|k: int| 0 <= k < (here + rest).len() implies is_prefix(prefix, #[trigger] (here + rest)[k].0)
            && (here + rest)[k].0.len() > prefix.len() by {
            if k >= here.len() {
                assert((here + rest)[k] == rest[k - here.len()]);
            }
        }
    }
}

/// Opening a closed, enabled submenu with Forward and then going Back closes
/// it again and returns focus to its trigger, when nothing beneath it was open.
pub proof fn lemma_back_undoes_forward(
    state: MenuState,
    entries: Seq<MenuEntry>,
    path: Seq<usize>,
    item: MenuItem,
    opened: MenuTransition,
    closed: MenuTransition,
)
    requires
        state.model().focused == Some(path),
        item_at_path(entries, path) == Some(item),
        !item.disabled,
        item.kind is Submenu,
        forall|i: int| 0 <= i < state.model().open.len() ==> !is_prefix(path, #[trigger] state.model().open[i]),
        menu_step(state.model(), entries, MenuCommand::Forward, opened),
        menu_step(opened.state.model(), entries, MenuCommand::Back, closed),
    ensures
        closed.state.model().focused == Some(path),
        closed.state.model().open == state.model().open,
{
    let s = state.model();
    let o = opened.state.model();
    assert(is_prefix(path, path)) by {
        assert(path.take(path.len() as int) =~= path);
    }
    assert(!s.open.contains(path)) by {
        if s.open.contains(path) {
            let i = choose|i: int| 0 <= i < s.open.len() && s.open[i] == path;
            assert(is_prefix(path, s.open[i]));
        }
    }
    let children = item.kind->Submenu_0;
    let open = s.open.push(path);
    let shown = visible_from(children@, path, open, 0);
    let inner = shown.filter(enabled_filter());
    assert(o.open == open);
    let f = o.focused->0;
    assert(is_prefix(path, f)) by {
        if inner.len() > 0 {
            lemma_visible_under(children@, path, open, 0);
            assert(inner.contains(inner[0]));
            shown.lemma_filter_contains_rev(enabled_filter(), inner[0]);
            let k = choose|k: int| 0 <= k < shown.len() && shown[k] == inner[0];
            assert(is_prefix(path, shown[k].0));
        }
    }
    assert(open[open.len() - 1] == path);
    assert(is_prefix(open[open.len() - 1], f));
    let parent = closed.state.model().focused->0;
    assert(deepest_open_parent(f, open, parent));
    assert(parent == path) by {
        assert(open[open.len() - 1].len() <= parent.len());
        lemma_prefixes_nest(path, parent, f);
        let j = choose|j: int| 0 <= j < open.len() && open[j] == parent;
        if j < s.open.len() {
            assert(open[j] == s.open[j]);
            assert(is_prefix(path, s.open[j]));
        }
    }
    s.open.lemma_filter_push(path, not_under(path));
    crate::seqs::lemma_filter_keeps_all(s.open, not_under(path));
}


proof fn lemma_typeahead_from(items: Seq<(Seq<usize>, MenuItem)>, start: int, query: Seq<char>, k: int)
    requires
        0 <= k,
    ensures
        match typeahead_from(items, start, query, k) {
            Some(j) => k <= j < items.len() && label_starts(items[(start + j) % (items.len() as int)].1, query),
            None => true,
        },
    decreases items.len() - k,
{
    if k < items.len() && !label_starts(items[(start + k) % (items.len() as int)].1, query) {
        lemma_typeahead_from(items, start, query, k + 1);
    }
}

/// A printable character becomes the whole typeahead, in lower case, and the
/// focus either stays or moves to an enabled visible item whose lower-cased
/// label starts with it.
pub proof fn lemma_typeahead_focuses_match(state: MenuState, entries: Seq<MenuEntry>, c: char, t: MenuTransition)
    requires
        !is_control_char(c),
        menu_step(state.model(), entries, MenuCommand::Character(c), t),
    ensures
        t.state.model().typeahead == lowercase(seq![c]),
        t.state.model().open == state.model().open,
        t.state.model().focused == state.model().focused || exists|i: int| #![trigger enabled_items(entries, state.model().open)[i]]
            0 <= i < enabled_items(entries, state.model().open).len()
            && t.state.model().focused == Some(enabled_items(entries, state.model().open)[i].0)
            && !enabled_items(entries, state.model().open)[i].1.disabled
            && label_starts(enabled_items(entries, state.model().open)[i].1, lowercase(seq![c])),
{
    let s = state.model();
    let enabled = enabled_items(entries, s.open);
    let n = enabled.len() as int;
    let query = lowercase(seq![c]);
    let start = match current_of(s, entries) {
        Some(i) => i + 1,
        None => 0,
    };
    lemma_typeahead_from(enabled, start, query, 0);
    if let Some(k) = typeahead_from(enabled, start, query, 0) {
        let i = (start + k) % n;
        assert(0 <= i < n) by (nonlinear_arith)
            requires
                n > 0,
                i == (start + k) % n,
        ;
        visible(entries, s.open).lemma_filter_pred(enabled_filter(), i);
    }
}

} // verus!
