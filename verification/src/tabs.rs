//! Tab container state: the open tabs, which one is active, and the overflow
//! menu; drawing the tab bar is left to the user interface.

use vstd::prelude::*;
use crate::text::{chars_eq, chars_of};

verus! {

/// Type-safe identification of what a tab shows.
#[derive(Clone, Debug, Eq, Hash)]
pub enum TabContentType {
    SqlEditor,
    /// Table name.
    TableData(String),
    /// Table name.
    TableForm(String),
    /// Query id.
    QueryResult(String),
    /// Custom type identifier.
    Custom(String),
}

/// A content type with its strings as character sequences.
pub enum ContentTypeView {
    SqlEditor,
    TableData(Seq<char>),
    TableForm(Seq<char>),
    QueryResult(Seq<char>),
    Custom(Seq<char>),
}

impl View for TabContentType {
    type V = ContentTypeView;

    open spec fn view(&self) -> ContentTypeView {
        match self {
            TabContentType::SqlEditor => ContentTypeView::SqlEditor,
            TabContentType::TableData(s) => ContentTypeView::TableData(s@),
            TabContentType::TableForm(s) => ContentTypeView::TableForm(s@),
            TabContentType::QueryResult(s) => ContentTypeView::QueryResult(s@),
            TabContentType::Custom(s) => ContentTypeView::Custom(s@),
        }
    }
}

fn str_eq(a: &String, b: &String) -> (r: bool)
    ensures
        r == (a@ == b@),
{
    let x = chars_of(a.as_str());
    let y = chars_of(b.as_str());
    chars_eq(x.as_slice(), y.as_slice())
}

impl PartialEq for TabContentType {
    fn eq(&self, other: &Self) -> (r: bool) {
        match (self, other) {
            (TabContentType::SqlEditor, TabContentType::SqlEditor) => true,
            (TabContentType::TableData(a), TabContentType::TableData(b)) => str_eq(a, b),
            (TabContentType::TableForm(a), TabContentType::TableForm(b)) => str_eq(a, b),
            (TabContentType::QueryResult(a), TabContentType::QueryResult(b)) => str_eq(a, b),
            (TabContentType::Custom(a), TabContentType::Custom(b)) => str_eq(a, b),
            _ => false,
        }
    }
}

impl vstd::std_specs::cmp::PartialEqSpecImpl for TabContentType {
    open spec fn obeys_eq_spec() -> bool {
        true
    }

    open spec fn eq_spec(&self, other: &Self) -> bool {
        self@ == other@
    }
}

} // verus!

verus! {

/// Icons a tab can show before its title.
#[derive(Debug, Clone, Copy, PartialEq, Eq, Structural)]
pub enum TabIcon {
    File,
    Folder,
    LayoutDashboard,
    Settings,
}

/// A single tab: its id and what the tab bar needs of its content.
#[derive(Debug)]
pub struct TabItem {
    id: String,
    title: String,
    closeable: bool,
    content_type: TabContentType,
}

/// A tab with its strings as character sequences.
pub struct TabItemView {
    pub id: Seq<char>,
    pub title: Seq<char>,
    pub closeable: bool,
    pub content_type: ContentTypeView,
}

impl View for TabItem {
    type V = TabItemView;

    closed spec fn view(&self) -> TabItemView {
        TabItemView {
            id: self.id@,
            title: self.title@,
            closeable: self.closeable,
            content_type: self.content_type@,
        }
    }
}

impl TabItem {
    /// A tab with the given id, title, closeability and content type.
    pub fn new(id: String, title: String, closeable: bool, content_type: TabContentType) -> (r: Self)
        ensures
            r@ == (TabItemView {
                id: id@,
                title: title@,
                closeable,
                content_type: content_type@,
            }),
    {
        TabItem { id, title, closeable, content_type }
    }

    pub fn id(&self) -> (r: &str)
        ensures
            r@ == self@.id,
    {
        self.id.as_str()
    }

    pub fn title(&self) -> (r: &str)
        ensures
            r@ == self@.title,
    {
        self.title.as_str()
    }

    pub fn closeable(&self) -> (r: bool)
        ensures
            r == self@.closeable,
    {
        self.closeable
    }

    pub fn content_type(&self) -> (r: &TabContentType)
        ensures
            r@ == self@.content_type,
    {
        &self.content_type
    }
}

/// Views of a sequence of tabs.
pub open spec fn tabs_view(s: Seq<TabItem>) -> Seq<TabItemView> {
    s.map_values(|t: TabItem| t@)
}

/// `s` with the element at `from` taken out and put back at `to`.
pub open spec fn move_seq<A>(s: Seq<A>, from: int, to: int) -> Seq<A> {
    s.remove(from).insert(to, s[from])
}

/// Where the active position goes when the tab at `from` moves to `to`.
pub open spec fn moved_active(active: int, from: int, to: int) -> int {
    if active == from {
        to
    } else if from < active && to >= active {
        active - 1
    } else if from > active && to <= active {
        active + 1
    } else {
        active
    }
}

/// Which tabs to notify after the active tab changed: the one left, if there
/// was one, and the one entered.
#[derive(Clone, Copy, Debug, PartialEq, Eq, Structural)]
pub struct ActivationChange {
    pub deactivated: Option<usize>,
    pub activated: usize,
}

/// What the tab bar shows of one tab.
#[derive(Debug)]
pub struct TabEntry {
    pub index: usize,
    pub title: String,
    pub is_active: bool,
    pub closeable: bool,
}

/// The open tabs and which one is active.
pub struct TabContainer {
    tabs: Vec<TabItem>,
    active_index: usize,
    show_menu: bool,
    max_visible_tabs: Option<usize>,
    show_overflow_menu: bool,
}

impl TabContainer {
    /// The tabs, in order.
    pub closed spec fn tab_seq(self) -> Seq<TabItemView> {
        tabs_view(self.tabs@)
    }

    /// Position of the active tab.
    pub closed spec fn active(self) -> int {
        self.active_index as int
    }

    pub closed spec fn menu_shown(self) -> bool {
        self.show_menu
    }

    pub closed spec fn max_visible(self) -> Option<usize> {
        self.max_visible_tabs
    }

    pub closed spec fn overflow_shown(self) -> bool {
        self.show_overflow_menu
    }

    /// The active position designates a tab, or is 0 when there is none.
    pub open spec fn active_ok(self) -> bool {
        0 <= self.active() < self.tab_seq().len() || self.active() == 0
    }

    /// An empty container.
    pub fn new() -> (r: Self)
        ensures
            r.tab_seq().len() == 0,
            r.active() == 0,
            r.active_ok(),
            !r.menu_shown(),
            r.max_visible() is None,
            !r.overflow_shown(),
    {
        TabContainer {
            tabs: Vec::new(),
            active_index: 0,
            show_menu: false,
            max_visible_tabs: None,
            show_overflow_menu: false,
        }
    }

    /// Sets how many tabs show before the rest go to the overflow menu.
    pub fn with_max_visible_tabs(self, max: usize) -> (r: Self)
        requires
            self.active_ok(),
        ensures
            r.tab_seq() == self.tab_seq(),
            r.active() == self.active(),
            r.menu_shown() == self.menu_shown(),
            r.max_visible() == Some(max),
            r.active_ok(),
            r.overflow_shown() == self.overflow_shown(),
    {
        TabContainer { max_visible_tabs: Some(max), ..self }
    }

    /// Adds a tab at the end.
    pub fn add_tab(&mut self, tab: TabItem)
        requires
            old(self).active_ok(),
        ensures
            final(self).tab_seq() == old(self).tab_seq().push(tab@),
            final(self).active() == old(self).active(),
            final(self).menu_shown() == old(self).menu_shown(),
            final(self).max_visible() == old(self).max_visible(),
            final(self).overflow_shown() == old(self).overflow_shown(),
            final(self).active_ok(),
    {
        let ghost before = self.tabs@;
        self.tabs.push(tab);
        proof {
            assert(tabs_view(self.tabs@) =~= tabs_view(before).push(tab@));
        }
    }

    /// Adds a tab at the end and makes it active.
    pub fn add_and_activate_tab(&mut self, tab: TabItem)
        requires
            old(self).active_ok(),
        ensures
            final(self).tab_seq() == old(self).tab_seq().push(tab@),
            final(self).active() == old(self).tab_seq().len(),
            final(self).menu_shown() == old(self).menu_shown(),
            final(self).max_visible() == old(self).max_visible(),
            final(self).overflow_shown() == old(self).overflow_shown(),
            final(self).active_ok(),
    {
        let ghost before = self.tabs@;
        self.tabs.push(tab);
        self.active_index = self.tabs.len() - 1;
        proof {
            assert(tabs_view(self.tabs@) =~= tabs_view(before).push(tab@));
        }
    }

    /// Closes the tab at `index` when it exists and can be closed; the active
    /// position stays, moved back onto the last tab when it fell off the end.
    pub fn close_tab(&mut self, index: usize)
        requires
            old(self).active_ok(),
        ensures
            ({
                let s = old(self).tab_seq();
                if index < s.len() && s[index as int].closeable {
                    let t = s.remove(index as int);
                    &&& final(self).tab_seq() == t
                    &&& final(self).active() == if old(self).active() >= t.len() && t.len() > 0 {
                        t.len() - 1
                    } else {
                        old(self).active()
                    }
                } else {
                    &&& final(self).tab_seq() == s
                    &&& final(self).active() == old(self).active()
                }
            }),
            final(self).menu_shown() == old(self).menu_shown(),
            final(self).max_visible() == old(self).max_visible(),
            final(self).overflow_shown() == old(self).overflow_shown(),
            final(self).active_ok(),
    {
        if index < self.tabs.len() && self.tabs[index].closeable {
            let ghost before = self.tabs@;
            self.tabs.remove(index);
            let n = self.tabs.len();
            proof {
                assert(tabs_view(self.tabs@) =~= tabs_view(before).remove(index as int));
            }
            if self.active_index >= n && n > 0 {
                self.active_index = n - 1;
            }
        }
    }

    /// Index of the first tab whose id is `id`.
    fn position_of_id(&self, id: &str) -> (r: Option<usize>)
        ensures
            r matches Some(i) ==> i < self.tab_seq().len() && self.tab_seq()[i as int].id == id@
                && forall|k: int| 0 <= k < i ==> self.tab_seq()[k].id != id@,
            r is None ==> forall|k: int|
                0 <= k < self.tab_seq().len() ==> self.tab_seq()[k].id != id@,
    {
        let target = chars_of(id);
        let mut i: usize = 0;
        while i < self.tabs.len()
            invariant
                i <= self.tabs@.len(),
                target@ == id@,
                forall|k: int| 0 <= k < i ==> self.tabs@[k]@.id != id@,
            decreases self.tabs@.len() - i,
        {
            let x = chars_of(self.tabs[i].id.as_str());
            if chars_eq(x.as_slice(), target.as_slice()) {
                return Some(i);
            }
            i += 1;
        }
        None
    }

    /// Closes the first tab whose id is `id`, as `close_tab` does.
    pub fn close_tab_by_id(&mut self, id: &str)
        requires
            old(self).active_ok(),
        ensures
            ({
                let s = old(self).tab_seq();
                if exists|i: int| 0 <= i < s.len() && s[i].id == id@ {
                    let i = choose|i: int|
                        0 <= i < s.len() && s[i].id == id@ && forall|k: int|
                            0 <= k < i ==> s[k].id != id@;
                    if s[i].closeable {
                        let t = s.remove(i);
                        &&& final(self).tab_seq() == t
                        &&& final(self).active() == if old(self).active() >= t.len() && t.len()
                            > 0 {
                            t.len() - 1
                        } else {
                            old(self).active()
                        }
                    } else {
                        &&& final(self).tab_seq() == s
                        &&& final(self).active() == old(self).active()
                    }
                } else {
                    &&& final(self).tab_seq() == s
                    &&& final(self).active() == old(self).active()
                }
            }),
            final(self).menu_shown() == old(self).menu_shown(),
            final(self).max_visible() == old(self).max_visible(),
            final(self).overflow_shown() == old(self).overflow_shown(),
            final(self).active_ok(),
    {
        match self.position_of_id(id) {
            Some(i) => {
                proof {
                    let s = self.tab_seq();
                    let j = choose|j: int|
                        0 <= j < s.len() && s[j].id == id@ && forall|k: int|
                            0 <= k < j ==> s[k].id != id@;
                    assert(j == i);
                }
                self.close_tab(i);
            },
            None => {},
        }
    }


    /// Makes the tab at `index` active when it exists; answers which tabs
    /// to notify (the previously active one, if any, and the new one).
    pub fn set_active_index(&mut self, index: usize) -> (r: Option<ActivationChange>)
        requires
            old(self).active_ok(),
        ensures
            final(self).tab_seq() == old(self).tab_seq(),
            final(self).menu_shown() == old(self).menu_shown(),
            final(self).max_visible() == old(self).max_visible(),
            final(self).overflow_shown() == old(self).overflow_shown(),
            final(self).active_ok(),
            index < old(self).tab_seq().len() ==> final(self).active() == index && r == Some(
                ActivationChange { deactivated: Some(old(self).active() as usize), activated: index },
            ),
            index >= old(self).tab_seq().len() ==> final(self).active() == old(self).active()
                && r is None,
    {
        if index < self.tabs.len() {
            let old_active = self.active_index;
            self.active_index = index;
            Some(ActivationChange { deactivated: Some(old_active), activated: index })
        } else {
            None
        }
    }

    /// Makes the first tab whose id is `id` active, as `set_active_index`.
    pub fn set_active_by_id(&mut self, id: &str) -> (r: Option<ActivationChange>)
        requires
            old(self).active_ok(),
        ensures
            final(self).tab_seq() == old(self).tab_seq(),
            final(self).menu_shown() == old(self).menu_shown(),
            final(self).max_visible() == old(self).max_visible(),
            final(self).overflow_shown() == old(self).overflow_shown(),
            final(self).active_ok(),
            ({
                let s = old(self).tab_seq();
                if exists|i: int| 0 <= i < s.len() && s[i].id == id@ {
                    let i = choose|i: int|
                        0 <= i < s.len() && s[i].id == id@ && forall|k: int|
                            0 <= k < i ==> s[k].id != id@;
                    final(self).active() == i && r == Some(
                        ActivationChange {
                            deactivated: Some(old(self).active() as usize),
                            activated: i as usize,
                        },
                    )
                } else {
                    final(self).active() == old(self).active() && r is None
                }
            }),
    {
        match self.position_of_id(id) {
            Some(i) => {
                proof {
                    let s = self.tab_seq();
                    let j = choose|j: int|
                        0 <= j < s.len() && s[j].id == id@ && forall|k: int|
                            0 <= k < j ==> s[k].id != id@;
                    assert(j == i);
                }
                self.set_active_index(i)
            },
            None => None,
        }
    }

    /// The active tab, when there is one.
    pub fn active_tab(&self) -> (r: Option<&TabItem>)
        requires
            self.active_ok(),
        ensures
            self.tab_seq().len() == 0 ==> r is None,
            self.tab_seq().len() > 0 ==> (r matches Some(t) && t@ == self.tab_seq()[self.active()]),
    {
        if self.active_index < self.tabs.len() {
            Some(&self.tabs[self.active_index])
        } else {
            None
        }
    }

    /// Index of the first tab showing `content_type`.
    fn position_of_type(&self, content_type: &TabContentType) -> (r: Option<usize>)
        ensures
            r matches Some(i) ==> i < self.tab_seq().len() && self.tab_seq()[i as int].content_type
                == content_type@ && forall|k: int|
                0 <= k < i ==> self.tab_seq()[k].content_type != content_type@,
            r is None ==> forall|k: int|
                0 <= k < self.tab_seq().len() ==> self.tab_seq()[k].content_type != content_type@,
    {
        let mut i: usize = 0;
        while i < self.tabs.len()
            invariant
                i <= self.tabs@.len(),
                forall|k: int| 0 <= k < i ==> self.tabs@[k]@.content_type != content_type@,
            decreases self.tabs@.len() - i,
        {
            if self.tabs[i].content_type.eq(content_type) {
                return Some(i);
            }
            i += 1;
        }
        None
    }

    /// The first tab showing `content_type`.
    pub fn find_tab_by_type(&self, content_type: &TabContentType) -> (r: Option<&TabItem>)
        ensures
            r matches Some(t) ==> exists|i: int|
                0 <= i < self.tab_seq().len() && t@ == self.tab_seq()[i]
                    && self.tab_seq()[i].content_type == content_type@ && forall|k: int|
                    0 <= k < i ==> self.tab_seq()[k].content_type != content_type@,
            r is None ==> forall|k: int|
                0 <= k < self.tab_seq().len() ==> self.tab_seq()[k].content_type != content_type@,
    {
        match self.position_of_type(content_type) {
            Some(i) => {
                assert(self.tabs@[i as int]@ == self.tab_seq()[i as int]);
                Some(&self.tabs[i])
            },
            None => None,
        }
    }

    /// Whether some tab shows `content_type`.
    pub fn has_tab_type(&self, content_type: &TabContentType) -> (r: bool)
        ensures
            r == exists|i: int|
                0 <= i < self.tab_seq().len() && self.tab_seq()[i].content_type == content_type@,
    {
        self.position_of_type(content_type).is_some()
    }

    /// Activates the first tab showing `content_type`, or adds and activates
    /// the tab that `create_fn` makes when there is none.
    pub fn activate_or_create<F: FnOnce() -> TabItem>(
        &mut self,
        content_type: &TabContentType,
        create_fn: F,
    ) -> (r: Option<ActivationChange>)
        requires
            old(self).active_ok(),
            call_requires(create_fn, ()),
        ensures
            final(self).menu_shown() == old(self).menu_shown(),
            final(self).max_visible() == old(self).max_visible(),
            final(self).overflow_shown() == old(self).overflow_shown(),
            final(self).active_ok(),
            ({
                let s = old(self).tab_seq();
                if exists|i: int| 0 <= i < s.len() && s[i].content_type == content_type@ {
                    let i = choose|i: int|
                        0 <= i < s.len() && s[i].content_type == content_type@ && forall|k: int|
                            0 <= k < i ==> s[k].content_type != content_type@;
                    &&& final(self).tab_seq() == s
                    &&& final(self).active() == i
                    &&& r == Some(
                        ActivationChange {
                            deactivated: Some(old(self).active() as usize),
                            activated: i as usize,
                        },
                    )
                } else {
                    &&& exists|t: TabItem|
                        call_ensures(create_fn, (), t) && final(self).tab_seq() == s.push(t@)
                    &&& final(self).active() == s.len()
                    &&& r is None
                }
            }),
    {
        match self.position_of_type(content_type) {
            Some(i) => {
                proof {
                    let s = self.tab_seq();
                    let j = choose|j: int|
                        0 <= j < s.len() && s[j].content_type == content_type@ && forall|k: int|
                            0 <= k < j ==> s[k].content_type != content_type@;
                    assert(j == i);
                }
                self.set_active_index(i)
            },
            None => {
                let tab = create_fn();
                self.add_and_activate_tab(tab);
                None
            },
        }
    }

    /// Sets whether the tab menu shows.
    pub fn set_show_menu(&mut self, show: bool)
        requires
            old(self).active_ok(),
        ensures
            final(self).tab_seq() == old(self).tab_seq(),
            final(self).active() == old(self).active(),
            final(self).menu_shown() == show,
            final(self).max_visible() == old(self).max_visible(),
            final(self).overflow_shown() == old(self).overflow_shown(),
            final(self).active_ok(),
    {
        self.show_menu = show;
    }

    /// All tabs, in order.
    pub fn tabs(&self) -> (r: &[TabItem])
        ensures
            tabs_view(r@) == self.tab_seq(),
    {
        self.tabs.as_slice()
    }

    /// Position of the active tab.
    pub fn active_index(&self) -> (r: usize)
        ensures
            r == self.active(),
    {
        self.active_index
    }

    /// Moves the tab at `from_index` to `to_index` when both exist and
    /// differ; the same tab stays active.
    pub fn move_tab(&mut self, from_index: usize, to_index: usize)
        requires
            old(self).active_ok(),
        ensures
            final(self).menu_shown() == old(self).menu_shown(),
            final(self).max_visible() == old(self).max_visible(),
            final(self).overflow_shown() == old(self).overflow_shown(),
            final(self).active_ok(),
            ({
                let s = old(self).tab_seq();
                if from_index < s.len() && to_index < s.len() && from_index != to_index {
                    &&& final(self).tab_seq() == move_seq(s, from_index as int, to_index as int)
                    &&& final(self).active() == moved_active(
                        old(self).active(),
                        from_index as int,
                        to_index as int,
                    )
                } else {
                    &&& final(self).tab_seq() == s
                    &&& final(self).active() == old(self).active()
                }
            }),
    {
        if from_index < self.tabs.len() && to_index < self.tabs.len() && from_index != to_index {
            let ghost before = tabs_view(self.tabs@);
            let tab = self.tabs.remove(from_index);
            self.tabs.insert(to_index, tab);
            proof {
                assert(tabs_view(self.tabs@) =~= move_seq(
                    before,
                    from_index as int,
                    to_index as int,
                ));
            }
            if self.active_index == from_index {
                self.active_index = to_index;
            } else if from_index < self.active_index && to_index >= self.active_index {
                self.active_index = self.active_index - 1;
            } else if from_index > self.active_index && to_index <= self.active_index {
                self.active_index = self.active_index + 1;
            }
        }
    }

    /// Shows the overflow menu when hidden and hides it when shown.
    pub fn toggle_overflow_menu(&mut self)
        requires
            old(self).active_ok(),
        ensures
            final(self).tab_seq() == old(self).tab_seq(),
            final(self).active() == old(self).active(),
            final(self).menu_shown() == old(self).menu_shown(),
            final(self).max_visible() == old(self).max_visible(),
            final(self).overflow_shown() == !old(self).overflow_shown(),
            final(self).active_ok(),
    {
        self.show_overflow_menu = !self.show_overflow_menu;
    }

    /// Hides the overflow menu.
    pub fn hide_overflow_menu(&mut self)
        requires
            old(self).active_ok(),
        ensures
            final(self).tab_seq() == old(self).tab_seq(),
            final(self).active() == old(self).active(),
            final(self).menu_shown() == old(self).menu_shown(),
            final(self).max_visible() == old(self).max_visible(),
            !final(self).overflow_shown(),
            final(self).active_ok(),
    {
        self.show_overflow_menu = false;
    }

    /// Whether the overflow menu is drawn: asked for, and a maximum set.
    pub fn overflow_menu_visible(&self) -> (r: bool)
        ensures
            r == (self.overflow_shown() && self.max_visible() is Some),
    {
        self.show_overflow_menu && self.max_visible_tabs.is_some()
    }

    /// A tab dropped from position `from` onto position `to`: moved there
    /// when the positions differ, then made active.
    pub fn drop_tab(&mut self, from: usize, to: usize) -> (r: Option<ActivationChange>)
        requires
            old(self).active_ok(),
        ensures
            final(self).menu_shown() == old(self).menu_shown(),
            final(self).max_visible() == old(self).max_visible(),
            final(self).overflow_shown() == old(self).overflow_shown(),
            final(self).active_ok(),
            ({
                let s = old(self).tab_seq();
                let moved = from < s.len() && to < s.len() && from != to;
                let s2 = if moved { move_seq(s, from as int, to as int) } else { s };
                let a2 = if moved {
                    moved_active(old(self).active(), from as int, to as int)
                } else {
                    old(self).active()
                };
                &&& final(self).tab_seq() == s2
                &&& to < s.len() ==> final(self).active() == to && r == Some(
                    ActivationChange { deactivated: Some(a2 as usize), activated: to },
                )
                &&& to >= s.len() ==> final(self).active() == a2 && r is None
            }),
    {
        if from != to {
            self.move_tab(from, to);
        }
        self.set_active_index(to)
    }

    /// Activates the tab chosen in the overflow menu and hides the menu.
    pub fn select_overflow_tab(&mut self, index: usize) -> (r: Option<ActivationChange>)
        requires
            old(self).active_ok(),
        ensures
            final(self).tab_seq() == old(self).tab_seq(),
            final(self).menu_shown() == old(self).menu_shown(),
            final(self).max_visible() == old(self).max_visible(),
            !final(self).overflow_shown(),
            final(self).active_ok(),
            index < old(self).tab_seq().len() ==> final(self).active() == index && r == Some(
                ActivationChange { deactivated: Some(old(self).active() as usize), activated: index },
            ),
            index >= old(self).tab_seq().len() ==> final(self).active() == old(self).active()
                && r is None,
    {
        let r = self.set_active_index(index);
        self.show_overflow_menu = false;
        r
    }

    fn entry(&self, i: usize) -> (r: TabEntry)
        requires
            i < self.tab_seq().len(),
        ensures
            r.index == i,
            r.title@ == self.tab_seq()[i as int].title,
            r.is_active == (i == self.active()),
            r.closeable == self.tab_seq()[i as int].closeable,
    {
        TabEntry {
            index: i,
            title: self.tabs[i].title.clone(),
            is_active: i == self.active_index,
            closeable: self.tabs[i].closeable,
        }
    }

    /// The entries of the tab bar, one per tab from position `from` on.
    fn entries_from(&self, from: usize) -> (r: Vec<TabEntry>)
        ensures
            r@.len() == if from < self.tab_seq().len() { self.tab_seq().len() - from } else { 0 },
            forall|k: int|
                #![trigger r@[k]]
                0 <= k < r@.len() ==> {
                    let i = from + k;
                    &&& r@[k].index == i
                    &&& r@[k].title@ == self.tab_seq()[i].title
                    &&& r@[k].is_active == (i == self.active())
                    &&& r@[k].closeable == self.tab_seq()[i].closeable
                },
    {
        let mut r: Vec<TabEntry> = Vec::new();
        let mut i = from;
        while i < self.tabs.len()
            invariant
                from <= i || from >= self.tab_seq().len(),
                i >= from,
                r@.len() == i - from,
                i <= self.tab_seq().len() || r@.len() == 0,
                forall|k: int|
                    #![trigger r@[k]]
                    0 <= k < r@.len() ==> {
                        let j = from + k;
                        &&& r@[k].index == j
                        &&& r@[k].title@ == self.tab_seq()[j].title
                        &&& r@[k].is_active == (j == self.active())
                        &&& r@[k].closeable == self.tab_seq()[j].closeable
                    },
            decreases self.tabs@.len() - i,
        {
            let e = self.entry(i);
            r.push(e);
            i += 1;
        }
        r
    }

    /// What the tab bar shows of every tab.
    pub fn tab_bar_entries(&self) -> (r: Vec<TabEntry>)
        ensures
            r@.len() == self.tab_seq().len(),
            forall|k: int|
                #![trigger r@[k]]
                0 <= k < r@.len() ==> {
                    &&& r@[k].index == k
                    &&& r@[k].title@ == self.tab_seq()[k].title
                    &&& r@[k].is_active == (k == self.active())
                    &&& r@[k].closeable == self.tab_seq()[k].closeable
                },
    {
        self.entries_from(0)
    }

    /// The tabs beyond the visible maximum, listed in the overflow menu
    /// (none when no maximum is set).
    pub fn overflow_entries(&self) -> (r: Vec<TabEntry>)
        ensures
            self.max_visible() is None ==> r@.len() == 0,
            self.max_visible() matches Some(m) ==> {
                &&& r@.len() == if m < self.tab_seq().len() { self.tab_seq().len() - m } else { 0 }
                &&& forall|k: int|
                    #![trigger r@[k]]
                    0 <= k < r@.len() ==> {
                        let i = m + k;
                        &&& r@[k].index == i
                        &&& r@[k].title@ == self.tab_seq()[i].title
                        &&& r@[k].is_active == (i == self.active())
                        &&& r@[k].closeable == self.tab_seq()[i].closeable
                    }
            },
    {
        match self.max_visible_tabs {
            Some(m) => self.entries_from(m),
            None => Vec::new(),
        }
    }
}

/// Dragging a tab back to where it came from restores the order of the tabs
/// and the active position.
pub proof fn law_move_tab_back<A>(s: Seq<A>, active: int, from: int, to: int)
    requires
        0 <= from < s.len(),
        0 <= to < s.len(),
        0 <= active < s.len(),
    ensures
        move_seq(move_seq(s, from, to), to, from) == s,
        moved_active(moved_active(active, from, to), to, from) == active,
{
    let t = move_seq(s, from, to);
    assert(t[to] == s[from]);
    assert(move_seq(t, to, from) =~= s);
}

/// Moving a tab keeps the same tab at the active position.
pub proof fn law_move_keeps_active_tab<A>(s: Seq<A>, active: int, from: int, to: int)
    requires
        0 <= from < s.len(),
        0 <= to < s.len(),
        0 <= active < s.len(),
    ensures
        0 <= moved_active(active, from, to) < s.len(),
        move_seq(s, from, to)[moved_active(active, from, to)] == s[active],
{
}

} // verus!
