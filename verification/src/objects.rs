//! The database objects panel: the tables, views, functions and procedures
//! of the current database, the kind shown, and the search over names.

use vstd::prelude::*;
use crate::text::{chars_of, contains_chars, contains_seq, decimal, lowercase, push_decimal, push_str, lower_string};

verus! {

/// Kinds of objects, in the order of the panel's tabs.
pub const OBJECT_KINDS: usize = 4;

/// The panel's state.
#[derive(Debug)]
pub struct DatabaseObjectsPanel {
    pub current_database: Option<String>,
    pub tables: Vec<String>,
    pub views: Vec<String>,
    pub functions: Vec<String>,
    pub procedures: Vec<String>,
    /// 0 tables, 1 views, 2 functions, 3 procedures.
    pub active_tab: usize,
    pub status_msg: String,
}

/// Why loading the objects failed.
#[derive(Debug)]
pub enum ObjectsFailure {
    /// No driver for the server kind.
    Plugin(String),
    /// No connection could be opened.
    Connection(String),
}

/// The objects of the kind shown in a tab (none for an unknown tab).
pub open spec fn objects_of(p: DatabaseObjectsPanel, tab: nat) -> Seq<Seq<char>> {
    if tab == 0 {
        p.tables.deep_view()
    } else if tab == 1 {
        p.views.deep_view()
    } else if tab == 2 {
        p.functions.deep_view()
    } else if tab == 3 {
        p.procedures.deep_view()
    } else {
        seq![]
    }
}

/// The names that a search, in lower case, finds: all of them for an empty
/// search, else those whose lower-case form contains it.
pub open spec fn found(objects: Seq<Seq<char>>, query: Seq<char>) -> Seq<Seq<char>> {
    if query.len() == 0 {
        objects
    } else {
        objects.filter(|o: Seq<char>| contains_seq(lowercase(o), query))
    }
}

/// What the object list shows: the names found, or a message when there
/// are none.
#[derive(Debug)]
pub enum ObjectList {
    Names(Vec<String>),
    Empty(String),
}

fn copy_names(v: &Vec<String>) -> (r: Vec<String>)
    ensures
        r.deep_view() == v.deep_view(),
{
    let mut out: Vec<String> = Vec::new();
    let mut i: usize = 0;
    while i < v.len()
        invariant
            i <= v@.len(),
            out@.len() == i,
            forall|k: int| 0 <= k < i ==> (#[trigger] out@[k])@ == v@[k]@,
        decreases v@.len() - i,
    {
        out.push(v[i].clone());
        i += 1;
    }
    assert(out.deep_view() =~= v.deep_view());
    out
}

impl DatabaseObjectsPanel {
    /// A panel with no database.
    pub fn new() -> (r: Self)
        ensures
            r.current_database is None,
            r.tables@.len() == 0,
            r.views@.len() == 0,
            r.functions@.len() == 0,
            r.procedures@.len() == 0,
            r.active_tab == 0,
            r.status_msg@ == "Select a database to view objects"@,
    {
        DatabaseObjectsPanel {
            current_database: None,
            tables: Vec::new(),
            views: Vec::new(),
            functions: Vec::new(),
            procedures: Vec::new(),
            active_tab: 0,
            status_msg: "Select a database to view objects".to_owned(),
        }
    }

    /// A database was chosen: its objects are to be loaded.
    pub fn set_database(&mut self, database: String)
        ensures
            final(self).current_database == Some(database),
            final(self).status_msg@ == "Loading objects for "@ + database@ + "..."@,
            final(self).tables == old(self).tables,
            final(self).views == old(self).views,
            final(self).functions == old(self).functions,
            final(self).procedures == old(self).procedures,
            final(self).active_tab == old(self).active_tab,
    {
        let mut msg = "Loading objects for ".to_owned();
        push_str(&mut msg, database.as_str());
        push_str(&mut msg, "...");
        self.status_msg = msg;
        self.current_database = Some(database);
    }

    /// The objects of a database arrived.
    pub fn objects_loaded(
        &mut self,
        database: &str,
        tables: Vec<String>,
        views: Vec<String>,
        functions: Vec<String>,
        procedures: Vec<String>,
    )
        ensures
            final(self).tables == tables,
            final(self).views == views,
            final(self).functions == functions,
            final(self).procedures == procedures,
            final(self).status_msg@ == "Loaded objects for "@ + database@,
            final(self).current_database == old(self).current_database,
            final(self).active_tab == old(self).active_tab,
    {
        self.tables = tables;
        self.views = views;
        self.functions = functions;
        self.procedures = procedures;
        let mut msg = "Loaded objects for ".to_owned();
        push_str(&mut msg, database);
        self.status_msg = msg;
    }

    /// Loading the objects failed.
    pub fn load_failed(&mut self, failure: &ObjectsFailure)
        ensures
            final(self).status_msg@ == match failure {
                ObjectsFailure::Plugin(e) => "Failed to get plugin: "@ + e@,
                ObjectsFailure::Connection(e) => "Failed to get connection: "@ + e@,
            },
            final(self).tables == old(self).tables,
            final(self).views == old(self).views,
            final(self).functions == old(self).functions,
            final(self).procedures == old(self).procedures,
            final(self).current_database == old(self).current_database,
            final(self).active_tab == old(self).active_tab,
    {
        let msg = match failure {
            ObjectsFailure::Plugin(e) => {
                let mut m = "Failed to get plugin: ".to_owned();
                push_str(&mut m, e.as_str());
                m
            },
            ObjectsFailure::Connection(e) => {
                let mut m = "Failed to get connection: ".to_owned();
                push_str(&mut m, e.as_str());
                m
            },
        };
        self.status_msg = msg;
    }

    /// A tab was clicked.
    pub fn select_tab(&mut self, index: usize)
        ensures
            final(self).active_tab == index,
            final(self).tables == old(self).tables,
            final(self).views == old(self).views,
            final(self).functions == old(self).functions,
            final(self).procedures == old(self).procedures,
            final(self).current_database == old(self).current_database,
            final(self).status_msg == old(self).status_msg,
    {
        self.active_tab = index;
    }

    /// The tab buttons: `Tables (n)`, `Views (n)`, `Functions (n)`,
    /// `Procedures (n)`, each with whether it is the active one.
    pub fn tab_buttons(&self) -> (r: Vec<(String, bool)>)
        ensures
            r@.len() == 4,
            r@[0].0@ == tab_text("Tables"@, self.tables@.len()),
            r@[1].0@ == tab_text("Views"@, self.views@.len()),
            r@[2].0@ == tab_text("Functions"@, self.functions@.len()),
            r@[3].0@ == tab_text("Procedures"@, self.procedures@.len()),
            forall|i: int| 0 <= i < 4 ==> (#[trigger] r@[i]).1 == (self.active_tab == i),
    {
        let b0 = (tab_label("Tables", self.tables.len()), self.active_tab == 0);
        let b1 = (tab_label("Views", self.views.len()), self.active_tab == 1);
        let b2 = (tab_label("Functions", self.functions.len()), self.active_tab == 2);
        let b3 = (tab_label("Procedures", self.procedures.len()), self.active_tab == 3);
        vec![b0, b1, b2, b3]
    }

    /// The objects listed for a search text: those of the active tab whose
    /// lower-case name contains the lower-case search, or a message.
    pub fn object_list(&self, search: &str) -> (r: ObjectList)
        ensures
            ({
                let q = lowercase(search@);
                let f = found(objects_of(*self, self.active_tab as nat), q);
                if f.len() > 0 {
                    r matches ObjectList::Names(v) && v.deep_view() == f
                } else {
                    r matches ObjectList::Empty(m) && m@ == if q.len() > 0 {
                        "No matching objects found"@
                    } else {
                        "No objects found"@
                    }
                }
            }),
    {
        let q = lower_string(search);
        let qc = chars_of(q.as_str());
        let objects: Vec<String> = if self.active_tab == 0 {
            copy_names(&self.tables)
        } else if self.active_tab == 1 {
            copy_names(&self.views)
        } else if self.active_tab == 2 {
            copy_names(&self.functions)
        } else if self.active_tab == 3 {
            copy_names(&self.procedures)
        } else {
            Vec::new()
        };
        let ghost all = objects.deep_view();
        let ghost keep = |o: Seq<char>| contains_seq(lowercase(o), q@);
        let mut shown: Vec<String> = Vec::new();
        if qc.len() == 0 {
            shown = objects;
        } else {
            let mut i: usize = 0;
            while i < objects.len()
                invariant
                    i <= objects@.len(),
                    all == objects.deep_view(),
                    qc@ == q@,
                    keep == (|o: Seq<char>| contains_seq(lowercase(o), q@)),
                    shown.deep_view() == all.take(i as int).filter(keep),
                decreases objects@.len() - i,
            {
                proof {
                    all.take(i as int).lemma_filter_push(all[i as int], keep);
                    assert(all.take(i + 1) =~= all.take(i as int).push(all[i as int]));
                }
                let low = lower_string(objects[i].as_str());
                let lc = chars_of(low.as_str());
                if contains_chars(lc.as_slice(), qc.as_slice()) {
                    let ghost before = shown.deep_view();
                    shown.push(objects[i].clone());
                    assert(shown.deep_view() =~= before.push(all[i as int]));
                }
                i += 1;
            }
            assert(all.take(objects@.len() as int) =~= all);
        }
        proof {
            assert(all.filter(keep) =~= all.filter(|o: Seq<char>| contains_seq(lowercase(o), q@))) by {
                assert(keep =~= (|o: Seq<char>| contains_seq(lowercase(o), q@)));
            }
        }
        if shown.len() > 0 {
            ObjectList::Names(shown)
        } else if qc.len() > 0 {
            ObjectList::Empty("No matching objects found".to_owned())
        } else {
            ObjectList::Empty("No objects found".to_owned())
        }
    }
}

/// A tab button's text: the kind and the count in brackets.
pub open spec fn tab_text(label: Seq<char>, count: nat) -> Seq<char> {
    label + " ("@ + decimal(count) + ")"@
}

/// A tab button's label: the kind and the count.
pub fn tab_label(label: &str, count: usize) -> (r: String)
    ensures
        r@ == tab_text(label@, count as nat),
{
    let mut s = label.to_owned();
    push_str(&mut s, " (");
    push_decimal(&mut s, count as u64);
    push_str(&mut s, ")");
    s
}

} // verus!

verus! {

/// A search finds exactly the names whose lower-case form contains it: each
/// name found matches, and each matching name is found.
pub proof fn law_search_finds_matches(objects: Seq<Seq<char>>, query: Seq<char>)
    requires
        query.len() > 0,
    ensures
        forall|i: int|
            0 <= i < found(objects, query).len() ==> contains_seq(
                lowercase(#[trigger] found(objects, query)[i]),
                query,
            ),
        forall|i: int|
            0 <= i < objects.len() && contains_seq(lowercase(objects[i]), query)
                ==> #[trigger] found(objects, query).contains(objects[i]),
{
    broadcast use vstd::seq_lib::group_filter_ensures;

}

} // verus!
