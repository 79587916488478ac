//! The database explorer tree: its nodes, which of them are loaded,
//! loading or expanded, the items shown, and what a double click or a
//! context menu asks for.

use vstd::prelude::*;
use crate::storage::{i64_to_string, signed_decimal, StoredConnection};
use crate::text::{chars_eq, chars_of, lex_le, lex_le_chars, push_str, lemma_lex_total, lemma_lex_trans};

verus! {

/// Kinds of tree nodes.
#[derive(Debug, Clone, Copy, PartialEq, Eq, Structural)]
pub enum DbNodeType {
    Connection,
    Database,
    TablesFolder,
    ViewsFolder,
    FunctionsFolder,
    ProceduresFolder,
    TriggersFolder,
    SequencesFolder,
    Table,
    View,
    Function,
    Procedure,
    Column,
    ColumnsFolder,
    IndexesFolder,
    Index,
    Trigger,
    Sequence,
}

/// A node of the explorer: a connection, a database, a folder or an object.
#[derive(Debug)]
pub struct DbNode {
    pub id: String,
    pub name: String,
    pub node_type: DbNodeType,
    pub has_children: bool,
    pub children_loaded: bool,
    pub children: Vec<DbNode>,
    pub parent_context: Option<String>,
}

/// An item of the tree widget.
#[derive(Debug)]
pub struct TreeItem {
    pub id: String,
    pub label: String,
    pub expanded: bool,
    pub children: Vec<TreeItem>,
}

/// The item standing for children not loaded yet.
pub open spec fn is_placeholder(item: TreeItem, parent_id: Seq<char>) -> bool {
    &&& item.id@ == parent_id + "_placeholder"@
    &&& item.label@ == "Loading..."@
    &&& !item.expanded
    &&& item.children@.len() == 0
}

/// The item shows the node: its id and name, a placeholder child when the
/// node has children not loaded yet, else an item for each loaded child.
pub open spec fn shows_node(item: TreeItem, node: DbNodeView) -> bool
    decreases node, 1nat,
{
    &&& item.id@ == node.id
    &&& item.label@ == node.name
    &&& !item.expanded
    &&& if node.has_children && !node.children_loaded {
        item.children@.len() == 1 && is_placeholder(item.children@[0], node.id)
    } else {
        shows_nodes(item.children@, node.children)
    }
}

/// Each item shows the node at its position.
pub open spec fn shows_nodes(items: Seq<TreeItem>, nodes: Seq<DbNodeView>) -> bool
    decreases nodes, 0nat,
{
    &&& items.len() == nodes.len()
    &&& nodes.len() > 0 ==> {
        &&& shows_nodes(items.drop_last(), nodes.drop_last())
        &&& shows_node(items.last(), nodes.last())
    }
}

fn placeholder_for(id: &String) -> (r: TreeItem)
    ensures
        is_placeholder(r, id@),
{
    let mut pid = id.clone();
    push_str(&mut pid, "_placeholder");
    TreeItem { id: pid, label: "Loading...".to_owned(), expanded: false, children: Vec::new() }
}

/// The item showing a node and its loaded descendants.
pub fn db_node_to_tree_item(node: &DbNode) -> (r: TreeItem)
    ensures
        shows_node(r, node_view(*node)),
    decreases node,
{
    let ghost cs = node_view(*node).children;
    proof {
        lemma_nodes_view_index(node.children@);
    }
    if node.has_children && !node.children_loaded {
        let p = placeholder_for(&node.id);
        TreeItem { id: node.id.clone(), label: node.name.clone(), expanded: false, children: vec![p] }
    } else {
        let mut children: Vec<TreeItem> = Vec::new();
        let mut i: usize = 0;
        while i < node.children.len()
            invariant
                i <= node.children@.len(),
                cs == node_view(*node).children,
                cs.len() == node.children@.len(),
                forall|q: int| 0 <= q < cs.len() ==> #[trigger] cs[q] == node_view(node.children@[q]),
                shows_nodes(children@, cs.take(i as int)),
            decreases node.children@.len() - i,
        {
            proof {
                assert(decreases_to!(node => node.children@[i as int]));
            }
            let c = db_node_to_tree_item(&node.children[i]);
            let ghost before = children@;
            children.push(c);
            proof {
                assert(children@.drop_last() =~= before);
                assert(cs.take(i + 1).drop_last() =~= cs.take(i as int));
                assert(cs.take(i + 1).last() == cs[i as int]);
            }
            i += 1;
        }
        assert(cs.take(node.children@.len() as int) =~= cs);
        TreeItem { id: node.id.clone(), label: node.name.clone(), expanded: false, children }
    }
}

} // verus!

verus! {

/// A set of ids kept in a vector.
pub open spec fn id_set(v: Seq<String>) -> Set<Seq<char>> {
    Set::new(|x: Seq<char>| exists|i: int| 0 <= i < v.len() && (#[trigger] v[i])@ == x)
}

/// Whether `x` is among the ids.
pub fn ids_contain(v: &Vec<String>, x: &String) -> (r: bool)
    ensures
        r == id_set(v@).contains(x@),
{
    let mut i: usize = 0;
    while i < v.len()
        invariant
            i <= v@.len(),
            forall|k: int| 0 <= k < i ==> v@[k]@ != x@,
        decreases v@.len() - i,
    {
        if v[i] == *x {
            assert(v@[i as int]@ == x@);
            return true;
        }
        i += 1;
    }
    assert(!id_set(v@).contains(x@)) by {
        if id_set(v@).contains(x@) {
            let k = choose|k: int| 0 <= k < v@.len() && (#[trigger] v@[k])@ == x@;
            assert(v@[k]@ != x@);
        }
    }
    false
}

/// Adds an id.
pub fn ids_insert(v: &mut Vec<String>, x: String)
    ensures
        id_set(final(v)@) == id_set(old(v)@).insert(x@),
{
    if !ids_contain(v, &x) {
        let ghost before = v@;
        let ghost xv = x@;
        v.push(x);
        assert(id_set(v@) =~= id_set(before).insert(xv)) by {
            assert forall|s: Seq<char>| id_set(v@).contains(s) implies id_set(before).insert(
                xv,
            ).contains(s) by {
                let k = choose|k: int| 0 <= k < v@.len() && (#[trigger] v@[k])@ == s;
                if k < before.len() {
                    assert(before[k]@ == s);
                }
            }
            assert forall|s: Seq<char>| id_set(before).insert(xv).contains(s) implies id_set(
                v@,
            ).contains(s) by {
                if s == xv {
                    assert(v@[before.len() as int]@ == s);
                } else {
                    let k = choose|k: int| 0 <= k < before.len() && (#[trigger] before[k])@ == s;
                    assert(v@[k]@ == s);
                }
            }
        }
    } else {
        assert(id_set(v@) =~= id_set(v@).insert(x@));
    }
}

/// Removes an id.
pub fn ids_remove(v: &mut Vec<String>, x: &String)
    ensures
        id_set(final(v)@) == id_set(old(v)@).remove(x@),
{
    let ghost before = v@;
    let mut kept: Vec<String> = Vec::new();
    let mut i: usize = 0;
    while i < v.len()
        invariant
            i <= v@.len(),
            v@ == before,
            forall|k: int| 0 <= k < kept@.len() ==> (#[trigger] kept@[k])@ != x@,
            forall|k: int|
                0 <= k < kept@.len() ==> exists|j: int| 0 <= j < i && (#[trigger] before[j])@ == (
                #[trigger] kept@[k])@,
            forall|j: int|
                0 <= j < i && (#[trigger] before[j])@ != x@ ==> exists|k: int|
                    0 <= k < kept@.len() && (#[trigger] kept@[k])@ == before[j]@,
        decreases v@.len() - i,
    {
        let ghost old_kept = kept@;
        if v[i] != *x {
            kept.push(v[i].clone());
            assert(kept@[kept@.len() - 1]@ == before[i as int]@);
        }
        assert forall|j: int|
            0 <= j < i + 1 && (#[trigger] before[j])@ != x@ implies exists|k: int|
                0 <= k < kept@.len() && (#[trigger] kept@[k])@ == before[j]@ by {
            if j < i {
                let k = choose|k: int| 0 <= k < old_kept.len() && (#[trigger] old_kept[k])@ == before[j]@;
                assert(kept@[k] == old_kept[k]);
            } else {
                assert(kept@[kept@.len() - 1]@ == before[j]@);
            }
        }
        i += 1;
    }
    assert(id_set(kept@) =~= id_set(before).remove(x@)) by {
        assert forall|s: Seq<char>| id_set(kept@).contains(s) implies id_set(before).remove(
            x@,
        ).contains(s) by {
            let k = choose|k: int| 0 <= k < kept@.len() && (#[trigger] kept@[k])@ == s;
            let j = choose|j: int| 0 <= j < i && (#[trigger] before[j])@ == kept@[k]@;
        }
        assert forall|s: Seq<char>| id_set(before).remove(x@).contains(s) implies id_set(
            kept@,
        ).contains(s) by {
            let j = choose|j: int| 0 <= j < before.len() && (#[trigger] before[j])@ == s;
            let k = choose|k: int| 0 <= k < kept@.len() && (#[trigger] kept@[k])@ == before[j]@;
        }
    }
    *v = kept;
}

/// Keeps only the ids that `keep` holds.
pub fn ids_retain(v: &mut Vec<String>, keep: &Vec<String>)
    ensures
        id_set(final(v)@) == id_set(old(v)@).intersect(id_set(keep@)),
{
    let ghost before = v@;
    let mut kept: Vec<String> = Vec::new();
    let mut i: usize = 0;
    while i < v.len()
        invariant
            i <= v@.len(),
            v@ == before,
            forall|k: int| 0 <= k < kept@.len() ==> id_set(keep@).contains((#[trigger] kept@[k])@),
            forall|k: int|
                0 <= k < kept@.len() ==> exists|j: int| 0 <= j < i && (#[trigger] before[j])@ == (
                #[trigger] kept@[k])@,
            forall|j: int|
                0 <= j < i && id_set(keep@).contains((#[trigger] before[j])@) ==> exists|k: int|
                    0 <= k < kept@.len() && (#[trigger] kept@[k])@ == before[j]@,
        decreases v@.len() - i,
    {
        let ghost old_kept = kept@;
        let inside = ids_contain(keep, &v[i]);
        if inside {
            kept.push(v[i].clone());
            assert(kept@[kept@.len() - 1]@ == before[i as int]@);
        }
        assert forall|j: int|
            0 <= j < i + 1 && id_set(keep@).contains((#[trigger] before[j])@) implies exists|k: int|
                0 <= k < kept@.len() && (#[trigger] kept@[k])@ == before[j]@ by {
            if j < i {
                let k = choose|k: int| 0 <= k < old_kept.len() && (#[trigger] old_kept[k])@ == before[j]@;
                assert(kept@[k] == old_kept[k]);
            } else {
                assert(kept@[kept@.len() - 1]@ == before[j]@);
            }
        }
        i += 1;
    }
    assert(id_set(kept@) =~= id_set(before).intersect(id_set(keep@))) by {
        assert forall|s: Seq<char>| id_set(kept@).contains(s) implies id_set(before).intersect(
            id_set(keep@),
        ).contains(s) by {
            let k = choose|k: int| 0 <= k < kept@.len() && (#[trigger] kept@[k])@ == s;
            let j = choose|j: int| 0 <= j < i && (#[trigger] before[j])@ == kept@[k]@;
        }
        assert forall|s: Seq<char>| id_set(before).intersect(id_set(keep@)).contains(s) implies id_set(
            kept@,
        ).contains(s) by {
            let j = choose|j: int| 0 <= j < before.len() && (#[trigger] before[j])@ == s;
            let k = choose|k: int| 0 <= k < kept@.len() && (#[trigger] kept@[k])@ == before[j]@;
        }
    }
    *v = kept;
}

} // verus!

verus! {

/// No two nodes share an id.
pub open spec fn ids_unique(nodes: Seq<DbNode>) -> bool {
    forall|i: int, j: int|
        0 <= i < nodes.len() && 0 <= j < nodes.len() && i != j ==> (#[trigger] nodes[i]).id@
            != (#[trigger] nodes[j]).id@
}

/// Whether a node has this id.
pub open spec fn has_node(nodes: Seq<DbNode>, id: Seq<char>) -> bool {
    exists|i: int| 0 <= i < nodes.len() && (#[trigger] nodes[i]).id@ == id
}

/// The node with this id (meaningful when there is one).
pub open spec fn node_with(nodes: Seq<DbNode>, id: Seq<char>) -> DbNode {
    nodes[choose|i: int| 0 <= i < nodes.len() && (#[trigger] nodes[i]).id@ == id]
}

/// The nodes read as a map from id to node.
pub open spec fn node_map(nodes: Seq<DbNode>) -> Map<Seq<char>, DbNode> {
    Map::new(|id: Seq<char>| has_node(nodes, id), |id: Seq<char>| node_with(nodes, id))
}

/// Position of the node with this id.
pub fn find_node(nodes: &Vec<DbNode>, id: &String) -> (r: Option<usize>)
    requires
        ids_unique(nodes@),
    ensures
        r matches Some(i) ==> i < nodes@.len() && nodes@[i as int].id@ == id@ && node_with(
            nodes@,
            id@,
        ) == nodes@[i as int],
        r is None <==> !has_node(nodes@, id@),
{
    let mut i: usize = 0;
    while i < nodes.len()
        invariant
            i <= nodes@.len(),
            ids_unique(nodes@),
            forall|k: int| 0 <= k < i ==> (#[trigger] nodes@[k]).id@ != id@,
        decreases nodes@.len() - i,
    {
        if nodes[i].id == *id {
            assert(nodes@[i as int].id@ == id@);
            let ghost c = choose|k: int| 0 <= k < nodes@.len() && (#[trigger] nodes@[k]).id@ == id@;
            assert(c == i);
            return Some(i);
        }
        i += 1;
    }
    None
}

/// Adds a node, replacing the node with its id if there is one.
pub fn put_node(nodes: &mut Vec<DbNode>, node: DbNode)
    requires
        ids_unique(old(nodes)@),
    ensures
        ids_unique(final(nodes)@),
        node_map(final(nodes)@) == node_map(old(nodes)@).insert(node.id@, node),
{
    let ghost before = nodes@;
    let ghost n = node;
    match find_node(nodes, &node.id) {
        Some(i) => {
            nodes.set(i, node);
            assert(node_map(nodes@) =~= node_map(before).insert(n.id@, n)) by {
                assert forall|id: Seq<char>| #[trigger] has_node(nodes@, id) == (has_node(before, id)
                    || id == n.id@) by {
                    if has_node(before, id) {
                        let k = choose|k: int| 0 <= k < before.len() && (#[trigger] before[k]).id@ == id;
                        assert(nodes@[k].id@ == id);
                    }
                    if has_node(nodes@, id) {
                        let k = choose|k: int| 0 <= k < nodes@.len() && (#[trigger] nodes@[k]).id@ == id;
                        if k != i {
                            assert(before[k].id@ == id);
                        }
                    }
                }
                assert forall|id: Seq<char>| has_node(nodes@, id) implies #[trigger] node_with(nodes@, id)
                    == node_map(before).insert(n.id@, n)[id] by {
                    let k = choose|k: int| 0 <= k < nodes@.len() && (#[trigger] nodes@[k]).id@ == id;
                    if id == n.id@ {
                        assert(nodes@[i as int].id@ == id);
                    } else {
                        assert(before[k].id@ == id);
                        let kb = choose|kb: int| 0 <= kb < before.len() && (#[trigger] before[kb]).id@ == id;
                        assert(kb == k);
                    }
                }
            }
        },
        None => {
            nodes.push(node);
            assert(node_map(nodes@) =~= node_map(before).insert(n.id@, n)) by {
                assert forall|id: Seq<char>| #[trigger] has_node(nodes@, id) == (has_node(before, id)
                    || id == n.id@) by {
                    if has_node(before, id) {
                        let k = choose|k: int| 0 <= k < before.len() && (#[trigger] before[k]).id@ == id;
                        assert(nodes@[k].id@ == id);
                    }
                    if id == n.id@ {
                        assert(nodes@[before.len() as int].id@ == id);
                    }
                    if has_node(nodes@, id) {
                        let k = choose|k: int| 0 <= k < nodes@.len() && (#[trigger] nodes@[k]).id@ == id;
                        if k < before.len() {
                            assert(before[k].id@ == id);
                        }
                    }
                }
                assert forall|id: Seq<char>| has_node(nodes@, id) implies #[trigger] node_with(nodes@, id)
                    == node_map(before).insert(n.id@, n)[id] by {
                    let k = choose|k: int| 0 <= k < nodes@.len() && (#[trigger] nodes@[k]).id@ == id;
                    if id == n.id@ {
                        if k < before.len() {
                            assert(before[k].id@ == id);
                        }
                    } else {
                        assert(before[k].id@ == id);
                        let kb = choose|kb: int| 0 <= kb < before.len() && (#[trigger] before[kb]).id@ == id;
                        assert(kb == k);
                    }
                }
            }
        },
    }
}

} // verus!

verus! {

/// A node as values, with its loaded children.
pub struct DbNodeView {
    pub id: Seq<char>,
    pub name: Seq<char>,
    pub node_type: DbNodeType,
    pub has_children: bool,
    pub children_loaded: bool,
    pub children: Seq<DbNodeView>,
    pub parent_context: Option<Seq<char>>,
}

/// The node as values.
pub open spec fn node_view(n: DbNode) -> DbNodeView
    decreases n, 1nat,
{
    DbNodeView {
        id: n.id@,
        name: n.name@,
        node_type: n.node_type,
        has_children: n.has_children,
        children_loaded: n.children_loaded,
        children: nodes_view(n.children@),
        parent_context: match n.parent_context {
            Some(p) => Some(p@),
            None => None,
        },
    }
}

/// The nodes as values.
pub open spec fn nodes_view(ns: Seq<DbNode>) -> Seq<DbNodeView>
    decreases ns, 0nat,
{
    if ns.len() == 0 {
        seq![]
    } else {
        nodes_view(ns.drop_last()).push(node_view(ns.last()))
    }
}

proof fn lemma_nodes_view_len(ns: Seq<DbNode>)
    ensures
        nodes_view(ns).len() == ns.len(),
    decreases ns.len(),
{
    if ns.len() > 0 {
        lemma_nodes_view_len(ns.drop_last());
    }
}

proof fn lemma_view_map_of_node_map(a: Seq<DbNode>, b: Seq<DbNode>, n: DbNode)
    requires
        node_map(a) == node_map(b).insert(n.id@, n),
    ensures
        view_map(a) == view_map(b).insert(n.id@, node_view(n)),
{
    assert forall|id: Seq<char>| #[trigger] view_map(a).contains_key(id) == view_map(b).insert(
        n.id@,
        node_view(n),
    ).contains_key(id) by {
        assert(node_map(a).contains_key(id) == node_map(b).insert(n.id@, n).contains_key(id));
    }
    assert forall|id: Seq<char>| view_map(a).contains_key(id) implies #[trigger] view_map(a)[id]
        == view_map(b).insert(n.id@, node_view(n))[id] by {
        assert(node_map(a)[id] == node_map(b).insert(n.id@, n)[id]);
    }
    assert(view_map(a) =~= view_map(b).insert(n.id@, node_view(n)));
}

/// Stores a node, replacing the node with its id if there is one.
pub fn store_node(nodes: &mut Vec<DbNode>, node: DbNode)
    requires
        ids_unique(old(nodes)@),
    ensures
        ids_unique(final(nodes)@),
        view_map(final(nodes)@) == view_map(old(nodes)@).insert(node.id@, node_view(node)),
{
    let ghost before = nodes@;
    let ghost n = node;
    put_node(nodes, node);
    proof {
        lemma_view_map_of_node_map(nodes@, before, n);
    }
}

/// A deep copy of a node.
pub fn clone_node(n: &DbNode) -> (r: DbNode)
    ensures
        node_view(r) == node_view(*n),
    decreases n,
{
    let mut children: Vec<DbNode> = Vec::new();
    let mut i: usize = 0;
    while i < n.children.len()
        invariant
            i <= n.children@.len(),
            nodes_view(children@) == nodes_view(n.children@.take(i as int)),
        decreases n.children@.len() - i,
    {
        proof {
            assert(decreases_to!(n => n.children@[i as int]));
        }
        let c = clone_node(&n.children[i]);
        let ghost before = children@;
        children.push(c);
        proof {
            assert(children@.drop_last() =~= before);
            assert(n.children@.take(i + 1).drop_last() =~= n.children@.take(i as int));
        }
        i += 1;
    }
    assert(n.children@.take(n.children@.len() as int) =~= n.children@);
    let parent_context = match &n.parent_context {
        Some(p) => Some(p.clone()),
        None => None,
    };
    DbNode {
        id: n.id.clone(),
        name: n.name.clone(),
        node_type: n.node_type,
        has_children: n.has_children,
        children_loaded: n.children_loaded,
        children,
        parent_context,
    }
}

impl DbNode {
    /// A node without children, not under any context.
    pub fn new(id: String, name: String, node_type: DbNodeType) -> (r: Self)
        ensures
            r.id == id,
            r.name == name,
            r.node_type == node_type,
            !r.has_children,
            !r.children_loaded,
            r.children@.len() == 0,
            r.parent_context is None,
    {
        DbNode {
            id,
            name,
            node_type,
            has_children: false,
            children_loaded: false,
            children: Vec::new(),
            parent_context: None,
        }
    }

    /// The node, marked as having children or not.
    pub fn with_children_flag(self, has_children: bool) -> (r: Self)
        ensures
            r == (DbNode { has_children, ..self }),
    {
        let mut n = self;
        n.has_children = has_children;
        n
    }
}

} // verus!

verus! {

pub proof fn lemma_nodes_view_index(ns: Seq<DbNode>)
    ensures
        nodes_view(ns).len() == ns.len(),
        forall|i: int| 0 <= i < ns.len() ==> #[trigger] nodes_view(ns)[i] == node_view(ns[i]),
    decreases ns.len(),
{
    if ns.len() > 0 {
        lemma_nodes_view_index(ns.drop_last());
    }
}

proof fn lemma_nodes_view_eq(a: Seq<DbNode>, b: Seq<DbNodeView>)
    requires
        a.len() == b.len(),
        forall|i: int| 0 <= i < a.len() ==> node_view(#[trigger] a[i]) == b[i],
    ensures
        nodes_view(a) == b,
{
    lemma_nodes_view_index(a);
    assert(nodes_view(a) =~= b);
}

/// Ordered by id.
pub open spec fn sorted_by_id(s: Seq<DbNodeView>) -> bool {
    forall|i: int, j: int| 0 <= i < j < s.len() ==> lex_le(s[i].id, s[j].id)
}

/// Nodes with id `k`, in their order.
pub open spec fn with_id(s: Seq<DbNodeView>, k: Seq<char>) -> Seq<DbNodeView> {
    s.filter(|x: DbNodeView| x.id == k)
}

/// `r` is `s` sorted by id, nodes with equal ids keeping their relative
/// order.
pub open spec fn sorts_by_id(r: Seq<DbNodeView>, s: Seq<DbNodeView>) -> bool {
    &&& sorted_by_id(r)
    &&& r.len() == s.len()
    &&& forall|k: Seq<char>| #[trigger] with_id(r, k) == with_id(s, k)
}

proof fn lemma_insert_sorted_by_id(r: Seq<DbNodeView>, p: int, x: DbNodeView)
    requires
        sorted_by_id(r),
        0 <= p <= r.len(),
        forall|q: int| 0 <= q < p ==> lex_le(r[q].id, x.id),
        p < r.len() ==> !lex_le(r[p].id, x.id),
    ensures
        sorted_by_id(r.insert(p, x)),
        forall|k: Seq<char>|
            #[trigger] with_id(r.insert(p, x), k) == if x.id == k {
                with_id(r, k).push(x)
            } else {
                with_id(r, k)
            },
{
    broadcast use Seq::filter_distributes_over_add;

    let t = r.insert(p, x);
    assert forall|q: int| p <= q < r.len() implies lex_le(x.id, r[q].id) && r[q].id != x.id by {
        lemma_lex_total(r[p].id, x.id);
        if q > p {
            lemma_lex_trans(x.id, r[p].id, r[q].id);
        }
    }
    assert forall|i: int, j: int| 0 <= i < j < t.len() implies lex_le(t[i].id, t[j].id) by {
        if j < p {
        } else if j == p {
        } else if i < p {
            lemma_lex_trans(r[i].id, x.id, r[j - 1].id);
        } else if i == p {
        } else {
        }
    }
    let front = r.take(p);
    let back = r.skip(p);
    assert(r =~= front + back);
    assert(t =~= front + seq![x] + back);
    assert forall|k: Seq<char>| #[trigger] with_id(t, k) == if x.id == k {
        with_id(r, k).push(x)
    } else {
        with_id(r, k)
    } by {
        let pred = |y: DbNodeView| y.id == k;
        reveal_with_fuel(Seq::filter, 2);
        assert(seq![x].filter(pred) == if pred(x) { seq![x] } else { Seq::<DbNodeView>::empty() }) by {
            assert(seq![x].drop_last() =~= Seq::<DbNodeView>::empty());
        }
        if x.id == k {
            back.lemma_all_neg_filter_empty(pred);
            assert(back.filter(pred) =~= Seq::<DbNodeView>::empty());
            assert(with_id(t, k) =~= with_id(r, k).push(x));
        } else {
            assert(with_id(t, k) =~= with_id(r, k));
        }
    }
}

fn id_at_or_before(r: &Vec<DbNode>, j: usize, key: &[char]) -> (b: bool)
    requires
        j < r@.len(),
    ensures
        b == lex_le(r@[j as int].id@, key@),
{
    let other = chars_of(r[j].id.as_str());
    lex_le_chars(other.as_slice(), key)
}

/// Stable sort of nodes by id.
pub fn sort_nodes(items: Vec<DbNode>) -> (r: Vec<DbNode>)
    ensures
        sorts_by_id(nodes_view(r@), nodes_view(items@)),
{
    let ghost input = nodes_view(items@);
    proof {
        lemma_nodes_view_index(items@);
    }
    let mut rest = items;
    let mut r: Vec<DbNode> = Vec::new();
    let ghost mut i: int = 0;
    proof {
        lemma_nodes_view_eq(rest@, input.skip(0));
        lemma_nodes_view_eq(r@, input.take(0));
    }
    while rest.len() > 0
        invariant
            0 <= i <= input.len(),
            nodes_view(rest@) == input.skip(i),
            sorts_by_id(nodes_view(r@), input.take(i)),
        decreases rest@.len(),
    {
        let ghost old_rest = rest@;
        proof {
            lemma_nodes_view_index(old_rest);
            assert(input.skip(i)[0] == node_view(old_rest[0]));
        }
        let x = rest.remove(0);
        let key = chars_of(x.id.as_str());
        let ghost rv = nodes_view(r@);
        proof {
            lemma_nodes_view_index(r@);
            lemma_nodes_view_index(rest@);
            assert(rest@ =~= old_rest.subrange(1, old_rest.len() as int));
            assert(node_view(x) == input[i]);
            assert forall|k: int| 0 <= k < rest@.len() implies node_view(#[trigger] rest@[k])
                == input.skip(i + 1)[k] by {
                assert(rest@[k] == old_rest[k + 1]);
                assert(input.skip(i + 1)[k] == input.skip(i)[k + 1]);
                assert(nodes_view(old_rest)[k + 1] == node_view(old_rest[k + 1]));
            }
            lemma_nodes_view_eq(rest@, input.skip(i + 1));
        }
        let mut j: usize = 0;
        while j < r.len() && id_at_or_before(&r, j, key.as_slice())
            invariant
                j <= r@.len(),
                rv == nodes_view(r@),
                rv.len() == r@.len(),
                forall|q: int| 0 <= q < r@.len() ==> #[trigger] rv[q] == node_view(r@[q]),
                key@ == x.id@,
                forall|q: int| 0 <= q < j ==> lex_le(rv[q].id, node_view(x).id),
            decreases r@.len() - j,
        {
            j += 1;
        }
        proof {
            lemma_insert_sorted_by_id(rv, j as int, node_view(x));
        }
        let ghost xv = node_view(x);
        let ghost before_r = r@;
        r.insert(j, x);
        proof {
            assert forall|q: int| 0 <= q < r@.len() implies node_view(#[trigger] r@[q]) == rv.insert(
                j as int,
                xv,
            )[q] by {
                if q < j {
                    assert(r@[q] == before_r[q]);
                } else if q > j {
                    assert(r@[q] == before_r[q - 1]);
                }
            }
            lemma_nodes_view_eq(r@, rv.insert(j as int, xv));
            assert(input.take(i + 1) =~= input.take(i).push(xv));
            assert forall|k: Seq<char>| #[trigger]
                with_id(nodes_view(r@), k) == with_id(input.take(i + 1), k) by {
                input.take(i).lemma_filter_push(xv, |y: DbNodeView| y.id == k);
            }
            i = i + 1;
        }
    }
    proof {
        assert(input.take(i) =~= input);
    }
    r
}

} // verus!

verus! {

/// The nodes read as a map from id to node value.
pub open spec fn view_map(nodes: Seq<DbNode>) -> Map<Seq<char>, DbNodeView> {
    Map::new(|id: Seq<char>| has_node(nodes, id), |id: Seq<char>| node_view(node_with(nodes, id)))
}

/// The latest version of a child: the node stored under its id, else the
/// child itself.
pub open spec fn fresh(map: Map<Seq<char>, DbNodeView>, c: DbNodeView) -> DbNodeView {
    if map.contains_key(c.id) {
        map[c.id]
    } else {
        c
    }
}

/// The item shows the node and, `depth` levels down, its loaded children
/// in their latest versions, each expanded when its id is; a node whose
/// children are not loaded gets a placeholder child.
pub open spec fn shows_tree(
    item: TreeItem,
    node: DbNodeView,
    map: Map<Seq<char>, DbNodeView>,
    expanded: Set<Seq<char>>,
    depth: nat,
) -> bool
    decreases depth, 1nat, 0nat,
{
    &&& item.id@ == node.id
    &&& item.label@ == node.name
    &&& item.expanded == expanded.contains(node.id)
    &&& if node.children_loaded {
        if depth == 0 {
            item.children@.len() == 0
        } else {
            shows_trees(
                item.children@,
                node.children.map_values(|c: DbNodeView| fresh(map, c)),
                map,
                expanded,
                depth,
            )
        }
    } else if node.has_children {
        item.children@.len() == 1 && is_placeholder(item.children@[0], node.id)
    } else {
        item.children@.len() == 0
    }
}

/// Each item shows the node at its position, one level less deep.
pub open spec fn shows_trees(
    items: Seq<TreeItem>,
    nodes: Seq<DbNodeView>,
    map: Map<Seq<char>, DbNodeView>,
    expanded: Set<Seq<char>>,
    depth: nat,
) -> bool
    decreases depth, 0nat, nodes.len(),
{
    &&& items.len() == nodes.len()
    &&& depth > 0 && nodes.len() > 0 ==> {
        &&& shows_trees(items.drop_last(), nodes.drop_last(), map, expanded, depth)
        &&& shows_tree(items.last(), nodes.last(), map, expanded, (depth - 1) as nat)
    }
}

/// The item for a node, following children through the stored nodes down
/// to `depth` levels.
pub fn db_node_to_tree_item_recursive(
    node: &DbNode,
    db_nodes: &Vec<DbNode>,
    expanded_nodes: &Vec<String>,
    depth: usize,
) -> (r: TreeItem)
    requires
        ids_unique(db_nodes@),
    ensures
        shows_tree(r, node_view(*node), view_map(db_nodes@), id_set(expanded_nodes@), depth as nat),
    decreases depth,
{
    let ghost map = view_map(db_nodes@);
    let ghost nv = node_view(*node);
    let expanded = ids_contain(expanded_nodes, &node.id);
    if node.children_loaded {
        let mut children: Vec<TreeItem> = Vec::new();
        if depth > 0 {
            let ghost fresh_children = nv.children.map_values(|c: DbNodeView| fresh(map, c));
            proof {
                lemma_nodes_view_index(node.children@);
            }
            let mut i: usize = 0;
            while i < node.children.len()
                invariant
                    i <= node.children@.len(),
                    depth > 0,
                    ids_unique(db_nodes@),
                    map == view_map(db_nodes@),
                    nv == node_view(*node),
                    nv.children.len() == node.children@.len(),
                    forall|q: int| 0 <= q < node.children@.len() ==> #[trigger] nv.children[q] == node_view(node.children@[q]),
                    fresh_children == nv.children.map_values(|c: DbNodeView| fresh(map, c)),
                    shows_trees(
                        children@,
                        fresh_children.take(i as int),
                        map,
                        id_set(expanded_nodes@),
                        depth as nat,
                    ),
                decreases node.children@.len() - i,
            {
                let child = &node.children[i];
                let item = match find_node(db_nodes, &child.id) {
                    Some(k) => db_node_to_tree_item_recursive(
                        &db_nodes[k],
                        db_nodes,
                        expanded_nodes,
                        depth - 1,
                    ),
                    None => db_node_to_tree_item_recursive(
                        child,
                        db_nodes,
                        expanded_nodes,
                        depth - 1,
                    ),
                };
                let ghost before = children@;
                children.push(item);
                proof {
                    assert(children@.drop_last() =~= before);
                    assert(fresh_children.take(i + 1).drop_last() =~= fresh_children.take(i as int));
                    assert(fresh_children.take(i + 1).last() == fresh(map, node_view(*child)));
                }
                i += 1;
            }
            assert(fresh_children.take(node.children@.len() as int) =~= fresh_children);
        }
        TreeItem { id: node.id.clone(), label: node.name.clone(), expanded, children }
    } else if node.has_children {
        let p = placeholder_for(&node.id);
        TreeItem { id: node.id.clone(), label: node.name.clone(), expanded, children: vec![p] }
    } else {
        TreeItem { id: node.id.clone(), label: node.name.clone(), expanded, children: Vec::new() }
    }
}

} // verus!

verus! {

/// What the explorer asks the workspace to do.
#[derive(Debug)]
pub enum DbTreeViewEvent {
    /// Open the data of a table.
    OpenTableData { database: String, table: String },
    /// Open the data of a view.
    OpenViewData { database: String, view: String },
    /// Open the structure of a table.
    OpenTableStructure { database: String, table: String },
    /// Connect with a saved connection.
    ConnectToConnection { id: String, name: String },
    /// Open a new query on a database.
    CreateNewQuery { database: String },
}

/// The explorer's state: the nodes by id, which have their children loaded,
/// which are loading, which are expanded, the items shown, the name of the
/// active connection and the selected item.
#[derive(Debug)]
pub struct DbTreeView {
    pub db_nodes: Vec<DbNode>,
    pub loaded_children: Vec<String>,
    pub loading_nodes: Vec<String>,
    pub expanded_nodes: Vec<String>,
    pub items: Vec<TreeItem>,
    pub connection_name: Option<String>,
    pub selected_item: Option<String>,
}

/// A node with only an id, a name and a kind.
pub open spec fn bare_node(id: Seq<char>, name: Seq<char>, t: DbNodeType) -> DbNodeView {
    DbNodeView {
        id,
        name,
        node_type: t,
        has_children: false,
        children_loaded: false,
        children: seq![],
        parent_context: None,
    }
}

/// The nodes the explorer starts with: one per saved connection, or a
/// single placeholder when there is none.
pub open spec fn initial_nodes(conns: Seq<StoredConnection>) -> Seq<DbNodeView> {
    if conns.len() == 0 {
        seq![bare_node("root"@, "No Database Connected"@, DbNodeType::Connection)]
    } else {
        conns.map_values(
            |c: StoredConnection|
                bare_node(signed_decimal(c.id->0 as int), c.name@, DbNodeType::Connection),
        )
    }
}

/// The nodes by id, a later node replacing an earlier one of the same id.
pub open spec fn views_map(s: Seq<DbNodeView>) -> Map<Seq<char>, DbNodeView>
    decreases s.len(),
{
    if s.len() == 0 {
        Map::empty()
    } else {
        views_map(s.drop_last()).insert(s.last().id, s.last())
    }
}

/// An item with only an id and a label.
pub open spec fn is_leaf(item: TreeItem, id: Seq<char>, label: Seq<char>) -> bool {
    &&& item.id@ == id
    &&& item.label@ == label
    &&& !item.expanded
    &&& item.children@.len() == 0
}

/// The items are leaves showing the nodes in order.
pub open spec fn leaves_of(items: Seq<TreeItem>, nodes: Seq<DbNodeView>) -> bool {
    &&& items.len() == nodes.len()
    &&& forall|i: int| 0 <= i < nodes.len() ==> is_leaf(#[trigger] items[i], nodes[i].id, nodes[i].name)
}

fn leaf(id: &String, label: &String) -> (r: TreeItem)
    ensures
        is_leaf(r, id@, label@),
{
    TreeItem { id: id.clone(), label: label.clone(), expanded: false, children: Vec::new() }
}

/// The first items: one leaf per node, or a placeholder leaf when there are
/// no nodes.
pub fn create_initial_tree(init_nodes: Vec<DbNode>) -> (r: Vec<TreeItem>)
    ensures
        init_nodes@.len() == 0 ==> r@.len() == 1 && is_leaf(
            r@[0],
            "root"@,
            "No Database Connected"@,
        ),
        init_nodes@.len() > 0 ==> leaves_of(r@, nodes_view(init_nodes@)),
{
    proof {
        lemma_nodes_view_index(init_nodes@);
    }
    if init_nodes.len() == 0 {
        return vec![leaf(&"root".to_owned(), &"No Database Connected".to_owned())];
    }
    let mut items: Vec<TreeItem> = Vec::new();
    let mut i: usize = 0;
    while i < init_nodes.len()
        invariant
            i <= init_nodes@.len(),
            items@.len() == i,
            nodes_view(init_nodes@).len() == init_nodes@.len(),
            forall|q: int| 0 <= q < init_nodes@.len() ==> #[trigger] nodes_view(init_nodes@)[q] == node_view(init_nodes@[q]),
            forall|q: int|
                0 <= q < i ==> is_leaf(
                    #[trigger] items@[q],
                    init_nodes@[q].id@,
                    init_nodes@[q].name@,
                ),
        decreases init_nodes@.len() - i,
    {
        items.push(leaf(&init_nodes[i].id, &init_nodes[i].name));
        i += 1;
    }
    items
}

/// Every saved connection has an id.
pub open spec fn all_stored(conns: Seq<StoredConnection>) -> bool {
    forall|i: int| 0 <= i < conns.len() ==> (#[trigger] conns[i]).id is Some
}

impl DbTreeView {
    /// The nodes have distinct ids.
    pub open spec fn wf(&self) -> bool {
        ids_unique(self.db_nodes@)
    }

    /// The nodes by id.
    pub open spec fn nodes(&self) -> Map<Seq<char>, DbNodeView> {
        view_map(self.db_nodes@)
    }

    /// Nodes whose children are loaded.
    pub open spec fn loaded(&self) -> Set<Seq<char>> {
        id_set(self.loaded_children@)
    }

    /// Nodes whose children are being loaded.
    pub open spec fn loading(&self) -> Set<Seq<char>> {
        id_set(self.loading_nodes@)
    }

    /// Expanded nodes.
    pub open spec fn expanded(&self) -> Set<Seq<char>> {
        id_set(self.expanded_nodes@)
    }

    /// The explorer for the saved connections: a node per connection, the
    /// items sorted by id, nothing loaded or expanded.
    pub fn new(connections: &Vec<StoredConnection>) -> (r: Self)
        requires
            all_stored(connections@),
        ensures
            r.wf(),
            r.nodes() == views_map(initial_nodes(connections@)),
            exists|s: Seq<DbNodeView>|
                sorts_by_id(s, initial_nodes(connections@)) && #[trigger] leaves_of(r.items@, s),
            r.loaded().is_empty(),
            r.loading().is_empty(),
            r.expanded().is_empty(),
            r.connection_name is None,
            r.selected_item is None,
    {
        let ghost init = initial_nodes(connections@);
        let mut db_nodes: Vec<DbNode> = Vec::new();
        let mut init_nodes: Vec<DbNode> = Vec::new();
        if connections.len() == 0 {
            let node = DbNode::new(
                "root".to_owned(),
                "No Database Connected".to_owned(),
                DbNodeType::Connection,
            );
            let copy = clone_node(&node);
            store_node(&mut db_nodes, copy);
            init_nodes.push(node);
            proof {
                assert(view_map(Seq::<DbNode>::empty()) =~= Map::<Seq<char>, DbNodeView>::empty());
                assert(init.drop_last() =~= Seq::<DbNodeView>::empty());
                assert(node_view(node) == init[0]);
                assert(views_map(init) == views_map(init.drop_last()).insert(init.last().id, init.last()));
                assert(views_map(init.drop_last()) == Map::<Seq<char>, DbNodeView>::empty());
                lemma_nodes_view_eq(init_nodes@, init);
                assert(view_map(db_nodes@) == views_map(init));
            }
        } else {
            proof {
                assert(view_map(Seq::<DbNode>::empty()) =~= Map::<Seq<char>, DbNodeView>::empty());
                assert(init.take(0) =~= Seq::<DbNodeView>::empty());
                lemma_nodes_view_eq(init_nodes@, init.take(0));
            }
            let mut i: usize = 0;
            while i < connections.len()
                invariant
                    i <= connections@.len(),
                    connections@.len() > 0,
                    all_stored(connections@),
                    init == initial_nodes(connections@),
                    ids_unique(db_nodes@),
                    view_map(db_nodes@) == views_map(init.take(i as int)),
                    nodes_view(init_nodes@) == init.take(i as int),
                decreases connections@.len() - i,
            {
                let conn = &connections[i];
                let id_num: i64 = match conn.id {
                    Some(v) => v,
                    None => 0,
                };
                assert(conn.id is Some);
                let node = DbNode::new(
                    i64_to_string(id_num),
                    conn.name.clone(),
                    DbNodeType::Connection,
                );
                assert(node_view(node) == init[i as int]);
                let copy = clone_node(&node);
                store_node(&mut db_nodes, copy);
                let ghost before = init_nodes@;
                init_nodes.push(node);
                proof {
                    assert(init.take(i + 1).drop_last() =~= init.take(i as int));
                    assert(init.take(i + 1).last() == init[i as int]);
                    assert(views_map(init.take(i + 1)) == views_map(init.take(i as int)).insert(
                        init[i as int].id,
                        init[i as int],
                    ));
                    assert(init_nodes@.drop_last() =~= before);
                }
                i += 1;
            }
            assert(init.take(connections@.len() as int) =~= init);
            assert(view_map(db_nodes@) == views_map(init));
            assert(nodes_view(init_nodes@) == init);
        }
        let ghost iv = nodes_view(init_nodes@);
        let sorted = sort_nodes(init_nodes);
        proof {
            lemma_nodes_view_index(sorted@);
            lemma_nodes_view_index(init_nodes@);
        }
        let ghost sv = nodes_view(sorted@);
        proof {
            assert(sv.len() > 0);
        }
        let items = create_initial_tree(sorted);
        let r = DbTreeView {
            db_nodes,
            loaded_children: Vec::new(),
            loading_nodes: Vec::new(),
            expanded_nodes: Vec::new(),
            items,
            connection_name: None,
            selected_item: None,
        };
        proof {
            assert(iv == init);
            assert(leaves_of(r.items@, sv));
            assert(sorts_by_id(sv, init));
            assert(id_set(r.loaded_children@) =~= Set::<Seq<char>>::empty());
            assert(id_set(r.loading_nodes@) =~= Set::<Seq<char>>::empty());
            assert(id_set(r.expanded_nodes@) =~= Set::<Seq<char>>::empty());
        }
        r
    }
}

} // verus!

verus! {

/// Takes out the node at `i`.
pub fn take_node(nodes: &mut Vec<DbNode>, i: usize) -> (r: DbNode)
    requires
        ids_unique(old(nodes)@),
        i < old(nodes)@.len(),
    ensures
        r == old(nodes)@[i as int],
        ids_unique(final(nodes)@),
        view_map(final(nodes)@) == view_map(old(nodes)@).remove(r.id@),
{
    let ghost before = nodes@;
    let r = nodes.remove(i);
    proof {
        assert forall|a: int, b: int|
            0 <= a < nodes@.len() && 0 <= b < nodes@.len() && a != b implies (#[trigger] nodes@[a]).id@
            != (#[trigger] nodes@[b]).id@ by {
            let a2 = if a < i { a } else { a + 1 };
            let b2 = if b < i { b } else { b + 1 };
            assert(nodes@[a] == before[a2]);
            assert(nodes@[b] == before[b2]);
        }
        assert forall|id: Seq<char>| #[trigger] has_node(nodes@, id) == (has_node(before, id) && id
            != r.id@) by {
            if has_node(nodes@, id) {
                let k = choose|k: int| 0 <= k < nodes@.len() && (#[trigger] nodes@[k]).id@ == id;
                let k2 = if k < i { k } else { k + 1 };
                assert(before[k2].id@ == id);
                assert(k2 != i);
            }
            if has_node(before, id) && id != r.id@ {
                let k = choose|k: int| 0 <= k < before.len() && (#[trigger] before[k]).id@ == id;
                assert(k != i);
                let k2 = if k < i { k } else { k - 1 };
                assert(nodes@[k2].id@ == id);
            }
        }
        assert forall|id: Seq<char>| has_node(nodes@, id) implies #[trigger] node_with(nodes@, id)
            == node_with(before, id) by {
            let k = choose|k: int| 0 <= k < nodes@.len() && (#[trigger] nodes@[k]).id@ == id;
            let k2 = if k < i { k } else { k + 1 };
            assert(before[k2].id@ == id);
            let kb = choose|kb: int| 0 <= kb < before.len() && (#[trigger] before[kb]).id@ == id;
            assert(kb == k2);
        }
        assert(view_map(nodes@) =~= view_map(before).remove(r.id@));
    }
    r
}

impl DbTreeView {
    /// The node with this id.
    pub fn node(&self, id: &String) -> (r: Option<&DbNode>)
        requires
            self.wf(),
        ensures
            r is None <==> !self.nodes().contains_key(id@),
            r matches Some(n) ==> node_view(*n) == self.nodes()[id@],
    {
        match find_node(&self.db_nodes, id) {
            Some(i) => Some(&self.db_nodes[i]),
            None => None,
        }
    }

    /// Decides whether to load a node's children: not when they are loaded
    /// or loading, nor for an unknown node or one without children;
    /// otherwise the node is marked as loading.
    pub fn lazy_load_children(&mut self, node_id: String) -> (r: bool)
        requires
            old(self).wf(),
        ensures
            final(self).wf(),
            r == (!old(self).loaded().contains(node_id@) && !old(self).loading().contains(node_id@)
                && old(self).nodes().contains_key(node_id@) && old(self).nodes()[node_id@].has_children),
            final(self).loading() == if r {
                old(self).loading().insert(node_id@)
            } else {
                old(self).loading()
            },
            final(self).db_nodes == old(self).db_nodes,
            final(self).loaded_children == old(self).loaded_children,
            final(self).expanded_nodes == old(self).expanded_nodes,
            final(self).items == old(self).items,
            final(self).connection_name == old(self).connection_name,
            final(self).selected_item == old(self).selected_item,
    {
        if ids_contain(&self.loaded_children, &node_id) || ids_contain(&self.loading_nodes, &node_id) {
            return false;
        }
        let can = match self.node(&node_id) {
            Some(n) => n.has_children,
            None => false,
        };
        if !can {
            return false;
        }
        ids_insert(&mut self.loading_nodes, node_id);
        true
    }

    /// Forgets a node's children and asks for them again.
    pub fn reload_children(&mut self, node_id: String) -> (r: bool)
        requires
            old(self).wf(),
        ensures
            final(self).wf(),
            final(self).loaded() == old(self).loaded().remove(node_id@),
            final(self).nodes() == if old(self).nodes().contains_key(node_id@) {
                old(self).nodes().insert(
                    node_id@,
                    DbNodeView {
                        children_loaded: false,
                        children: seq![],
                        ..old(self).nodes()[node_id@]
                    },
                )
            } else {
                old(self).nodes()
            },
            r == (!old(self).loading().contains(node_id@) && old(self).nodes().contains_key(node_id@)
                && old(self).nodes()[node_id@].has_children),
            final(self).loading() == if r {
                old(self).loading().insert(node_id@)
            } else {
                old(self).loading()
            },
            final(self).expanded_nodes == old(self).expanded_nodes,
            final(self).items == old(self).items,
            final(self).connection_name == old(self).connection_name,
            final(self).selected_item == old(self).selected_item,
    {
        ids_remove(&mut self.loaded_children, &node_id);
        match find_node(&self.db_nodes, &node_id) {
            Some(i) => {
                let mut n = take_node(&mut self.db_nodes, i);
                n.children_loaded = false;
                n.children = Vec::new();
                proof {
                    assert(nodes_view(n.children@) =~= Seq::<DbNodeView>::empty());
                }
                store_node(&mut self.db_nodes, n);
                proof {
                    assert(view_map(self.db_nodes@) =~= view_map(old(self).db_nodes@).insert(
                        node_id@,
                        DbNodeView {
                            children_loaded: false,
                            children: seq![],
                            ..view_map(old(self).db_nodes@)[node_id@]
                        },
                    ));
                }
            },
            None => {},
        }
        self.lazy_load_children(node_id)
    }
}

} // verus!

verus! {

impl DbTreeView {
    /// Records the active connection's name.
    pub fn set_connection_name(&mut self, name: String)
        ensures
            final(self).connection_name == Some(name),
            final(self).db_nodes == old(self).db_nodes,
            final(self).loaded_children == old(self).loaded_children,
            final(self).loading_nodes == old(self).loading_nodes,
            final(self).expanded_nodes == old(self).expanded_nodes,
            final(self).items == old(self).items,
            final(self).selected_item == old(self).selected_item,
    {
        self.connection_name = Some(name);
    }

    /// A connection is up: its node gets children to load, is expanded, and
    /// its children are asked for.
    pub fn update_connection_node(&mut self, connection_id: String) -> (r: bool)
        requires
            old(self).wf(),
        ensures
            final(self).wf(),
            !old(self).nodes().contains_key(connection_id@) ==> !r && *final(self) == *old(self),
            old(self).nodes().contains_key(connection_id@) ==> {
                &&& final(self).nodes() == old(self).nodes().insert(
                    connection_id@,
                    DbNodeView {
                        has_children: true,
                        children_loaded: false,
                        ..old(self).nodes()[connection_id@]
                    },
                )
                &&& final(self).expanded() == old(self).expanded().insert(connection_id@)
                &&& r == (!old(self).loaded().contains(connection_id@) && !old(
                    self,
                ).loading().contains(connection_id@))
                &&& final(self).loading() == if r {
                    old(self).loading().insert(connection_id@)
                } else {
                    old(self).loading()
                }
                &&& final(self).loaded_children == old(self).loaded_children
            },
    {
        match find_node(&self.db_nodes, &connection_id) {
            Some(i) => {
                let mut n = take_node(&mut self.db_nodes, i);
                n.has_children = true;
                n.children_loaded = false;
                let id = n.id.clone();
                store_node(&mut self.db_nodes, n);
                proof {
                    assert(view_map(self.db_nodes@) =~= view_map(old(self).db_nodes@).insert(
                        connection_id@,
                        DbNodeView {
                            has_children: true,
                            children_loaded: false,
                            ..view_map(old(self).db_nodes@)[connection_id@]
                        },
                    ));
                }
                ids_insert(&mut self.expanded_nodes, id);
                self.lazy_load_children(connection_id)
            },
            None => false,
        }
    }

    /// Expands the node of a database of a connection (id
    /// `<connection>_db_<database>`) and asks for its children unless they
    /// are loaded.
    pub fn expand_database(&mut self, connection_id: &str, database: &str) -> (r: bool)
        requires
            old(self).wf(),
        ensures
            final(self).wf(),
            ({
                let id = connection_id@ + "_db_"@ + database@;
                &&& final(self).expanded() == old(self).expanded().insert(id)
                &&& r == (!old(self).loaded().contains(id) && !old(self).loading().contains(id)
                    && old(self).nodes().contains_key(id) && old(self).nodes()[id].has_children)
                &&& final(self).loading() == if r {
                    old(self).loading().insert(id)
                } else {
                    old(self).loading()
                }
            }),
            final(self).db_nodes == old(self).db_nodes,
            final(self).loaded_children == old(self).loaded_children,
            final(self).items == old(self).items,
    {
        let mut id = connection_id.to_owned();
        push_str(&mut id, "_db_");
        push_str(&mut id, database);
        ids_insert(&mut self.expanded_nodes, id.clone());
        if !ids_contain(&self.loaded_children, &id) {
            self.lazy_load_children(id)
        } else {
            false
        }
    }

    /// Records that the widget shows an item expanded or collapsed.
    pub fn sync_expanded(&mut self, id: String, expanded: bool)
        ensures
            final(self).expanded() == if expanded {
                old(self).expanded().insert(id@)
            } else {
                old(self).expanded().remove(id@)
            },
            final(self).db_nodes == old(self).db_nodes,
            final(self).loaded_children == old(self).loaded_children,
            final(self).loading_nodes == old(self).loading_nodes,
            final(self).items == old(self).items,
    {
        if expanded {
            ids_insert(&mut self.expanded_nodes, id);
        } else {
            ids_remove(&mut self.expanded_nodes, &id);
        }
    }

    /// The clicked item becomes the selected one.
    pub fn select_item(&mut self, id: String)
        ensures
            final(self).selected_item == Some(id),
            final(self).db_nodes == old(self).db_nodes,
            final(self).expanded_nodes == old(self).expanded_nodes,
            final(self).items == old(self).items,
    {
        self.selected_item = Some(id);
    }

    /// An item's label, with ` (Loading...)` while its children load.
    pub fn item_label(&self, id: &String, label: &str) -> (r: String)
        ensures
            r@ == label@ + if self.loading().contains(id@) {
                " (Loading...)"@
            } else {
                Seq::<char>::empty()
            },
    {
        let mut s = label.to_owned();
        if ids_contain(&self.loading_nodes, id) {
            push_str(&mut s, " (Loading...)");
        }
        s
    }
}

} // verus!

verus! {

/// The map with the node and all its descendants stored, each under its
/// id, in depth-first order (a later one replacing an earlier one).
pub open spec fn with_tree(m: Map<Seq<char>, DbNodeView>, n: DbNodeView) -> Map<
    Seq<char>,
    DbNodeView,
>
    decreases n, 1nat,
{
    with_trees(m.insert(n.id, n), n.children)
}

/// The map with each node of `s` and its descendants stored, in order.
pub open spec fn with_trees(m: Map<Seq<char>, DbNodeView>, s: Seq<DbNodeView>) -> Map<
    Seq<char>,
    DbNodeView,
>
    decreases s, 0nat,
{
    if s.len() == 0 {
        m
    } else {
        with_trees(with_tree(m, s[0]), s.drop_first())
    }
}

/// Stores a node and all its descendants.
pub fn insert_nodes_recursive(nodes: &mut Vec<DbNode>, node: &DbNode)
    requires
        ids_unique(old(nodes)@),
    ensures
        ids_unique(final(nodes)@),
        view_map(final(nodes)@) == with_tree(view_map(old(nodes)@), node_view(*node)),
    decreases node,
{
    let copy = clone_node(node);
    store_node(nodes, copy);
    let ghost target = with_tree(view_map(old(nodes)@), node_view(*node));
    let ghost cs = node_view(*node).children;
    proof {
        lemma_nodes_view_index(node.children@);
        assert(cs.skip(0) =~= cs);
    }
    let mut i: usize = 0;
    while i < node.children.len()
        invariant
            i <= node.children@.len(),
            ids_unique(nodes@),
            cs == node_view(*node).children,
            cs.len() == node.children@.len(),
            forall|q: int| 0 <= q < cs.len() ==> #[trigger] cs[q] == node_view(node.children@[q]),
            with_trees(view_map(nodes@), cs.skip(i as int)) == target,
        decreases node.children@.len() - i,
    {
        proof {
            assert(decreases_to!(node => node.children@[i as int]));
            assert(cs.skip(i as int)[0] == cs[i as int]);
            assert(cs.skip(i as int).drop_first() =~= cs.skip(i + 1));
        }
        insert_nodes_recursive(nodes, &node.children[i]);
        i += 1;
    }
    assert(cs.skip(i as int) =~= Seq::<DbNodeView>::empty());
}

/// Top-level nodes: those under no context.
pub open spec fn roots_of(nodes: Seq<DbNode>) -> Seq<DbNodeView> {
    nodes_view(nodes).filter(|n: DbNodeView| n.parent_context is None)
}

/// The items after a rebuild from these nodes: unchanged when no node is
/// top-level, else the top-level nodes sorted by id, each with its loaded
/// descendants down to as many levels as there are nodes.
pub open spec fn rebuilt(
    before: Seq<TreeItem>,
    after: Seq<TreeItem>,
    nodes: Seq<DbNode>,
    expanded: Set<Seq<char>>,
) -> bool {
    &&& roots_of(nodes).len() == 0 ==> after == before
    &&& roots_of(nodes).len() > 0 ==> exists|s: Seq<DbNodeView>|
        sorts_by_id(s, roots_of(nodes)) && #[trigger] shows_trees(
            after,
            s,
            view_map(nodes),
            expanded,
            (nodes.len() + 1) as nat,
        )
}

impl DbTreeView {
    /// Rebuilds the items from the top-level nodes, sorted by id, each with
    /// its loaded descendants; with no top-level node the items stay.
    pub fn rebuild_tree(&mut self)
        requires
            old(self).wf(),
        ensures
            final(self).wf(),
            rebuilt(old(self).items@, final(self).items@, old(self).db_nodes@, old(self).expanded()),
            final(self).db_nodes == old(self).db_nodes,
            final(self).loaded_children == old(self).loaded_children,
            final(self).loading_nodes == old(self).loading_nodes,
            final(self).expanded_nodes == old(self).expanded_nodes,
            final(self).connection_name == old(self).connection_name,
            final(self).selected_item == old(self).selected_item,
    {
        let ghost all = nodes_view(self.db_nodes@);
        let ghost keep = |n: DbNodeView| n.parent_context is None;
        proof {
            lemma_nodes_view_index(self.db_nodes@);
        }
        let mut roots: Vec<DbNode> = Vec::new();
        let mut i: usize = 0;
        proof {
            lemma_nodes_view_eq(roots@, all.take(0).filter(keep));
        }
        while i < self.db_nodes.len()
            invariant
                i <= self.db_nodes@.len(),
                all == nodes_view(self.db_nodes@),
                all.len() == self.db_nodes@.len(),
                forall|q: int| 0 <= q < all.len() ==> #[trigger] all[q] == node_view(self.db_nodes@[q]),
                keep == (|n: DbNodeView| n.parent_context is None),
                nodes_view(roots@) == all.take(i as int).filter(keep),
            decreases self.db_nodes@.len() - i,
        {
            proof {
                all.take(i as int).lemma_filter_push(all[i as int], keep);
                assert(all.take(i + 1) =~= all.take(i as int).push(all[i as int]));
                lemma_nodes_view_index(roots@);
            }
            if self.db_nodes[i].parent_context.is_none() {
                let c = clone_node(&self.db_nodes[i]);
                let ghost before = roots@;
                roots.push(c);
                proof {
                    assert(roots@.drop_last() =~= before);
                }
            }
            i += 1;
        }
        assert(all.take(self.db_nodes@.len() as int) =~= all);
        proof {
            assert(all.filter(keep) =~= roots_of(self.db_nodes@)) by {
                assert(keep =~= (|n: DbNodeView| n.parent_context is None));
            }
        }
        if roots.len() == 0 {
            proof {
                lemma_nodes_view_index(roots@);
            }
            return;
        }
        let ghost rv = nodes_view(roots@);
        proof {
            assert(all.filter(keep) =~= roots_of(self.db_nodes@)) by {
                assert(keep =~= (|n: DbNodeView| n.parent_context is None));
            }
        }
        let sorted = sort_nodes(roots);
        let depth = self.db_nodes.len();
        let ghost sv = nodes_view(sorted@);
        let ghost map = view_map(self.db_nodes@);
        let ghost ex = id_set(self.expanded_nodes@);
        proof {
            lemma_nodes_view_index(sorted@);
            assert(sv.take(0) =~= Seq::<DbNodeView>::empty());
        }
        let mut items: Vec<TreeItem> = Vec::new();
        let mut j: usize = 0;
        while j < sorted.len()
            invariant
                j <= sorted@.len(),
                ids_unique(self.db_nodes@),
                depth == self.db_nodes@.len(),
                sv == nodes_view(sorted@),
                sv.len() == sorted@.len(),
                forall|q: int| 0 <= q < sv.len() ==> #[trigger] sv[q] == node_view(sorted@[q]),
                map == view_map(self.db_nodes@),
                ex == id_set(self.expanded_nodes@),
                shows_trees(items@, sv.take(j as int), map, ex, (depth + 1) as nat),
            decreases sorted@.len() - j,
        {
            let item = db_node_to_tree_item_recursive(
                &sorted[j],
                &self.db_nodes,
                &self.expanded_nodes,
                depth,
            );
            let ghost before = items@;
            items.push(item);
            proof {
                assert(items@.drop_last() =~= before);
                assert(sv.take(j + 1).drop_last() =~= sv.take(j as int));
                assert(sv.take(j + 1).last() == sv[j as int]);
            }
            j += 1;
        }
        assert(sv.take(sorted@.len() as int) =~= sv);
        self.items = items;
        assert(shows_trees(self.items@, sv, map, ex, (depth + 1) as nat));
        assert(sorts_by_id(sv, roots_of(self.db_nodes@)));
        assert(old(self).nodes() == self.nodes());
        assert(old(self).expanded() == self.expanded());
        assert(old(self).db_nodes@ == self.db_nodes@);
        assert(sorts_by_id(sv, roots_of(old(self).db_nodes@)) && shows_trees(
            self.items@,
            sv,
            view_map(old(self).db_nodes@),
            old(self).expanded(),
            (old(self).db_nodes@.len() + 1) as nat,
        ));
    }
}

} // verus!

verus! {

/// Deep copies of nodes.
pub fn clone_nodes(v: &Vec<DbNode>) -> (r: Vec<DbNode>)
    ensures
        nodes_view(r@) == nodes_view(v@),
{
    proof {
        lemma_nodes_view_index(v@);
    }
    let mut out: Vec<DbNode> = Vec::new();
    let mut i: usize = 0;
    while i < v.len()
        invariant
            i <= v@.len(),
            out@.len() == i,
            forall|q: int| 0 <= q < i ==> node_view(#[trigger] out@[q]) == node_view(v@[q]),
        decreases v@.len() - i,
    {
        out.push(clone_node(&v[i]));
        i += 1;
    }
    proof {
        lemma_nodes_view_index(out@);
        assert(nodes_view(out@) =~= nodes_view(v@));
    }
    out
}

/// The nodes after the children of `id` arrived: the node (if known) holds
/// them as loaded children, and they and their descendants are stored.
pub open spec fn with_children(
    m: Map<Seq<char>, DbNodeView>,
    id: Seq<char>,
    children: Seq<DbNodeView>,
) -> Map<Seq<char>, DbNodeView> {
    let parent_set = if m.contains_key(id) {
        m.insert(id, DbNodeView { children, children_loaded: true, ..m[id] })
    } else {
        m
    };
    with_trees(parent_set, children)
}

impl DbTreeView {
    /// The children of a node arrived: they are stored, the node is marked
    /// as loaded and no longer loading, and the items are rebuilt.
    pub fn children_loaded(&mut self, node_id: String, children: Vec<DbNode>)
        requires
            old(self).wf(),
        ensures
            final(self).wf(),
            final(self).nodes() == with_children(
                old(self).nodes(),
                node_id@,
                nodes_view(children@),
            ),
            final(self).loading() == old(self).loading().remove(node_id@),
            final(self).loaded() == old(self).loaded().insert(node_id@),
            final(self).expanded_nodes == old(self).expanded_nodes,
            rebuilt(old(self).items@, final(self).items@, final(self).db_nodes@, final(self).expanded()),
    {
        ids_remove(&mut self.loading_nodes, &node_id);
        ids_insert(&mut self.loaded_children, node_id.clone());
        let ghost cv = nodes_view(children@);
        proof {
            lemma_nodes_view_index(children@);
        }
        match find_node(&self.db_nodes, &node_id) {
            Some(i) => {
                let mut n = take_node(&mut self.db_nodes, i);
                n.children = clone_nodes(&children);
                n.children_loaded = true;
                store_node(&mut self.db_nodes, n);
                proof {
                    assert(view_map(self.db_nodes@) =~= view_map(old(self).db_nodes@).insert(
                        node_id@,
                        DbNodeView {
                            children: cv,
                            children_loaded: true,
                            ..view_map(old(self).db_nodes@)[node_id@]
                        },
                    ));
                }
            },
            None => {},
        }
        let ghost start = view_map(self.db_nodes@);
        let ghost items_before = self.items@;
        proof {
            assert(cv.skip(0) =~= cv);
        }
        let mut j: usize = 0;
        while j < children.len()
            invariant
                j <= children@.len(),
                ids_unique(self.db_nodes@),
                cv == nodes_view(children@),
                cv.len() == children@.len(),
                forall|q: int| 0 <= q < cv.len() ==> #[trigger] cv[q] == node_view(children@[q]),
                with_trees(view_map(self.db_nodes@), cv.skip(j as int)) == with_trees(start, cv),
                self.items@ == items_before,
                self.expanded_nodes == old(self).expanded_nodes,
                id_set(self.loading_nodes@) == old(self).loading().remove(node_id@),
                id_set(self.loaded_children@) == old(self).loaded().insert(node_id@),
            decreases children@.len() - j,
        {
            proof {
                assert(cv.skip(j as int)[0] == cv[j as int]);
                assert(cv.skip(j as int).drop_first() =~= cv.skip(j + 1));
            }
            insert_nodes_recursive(&mut self.db_nodes, &children[j]);
            j += 1;
        }
        assert(cv.skip(j as int) =~= Seq::<DbNodeView>::empty());
        self.rebuild_tree();
    }

    /// Loading the children of a node failed: it is no longer loading.
    pub fn children_failed(&mut self, node_id: String)
        ensures
            final(self).loading() == old(self).loading().remove(node_id@),
            final(self).db_nodes == old(self).db_nodes,
            final(self).loaded_children == old(self).loaded_children,
            final(self).expanded_nodes == old(self).expanded_nodes,
            final(self).items == old(self).items,
    {
        ids_remove(&mut self.loading_nodes, &node_id);
    }
}

} // verus!

verus! {

/// The connection nodes of the map.
pub open spec fn connection_entries(m: Map<Seq<char>, DbNodeView>) -> Map<Seq<char>, DbNodeView> {
    m.restrict(m.dom().filter(|id: Seq<char>| m[id].node_type == DbNodeType::Connection))
}

/// Copies of the connection nodes.
fn connection_nodes(nodes: &Vec<DbNode>) -> (r: Vec<DbNode>)
    requires
        ids_unique(nodes@),
    ensures
        ids_unique(r@),
        view_map(r@) == connection_entries(view_map(nodes@)),
{
    let ghost m = view_map(nodes@);
    let mut kept: Vec<DbNode> = Vec::new();
    let mut i: usize = 0;
    while i < nodes.len()
        invariant
            i <= nodes@.len(),
            ids_unique(nodes@),
            m == view_map(nodes@),
            ids_unique(kept@),
            forall|k: int|
                0 <= k < kept@.len() ==> exists|j: int|
                    0 <= j < i && nodes@[j].node_type == DbNodeType::Connection && node_view(
                        #[trigger] kept@[k],
                    ) == node_view(#[trigger] nodes@[j]),
            forall|j: int|
                0 <= j < i && (#[trigger] nodes@[j]).node_type == DbNodeType::Connection
                    ==> has_node(kept@, nodes@[j].id@),
        decreases nodes@.len() - i,
    {
        if nodes[i].node_type == DbNodeType::Connection {
            let c = clone_node(&nodes[i]);
            let ghost before = kept@;
            kept.push(c);
            proof {
                assert forall|a: int, b: int|
                    0 <= a < kept@.len() && 0 <= b < kept@.len() && a != b implies (
                    #[trigger] kept@[a]).id@ != (#[trigger] kept@[b]).id@ by {
                    if a == before.len() || b == before.len() {
                        let o = if a == before.len() { b } else { a };
                        let j = choose|j: int|
                            0 <= j < i && nodes@[j].node_type == DbNodeType::Connection && node_view(
                                #[trigger] before[o],
                            ) == node_view(#[trigger] nodes@[j]);
                        assert(kept@[o] == before[o]);
                        assert(node_view(kept@[o]).id == kept@[o].id@);
                        assert(node_view(nodes@[j]).id == nodes@[j].id@);
                        assert(nodes@[j].id@ != nodes@[i as int].id@);
                    }
                }
                assert forall|k: int| 0 <= k < kept@.len() implies exists|j: int|
                    0 <= j < i + 1 && nodes@[j].node_type == DbNodeType::Connection && node_view(
                        #[trigger] kept@[k],
                    ) == node_view(#[trigger] nodes@[j]) by {
                    if k < before.len() {
                        assert(kept@[k] == before[k]);
                    } else {
                        assert(node_view(kept@[k]) == node_view(nodes@[i as int]));
                    }
                }
                assert forall|j: int|
                    0 <= j < i + 1 && (#[trigger] nodes@[j]).node_type == DbNodeType::Connection
                        implies has_node(kept@, nodes@[j].id@) by {
                    if j < i {
                        let k = choose|k: int| 0 <= k < before.len() && (#[trigger] before[k]).id@ == nodes@[j].id@;
                        assert(kept@[k] == before[k]);
                    } else {
                        assert(node_view(kept@[before.len() as int]).id == nodes@[j].id@);
                        assert(kept@[before.len() as int].id@ == nodes@[j].id@);
                    }
                }
            }
        }
        i += 1;
    }
    proof {
        let target = connection_entries(m);
        assert forall|id: Seq<char>| #[trigger] view_map(kept@).contains_key(id) == target.contains_key(
            id,
        ) by {
            if has_node(kept@, id) {
                let k = choose|k: int| 0 <= k < kept@.len() && (#[trigger] kept@[k]).id@ == id;
                let j = choose|j: int|
                    0 <= j < i && nodes@[j].node_type == DbNodeType::Connection && node_view(
                        #[trigger] kept@[k],
                    ) == node_view(#[trigger] nodes@[j]);
                assert(node_view(kept@[k]).id == id);
                assert(nodes@[j].id@ == id);
                let jj = choose|jj: int| 0 <= jj < nodes@.len() && (#[trigger] nodes@[jj]).id@ == id;
                assert(jj == j);
                assert(has_node(nodes@, id));
            }
            if target.contains_key(id) {
                let jj = choose|jj: int| 0 <= jj < nodes@.len() && (#[trigger] nodes@[jj]).id@ == id;
                assert(has_node(kept@, nodes@[jj].id@));
            }
        }
        assert forall|id: Seq<char>| view_map(kept@).contains_key(id) implies #[trigger] view_map(
            kept@,
        )[id] == target[id] by {
            let k = choose|k: int| 0 <= k < kept@.len() && (#[trigger] kept@[k]).id@ == id;
            let j = choose|j: int|
                0 <= j < i && nodes@[j].node_type == DbNodeType::Connection && node_view(
                    #[trigger] kept@[k],
                ) == node_view(#[trigger] nodes@[j]);
            assert(node_view(kept@[k]).id == id);
            let jj = choose|jj: int| 0 <= jj < nodes@.len() && (#[trigger] nodes@[jj]).id@ == id;
            assert(jj == j);
        }
        assert(view_map(kept@) =~= target);
    }
    kept
}

} // verus!

verus! {

/// The ids of the nodes.
fn ids_of(nodes: &Vec<DbNode>) -> (r: Vec<String>)
    ensures
        id_set(r@) == view_map(nodes@).dom(),
{
    let mut out: Vec<String> = Vec::new();
    let mut i: usize = 0;
    while i < nodes.len()
        invariant
            i <= nodes@.len(),
            out@.len() == i,
            forall|k: int| 0 <= k < i ==> (#[trigger] out@[k])@ == nodes@[k].id@,
        decreases nodes@.len() - i,
    {
        out.push(nodes[i].id.clone());
        i += 1;
    }
    assert(id_set(out@) =~= view_map(nodes@).dom()) by {
        assert forall|s: Seq<char>| id_set(out@).contains(s) implies view_map(nodes@).dom().contains(s) by {
            let k = choose|k: int| 0 <= k < out@.len() && (#[trigger] out@[k])@ == s;
            assert(nodes@[k].id@ == s);
        }
        assert forall|s: Seq<char>| view_map(nodes@).dom().contains(s) implies id_set(out@).contains(s) by {
            let k = choose|k: int| 0 <= k < nodes@.len() && (#[trigger] nodes@[k]).id@ == s;
            assert(out@[k]@ == s);
        }
    }
    out
}

/// The node of a listed database.
pub open spec fn database_node(name: Seq<char>) -> DbNodeView {
    DbNodeView {
        id: "db:"@ + name,
        name,
        node_type: DbNodeType::Database,
        has_children: true,
        children_loaded: false,
        children: seq![],
        parent_context: None,
    }
}

/// Name shown for the active connection.
pub open spec fn active_name(n: Option<String>) -> Seq<char> {
    match n {
        Some(s) => s@,
        None => "Current Connection"@,
    }
}

/// The active connection's node, holding its databases.
pub open spec fn active_node(name: Seq<char>, databases: Seq<Seq<char>>) -> DbNodeView {
    DbNodeView {
        id: "conn_active:"@ + name,
        name,
        node_type: DbNodeType::Connection,
        has_children: true,
        children_loaded: true,
        children: databases.map_values(|d: Seq<char>| database_node(d)),
        parent_context: None,
    }
}

/// The map with the nodes stored in order, a later one replacing an
/// earlier one of the same id.
pub open spec fn inserted(m: Map<Seq<char>, DbNodeView>, s: Seq<DbNodeView>) -> Map<
    Seq<char>,
    DbNodeView,
>
    decreases s.len(),
{
    if s.len() == 0 {
        m
    } else {
        inserted(m, s.drop_last()).insert(s.last().id, s.last())
    }
}

fn database_node_of(name: &String) -> (r: DbNode)
    ensures
        node_view(r) == database_node(name@),
{
    let mut id = "db:".to_owned();
    push_str(&mut id, name.as_str());
    let r = DbNode::new(id, name.clone(), DbNodeType::Database).with_children_flag(true);
    proof {
        assert(nodes_view(r.children@) =~= Seq::<DbNodeView>::empty());
    }
    r
}

impl DbTreeView {
    /// The server listed its databases: the explorer keeps the connection
    /// nodes, adds a node per database under the active connection, and
    /// shows only that connection; nothing else stays loaded or loading.
    pub fn refresh_done(&mut self, databases: Vec<String>)
        requires
            old(self).wf(),
        ensures
            final(self).wf(),
            ({
                let active = active_node(active_name(old(self).connection_name), databases.deep_view());
                &&& final(self).nodes() == inserted(
                    connection_entries(old(self).nodes()),
                    databases.deep_view().map_values(|d: Seq<char>| database_node(d)),
                ).insert(active.id, active)
                &&& final(self).loaded() == set![active.id]
                &&& final(self).loading().is_empty()
                &&& final(self).expanded() == old(self).expanded().intersect(
                    connection_entries(old(self).nodes()).dom(),
                )
                &&& final(self).items@.len() == 1
                &&& shows_node(final(self).items@[0], active)
            }),
            final(self).connection_name == old(self).connection_name,
    {
        let kept = connection_nodes(&self.db_nodes);
        let keep_ids = ids_of(&kept);
        ids_retain(&mut self.expanded_nodes, &keep_ids);
        self.loaded_children = Vec::new();
        self.loading_nodes = Vec::new();
        self.db_nodes = kept;
        let ghost exp = self.expanded_nodes@;
        let ghost dbv = databases.deep_view().map_values(|d: Seq<char>| database_node(d));
        let ghost base = view_map(self.db_nodes@);
        let mut children: Vec<DbNode> = Vec::new();
        let mut i: usize = 0;
        proof {
            lemma_nodes_view_eq(children@, dbv.take(0));
            assert(dbv.take(0) =~= Seq::<DbNodeView>::empty());
        }
        while i < databases.len()
            invariant
                i <= databases@.len(),
                dbv == databases.deep_view().map_values(|d: Seq<char>| database_node(d)),
                dbv.len() == databases@.len(),
                ids_unique(self.db_nodes@),
                view_map(self.db_nodes@) == inserted(base, dbv.take(i as int)),
                nodes_view(children@) == dbv.take(i as int),
                self.connection_name == old(self).connection_name,
                self.loaded_children@ == Seq::<String>::empty(),
                self.loading_nodes@ == Seq::<String>::empty(),
                self.expanded_nodes@ == exp,
            decreases databases@.len() - i,
        {
            let node = database_node_of(&databases[i]);
            assert(node_view(node) == dbv[i as int]);
            let copy = clone_node(&node);
            store_node(&mut self.db_nodes, copy);
            let ghost before = children@;
            children.push(node);
            proof {
                assert(dbv.take(i + 1).drop_last() =~= dbv.take(i as int));
                assert(dbv.take(i + 1).last() == dbv[i as int]);
                assert(children@.drop_last() =~= before);
            }
            i += 1;
        }
        assert(dbv.take(databases@.len() as int) =~= dbv);
        let name: String = match &self.connection_name {
            Some(n) => n.clone(),
            None => "Current Connection".to_owned(),
        };
        let mut conn_id = "conn_active:".to_owned();
        push_str(&mut conn_id, name.as_str());
        let mut conn_node = DbNode::new(conn_id.clone(), name, DbNodeType::Connection).with_children_flag(
            true,
        );
        conn_node.children = children;
        conn_node.children_loaded = true;
        let ghost active = active_node(active_name(old(self).connection_name), databases.deep_view());
        assert(node_view(conn_node) == active);
        let item = db_node_to_tree_item(&conn_node);
        store_node(&mut self.db_nodes, conn_node);
        ids_insert(&mut self.loaded_children, conn_id);
        self.items = vec![item];
        proof {
            assert(id_set(Seq::<String>::empty()) =~= Set::<Seq<char>>::empty());
            assert(id_set(Seq::<String>::empty()).insert(active.id) =~= set![active.id]);
            assert(id_set(self.loading_nodes@) =~= Set::<Seq<char>>::empty());
        }
    }
}

} // verus!

verus! {

/// Icons of the explorer's items.
#[derive(Debug, Clone, Copy, PartialEq, Eq, Structural)]
pub enum NodeIcon {
    Building2,
    FolderOpen,
    Folder,
    LayoutDashboard,
    Eye,
    Settings,
    Dash,
    ArrowRight,
    File,
}

/// The icon for a node kind (none for an unknown node).
pub open spec fn node_icon(t: Option<DbNodeType>, expanded: bool) -> NodeIcon {
    let folder = if expanded {
        NodeIcon::FolderOpen
    } else {
        NodeIcon::Folder
    };
    match t {
        Some(DbNodeType::Connection) => NodeIcon::Building2,
        Some(DbNodeType::Database) | Some(DbNodeType::TablesFolder) | Some(
            DbNodeType::ViewsFolder,
        ) | Some(DbNodeType::FunctionsFolder) | Some(DbNodeType::ProceduresFolder) | Some(
            DbNodeType::TriggersFolder,
        ) | Some(DbNodeType::SequencesFolder) | Some(DbNodeType::ColumnsFolder) | Some(
            DbNodeType::IndexesFolder,
        ) => folder,
        Some(DbNodeType::Table) => NodeIcon::LayoutDashboard,
        Some(DbNodeType::View) => NodeIcon::Eye,
        Some(DbNodeType::Function) | Some(DbNodeType::Procedure) | Some(DbNodeType::Index) | Some(
            DbNodeType::Trigger,
        ) => NodeIcon::Settings,
        Some(DbNodeType::Column) => NodeIcon::Dash,
        Some(DbNodeType::Sequence) => NodeIcon::ArrowRight,
        None => NodeIcon::File,
    }
}

/// The node's kind, if the node is known.
pub open spec fn kind_of(m: Map<Seq<char>, DbNodeView>, id: Seq<char>) -> Option<DbNodeType> {
    if m.contains_key(id) {
        Some(m[id].node_type)
    } else {
        None
    }
}

/// The name of a node kind, as `Debug` writes it.
pub open spec fn kind_label(t: DbNodeType) -> Seq<char> {
    match t {
        DbNodeType::Connection => "Connection"@,
        DbNodeType::Database => "Database"@,
        DbNodeType::TablesFolder => "TablesFolder"@,
        DbNodeType::ViewsFolder => "ViewsFolder"@,
        DbNodeType::FunctionsFolder => "FunctionsFolder"@,
        DbNodeType::ProceduresFolder => "ProceduresFolder"@,
        DbNodeType::TriggersFolder => "TriggersFolder"@,
        DbNodeType::SequencesFolder => "SequencesFolder"@,
        DbNodeType::Table => "Table"@,
        DbNodeType::View => "View"@,
        DbNodeType::Function => "Function"@,
        DbNodeType::Procedure => "Procedure"@,
        DbNodeType::Column => "Column"@,
        DbNodeType::ColumnsFolder => "ColumnsFolder"@,
        DbNodeType::IndexesFolder => "IndexesFolder"@,
        DbNodeType::Index => "Index"@,
        DbNodeType::Trigger => "Trigger"@,
        DbNodeType::Sequence => "Sequence"@,
    }
}

/// The name of a node kind.
pub fn kind_label_of(t: DbNodeType) -> (r: &'static str)
    ensures
        r@ == kind_label(t),
{
    match t {
        DbNodeType::Connection => "Connection",
        DbNodeType::Database => "Database",
        DbNodeType::TablesFolder => "TablesFolder",
        DbNodeType::ViewsFolder => "ViewsFolder",
        DbNodeType::FunctionsFolder => "FunctionsFolder",
        DbNodeType::ProceduresFolder => "ProceduresFolder",
        DbNodeType::TriggersFolder => "TriggersFolder",
        DbNodeType::SequencesFolder => "SequencesFolder",
        DbNodeType::Table => "Table",
        DbNodeType::View => "View",
        DbNodeType::Function => "Function",
        DbNodeType::Procedure => "Procedure",
        DbNodeType::Column => "Column",
        DbNodeType::ColumnsFolder => "ColumnsFolder",
        DbNodeType::IndexesFolder => "IndexesFolder",
        DbNodeType::Index => "Index",
        DbNodeType::Trigger => "Trigger",
        DbNodeType::Sequence => "Sequence",
    }
}

/// The node holds a child with this id.
pub open spec fn holds_child(n: DbNode, id: Seq<char>) -> bool {
    exists|k: int| 0 <= k < n.children@.len() && (#[trigger] n.children@[k]).id@ == id
}

/// Position of the first node that holds a child with this id.
pub open spec fn first_parent(nodes: Seq<DbNode>, id: Seq<char>) -> Option<int>
    decreases nodes.len(),
{
    if nodes.len() == 0 {
        None
    } else {
        match first_parent(nodes.drop_last(), id) {
            Some(i) => Some(i),
            None => if holds_child(nodes.last(), id) {
                Some(nodes.len() - 1)
            } else {
                None
            },
        }
    }
}

/// The database above a node: walking from the node to the node that holds
/// it (the first such in store order), up to `steps` times, the name of the
/// first database node met.
pub open spec fn database_above(nodes: Seq<DbNode>, id: Seq<char>, steps: nat) -> Option<Seq<char>>
    decreases steps,
{
    if !has_node(nodes, id) {
        None
    } else if node_with(nodes, id).node_type == DbNodeType::Database {
        Some(node_with(nodes, id).name@)
    } else if steps == 0 {
        None
    } else {
        match first_parent(nodes, id) {
            Some(p) => database_above(nodes, nodes[p].id@, (steps - 1) as nat),
            None => None,
        }
    }
}

fn holds_child_with(n: &DbNode, id: &String) -> (r: bool)
    ensures
        r == holds_child(*n, id@),
{
    let mut k: usize = 0;
    while k < n.children.len()
        invariant
            k <= n.children@.len(),
            forall|q: int| 0 <= q < k ==> (#[trigger] n.children@[q]).id@ != id@,
        decreases n.children@.len() - k,
    {
        if n.children[k].id == *id {
            assert(n.children@[k as int].id@ == id@);
            return true;
        }
        k += 1;
    }
    false
}

proof fn lemma_first_parent_prefix(nodes: Seq<DbNode>, id: Seq<char>, n: int)
    requires
        0 <= n <= nodes.len(),
        first_parent(nodes.take(n), id) is Some,
    ensures
        first_parent(nodes, id) == first_parent(nodes.take(n), id),
    decreases nodes.len(),
{
    if n < nodes.len() {
        assert(nodes.drop_last().take(n) =~= nodes.take(n));
        lemma_first_parent_prefix(nodes.drop_last(), id, n);
    } else {
        assert(nodes.take(n) =~= nodes);
    }
}

fn find_parent(nodes: &Vec<DbNode>, id: &String) -> (r: Option<usize>)
    ensures
        r matches Some(i) ==> first_parent(nodes@, id@) == Some(i as int) && i < nodes@.len(),
        r is None ==> first_parent(nodes@, id@) is None,
{
    let mut i: usize = 0;
    while i < nodes.len()
        invariant
            i <= nodes@.len(),
            first_parent(nodes@.take(i as int), id@) is None,
        decreases nodes@.len() - i,
    {
        assert(nodes@.take(i + 1).drop_last() =~= nodes@.take(i as int));
        if holds_child_with(&nodes[i], id) {
            proof {
                assert(nodes@.take(i + 1).last() == nodes@[i as int]);
                lemma_first_parent_prefix(nodes@, id@, i + 1);
            }
            return Some(i);
        }
        i += 1;
    }
    assert(nodes@.take(nodes@.len() as int) =~= nodes@);
    None
}

impl DbTreeView {
    /// The icon of a node.
    pub fn get_icon_for_node(&self, node_id: &String, is_expanded: bool) -> (r: NodeIcon)
        requires
            self.wf(),
        ensures
            r == node_icon(kind_of(self.nodes(), node_id@), is_expanded),
    {
        let folder = if is_expanded {
            NodeIcon::FolderOpen
        } else {
            NodeIcon::Folder
        };
        match self.node(node_id) {
            Some(n) => match n.node_type {
                DbNodeType::Connection => NodeIcon::Building2,
                DbNodeType::Database | DbNodeType::TablesFolder | DbNodeType::ViewsFolder
                | DbNodeType::FunctionsFolder | DbNodeType::ProceduresFolder
                | DbNodeType::TriggersFolder | DbNodeType::SequencesFolder
                | DbNodeType::ColumnsFolder | DbNodeType::IndexesFolder => folder,
                DbNodeType::Table => NodeIcon::LayoutDashboard,
                DbNodeType::View => NodeIcon::Eye,
                DbNodeType::Function | DbNodeType::Procedure | DbNodeType::Index
                | DbNodeType::Trigger => NodeIcon::Settings,
                DbNodeType::Column => NodeIcon::Dash,
                DbNodeType::Sequence => NodeIcon::ArrowRight,
            },
            None => NodeIcon::File,
        }
    }

    /// The name of the database above a node, if there is one.
    pub fn find_parent_database(&self, node_id: &String) -> (r: Option<String>)
        requires
            self.wf(),
        ensures
            r.deep_view() == database_above(self.db_nodes@, node_id@, self.db_nodes@.len() as nat),
    {
        let mut current = node_id.clone();
        let mut steps: usize = self.db_nodes.len();
        let ghost target = database_above(self.db_nodes@, node_id@, self.db_nodes@.len() as nat);
        loop
            invariant
                self.wf(),
                steps <= self.db_nodes@.len(),
                database_above(self.db_nodes@, current@, steps as nat) == target,
                target == database_above(self.db_nodes@, node_id@, self.db_nodes@.len() as nat),
            decreases steps,
        {
            match find_node(&self.db_nodes, &current) {
                None => {
                    return None;
                },
                Some(i) => {
                    if self.db_nodes[i].node_type == DbNodeType::Database {
                        return Some(self.db_nodes[i].name.clone());
                    }
                    if steps == 0 {
                        return None;
                    }
                    match find_parent(&self.db_nodes, &current) {
                        Some(p) => {
                            current = self.db_nodes[p].id.clone();
                            steps = steps - 1;
                        },
                        None => {
                            return None;
                        },
                    }
                },
            }
        }
    }

    /// What a double click on an item asks for: connecting for a
    /// connection, the data of a table or view under a database; nothing
    /// for other items.
    pub fn handle_item_double_click(&self, item_id: &String) -> (r: Option<DbTreeViewEvent>)
        requires
            self.wf(),
        ensures
            !self.nodes().contains_key(item_id@) ==> r is None,
            self.nodes().contains_key(item_id@) ==> ({
                let n = self.nodes()[item_id@];
                let db = database_above(self.db_nodes@, item_id@, self.db_nodes@.len() as nat);
                match n.node_type {
                    DbNodeType::Connection => (r matches Some(
                        DbTreeViewEvent::ConnectToConnection { id, name },
                    ) && id@ == n.id && name@ == n.name),
                    DbNodeType::Table => match db {
                        Some(d) => (r matches Some(DbTreeViewEvent::OpenTableData { database, table })
                            && database@ == d && table@ == n.name),
                        None => r is None,
                    },
                    DbNodeType::View => match db {
                        Some(d) => (r matches Some(DbTreeViewEvent::OpenViewData { database, view })
                            && database@ == d && view@ == n.name),
                        None => r is None,
                    },
                    _ => r is None,
                }
            }),
    {
        match self.node(item_id) {
            None => None,
            Some(n) => match n.node_type {
                DbNodeType::Connection => Some(
                    DbTreeViewEvent::ConnectToConnection { id: n.id.clone(), name: n.name.clone() },
                ),
                DbNodeType::Table => match self.find_parent_database(&n.id) {
                    Some(database) => Some(
                        DbTreeViewEvent::OpenTableData { database, table: n.name.clone() },
                    ),
                    None => None,
                },
                DbNodeType::View => match self.find_parent_database(&n.id) {
                    Some(database) => Some(
                        DbTreeViewEvent::OpenViewData { database, view: n.name.clone() },
                    ),
                    None => None,
                },
                _ => None,
            },
        }
    }
}

} // verus!

verus! {

/// What a context menu entry does.
#[derive(Debug)]
pub enum MenuAction {
    /// Open a new query on the database.
    NewQuery(String),
    /// Make the database the current one.
    SetCurrentDatabase(String),
    /// Open the table's structure.
    EditTable { database: String, table: String },
    /// Close the connection.
    Disconnect,
    /// Load the node's children again.
    LoadChildren(String),
    /// Reload the node.
    RefreshNode(String),
}

/// An entry of a node's context menu.
#[derive(Debug)]
pub enum MenuEntry {
    Label(String),
    Separator,
    /// An entry with its text and, if it does something, its action.
    Item(String, Option<MenuAction>),
}

/// The entry is a text-only label.
pub open spec fn is_label(e: MenuEntry, text: Seq<char>) -> bool {
    e matches MenuEntry::Label(t) && t@ == text
}

/// The entry has this text and no action.
pub open spec fn is_inert(e: MenuEntry, text: Seq<char>) -> bool {
    e matches MenuEntry::Item(t, a) && t@ == text && a is None
}

/// The entry has this text and action.
pub open spec fn is_action(e: MenuEntry, text: Seq<char>, act: spec_fn(MenuAction) -> bool) -> bool {
    e matches MenuEntry::Item(t, Some(a)) && t@ == text && act(a)
}

/// The entries that follow the kind label for a node: its kind's own
/// entries, then `Load Children` when it can have children, then
/// `Refresh Node`.
pub open spec fn menu_shows(entries: Seq<MenuEntry>, n: DbNodeView) -> bool {
    let tail_start: int = match n.node_type {
        DbNodeType::Database => 6,
        DbNodeType::Table => 6,
        DbNodeType::Connection => 4,
        _ => 2,
    };
    &&& is_label(entries[0], "Type: "@ + kind_label(n.node_type))
    &&& entries[1] is Separator
    &&& match n.node_type {
        DbNodeType::Database => {
            &&& is_action(entries[2], "New Query"@, |a: MenuAction| a matches MenuAction::NewQuery(d) && d@ == n.name)
            &&& entries[3] is Separator
            &&& is_action(entries[4], "Set as Current Database"@, |a: MenuAction| a matches MenuAction::SetCurrentDatabase(d) && d@ == n.name)
            &&& entries[5] is Separator
        },
        DbNodeType::Table => {
            &&& is_inert(entries[2], "View Table Data"@)
            &&& is_inert(entries[3], "Export Table"@)
            &&& is_action(entries[4], "Edit Table"@, |a: MenuAction| a matches MenuAction::EditTable { database, table }
                && database@ == match n.parent_context {
                    Some(p) => p,
                    None => "unknown"@,
                } && table@ == n.name)
            &&& entries[5] is Separator
        },
        DbNodeType::Connection => {
            &&& is_action(entries[2], "Disconnect"@, |a: MenuAction| a is Disconnect)
            &&& entries[3] is Separator
        },
        _ => true,
    }
    &&& if n.has_children {
        &&& entries.len() == tail_start + 2
        &&& is_action(entries[tail_start], "Load Children"@, |a: MenuAction| a matches MenuAction::LoadChildren(i) && i@ == n.id)
        &&& is_action(entries[tail_start + 1], "Refresh Node"@, |a: MenuAction| a matches MenuAction::RefreshNode(i) && i@ == n.id)
    } else {
        &&& entries.len() == tail_start + 1
        &&& is_action(entries[tail_start], "Refresh Node"@, |a: MenuAction| a matches MenuAction::RefreshNode(i) && i@ == n.id)
    }
}

fn item(text: &str, action: Option<MenuAction>) -> (r: MenuEntry)
    ensures
        r == MenuEntry::Item(r->Item_0, action),
        r->Item_0@ == text@,
{
    MenuEntry::Item(text.to_owned(), action)
}

impl DbTreeView {
    /// The context menu of a node; empty for an unknown node.
    pub fn context_menu(&self, node_id: &String) -> (r: Vec<MenuEntry>)
        requires
            self.wf(),
        ensures
            !self.nodes().contains_key(node_id@) ==> r@.len() == 0,
            self.nodes().contains_key(node_id@) ==> menu_shows(r@, self.nodes()[node_id@]),
    {
        let n = match self.node(node_id) {
            Some(n) => n,
            None => {
                return Vec::new();
            },
        };
        let mut label = "Type: ".to_owned();
        push_str(&mut label, kind_label_of(n.node_type));
        let mut menu: Vec<MenuEntry> = vec![MenuEntry::Label(label), MenuEntry::Separator];
        match n.node_type {
            DbNodeType::Database => {
                menu.push(item("New Query", Some(MenuAction::NewQuery(n.name.clone()))));
                menu.push(MenuEntry::Separator);
                menu.push(
                    item("Set as Current Database", Some(MenuAction::SetCurrentDatabase(n.name.clone()))),
                );
                menu.push(MenuEntry::Separator);
            },
            DbNodeType::Table => {
                let database = match &n.parent_context {
                    Some(p) => p.clone(),
                    None => "unknown".to_owned(),
                };
                menu.push(item("View Table Data", None));
                menu.push(item("Export Table", None));
                menu.push(
                    item(
                        "Edit Table",
                        Some(MenuAction::EditTable { database, table: n.name.clone() }),
                    ),
                );
                menu.push(MenuEntry::Separator);
            },
            DbNodeType::Connection => {
                menu.push(item("Disconnect", Some(MenuAction::Disconnect)));
                menu.push(MenuEntry::Separator);
            },
            _ => {},
        }
        if n.has_children {
            menu.push(item("Load Children", Some(MenuAction::LoadChildren(n.id.clone()))));
        }
        menu.push(item("Refresh Node", Some(MenuAction::RefreshNode(n.id.clone()))));
        menu
    }
}

} // verus!

verus! {

proof fn lemma_with_tree_grows(m: Map<Seq<char>, DbNodeView>, n: DbNodeView)
    ensures
        m.dom().subset_of(with_tree(m, n).dom()),
        with_tree(m, n).contains_key(n.id),
    decreases n, 1nat,
{
    lemma_with_trees_grows(m.insert(n.id, n), n.children);
}

proof fn lemma_with_trees_grows(m: Map<Seq<char>, DbNodeView>, s: Seq<DbNodeView>)
    ensures
        m.dom().subset_of(with_trees(m, s).dom()),
        forall|i: int| 0 <= i < s.len() ==> with_trees(m, s).contains_key(#[trigger] s[i].id),
    decreases s, 0nat,
{
    if s.len() > 0 {
        let m1 = with_tree(m, s[0]);
        lemma_with_tree_grows(m, s[0]);
        lemma_with_trees_grows(m1, s.drop_first());
        assert forall|i: int| 0 <= i < s.len() implies with_trees(m, s).contains_key(
            #[trigger] s[i].id,
        ) by {
            if i > 0 {
                assert(s.drop_first()[i - 1] == s[i]);
            }
        }
    }
}

/// Loading a node's children forgets no node, and stores each child.
pub proof fn law_loading_children_keeps_nodes(
    m: Map<Seq<char>, DbNodeView>,
    id: Seq<char>,
    children: Seq<DbNodeView>,
)
    ensures
        m.dom().subset_of(with_children(m, id, children).dom()),
        forall|i: int|
            0 <= i < children.len() ==> with_children(m, id, children).contains_key(
                #[trigger] children[i].id,
            ),
{
    let p = if m.contains_key(id) {
        m.insert(id, DbNodeView { children, children_loaded: true, ..m[id] })
    } else {
        m
    };
    lemma_with_trees_grows(p, children);
}

/// The database above a database node is that database.
pub proof fn law_database_is_its_own_database(nodes: Seq<DbNode>, id: Seq<char>, steps: nat)
    requires
        has_node(nodes, id),
        node_with(nodes, id).node_type == DbNodeType::Database,
    ensures
        database_above(nodes, id, steps) == Some(node_with(nodes, id).name@),
{
}

} // verus!
