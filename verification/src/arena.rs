//! The arena of `indextree` that holds a file tree, and the `indexmap` set
//! that lists its visible nodes, seen through their contents.
use crate::tree_node::TreeNode;
use indexmap::IndexSet;
use indextree::{Arena, NodeId};
use vstd::prelude::*;

verus! {

#[verifier::external_type_specification]
#[verifier::external_body]
#[verifier::reject_recursive_types(T)]
pub struct ExArena<T>(Arena<T>);

#[verifier::external_type_specification]
#[verifier::external_body]
pub struct ExNodeId(NodeId);

#[verifier::external_type_specification]
#[verifier::external_body]
#[verifier::reject_recursive_types(T)]
#[verifier::reject_recursive_types(S)]
pub struct ExIndexSet<T, S>(IndexSet<T, S>);

/// What an arena of tree nodes holds: for each live node id, the node's
/// data, its parent and its children in order.
pub uninterp spec fn arena_nodes(a: Arena<TreeNode>) -> Map<
    NodeId,
    (TreeNode, Option<NodeId>, Seq<NodeId>),
>;

/// What a set of node ids holds, in insertion order.
pub uninterp spec fn id_set_items(s: IndexSet<NodeId>) -> Seq<NodeId>;

/// The links of an arena: each live node's parent and children.
pub open spec fn arena_links(m: Map<NodeId, (TreeNode, Option<NodeId>, Seq<NodeId>)>) -> Map<
    NodeId,
    (Option<NodeId>, Seq<NodeId>),
> {
    m.map_values(|e: (TreeNode, Option<NodeId>, Seq<NodeId>)| (e.1, e.2))
}

/// `rank` strictly grows from each node to its children and stays under
/// `bound`, so no chain of parents loops.
pub open spec fn links_ranked(
    l: Map<NodeId, (Option<NodeId>, Seq<NodeId>)>,
    rank: Map<NodeId, nat>,
    bound: nat,
) -> bool {
    &&& forall|x: NodeId| #[trigger] l.contains_key(x) ==> rank.contains_key(x) && rank[x] < bound
    &&& forall|x: NodeId|
        #[trigger] l.contains_key(x) && l[x].0 is Some ==> {
            let p = l[x].0->0;
            l.contains_key(p) && rank[p] < rank[x] && l[p].1.contains(x)
        }
    &&& forall|x: NodeId, j: int|
        #![trigger l[x].1[j]]
        l.contains_key(x) && 0 <= j < l[x].1.len() ==> {
            let c = l[x].1[j];
            l.contains_key(c) && l[c].0 == Some(x)
        }
    &&& forall|x: NodeId| #[trigger] l.contains_key(x) ==> l[x].1.no_duplicates()
}

/// The parent links of `l` never loop.
pub open spec fn links_acyclic(l: Map<NodeId, (Option<NodeId>, Seq<NodeId>)>) -> bool {
    exists|rb: (Map<NodeId, nat>, nat)| links_ranked(l, rb.0, rb.1)
}

/// A fresh, empty arena (`Arena::new`).
#[verifier::external_body]
pub(crate) fn arena_new() -> (r: Arena<TreeNode>)
    ensures
        arena_nodes(r).dom() == Set::<NodeId>::empty(),
{
    Arena::new()
}

/// Adds a node with no parent (`Arena::new_node`); its id was not live.
#[verifier::external_body]
pub(crate) fn arena_new_node(a: &mut Arena<TreeNode>, data: TreeNode) -> (id: NodeId)
    ensures
        !arena_nodes(*old(a)).contains_key(id),
        arena_nodes(*final(a)) == arena_nodes(*old(a)).insert(id, (data, None, Seq::empty())),
{
    a.new_node(data)
}

/// Adds a node as the last child of `parent` (`NodeId::append_value`),
/// which panics when `parent` is not live.
#[verifier::external_body]
pub(crate) fn arena_append_value(a: &mut Arena<TreeNode>, parent: NodeId, data: TreeNode) -> (id: NodeId)
    requires
        arena_nodes(*old(a)).contains_key(parent),
    ensures
        !arena_nodes(*old(a)).contains_key(id),
        arena_nodes(*final(a)) == ({
            let m = arena_nodes(*old(a));
            m.insert(id, (data, Some(parent), Seq::empty())).insert(
                parent,
                (m[parent].0, m[parent].1, m[parent].2.push(id)),
            )
        }),
{
    parent.append_value(data, a)
}

/// The children of a live node in order (`NodeId::children`).
#[verifier::external_body]
pub(crate) fn arena_children(a: &Arena<TreeNode>, id: NodeId) -> (r: Vec<NodeId>)
    requires
        arena_nodes(*a).contains_key(id),
    ensures
        r@ == arena_nodes(*a)[id].2,
{
    id.children(a).collect()
}

/// A live node and its ancestors, nearest first (`NodeId::ancestors`).
#[verifier::external_body]
pub(crate) fn arena_ancestors(a: &Arena<TreeNode>, id: NodeId) -> (r: Vec<NodeId>)
    requires
        arena_nodes(*a).contains_key(id),
        links_acyclic(arena_links(arena_nodes(*a))),
    ensures
        r.len() >= 1,
        r[0] == id,
        forall|i: int| 0 <= i < r.len() ==> arena_nodes(*a).contains_key(#[trigger] r[i]),
        forall|i: int|
            0 <= i < r.len() - 1 ==> arena_nodes(*a)[#[trigger] r[i]].1 == Some(r[i + 1]),
        arena_nodes(*a)[r[r.len() - 1]].1 is None,
{
    id.ancestors(a).collect()
}

/// The data of a node, when it is live (`Arena::get_data`).
#[verifier::external_body]
pub(crate) fn arena_get_data(a: &Arena<TreeNode>, id: NodeId) -> (r: Option<&TreeNode>)
    ensures
        r is Some == arena_nodes(*a).contains_key(id),
        r matches Some(d) ==> *d == arena_nodes(*a)[id].0,
{
    a.get_data(id)
}

/// The data of a node, to change in place, when it is live
/// (`Arena::get_data_mut`).
#[verifier::external_body]
pub(crate) fn arena_get_data_mut(a: &mut Arena<TreeNode>, id: NodeId) -> (r: Option<&mut TreeNode>)
    ensures
        r is Some == arena_nodes(*old(a)).contains_key(id),
        r matches Some(d) ==> *d == arena_nodes(*old(a))[id].0 && arena_nodes(*final(a))
            == arena_nodes(*old(a)).insert(
            id,
            (*final(d), arena_nodes(*old(a))[id].1, arena_nodes(*old(a))[id].2),
        ),
        r is None ==> arena_nodes(*final(a)) == arena_nodes(*old(a)),
{
    a.get_data_mut(id)
}

/// The ids of all live nodes, each once (`Arena::iter_node_ids`); they
/// come in storage order, which is left unsaid.
#[verifier::external_body]
pub(crate) fn arena_node_ids(a: &Arena<TreeNode>) -> (r: Vec<NodeId>)
    ensures
        r@.no_duplicates(),
        forall|i: int| 0 <= i < r.len() ==> arena_nodes(*a).contains_key(#[trigger] r[i]),
        forall|x: NodeId| arena_nodes(*a).contains_key(x) ==> r@.contains(x),
{
    a.iter_node_ids().collect()
}

/// Whether two node ids are the same (`NodeId`'s `==`).
#[verifier::external_body]
pub(crate) fn node_id_eq(x: &NodeId, y: &NodeId) -> (r: bool)
    ensures
        r == (*x == *y),
{
    *x == *y
}

/// An empty set of node ids (`IndexSet::new`).
#[verifier::external_body]
pub(crate) fn id_set_new() -> (r: IndexSet<NodeId>)
    ensures
        id_set_items(r) == Seq::<NodeId>::empty(),
{
    IndexSet::new()
}

/// Adds an id at the end unless it is already there (`IndexSet::insert`);
/// says whether it was added.
#[verifier::external_body]
pub(crate) fn id_set_insert(s: &mut IndexSet<NodeId>, id: NodeId) -> (added: bool)
    ensures
        added == !id_set_items(*old(s)).contains(id),
        id_set_items(*final(s)) == (if added {
            id_set_items(*old(s)).push(id)
        } else {
            id_set_items(*old(s))
        }),
{
    s.insert(id)
}

/// The number of ids in the set (`IndexSet::len`).
#[verifier::external_body]
pub(crate) fn id_set_len(s: &IndexSet<NodeId>) -> (r: usize)
    ensures
        r == id_set_items(*s).len(),
{
    s.len()
}

/// The id at a position, if there is one (`IndexSet::get_index`).
#[verifier::external_body]
pub(crate) fn id_set_get_index(s: &IndexSet<NodeId>, i: usize) -> (r: Option<NodeId>)
    ensures
        r == (if i < id_set_items(*s).len() {
            Some(id_set_items(*s)[i as int])
        } else {
            None
        }),
{
    s.get_index(i).copied()
}

/// The position of an id, if it is in the set (`IndexSet::get_index_of`).
#[verifier::external_body]
pub(crate) fn id_set_get_index_of(s: &IndexSet<NodeId>, id: &NodeId) -> (r: Option<usize>)
    ensures
        r matches Some(i) ==> i < id_set_items(*s).len() && id_set_items(*s)[i as int] == *id,
        r is None ==> !id_set_items(*s).contains(*id),
{
    s.get_index_of(id)
}


/// The id at a position (`IndexSet`'s indexing, which panics past the end).
#[verifier::external_body]
pub(crate) fn id_set_at(s: &IndexSet<NodeId>, i: usize) -> (r: NodeId)
    requires
        i < id_set_items(*s).len(),
    ensures
        r == id_set_items(*s)[i as int],
{
    s[i]
}

} // verus!
