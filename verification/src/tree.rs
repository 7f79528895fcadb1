//! The file tree of a bucket: built from its object keys, with the list of
//! the nodes that open folders make visible.
use crate::arena::{
    arena_children, arena_get_data, arena_links, arena_nodes, id_set_insert, id_set_items,
    id_set_new, links_acyclic, links_ranked,
};
use crate::tree_node::{NodeType, Open, TreeNode};
use indexmap::IndexSet;
use indextree::{Arena, NodeId};
use vstd::prelude::*;

verus! {

/// The contents of a tree arena: node data, parent and children per id.
pub type NodeMap = Map<NodeId, (TreeNode, Option<NodeId>, Seq<NodeId>)>;

/// A rank and bound that show the parent links of `m` do not loop.
pub open spec fn tree_rank(m: NodeMap) -> (Map<NodeId, nat>, nat) {
    choose|rb: (Map<NodeId, nat>, nat)| links_ranked(arena_links(m), rb.0, rb.1)
}

/// The nodes shown for the subtree at `id`: the node, then, when it is an
/// open folder, the nodes shown for each of its children in order.
pub open spec fn visible_from(m: NodeMap, rank: Map<NodeId, nat>, bound: nat, id: NodeId) -> Seq<
    NodeId,
>
    decreases bound - rank[id], 1nat, 0nat,
{
    if m[id].0.is_open_dir() {
        seq![id] + visible_seq(m, rank, bound, rank[id], m[id].2)
    } else {
        seq![id]
    }
}

/// The nodes shown for the subtrees at `ids`, one after the other.
pub open spec fn visible_seq(
    m: NodeMap,
    rank: Map<NodeId, nat>,
    bound: nat,
    lo: nat,
    ids: Seq<NodeId>,
) -> Seq<NodeId>
    decreases bound - lo, 0nat, ids.len(),
{
    if ids.len() == 0 {
        Seq::empty()
    } else if lo < rank[ids.last()] && rank[ids.last()] < bound {
        visible_seq(m, rank, bound, lo, ids.drop_last()) + visible_from(m, rank, bound, ids.last())
    } else {
        Seq::empty()
    }
}

/// The nodes a tree shows below its root, in display order.
pub open spec fn visible_nodes(m: NodeMap, root: NodeId) -> Seq<NodeId> {
    let rb = tree_rank(m);
    visible_seq(m, rb.0, rb.1, rb.0[root], m[root].2)
}

/// `x` is `c` or lies below it.
pub open spec fn is_desc(m: NodeMap, rank: Map<NodeId, nat>, x: NodeId, c: NodeId) -> bool
    decreases rank[x],
{
    x == c || (m.contains_key(x) && m[x].1 is Some && rank[m[x].1->0] < rank[x] && is_desc(
        m,
        rank,
        m[x].1->0,
        c,
    ))
}

pub(crate) proof fn lemma_ranked_facts(m: NodeMap, rank: Map<NodeId, nat>, bound: nat)
    requires
        links_ranked(arena_links(m), rank, bound),
    ensures
        forall|x: NodeId| #[trigger]
            m.contains_key(x) ==> rank.contains_key(x) && rank[x] < bound && m[x].2.no_duplicates(),
        forall|x: NodeId|
            #[trigger] m.contains_key(x) && m[x].1 is Some ==> {
                let p = m[x].1->0;
                m.contains_key(p) && rank[p] < rank[x] && m[p].2.contains(x)
            },
        forall|x: NodeId, j: int|
            #![trigger m[x].2[j]]
            m.contains_key(x) && 0 <= j < m[x].2.len() ==> {
                let c = m[x].2[j];
                m.contains_key(c) && m[c].1 == Some(x) && rank[c] > rank[x]
            },
{
    let l = arena_links(m);
    assert forall|x: NodeId| #[trigger] m.contains_key(x) implies rank.contains_key(x) && rank[x]
        < bound && m[x].2.no_duplicates() by {
        assert(l.contains_key(x));
    }
    assert forall|x: NodeId| #[trigger] m.contains_key(x) && m[x].1 is Some implies {
        let p = m[x].1->0;
        m.contains_key(p) && rank[p] < rank[x] && m[p].2.contains(x)
    } by {
        assert(l.contains_key(x));
        assert(l[x].0 == m[x].1);
        assert(l.contains_key(m[x].1->0));
    }
    assert forall|x: NodeId, j: int| #![trigger m[x].2[j]] m.contains_key(x) && 0 <= j < m[x].2.len() implies {
        let c = m[x].2[j];
        m.contains_key(c) && m[c].1 == Some(x) && rank[c] > rank[x]
    } by {
        assert(l.contains_key(x));
        assert(l[x].1[j] == m[x].2[j]);
        let c = m[x].2[j];
        assert(l.contains_key(c));
        assert(l[c].0 is Some);
    }
}

proof fn lemma_desc_rank(m: NodeMap, rank: Map<NodeId, nat>, x: NodeId, c: NodeId)
    requires
        is_desc(m, rank, x, c),
    ensures
        rank[x] >= rank[c],
    decreases rank[x],
{
    if x != c {
        lemma_desc_rank(m, rank, m[x].1->0, c);
    }
}

proof fn lemma_desc_through_parent(
    m: NodeMap,
    rank: Map<NodeId, nat>,
    x: NodeId,
    c: NodeId,
    p: NodeId,
)
    requires
        is_desc(m, rank, x, c),
        m.contains_key(c),
        m[c].1 == Some(p),
        rank[p] < rank[c],
    ensures
        is_desc(m, rank, x, p),
    decreases rank[x],
{
    if x == c {
        assert(is_desc(m, rank, p, p));
    } else {
        lemma_desc_through_parent(m, rank, m[x].1->0, c, p);
    }
}

proof fn lemma_siblings_disjoint(
    m: NodeMap,
    rank: Map<NodeId, nat>,
    bound: nat,
    x: NodeId,
    c1: NodeId,
    c2: NodeId,
)
    requires
        links_ranked(arena_links(m), rank, bound),
        m.contains_key(c1),
        m.contains_key(c2),
        c1 != c2,
        m[c1].1 is Some,
        m[c1].1 == m[c2].1,
    ensures
        !(is_desc(m, rank, x, c1) && is_desc(m, rank, x, c2)),
    decreases rank[x],
{
    lemma_ranked_facts(m, rank, bound);
    let p = m[c1].1->0;
    if !(is_desc(m, rank, x, c1) && is_desc(m, rank, x, c2)) {
    } else if x == c1 {
        assert(is_desc(m, rank, p, c2));
        lemma_desc_rank(m, rank, p, c2);
    } else if x == c2 {
        assert(is_desc(m, rank, p, c1));
        lemma_desc_rank(m, rank, p, c1);
    } else {
        lemma_siblings_disjoint(m, rank, bound, m[x].1->0, c1, c2);
    }
}

/// Each node shown for the subtree at `id` lies in that subtree, is live,
/// and is shown once.
proof fn lemma_visible_from(m: NodeMap, rank: Map<NodeId, nat>, bound: nat, id: NodeId)
    requires
        links_ranked(arena_links(m), rank, bound),
        m.contains_key(id),
    ensures
        visible_from(m, rank, bound, id).no_duplicates(),
        visible_from(m, rank, bound, id).len() >= 1,
        visible_from(m, rank, bound, id)[0] == id,
        forall|y: NodeId| #[trigger]
            visible_from(m, rank, bound, id).contains(y) ==> m.contains_key(y) && is_desc(
                m,
                rank,
                y,
                id,
            ),
    decreases bound - rank[id], 1nat, 0nat,
{
    lemma_ranked_facts(m, rank, bound);
    let v = visible_from(m, rank, bound, id);
    if m[id].0.is_open_dir() {
        let kids = m[id].2;
        lemma_visible_seq(m, rank, bound, id, kids);
        let s = visible_seq(m, rank, bound, rank[id], kids);
        assert(v == seq![id] + s);
        assert forall|y: NodeId| #[trigger] v.contains(y) implies m.contains_key(y) && is_desc(
            m,
            rank,
            y,
            id,
        ) by {
            if y != id {
                assert(s.contains(y)) by {
                    let k = choose|k: int| 0 <= k < v.len() && v[k] == y;
                    assert(s[k - 1] == y);
                }
                let jj = choose|jj: int| 0 <= jj < kids.len() && is_desc(m, rank, y, #[trigger] kids[jj]);
                assert(m[kids[jj]].1 == Some(id));
                lemma_desc_through_parent(m, rank, y, kids[jj], id);
            }
        }
        assert forall|i: int, j: int| 0 <= i < j < v.len() implies v[i] != v[j] by {
            if i == 0 {
                assert(s.contains(v[j])) by {
                    assert(s[j - 1] == v[j]);
                }
                if v[j] == id {
                    let jj = choose|jj: int| 0 <= jj < kids.len() && is_desc(m, rank, id, #[trigger] kids[jj]);
                    lemma_desc_rank(m, rank, id, kids[jj]);
                }
            } else {
                assert(v[i] == s[i - 1] && v[j] == s[j - 1]);
            }
        }
    }
}

/// The nodes shown for a run of sibling subtrees are live, each lies
/// under one of the siblings, and none is shown twice.
proof fn lemma_visible_seq(
    m: NodeMap,
    rank: Map<NodeId, nat>,
    bound: nat,
    p: NodeId,
    ids: Seq<NodeId>,
)
    requires
        links_ranked(arena_links(m), rank, bound),
        m.contains_key(p),
        ids.no_duplicates(),
        forall|k: int| 0 <= k < ids.len() ==> m[p].2.contains(#[trigger] ids[k]),
    ensures
        visible_seq(m, rank, bound, rank[p], ids).no_duplicates(),
        forall|y: NodeId| #[trigger]
            visible_seq(m, rank, bound, rank[p], ids).contains(y) ==> m.contains_key(y) && exists|
                k: int,
            |
                0 <= k < ids.len() && is_desc(m, rank, y, #[trigger] ids[k]),
    decreases bound - rank[p], 0nat, ids.len(),
{
    lemma_ranked_facts(m, rank, bound);
    if ids.len() > 0 {
        let last = ids.last();
        let init = ids.drop_last();
        assert(m[p].2.contains(ids[ids.len() - 1]));
        let jl = choose|j: int| 0 <= j < m[p].2.len() && m[p].2[j] == last;
        assert(m.contains_key(last) && m[last].1 == Some(p) && rank[last] > rank[p]);
        assert(rank[last] < bound);
        assert forall|k: int| 0 <= k < init.len() implies m[p].2.contains(#[trigger] init[k]) by {
            assert(init[k] == ids[k]);
        }
        lemma_visible_seq(m, rank, bound, p, init);
        lemma_visible_from(m, rank, bound, last);
        let a = visible_seq(m, rank, bound, rank[p], init);
        let b = visible_from(m, rank, bound, last);
        let v = visible_seq(m, rank, bound, rank[p], ids);
        assert(v == a + b);
        assert forall|y: NodeId| #[trigger] v.contains(y) implies m.contains_key(y) && exists|k: int|
            0 <= k < ids.len() && is_desc(m, rank, y, #[trigger] ids[k]) by {
            let i = choose|i: int| 0 <= i < v.len() && v[i] == y;
            if i < a.len() {
                assert(a.contains(y));
                let k = choose|k: int| 0 <= k < init.len() && is_desc(m, rank, y, #[trigger] init[k]);
                assert(ids[k] == init[k]);
            } else {
                assert(b[i - a.len()] == y);
                assert(b.contains(y));
                assert(ids[ids.len() - 1] == last);
            }
        }
        assert forall|i: int, j: int| 0 <= i < j < v.len() implies v[i] != v[j] by {
            if j < a.len() {
                assert(v[i] == a[i] && v[j] == a[j]);
            } else if i >= a.len() {
                assert(v[i] == b[i - a.len()] && v[j] == b[j - a.len()]);
            } else {
                let y = v[i];
                assert(a[i] == y);
                assert(a.contains(y));
                if v[j] == y {
                    assert(b[j - a.len()] == y);
                    assert(b.contains(y));
                    let k = choose|k: int| 0 <= k < init.len() && is_desc(m, rank, y, #[trigger] init[k]);
                    let c1 = init[k];
                    assert(c1 != last) by {
                        assert(ids[k] == c1);
                        assert(ids[ids.len() - 1] == last);
                    }
                    assert(m[p].2.contains(c1));
                    let jc = choose|jc: int| 0 <= jc < m[p].2.len() && m[p].2[jc] == c1;
                    assert(m.contains_key(c1) && m[c1].1 == Some(p));
                    lemma_siblings_disjoint(m, rank, bound, y, c1, last);
                }
            }
        }
    }
}


pub proof fn lemma_rank_chosen(m: NodeMap)
    requires
        links_acyclic(arena_links(m)),
    ensures
        links_ranked(arena_links(m), tree_rank(m).0, tree_rank(m).1),
{
}

/// The nodes shown for the subtree at `curr_node`, in display order.
fn get_open_dirs_and_files(arena: &Arena<TreeNode>, curr_node: NodeId) -> (r: Vec<NodeId>)
    requires
        arena_nodes(*arena).contains_key(curr_node),
        links_acyclic(arena_links(arena_nodes(*arena))),
    ensures
        r@ == visible_from(
            arena_nodes(*arena),
            tree_rank(arena_nodes(*arena)).0,
            tree_rank(arena_nodes(*arena)).1,
            curr_node,
        ),
    decreases tree_rank(arena_nodes(*arena)).1 - tree_rank(arena_nodes(*arena)).0[curr_node],
{
    let ghost m = arena_nodes(*arena);
    let ghost rank = tree_rank(m).0;
    let ghost bound = tree_rank(m).1;
    proof {
        lemma_rank_chosen(m);
        lemma_ranked_facts(m, rank, bound);
    }
    let mut root: Vec<NodeId> = Vec::new();
    root.push(curr_node);
    let open = match arena_get_data(arena, curr_node) {
        Some(node) => match &node.node_type {
            NodeType::Dir(Open(o)) => *o,
            NodeType::File(_) => false,
        },
        None => false,
    };
    if open {
        let children = arena_children(arena, curr_node);
        let mut i: usize = 0;
        while i < children.len()
            invariant
                m == arena_nodes(*arena),
                links_acyclic(arena_links(m)),
                rank == tree_rank(m).0,
                bound == tree_rank(m).1,
                links_ranked(arena_links(m), rank, bound),
                m.contains_key(curr_node),
                children@ == m[curr_node].2,
                i <= children.len(),
                root@ == seq![curr_node] + visible_seq(
                    m,
                    rank,
                    bound,
                    rank[curr_node],
                    children@.take(i as int),
                ),
            decreases children.len() - i,
        {
            proof {
                lemma_ranked_facts(m, rank, bound);
                assert(m.contains_key(m[curr_node].2[i as int]));
            }
            let mut sub = get_open_dirs_and_files(arena, children[i]);
            let ghost before = root@;
            root.append(&mut sub);
            proof {
                let t = children@.take(i + 1);
                assert(t.drop_last() =~= children@.take(i as int));
                assert(t.last() == children@[i as int]);
            }
            i = i + 1;
            assert(root@ =~= seq![curr_node] + visible_seq(
                m,
                rank,
                bound,
                rank[curr_node],
                children@.take(i as int),
            ));
        }
        assert(children@.take(children.len() as int) =~= children@);
    }
    root
}

/// A file tree of one bucket, kept in an `indextree` arena.
pub struct Tree {
    pub bucket: String,
    pub root: NodeId,
    pub arena: Arena<TreeNode>,
    pub selected: Option<NodeId>,
    pub flattened: IndexSet<NodeId>,
    pub offset: usize,
}

impl Tree {
    /// What the tree's arena holds.
    pub open spec fn nodes(&self) -> NodeMap {
        arena_nodes(self.arena)
    }

    /// The nodes the tree shows, in display order.
    pub open spec fn visible(&self) -> Seq<NodeId> {
        visible_nodes(self.nodes(), self.root)
    }

    /// A well-formed tree: the root is live and has no parent, parent links
    /// never loop, and the flattened list is exactly the visible nodes.
    pub open spec fn wf(&self) -> bool {
        &&& self.nodes().contains_key(self.root)
        &&& self.nodes()[self.root].1 is None
        &&& links_acyclic(arena_links(self.nodes()))
        &&& id_set_items(self.flattened) == self.visible()
    }

    /// The visible nodes of `arena` below `root`, each once, in order.
    pub(crate) fn create_flattened_set(arena: &Arena<TreeNode>, root: &NodeId) -> (r: IndexSet<NodeId>)
        requires
            arena_nodes(*arena).contains_key(*root),
            links_acyclic(arena_links(arena_nodes(*arena))),
        ensures
            id_set_items(r) == visible_nodes(arena_nodes(*arena), *root),
    {
        let ghost m = arena_nodes(*arena);
        let ghost rank = tree_rank(m).0;
        let ghost bound = tree_rank(m).1;
        proof {
            lemma_rank_chosen(m);
            lemma_ranked_facts(m, rank, bound);
            assert forall|k: int| 0 <= k < m[*root].2.len() implies m[*root].2.contains(
                #[trigger] m[*root].2[k],
            ) by {}
            lemma_visible_seq(m, rank, bound, *root, m[*root].2);
        }
        let children = arena_children(arena, *root);
        let mut flat = id_set_new();
        let mut i: usize = 0;
        while i < children.len()
            invariant
                m == arena_nodes(*arena),
                links_acyclic(arena_links(m)),
                rank == tree_rank(m).0,
                bound == tree_rank(m).1,
                links_ranked(arena_links(m), rank, bound),
                m.contains_key(*root),
                children@ == m[*root].2,
                i <= children.len(),
                visible_seq(m, rank, bound, rank[*root], children@).no_duplicates(),
                id_set_items(flat) == visible_seq(
                    m,
                    rank,
                    bound,
                    rank[*root],
                    children@.take(i as int),
                ),
            decreases children.len() - i,
        {
            proof {
                lemma_ranked_facts(m, rank, bound);
                assert(m.contains_key(m[*root].2[i as int]));
                lemma_visible_prefix(m, rank, bound, rank[*root], children@, i as int + 1);
            }
            let nodes = get_open_dirs_and_files(arena, children[i]);
            let ghost before = id_set_items(flat);
            let ghost whole = visible_seq(m, rank, bound, rank[*root], children@);
            let ghost upto = visible_seq(m, rank, bound, rank[*root], children@.take(i + 1));
            proof {
                let t = children@.take(i + 1);
                assert(t.drop_last() =~= children@.take(i as int));
                assert(upto == before + nodes@);
            }
            let mut j: usize = 0;
            while j < nodes.len()
                invariant
                    whole.no_duplicates(),
                    upto.len() <= whole.len(),
                    forall|q: int| 0 <= q < upto.len() ==> whole[q] == upto[q],
                    upto == before + nodes@,
                    j <= nodes.len(),
                    id_set_items(flat) == before + nodes@.take(j as int),
                decreases nodes.len() - j,
            {
                let ghost cur = id_set_items(flat);
                proof {
                    let k = before.len() + j;
                    assert(upto[k] == nodes@[j as int]);
                    if cur.contains(nodes@[j as int]) {
                        let q = choose|q: int| 0 <= q < cur.len() && cur[q] == nodes@[j as int];
                        assert(cur[q] == upto[q]);
                        assert(whole[q] == whole[k]);
                    }
                }
                id_set_insert(&mut flat, nodes[j]);
                j = j + 1;
                assert(id_set_items(flat) =~= before + nodes@.take(j as int));
            }
            assert(nodes@.take(nodes.len() as int) =~= nodes@);
            i = i + 1;
        }
        assert(children@.take(children.len() as int) =~= children@);
        flat
    }

    /// Rebuilds the flattened list after folders opened or closed.
    pub fn update_flattened(&mut self)
        requires
            old(self).nodes().contains_key(old(self).root),
            old(self).nodes()[old(self).root].1 is None,
            links_acyclic(arena_links(old(self).nodes())),
        ensures
            final(self).wf(),
            final(self).arena == old(self).arena,
            final(self).root == old(self).root,
            final(self).bucket == old(self).bucket,
            final(self).selected == old(self).selected,
            final(self).offset == old(self).offset,
    {
        self.flattened = Tree::create_flattened_set(&self.arena, &self.root);
    }
}

/// A prefix of the sibling runs shows a prefix of the nodes.
proof fn lemma_visible_prefix(
    m: NodeMap,
    rank: Map<NodeId, nat>,
    bound: nat,
    lo: nat,
    ids: Seq<NodeId>,
    k: int,
)
    requires
        0 <= k <= ids.len(),
        forall|j: int| 0 <= j < ids.len() ==> lo < rank[#[trigger] ids[j]] && rank[ids[j]] < bound,
    ensures
        visible_seq(m, rank, bound, lo, ids.take(k)).len() <= visible_seq(
            m,
            rank,
            bound,
            lo,
            ids,
        ).len(),
        forall|q: int|
            0 <= q < visible_seq(m, rank, bound, lo, ids.take(k)).len() ==> visible_seq(
                m,
                rank,
                bound,
                lo,
                ids,
            )[q] == #[trigger] visible_seq(m, rank, bound, lo, ids.take(k))[q],
    decreases ids.len() - k,
{
    if k < ids.len() {
        lemma_visible_prefix(m, rank, bound, lo, ids, k + 1);
        let t = ids.take(k + 1);
        assert(t.drop_last() =~= ids.take(k));
        assert(t.last() == ids[k]);
        assert(lo < rank[ids[k]] && rank[ids[k]] < bound);
        let a = visible_seq(m, rank, bound, lo, ids.take(k));
        let b = visible_seq(m, rank, bound, lo, t);
        assert(b == a + visible_from(m, rank, bound, ids[k]));
        assert forall|q: int| 0 <= q < a.len() implies b[q] == #[trigger] a[q] by {}
    } else {
        assert(ids.take(k) =~= ids);
    }
}


/// When no folder is open, a run of siblings shows just those siblings.
proof fn lemma_closed_prefix(
    m: NodeMap,
    rank: Map<NodeId, nat>,
    bound: nat,
    p: NodeId,
    k: int,
)
    requires
        links_ranked(arena_links(m), rank, bound),
        m.contains_key(p),
        0 <= k <= m[p].2.len(),
        forall|x: NodeId| #[trigger] m.contains_key(x) ==> !m[x].0.is_open_dir(),
    ensures
        visible_seq(m, rank, bound, rank[p], m[p].2.take(k)) == m[p].2.take(k),
    decreases k,
{
    lemma_ranked_facts(m, rank, bound);
    let kids = m[p].2;
    if k > 0 {
        lemma_closed_prefix(m, rank, bound, p, k - 1);
        let t = kids.take(k);
        assert(t.drop_last() =~= kids.take(k - 1));
        assert(t.last() == kids[k - 1]);
        assert(m.contains_key(kids[k - 1]));
        assert(visible_from(m, rank, bound, kids[k - 1]) == seq![kids[k - 1]]);
        assert(kids.take(k - 1) + seq![kids[k - 1]] =~= t);
    } else {
        assert(kids.take(0) =~= Seq::<NodeId>::empty());
    }
}

/// When no folder is open, a tree shows just the root's children.
pub proof fn lemma_visible_from_closed(m: NodeMap, root: NodeId)
    requires
        links_acyclic(arena_links(m)),
        m.contains_key(root),
        forall|x: NodeId| #[trigger] m.contains_key(x) ==> !m[x].0.is_open_dir(),
    ensures
        visible_nodes(m, root) == m[root].2,
{
    let rank = tree_rank(m).0;
    let bound = tree_rank(m).1;
    lemma_rank_chosen(m);
    let kids = m[root].2;
    lemma_closed_prefix(m, rank, bound, root, kids.len() as int);
    assert(kids.take(kids.len() as int) =~= kids);
}


/// The nodes a tree shows are live and each is shown once.
pub proof fn lemma_visible_nodes(m: NodeMap, root: NodeId)
    requires
        links_acyclic(arena_links(m)),
        m.contains_key(root),
    ensures
        visible_nodes(m, root).no_duplicates(),
        forall|y: NodeId| #[trigger] visible_nodes(m, root).contains(y) ==> m.contains_key(y),
{
    let rank = tree_rank(m).0;
    let bound = tree_rank(m).1;
    lemma_rank_chosen(m);
    lemma_ranked_facts(m, rank, bound);
    assert forall|k: int| 0 <= k < m[root].2.len() implies m[root].2.contains(
        #[trigger] m[root].2[k],
    ) by {}
    lemma_visible_seq(m, rank, bound, root, m[root].2);
}

} // verus!
