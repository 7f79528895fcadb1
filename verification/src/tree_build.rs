//! Building a bucket's file tree from its object keys, and the path of a
//! node.
use crate::arena::{
    arena_ancestors, arena_append_value, arena_children, arena_get_data, arena_links,
    arena_new, arena_new_node, arena_nodes, links_acyclic, links_ranked,
};
use crate::listing::S3Object;
use crate::paths::{
    is_folder_key, lemma_split_slash_nonempty, path_components, path_components_of, split_slash,
    strings_view,
};
use crate::tree::{lemma_visible_from_closed, tree_rank, visible_nodes, NodeMap, Tree};
use crate::tree_first::{
    chain_reached, first_index, first_kind, kinds_first, lemma_append_first, lemma_chain_extend,
    lemma_first_next, lemma_new_node_kind, lemma_prefixes_next, lemma_rpath_parent, paths_unique,
    prefixes_reached, rpath, siblings_first_ordered,
};
use crate::tree_node::{Key, NodeType, Open, TreeNode};
use indextree::{Arena, NodeId};
use vstd::prelude::*;

verus! {

/// The names from the top of `x`'s chain of parents down to `x`.
pub open spec fn names_to(m: NodeMap, rank: Map<NodeId, nat>, x: NodeId) -> Seq<Seq<char>>
    decreases rank[x],
{
    if m[x].1 is Some && rank[m[x].1->0] < rank[x] {
        names_to(m, rank, m[x].1->0).push(m[x].0.name@)
    } else {
        seq![m[x].0.name@]
    }
}

/// The names on the way from the root (left out) down to `x`.
pub open spec fn node_path(m: NodeMap, x: NodeId) -> Seq<Seq<char>> {
    names_to(m, tree_rank(m).0, x).drop_first()
}

/// `parts` joined with '/' between them.
pub open spec fn join_slash(parts: Seq<Seq<char>>) -> Seq<char>
    decreases parts.len(),
{
    if parts.len() == 0 {
        Seq::empty()
    } else if parts.len() == 1 {
        parts[0]
    } else {
        join_slash(parts.drop_last()) + seq!['/'] + parts.last()
    }
}

/// The name of the root node of every tree.
pub open spec fn root_name() -> Seq<char> {
    seq!['r', 'o', 'o', 't']
}

proof fn lemma_names_rank_indep(
    m: NodeMap,
    r1: Map<NodeId, nat>,
    b1: nat,
    r2: Map<NodeId, nat>,
    b2: nat,
    x: NodeId,
)
    requires
        links_ranked(arena_links(m), r1, b1),
        links_ranked(arena_links(m), r2, b2),
        m.contains_key(x),
    ensures
        names_to(m, r1, x) == names_to(m, r2, x),
    decreases r1[x],
{
    let l = arena_links(m);
    assert(l.contains_key(x));
    if m[x].1 is Some {
        assert(l[x].0 == m[x].1);
        lemma_names_rank_indep(m, r1, b1, r2, b2, m[x].1->0);
    }
}

/// Adding nodes and children leaves the names above old nodes alone.
pub(crate) proof fn lemma_names_frame(
    m: NodeMap,
    rank: Map<NodeId, nat>,
    bound: nat,
    m2: NodeMap,
    rank2: Map<NodeId, nat>,
    x: NodeId,
)
    requires
        links_ranked(arena_links(m), rank, bound),
        forall|y: NodeId|
            #[trigger] m.contains_key(y) ==> m2.contains_key(y) && m2[y].0 == m[y].0 && m2[y].1
                == m[y].1 && rank2[y] == rank[y],
        m.contains_key(x),
    ensures
        names_to(m2, rank2, x) == names_to(m, rank, x),
    decreases rank[x],
{
    let l = arena_links(m);
    assert(l.contains_key(x));
    if m[x].1 is Some {
        assert(l[x].0 == m[x].1);
        lemma_names_frame(m, rank, bound, m2, rank2, m[x].1->0);
    }
}

/// The names down to an ancestor chain's first node, read off the chain.
proof fn lemma_names_chain(
    m: NodeMap,
    rank: Map<NodeId, nat>,
    bound: nat,
    anc: Seq<NodeId>,
    j: int,
)
    requires
        links_ranked(arena_links(m), rank, bound),
        0 <= j < anc.len(),
        forall|i: int| 0 <= i < anc.len() ==> m.contains_key(#[trigger] anc[i]),
        forall|i: int| 0 <= i < anc.len() - 1 ==> m[#[trigger] anc[i]].1 == Some(anc[i + 1]),
        m[anc[anc.len() - 1]].1 is None,
    ensures
        names_to(m, rank, anc[j]).len() == anc.len() - j,
        forall|k: int|
            0 <= k < anc.len() - j ==> #[trigger] names_to(m, rank, anc[j])[k]
                == m[anc[anc.len() - 1 - k]].0.name@,
    decreases anc.len() - j,
{
    let l = arena_links(m);
    assert(l.contains_key(anc[j]));
    if j < anc.len() - 1 {
        lemma_names_chain(m, rank, bound, anc, j + 1);
        assert(l[anc[j]].0 == Some(anc[j + 1]));
    }
}

proof fn lemma_join_push(parts: Seq<Seq<char>>, p: Seq<char>)
    ensures
        join_slash(parts.push(p)) == (if parts.len() == 0 {
            p
        } else {
            join_slash(parts) + seq!['/'] + p
        }),
{
    assert(parts.push(p).drop_last() =~= parts);
}

/// Facts about the arena while a tree is being built.
pub open spec fn build_inv(m: NodeMap, root: NodeId, rank: Map<NodeId, nat>, bound: nat) -> bool {
    &&& links_ranked(arena_links(m), rank, bound)
    &&& m.contains_key(root)
    &&& m[root].1 is None
    &&& m[root].0.name@ == root_name()
    &&& m[root].0.node_type == NodeType::Dir(Open(false))
    &&& forall|x: NodeId| #[trigger] m.contains_key(x) ==> !m[x].0.is_open_dir()
    &&& forall|x: NodeId| #[trigger] m.contains_key(x) && x != root ==> m[x].1 is Some
    &&& forall|x: NodeId, i: int, j: int|
        #![trigger m[x].2[i], m[x].2[j]]
        m.contains_key(x) && 0 <= i < j < m[x].2.len() ==> m[m[x].2[i]].0.name@ != m[m[x].2[j]].0.name@
}

/// The components of the key of each object.
pub open spec fn object_components(objects: Seq<S3Object>, k: int) -> Seq<Seq<char>> {
    path_components(objects[k].key->0@)
}

/// Every non-root node stands for a leading part of some object's path.
pub open spec fn paths_from_keys(
    m: NodeMap,
    root: NodeId,
    rank: Map<NodeId, nat>,
    objects: Seq<S3Object>,
    upto: int,
) -> bool {
    forall|x: NodeId|
        #[trigger] m.contains_key(x) && x != root ==> exists|k: int, n: int|
            0 <= k < upto && 1 <= n <= object_components(objects, k).len() && names_to(
                m,
                rank,
                x,
            ).drop_first() == #[trigger] object_components(objects, k).take(n)
}

/// Every file node carries the key of an object whose whole path leads to it.
pub open spec fn files_from_keys(
    m: NodeMap,
    rank: Map<NodeId, nat>,
    objects: Seq<S3Object>,
    upto: int,
) -> bool {
    forall|x: NodeId|
        #[trigger] m.contains_key(x) && m[x].0.node_type is File ==> exists|k: int|
            0 <= k < upto && objects[k].key->0@ == m[x].0.node_type->File_0.0@ && !(
            objects[k].key->0@.len() > 0 && objects[k].key->0@.last() == '/') && names_to(
                m,
                rank,
                x,
            ).drop_first() == #[trigger] object_components(objects, k)
}

/// The path of every object up to `upto` leads to a node.
pub open spec fn keys_reached(
    m: NodeMap,
    rank: Map<NodeId, nat>,
    objects: Seq<S3Object>,
    upto: int,
) -> bool {
    forall|k: int|
        0 <= k < upto && #[trigger] object_components(objects, k).len() > 0 ==> exists|x: NodeId|
            m.contains_key(x) && names_to(m, rank, x).drop_first() == object_components(
                objects,
                k,
            )
}

/// The tree `m` below `root` is the one built from `objects`: folders are
/// all closed, so the root's children are what shows; siblings have
/// different names; the path of each object's key leads to a node; each
/// node's path leads part of the way along some key's path; each file
/// carries the key, not ending in '/', whose whole path leads to it; no
/// two nodes have the same path; each node is a file or a folder as the
/// first object through its path makes it (see `kind_for`); and siblings
/// come in the order of the first objects through them.
pub open spec fn built_from(m: NodeMap, root: NodeId, objects: Seq<S3Object>) -> bool {
    &&& forall|x: NodeId| #[trigger] m.contains_key(x) ==> !m[x].0.is_open_dir()
    &&& visible_nodes(m, root) == m[root].2
    &&& forall|x: NodeId, i: int, j: int|
        #![trigger m[x].2[i], m[x].2[j]]
        m.contains_key(x) && 0 <= i < j < m[x].2.len() ==> m[m[x].2[i]].0.name@ != m[m[x].2[j]].0.name@
    &&& forall|k: int|
        0 <= k < objects.len() && #[trigger] object_components(objects, k).len() > 0 ==> exists|
            x: NodeId,
        | m.contains_key(x) && node_path(m, x) == object_components(objects, k)
    &&& forall|x: NodeId|
        #[trigger] m.contains_key(x) && x != root ==> exists|k: int, n: int|
            0 <= k < objects.len() && 1 <= n <= object_components(objects, k).len() && node_path(
                m,
                x,
            ) == #[trigger] object_components(objects, k).take(n)
    &&& forall|x: NodeId|
        #[trigger] m.contains_key(x) && m[x].0.node_type is File ==> exists|k: int|
            0 <= k < objects.len() && objects[k].key->0@ == m[x].0.node_type->File_0.0@ && !(
            objects[k].key->0@.len() > 0 && objects[k].key->0@.last() == '/') && node_path(m, x)
                == #[trigger] object_components(objects, k)
    &&& forall|x: NodeId, y: NodeId|
        #![trigger node_path(m, x), node_path(m, y)]
        m.contains_key(x) && m.contains_key(y) && node_path(m, x) == node_path(m, y) ==> x == y
    &&& forall|x: NodeId|
        #[trigger] m.contains_key(x) && x != root ==> first_kind(
            objects,
            node_path(m, x),
            objects.len() as int,
            m[x].0.node_type,
        )
    &&& forall|x: NodeId, i: int, j: int|
        #![trigger m[x].2[i], m[x].2[j]]
        m.contains_key(x) && 0 <= i < j < m[x].2.len() ==> first_index(
            objects,
            node_path(m, m[x].2[i]),
            objects.len() as int,
        ) < first_index(objects, node_path(m, m[x].2[j]), objects.len() as int)
}

/// Where a build stands after the first `upto` objects: the arena facts,
/// the paths that lead to nodes, and what the first objects decide.
#[verifier::opaque]
pub open spec fn build_progress(
    m: NodeMap,
    root: NodeId,
    rank: Map<NodeId, nat>,
    bound: nat,
    objects: Seq<S3Object>,
    upto: int,
) -> bool {
    &&& build_inv(m, root, rank, bound)
    &&& paths_from_keys(m, root, rank, objects, upto)
    &&& files_from_keys(m, rank, objects, upto)
    &&& keys_reached(m, rank, objects, upto)
    &&& paths_unique(m, rank)
    &&& prefixes_reached(m, rank, objects, upto)
    &&& kinds_first(m, root, rank, objects, upto)
    &&& siblings_first_ordered(m, rank, objects, upto)
}

/// A build starts from the root alone, a closed folder named "root".
proof fn lemma_build_start(m: NodeMap, root: NodeId, objects: Seq<S3Object>)
    requires
        m.dom() == set![root],
        m[root].1 is None,
        m[root].2 == Seq::<NodeId>::empty(),
        m[root].0.name@ == root_name(),
        m[root].0.node_type == NodeType::Dir(Open(false)),
    ensures
        build_progress(m, root, map![root => 0nat], 1, objects, 0),
{
    assert(arena_links(m).dom() =~= set![root]);
    reveal(paths_unique);
    reveal(prefixes_reached);
    reveal(kinds_first);
    reveal(siblings_first_ordered);
    reveal(build_progress);
}

impl Tree {
    /// The names on the way from the root (left out) down to `x`.
    pub open spec fn path_of(&self, x: NodeId) -> Seq<Seq<char>> {
        node_path(self.nodes(), x)
    }

    /// Builds the tree of a bucket from its objects: for each key, one node
    /// per '/'-separated component, reusing a child of the same name where
    /// there is one; a new last component is a file, or a folder when the
    /// key ends with '/'. Every folder starts closed.
    #[verifier::spinoff_prover]
    #[verifier::rlimit(30)]
    pub fn new(bucket: String, objects: Vec<S3Object>) -> (r: Tree)
        requires
            forall|k: int| 0 <= k < objects.len() ==> (#[trigger] objects[k]).key is Some,
        ensures
            r.wf(),
            r.bucket == bucket,
            r.selected is None,
            r.offset == 0,
            r.nodes()[r.root].0.name@ == root_name(),
            r.nodes()[r.root].0.node_type == NodeType::Dir(Open(false)),
            built_from(r.nodes(), r.root, objects@),
    {
        let mut arena = arena_new();
        let root = arena_new_node(&mut arena, TreeNode::new_dir(String::from_str("root")));
        proof {
            reveal_strlit("root");
            assert("root"@ =~= root_name());
        }
        let ghost mut rank: Map<NodeId, nat> = map![root => 0nat];
        let ghost mut bound: nat = 1;
        proof {
            assert(arena_nodes(arena).dom() =~= set![root]);
            lemma_build_start(arena_nodes(arena), root, objects@);
        }
        let mut oi: usize = 0;
        while oi < objects.len()
            invariant
                forall|k: int| 0 <= k < objects.len() ==> (#[trigger] objects[k]).key is Some,
                oi <= objects.len(),
                build_progress(arena_nodes(arena), root, rank, bound, objects@, oi as int),
            decreases objects.len() - oi,
        {
            proof {
                reveal(build_progress);
            }
            let Ghost(rb) = add_object_path(&mut arena, root, &objects, oi, Ghost(rank), Ghost(bound));
            proof {
                rank = rb.0;
                bound = rb.1;
                reveal(build_progress);
            }
            oi = oi + 1;
        }
        proof {
            reveal(build_progress);
            lemma_build_done(arena_nodes(arena), root, rank, bound, objects@);
        }
        let flattened = Tree::create_flattened_set(&arena, &root);
        Tree { bucket, root, arena, selected: None, flattened, offset: 0 }
    }

    /// The path of a live node below the root: the names of its ancestors
    /// after the root, then its own, joined with '/'.
    pub fn get_path(&self, node_id: &NodeId) -> (r: String)
        requires
            self.wf(),
            self.nodes().contains_key(*node_id),
        ensures
            r@ == join_slash(self.path_of(*node_id)),
    {
        let ghost m = self.nodes();
        let ghost rank = tree_rank(m).0;
        let ghost bound = tree_rank(m).1;
        let anc = arena_ancestors(&self.arena, *node_id);
        proof {
            lemma_names_chain(m, rank, bound, anc@, 0);
        }
        let ghost names = names_to(m, rank, *node_id);
        let n = anc.len();
        let mut path = String::new();
        let mut i: usize = n - 1;
        while i > 0
            invariant
                m == self.nodes(),
                n == anc.len(),
                names.len() == n,
                forall|k: int| 0 <= k < n ==> #[trigger] names[k] == m[anc@[n - 1 - k]].0.name@,
                forall|q: int| 0 <= q < anc.len() ==> m.contains_key(#[trigger] anc@[q]),
                i < n,
                path@ == join_slash(names.drop_first().take(n - 1 - i)),
            decreases i,
        {
            i = i - 1;
            let piece: String = match arena_get_data(&self.arena, anc[i]) {
                Some(node) => node.name.clone(),
                None => String::new(),
            };
            let ghost prev = names.drop_first().take(n - 2 - i);
            proof {
                assert(names.drop_first().take(n - 1 - i) =~= prev.push(names[n - 1 - i]));
                assert(names[n - 1 - i] == m[anc@[i as int]].0.name@);
                lemma_join_push(prev, names[n - 1 - i]);
            }
            if i < n - 2 {
                path.append("/");
                proof {
                    reveal_strlit("/");
                }
            }
            path.append(piece.as_str());
        }
        assert(names.drop_first().take(n - 1) =~= names.drop_first());
        path
    }
}

proof fn lemma_build_facts(m: NodeMap, root: NodeId, rank: Map<NodeId, nat>, bound: nat)
    requires
        build_inv(m, root, rank, bound),
    ensures
        forall|x: NodeId, j: int|
            #![trigger m[x].2[j]]
            m.contains_key(x) && 0 <= j < m[x].2.len() ==> {
                let c = m[x].2[j];
                m.contains_key(c) && m[c].1 == Some(x) && rank[c] > rank[x]
            },
        forall|x: NodeId| #[trigger]
            m.contains_key(x) ==> rank.contains_key(x) && rank[x] < bound,
{
    let l = arena_links(m);
    assert forall|x: NodeId, j: int|
        #![trigger m[x].2[j]]
        m.contains_key(x) && 0 <= j < m[x].2.len() implies {
            let c = m[x].2[j];
            m.contains_key(c) && m[c].1 == Some(x) && rank[c] > rank[x]
        } by {
        assert(l.contains_key(x));
        assert(l[x].1[j] == m[x].2[j]);
        let c = m[x].2[j];
        assert(l.contains_key(c));
        assert(l[c].0 is Some);
    }
    assert forall|x: NodeId| #[trigger] m.contains_key(x) implies rank.contains_key(x) && rank[x]
        < bound by {
        assert(l.contains_key(x));
    }
}


/// Appending a new child under `curr` for the component `ind` of object
/// `oi` keeps every fact the build relies on.
proof fn lemma_append_keeps(
    m: NodeMap,
    root: NodeId,
    rank: Map<NodeId, nat>,
    bound: nat,
    m2: NodeMap,
    curr: NodeId,
    new_id: NodeId,
    objects: Seq<S3Object>,
    oi: int,
    ind: int,
)
    requires
        0 <= oi < objects.len(),
        objects[oi].key is Some,
        build_inv(m, root, rank, bound),
        paths_from_keys(m, root, rank, objects, oi + 1),
        files_from_keys(m, rank, objects, oi + 1),
        keys_reached(m, rank, objects, oi),
        m.contains_key(curr),
        !m.contains_key(new_id),
        m2 == m.insert(new_id, (m2[new_id].0, Some(curr), Seq::empty())).insert(
            curr,
            (m[curr].0, m[curr].1, m[curr].2.push(new_id)),
        ),
        0 <= ind < object_components(objects, oi).len(),
        names_to(m, rank, curr).drop_first() == object_components(objects, oi).take(ind),
        m2[new_id].0.name@ == object_components(objects, oi)[ind],
        forall|j: int|
            0 <= j < m[curr].2.len() ==> m[#[trigger] m[curr].2[j]].0.name@ != object_components(
                objects,
                oi,
            )[ind],
        !m2[new_id].0.is_open_dir(),
        m2[new_id].0.node_type is File ==> ind == object_components(objects, oi).len() - 1 && !(
        objects[oi].key->0@.len() > 0 && objects[oi].key->0@.last() == '/')
            && m2[new_id].0.node_type->File_0.0@ == objects[oi].key->0@,
    ensures
        build_inv(m2, root, rank.insert(new_id, bound), bound + 1),
        paths_from_keys(m2, root, rank.insert(new_id, bound), objects, oi + 1),
        files_from_keys(m2, rank.insert(new_id, bound), objects, oi + 1),
        keys_reached(m2, rank.insert(new_id, bound), objects, oi),
        names_to(m2, rank.insert(new_id, bound), new_id).drop_first() == object_components(
            objects,
            oi,
        ).take(ind + 1),
        forall|x: NodeId| #[trigger]
            m.contains_key(x) ==> names_to(m2, rank.insert(new_id, bound), x) == names_to(m, rank, x),
{
    let rank2 = rank.insert(new_id, bound);
    let l = arena_links(m);
    let l2 = arena_links(m2);
    let comps = object_components(objects, oi);
    lemma_build_facts(m, root, rank, bound);
    assert(m.contains_key(root));
    assert(new_id != curr);
    assert(!m[curr].2.contains(new_id)) by {
        if m[curr].2.contains(new_id) {
            let j = choose|j: int| 0 <= j < m[curr].2.len() && m[curr].2[j] == new_id;
            assert(m.contains_key(m[curr].2[j]));
        }
    }
    // the links of the grown arena stay ranked
    assert forall|x: NodeId| #[trigger] l2.contains_key(x) implies rank2.contains_key(x)
        && rank2[x] < bound + 1 by {
        if x != new_id {
            assert(m.contains_key(x));
        }
    }
    assert forall|x: NodeId| #[trigger] l2.contains_key(x) && l2[x].0 is Some implies {
        let p = l2[x].0->0;
        l2.contains_key(p) && rank2[p] < rank2[x] && l2[p].1.contains(x)
    } by {
        if x == new_id {
            assert(l2[curr].1 == m[curr].2.push(new_id));
            assert(l2[curr].1[m[curr].2.len() as int] == new_id);
            assert(rank[curr] < bound);
        } else {
            assert(m.contains_key(x));
            assert(l.contains_key(x));
            assert(l[x].0 == m[x].1);
            let p = m[x].1->0;
            assert(m[x].1 == m2[x].1);
            assert(l[p].1.contains(x));
            let j = choose|j: int| 0 <= j < l[p].1.len() && l[p].1[j] == x;
            if p == curr {
                assert(l2[p].1[j] == x);
            } else {
                assert(l2[p].1 == l[p].1);
            }
        }
    }
    assert forall|x: NodeId, j: int|
        #![trigger l2[x].1[j]]
        l2.contains_key(x) && 0 <= j < l2[x].1.len() implies {
            let c = l2[x].1[j];
            l2.contains_key(c) && l2[c].0 == Some(x)
        } by {
        if x == new_id {
        } else if x == curr {
            if j < m[curr].2.len() {
                assert(l2[x].1[j] == m[curr].2[j]);
                let c = m[curr].2[j];
                assert(m.contains_key(c) && m[c].1 == Some(curr));
                assert(c != curr);
            } else {
                assert(l2[x].1[j] == new_id);
            }
        } else {
            assert(m.contains_key(x));
            assert(l2[x].1 == m[x].2);
            let c = m[x].2[j];
            assert(m.contains_key(c) && m[c].1 == Some(x));
            if c == curr {
                assert(l2[c].0 == m[curr].1);
            }
        }
    }
    assert forall|x: NodeId| #[trigger] l2.contains_key(x) implies l2[x].1.no_duplicates() by {
        if x == curr {
            assert(l.contains_key(curr));
            assert(m[curr].2.no_duplicates());
        } else if x != new_id {
            assert(l.contains_key(x));
        }
    }
    assert(links_ranked(l2, rank2, bound + 1));
    // names above old nodes do not change
    assert forall|y: NodeId| #[trigger] m.contains_key(y) implies m2.contains_key(y) && m2[y].0
        == m[y].0 && m2[y].1 == m[y].1 && rank2[y] == rank[y] by {}
    assert forall|x: NodeId| #[trigger] m.contains_key(x) implies names_to(m2, rank2, x)
        == names_to(m, rank, x) by {
        lemma_names_frame(m, rank, bound, m2, rank2, x);
    }
    // the new node's names
    assert(names_to(m2, rank2, new_id) == names_to(m2, rank2, curr).push(comps[ind]));
    assert(names_to(m2, rank2, curr) == names_to(m, rank, curr));
    assert(names_to(m, rank, curr).len() >= 1) by {
        reveal_with_fuel(names_to, 1);
    }
    let a = names_to(m, rank, curr);
    assert(a.push(comps[ind]).drop_first() =~= a.drop_first().push(comps[ind]));
    assert(comps.take(ind + 1) =~= comps.take(ind).push(comps[ind]));
    assert(names_to(m2, rank2, new_id).drop_first() =~= comps.take(ind + 1));
    // build invariant
    assert forall|x: NodeId| #[trigger] m2.contains_key(x) implies !m2[x].0.is_open_dir() by {
        if x != new_id {
            assert(m.contains_key(x));
        }
    }
    assert forall|x: NodeId| #[trigger] m2.contains_key(x) && x != root implies m2[x].1 is Some by {
        if x != new_id {
            assert(m.contains_key(x));
        }
    }
    assert forall|x: NodeId, i: int, j: int|
        #![trigger m2[x].2[i], m2[x].2[j]]
        m2.contains_key(x) && 0 <= i < j < m2[x].2.len() implies m2[m2[x].2[i]].0.name@
        != m2[m2[x].2[j]].0.name@ by {
        if x == curr {
            let ci = m[curr].2[i];
            assert(m2[x].2[i] == ci);
            assert(m.contains_key(ci));
            if j < m[curr].2.len() {
                assert(m2[x].2[j] == m[curr].2[j]);
                assert(m.contains_key(m[curr].2[j]));
            } else {
                assert(m2[x].2[j] == new_id);
                assert(m[ci].0.name@ != comps[ind]);
            }
        } else if x != new_id {
            assert(m.contains_key(x));
            assert(m2[x].2 == m[x].2);
            assert(m.contains_key(m[x].2[i]));
            assert(m.contains_key(m[x].2[j]));
        }
    }
    assert(build_inv(m2, root, rank2, bound + 1));
    // every node still stands for a leading part of some object's path
    assert forall|x: NodeId| #[trigger] m2.contains_key(x) && x != root implies exists|k: int, n: int|
        0 <= k < oi + 1 && 1 <= n <= object_components(objects, k).len() && names_to(
            m2,
            rank2,
            x,
        ).drop_first() == #[trigger] object_components(objects, k).take(n) by {
        if x == new_id {
            assert(names_to(m2, rank2, x).drop_first() == object_components(objects, oi).take(
                ind + 1,
            ));
        } else {
            assert(m.contains_key(x));
            let (k, n) = choose|k: int, n: int|
                0 <= k < oi + 1 && 1 <= n <= object_components(objects, k).len() && names_to(
                    m,
                    rank,
                    x,
                ).drop_first() == #[trigger] object_components(objects, k).take(n);
            assert(names_to(m2, rank2, x).drop_first() == object_components(objects, k).take(n));
        }
    }
    assert forall|x: NodeId|
        #[trigger] m2.contains_key(x) && m2[x].0.node_type is File implies exists|k: int|
        0 <= k < oi + 1 && objects[k].key->0@ == m2[x].0.node_type->File_0.0@ && !(
        objects[k].key->0@.len() > 0 && objects[k].key->0@.last() == '/') && names_to(
            m2,
            rank2,
            x,
        ).drop_first() == #[trigger] object_components(objects, k) by {
        if x == new_id {
            assert(comps.take(ind + 1) =~= comps);
            assert(names_to(m2, rank2, x).drop_first() == object_components(objects, oi));
        } else {
            assert(m.contains_key(x));
            assert(m2[x].0 == m[x].0);
            let k = choose|k: int|
                0 <= k < oi + 1 && objects[k].key->0@ == m[x].0.node_type->File_0.0@ && !(
                objects[k].key->0@.len() > 0 && objects[k].key->0@.last() == '/') && names_to(
                    m,
                    rank,
                    x,
                ).drop_first() == #[trigger] object_components(objects, k);
            assert(names_to(m2, rank2, x).drop_first() == object_components(objects, k));
        }
    }
    assert forall|k: int|
        0 <= k < oi && #[trigger] object_components(objects, k).len() > 0 implies exists|x: NodeId|
        m2.contains_key(x) && names_to(m2, rank2, x).drop_first() == object_components(
            objects,
            k,
        ) by {
        let x = choose|x: NodeId|
            m.contains_key(x) && names_to(m, rank, x).drop_first() == object_components(objects, k);
        assert(names_to(m2, rank2, x) == names_to(m, rank, x));
    }
}


/// At the end of the build the facts hold for the chosen rank as well.
proof fn lemma_build_done(
    m: NodeMap,
    root: NodeId,
    rank: Map<NodeId, nat>,
    bound: nat,
    objects: Seq<S3Object>,
)
    requires
        build_inv(m, root, rank, bound),
        paths_from_keys(m, root, rank, objects, objects.len() as int),
        files_from_keys(m, rank, objects, objects.len() as int),
        keys_reached(m, rank, objects, objects.len() as int),
        paths_unique(m, rank),
        kinds_first(m, root, rank, objects, objects.len() as int),
        siblings_first_ordered(m, rank, objects, objects.len() as int),
    ensures
        links_acyclic(arena_links(m)),
        built_from(m, root, objects),
{
    assert(links_ranked(arena_links(m), (rank, bound).0, (rank, bound).1));
    assert(links_acyclic(arena_links(m)));
    let rb = tree_rank(m);
    assert(links_ranked(arena_links(m), rb.0, rb.1));
    assert forall|x: NodeId| #[trigger] m.contains_key(x) implies names_to(m, rank, x) == names_to(
        m,
        rb.0,
        x,
    ) by {
        lemma_names_rank_indep(m, rank, bound, rb.0, rb.1, x);
    }
    lemma_visible_from_closed(m, root);
    lemma_build_facts(m, root, rank, bound);
    assert forall|k: int|
        0 <= k < objects.len() && #[trigger] object_components(objects, k).len() > 0 implies exists|
        x: NodeId,
    | m.contains_key(x) && node_path(m, x) == object_components(objects, k) by {
        let x = choose|x: NodeId|
            m.contains_key(x) && names_to(m, rank, x).drop_first() == object_components(objects, k);
        assert(node_path(m, x) == names_to(m, rank, x).drop_first());
    }
    assert forall|x: NodeId| #[trigger] m.contains_key(x) && x != root implies exists|k: int, n: int|
        0 <= k < objects.len() && 1 <= n <= object_components(objects, k).len() && node_path(m, x)
            == #[trigger] object_components(objects, k).take(n) by {
        assert(node_path(m, x) == names_to(m, rank, x).drop_first());
    }
    assert forall|x: NodeId| #[trigger] m.contains_key(x) && m[x].0.node_type is File implies exists|
        k: int,
    |
        0 <= k < objects.len() && objects[k].key->0@ == m[x].0.node_type->File_0.0@ && !(
        objects[k].key->0@.len() > 0 && objects[k].key->0@.last() == '/') && node_path(m, x)
            == #[trigger] object_components(objects, k) by {
        assert(node_path(m, x) == names_to(m, rank, x).drop_first());
    }
    assert forall|x: NodeId| #[trigger] m.contains_key(x) implies node_path(m, x) == rpath(m, rank, x) by {}
    reveal(paths_unique);
    reveal(kinds_first);
    reveal(siblings_first_ordered);
    assert forall|x: NodeId, y: NodeId|
        #![trigger node_path(m, x), node_path(m, y)]
        m.contains_key(x) && m.contains_key(y) && node_path(m, x) == node_path(m, y) implies x == y by {
        assert(rpath(m, rank, x) == rpath(m, rank, y));
    }
    assert forall|x: NodeId, i: int, j: int|
        #![trigger m[x].2[i], m[x].2[j]]
        m.contains_key(x) && 0 <= i < j < m[x].2.len() implies first_index(
            objects,
            node_path(m, m[x].2[i]),
            objects.len() as int,
        ) < first_index(objects, node_path(m, m[x].2[j]), objects.len() as int) by {
        assert(m.contains_key(m[x].2[i]) && m.contains_key(m[x].2[j]));
    }
}


/// Adds the path of object `oi` to the tree under construction.
#[verifier::spinoff_prover]
#[verifier::rlimit(60)]
fn add_object_path(
    arena: &mut Arena<TreeNode>,
    root: NodeId,
    objects: &Vec<S3Object>,
    oi: usize,
    Ghost(rank): Ghost<Map<NodeId, nat>>,
    Ghost(bound): Ghost<nat>,
) -> (r: Ghost<(Map<NodeId, nat>, nat)>)
    requires
        forall|k: int| 0 <= k < objects.len() ==> (#[trigger] objects[k]).key is Some,
        oi < objects.len(),
        build_inv(arena_nodes(*old(arena)), root, rank, bound),
        paths_from_keys(arena_nodes(*old(arena)), root, rank, objects@, oi as int),
        files_from_keys(arena_nodes(*old(arena)), rank, objects@, oi as int),
        keys_reached(arena_nodes(*old(arena)), rank, objects@, oi as int),
        paths_unique(arena_nodes(*old(arena)), rank),
        prefixes_reached(arena_nodes(*old(arena)), rank, objects@, oi as int),
        kinds_first(arena_nodes(*old(arena)), root, rank, objects@, oi as int),
        siblings_first_ordered(arena_nodes(*old(arena)), rank, objects@, oi as int),
    ensures
        build_inv(arena_nodes(*final(arena)), root, r@.0, r@.1),
        paths_from_keys(arena_nodes(*final(arena)), root, r@.0, objects@, oi + 1),
        files_from_keys(arena_nodes(*final(arena)), r@.0, objects@, oi + 1),
        keys_reached(arena_nodes(*final(arena)), r@.0, objects@, oi + 1),
        paths_unique(arena_nodes(*final(arena)), r@.0),
        prefixes_reached(arena_nodes(*final(arena)), r@.0, objects@, oi + 1),
        kinds_first(arena_nodes(*final(arena)), root, r@.0, objects@, oi + 1),
        siblings_first_ordered(arena_nodes(*final(arena)), r@.0, objects@, oi + 1),
{
    let ghost mut rank = rank;
    let ghost mut bound = bound;
    proof {
        let m = arena_nodes(*arena);
        assert forall|x: NodeId| #[trigger] m.contains_key(x) && x != root implies exists|k: int, n: int|
            0 <= k < oi + 1 && 1 <= n <= object_components(objects@, k).len() && names_to(
                m,
                rank,
                x,
            ).drop_first() == #[trigger] object_components(objects@, k).take(n) by {
            let (k, n) = choose|k: int, n: int|
                0 <= k < oi && 1 <= n <= object_components(objects@, k).len() && names_to(
                    m,
                    rank,
                    x,
                ).drop_first() == #[trigger] object_components(objects@, k).take(n);
        }
        assert forall|x: NodeId|
            #[trigger] m.contains_key(x) && m[x].0.node_type is File implies exists|k: int|
            0 <= k < oi + 1 && objects@[k].key->0@ == m[x].0.node_type->File_0.0@ && !(
            objects@[k].key->0@.len() > 0 && objects@[k].key->0@.last() == '/') && names_to(
                m,
                rank,
                x,
            ).drop_first() == #[trigger] object_components(objects@, k) by {
            let k = choose|k: int|
                0 <= k < oi && objects@[k].key->0@ == m[x].0.node_type->File_0.0@ && !(
                objects@[k].key->0@.len() > 0 && objects@[k].key->0@.last() == '/') && names_to(
                    m,
                    rank,
                    x,
                ).drop_first() == #[trigger] object_components(objects@, k);
        }
    }
        let key: &str = match &objects[oi].key {
            Some(k) => k.as_str(),
            None => "",
        };
        let path = path_components_of(key);
        let is_dir = is_folder_key(key);
        let mut curr_root = root;
        let mut ind: usize = 0;
        let ghost comps = object_components(objects@, oi as int);
        proof {
            lemma_first_next(arena_nodes(*arena), root, rank, bound, objects@, oi as int);
            reveal(chain_reached);
            assert(chain_reached(arena_nodes(*arena), rank, comps, 0));
            lemma_rpath_parent(arena_nodes(*arena), root, rank, bound, root);
        }
        assert(strings_view(path@) == comps);
        assert(path.len() == comps.len());
        while ind < path.len()
            invariant
                forall|k: int| 0 <= k < objects.len() ==> (#[trigger] objects[k]).key is Some,
                oi < objects.len(),
                key@ == objects[oi as int].key->0@,
                is_dir == (key@.len() > 0 && key@.last() == '/'),
                comps == object_components(objects@, oi as int),
                strings_view(path@) == comps,
                path.len() == comps.len(),
                ind <= path.len(),
                build_inv(arena_nodes(*arena), root, rank, bound),
                paths_from_keys(arena_nodes(*arena), root, rank, objects@, oi + 1),
                files_from_keys(arena_nodes(*arena), rank, objects@, oi + 1),
                keys_reached(arena_nodes(*arena), rank, objects@, oi as int),
                arena_nodes(*arena).contains_key(curr_root),
                names_to(arena_nodes(*arena), rank, curr_root).drop_first() == comps.take(
                    ind as int,
                ),
                paths_unique(arena_nodes(*arena), rank),
                prefixes_reached(arena_nodes(*arena), rank, objects@, oi as int),
                chain_reached(arena_nodes(*arena), rank, comps, ind as int),
                kinds_first(arena_nodes(*arena), root, rank, objects@, oi + 1),
                siblings_first_ordered(arena_nodes(*arena), rank, objects@, oi + 1),
            decreases path.len() - ind,
        {
            let ghost m = arena_nodes(*arena);
            let part = &path[ind];
            assert(part@ == comps[ind as int]);
            let children = arena_children(&*arena, curr_root);
            proof {
                lemma_build_facts(m, root, rank, bound);
            }
            let mut found: Option<NodeId> = None;
            let mut ci: usize = 0;
            while ci < children.len()
                invariant
                    m == arena_nodes(*arena),
                    m.contains_key(curr_root),
                    children@ == m[curr_root].2,
                    forall|j: int| 0 <= j < children.len() ==> m.contains_key(#[trigger] children@[j]),
                    ci <= children.len(),
                    found is None ==> forall|j: int|
                        0 <= j < ci ==> m[#[trigger] children@[j]].0.name@ != part@,
                    found matches Some(c) ==> m[curr_root].2.contains(c) && m[c].0.name@
                        == part@,
                ensures
                    found is None ==> forall|j: int|
                        0 <= j < children.len() ==> m[#[trigger] children@[j]].0.name@ != part@,
                    found matches Some(c) ==> m[curr_root].2.contains(c) && m[c].0.name@
                        == part@,
                decreases children.len() - ci,
            {
                let c = children[ci];
                assert(m.contains_key(children@[ci as int]));
                let same = match arena_get_data(&*arena, c) {
                    Some(node) => node.name == *part,
                    None => false,
                };
                if same {
                    found = Some(c);
                    break;
                }
                ci = ci + 1;
            }
            proof {
                lemma_build_facts(m, root, rank, bound);
            }
            match found {
                Some(node_id) => {
                    proof {
                        let j = choose|j: int| 0 <= j < m[curr_root].2.len() && m[curr_root].2[j] == node_id;
                        assert(m[curr_root].2[j] == node_id);
                        assert(names_to(m, rank, node_id) == names_to(m, rank, curr_root).push(
                            part@,
                        ));
                        assert(comps.take(ind + 1) =~= comps.take(ind as int).push(part@));
                        lemma_rpath_parent(m, root, rank, bound, node_id);
                        lemma_chain_extend(m, rank, comps, ind as int, node_id);
                    }
                    curr_root = node_id;
                },
                None => {
                    let is_last = ind == path.len() - 1;
                    let node = if is_last {
                        if is_dir {
                            TreeNode::new_dir(part.clone())
                        } else {
                            TreeNode::new_file(part.clone(), String::from_str(key))
                        }
                    } else {
                        TreeNode::new_dir(part.clone())
                    };
                    let new_id = arena_append_value(arena, curr_root, node);
                    proof {
                        let m2 = arena_nodes(*arena);
                        let rank2 = rank.insert(new_id, bound);
                        lemma_append_keeps(
                            m,
                            root,
                            rank,
                            bound,
                            m2,
                            curr_root,
                            new_id,
                            objects@,
                            oi as int,
                            ind as int,
                        );
                        lemma_new_node_kind(objects@, oi as int, ind as int, m2[new_id].0.node_type, is_last, is_dir, key@);
                        lemma_append_first(
                            m,
                            root,
                            rank,
                            bound,
                            m2,
                            rank2,
                            curr_root,
                            new_id,
                            objects@,
                            oi as int,
                            ind as int,
                        );
                        rank = rank2;
                        bound = bound + 1;
                    }
                    curr_root = new_id;
                },
            }
            ind = ind + 1;
        }
        proof {
            let m = arena_nodes(*arena);
            assert(comps.take(path.len() as int) =~= comps);
            lemma_prefixes_next(m, rank, objects@, oi as int);
            assert(keys_reached(m, rank, objects@, oi + 1)) by {
                assert forall|k: int|
                    0 <= k < oi + 1 && #[trigger] object_components(objects@, k).len()
                        > 0 implies exists|x: NodeId|
                    m.contains_key(x) && names_to(m, rank, x).drop_first() == object_components(
                        objects@,
                        k,
                    ) by {
                    if k == oi {
                        assert(m.contains_key(curr_root));
                    }
                }
            }
        }
    Ghost((rank, bound))
}

/// `n` spaces.
pub open spec fn spaces(n: int) -> Seq<char> {
    Seq::new(n as nat, |i: int| ' ')
}

/// How a node at `depth` (itself and the root counted) shows in the
/// tree: a folder indented by one space less than its depth and marked
/// open or closed, a file indented by one more, then the name.
pub open spec fn node_label(depth: int, node: TreeNode) -> Seq<char> {
    match node.node_type {
        NodeType::Dir(Open(open)) => spaces(depth - 1) + (if open {
            seq!['\u{25bc}', ' ']
        } else {
            seq!['\u{25b6}', ' ']
        }) + node.name@,
        NodeType::File(_) => spaces(depth + 1) + node.name@,
    }
}

/// `s` with `n` spaces added.
fn push_spaces(s: &mut String, n: usize)
    ensures
        final(s)@ == old(s)@ + spaces(n as int),
{
    let mut i: usize = 0;
    while i < n
        invariant
            i <= n,
            s@ == old(s)@ + spaces(i as int),
        decreases n - i,
    {
        s.append(" ");
        proof {
            reveal_strlit(" ");
            assert(old(s)@ + spaces(i + 1) =~= old(s)@ + spaces(i as int) + " "@);
        }
        i = i + 1;
    }
}

impl Tree {
    /// How many nodes lead from the root down to `x`, both counted.
    pub open spec fn depth_of(&self, x: NodeId) -> int {
        names_to(self.nodes(), tree_rank(self.nodes()).0, x).len() as int
    }

    /// How a live node shows in the tree (see `node_label`).
    pub fn label(&self, node_id: &NodeId) -> (r: String)
        requires
            self.wf(),
            self.nodes().contains_key(*node_id),
        ensures
            r@ == node_label(self.depth_of(*node_id), self.nodes()[*node_id].0),
    {
        let ghost m = self.nodes();
        let ghost rank = tree_rank(m).0;
        let ghost bound = tree_rank(m).1;
        proof {
            crate::tree::lemma_rank_chosen(m);
        }
        let anc = arena_ancestors(&self.arena, *node_id);
        proof {
            lemma_names_chain(m, rank, bound, anc@, 0);
        }
        let depth = anc.len();
        let mut label = String::new();
        match arena_get_data(&self.arena, *node_id) {
            Some(node) => {
                match &node.node_type {
                    NodeType::Dir(Open(open)) => {
                        push_spaces(&mut label, depth - 1);
                        if *open {
                            label.append("\u{25bc} ");
                            proof {
                                reveal_strlit("\u{25bc} ");
                            }
                        } else {
                            label.append("\u{25b6} ");
                            proof {
                                reveal_strlit("\u{25b6} ");
                            }
                        }
                    },
                    NodeType::File(_) => {
                        push_spaces(&mut label, depth);
                        label.append(" ");
                        proof {
                            reveal_strlit(" ");
                            assert(spaces(depth as int) + " "@ =~= spaces(depth + 1));
                        }
                    },
                }
                label.append(node.name.as_str());
            },
            None => {},
        }
        label
    }
}

/// A key with no empty piece between its '/' characters: it neither
/// starts nor ends with '/', nor holds two in a row.
pub open spec fn clean_key(k: Seq<char>) -> bool {
    forall|i: int| 0 <= i < split_slash(k).len() ==> (#[trigger] split_slash(k)[i]).len() > 0
}

/// Joining a sequence whose last piece grew by `c` gives the old join
/// followed by `c`.
proof fn lemma_join_grow_last(p: Seq<Seq<char>>, c: char)
    requires
        p.len() >= 1,
    ensures
        join_slash(p.update(p.len() - 1, p.last().push(c))) == join_slash(p).push(c),
{
    let q = p.update(p.len() - 1, p.last().push(c));
    if p.len() > 1 {
        assert(q.drop_last() =~= p.drop_last());
        assert(join_slash(q) =~= join_slash(p).push(c));
    }
}

/// Splitting at '/' and joining the pieces with '/' gives `s` back.
proof fn lemma_join_split(s: Seq<char>)
    ensures
        join_slash(split_slash(s)) == s,
    decreases s.len(),
{
    if s.len() > 0 {
        let p = split_slash(s.drop_last());
        lemma_join_split(s.drop_last());
        lemma_split_slash_nonempty(s.drop_last());
        if s.last() == '/' {
            assert(p.push(Seq::empty()).drop_last() =~= p);
            assert(join_slash(p.push(Seq::empty())) =~= s);
        } else {
            lemma_join_grow_last(p, s.last());
            assert(s.drop_last().push(s.last()) =~= s);
        }
    }
}

/// Keeping the non-empty pieces keeps all of them when none is empty.
proof fn lemma_filter_keeps_nonempty(v: Seq<Seq<char>>)
    requires
        forall|i: int| 0 <= i < v.len() ==> (#[trigger] v[i]).len() > 0,
    ensures
        v.filter(|p: Seq<char>| p.len() > 0) == v,
    decreases v.len(),
{
    if v.len() > 0 {
        let pred = |p: Seq<char>| p.len() > 0;
        lemma_filter_keeps_nonempty(v.drop_last());
        v.drop_last().lemma_filter_push(v.last(), pred);
        assert(v.drop_last().push(v.last()) =~= v);
    }
}

/// In a tree built from a listing, the path of a file joined with '/' is
/// the key it carries, whenever that key has no empty piece between its
/// '/' characters.
pub proof fn lemma_file_path_is_key(t: Tree, objects: Seq<S3Object>, x: NodeId)
    requires
        built_from(t.nodes(), t.root, objects),
        t.nodes().contains_key(x),
        t.nodes()[x].0.node_type is File,
        clean_key(t.nodes()[x].0.node_type->File_0.0@),
    ensures
        join_slash(t.path_of(x)) == t.nodes()[x].0.node_type->File_0.0@,
{
    let m = t.nodes();
    let key = m[x].0.node_type->File_0.0@;
    let k = choose|k: int|
        0 <= k < objects.len() && objects[k].key->0@ == key && !(objects[k].key->0@.len() > 0
            && objects[k].key->0@.last() == '/') && node_path(m, x) == #[trigger] object_components(
            objects,
            k,
        );
    lemma_filter_keeps_nonempty(split_slash(key));
    lemma_join_split(key);
}

} // verus!
