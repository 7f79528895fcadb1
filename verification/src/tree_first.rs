//! Which object of a listing first leads to each node of a bucket's tree,
//! and what that decides: whether the node is a file or a folder, and
//! where it stands among its siblings.
use crate::arena::{arena_links, links_ranked};
use crate::listing::S3Object;
use crate::tree::{lemma_ranked_facts, NodeMap};
use crate::tree_build::{build_inv, names_to, object_components};
use crate::tree_node::NodeType;
use indextree::NodeId;
use vstd::prelude::*;

verus! {

/// Object `k` goes through `p`: `p` is a non-empty leading part of the
/// components of its key.
pub open spec fn passes_through(objects: Seq<S3Object>, k: int, p: Seq<Seq<char>>) -> bool {
    &&& 1 <= p.len() <= object_components(objects, k).len()
    &&& object_components(objects, k).take(p.len() as int) == p
}

/// The first of the objects before `upto` that goes through `p`.
pub open spec fn first_through(objects: Seq<S3Object>, p: Seq<Seq<char>>, upto: int) -> Option<int>
    decreases upto,
{
    if upto <= 0 {
        None
    } else {
        match first_through(objects, p, upto - 1) {
            Some(k) => Some(k),
            None => if passes_through(objects, upto - 1, p) {
                Some(upto - 1)
            } else {
                None
            },
        }
    }
}

/// The key of object `k` ends with '/'.
pub open spec fn key_is_folder(objects: Seq<S3Object>, k: int) -> bool {
    let s = objects[k].key->0@;
    s.len() > 0 && s.last() == '/'
}

/// The kind of the node for `p` when object `k` is the first through it:
/// a file that carries `k`'s key when `p` is `k`'s whole path and the key
/// does not end with '/'; a folder otherwise.
pub open spec fn kind_for(objects: Seq<S3Object>, k: int, p: Seq<Seq<char>>, t: NodeType) -> bool {
    if object_components(objects, k) == p && !key_is_folder(objects, k) {
        t is File && t->File_0.0@ == objects[k].key->0@
    } else {
        t is Dir
    }
}

/// `t` is the kind that the first object before `upto` through `p`
/// gives; false when no object goes through `p`.
pub open spec fn first_kind(objects: Seq<S3Object>, p: Seq<Seq<char>>, upto: int, t: NodeType) -> bool {
    match first_through(objects, p, upto) {
        Some(k) => kind_for(objects, k, p, t),
        None => false,
    }
}

/// The place of the first object before `upto` through `p`; `upto` when
/// there is none.
pub open spec fn first_index(objects: Seq<S3Object>, p: Seq<Seq<char>>, upto: int) -> int {
    match first_through(objects, p, upto) {
        Some(k) => k,
        None => upto,
    }
}

/// The path of `x` below the root, as `rank` orders the arena.
pub open spec fn rpath(m: NodeMap, rank: Map<NodeId, nat>, x: NodeId) -> Seq<Seq<char>> {
    names_to(m, rank, x).drop_first()
}

/// Some node has the path `p`.
pub open spec fn reached(m: NodeMap, rank: Map<NodeId, nat>, p: Seq<Seq<char>>) -> bool {
    exists|x: NodeId| m.contains_key(x) && #[trigger] rpath(m, rank, x) == p
}

/// No two nodes have the same path.
#[verifier::opaque]
pub open spec fn paths_unique(m: NodeMap, rank: Map<NodeId, nat>) -> bool {
    forall|x: NodeId, y: NodeId|
        #![trigger rpath(m, rank, x), rpath(m, rank, y)]
        m.contains_key(x) && m.contains_key(y) && rpath(m, rank, x) == rpath(m, rank, y) ==> x == y
}

/// Every leading part of the path of every object before `upto` is the
/// path of a node.
#[verifier::opaque]
pub open spec fn prefixes_reached(m: NodeMap, rank: Map<NodeId, nat>, objects: Seq<S3Object>, upto: int) -> bool {
    forall|k: int, n: int|
        0 <= k < upto && 1 <= n <= object_components(objects, k).len() ==> #[trigger] reached(
            m,
            rank,
            object_components(objects, k).take(n),
        )
}

/// The leading parts of `comps` of up to `upto` components are paths of
/// nodes.
#[verifier::opaque]
pub open spec fn chain_reached(m: NodeMap, rank: Map<NodeId, nat>, comps: Seq<Seq<char>>, upto: int) -> bool {
    forall|n: int| 1 <= n <= upto ==> #[trigger] reached(m, rank, comps.take(n))
}

/// Each node but the root has the kind that the first object before
/// `upto` through its path gives.
#[verifier::opaque]
pub open spec fn kinds_first(
    m: NodeMap,
    root: NodeId,
    rank: Map<NodeId, nat>,
    objects: Seq<S3Object>,
    upto: int,
) -> bool {
    forall|x: NodeId|
        #[trigger] m.contains_key(x) && x != root ==> first_kind(
            objects,
            rpath(m, rank, x),
            upto,
            m[x].0.node_type,
        )
}

/// The children of each node come in the order of the first objects
/// through them.
#[verifier::opaque]
pub open spec fn siblings_first_ordered(
    m: NodeMap,
    rank: Map<NodeId, nat>,
    objects: Seq<S3Object>,
    upto: int,
) -> bool {
    forall|x: NodeId, i: int, j: int|
        #![trigger m[x].2[i], m[x].2[j]]
        m.contains_key(x) && 0 <= i < j < m[x].2.len() ==> first_index(
            objects,
            rpath(m, rank, m[x].2[i]),
            upto,
        ) < first_index(objects, rpath(m, rank, m[x].2[j]), upto)
}

/// What `first_through` gives: the least object that goes through `p`.
pub proof fn lemma_first_through(objects: Seq<S3Object>, p: Seq<Seq<char>>, upto: int)
    ensures
        match first_through(objects, p, upto) {
            Some(k) => 0 <= k < upto && passes_through(objects, k, p) && forall|q: int|
                0 <= q < k ==> !#[trigger] passes_through(objects, q, p),
            None => forall|q: int| 0 <= q < upto ==> !#[trigger] passes_through(objects, q, p),
        },
    decreases upto,
{
    if upto > 0 {
        lemma_first_through(objects, p, upto - 1);
    }
}

/// The path of a node below the root is its parent's path and its name.
pub proof fn lemma_rpath_parent(m: NodeMap, root: NodeId, rank: Map<NodeId, nat>, bound: nat, y: NodeId)
    requires
        build_inv(m, root, rank, bound),
        m.contains_key(y),
    ensures
        y == root ==> rpath(m, rank, y) == Seq::<Seq<char>>::empty(),
        y != root ==> (m[y].1 matches Some(p) && m.contains_key(p) && m[p].2.contains(y) && rpath(
            m,
            rank,
            y,
        ) == rpath(m, rank, p).push(m[y].0.name@)),
{
    lemma_ranked_facts(m, rank, bound);
    if y == root {
        assert(names_to(m, rank, y) == seq![m[y].0.name@]);
    } else {
        let p = m[y].1->0;
        assert(names_to(m, rank, y) == names_to(m, rank, p).push(m[y].0.name@));
        assert(names_to(m, rank, p).len() >= 1) by {
            reveal_with_fuel(names_to, 1);
        }
        let a = names_to(m, rank, p);
        assert(a.push(m[y].0.name@).drop_first() =~= a.drop_first().push(m[y].0.name@));
    }
}

/// Moving on to the next object keeps what the first objects decide for
/// the nodes already there.
pub proof fn lemma_first_next(
    m: NodeMap,
    root: NodeId,
    rank: Map<NodeId, nat>,
    bound: nat,
    objects: Seq<S3Object>,
    oi: int,
)
    requires
        build_inv(m, root, rank, bound),
        oi >= 0,
        kinds_first(m, root, rank, objects, oi),
        siblings_first_ordered(m, rank, objects, oi),
    ensures
        kinds_first(m, root, rank, objects, oi + 1),
        siblings_first_ordered(m, rank, objects, oi + 1),
{
    reveal(kinds_first);
    reveal(siblings_first_ordered);
    lemma_ranked_facts(m, rank, bound);
    assert forall|x: NodeId, i: int, j: int|
        #![trigger m[x].2[i], m[x].2[j]]
        m.contains_key(x) && 0 <= i < j < m[x].2.len() implies first_index(
            objects,
            rpath(m, rank, m[x].2[i]),
            oi + 1,
        ) < first_index(objects, rpath(m, rank, m[x].2[j]), oi + 1) by {
        let ci = m[x].2[i];
        let cj = m[x].2[j];
        assert(m.contains_key(ci) && m[ci].1 == Some(x));
        assert(m.contains_key(cj) && m[cj].1 == Some(x));
        assert(first_kind(objects, rpath(m, rank, ci), oi, m[ci].0.node_type));
        assert(first_kind(objects, rpath(m, rank, cj), oi, m[cj].0.node_type));
    }
}

/// The leading parts of the path of object `oi` reached, every object
/// up to it has its leading parts reached.
pub proof fn lemma_prefixes_next(m: NodeMap, rank: Map<NodeId, nat>, objects: Seq<S3Object>, oi: int)
    requires
        prefixes_reached(m, rank, objects, oi),
        chain_reached(m, rank, object_components(objects, oi), object_components(objects, oi).len() as int),
    ensures
        prefixes_reached(m, rank, objects, oi + 1),
{
    reveal(prefixes_reached);
    reveal(chain_reached);
    assert forall|k: int, n: int|
        0 <= k < oi + 1 && 1 <= n <= object_components(objects, k).len() implies #[trigger] reached(
        m,
        rank,
        object_components(objects, k).take(n),
    ) by {
        if k == oi {
            assert(reached(m, rank, object_components(objects, oi).take(n)));
        }
    }
}

/// The shape of one growth step: `m2` is `m` with `new_id` added as the
/// last child of `curr`, the paths of the old nodes unchanged.
pub open spec fn grown_by(
    m: NodeMap,
    rank: Map<NodeId, nat>,
    m2: NodeMap,
    rank2: Map<NodeId, nat>,
    curr: NodeId,
    new_id: NodeId,
) -> bool {
    &&& m.contains_key(curr)
    &&& !m.contains_key(new_id)
    &&& m2 == m.insert(new_id, (m2[new_id].0, Some(curr), Seq::empty())).insert(
        curr,
        (m[curr].0, m[curr].1, m[curr].2.push(new_id)),
    )
    &&& forall|x: NodeId| #[trigger] m.contains_key(x) ==> names_to(m2, rank2, x) == names_to(m, rank, x)
}

/// No child of `curr` is named `name`.
pub open spec fn no_child_named(m: NodeMap, curr: NodeId, name: Seq<char>) -> bool {
    forall|j: int| 0 <= j < m[curr].2.len() ==> m[#[trigger] m[curr].2[j]].0.name@ != name
}

/// When `curr` has no child named `name`, no node has `curr`'s path
/// followed by `name`.
proof fn lemma_no_old_path(
    m: NodeMap,
    root: NodeId,
    rank: Map<NodeId, nat>,
    bound: nat,
    curr: NodeId,
    name: Seq<char>,
)
    requires
        build_inv(m, root, rank, bound),
        m.contains_key(curr),
        paths_unique(m, rank),
        no_child_named(m, curr, name),
    ensures
        forall|y: NodeId| #[trigger] m.contains_key(y) ==> rpath(m, rank, y) != rpath(m, rank, curr).push(name),
{
    let p = rpath(m, rank, curr).push(name);
    assert forall|y: NodeId| #[trigger] m.contains_key(y) implies rpath(m, rank, y) != p by {
        if rpath(m, rank, y) == p {
            lemma_rpath_parent(m, root, rank, bound, y);
            if y != root {
                let py = m[y].1->0;
                assert(rpath(m, rank, py) =~= p.drop_last());
                reveal(paths_unique);
                assert(rpath(m, rank, py) == rpath(m, rank, curr));
                assert(py == curr);
                let j = choose|j: int| 0 <= j < m[curr].2.len() && m[curr].2[j] == y;
                assert(m[y].0.name@ == p.last());
                assert(m[m[curr].2[j]].0.name@ != name);
            }
        }
    }
}

/// A growth step keeps the paths apart and what old nodes reach.
proof fn lemma_append_paths(
    m: NodeMap,
    rank: Map<NodeId, nat>,
    m2: NodeMap,
    rank2: Map<NodeId, nat>,
    curr: NodeId,
    new_id: NodeId,
    objects: Seq<S3Object>,
    oi: int,
    ind: int,
)
    requires
        grown_by(m, rank, m2, rank2, curr, new_id),
        0 <= ind < object_components(objects, oi).len(),
        rpath(m2, rank2, new_id) == object_components(objects, oi).take(ind + 1),
        forall|y: NodeId| #[trigger] m.contains_key(y) ==> rpath(m, rank, y) != object_components(objects, oi).take(ind + 1),
        paths_unique(m, rank),
        prefixes_reached(m, rank, objects, oi),
        chain_reached(m, rank, object_components(objects, oi), ind),
    ensures
        paths_unique(m2, rank2),
        prefixes_reached(m2, rank2, objects, oi),
        chain_reached(m2, rank2, object_components(objects, oi), ind + 1),
{
    let comps = object_components(objects, oi);
    assert forall|x: NodeId| #[trigger] m.contains_key(x) implies rpath(m2, rank2, x) == rpath(m, rank, x) by {}
    assert(paths_unique(m2, rank2)) by {
        reveal(paths_unique);
        assert forall|x: NodeId, y: NodeId|
            #![trigger rpath(m2, rank2, x), rpath(m2, rank2, y)]
            m2.contains_key(x) && m2.contains_key(y) && rpath(m2, rank2, x) == rpath(m2, rank2, y) implies x == y by {
            if x != new_id && y != new_id {
                assert(m.contains_key(x) && m.contains_key(y));
                assert(rpath(m, rank, x) == rpath(m, rank, y));
            } else if x != new_id {
                assert(m.contains_key(x));
            } else if y != new_id {
                assert(m.contains_key(y));
            }
        }
    }
    assert(prefixes_reached(m2, rank2, objects, oi)) by {
        reveal(prefixes_reached);
        assert forall|k: int, n: int|
            0 <= k < oi && 1 <= n <= object_components(objects, k).len() implies #[trigger] reached(
            m2,
            rank2,
            object_components(objects, k).take(n),
        ) by {
            assert(reached(m, rank, object_components(objects, k).take(n)));
            let x = choose|x: NodeId| m.contains_key(x) && #[trigger] rpath(m, rank, x) == object_components(objects, k).take(n);
            assert(rpath(m2, rank2, x) == rpath(m, rank, x));
        }
    }
    assert(chain_reached(m2, rank2, comps, ind + 1)) by {
        reveal(chain_reached);
        assert forall|n: int| 1 <= n <= ind + 1 implies #[trigger] reached(m2, rank2, comps.take(n)) by {
            if n <= ind {
                assert(reached(m, rank, comps.take(n)));
                let x = choose|x: NodeId| m.contains_key(x) && #[trigger] rpath(m, rank, x) == comps.take(n);
                assert(rpath(m2, rank2, x) == rpath(m, rank, x));
            } else {
                assert(rpath(m2, rank2, new_id) == comps.take(n));
            }
        }
    }
}

/// The first object through a path that no node has yet, when the
/// leading parts of the earlier objects' paths are all reached, is the
/// object at hand.
proof fn lemma_new_path_first(
    m: NodeMap,
    rank: Map<NodeId, nat>,
    objects: Seq<S3Object>,
    oi: int,
    ind: int,
)
    requires
        0 <= oi,
        0 <= ind < object_components(objects, oi).len(),
        forall|y: NodeId| #[trigger] m.contains_key(y) ==> rpath(m, rank, y) != object_components(objects, oi).take(ind + 1),
        prefixes_reached(m, rank, objects, oi),
    ensures
        first_through(objects, object_components(objects, oi).take(ind + 1), oi + 1) == Some(oi),
{
    let p = object_components(objects, oi).take(ind + 1);
    lemma_first_through(objects, p, oi);
    if first_through(objects, p, oi) is Some {
        let k = first_through(objects, p, oi)->0;
        assert(passes_through(objects, k, p));
        reveal(prefixes_reached);
        assert(object_components(objects, k).take(p.len() as int) == p);
        assert(reached(m, rank, object_components(objects, k).take(p.len() as int)));
        let y = choose|y: NodeId| m.contains_key(y) && #[trigger] rpath(m, rank, y) == p;
        assert(rpath(m, rank, y) != p);
    }
    assert(p.len() == ind + 1);
    assert(passes_through(objects, oi, p));
}

/// A growth step keeps the kinds the first objects give.
proof fn lemma_append_kinds(
    m: NodeMap,
    root: NodeId,
    rank: Map<NodeId, nat>,
    m2: NodeMap,
    rank2: Map<NodeId, nat>,
    curr: NodeId,
    new_id: NodeId,
    objects: Seq<S3Object>,
    oi: int,
)
    requires
        grown_by(m, rank, m2, rank2, curr, new_id),
        new_id != root,
        first_kind(objects, rpath(m2, rank2, new_id), oi + 1, m2[new_id].0.node_type),
        kinds_first(m, root, rank, objects, oi + 1),
    ensures
        kinds_first(m2, root, rank2, objects, oi + 1),
{
    reveal(kinds_first);
    assert forall|x: NodeId| #[trigger] m2.contains_key(x) && x != root implies first_kind(
        objects,
        rpath(m2, rank2, x),
        oi + 1,
        m2[x].0.node_type,
    ) by {
        if x != new_id {
            assert(m.contains_key(x));
            assert(m2[x].0 == m[x].0);
            assert(rpath(m2, rank2, x) == rpath(m, rank, x));
        }
    }
}

/// A growth step for object `oi` keeps siblings in the order of their
/// first objects: the new child comes last, and its first object is `oi`.
proof fn lemma_append_order(
    m: NodeMap,
    root: NodeId,
    rank: Map<NodeId, nat>,
    bound: nat,
    m2: NodeMap,
    rank2: Map<NodeId, nat>,
    curr: NodeId,
    new_id: NodeId,
    objects: Seq<S3Object>,
    oi: int,
    ind: int,
)
    requires
        build_inv(m, root, rank, bound),
        grown_by(m, rank, m2, rank2, curr, new_id),
        0 <= ind < object_components(objects, oi).len(),
        rpath(m, rank, curr) == object_components(objects, oi).take(ind),
        first_through(objects, rpath(m2, rank2, new_id), oi + 1) == Some(oi),
        no_child_named(m, curr, object_components(objects, oi)[ind]),
        kinds_first(m, root, rank, objects, oi + 1),
        siblings_first_ordered(m, rank, objects, oi + 1),
    ensures
        siblings_first_ordered(m2, rank2, objects, oi + 1),
{
    let comps = object_components(objects, oi);
    lemma_ranked_facts(m, rank, bound);
    reveal(siblings_first_ordered);
    reveal(kinds_first);
    assert forall|x: NodeId, i: int, j: int|
        #![trigger m2[x].2[i], m2[x].2[j]]
        m2.contains_key(x) && 0 <= i < j < m2[x].2.len() implies first_index(
            objects,
            rpath(m2, rank2, m2[x].2[i]),
            oi + 1,
        ) < first_index(objects, rpath(m2, rank2, m2[x].2[j]), oi + 1) by {
        if x == curr {
            let ci = m[curr].2[i];
            assert(m2[x].2[i] == ci);
            assert(m.contains_key(ci) && m[ci].1 == Some(curr));
            assert(rpath(m2, rank2, ci) == rpath(m, rank, ci));
            if j < m[curr].2.len() {
                let cj = m[curr].2[j];
                assert(m2[x].2[j] == cj);
                assert(m.contains_key(cj));
                assert(rpath(m2, rank2, cj) == rpath(m, rank, cj));
            } else {
                assert(m2[x].2[j] == new_id);
                let pc = rpath(m, rank, ci);
                assert(ci != root);
                assert(first_kind(objects, pc, oi + 1, m[ci].0.node_type));
                let kc = first_through(objects, pc, oi + 1)->0;
                lemma_first_through(objects, pc, oi + 1);
                lemma_rpath_parent(m, root, rank, bound, ci);
                assert(pc == comps.take(ind).push(m[ci].0.name@));
                if kc == oi {
                    assert(comps.take(pc.len() as int) == pc);
                    assert(comps.take(ind + 1)[ind] == comps[ind]);
                    assert(pc[ind] == m[ci].0.name@);
                    assert(m[m[curr].2[i]].0.name@ != comps[ind]);
                }
            }
        } else if x != new_id {
            assert(m.contains_key(x));
            assert(m2[x].2 == m[x].2);
            let ci = m[x].2[i];
            let cj = m[x].2[j];
            assert(m.contains_key(ci) && m.contains_key(cj));
            assert(rpath(m2, rank2, ci) == rpath(m, rank, ci));
            assert(rpath(m2, rank2, cj) == rpath(m, rank, cj));
        }
    }
}

/// Adding a child of `curr` for the next component of object `oi`, when
/// `curr` has no child of that name, keeps the paths apart and the facts
/// about first objects, and reaches one more leading part of the path.
pub proof fn lemma_append_first(
    m: NodeMap,
    root: NodeId,
    rank: Map<NodeId, nat>,
    bound: nat,
    m2: NodeMap,
    rank2: Map<NodeId, nat>,
    curr: NodeId,
    new_id: NodeId,
    objects: Seq<S3Object>,
    oi: int,
    ind: int,
)
    requires
        build_inv(m, root, rank, bound),
        0 <= oi < objects.len(),
        0 <= ind < object_components(objects, oi).len(),
        grown_by(m, rank, m2, rank2, curr, new_id),
        rpath(m, rank, curr) == object_components(objects, oi).take(ind),
        rpath(m2, rank2, new_id) == object_components(objects, oi).take(ind + 1),
        no_child_named(m, curr, object_components(objects, oi)[ind]),
        kind_for(objects, oi, object_components(objects, oi).take(ind + 1), m2[new_id].0.node_type),
        paths_unique(m, rank),
        prefixes_reached(m, rank, objects, oi),
        chain_reached(m, rank, object_components(objects, oi), ind),
        kinds_first(m, root, rank, objects, oi + 1),
        siblings_first_ordered(m, rank, objects, oi + 1),
    ensures
        paths_unique(m2, rank2),
        prefixes_reached(m2, rank2, objects, oi),
        chain_reached(m2, rank2, object_components(objects, oi), ind + 1),
        kinds_first(m2, root, rank2, objects, oi + 1),
        siblings_first_ordered(m2, rank2, objects, oi + 1),
{
    let comps = object_components(objects, oi);
    assert(comps.take(ind + 1) =~= comps.take(ind).push(comps[ind]));
    lemma_no_old_path(m, root, rank, bound, curr, comps[ind]);
    lemma_append_paths(m, rank, m2, rank2, curr, new_id, objects, oi, ind);
    lemma_new_path_first(m, rank, objects, oi, ind);
    assert(new_id != root);
    lemma_append_kinds(m, root, rank, m2, rank2, curr, new_id, objects, oi);
    lemma_append_order(m, root, rank, bound, m2, rank2, curr, new_id, objects, oi, ind);
}

/// A node with the next leading part of `comps` reaches one part more.
pub proof fn lemma_chain_extend(m: NodeMap, rank: Map<NodeId, nat>, comps: Seq<Seq<char>>, ind: int, x: NodeId)
    requires
        chain_reached(m, rank, comps, ind),
        m.contains_key(x),
        rpath(m, rank, x) == comps.take(ind + 1),
    ensures
        chain_reached(m, rank, comps, ind + 1),
{
    reveal(chain_reached);
    assert forall|n: int| 1 <= n <= ind + 1 implies #[trigger] reached(m, rank, comps.take(n)) by {
        if n == ind + 1 {
            assert(rpath(m, rank, x) == comps.take(n));
        }
    }
}

/// The node made for component `ind` of object `oi` has the kind that
/// object gives it: a file for the last component of a key that does not
/// end with '/', a folder otherwise.
pub proof fn lemma_new_node_kind(
    objects: Seq<S3Object>,
    oi: int,
    ind: int,
    t: NodeType,
    is_last: bool,
    is_dir: bool,
    key: Seq<char>,
)
    requires
        0 <= oi < objects.len(),
        0 <= ind < object_components(objects, oi).len(),
        is_last == (ind == object_components(objects, oi).len() - 1),
        key == objects[oi].key->0@,
        is_dir == (key.len() > 0 && key.last() == '/'),
        is_last && !is_dir ==> t is File && t->File_0.0@ == key,
        !(is_last && !is_dir) ==> t is Dir,
    ensures
        kind_for(objects, oi, object_components(objects, oi).take(ind + 1), t),
{
    let comps = object_components(objects, oi);
    if is_last {
        assert(comps.take(ind + 1) =~= comps);
    } else {
        assert(comps.take(ind + 1).len() != comps.len());
    }
}

} // verus!
