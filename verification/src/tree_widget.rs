//! Selection and folding in the file tree of the open bucket.
use crate::arena::{
    arena_ancestors, arena_get_data, arena_get_data_mut, arena_links, arena_node_ids,
    arena_nodes, id_set_at, id_set_get_index, id_set_get_index_of, id_set_items, id_set_len, links_acyclic,
    node_id_eq,
};
use crate::listing::S3Object;
use crate::tree::{lemma_visible_nodes, NodeMap, Tree};
use crate::tree_build::built_from;
use crate::tree_node::{NodeType, Open, TreeNode};
use indextree::NodeId;
use vstd::prelude::*;

verus! {

/// The first of `v`, if there is one.
pub open spec fn first_of(v: Seq<NodeId>) -> Option<NodeId> {
    if v.len() > 0 {
        Some(v[0])
    } else {
        None
    }
}

/// The selection after moving up: the node before the selected one in
/// display order (staying on the first), or the first node when nothing
/// shown is selected.
pub open spec fn select_up(v: Seq<NodeId>, sel: Option<NodeId>) -> Option<NodeId> {
    match sel {
        None => first_of(v),
        Some(id) => if v.contains(id) {
            let i = v.index_of(id);
            Some(v[if i > 0 {
                i - 1
            } else {
                0
            }])
        } else {
            first_of(v)
        },
    }
}

/// The selection after moving down: the node after the selected one in
/// display order (staying on the last), the first node when the selected
/// one is not shown, and nothing when nothing is shown.
pub open spec fn select_down(v: Seq<NodeId>, sel: Option<NodeId>) -> Option<NodeId> {
    match sel {
        None => first_of(v),
        Some(id) => if v.len() == 0 {
            None
        } else if v.contains(id) {
            let i = v.index_of(id);
            Some(v[if i + 1 < v.len() {
                i + 1
            } else {
                v.len() - 1
            }])
        } else {
            first_of(v)
        },
    }
}

/// `m` with the node type of `id` replaced by `ty`.
pub open spec fn with_node_type(m: NodeMap, id: NodeId, ty: NodeType) -> NodeMap {
    m.insert(id, (TreeNode { name: m[id].0.name, node_type: ty }, m[id].1, m[id].2))
}

/// The tree after `nodes` changed and the flattened list was rebuilt.
pub open spec fn tree_after(t: Tree, t2: Tree, nodes: NodeMap) -> bool {
    &&& t2.wf()
    &&& t2.nodes() == nodes
    &&& t2.bucket == t.bucket
    &&& t2.root == t.root
    &&& t2.selected == t.selected
    &&& t2.offset == t.offset
}

/// A folder closed; files as they are.
pub open spec fn closed_node(n: TreeNode) -> TreeNode {
    match n.node_type {
        NodeType::Dir(_) => TreeNode { name: n.name, node_type: NodeType::Dir(Open(false)) },
        NodeType::File(_) => n,
    }
}

/// `m` with every folder closed.
pub open spec fn all_closed(m: NodeMap) -> NodeMap {
    Map::new(|x: NodeId| m.contains_key(x), |x: NodeId| (closed_node(m[x].0), m[x].1, m[x].2))
}

proof fn lemma_index_of_unique(v: Seq<NodeId>, i: int)
    requires
        v.no_duplicates(),
        0 <= i < v.len(),
    ensures
        v.contains(v[i]),
        v.index_of(v[i]) == i,
{
    assert(v.contains(v[i]));
}

/// `new` is `old` after flipping the selected folder between open and
/// closed, the flattened list rebuilt; nothing changes without a tree, a
/// selection or a selected folder.
pub open spec fn toggled_selected(old: TreeWidget, new: TreeWidget) -> bool {
    &&& new.active() == old.active()
    &&& match old.tree {
        None => new.tree is None,
        Some(t) => new.tree matches Some(t2) && match t.selected {
            None => t2 == t,
            Some(id) => tree_after(
                t,
                t2,
                if t.nodes().contains_key(id) && t.nodes()[id].0.is_dir() {
                    with_node_type(
                        t.nodes(),
                        id,
                        NodeType::Dir(Open(!t.nodes()[id].0.is_open_dir())),
                    )
                } else {
                    t.nodes()
                },
            ),
        },
    }
}

/// The tree pane: the tree of the open bucket, if any, and whether the
/// pane has the focus.
#[derive(Default)]
pub struct TreeWidget {
    pub tree: Option<Tree>,
    pub is_active: bool,
}

impl TreeWidget {
    /// Whether the pane has the focus.
    pub open spec fn active(&self) -> bool {
        self.is_active
    }

    /// The tree, when there is one, is well formed.
    pub open spec fn wf(&self) -> bool {
        self.tree matches Some(t) ==> t.wf()
    }

    /// Whether the pane has the focus.
    pub fn is_active(&self) -> (r: bool)
        ensures
            r == self.active(),
    {
        self.is_active
    }

    /// Shows the tree built from the objects of `bucket`.
    pub fn set_tree(&mut self, bucket: String, objects: Vec<S3Object>)
        requires
            forall|k: int| 0 <= k < objects.len() ==> (#[trigger] objects[k]).key is Some,
        ensures
            final(self).wf(),
            final(self).tree matches Some(t) && t.bucket == bucket && t.selected is None
                && t.offset == 0 && built_from(t.nodes(), t.root, objects@),
            final(self).active() == old(self).active(),
    {
        self.tree = Some(Tree::new(bucket, objects));
    }

    /// Gives or takes the focus.
    pub fn set_active(&mut self, active: bool)
        ensures
            final(self).active() == active,
            final(self).tree == old(self).tree,
    {
        self.is_active = active;
    }

    /// Selects a node; says whether the selection changed. Without a tree
    /// nothing happens.
    pub fn select(&mut self, index: NodeId) -> (changed: bool)
        ensures
            final(self).active() == old(self).active(),
            match old(self).tree {
                None => !changed && final(self).tree is None,
                Some(t) => final(self).tree == Some(Tree { selected: Some(index), ..t })
                    && changed == (t.selected != Some(index)),
            },
    {
        match self.tree.as_mut() {
            Some(tree) => {
                let changed = match tree.selected {
                    Some(sel) => !node_id_eq(&sel, &index),
                    None => true,
                };
                tree.selected = Some(index);
                changed
            },
            None => false,
        }
    }
}


impl TreeWidget {
    /// Opens a closed folder and rebuilds what shows; anything else is
    /// left as it is.
    pub fn try_open(&mut self, identifier: NodeId)
        requires
            old(self).wf(),
        ensures
            final(self).active() == old(self).active(),
            match old(self).tree {
                None => final(self).tree is None,
                Some(t) => final(self).tree matches Some(t2) && tree_after(
                    t,
                    t2,
                    if t.nodes().contains_key(identifier) && t.nodes()[identifier].0.node_type
                        == NodeType::Dir(Open(false)) {
                        with_node_type(t.nodes(), identifier, NodeType::Dir(Open(true)))
                    } else {
                        t.nodes()
                    },
                ),
            },
    {
        match &mut self.tree {
            Some(tree) => {
                let ghost m = tree.nodes();
                let changed = match arena_get_data_mut(&mut tree.arena, identifier) {
                    Some(node) => node.try_open(),
                    None => false,
                };
                proof {
                    if !changed && m.contains_key(identifier) {
                        assert(tree.nodes() =~= m);
                    }
                    assert(arena_links(tree.nodes()) =~= arena_links(m));
                }
                if changed {
                    tree.update_flattened();
                }
            },
            None => {},
        }
    }

    /// Closes an open folder and rebuilds what shows; anything else is
    /// left as it is.
    pub fn try_close(&mut self, identifier: NodeId)
        requires
            old(self).wf(),
        ensures
            final(self).active() == old(self).active(),
            match old(self).tree {
                None => final(self).tree is None,
                Some(t) => final(self).tree matches Some(t2) && tree_after(
                    t,
                    t2,
                    if t.nodes().contains_key(identifier) && t.nodes()[identifier].0.node_type
                        == NodeType::Dir(Open(true)) {
                        with_node_type(t.nodes(), identifier, NodeType::Dir(Open(false)))
                    } else {
                        t.nodes()
                    },
                ),
            },
    {
        match &mut self.tree {
            Some(tree) => {
                let ghost m = tree.nodes();
                let changed = match arena_get_data_mut(&mut tree.arena, identifier) {
                    Some(node) => node.try_close(),
                    None => false,
                };
                proof {
                    if !changed && m.contains_key(identifier) {
                        assert(tree.nodes() =~= m);
                    }
                    assert(arena_links(tree.nodes()) =~= arena_links(m));
                }
                if changed {
                    tree.update_flattened();
                }
            },
            None => {},
        }
    }

    /// Flips a folder between open and closed and rebuilds what shows;
    /// files are left alone.
    pub fn toggle(&mut self, identifier: NodeId)
        requires
            old(self).wf(),
        ensures
            final(self).active() == old(self).active(),
            match old(self).tree {
                None => final(self).tree is None,
                Some(t) => final(self).tree matches Some(t2) && tree_after(
                    t,
                    t2,
                    if t.nodes().contains_key(identifier) && t.nodes()[identifier].0.is_dir() {
                        with_node_type(
                            t.nodes(),
                            identifier,
                            NodeType::Dir(Open(!t.nodes()[identifier].0.is_open_dir())),
                        )
                    } else {
                        t.nodes()
                    },
                ),
            },
    {
        match &mut self.tree {
            Some(tree) => {
                let ghost m = tree.nodes();
                let changed = match arena_get_data_mut(&mut tree.arena, identifier) {
                    Some(node) => node.try_toggle(),
                    None => false,
                };
                proof {
                    if !changed && m.contains_key(identifier) {
                        assert(tree.nodes() =~= m);
                    }
                    assert(arena_links(tree.nodes()) =~= arena_links(m));
                }
                if changed {
                    tree.update_flattened();
                }
            },
            None => {},
        }
    }

    /// Flips the selected folder between open and closed.
    pub fn toggle_selected(&mut self)
        requires
            old(self).wf(),
        ensures
            final(self).wf(),
            toggled_selected(*old(self), *final(self)),
    {
        let sel = match &self.tree {
            Some(tree) => tree.selected,
            None => None,
        };
        match sel {
            Some(index) => self.toggle(index),
            None => {},
        }
    }

    /// Closes every folder and rebuilds what shows.
    pub fn close_all(&mut self)
        requires
            old(self).wf(),
        ensures
            final(self).active() == old(self).active(),
            match old(self).tree {
                None => final(self).tree is None,
                Some(t) => final(self).tree matches Some(t2) && tree_after(
                    t,
                    t2,
                    all_closed(t.nodes()),
                ),
            },
    {
        match &mut self.tree {
            Some(tree) => {
                let ghost m = tree.nodes();
                let ghost t0 = *tree;
                let ids = arena_node_ids(&tree.arena);
                let mut i: usize = 0;
                while i < ids.len()
                    invariant
                        ids@.no_duplicates(),
                        t0.wf(),
                        m == t0.nodes(),
                        tree.root == t0.root,
                        tree.bucket == t0.bucket,
                        tree.selected == t0.selected,
                        tree.offset == t0.offset,
                        forall|q: int| 0 <= q < ids.len() ==> m.contains_key(#[trigger] ids@[q]),
                        forall|x: NodeId| m.contains_key(x) ==> ids@.contains(x),
                        i <= ids.len(),
                        tree.nodes().dom() == m.dom(),
                        forall|x: NodeId| #[trigger]
                            tree.nodes().contains_key(x) ==> tree.nodes()[x] == if ids@.take(
                                i as int,
                            ).contains(x) {
                                (closed_node(m[x].0), m[x].1, m[x].2)
                            } else {
                                m[x]
                            },
                    decreases ids.len() - i,
                {
                    let ghost before = tree.nodes();
                    let id = ids[i];
                    match arena_get_data_mut(&mut tree.arena, id) {
                        Some(node) => {
                            let is_dir = match &node.node_type {
                                NodeType::Dir(_) => true,
                                NodeType::File(_) => false,
                            };
                            if is_dir {
                                node.try_close();
                            }
                        },
                        None => {},
                    }
                    proof {
                        assert(ids@.take(i + 1) =~= ids@.take(i as int).push(id));
                        assert(!ids@.take(i as int).contains(id)) by {
                            if ids@.take(i as int).contains(id) {
                                let q = choose|q: int| 0 <= q < i && ids@[q] == id;
                                assert(ids@[q] == ids@[i as int]);
                            }
                        }
                        assert(tree.nodes().dom() =~= m.dom());
                        assert(m.contains_key(ids@[i as int]));
                        assert forall|x: NodeId| #[trigger] tree.nodes().contains_key(x) implies tree.nodes()[x]
                            == if ids@.take(i + 1).contains(x) {
                            (closed_node(m[x].0), m[x].1, m[x].2)
                        } else {
                            m[x]
                        } by {
                            if x != id {
                                assert(ids@.take(i + 1).contains(x) == ids@.take(i as int).contains(x));
                                assert(before.contains_key(x));
                            } else {
                                assert(before[id] == m[id]);
                                assert(ids@.take(i + 1)[i as int] == id);
                                assert(ids@.take(i + 1).contains(id));
                                let nn = tree.nodes()[id].0;
                                assert(nn.name == m[id].0.name);
                                assert(nn.node_type == closed_node(m[id].0).node_type);
                                assert(nn == closed_node(m[id].0));
                            }
                        }
                    }
                    i = i + 1;
                }
                proof {
                    assert(ids@.take(ids.len() as int) =~= ids@);
                    assert(tree.nodes() =~= all_closed(m));
                    assert(arena_links(tree.nodes()) =~= arena_links(m));
                }
                tree.update_flattened();
            },
            None => {},
        }
    }

    /// Moves the selection one node up in display order.
    pub fn key_up(&mut self)
        requires
            old(self).wf(),
        ensures
            final(self).wf(),
            final(self).active() == old(self).active(),
            match old(self).tree {
                None => final(self).tree is None,
                Some(t) => final(self).tree == Some(
                    Tree { selected: select_up(t.visible(), t.selected), ..t },
                ),
            },
    {
        match &mut self.tree {
            Some(tree) => {
                proof {
                    lemma_visible_nodes(tree.nodes(), tree.root);
                }
                let ghost v = tree.visible();
                tree.selected = match tree.selected {
                    None => id_set_get_index(&tree.flattened, 0),
                    Some(node_id) => match id_set_get_index_of(&tree.flattened, &node_id) {
                        None => id_set_get_index(&tree.flattened, 0),
                        Some(ind) => {
                            proof {
                                lemma_index_of_unique(v, ind as int);
                            }
                            Some(id_set_at(&tree.flattened, ind.saturating_sub(1)))
                        },
                    },
                };
            },
            None => {},
        }
    }

    /// Moves the selection one node down in display order.
    pub fn key_down(&mut self)
        requires
            old(self).wf(),
        ensures
            final(self).wf(),
            final(self).active() == old(self).active(),
            match old(self).tree {
                None => final(self).tree is None,
                Some(t) => final(self).tree == Some(
                    Tree { selected: select_down(t.visible(), t.selected), ..t },
                ),
            },
    {
        match &mut self.tree {
            Some(tree) => {
                proof {
                    lemma_visible_nodes(tree.nodes(), tree.root);
                }
                let ghost v = tree.visible();
                tree.selected = match tree.selected {
                    None => id_set_get_index(&tree.flattened, 0),
                    Some(index) => {
                        let len = id_set_len(&tree.flattened);
                        if len == 0 {
                            None
                        } else {
                            match id_set_get_index_of(&tree.flattened, &index) {
                                None => id_set_get_index(&tree.flattened, 0),
                                Some(ind) => {
                                    proof {
                                        lemma_index_of_unique(v, ind as int);
                                    }
                                    let next = if ind + 1 < len {
                                        ind + 1
                                    } else {
                                        len - 1
                                    };
                                    Some(id_set_at(&tree.flattened, next))
                                },
                            }
                        }
                    },
                };
            },
            None => {},
        }
    }

    /// Moves the selection to the first node of the selected node's chain
    /// of ancestors, which is the selected node itself.
    pub fn try_select_to_parent(&mut self)
        requires
            old(self).wf(),
            old(self).tree matches Some(t) && t.selected matches Some(s) ==> t.nodes().contains_key(
                s,
            ),
        ensures
            final(self).wf(),
            final(self).tree == old(self).tree,
            final(self).active() == old(self).active(),
    {
        match &mut self.tree {
            Some(tree) => {
                tree.selected = match tree.selected {
                    None => None,
                    Some(node_id) => {
                        let ancestors = arena_ancestors(&tree.arena, node_id);
                        Some(ancestors[0])
                    },
                };
            },
            None => {},
        }
    }
}

/// The position of the selected node among the shown ones, when a node
/// is selected and shown.
pub open spec fn selected_position(t: Tree) -> Option<int> {
    match t.selected {
        Some(s) => if t.visible().contains(s) {
            Some(t.visible().index_of(s))
        } else {
            None
        },
        None => None,
    }
}

impl TreeWidget {
    /// The lines of the tree pane: each shown node as `node_label` gives
    /// it, in display order; none without a tree.
    pub fn labels(&self) -> (r: Vec<String>)
        requires
            self.wf(),
        ensures
            match self.tree {
                None => r.len() == 0,
                Some(t) => r.len() == t.visible().len() && forall|i: int|
                    0 <= i < r.len() ==> (#[trigger] r[i])@ == crate::tree_build::node_label(
                        t.depth_of(t.visible()[i]),
                        t.nodes()[t.visible()[i]].0,
                    ),
            },
    {
        let mut r: Vec<String> = Vec::new();
        match &self.tree {
            Some(tree) => {
                proof {
                    lemma_visible_nodes(tree.nodes(), tree.root);
                }
                let n = id_set_len(&tree.flattened);
                let mut i: usize = 0;
                while i < n
                    invariant
                        tree.wf(),
                        n == tree.visible().len(),
                        i <= n,
                        r.len() == i,
                        forall|y: NodeId| #[trigger]
                            tree.visible().contains(y) ==> tree.nodes().contains_key(y),
                        forall|k: int|
                            0 <= k < i ==> (#[trigger] r[k])@ == crate::tree_build::node_label(
                                tree.depth_of(tree.visible()[k]),
                                tree.nodes()[tree.visible()[k]].0,
                            ),
                    decreases n - i,
                {
                    let id = id_set_at(&tree.flattened, i);
                    proof {
                        assert(tree.visible().contains(tree.visible()[i as int]));
                    }
                    r.push(tree.label(&id));
                    i = i + 1;
                }
            },
            None => {},
        }
        r
    }

    /// The keys offered at the bottom of the pane for the selected node:
    /// download, delete and info for a file; open or close, upload and
    /// new folder for a folder; none when no live node is selected.
    pub fn controls(&self) -> (r: Option<&'static str>)
        ensures
            r is Some <==> (self.tree matches Some(t) && t.selected matches Some(s)
                && t.nodes().contains_key(s)),
            r matches Some(text) ==> text@ == if self.tree->0.nodes()[self.tree->0.selected->0].0.node_type is File {
                "| Download: d | Delete: Del | Info: i |"@
            } else {
                "| Open/Close: Enter | Upload file: u | New folder: f |"@
            },
    {
        match &self.tree {
            Some(tree) => match tree.selected {
                Some(id) => match arena_get_data(&tree.arena, id) {
                    Some(node) => match node.node_type {
                        NodeType::File(_) => Some("| Download: d | Delete: Del | Info: i |"),
                        NodeType::Dir(_) => Some(
                            "| Open/Close: Enter | Upload file: u | New folder: f |",
                        ),
                    },
                    None => None,
                },
                None => None,
            },
            None => None,
        }
    }

    /// The position of the selected node among the shown ones, for the
    /// list that draws them.
    pub fn selected_index(&self) -> (r: Option<usize>)
        requires
            self.wf(),
        ensures
            r == match self.tree {
                Some(t) => match selected_position(t) {
                    Some(i) => Some(i as usize),
                    None => None::<usize>,
                },
                None => None,
            },
            r matches Some(i) ==> (self.tree matches Some(t) && i < t.visible().len()
                && t.visible()[i as int] == t.selected->0),
    {
        match &self.tree {
            Some(tree) => match tree.selected {
                Some(id) => {
                    proof {
                        lemma_visible_nodes(tree.nodes(), tree.root);
                    }
                    match id_set_get_index_of(&tree.flattened, &id) {
                        Some(i) => {
                            proof {
                                lemma_index_of_unique(tree.visible(), i as int);
                            }
                            Some(i)
                        },
                        None => None,
                    }
                },
                None => None,
            },
            None => None,
        }
    }

    /// Takes back what the list that drew the tree kept: the position of
    /// the selected node, if any, and the scroll offset.
    pub fn set_view(&mut self, selected: Option<usize>, offset: usize)
        requires
            old(self).wf(),
            old(self).tree matches Some(t) && selected matches Some(i) ==> i < t.visible().len(),
        ensures
            final(self).wf(),
            final(self).active() == old(self).active(),
            match old(self).tree {
                None => final(self).tree is None,
                Some(t) => final(self).tree == Some(
                    Tree {
                        selected: match selected {
                            Some(i) => Some(t.visible()[i as int]),
                            None => None,
                        },
                        offset,
                        ..t
                    },
                ),
            },
    {
        match &mut self.tree {
            Some(tree) => {
                tree.selected = match selected {
                    Some(i) => Some(id_set_at(&tree.flattened, i)),
                    None => None,
                };
                tree.offset = offset;
            },
            None => {},
        }
    }
}

/// Moving up or down while anything shows lands on a node that shows.
pub proof fn lemma_selection_lands_on_shown(v: Seq<NodeId>, sel: Option<NodeId>)
    requires
        v.len() > 0,
    ensures
        select_up(v, sel) matches Some(s) && v.contains(s),
        select_down(v, sel) matches Some(s) && v.contains(s),
{
    match sel {
        Some(id) => {
            if v.contains(id) {
                let i = v.index_of(id);

                let up = if i > 0 { i - 1 } else { 0 };
                let down = if i + 1 < v.len() { i + 1 } else { v.len() - 1 };
                assert(v.contains(v[up]));
                assert(v.contains(v[down]));
            } else {
                assert(v.contains(v[0]));
            }
        },
        None => {
            assert(v.contains(v[0]));
        },
    }
}

/// Flipping the selected folder twice gives back the tree: the same
/// nodes, the same selection and the same nodes shown.
pub proof fn lemma_toggle_selected_twice(w0: TreeWidget, w1: TreeWidget, w2: TreeWidget)
    requires
        toggled_selected(w0, w1),
        toggled_selected(w1, w2),
    ensures
        w0.tree is None ==> w2.tree is None,
        w0.tree matches Some(t0) ==> (w2.tree matches Some(t2) && t2.nodes() == t0.nodes()
            && t2.selected == t0.selected && t2.root == t0.root && t2.visible() == t0.visible()),
{
    match w0.tree {
        None => {},
        Some(t0) => {
            let t1 = w1.tree->0;
            let t2 = w2.tree->0;
            match t0.selected {
                None => {},
                Some(id) => {
                    let m = t0.nodes();
                    if m.contains_key(id) && m[id].0.is_dir() {
                        let ty = NodeType::Dir(Open(!m[id].0.is_open_dir()));
                        assert(t1.nodes() == with_node_type(m, id, ty));
                        assert(t1.nodes().contains_key(id) && t1.nodes()[id].0.is_dir());
                        assert(t2.nodes() =~= m);
                    }
                },
            }
        },
    }
}

/// Up selects the node shown just above the selected one, and Down the
/// one just below; at the top and at the bottom the selection stays. Up
/// after a Down that moved comes back to the same node.
pub proof fn lemma_up_down_move_by_one(v: Seq<NodeId>, i: int)
    requires
        v.no_duplicates(),
        0 <= i < v.len(),
    ensures
        i > 0 ==> select_up(v, Some(v[i])) == Some(v[i - 1]),
        i == 0 ==> select_up(v, Some(v[i])) == Some(v[i]),
        i + 1 < v.len() ==> select_down(v, Some(v[i])) == Some(v[i + 1]),
        i + 1 == v.len() ==> select_down(v, Some(v[i])) == Some(v[i]),
        i + 1 < v.len() ==> select_up(v, select_down(v, Some(v[i]))) == Some(v[i]),
        i > 0 ==> select_down(v, select_up(v, Some(v[i]))) == Some(v[i]),
{
    lemma_index_of_unique(v, i);
    if i > 0 {
        lemma_index_of_unique(v, i - 1);
    }
    if i + 1 < v.len() {
        lemma_index_of_unique(v, i + 1);
    }
}

} // verus!
