//! One entry of a bucket's file tree: a folder, open or closed, or a file
//! with the object key it stands for.
use vstd::prelude::*;

verus! {

/// A node of the file tree: its display name and what it is.
#[derive(Debug, Clone)]
pub struct TreeNode {
    pub name: String,
    pub node_type: NodeType,
}

/// A folder (open or closed) or a file.
#[derive(Debug, PartialEq, Clone)]
pub enum NodeType {
    Dir(Open),
    File(Key),
}

/// Whether a folder shows its children.
#[derive(Debug, PartialEq, Clone)]
pub struct Open(pub bool);

/// The full object key of a file.
#[derive(Debug, PartialEq, Clone)]
pub struct Key(pub String);

impl TreeNode {
    /// Whether this node is a folder.
    pub open spec fn is_dir(&self) -> bool {
        self.node_type is Dir
    }

    /// Whether this node is a folder that shows its children.
    pub open spec fn is_open_dir(&self) -> bool {
        match self.node_type {
            NodeType::Dir(Open(o)) => o,
            NodeType::File(_) => false,
        }
    }

    /// A closed folder named `name`.
    pub fn new_dir(name: String) -> (r: Self)
        ensures
            r.name == name,
            r.node_type == NodeType::Dir(Open(false)),
    {
        Self { name, node_type: NodeType::Dir(Open(false)) }
    }

    /// A file named `name` for the object `key`.
    pub fn new_file(name: String, key: String) -> (r: Self)
        ensures
            r.name == name,
            r.node_type == NodeType::File(Key(key)),
    {
        Self { name, node_type: NodeType::File(Key(key)) }
    }

    /// Opens a closed folder; says whether anything changed.
    pub fn try_open(&mut self) -> (changed: bool)
        ensures
            *final(self) == old(self).opened(),
            changed == (old(self).node_type == NodeType::Dir(Open(false))),
            final(self).name == old(self).name,
            final(self).node_type == (if changed {
                NodeType::Dir(Open(true))
            } else {
                old(self).node_type
            }),
    {
        let closed = match &self.node_type {
            NodeType::Dir(Open(open)) => !*open,
            NodeType::File(_) => false,
        };
        if closed {
            self.node_type = NodeType::Dir(Open(true));
        }
        closed
    }

    /// Closes an open folder; says whether anything changed.
    pub fn try_close(&mut self) -> (changed: bool)
        ensures
            *final(self) == old(self).closed(),
            changed == (old(self).node_type == NodeType::Dir(Open(true))),
            final(self).name == old(self).name,
            final(self).node_type == (if changed {
                NodeType::Dir(Open(false))
            } else {
                old(self).node_type
            }),
    {
        let open = match &self.node_type {
            NodeType::Dir(Open(open)) => *open,
            NodeType::File(_) => false,
        };
        if open {
            self.node_type = NodeType::Dir(Open(false));
        }
        open
    }

    /// The node after `try_toggle`: a folder flipped between open and
    /// closed, a file as it was.
    pub open spec fn toggled(self) -> TreeNode {
        match self.node_type {
            NodeType::Dir(Open(o)) => TreeNode { node_type: NodeType::Dir(Open(!o)), ..self },
            NodeType::File(_) => self,
        }
    }

    /// The node after `try_open`: a closed folder opened, anything else
    /// as it was.
    pub open spec fn opened(self) -> TreeNode {
        if self.node_type == NodeType::Dir(Open(false)) {
            TreeNode { node_type: NodeType::Dir(Open(true)), ..self }
        } else {
            self
        }
    }

    /// The node after `try_close`: an open folder closed, anything else
    /// as it was.
    pub open spec fn closed(self) -> TreeNode {
        if self.node_type == NodeType::Dir(Open(true)) {
            TreeNode { node_type: NodeType::Dir(Open(false)), ..self }
        } else {
            self
        }
    }

    /// Flips a folder between open and closed; files are left alone.
    /// Says whether the node is a folder.
    pub fn try_toggle(&mut self) -> (changed: bool)
        ensures
            *final(self) == old(self).toggled(),
            changed == old(self).is_dir(),
            final(self).name == old(self).name,
            final(self).node_type == (if changed {
                NodeType::Dir(Open(!old(self).is_open_dir()))
            } else {
                old(self).node_type
            }),
    {
        let open = match &self.node_type {
            NodeType::Dir(Open(open)) => Some(*open),
            NodeType::File(_) => None,
        };
        match open {
            Some(o) => {
                self.node_type = NodeType::Dir(Open(!o));
                true
            },
            None => false,
        }
    }
}

/// Toggling a node twice gives it back.
pub proof fn lemma_toggle_twice(n: TreeNode)
    ensures
        n.toggled().toggled() == n,
{
}

/// Opening a closed folder and closing it again gives it back; so does
/// closing an open folder and opening it again.
pub proof fn lemma_open_close(n: TreeNode)
    ensures
        n.node_type == NodeType::Dir(Open(false)) ==> n.opened().closed() == n,
        n.node_type == NodeType::Dir(Open(true)) ==> n.closed().opened() == n,
{
}

/// Toggling a folder is opening it when closed and closing it when open.
pub proof fn lemma_toggle_is_open_or_close(n: TreeNode)
    ensures
        n.node_type == NodeType::Dir(Open(false)) ==> n.toggled() == n.opened(),
        n.node_type == NodeType::Dir(Open(true)) ==> n.toggled() == n.closed(),
{
}

} // verus!
