use crate::node::{NodeKind, PathNode};
use indextree::{Arena, NodeId};
use vstd::prelude::*;

verus! {

/// indextree's arena, opaque here: what it holds is told by `arena_contents`.
#[verifier::external_type_specification]
#[verifier::external_body]
#[verifier::reject_recursive_types(T)]
pub struct ExArena<T>(Arena<T>);

/// indextree's node handle, opaque here: a copyable value compared by identity.
#[verifier::external_type_specification]
#[verifier::external_body]
pub struct ExNodeId(NodeId);

/// For each live node: its data and its children, first to last.
pub type NodeTable = Map<NodeId, (PathNode, Seq<NodeId>)>;

/// What an arena holds: for each live node, its data and its children in order.
pub uninterp spec fn arena_contents(a: Arena<PathNode>) -> NodeTable;

/// Relies on indextree::Arena::new: a new arena holds no node.
#[verifier::external_body]
fn arena_new() -> (r: Arena<PathNode>)
    ensures
        arena_contents(r) == NodeTable::empty(),
{
    Arena::new()
}

/// Relies on indextree::Arena::new_node: the node gets an id that no live node has and
/// no children; the other nodes are unchanged.
#[verifier::external_body]
fn arena_new_node(a: &mut Arena<PathNode>, data: PathNode) -> (r: NodeId)
    ensures
        !arena_contents(*old(a)).contains_key(r),
        arena_contents(*final(a)) == arena_contents(*old(a)).insert(r, (data, Seq::<NodeId>::empty())),
{
    a.new_node(data)
}

/// Relies on indextree::NodeId::append_value: a new node is made and becomes the last
/// child of `parent`. It panics only where `parent` was removed.
#[verifier::external_body]
fn arena_append_value(a: &mut Arena<PathNode>, parent: NodeId, data: PathNode) -> (r: NodeId)
    requires
        arena_contents(*old(a)).contains_key(parent),
    ensures
        !arena_contents(*old(a)).contains_key(r),
        arena_contents(*final(a)) == arena_contents(*old(a)).insert(
            parent,
            (arena_contents(*old(a))[parent].0, arena_contents(*old(a))[parent].1.push(r)),
        ).insert(r, (data, Seq::<NodeId>::empty())),
{
    parent.append_value(data, a)
}

/// Relies on indexing an indextree::Arena and indextree::Node::get: the data of a node.
#[verifier::external_body]
fn arena_data(a: &Arena<PathNode>, id: NodeId) -> (r: &PathNode)
    requires
        arena_contents(*a).contains_key(id),
    ensures
        *r == arena_contents(*a)[id].0,
{
    a[id].get()
}

/// Relies on indextree::NodeId::children: the children of a node, first to last.
#[verifier::external_body]
fn arena_children(a: &Arena<PathNode>, id: NodeId) -> (r: Vec<NodeId>)
    requires
        arena_contents(*a).contains_key(id),
    ensures
        r@ == arena_contents(*a)[id].1,
{
    id.children(a).collect()
}

/// A hierarchy of filesystem entries, owned by one arena, with one designated root.
pub struct FsTree {
    arena: Arena<PathNode>,
    root: NodeId,
    /// Creation order of each node: a child is always created after its parent.
    rank: Ghost<Map<NodeId, nat>>,
    next_rank: Ghost<nat>,
}

impl FsTree {
    /// The nodes of the tree: data and ordered children, by handle.
    pub closed spec fn nodes(&self) -> NodeTable {
        arena_contents(self.arena)
    }

    pub closed spec fn spec_root(&self) -> NodeId {
        self.root
    }

    /// How many nodes at most lie on a path down from `id`: it shrinks from parent to child.
    pub closed spec fn height(&self, id: NodeId) -> nat {
        (self.next_rank@ - self.rank@[id]) as nat
    }

    /// The handle `id` names a node of the tree.
    pub open spec fn has(&self, id: NodeId) -> bool {
        self.nodes().contains_key(id)
    }

    pub open spec fn data_of(&self, id: NodeId) -> PathNode {
        self.nodes()[id].0
    }

    pub open spec fn children_of(&self, id: NodeId) -> Seq<NodeId> {
        self.nodes()[id].1
    }

    pub closed spec fn wf(&self) -> bool {
        &&& self.nodes().contains_key(self.root)
        &&& self.rank@.dom() == self.nodes().dom()
        &&& forall|id: NodeId| #[trigger]
            self.rank@.contains_key(id) ==> self.rank@[id] < self.next_rank@
        &&& forall|id: NodeId, i: int|
            #![trigger self.nodes()[id].1[i]]
            self.nodes().contains_key(id) && 0 <= i < self.nodes()[id].1.len() ==> {
                let c = self.nodes()[id].1[i];
                &&& self.nodes().contains_key(c)
                &&& self.rank@[id] < self.rank@[c]
            }
        &&& forall|id: NodeId| #[trigger]
            self.nodes().contains_key(id) && self.nodes()[id].0.kind == NodeKind::File
                ==> self.nodes()[id].1.len() == 0
    }

    /// The root is a node of the tree.
    pub proof fn lemma_root_present(&self)
        requires
            self.wf(),
        ensures
            self.has(self.spec_root()),
    {
    }

    /// A File node has no children.
    pub proof fn lemma_files_are_leaves(&self, id: NodeId)
        requires
            self.wf(),
            self.has(id),
            self.data_of(id).kind == NodeKind::File,
        ensures
            self.children_of(id).len() == 0,
    {
    }

    /// Every handle in a children list names a node of the tree, of smaller height than
    /// its parent.
    pub proof fn lemma_children_ranked(&self, id: NodeId, i: int)
        requires
            self.wf(),
            self.has(id),
            0 <= i < self.children_of(id).len(),
        ensures
            self.has(self.children_of(id)[i]),
            self.height(self.children_of(id)[i]) < self.height(id),
    {
        assert(self.nodes()[id].1[i] == self.children_of(id)[i]);
    }

    /// Makes a tree of one Directory node, the root, which owns no children.
    pub fn create_root(root_data: PathNode) -> (r: FsTree)
        requires
            root_data.kind == NodeKind::Directory,
        ensures
            r.wf(),
            r.nodes() == NodeTable::empty().insert(
                r.spec_root(),
                (root_data, Seq::<NodeId>::empty()),
            ),
    {
        let mut arena = arena_new();
        let root = arena_new_node(&mut arena, root_data);
        FsTree {
            arena,
            root,
            rank: Ghost(Map::<NodeId, nat>::empty().insert(root, 0nat)),
            next_rank: Ghost(1nat),
        }
    }

    pub fn root(&self) -> (r: NodeId)
        ensures
            r == self.spec_root(),
    {
        self.root
    }

    /// Appends a new node as the last child of the Directory node `parent`.
    pub fn add_child(&mut self, parent: NodeId, data: PathNode) -> (r: NodeId)
        requires
            old(self).wf(),
            old(self).has(parent),
            old(self).data_of(parent).kind == NodeKind::Directory,
        ensures
            final(self).wf(),
            final(self).spec_root() == old(self).spec_root(),
            !old(self).has(r),
            final(self).nodes() == old(self).nodes().insert(
                parent,
                (old(self).data_of(parent), old(self).children_of(parent).push(r)),
            ).insert(r, (data, Seq::<NodeId>::empty())),
    {
        let r = arena_append_value(&mut self.arena, parent, data);
        proof {
            let rk = self.next_rank@;
            self.rank@ = self.rank@.insert(r, rk);
            self.next_rank@ = rk + 1;
            assert(self.nodes().contains_key(self.root));
            assert forall|id: NodeId, i: int|
                #![trigger self.nodes()[id].1[i]]
                self.nodes().contains_key(id) && 0 <= i < self.nodes()[id].1.len() implies {
                let c = self.nodes()[id].1[i];
                &&& self.nodes().contains_key(c)
                &&& self.rank@[id] < self.rank@[c]
            } by {
                if id == parent && i == self.nodes()[id].1.len() - 1 {
                } else if id != r {
                    let c = self.nodes()[id].1[i];
                    assert(old(self).nodes()[id].1[i] == c);
                }
            }
            assert(self.rank@.dom() =~= self.nodes().dom());
        }
        r
    }

    /// The data of a node of the tree.
    pub fn data(&self, id: NodeId) -> (r: &PathNode)
        requires
            self.wf(),
            self.has(id),
        ensures
            *r == self.data_of(id),
    {
        arena_data(&self.arena, id)
    }

    /// The children of a node of the tree, in the order they were appended.
    pub fn children(&self, id: NodeId) -> (r: Vec<NodeId>)
        requires
            self.wf(),
            self.has(id),
        ensures
            r@ == self.children_of(id),
    {
        arena_children(&self.arena, id)
    }
}

} // verus!
