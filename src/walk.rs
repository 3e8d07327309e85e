use crate::node::{NodeKind, PathNode};
use crate::paths::{file_name_of, final_component, join_path, joined_path};
use crate::tree::FsTree;
use indextree::NodeId;
use vstd::prelude::*;

verus! {

/// One entry of a directory listing, as the listing reported it.
#[derive(Clone, Debug)]
pub struct DirEntry {
    /// The entry's path exactly as the listing returned it.
    pub path: String,
    /// Whether the entry is a directory.
    pub is_dir: bool,
}

/// Why a walk failed. Every failure ends the whole walk.
#[derive(Clone, Copy, Debug, PartialEq, Eq, Structural)]
pub enum WalkError {
    /// The root path is missing or is not a directory.
    InvalidInput,
    /// A directory could not be listed.
    ListingFailure,
    /// An entry's final path component could not be determined.
    NameResolutionFailure,
}

/// The kind recorded for an entry.
pub open spec fn kind_of(e: DirEntry) -> NodeKind {
    if e.is_dir {
        NodeKind::Directory
    } else {
        NodeKind::File
    }
}

/// `n` is the node recorded for entry `e`, with `cwd` as the working directory.
pub open spec fn is_entry_node(n: PathNode, cwd: Seq<char>, e: DirEntry) -> bool {
    &&& file_name_of(e.path@) == Some(n.name@)
    &&& n.relative_path@ == e.path@
    &&& n.absolute_path@ == joined_path(cwd, e.path@)
    &&& n.kind == kind_of(e)
}

/// `n` is the root node recorded for the path `p`.
pub open spec fn is_root_node(n: PathNode, cwd: Seq<char>, p: Seq<char>) -> bool {
    &&& n.name@ == p
    &&& n.relative_path@ == p
    &&& n.absolute_path@ == joined_path(cwd, p)
    &&& n.kind == NodeKind::Directory
}

/// Every entry of the listing has a final path component.
pub open spec fn all_named(entries: Seq<DirEntry>) -> bool {
    forall|i: int| 0 <= i < entries.len() ==> (#[trigger] file_name_of(entries[i].path@)).is_some()
}

/// The directories among `entries`, each with the handle in `ids` at its position.
pub open spec fn subdirs(entries: Seq<DirEntry>, ids: Seq<NodeId>) -> Seq<(Seq<char>, NodeId)>
    decreases entries.len(),
{
    if entries.len() == 0 {
        Seq::empty()
    } else {
        let k = entries.len() - 1;
        let rest = subdirs(entries.take(k), ids.take(k));
        if entries[k].is_dir {
            rest.push((entries[k].path@, ids[k]))
        } else {
            rest
        }
    }
}

/// The final path component of each entry, or `None` where some entry has none.
pub fn entry_names(entries: &Vec<DirEntry>) -> (r: Option<Vec<String>>)
    ensures
        r is Some <==> all_named(entries@),
        r is Some ==> r.unwrap()@.len() == entries@.len() && forall|j: int|
            0 <= j < entries@.len() ==> file_name_of(entries@[j].path@) == Some(
                #[trigger] r.unwrap()@[j]@,
            ),
{
    let mut names: Vec<String> = Vec::new();
    let mut i: usize = 0;
    while i < entries.len()
        invariant
            i <= entries.len(),
            names@.len() == i,
            forall|j: int| 0 <= j < i ==> file_name_of(entries@[j].path@) == Some(#[trigger] names@[j]@),
        decreases entries.len() - i,
    {
        match final_component(entries[i].path.as_str()) {
            Some(n) => names.push(n),
            None => {
                return None;
            },
        }
        i = i + 1;
    }
    assert forall|j: int| 0 <= j < entries@.len() implies (#[trigger] file_name_of(entries@[j].path@)).is_some() by {
        assert(file_name_of(entries@[j].path@) == Some(names@[j]@));
    }
    Some(names)
}

/// Some element of `pending` holds the handle `id`.
pub open spec fn has_handle(pending: Seq<(Seq<char>, NodeId)>, id: NodeId) -> bool {
    exists|q: int| 0 <= q < pending.len() && (#[trigger] pending[q]).1 == id
}

/// Every directory among `entries` is picked out by `subdirs`, with its handle.
pub proof fn lemma_subdirs_complete(entries: Seq<DirEntry>, ids: Seq<NodeId>, j: int)
    requires
        ids.len() == entries.len(),
        0 <= j < entries.len(),
        entries[j].is_dir,
    ensures
        has_handle(subdirs(entries, ids), ids[j]),
    decreases entries.len(),
{
    let k = entries.len() - 1;
    let e0 = entries.take(k);
    let i0 = ids.take(k);
    let all = subdirs(entries, ids);
    if j == k {
        assert(all[all.len() - 1].1 == ids[j]);
    } else {
        lemma_subdirs_complete(e0, i0, j);
        let rest = subdirs(e0, i0);
        let q = choose|q: int| 0 <= q < rest.len() && (#[trigger] rest[q]).1 == i0[j];
        assert(all[q] == rest[q]);
    }
}

/// `x` is a directory among `entries`, with its handle in `ids`.
pub open spec fn is_subdir_of(entries: Seq<DirEntry>, ids: Seq<NodeId>, x: (Seq<char>, NodeId)) -> bool {
    exists|j: int|
        #![trigger ids[j]]
        0 <= j < entries.len() && entries[j].is_dir && x == (entries[j].path@, ids[j])
}

/// Each directory picked out by `subdirs` is one of `entries` with its handle; no handle
/// is picked twice where `ids` holds none twice.
pub proof fn lemma_subdirs(entries: Seq<DirEntry>, ids: Seq<NodeId>)
    requires
        ids.len() == entries.len(),
    ensures
        forall|q: int|
            0 <= q < subdirs(entries, ids).len() ==> is_subdir_of(
                entries,
                ids,
                #[trigger] subdirs(entries, ids)[q],
            ),
        (forall|i: int, j: int| 0 <= i < j < ids.len() ==> ids[i] != ids[j]) ==> forall|
            q: int,
            s: int,
        |
            0 <= q < s < subdirs(entries, ids).len() ==> (#[trigger] subdirs(entries, ids)[q]).1
                != (#[trigger] subdirs(entries, ids)[s]).1,
    decreases entries.len(),
{
    if entries.len() > 0 {
        let k = entries.len() - 1;
        let e0 = entries.take(k);
        let i0 = ids.take(k);
        lemma_subdirs(e0, i0);
        let rest = subdirs(e0, i0);
        assert forall|q: int| 0 <= q < subdirs(entries, ids).len() implies is_subdir_of(
            entries,
            ids,
            #[trigger] subdirs(entries, ids)[q],
        ) by {
            if q < rest.len() {
                assert(subdirs(entries, ids)[q] == rest[q]);
                assert(is_subdir_of(e0, i0, rest[q]));
                let j = choose|j: int|
                    #![trigger i0[j]]
                    0 <= j < e0.len() && e0[j].is_dir && rest[q] == (e0[j].path@, i0[j]);
                assert(entries[j] == e0[j]);
                assert(ids[j] == i0[j]);
                assert(subdirs(entries, ids)[q] == (entries[j].path@, ids[j]));
            } else {
                assert(entries[k].is_dir);
                assert(subdirs(entries, ids)[q] == (entries[k].path@, ids[k]));
            }
        }
        if forall|i: int, j: int| 0 <= i < j < ids.len() ==> ids[i] != ids[j] {
            assert forall|i: int, j: int| 0 <= i < j < i0.len() implies i0[i] != i0[j] by {
                assert(i0[i] == ids[i] && i0[j] == ids[j]);
            }
            assert forall|q: int, s: int| 0 <= q < s < subdirs(entries, ids).len() implies (#[trigger] subdirs(entries, ids)[q]).1 != (
            #[trigger] subdirs(entries, ids)[s]).1 by {
                if s < rest.len() {
                    assert(subdirs(entries, ids)[q] == rest[q] && subdirs(entries, ids)[s] == rest[s]);
                } else {
                    assert(subdirs(entries, ids)[q] == rest[q]);
                    assert(is_subdir_of(e0, i0, rest[q]));
                    let j = choose|j: int|
                        #![trigger i0[j]]
                        0 <= j < e0.len() && e0[j].is_dir && rest[q] == (e0[j].path@, i0[j]);
                    assert(i0[j] == ids[j]);
                }
            }
        }
    } else {
        assert(subdirs(entries, ids).len() == 0);
    }
}

/// Appends one node per entry under `parent`, in the order of `entries`. Fails, leaving
/// the tree as it was, where some entry has no final path component.
pub fn attach_listing(tree: &mut FsTree, parent: NodeId, cwd: &str, entries: &Vec<DirEntry>) -> (r:
    Result<Vec<NodeId>, WalkError>)
    requires
        old(tree).wf(),
        old(tree).has(parent),
        old(tree).data_of(parent).kind == NodeKind::Directory,
    ensures
        final(tree).wf(),
        final(tree).spec_root() == old(tree).spec_root(),
        r is Err <==> !all_named(entries@),
        r is Err ==> r == Err::<Vec<NodeId>, WalkError>(WalkError::NameResolutionFailure),
        r is Err ==> *final(tree) == *old(tree),
        r is Ok ==> {
            let ids = r.unwrap()@;
            &&& ids.len() == entries@.len()
            &&& final(tree).children_of(parent) == old(tree).children_of(parent) + ids
            &&& forall|i: int| 0 <= i < ids.len() ==> !old(tree).has(#[trigger] ids[i])
            &&& forall|i: int, j: int| 0 <= i < j < ids.len() ==> ids[i] != ids[j]
            &&& forall|i: int|
                0 <= i < ids.len() ==> final(tree).has(#[trigger] ids[i])
                    && final(tree).children_of(ids[i]).len() == 0
                    && is_entry_node(final(tree).data_of(ids[i]), cwd@, entries@[i])
            &&& forall|id: NodeId|
                old(tree).has(id) && id != parent ==> #[trigger] final(tree).nodes()[id]
                    == old(tree).nodes()[id]
            &&& final(tree).data_of(parent) == old(tree).data_of(parent)
            &&& forall|id: NodeId| #[trigger] old(tree).has(id) ==> final(tree).has(id)
            &&& forall|id: NodeId| #[trigger]
                final(tree).has(id) ==> old(tree).has(id) || ids.contains(id)
        },
{
    let names = match entry_names(entries) {
        Some(n) => n,
        None => {
            return Err(WalkError::NameResolutionFailure);
        },
    };
    let ghost t0 = *tree;
    let mut ids: Vec<NodeId> = Vec::new();
    let mut k: usize = 0;
    while k < entries.len()
        invariant
            k <= entries.len(),
            names@.len() == entries@.len(),
            forall|j: int| 0 <= j < entries@.len() ==> file_name_of(entries@[j].path@) == Some(#[trigger] names@[j]@),
            tree.wf(),
            tree.spec_root() == t0.spec_root(),
            t0.has(parent),
            t0.data_of(parent).kind == NodeKind::Directory,
            ids@.len() == k,
            tree.has(parent),
            tree.data_of(parent) == t0.data_of(parent),
            tree.children_of(parent) == t0.children_of(parent) + ids@,
            forall|i: int| 0 <= i < ids@.len() ==> !t0.has(#[trigger] ids@[i]),
            forall|i: int, j: int| 0 <= i < j < ids@.len() ==> ids@[i] != ids@[j],
            forall|i: int|
                0 <= i < ids@.len() ==> tree.has(#[trigger] ids@[i])
                    && tree.children_of(ids@[i]).len() == 0
                    && is_entry_node(tree.data_of(ids@[i]), cwd@, entries@[i]),
            forall|id: NodeId|
                t0.has(id) && id != parent ==> #[trigger] tree.nodes()[id] == t0.nodes()[id],
            forall|id: NodeId| #[trigger] tree.has(id) ==> t0.has(id) || ids@.contains(id),
            forall|id: NodeId| #[trigger] t0.has(id) ==> tree.has(id),
        decreases entries.len() - k,
    {
        let e = &entries[k];
        let kind = if e.is_dir {
            NodeKind::Directory
        } else {
            NodeKind::File
        };
        let data = PathNode::new(
            names[k].clone(),
            e.path.clone(),
            join_path(cwd, e.path.as_str()),
            kind,
        );
        let ghost before = *tree;
        let ghost old_ids = ids@;
        let id = tree.add_child(parent, data);
        ids.push(id);
        proof {
            assert forall|i: int| 0 <= i < ids@.len() implies !t0.has(#[trigger] ids@[i]) by {
                if i < k {
                    assert(ids@[i] == old_ids[i]);
                } else {
                    assert(!before.has(id));
                }
            }
            assert forall|i: int, j: int| 0 <= i < j < ids@.len() implies ids@[i] != ids@[j] by {
                if j == k {
                    assert(ids@[i] == old_ids[i]);
                    assert(before.has(old_ids[i]));
                }
            }
            assert forall|i: int|
                0 <= i < ids@.len() implies tree.has(#[trigger] ids@[i])
                    && tree.children_of(ids@[i]).len() == 0
                    && is_entry_node(tree.data_of(ids@[i]), cwd@, entries@[i]) by {
                if i < k {
                    assert(ids@[i] == old_ids[i]);
                    assert(before.has(old_ids[i]));
                    assert(old_ids[i] != parent) by {
                        assert(!t0.has(old_ids[i]));
                    }
                }
            }
            assert(tree.children_of(parent) =~= t0.children_of(parent) + ids@);
            assert forall|id: NodeId| #[trigger] tree.has(id) implies t0.has(id) || ids@.contains(id) by {
                if id == ids@[k as int] {
                    assert(ids@.contains(id));
                } else if !t0.has(id) {
                    assert(before.has(id));
                    let j = choose|j: int| 0 <= j < old_ids.len() && old_ids[j] == id;
                    assert(ids@[j] == id);
                }
            }
        }
        k = k + 1;
    }
    Ok(ids)
}

} // verus!

verus! {

/// A walk of a directory hierarchy in progress: the tree built so far and the
/// directories that are still to be listed, the next one last.
pub struct Walk {
    tree: FsTree,
    pending: Vec<(String, NodeId)>,
    cwd: String,
    recursive: bool,
    /// The directories listed so far.
    listed: Ghost<Set<NodeId>>,
}

impl Walk {
    pub closed spec fn spec_tree(&self) -> FsTree {
        self.tree
    }

    /// The directories still to be listed: path and handle, the next one last.
    pub closed spec fn pending(&self) -> Seq<(Seq<char>, NodeId)> {
        self.pending@.map_values(|p: (String, NodeId)| (p.0@, p.1))
    }

    pub closed spec fn spec_cwd(&self) -> Seq<char> {
        self.cwd@
    }

    pub closed spec fn spec_recursive(&self) -> bool {
        self.recursive
    }

    /// The directories whose listing has been taken.
    pub closed spec fn listed(&self) -> Set<NodeId> {
        self.listed@
    }

    /// Listed directories are nodes of the tree and are no longer pending; in a recursive
    /// walk, every Directory node is listed or pending.
    pub open spec fn coverage_ok(&self) -> bool {
        &&& forall|id: NodeId| #[trigger] self.listed().contains(id) ==> self.spec_tree().has(id)
        &&& forall|q: int|
            0 <= q < self.pending().len() ==> !self.listed().contains(
                (#[trigger] self.pending()[q]).1,
            )
        &&& self.spec_recursive() ==> forall|id: NodeId|
            #[trigger] self.spec_tree().has(id) && self.spec_tree().data_of(id).kind
                == NodeKind::Directory ==> self.listed().contains(id) || has_handle(
                self.pending(),
                id,
            )
    }

    /// Each node below the root is named by the final component of its relative path;
    /// the root is named by its path.
    pub open spec fn names_follow_paths(t: FsTree) -> bool {
        &&& t.data_of(t.spec_root()).name@ == t.data_of(t.spec_root()).relative_path@
        &&& forall|id: NodeId|
            #[trigger] t.has(id) && id != t.spec_root() ==> file_name_of(
                t.data_of(id).relative_path@,
            ) == Some(t.data_of(id).name@)
    }

    /// A pending directory is a Directory node of the tree at that path that has not been
    /// listed yet; no node is pending twice.
    pub open spec fn pending_ok(t: FsTree, pending: Seq<(Seq<char>, NodeId)>) -> bool {
        &&& forall|q: int|
            0 <= q < pending.len() ==> {
                let id = (#[trigger] pending[q]).1;
                &&& t.has(id)
                &&& t.data_of(id).kind == NodeKind::Directory
                &&& t.children_of(id).len() == 0
                &&& t.data_of(id).relative_path@ == pending[q].0
            }
        &&& forall|q: int, s: int|
            0 <= q < s < pending.len() ==> (#[trigger] pending[q]).1 != (#[trigger] pending[s]).1
    }

    pub open spec fn wf(&self) -> bool {
        &&& self.spec_tree().wf()
        &&& Self::names_follow_paths(self.spec_tree())
        &&& Self::pending_ok(self.spec_tree(), self.pending())
        &&& self.coverage_ok()
    }

    /// Starts a walk at `root_path`, which the caller found to be a directory or not.
    /// The root node is named by the path itself; its absolute path is the path joined
    /// onto `cwd`.
    pub fn start(root_path: &str, root_is_dir: bool, cwd: &str, recursive: bool) -> (r: Result<
        Walk,
        WalkError,
    >)
        ensures
            r is Err <==> !root_is_dir,
            r is Err ==> r == Err::<Walk, WalkError>(WalkError::InvalidInput),
            r is Ok ==> {
                let w = r.unwrap();
                let t = w.spec_tree();
                &&& w.wf()
                &&& w.spec_cwd() == cwd@
                &&& w.spec_recursive() == recursive
                &&& t.nodes().dom() == set![t.spec_root()]
                &&& t.children_of(t.spec_root()).len() == 0
                &&& is_root_node(t.data_of(t.spec_root()), cwd@, root_path@)
                &&& w.pending() == seq![(root_path@, t.spec_root())]
                &&& w.listed() == Set::<NodeId>::empty()
            },
    {
        if !root_is_dir {
            return Err(WalkError::InvalidInput);
        }
        let data = PathNode::new(
            root_path.to_string(),
            root_path.to_string(),
            join_path(cwd, root_path),
            NodeKind::Directory,
        );
        let tree = FsTree::create_root(data);
        let root = tree.root();
        let mut pending: Vec<(String, NodeId)> = Vec::new();
        pending.push((root_path.to_string(), root));
        let w = Walk {
            tree,
            pending,
            cwd: cwd.to_string(),
            recursive,
            listed: Ghost(Set::empty()),
        };
        proof {
            assert(w.pending() =~= seq![(root_path@, root)]);
            assert(w.pending()[0].1 == root);
            assert(has_handle(w.pending(), root));
            assert(w.spec_tree().nodes().dom() =~= set![root]);
        }
        Ok(w)
    }

    /// The directory to list next, or `None` when the walk is complete.
    pub fn next_dir(&self) -> (r: Option<String>)
        ensures
            r is None <==> self.pending().len() == 0,
            r is Some ==> r.unwrap()@ == self.pending().last().0,
    {
        let n = self.pending.len();
        if n == 0 {
            None
        } else {
            Some(self.pending[n - 1].0.clone())
        }
    }

    /// Takes the outcome of listing the next pending directory. `None` stands for a
    /// listing that failed. On success the directory gets one child per entry, in the
    /// order of the listing, and leaves the pending set; where the walk is recursive,
    /// the new Directory nodes join it. On failure the walk is unchanged.
    pub fn on_listing(&mut self, listing: Option<Vec<DirEntry>>) -> (r: Result<Vec<NodeId>, WalkError>)
        requires
            old(self).wf(),
            old(self).pending().len() > 0,
        ensures
            final(self).wf(),
            final(self).spec_cwd() == old(self).spec_cwd(),
            final(self).spec_recursive() == old(self).spec_recursive(),
            final(self).spec_tree().spec_root() == old(self).spec_tree().spec_root(),
            listing is None ==> r == Err::<Vec<NodeId>, WalkError>(WalkError::ListingFailure),
            listing is Some ==> (r is Err <==> !all_named(listing.unwrap()@)),
            listing is Some && r is Err ==> r == Err::<Vec<NodeId>, WalkError>(
                WalkError::NameResolutionFailure,
            ),
            r is Err ==> *final(self) == *old(self),
            r is Ok ==> {
                let entries = listing.unwrap()@;
                let ids = r.unwrap()@;
                let dir = old(self).pending().last().1;
                let t0 = old(self).spec_tree();
                let t1 = final(self).spec_tree();
                &&& listing is Some
                &&& ids.len() == entries.len()
                &&& t1.children_of(dir) == ids
                &&& t1.data_of(dir) == t0.data_of(dir)
                &&& forall|i: int|
                    0 <= i < ids.len() ==> !t0.has(#[trigger] ids[i]) && t1.has(ids[i])
                        && t1.children_of(ids[i]).len() == 0 && is_entry_node(
                        t1.data_of(ids[i]),
                        old(self).spec_cwd(),
                        entries[i],
                    )
                &&& forall|id: NodeId|
                    t0.has(id) && id != dir ==> #[trigger] t1.nodes()[id] == t0.nodes()[id]
                &&& forall|id: NodeId| #[trigger] t1.has(id) ==> t0.has(id) || ids.contains(id)
                &&& !old(self).listed().contains(dir)
                &&& final(self).listed() == old(self).listed().insert(dir)
                &&& forall|q: int|
                    0 <= q < final(self).pending().len() ==> (#[trigger] final(self).pending()[q]).1
                        != dir
                &&& final(self).pending() == old(self).pending().drop_last() + if old(
                    self,
                ).spec_recursive() {
                    subdirs(entries, ids)
                } else {
                    Seq::empty()
                }
            },
    {
        let entries = match listing {
            Some(e) => e,
            None => {
                return Err(WalkError::ListingFailure);
            },
        };
        let n = self.pending.len();
        let dir = self.pending[n - 1].1;
        let ghost w0 = *self;
        proof {
            assert(w0.pending()[n - 1] == (self.pending@[n - 1].0@, dir));
        }
        let ids = match attach_listing(&mut self.tree, dir, self.cwd.as_str(), &entries) {
            Ok(ids) => ids,
            Err(e) => {
                return Err(e);
            },
        };
        let ghost t1 = self.tree;
        self.pending.pop();
        self.listed = Ghost(self.listed@.insert(dir));
        proof {
            assert(self.pending() =~= w0.pending().drop_last());
        }
        if self.recursive {
            let mut k: usize = 0;
            while k < entries.len()
                invariant
                    k <= entries@.len(),
                    ids@.len() == entries@.len(),
                    self.tree == t1,
                    self.cwd == w0.cwd,
                    self.recursive == w0.recursive,
                    self.listed@ == w0.listed@.insert(dir),
                    w0.pending().len() > 0,
                    self.pending() == w0.pending().drop_last() + subdirs(
                        entries@.take(k as int),
                        ids@.take(k as int),
                    ),
                decreases entries.len() - k,
            {
                let ghost p0 = self.pending();
                if entries[k].is_dir {
                    self.pending.push((entries[k].path.clone(), ids[k]));
                    proof {
                        assert(self.pending() =~= p0.push((entries@[k as int].path@, ids@[k as int])));
                    }
                }
                proof {
                    let e1 = entries@.take(k + 1);
                    let i1 = ids@.take(k + 1);
                    assert(e1.take(k as int) =~= entries@.take(k as int));
                    assert(i1.take(k as int) =~= ids@.take(k as int));
                    assert(self.pending() =~= w0.pending().drop_last() + subdirs(e1, i1));
                }
                k = k + 1;
            }
            proof {
                assert(entries@.take(entries@.len() as int) =~= entries@);
                assert(ids@.take(ids@.len() as int) =~= ids@);
            }
        }
        proof {
            let t0 = w0.tree;
            let p0 = w0.pending();
            let base = p0.drop_last();
            let extra = if self.recursive {
                subdirs(entries@, ids@)
            } else {
                Seq::empty()
            };
            let p1 = self.pending();
            assert(p1 == base + extra);
            lemma_subdirs(entries@, ids@);
            let root = t0.spec_root();
            t0.lemma_root_present();
            if root != dir {
                assert(t1.nodes()[root] == t0.nodes()[root]);
            }
            assert forall|id: NodeId| #[trigger] t1.has(id) && id != root implies file_name_of(
                t1.data_of(id).relative_path@,
            ) == Some(t1.data_of(id).name@) by {
                if !t0.has(id) {
                    let i = choose|i: int| 0 <= i < ids@.len() && ids@[i] == id;
                    assert(is_entry_node(t1.data_of(ids@[i]), w0.cwd@, entries@[i]));
                } else if id != dir {
                    assert(t1.nodes()[id] == t0.nodes()[id]);
                }
            }
            assert forall|q: int| 0 <= q < p1.len() implies {
                let id = (#[trigger] p1[q]).1;
                &&& t1.has(id)
                &&& t1.data_of(id).kind == NodeKind::Directory
                &&& t1.children_of(id).len() == 0
                &&& t1.data_of(id).relative_path@ == p1[q].0
            } by {
                if q < base.len() {
                    assert(p1[q] == p0[q]);
                    assert(p0[q].1 != p0[n - 1].1);
                    assert(t0.has(p0[q].1));
                    assert(t1.nodes()[p0[q].1] == t0.nodes()[p0[q].1]);
                    assert(t1.has(p0[q].1));
                } else {
                    assert(self.recursive);
                    assert(p1[q] == extra[q - base.len()]);
                    assert(is_subdir_of(entries@, ids@, subdirs(entries@, ids@)[q - base.len()]));
                    let j = choose|j: int|
                        #![trigger ids@[j]]
                        0 <= j < entries@.len() && entries@[j].is_dir && subdirs(entries@, ids@)[q
                            - base.len()] == (entries@[j].path@, ids@[j]);
                    assert(is_entry_node(t1.data_of(ids@[j]), w0.cwd@, entries@[j]));
                    assert(t1.has(ids@[j]));
                    assert(p1[q].1 == ids@[j]);
                }
            }
            assert forall|q: int|
                0 <= q < p1.len() implies !self.listed@.contains((#[trigger] p1[q]).1) by {
                if q < base.len() {
                    assert(p1[q] == p0[q]);
                    assert(p0[q].1 != p0[n - 1].1);
                } else {
                    assert(p1[q] == extra[q - base.len()]);
                    assert(is_subdir_of(entries@, ids@, subdirs(entries@, ids@)[q - base.len()]));
                    let j = choose|j: int|
                        #![trigger ids@[j]]
                        0 <= j < entries@.len() && entries@[j].is_dir && subdirs(entries@, ids@)[q
                            - base.len()] == (entries@[j].path@, ids@[j]);
                    assert(!t0.has(ids@[j]));
                    assert(!w0.listed@.contains(ids@[j]));
                }
            }
            if self.recursive {
                assert forall|id: NodeId|
                    #[trigger] t1.has(id) && t1.data_of(id).kind == NodeKind::Directory implies self.listed@.contains(id)
                        || has_handle(p1, id) by {
                    if id == dir {
                    } else if t0.has(id) {
                        assert(t1.nodes()[id] == t0.nodes()[id]);
                        if !w0.listed@.contains(id) {
                            assert(has_handle(p0, id));
                            let q = choose|q: int| 0 <= q < p0.len() && (#[trigger] p0[q]).1 == id;
                            assert(q != n - 1);
                            assert(p1[q] == p0[q]);
                        }
                    } else {
                        let j = choose|j: int| 0 <= j < ids@.len() && ids@[j] == id;
                        assert(is_entry_node(t1.data_of(ids@[j]), w0.cwd@, entries@[j]));
                        lemma_subdirs_complete(entries@, ids@, j);
                        let q = choose|q: int| 0 <= q < extra.len() && (#[trigger] extra[q]).1 == id;
                        assert(p1[base.len() + q] == extra[q]);
                    }
                }
            }
            assert forall|q: int, s: int|
                0 <= q < s < p1.len() implies (#[trigger] p1[q]).1 != (#[trigger] p1[s]).1 by {
                if s < base.len() {
                    assert(p1[q] == p0[q] && p1[s] == p0[s]);
                } else if q < base.len() {
                    assert(p1[q] == p0[q]);
                    assert(t0.has(p0[q].1));
                    assert(p1[s] == extra[s - base.len()]);
                    assert(is_subdir_of(entries@, ids@, subdirs(entries@, ids@)[s - base.len()]));
                    let j = choose|j: int|
                        #![trigger ids@[j]]
                        0 <= j < entries@.len() && entries@[j].is_dir && subdirs(entries@, ids@)[s
                            - base.len()] == (entries@[j].path@, ids@[j]);
                    assert(!t0.has(ids@[j]));
                } else {
                    assert(p1[q] == extra[q - base.len()]);
                    assert(p1[s] == extra[s - base.len()]);
                }
            }
        }
        Ok(ids)
    }

    /// A recursive walk with nothing left to list has listed every Directory node of its
    /// tree. Each listing adds a directory that was not listed before (see `on_listing`),
    /// so every directory is listed exactly once.
    pub proof fn lemma_finished_walk_listed_every_directory(&self)
        requires
            self.wf(),
            self.spec_recursive(),
            self.pending().len() == 0,
        ensures
            forall|id: NodeId|
                #[trigger] self.spec_tree().has(id) && self.spec_tree().data_of(id).kind
                    == NodeKind::Directory ==> self.listed().contains(id),
    {
    }

    pub fn tree(&self) -> (r: &FsTree)
        ensures
            *r == self.spec_tree(),
    {
        &self.tree
    }
}

} // verus!
