//! An in-memory snapshot of the filesystem subtree that is about to be
//! deleted: every entry is a regular file, a directory or a symlink, and a
//! directory carries the list of its children. The snapshot is taken by the
//! caller in one read-only pass; everything the deletion logic decides is
//! decided over this value.

use vstd::prelude::*;

verus! {

/// The classification of one filesystem entry.
#[derive(Clone, Copy, Debug, PartialEq, Eq, Structural)]
pub enum EntryKind {
    File,
    Dir,
    Symlink,
}

impl EntryKind {
    /// The word a verbose log prints for an entry of this kind.
    pub fn describe(&self) -> (r: &'static str)
        ensures
            *self == EntryKind::File ==> r@ == "file"@,
            *self == EntryKind::Dir ==> r@ == "directory"@,
            *self == EntryKind::Symlink ==> r@ == "symlink"@,
    {
        match self {
            EntryKind::File => "file",
            EntryKind::Dir => "directory",
            EntryKind::Symlink => "symlink",
        }
    }
}

/// One node of the snapshot. A symlink is a leaf: the snapshot never looks
/// through a link, so deleting the link cannot touch its target.
pub enum FsTree {
    File,
    Symlink,
    Dir { children: ChildList },
}

/// The named children of a directory, in the order they were listed.
pub enum ChildList {
    Nil,
    Cons { name: String, node: Box<FsTree>, rest: Box<ChildList> },
}

/// The number of entries in the subtree rooted at `t`, the root included,
/// whatever its kind.
pub open spec fn count(t: FsTree) -> nat
    decreases t,
{
    match t {
        FsTree::File => 1,
        FsTree::Symlink => 1,
        FsTree::Dir { children } => 1 + count_list(children),
    }
}

/// The number of entries in all the subtrees of a child list together.
pub open spec fn count_list(l: ChildList) -> nat
    decreases l,
{
    match l {
        ChildList::Nil => 0,
        ChildList::Cons { name: _, node, rest } => count(*node) + count_list(*rest),
    }
}

impl FsTree {
    /// The kind of the root entry of this subtree.
    pub open spec fn kind(self) -> EntryKind {
        match self {
            FsTree::File => EntryKind::File,
            FsTree::Symlink => EntryKind::Symlink,
            FsTree::Dir { .. } => EntryKind::Dir,
        }
    }

    /// The counting pass: how many entries a walk of this subtree meets,
    /// the root included. Runs before any deletion so the progress display
    /// can show a fixed total.
    pub fn count_entries(&self) -> (r: usize)
        requires
            count(*self) <= usize::MAX,
        ensures
            r == count(*self),
        decreases *self,
    {
        match self {
            FsTree::File => 1,
            FsTree::Symlink => 1,
            FsTree::Dir { children } => 1 + count_entries_list(children),
        }
    }
}

/// Counts the entries of every subtree in a child list.
fn count_entries_list(l: &ChildList) -> (r: usize)
    requires
        count_list(*l) < usize::MAX,
    ensures
        r == count_list(*l),
    decreases *l,
{
    match l {
        ChildList::Nil => 0,
        ChildList::Cons { name: _, node, rest } => {
            proof {
                lemma_count_at_least_one(**node);
            }
            node.count_entries() + count_entries_list(rest)
        },
    }
}

/// Every subtree holds at least its own root entry.
pub proof fn lemma_count_at_least_one(t: FsTree)
    ensures
        count(t) >= 1,
{
}

} // verus!
