//! The deletion plan: the contents-first (post-order) removal order over a
//! snapshot. Every entry of the snapshot appears exactly once, and a
//! directory appears only after all of its children, because a directory can
//! only be removed once it is empty.

use vstd::prelude::*;

use crate::tree::ChildList;
use crate::tree::EntryKind;
use crate::tree::FsTree;
use crate::tree::count;
use crate::tree::count_list;

verus! {

/// One planned removal: the path of the entry, as the segments below the
/// target root (the root itself has no segments), and the kind that decides
/// the removal operation — a directory is removed as an empty directory,
/// anything else (a file or a symlink) as a single filesystem object.
pub struct PlanStep {
    pub path: Vec<String>,
    pub kind: EntryKind,
}

impl PlanStep {
    /// The mathematical content of a step: its path segments and its kind.
    pub open spec fn view_step(self) -> (Seq<String>, EntryKind) {
        (self.path@, self.kind)
    }

    /// Whether this step removes an (empty) directory rather than a single
    /// filesystem object. A symlink is removed as the link itself: the
    /// operation never follows it into its target.
    pub fn is_dir_removal(&self) -> (r: bool)
        ensures
            r == (self.kind == EntryKind::Dir),
    {
        match self.kind {
            EntryKind::Dir => true,
            EntryKind::File => false,
            EntryKind::Symlink => false,
        }
    }
}

/// The contents-first removal order of the subtree rooted at `t`, whose own
/// path below the target root is `path`: first every child subtree in list
/// order, then the root of the subtree itself.
pub open spec fn plan(t: FsTree, path: Seq<String>) -> Seq<(Seq<String>, EntryKind)>
    decreases t,
{
    match t {
        FsTree::File => seq![(path, EntryKind::File)],
        FsTree::Symlink => seq![(path, EntryKind::Symlink)],
        FsTree::Dir { children } => plan_list(children, path) + seq![(path, EntryKind::Dir)],
    }
}

/// The removal order of every subtree in a child list, one after the other.
pub open spec fn plan_list(l: ChildList, path: Seq<String>) -> Seq<(Seq<String>, EntryKind)>
    decreases l,
{
    match l {
        ChildList::Nil => Seq::empty(),
        ChildList::Cons { name, node, rest } => plan(*node, path.push(name)) + plan_list(
            *rest,
            path,
        ),
    }
}

/// The executable steps `s` carry exactly the planned removals `p`, in order.
pub open spec fn steps_match(s: Seq<PlanStep>, p: Seq<(Seq<String>, EntryKind)>) -> bool {
    &&& s.len() == p.len()
    &&& forall|i: int| 0 <= i < s.len() ==> (#[trigger] s[i].view_step()) == p[i]
}

/// The steps `post` extend the steps `pre` by exactly the planned removals
/// `p`, leaving what was already there unchanged.
pub open spec fn steps_appended(
    pre: Seq<PlanStep>,
    post: Seq<PlanStep>,
    p: Seq<(Seq<String>, EntryKind)>,
) -> bool {
    &&& post.len() == pre.len() + p.len()
    &&& post.subrange(0, pre.len() as int) == pre
    &&& steps_match(post.subrange(pre.len() as int, post.len() as int), p)
}

impl FsTree {
    /// Lays out the whole deletion in contents-first order, before any entry
    /// is touched: the returned steps are exactly `plan(self, empty)`.
    pub fn build_plan(&self) -> (r: Vec<PlanStep>)
        ensures
            steps_match(r@, plan(*self, Seq::empty())),
    {
        let mut path: Vec<String> = Vec::new();
        let mut out: Vec<PlanStep> = Vec::new();
        build_into(self, &mut path, &mut out);
        proof {
            assert(out@.subrange(0, out@.len() as int) =~= out@);
        }
        out
    }
}

/// Appends the contents-first order of `t` to `out`; `path` is `t`'s own
/// path below the target root and is handed back unchanged.
fn build_into(t: &FsTree, path: &mut Vec<String>, out: &mut Vec<PlanStep>)
    ensures
        final(path)@ == old(path)@,
        steps_appended(old(out)@, final(out)@, plan(*t, old(path)@)),
    decreases *t,
{
    let ghost pre = out@;
    match t {
        FsTree::File => {
            out.push(PlanStep { path: clone_segments(path), kind: EntryKind::File });
            proof {
                lemma_push_appends(pre, out@, (old(path)@, EntryKind::File));
            }
        },
        FsTree::Symlink => {
            out.push(PlanStep { path: clone_segments(path), kind: EntryKind::Symlink });
            proof {
                lemma_push_appends(pre, out@, (old(path)@, EntryKind::Symlink));
            }
        },
        FsTree::Dir { children } => {
            build_list_into(children, path, out);
            let ghost mid = out@;
            out.push(PlanStep { path: clone_segments(path), kind: EntryKind::Dir });
            proof {
                lemma_push_appends(mid, out@, (old(path)@, EntryKind::Dir));
                lemma_appended_concat(
                    pre,
                    mid,
                    out@,
                    plan_list(*children, old(path)@),
                    seq![(old(path)@, EntryKind::Dir)],
                );
            }
        },
    }
}

/// Appends the contents-first order of every subtree in `l` to `out`;
/// `path` is the parent directory's path and is handed back unchanged.
fn build_list_into(l: &ChildList, path: &mut Vec<String>, out: &mut Vec<PlanStep>)
    ensures
        final(path)@ == old(path)@,
        steps_appended(old(out)@, final(out)@, plan_list(*l, old(path)@)),
    decreases *l,
{
    let ghost pre = out@;
    match l {
        ChildList::Nil => {
            proof {
                assert(out@.subrange(0, pre.len() as int) =~= pre);
                assert(out@.subrange(pre.len() as int, out@.len() as int) =~= Seq::<
                    PlanStep,
                >::empty());
            }
        },
        ChildList::Cons { name, node, rest } => {
            path.push(name.clone());
            build_into(&**node, path, out);
            let ghost mid = out@;
            path.pop();
            assert(path@ =~= old(path)@);
            build_list_into(&**rest, path, out);
            proof {
                lemma_appended_concat(
                    pre,
                    mid,
                    out@,
                    plan(**node, old(path)@.push(*name)),
                    plan_list(**rest, old(path)@),
                );
            }
        },
    }
}

/// Clones the path segments gathered so far, so that a step can own them.
fn clone_segments(path: &Vec<String>) -> (r: Vec<String>)
    ensures
        r@ == path@,
{
    let r = path.clone();
    proof {
        assert(r@ =~= path@);
    }
    r
}

/// Pushing one step whose content is `e` appends exactly `seq![e]`.
proof fn lemma_push_appends(pre: Seq<PlanStep>, post: Seq<PlanStep>, e: (Seq<String>, EntryKind))
    requires
        post.len() == pre.len() + 1,
        post.subrange(0, pre.len() as int) =~= pre,
        post.last().view_step() == e,
    ensures
        steps_appended(pre, post, seq![e]),
{
    assert(post.subrange(pre.len() as int, post.len() as int) =~= seq![post.last()]);
}

/// The plan visits every entry of the subtree exactly once: its length is
/// the entry count of the subtree, so a progress display initialized with
/// the count fires exactly once per planned removal.
pub proof fn lemma_plan_len(t: FsTree, path: Seq<String>)
    ensures
        plan(t, path).len() == count(t),
    decreases t,
{
    match t {
        FsTree::File => {},
        FsTree::Symlink => {},
        FsTree::Dir { children } => {
            lemma_plan_list_len(children, path);
        },
    }
}

/// The plan of a child list visits every entry of every subtree exactly once.
pub proof fn lemma_plan_list_len(l: ChildList, path: Seq<String>)
    ensures
        plan_list(l, path).len() == count_list(l),
    decreases l,
{
    match l {
        ChildList::Nil => {},
        ChildList::Cons { name, node, rest } => {
            lemma_plan_len(*node, path.push(name));
            lemma_plan_list_len(*rest, path);
        },
    }
}

/// A subtree's own removal is the last element of its plan: nothing of the
/// subtree is removed after its root, and everything inside is removed
/// before it.
pub proof fn lemma_plan_last(t: FsTree, path: Seq<String>)
    ensures
        plan(t, path).len() >= 1,
        plan(t, path).last() == (path, t.kind()),
{
    lemma_plan_len(t, path);
    crate::tree::lemma_count_at_least_one(t);
}

/// The number of children in a list.
pub open spec fn child_count(l: ChildList) -> nat
    decreases l,
{
    match l {
        ChildList::Nil => 0,
        ChildList::Cons { name: _, node: _, rest } => 1 + child_count(*rest),
    }
}

/// The name of the `j`-th child of a list.
pub open spec fn child_name(l: ChildList, j: int) -> String
    decreases l,
{
    match l {
        ChildList::Nil => arbitrary(),
        ChildList::Cons { name, node: _, rest } => if j == 0 {
            name
        } else {
            child_name(*rest, j - 1)
        },
    }
}

/// The subtree of the `j`-th child of a list.
pub open spec fn child_node(l: ChildList, j: int) -> FsTree
    decreases l,
{
    match l {
        ChildList::Nil => arbitrary(),
        ChildList::Cons { name: _, node, rest } => if j == 0 {
            *node
        } else {
            child_node(*rest, j - 1)
        },
    }
}

/// Every child of a list has its own removal somewhere in the list's plan.
proof fn lemma_child_step_in_list(l: ChildList, path: Seq<String>, j: int)
    requires
        0 <= j < child_count(l),
    ensures
        exists|p: int|
            0 <= p < plan_list(l, path).len() && plan_list(l, path)[p] == (
            path.push(child_name(l, j)),
            child_node(l, j).kind(),
            ),
    decreases l,
{
    match l {
        ChildList::Nil => {},
        ChildList::Cons { name, node, rest } => {
            let whole = plan_list(l, path);
            let first = plan(*node, path.push(name));
            if j == 0 {
                lemma_plan_last(*node, path.push(name));
                let p = first.len() - 1;
                assert(whole[p] == (path.push(child_name(l, 0)), child_node(l, 0).kind()));
            } else {
                lemma_child_step_in_list(*rest, path, j - 1);
                let p0 = choose|p0: int|
                    0 <= p0 < plan_list(*rest, path).len() && plan_list(*rest, path)[p0] == (
                    path.push(child_name(*rest, j - 1)),
                    child_node(*rest, j - 1).kind(),
                    );
                let p = first.len() + p0;
                assert(whole[p] == plan_list(*rest, path)[p0]);
            }
        },
    }
}

/// Contents first: in the plan of a directory, the removal of each child
/// stands strictly before the removal of the directory itself, which is the
/// last element.
pub proof fn lemma_contents_first(children: ChildList, path: Seq<String>, j: int)
    requires
        0 <= j < child_count(children),
    ensures
        plan(FsTree::Dir { children }, path).last() == (path, EntryKind::Dir),
        exists|p: int|
            0 <= p < plan(FsTree::Dir { children }, path).len() - 1 && plan(
                FsTree::Dir { children },
                path,
            )[p] == (path.push(child_name(children, j)), child_node(children, j).kind()),
{
    let whole = plan(FsTree::Dir { children }, path);
    let inner = plan_list(children, path);
    lemma_plan_last(FsTree::Dir { children }, path);
    lemma_child_step_in_list(children, path, j);
    let p = choose|p: int|
        0 <= p < inner.len() && inner[p] == (
        path.push(child_name(children, j)),
        child_node(children, j).kind(),
        );
    assert(whole[p] == inner[p]);
}

/// A symlink's plan is a single removal of the link itself, marked as a
/// non-directory object: deleting a symlink never walks into, removes or
/// modifies whatever the link points to.
pub proof fn lemma_symlink_removed_as_link(path: Seq<String>)
    ensures
        plan(FsTree::Symlink, path) == seq![(path, EntryKind::Symlink)],
        plan(FsTree::Symlink, path).len() == 1,
        plan(FsTree::Symlink, path)[0].1 != EntryKind::Dir,
{
}

/// Whether some child of the list bears the name `n`.
pub open spec fn has_child_name(l: ChildList, n: String) -> bool
    decreases l,
{
    match l {
        ChildList::Nil => false,
        ChildList::Cons { name, node: _, rest } => name == n || has_child_name(*rest, n),
    }
}

/// A snapshot names its entries as a real filesystem does: no directory
/// holds two children of one name.
pub open spec fn wf_names(t: FsTree) -> bool
    decreases t,
{
    match t {
        FsTree::File => true,
        FsTree::Symlink => true,
        FsTree::Dir { children } => wf_names_list(children),
    }
}

/// Unique names among the children of a list, and in every subtree below.
pub open spec fn wf_names_list(l: ChildList) -> bool
    decreases l,
{
    match l {
        ChildList::Nil => true,
        ChildList::Cons { name, node, rest } => wf_names(*node) && !has_child_name(*rest, name)
            && wf_names_list(*rest),
    }
}

/// Whether the entry at path `a` is a directory above the entry at path `b`:
/// `a` is a strictly shorter prefix of `b`.
pub open spec fn is_ancestor_path(a: Seq<String>, b: Seq<String>) -> bool {
    a.len() < b.len() && a.is_prefix_of(b)
}

/// The shape of the paths in a subtree's plan: every step lies under the
/// subtree's own path, every step but the last lies strictly below it, and
/// the last step is the subtree's root itself.
proof fn lemma_plan_paths(t: FsTree, path: Seq<String>, p: int)
    requires
        0 <= p < plan(t, path).len(),
    ensures
        path.is_prefix_of(plan(t, path)[p].0),
        p < plan(t, path).len() - 1 ==> plan(t, path)[p].0.len() > path.len(),
        p == plan(t, path).len() - 1 ==> plan(t, path)[p].0 == path,
    decreases t,
{
    match t {
        FsTree::File => {
            assert(path.is_prefix_of(path));
        },
        FsTree::Symlink => {
            assert(path.is_prefix_of(path));
        },
        FsTree::Dir { children } => {
            let inner = plan_list(children, path);
            if p < inner.len() {
                lemma_plan_list_paths(children, path, p);
            } else {
                assert(plan(t, path)[p].0 == path);
                assert(path.is_prefix_of(path));
            }
        },
    }
}

/// The shape of the paths in a child list's plan: every step lies strictly
/// below the parent's path, and its first segment below the parent is the
/// name of one of the children.
proof fn lemma_plan_list_paths(l: ChildList, path: Seq<String>, p: int)
    requires
        0 <= p < plan_list(l, path).len(),
    ensures
        path.is_prefix_of(plan_list(l, path)[p].0),
        plan_list(l, path)[p].0.len() > path.len(),
        has_child_name(l, plan_list(l, path)[p].0[path.len() as int]),
    decreases l,
{
    match l {
        ChildList::Nil => {},
        ChildList::Cons { name, node, rest } => {
            let pushed = path.push(name);
            let a = plan(*node, pushed);
            let s = plan_list(l, path)[p].0;
            if p < a.len() {
                lemma_plan_paths(*node, pushed, p);
                assert(pushed.is_prefix_of(s));
                assert(s.subrange(0, pushed.len() as int) =~= pushed);
                assert(s.subrange(0, path.len() as int) =~= path);
                assert(s.subrange(0, pushed.len() as int)[path.len() as int] == s[path.len()
                    as int]);
                assert(s[path.len() as int] == name);
            } else {
                lemma_plan_list_paths(*rest, path, p - a.len());
            }
        },
    }
}

/// Contents first, over the whole plan: a directory's removal never comes
/// before the removal of anything inside it. For a snapshot with
/// filesystem-valid names — no directory holds two children of one name —
/// no step of the plan is followed by a step for an entry below its path.
pub proof fn lemma_never_parent_before_child(t: FsTree, path: Seq<String>, p: int, q: int)
    requires
        wf_names(t),
        0 <= p < q < plan(t, path).len(),
    ensures
        !is_ancestor_path(plan(t, path)[p].0, plan(t, path)[q].0),
    decreases t,
{
    match t {
        FsTree::File => {},
        FsTree::Symlink => {},
        FsTree::Dir { children } => {
            let inner = plan_list(children, path);
            if q < inner.len() {
                lemma_list_never_parent_before_child(children, path, p, q);
            } else {
                lemma_plan_list_paths(children, path, p);
            }
        },
    }
}

/// The list form of the ordering law: within the plan of one child list, no
/// step is followed by a step for an entry below its path.
proof fn lemma_list_never_parent_before_child(l: ChildList, path: Seq<String>, p: int, q: int)
    requires
        wf_names_list(l),
        0 <= p < q < plan_list(l, path).len(),
    ensures
        !is_ancestor_path(plan_list(l, path)[p].0, plan_list(l, path)[q].0),
    decreases l,
{
    match l {
        ChildList::Nil => {},
        ChildList::Cons { name, node, rest } => {
            let pushed = path.push(name);
            let a = plan(*node, pushed);
            if q < a.len() {
                lemma_never_parent_before_child(*node, pushed, p, q);
            } else if p >= a.len() {
                lemma_list_never_parent_before_child(*rest, path, p - a.len(), q - a.len());
            } else {
                let s1 = plan_list(l, path)[p].0;
                let s2 = plan_list(l, path)[q].0;
                lemma_plan_paths(*node, pushed, p);
                assert(pushed.is_prefix_of(s1));
                assert(s1.subrange(0, pushed.len() as int) =~= pushed);
                assert(s1.subrange(0, pushed.len() as int)[path.len() as int] == s1[path.len()
                    as int]);
                assert(s1[path.len() as int] == name);
                lemma_plan_list_paths(*rest, path, q - a.len());
                assert(has_child_name(*rest, s2[path.len() as int]));
                if is_ancestor_path(s1, s2) {
                    assert(s2.subrange(0, s1.len() as int) =~= s1);
                    assert(s2[path.len() as int] == s1[path.len() as int]);
                    assert(has_child_name(*rest, name));
                }
            }
        },
    }
}

/// What is left of a subtree after its first `k` planned removals have been
/// carried out and the run then stopped: the entries already removed are
/// simply absent.
pub open spec fn residual(t: FsTree, k: nat) -> FsTree
    recommends
        k < count(t),
    decreases t,
{
    match t {
        FsTree::File => t,
        FsTree::Symlink => t,
        FsTree::Dir { children } => FsTree::Dir { children: residual_list(children, k) },
    }
}

/// What is left of a child list after its first `k` planned removals: fully
/// removed subtrees are gone, one subtree may be partially removed, the
/// rest are untouched.
pub open spec fn residual_list(l: ChildList, k: nat) -> ChildList
    recommends
        k <= count_list(l),
    decreases l,
{
    match l {
        ChildList::Nil => ChildList::Nil,
        ChildList::Cons { name, node, rest } => if k >= count(*node) {
            residual_list(*rest, (k - count(*node)) as nat)
        } else {
            ChildList::Cons { name, node: Box::new(residual(*node, k)), rest }
        },
    }
}

/// Running the deletion again after an abort continues correctly: the plan
/// of what is left on disk is exactly the unfinished suffix of the original
/// plan — entries already removed are absent and are not visited again.
pub proof fn lemma_resume_after_abort(t: FsTree, path: Seq<String>, k: nat)
    requires
        k < count(t),
    ensures
        plan(residual(t, k), path) == plan(t, path).skip(k as int),
    decreases t,
{
    lemma_plan_len(t, path);
    match t {
        FsTree::File => {
            assert(plan(t, path).skip(0) =~= plan(t, path));
        },
        FsTree::Symlink => {
            assert(plan(t, path).skip(0) =~= plan(t, path));
        },
        FsTree::Dir { children } => {
            let inner = plan_list(children, path);
            let own = seq![(path, EntryKind::Dir)];
            lemma_plan_list_len(children, path);
            lemma_resume_list(children, path, k);
            assert((inner + own).skip(k as int) =~= inner.skip(k as int) + own);
            assert(plan(residual(t, k), path) =~= plan(t, path).skip(k as int));
        },
    }
}

/// The list form of resuming after an abort.
proof fn lemma_resume_list(l: ChildList, path: Seq<String>, k: nat)
    requires
        k <= count_list(l),
    ensures
        plan_list(residual_list(l, k), path) == plan_list(l, path).skip(k as int),
    decreases l,
{
    match l {
        ChildList::Nil => {
            assert(plan_list(l, path).skip(0) =~= plan_list(l, path));
        },
        ChildList::Cons { name, node, rest } => {
            let a = plan(*node, path.push(name));
            let b = plan_list(*rest, path);
            lemma_plan_len(*node, path.push(name));
            lemma_plan_list_len(*rest, path);
            if k >= count(*node) {
                lemma_resume_list(*rest, path, (k - count(*node)) as nat);
                assert((a + b).skip(k as int) =~= b.skip(k - count(*node)));
            } else {
                lemma_resume_after_abort(*node, path.push(name), k);
                assert((a + b).skip(k as int) =~= a.skip(k as int) + b);
                assert(plan_list(residual_list(l, k), path) =~= plan_list(l, path).skip(k as int));
            }
        },
    }
}

/// Two appended runs, one after the other, append the concatenation.
proof fn lemma_appended_concat(
    pre: Seq<PlanStep>,
    mid: Seq<PlanStep>,
    post: Seq<PlanStep>,
    p1: Seq<(Seq<String>, EntryKind)>,
    p2: Seq<(Seq<String>, EntryKind)>,
)
    requires
        steps_appended(pre, mid, p1),
        steps_appended(mid, post, p2),
    ensures
        steps_appended(pre, post, p1 + p2),
{
    assert(post.subrange(0, pre.len() as int) =~= pre);
    let s1 = mid.subrange(pre.len() as int, mid.len() as int);
    let s2 = post.subrange(mid.len() as int, post.len() as int);
    let s = post.subrange(pre.len() as int, post.len() as int);
    assert(s =~= s1 + s2);
    assert forall|i: int| 0 <= i < s.len() implies (#[trigger] s[i].view_step()) == (p1 + p2)[i] by {
        if i < s1.len() {
            assert(s[i] == s1[i]);
        } else {
            assert(s[i] == s2[i - s1.len()]);
        }
    }
}

} // verus!
