//! The state of one deletion run. The run owns the contents-first plan and a
//! cursor over it: the caller asks for the next entry to remove, performs the
//! one filesystem operation, and reports the outcome. A success advances the
//! cursor — the progress count — by exactly one; the first failure halts the
//! run for good, so nothing planned after the failing entry is ever handed
//! out.

use vstd::prelude::*;

use crate::plan::PlanStep;
use crate::plan::lemma_plan_len;
use crate::plan::plan;
use crate::plan::steps_match;
use crate::tree::EntryKind;
use crate::tree::FsTree;
use crate::tree::count;

verus! {

/// Why a deletion could not run or could not finish.
#[derive(Clone, Copy, Debug, PartialEq, Eq, Structural)]
pub enum DeleteError {
    /// The target path did not exist when the deletion was asked for;
    /// nothing was planned and nothing was touched.
    PathNotFound,
    /// The filesystem rejected the removal of one entry; the run halted
    /// there, and everything removed before stays removed.
    EntryRemovalFailed,
}

/// A deletion in progress: the fixed plan, how many of its steps have
/// succeeded so far, and whether a failure has halted the run.
pub struct DeleteRun {
    plan: Vec<PlanStep>,
    done: usize,
    halted: bool,
}

impl DeleteRun {
    /// The planned removals, fixed for the whole run.
    pub closed spec fn steps(self) -> Seq<PlanStep> {
        self.plan@
    }

    /// The number of entries removed so far: the current progress count.
    pub closed spec fn completed(self) -> nat {
        self.done as nat
    }

    /// The fixed total the progress display was initialized with.
    pub open spec fn total(self) -> nat {
        self.steps().len()
    }

    /// Whether a failed removal has halted the run.
    pub closed spec fn is_halted(self) -> bool {
        self.halted
    }

    /// The steps carried out so far: always a prefix of the plan, in plan
    /// order.
    pub open spec fn removed(self) -> Seq<PlanStep> {
        self.steps().take(self.completed() as int)
    }

    /// The cursor never leaves the plan: the progress count cannot exceed
    /// the total.
    pub closed spec fn wf(self) -> bool {
        self.done <= self.plan@.len()
    }

    /// Starts a run over a ready-made plan, with nothing removed yet.
    pub fn new(plan: Vec<PlanStep>) -> (r: DeleteRun)
        ensures
            r.wf(),
            r.steps() == plan@,
            r.completed() == 0,
            !r.is_halted(),
    {
        DeleteRun { plan, done: 0, halted: false }
    }

    /// Whether the run still has an entry to remove: not finished and not
    /// halted by a failure.
    pub fn is_active(&self) -> (r: bool)
        requires
            self.wf(),
        ensures
            r == (self.completed() < self.total() && !self.is_halted()),
    {
        !self.halted && self.done < self.plan.len()
    }

    /// The kind of the entry to remove next: a directory is removed as an
    /// empty directory, a file or a symlink as a single object.
    pub fn next_kind(&self) -> (r: EntryKind)
        requires
            self.wf(),
            self.completed() < self.total(),
            !self.is_halted(),
        ensures
            r == self.steps()[self.completed() as int].kind,
    {
        self.plan[self.done].kind
    }

    /// The path of the entry to remove next, as the segments below the
    /// target root; the root itself has no segments.
    pub fn next_path(&self) -> (r: &Vec<String>)
        requires
            self.wf(),
            self.completed() < self.total(),
            !self.is_halted(),
        ensures
            r@ == self.steps()[self.completed() as int].path@,
    {
        &self.plan[self.done].path
    }

    /// Records that the pending entry was removed: the progress count
    /// advances by exactly one, and the removed prefix grows by exactly
    /// that entry.
    pub fn record_success(&mut self)
        requires
            old(self).wf(),
            old(self).completed() < old(self).total(),
            !old(self).is_halted(),
        ensures
            final(self).wf(),
            final(self).steps() == old(self).steps(),
            !final(self).is_halted(),
            final(self).completed() == old(self).completed() + 1,
            final(self).removed() == old(self).removed().push(
                old(self).steps()[old(self).completed() as int],
            ),
    {
        proof {
            vstd::std_specs::vec::axiom_spec_len(&self.plan);
        }
        self.done = self.done + 1;
        proof {
            assert(self.removed() =~= old(self).removed().push(
                old(self).steps()[old(self).completed() as int],
            ));
        }
    }

    /// Records that the filesystem rejected the removal of the pending
    /// entry. The run halts for good: the progress count is frozen, and no
    /// entry planned after the failing one is ever handed out.
    pub fn record_failure(&mut self)
        requires
            old(self).wf(),
        ensures
            final(self).wf(),
            final(self).steps() == old(self).steps(),
            final(self).is_halted(),
            final(self).completed() == old(self).completed(),
            final(self).removed() == old(self).removed(),
    {
        self.halted = true;
    }

    /// The error a halted run reports to the caller.
    pub fn failure(&self) -> (r: DeleteError)
        requires
            self.is_halted(),
        ensures
            r == DeleteError::EntryRemovalFailed,
    {
        DeleteError::EntryRemovalFailed
    }

    /// The progress count, for the display.
    pub fn completed_count(&self) -> (r: usize)
        ensures
            r == self.completed(),
    {
        self.done
    }

    /// The fixed total, for initializing the display.
    pub fn total_count(&self) -> (r: usize)
        ensures
            r == self.total(),
    {
        self.plan.len()
    }
}

/// Begins a deletion. A target that does not exist yields no snapshot and
/// is reported as `PathNotFound`, with nothing planned and nothing touched.
/// A snapshot of an existing target yields a fresh run over its
/// contents-first plan, whose total is exactly the entry count of the
/// snapshot.
pub fn prepare(target: Option<&FsTree>) -> (r: Result<DeleteRun, DeleteError>)
    ensures
        target is None <==> r == Result::<DeleteRun, DeleteError>::Err(DeleteError::PathNotFound),
        target is Some ==> r is Ok && {
            let run = r->Ok_0;
            &&& run.wf()
            &&& steps_match(run.steps(), plan(*target->0, Seq::empty()))
            &&& run.total() == count(*target->0)
            &&& run.completed() == 0
            &&& !run.is_halted()
        },
{
    match target {
        None => Err(DeleteError::PathNotFound),
        Some(tree) => {
            let steps = tree.build_plan();
            proof {
                lemma_plan_len(*tree, Seq::empty());
            }
            Ok(DeleteRun::new(steps))
        },
    }
}

/// The progress invariant: however a run was driven, the number of removed
/// entries never exceeds the total the display was initialized with.
pub proof fn lemma_progress_bounded(r: DeleteRun)
    requires
        r.wf(),
    ensures
        r.completed() <= r.total(),
        r.removed().len() == r.completed(),
{
}

/// A run that was driven to its total removed exactly the whole plan: one
/// progress advance per planned entry, the directory tree's root last, and
/// nothing else.
pub proof fn lemma_finished_removed_all(r: DeleteRun)
    requires
        r.wf(),
        r.completed() == r.total(),
    ensures
        r.removed() == r.steps(),
{
    assert(r.removed() =~= r.steps());
}

/// Halting is final in plan order: everything removed when a run halts
/// stands strictly before the failing entry in the plan, so no entry that
/// the traversal would have visited after the failure is removed.
pub proof fn lemma_abort_removes_nothing_after(r: DeleteRun, i: int)
    requires
        r.wf(),
        0 <= i < r.removed().len(),
    ensures
        r.removed()[i] == r.steps()[i],
        i < r.completed(),
{
}

} // verus!
