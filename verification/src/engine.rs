//! The reconciliation engine: it hands out the operations of a plan one by
//! one, takes back how each went, and keeps the quiescence flag lowered on
//! every way out.
//!
//! The caller does what the engine hands out and reports the outcome; the
//! engine decides what comes next. Raising and lowering the flag and
//! waiting cannot fail; the table operations can.

use vstd::prelude::*;
use crate::reconcile::{
    allowed, guard_after, guard_after_all, guarded, plan_of, Action, Guard, Plan,
};

verus! {

/// What the caller is to do next.
#[derive(Debug, PartialEq, Eq)]
pub enum Step {
    /// Do this operation and report how it went.
    Do(Action),
    /// The reconcile is complete.
    Done,
    /// The reconcile is given up: an operation failed.
    Failed,
}

/// The engine of one reconcile.
pub struct Reconciler {
    actions: Vec<Action>,
    pos: usize,
    raised: bool,
    failed: bool,
    over: bool,
}

/// The mathematical content of a `Reconciler`.
pub struct ReconcilerSpec {
    /// The operations of the plan.
    pub actions: Seq<Action>,
    /// How many of them have been handed out.
    pub pos: nat,
    /// Whether the quiescence flag is raised.
    pub raised: bool,
    /// Whether an operation has failed.
    pub failed: bool,
    /// Whether the reconcile has ended.
    pub over: bool,
}

impl View for Reconciler {
    type V = ReconcilerSpec;

    closed spec fn view(&self) -> ReconcilerSpec {
        ReconcilerSpec {
            actions: self.actions@,
            pos: self.pos as nat,
            raised: self.raised,
            failed: self.failed,
            over: self.over,
        }
    }
}

/// Whether the flag is raised after an operation.
pub open spec fn raised_after(a: Action, raised: bool) -> bool {
    match a {
        Action::RaiseFlag => true,
        Action::LowerFlag => false,
        _ => raised,
    }
}

impl ReconcilerSpec {
    /// The engine before its first step.
    pub open spec fn initial(actions: Seq<Action>) -> ReconcilerSpec {
        ReconcilerSpec { actions, pos: 0, raised: false, failed: false, over: false }
    }

    /// The plan is guarded, and as long as nothing has failed the flag is
    /// raised exactly when the operations handed out so far leave it so.
    pub open spec fn wf(self) -> bool {
        &&& self.pos <= self.actions.len()
        &&& guarded(self.actions)
        &&& !self.failed ==> (self.raised <==> guard_after_all(
            self.actions.take(self.pos as int),
            Guard::Lowered,
        ) != Guard::Lowered)
        &&& self.over ==> !self.raised
    }

    /// The engine's next state and what it hands out, given how the last
    /// operation went. Once an operation has failed nothing more of the
    /// plan is handed out: the flag is lowered if it is raised, then the
    /// reconcile is given up. At the end of the plan the reconcile is
    /// complete.
    pub open spec fn next(self, last_ok: bool) -> (ReconcilerSpec, Step) {
        if self.over {
            (
                self,
                if self.failed {
                    Step::Failed
                } else {
                    Step::Done
                },
            )
        } else if self.failed || !last_ok {
            if self.raised {
                (ReconcilerSpec { failed: true, raised: false, ..self }, Step::Do(Action::LowerFlag))
            } else {
                (ReconcilerSpec { failed: true, over: true, ..self }, Step::Failed)
            }
        } else if self.pos >= self.actions.len() {
            if self.raised {
                (ReconcilerSpec { raised: false, ..self }, Step::Do(Action::LowerFlag))
            } else {
                (ReconcilerSpec { over: true, ..self }, Step::Done)
            }
        } else {
            let a = self.actions[self.pos as int];
            (
                ReconcilerSpec {
                    pos: self.pos + 1,
                    raised: raised_after(a, self.raised),
                    ..self
                },
                Step::Do(a),
            )
        }
    }
}

/// Whether an operation deletes bindings and connection-tracking entries
/// or edits an external entry that flows may point at.
pub open spec fn needs_guard(a: Action) -> bool {
    match a {
        Action::PurgeFlows(_) => true,
        Action::OverwriteExternal(_, _) => true,
        Action::DeleteExternal(_) => true,
        _ => false,
    }
}

/// The guard after the first `n + 1` operations is the guard after the
/// `n`-th, from the guard after the first `n`.
proof fn lemma_guard_step(actions: Seq<Action>, n: int)
    requires
        0 <= n < actions.len(),
    ensures
        guard_after_all(actions.take(n + 1), Guard::Lowered) == guard_after(
            actions[n],
            guard_after_all(actions.take(n), Guard::Lowered),
        ),
{
    assert(actions.take(n + 1).drop_last() =~= actions.take(n));
    assert(actions.take(n + 1).last() == actions[n]);
}

/// The flag discipline of every step, whether operations succeed or fail:
/// an operation that needs the guard is handed out only while the flag is
/// raised; the flag changes only by the operations that raise and lower
/// it; and the reconcile ends, complete or given up, only with the flag
/// lowered.
pub proof fn lemma_flag_discipline(s: ReconcilerSpec, last_ok: bool)
    requires
        s.wf(),
    ensures
        s.next(last_ok).0.wf(),
        s.next(last_ok).1 matches Step::Do(a) ==> {
            &&& needs_guard(a) ==> s.raised
            &&& s.next(last_ok).0.raised == raised_after(a, s.raised)
        },
        s.next(last_ok).1 is Done ==> !s.next(last_ok).0.raised && !s.next(last_ok).0.failed,
        s.next(last_ok).1 is Failed ==> !s.next(last_ok).0.raised,
{
    let (t, step) = s.next(last_ok);
    if !s.over && !s.failed && last_ok {
        if s.pos >= s.actions.len() {
            assert(s.actions.take(s.pos as int) =~= s.actions);
        } else {
            let n = s.pos as int;
            let a = s.actions[n];
            let g = guard_after_all(s.actions.take(n), Guard::Lowered);
            lemma_guard_step(s.actions, n);
            assert(allowed(a, g));
        }
    }
}

/// The engine's state and the steps it has handed out after it was told
/// the outcomes `outcomes`, one at each step.
pub open spec fn run(s: ReconcilerSpec, outcomes: Seq<bool>) -> (ReconcilerSpec, Seq<Step>)
    decreases outcomes.len(),
{
    if outcomes.len() == 0 {
        (s, Seq::empty())
    } else {
        let before = run(s, outcomes.drop_last());
        let after = before.0.next(outcomes.last());
        (after.0, before.1.push(after.1))
    }
}

/// Whether the flag is raised after the operations of the steps are done,
/// starting with the flag lowered.
pub open spec fn flag_after(steps: Seq<Step>) -> bool
    decreases steps.len(),
{
    if steps.len() == 0 {
        false
    } else {
        match steps.last() {
            Step::Do(a) => raised_after(a, flag_after(steps.drop_last())),
            _ => flag_after(steps.drop_last()),
        }
    }
}

/// Whether the flag discipline holds at step `i` of `steps`: an operation
/// that needs the guard comes with the flag raised by the steps before
/// it, and the end of the reconcile, complete or given up, comes with the
/// flag lowered.
pub open spec fn step_disciplined(steps: Seq<Step>, i: int) -> bool {
    match steps[i] {
        Step::Do(a) => needs_guard(a) ==> flag_after(steps.take(i)),
        Step::Done => !flag_after(steps.take(i)),
        Step::Failed => !flag_after(steps.take(i)),
    }
}

/// Whatever the outcomes of the operations: in every run of the engine
/// over a guarded plan, the flag is raised before any operation that
/// needs the guard, and lowered before the reconcile ends, on success and
/// on failure.
pub proof fn lemma_run_flag(actions: Seq<Action>, outcomes: Seq<bool>)
    requires
        guarded(actions),
    ensures
        run(ReconcilerSpec::initial(actions), outcomes).0.wf(),
        run(ReconcilerSpec::initial(actions), outcomes).0.raised == flag_after(
            run(ReconcilerSpec::initial(actions), outcomes).1,
        ),
        run(ReconcilerSpec::initial(actions), outcomes).1.len() == outcomes.len(),
        forall|i: int|
            0 <= i < outcomes.len() ==> step_disciplined(
                run(ReconcilerSpec::initial(actions), outcomes).1,
                i,
            ),
    decreases outcomes.len(),
{
    let s0 = ReconcilerSpec::initial(actions);
    if outcomes.len() == 0 {
        assert(actions.take(0) =~= Seq::<Action>::empty());
    } else {
        let earlier = outcomes.drop_last();
        lemma_run_flag(actions, earlier);
        let before = run(s0, earlier);
        let after = before.0.next(outcomes.last());
        let steps = before.1.push(after.1);
        lemma_flag_discipline(before.0, outcomes.last());
        assert(steps.drop_last() =~= before.1);
        assert forall|i: int| 0 <= i < outcomes.len() implies step_disciplined(steps, i) by {
            if i < before.1.len() {
                assert(steps.take(i) =~= before.1.take(i));
                assert(step_disciplined(before.1, i));
            } else {
                assert(steps.take(i) =~= before.1);
            }
        }
    }
}

/// The outcomes of `n` operations that all succeed.
pub open spec fn all_ok(n: nat) -> Seq<bool> {
    Seq::new(n, |i: int| true)
}

/// The steps that hand out the first `n` operations of a plan.
pub open spec fn first_steps(actions: Seq<Action>, n: nat) -> Seq<Step> {
    Seq::new(n, |i: int| Step::Do(actions[i]))
}

/// While every operation succeeds, the engine hands out the operations of
/// the plan in order.
pub proof fn lemma_run_all_ok(actions: Seq<Action>, n: nat)
    requires
        guarded(actions),
        n <= actions.len(),
    ensures
        run(ReconcilerSpec::initial(actions), all_ok(n)).1 == first_steps(actions, n),
        run(ReconcilerSpec::initial(actions), all_ok(n)).0.actions == actions,
        run(ReconcilerSpec::initial(actions), all_ok(n)).0.pos == n,
        !run(ReconcilerSpec::initial(actions), all_ok(n)).0.failed,
        !run(ReconcilerSpec::initial(actions), all_ok(n)).0.over,
    decreases n,
{
    let s0 = ReconcilerSpec::initial(actions);
    if n > 0 {
        let m = (n - 1) as nat;
        assert(all_ok(n).drop_last() =~= all_ok(m));
        lemma_run_all_ok(actions, m);
        let before = run(s0, all_ok(m));
        let after = before.0.next(true);
        assert(after.1 == Step::Do(actions[m as int]));
        assert(run(s0, all_ok(n)).1 =~= first_steps(actions, n));
    } else {
        assert(run(s0, all_ok(n)).1 =~= first_steps(actions, n));
    }
}

/// Where every operation of a plan has succeeded, the next step is the
/// end of the reconcile, complete.
pub proof fn lemma_run_ends_done(actions: Seq<Action>)
    requires
        guarded(actions),
    ensures
        run(ReconcilerSpec::initial(actions), all_ok(actions.len())).0.next(true).1 == Step::Done,
{
    lemma_run_all_ok(actions, actions.len());
    lemma_run_flag(actions, all_ok(actions.len()));
    let t = run(ReconcilerSpec::initial(actions), all_ok(actions.len())).0;
    assert(actions.take(t.pos as int) =~= actions);
}

/// A copy of an operation.
fn copy_action(a: &Action) -> (r: Action)
    ensures
        r == *a,
{
    match a {
        Action::PutDest(k, v) => Action::PutDest(*k, *v),
        Action::DeleteDest(k) => Action::DeleteDest(*k),
        Action::InsertExternal(k, v) => Action::InsertExternal(*k, *v),
        Action::OverwriteExternal(k, v) => Action::OverwriteExternal(*k, *v),
        Action::DeleteExternal(k) => Action::DeleteExternal(*k),
        Action::RaiseFlag => Action::RaiseFlag,
        Action::Sleep => Action::Sleep,
        Action::PurgeFlows(k) => Action::PurgeFlows(*k),
        Action::LowerFlag => Action::LowerFlag,
        Action::WriteExternalAddr(p) => Action::WriteExternalAddr(*p),
    }
}

impl Reconciler {
    /// The engine for a plan, before its first step.
    pub fn new(plan: &Plan) -> (r: Reconciler)
        ensures
            r@ == ReconcilerSpec::initial(
                plan_of(plan.dest_changes@, plan.external_changes@, plan.external_addr),
            ),
            r@.wf(),
    {
        let actions = plan.actions();
        proof {
            assert(actions@.take(0) =~= Seq::<Action>::empty());
        }
        Reconciler { actions, pos: 0, raised: false, failed: false, over: false }
    }

    /// Whether the reconcile has ended.
    pub fn is_over(&self) -> (r: bool)
        ensures
            r == self@.over,
    {
        self.over
    }

    /// Whether the quiescence flag is raised.
    pub fn flag_raised(&self) -> (r: bool)
        ensures
            r == self@.raised,
    {
        self.raised
    }

    /// Takes how the last operation went and hands out the next step. For
    /// the first step, and after an operation that cannot fail, `last_ok`
    /// is `true`.
    pub fn next(&mut self, last_ok: bool) -> (step: Step)
        requires
            old(self)@.wf(),
        ensures
            (final(self)@, step) == old(self)@.next(last_ok),
            final(self)@.wf(),
    {
        proof {
            lemma_flag_discipline(self@, last_ok);
        }
        if self.over {
            if self.failed {
                Step::Failed
            } else {
                Step::Done
            }
        } else if self.failed || !last_ok {
            self.failed = true;
            if self.raised {
                self.raised = false;
                Step::Do(Action::LowerFlag)
            } else {
                self.over = true;
                Step::Failed
            }
        } else if self.pos >= self.actions.len() {
            if self.raised {
                self.raised = false;
                Step::Do(Action::LowerFlag)
            } else {
                self.over = true;
                Step::Done
            }
        } else {
            let a = copy_action(&self.actions[self.pos]);
            self.pos = self.pos + 1;
            match a {
                Action::RaiseFlag => {
                    self.raised = true;
                },
                Action::LowerFlag => {
                    self.raised = false;
                },
                _ => {},
            }
            Step::Do(a)
        }
    }
}

} // verus!
