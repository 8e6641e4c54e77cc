//! The measurement plan of one harness run: which builds are measured, in
//! which order, and under which names.

use vstd::prelude::*;
use crate::config::RunOrder;
use crate::paths::{file_name, file_name_of, PathStyle};
use crate::text::{dec_string, push_decimal};

verus! {

/// Which build a step of the run measures.
#[derive(Debug, Clone, Copy, PartialEq, Eq, Structural)]
pub enum Which {
    /// The current build (`APP_PATH_NEW`); its failure ends the run.
    New,
    /// The old build (`APP_PATH_OLD`); its failure is only a warning.
    Old,
}

/// The steps of a run: the current build alone when there is nothing to
/// compare with, otherwise both builds in the configured order.
pub open spec fn planned(order: RunOrder, has_old: bool) -> Seq<Which> {
    if !has_old {
        seq![Which::New]
    } else {
        match order {
            RunOrder::NewFirst => seq![Which::New, Which::Old],
            RunOrder::OldFirst => seq![Which::Old, Which::New],
        }
    }
}

/// The queue of measurements for this run.
pub fn run_sequence(order: RunOrder, has_old: bool) -> (r: Vec<Which>)
    ensures
        r@ == planned(order, has_old),
{
    if !has_old {
        let r = vec![Which::New];
        assert(r@ =~= seq![Which::New]);
        return r;
    }
    let r = match order {
        RunOrder::NewFirst => vec![Which::New, Which::Old],
        RunOrder::OldFirst => vec![Which::Old, Which::New],
    };
    assert(r@ =~= planned(order, has_old));
    r
}

/// `w` stands at exactly one place of `s`.
pub open spec fn exactly_once(s: Seq<Which>, w: Which) -> bool {
    exists|i: int| 0 <= i < s.len() && s[i] == w && forall|j: int| 0 <= j < s.len() && s[j] == w ==> j == i
}

/// The current build is measured exactly once in every plan; the old build is
/// measured exactly once when it is given, and never otherwise.
pub proof fn lemma_every_plan_measures_the_current_build_once(order: RunOrder, has_old: bool)
    ensures
        exactly_once(planned(order, has_old), Which::New),
        has_old ==> exactly_once(planned(order, has_old), Which::Old),
        !has_old ==> !planned(order, has_old).contains(Which::Old),
        planned(order, has_old).len() == (if has_old {
            2int
        } else {
            1int
        }),
{
    let s = planned(order, has_old);
    if !has_old {
        assert(s[0] == Which::New);
        assert(!s.contains(Which::Old)) by {
            if s.contains(Which::Old) {
                let k = choose|k: int| 0 <= k < s.len() && s[k] == Which::Old;
                assert(k == 0);
            }
        }
    } else {
        match order {
            RunOrder::NewFirst => {
                assert(s[0] == Which::New && s[1] == Which::Old);
            },
            RunOrder::OldFirst => {
                assert(s[0] == Which::Old && s[1] == Which::New);
            },
        }
    }
}

/// The two orders are each other's reverse.
pub proof fn lemma_orders_swap_the_whole_sequence()
    ensures
        planned(RunOrder::OldFirst, true) == planned(RunOrder::NewFirst, true).reverse(),
{
    assert(planned(RunOrder::OldFirst, true) =~= planned(RunOrder::NewFirst, true).reverse());
}

/// The name under which a measured executable is reported: the final name of
/// its path, or `unknown.exe` when the path names no file.
pub open spec fn executable_name(style: PathStyle, path: Seq<char>) -> Seq<char> {
    match file_name(style, path) {
        Some(n) => n,
        None => "unknown.exe"@,
    }
}

/// The file name of the executable at `path`.
pub fn extract_filename(path: &str, style: PathStyle) -> (r: String)
    ensures
        r@ == executable_name(style, path@),
{
    match file_name_of(path, style) {
        Some(n) => n,
        None => String::from_str("unknown.exe"),
    }
}

/// The label of a step: `[Шаг position/total]`.
pub open spec fn step_text(position: nat, total: nat) -> Seq<char> {
    "[Шаг "@ + dec_string(position) + "/"@ + dec_string(total) + "]"@
}

/// The label printed before a measurement step.
pub fn step_label(position: u64, total: u64) -> (r: String)
    ensures
        r@ == step_text(position as nat, total as nat),
{
    let mut r = String::from_str("[Шаг ");
    push_decimal(&mut r, position);
    r.append("/");
    push_decimal(&mut r, total);
    r.append("]");
    r
}

// ───────────── the course of a run ─────────────

/// Which report closes the run.
#[derive(Debug, Clone, Copy, PartialEq, Eq, Structural)]
pub enum ReportKind {
    /// Both builds were measured: compare them.
    Comparison,
    /// No old build was given: a single chart of the current build.
    SingleWithoutOld,
    /// The old build was given but could not be measured: a single chart of
    /// the current build, with a warning.
    SingleOldFailed,
    /// The current build was not measured: nothing to report.
    NoReport,
}

/// The closing report: a comparison when both builds were measured, a single
/// chart when only the current one was, nothing without it.
pub open spec fn report_kind(has_old: bool, new_ok: bool, old_ok: bool) -> ReportKind {
    if !new_ok {
        ReportKind::NoReport
    } else if has_old && old_ok {
        ReportKind::Comparison
    } else if !has_old {
        ReportKind::SingleWithoutOld
    } else {
        ReportKind::SingleOldFailed
    }
}

/// Chooses the closing report.
pub fn report_plan(has_old: bool, new_ok: bool, old_ok: bool) -> (r: ReportKind)
    ensures
        r == report_kind(has_old, new_ok, old_ok),
{
    if !new_ok {
        ReportKind::NoReport
    } else if has_old && old_ok {
        ReportKind::Comparison
    } else if !has_old {
        ReportKind::SingleWithoutOld
    } else {
        ReportKind::SingleOldFailed
    }
}

/// Where a run stands: its plan, how many steps are done, and which builds
/// were measured.
pub struct RunState {
    pub plan: Vec<Which>,
    pub done: usize,
    pub new_ok: bool,
    pub old_ok: bool,
}

/// What happened since the last action.
#[derive(Debug, Clone, Copy, PartialEq, Eq, Structural)]
pub enum RunEvent {
    /// The run begins.
    Started,
    /// The step just taken measured its build (`ok`) or failed.
    Measured { ok: bool },
}

/// What the harness does next.
#[derive(Debug, Clone, Copy, PartialEq, Eq, Structural)]
pub enum RunAction {
    /// Measure a build, as step `position` (counted from 1) of the run.
    Measure { which: Which, position: usize },
    /// The current build failed: end the run, archiving what was already
    /// written when the old build was measured before it.
    Abort { archive: bool },
    /// All steps are done: write the closing report.
    Report(ReportKind),
}

/// The action after `done` steps.
pub open spec fn next_action(plan: Seq<Which>, done: nat, new_ok: bool, old_ok: bool) -> RunAction {
    if done < plan.len() {
        RunAction::Measure { which: plan[done as int], position: (done + 1) as usize }
    } else {
        RunAction::Report(report_kind(plan.contains(Which::Old), new_ok, old_ok))
    }
}

/// One step of a run: the new progress (steps done, builds measured) and the
/// action. Only a failure of the current build ends the run, whatever the
/// order; a failure of the old build is only remembered.
pub open spec fn run_next(
    plan: Seq<Which>,
    done: nat,
    new_ok: bool,
    old_ok: bool,
    event: RunEvent,
) -> (nat, bool, bool, RunAction) {
    match event {
        RunEvent::Started => (done, new_ok, old_ok, next_action(plan, done, new_ok, old_ok)),
        RunEvent::Measured { ok } => if done >= plan.len() {
            (done, new_ok, old_ok, next_action(plan, done, new_ok, old_ok))
        } else if plan[done as int] == Which::New && !ok {
            (done, new_ok, old_ok, RunAction::Abort { archive: old_ok })
        } else {
            let n2 = if plan[done as int] == Which::New {
                true
            } else {
                new_ok
            };
            let o2 = if plan[done as int] == Which::Old {
                ok
            } else {
                old_ok
            };
            (done + 1, n2, o2, next_action(plan, done + 1, n2, o2))
        },
    }
}

fn plan_has_old(plan: &Vec<Which>) -> (r: bool)
    ensures
        r == plan@.contains(Which::Old),
{
    let mut k: usize = 0;
    while k < plan.len()
        invariant
            k <= plan@.len(),
            forall|j: int| 0 <= j < k ==> plan@[j] != Which::Old,
        decreases plan@.len() - k,
    {
        if plan[k] == Which::Old {
            assert(plan@[k as int] == Which::Old);
            return true;
        }
        k += 1;
    }
    false
}

fn action_after(plan: &Vec<Which>, done: usize, new_ok: bool, old_ok: bool) -> (r: RunAction)
    ensures
        r == next_action(plan@, done as nat, new_ok, old_ok),
{
    if done < plan.len() {
        RunAction::Measure { which: plan[done], position: done + 1 }
    } else {
        RunAction::Report(report_plan(plan_has_old(plan), new_ok, old_ok))
    }
}

impl RunState {
    /// A run about to start on the given plan.
    pub fn new(plan: Vec<Which>) -> (r: RunState)
        ensures
            r.plan@ == plan@,
            r.done == 0,
            !r.new_ok,
            !r.old_ok,
    {
        RunState { plan, done: 0, new_ok: false, old_ok: false }
    }
}

/// Advances a run by one event and says what to do next.
pub fn run_step(state: RunState, event: RunEvent) -> (r: (RunState, RunAction))
    ensures
        r.0.plan@ == state.plan@,
        state.done <= state.plan@.len() ==> r.0.done <= r.0.plan@.len(),
        (r.0.done as nat, r.0.new_ok, r.0.old_ok, r.1) == run_next(
            state.plan@,
            state.done as nat,
            state.new_ok,
            state.old_ok,
            event,
        ),
{
    let RunState { plan, done, new_ok, old_ok } = state;
    match event {
        RunEvent::Started => {
            let a = action_after(&plan, done, new_ok, old_ok);
            (RunState { plan, done, new_ok, old_ok }, a)
        },
        RunEvent::Measured { ok } => {
            if done >= plan.len() {
                let a = action_after(&plan, done, new_ok, old_ok);
                (RunState { plan, done, new_ok, old_ok }, a)
            } else if plan[done] == Which::New && !ok {
                (RunState { plan, done, new_ok, old_ok }, RunAction::Abort { archive: old_ok })
            } else {
                let which = plan[done];
                let n2 = if which == Which::New {
                    true
                } else {
                    new_ok
                };
                let o2 = if which == Which::Old {
                    ok
                } else {
                    old_ok
                };
                let a = action_after(&plan, done + 1, n2, o2);
                (RunState { plan, done: done + 1, new_ok: n2, old_ok: o2 }, a)
            }
        },
    }
}

/// A run over a planned sequence: the first action after the start, and what
/// follows the measurements. With every measurement of the current build
/// succeeding, the run ends in the report that the old build's outcome calls
/// for; a failure of the current build ends it at once, archiving exactly when
/// the old build was measured before; the old build's failure never ends it.
pub proof fn lemma_runs_end_as_planned(order: RunOrder, has_old: bool, ok1: bool, ok2: bool)
    ensures
        ({
            let plan = planned(order, has_old);
            let (d0, n0, o0, a0) = run_next(plan, 0, false, false, RunEvent::Started);
            let (d1, n1, o1, a1) = run_next(plan, d0, n0, o0, RunEvent::Measured { ok: ok1 });
            let (d2, n2, o2, a2) = run_next(plan, d1, n1, o1, RunEvent::Measured { ok: ok2 });
            &&& a0 == RunAction::Measure { which: plan[0], position: 1 }
            &&& !has_old ==> a1 == (if ok1 {
                RunAction::Report(ReportKind::SingleWithoutOld)
            } else {
                RunAction::Abort { archive: false }
            })
            &&& (has_old && order == RunOrder::NewFirst) ==> {
                &&& a1 == (if ok1 {
                    RunAction::Measure { which: Which::Old, position: 2 }
                } else {
                    RunAction::Abort { archive: false }
                })
                &&& ok1 ==> a2 == RunAction::Report(report_kind(true, true, ok2))
            }
            &&& (has_old && order == RunOrder::OldFirst) ==> {
                &&& a1 == RunAction::Measure { which: Which::New, position: 2 }
                &&& a2 == (if ok2 {
                    RunAction::Report(report_kind(true, true, ok1))
                } else {
                    RunAction::Abort { archive: ok1 }
                })
            }
        }),
{
    let plan = planned(order, has_old);
    assert(plan.contains(Which::New)) by {
        lemma_every_plan_measures_the_current_build_once(order, has_old);
    }
    if has_old {
        assert(plan[0] == Which::New || plan[0] == Which::Old);
        assert(plan.contains(Which::Old)) by {
            match order {
                RunOrder::NewFirst => assert(plan[1] == Which::Old),
                RunOrder::OldFirst => assert(plan[0] == Which::Old),
            }
        }
    } else {
        lemma_every_plan_measures_the_current_build_once(order, has_old);
    }
}

} // verus!
