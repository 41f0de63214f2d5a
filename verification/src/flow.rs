//! The two sequences of decisions that surround a removal: the
//! interactive session that leads from a plan to a confirmed removal, and
//! the execution of a confirmed plan. Each is a step function from state
//! and event to the next state and the action to perform; the caller
//! performs the action and reports its outcome as the next event.
use crate::model::{Impact, Match};
use crate::session::{affirmative, affirmative_spec, confirmation, confirmation_spec};
use crate::text::str_eq;
use vstd::prelude::*;

verus! {

// ---------------------------------------------------------------------------
// Carrying out a confirmed plan
// ---------------------------------------------------------------------------

/// Where the execution of a confirmed plan stands.
#[derive(Debug, Clone, Copy, PartialEq, Eq, Structural)]
pub enum ExecPhase {
    Revalidating,
    Replanning,
    Preparing,
    Removing,
    RemovingData,
    Checking,
    Done,
}

/// The execution of a confirmed plan: the fingerprint that was confirmed,
/// the removal batches and installed-state checks still to come, whether
/// data was selected, and whether anything has failed.
pub struct ExecState {
    pub phase: ExecPhase,
    pub fingerprint: String,
    pub batches_left: usize,
    pub has_data: bool,
    pub checks_left: usize,
    pub failed: bool,
}

/// Why an execution stopped before anything was run.
pub enum AbortReason {
    /// The selected items could no longer be confirmed as installed.
    Invalid(String),
    /// The package-manager transaction changed after confirmation.
    Changed,
    /// The removal commands could not be prepared.
    Unprepared(String),
}

/// What the caller reports back.
pub enum ExecEvent {
    /// Whether the selected items are still what was confirmed.
    Revalidated(Result<(), String>),
    /// The fingerprint of the plan built again just before execution.
    Replanned(String),
    /// The number of removal batches, or why they could not be prepared.
    Prepared(Result<usize, String>),
    /// Whether a removal batch succeeded.
    BatchDone(bool),
    /// Whether every selected data path was removed.
    DataDone(bool),
    /// Whether an item is still installed, when that could be told.
    StillPresent(Option<bool>),
}

/// What the caller is to do next.
pub enum ExecAction {
    Revalidate,
    Replan,
    Prepare,
    RunBatch,
    RemoveData,
    /// Check the next item's installed state; `kept_data` when selected
    /// data was kept because a removal failed.
    Check { kept_data: bool },
    /// Stop with exit code 1; nothing was run.
    Abort(AbortReason),
    /// Stop with this exit code.
    Finish(i32),
}

pub open spec fn exit_code_spec(failed: bool) -> i32 {
    if failed {
        1
    } else {
        0
    }
}

pub open spec fn exec_at(s: ExecState, phase: ExecPhase, failed: bool) -> ExecState {
    ExecState {
        phase,
        fingerprint: s.fingerprint,
        batches_left: s.batches_left,
        has_data: s.has_data,
        checks_left: s.checks_left,
        failed,
    }
}

/// An event that does not belong to the current phase ends the run as a
/// failure.
pub open spec fn exec_out_of_turn(s: ExecState) -> (ExecState, ExecAction) {
    (exec_at(s, ExecPhase::Done, true), ExecAction::Finish(1))
}

/// After the last removal batch: the selected data is removed only when no
/// removal failed; then every item is checked.
pub open spec fn start_checks(s: ExecState, kept_data: bool) -> (ExecState, ExecAction) {
    if s.checks_left > 0 {
        (exec_at(s, ExecPhase::Checking, s.failed), ExecAction::Check { kept_data })
    } else {
        (exec_at(s, ExecPhase::Done, s.failed), ExecAction::Finish(exit_code_spec(s.failed)))
    }
}

pub open spec fn after_removals(s: ExecState) -> (ExecState, ExecAction) {
    if !s.failed && s.has_data {
        (exec_at(s, ExecPhase::RemovingData, false), ExecAction::RemoveData)
    } else {
        start_checks(s, s.failed && s.has_data)
    }
}

/// One step of the execution of a confirmed plan.
pub open spec fn exec_step_spec(s: ExecState, e: ExecEvent) -> (ExecState, ExecAction) {
    match e {
        ExecEvent::Revalidated(outcome) => if s.phase == ExecPhase::Revalidating {
            match outcome {
                Ok(_) => (exec_at(s, ExecPhase::Replanning, s.failed), ExecAction::Replan),
                Err(message) => (
                    exec_at(s, ExecPhase::Done, true),
                    ExecAction::Abort(AbortReason::Invalid(message)),
                ),
            }
        } else {
            exec_out_of_turn(s)
        },
        ExecEvent::Replanned(fingerprint) => if s.phase == ExecPhase::Replanning {
            if fingerprint@ == s.fingerprint@ {
                (exec_at(s, ExecPhase::Preparing, s.failed), ExecAction::Prepare)
            } else {
                (exec_at(s, ExecPhase::Done, true), ExecAction::Abort(AbortReason::Changed))
            }
        } else {
            exec_out_of_turn(s)
        },
        ExecEvent::Prepared(outcome) => if s.phase == ExecPhase::Preparing {
            match outcome {
                Ok(n) => {
                    let t = ExecState {
                        phase: ExecPhase::Removing,
                        fingerprint: s.fingerprint,
                        batches_left: n,
                        has_data: s.has_data,
                        checks_left: s.checks_left,
                        failed: s.failed,
                    };
                    if n > 0 {
                        (t, ExecAction::RunBatch)
                    } else {
                        after_removals(t)
                    }
                },
                Err(message) => (
                    exec_at(s, ExecPhase::Done, true),
                    ExecAction::Abort(AbortReason::Unprepared(message)),
                ),
            }
        } else {
            exec_out_of_turn(s)
        },
        ExecEvent::BatchDone(ok) => if s.phase == ExecPhase::Removing && s.batches_left > 0 {
            let t = ExecState {
                phase: ExecPhase::Removing,
                fingerprint: s.fingerprint,
                batches_left: (s.batches_left - 1) as usize,
                has_data: s.has_data,
                checks_left: s.checks_left,
                failed: s.failed || !ok,
            };
            if t.batches_left > 0 {
                (t, ExecAction::RunBatch)
            } else {
                after_removals(t)
            }
        } else {
            exec_out_of_turn(s)
        },
        ExecEvent::DataDone(ok) => if s.phase == ExecPhase::RemovingData {
            start_checks(exec_at(s, ExecPhase::RemovingData, s.failed || !ok), false)
        } else {
            exec_out_of_turn(s)
        },
        ExecEvent::StillPresent(present) => if s.phase == ExecPhase::Checking && s.checks_left > 0 {
            let t = ExecState {
                phase: ExecPhase::Checking,
                fingerprint: s.fingerprint,
                batches_left: s.batches_left,
                has_data: s.has_data,
                checks_left: (s.checks_left - 1) as usize,
                failed: s.failed || present == Some(true),
            };
            if t.checks_left > 0 {
                (t, ExecAction::Check { kept_data: false })
            } else {
                (exec_at(t, ExecPhase::Done, t.failed), ExecAction::Finish(exit_code_spec(t.failed)))
            }
        } else {
            exec_out_of_turn(s)
        },
    }
}

/// Starts the execution of a plan confirmed with `fingerprint`, with
/// `items` selected items to check afterwards.
pub fn execution_start(fingerprint: String, has_data: bool, items: usize) -> (r: (ExecState, ExecAction))
    ensures
        r == (
            ExecState {
                phase: ExecPhase::Revalidating,
                fingerprint,
                batches_left: 0,
                has_data,
                checks_left: items,
                failed: false,
            },
            ExecAction::Revalidate,
        ),
{
    (
        ExecState {
            phase: ExecPhase::Revalidating,
            fingerprint,
            batches_left: 0,
            has_data,
            checks_left: items,
            failed: false,
        },
        ExecAction::Revalidate,
    )
}

fn exec_with(s: ExecState, phase: ExecPhase, failed: bool) -> (r: ExecState)
    ensures
        r == exec_at(s, phase, failed),
{
    ExecState {
        phase,
        fingerprint: s.fingerprint,
        batches_left: s.batches_left,
        has_data: s.has_data,
        checks_left: s.checks_left,
        failed,
    }
}

fn checks_from(s: ExecState, kept_data: bool) -> (r: (ExecState, ExecAction))
    ensures
        r == start_checks(s, kept_data),
{
    if s.checks_left > 0 {
        let failed = s.failed;
        (exec_with(s, ExecPhase::Checking, failed), ExecAction::Check { kept_data })
    } else {
        let code: i32 = if s.failed {
            1
        } else {
            0
        };
        let failed = s.failed;
        (exec_with(s, ExecPhase::Done, failed), ExecAction::Finish(code))
    }
}

fn removals_done(s: ExecState) -> (r: (ExecState, ExecAction))
    ensures
        r == after_removals(s),
{
    if !s.failed && s.has_data {
        (exec_with(s, ExecPhase::RemovingData, false), ExecAction::RemoveData)
    } else {
        let kept = s.failed && s.has_data;
        checks_from(s, kept)
    }
}

/// One step of the execution of a confirmed plan: the next state and the
/// action to perform.
pub fn execution_step(state: ExecState, event: ExecEvent) -> (r: (ExecState, ExecAction))
    ensures
        r == exec_step_spec(state, event),
{
    let s = state;
    match event {
        ExecEvent::Revalidated(outcome) => {
            if s.phase == ExecPhase::Revalidating {
                match outcome {
                    Ok(_) => {
                        let failed = s.failed;
                        (exec_with(s, ExecPhase::Replanning, failed), ExecAction::Replan)
                    },
                    Err(message) => (
                        exec_with(s, ExecPhase::Done, true),
                        ExecAction::Abort(AbortReason::Invalid(message)),
                    ),
                }
            } else {
                (exec_with(s, ExecPhase::Done, true), ExecAction::Finish(1))
            }
        },
        ExecEvent::Replanned(fingerprint) => {
            if s.phase == ExecPhase::Replanning {
                if str_eq(fingerprint.as_str(), s.fingerprint.as_str()) {
                    let failed = s.failed;
                    (exec_with(s, ExecPhase::Preparing, failed), ExecAction::Prepare)
                } else {
                    (exec_with(s, ExecPhase::Done, true), ExecAction::Abort(AbortReason::Changed))
                }
            } else {
                (exec_with(s, ExecPhase::Done, true), ExecAction::Finish(1))
            }
        },
        ExecEvent::Prepared(outcome) => {
            if s.phase == ExecPhase::Preparing {
                match outcome {
                    Ok(n) => {
                        let t = ExecState {
                            phase: ExecPhase::Removing,
                            fingerprint: s.fingerprint,
                            batches_left: n,
                            has_data: s.has_data,
                            checks_left: s.checks_left,
                            failed: s.failed,
                        };
                        if n > 0 {
                            (t, ExecAction::RunBatch)
                        } else {
                            removals_done(t)
                        }
                    },
                    Err(message) => (
                        exec_with(s, ExecPhase::Done, true),
                        ExecAction::Abort(AbortReason::Unprepared(message)),
                    ),
                }
            } else {
                (exec_with(s, ExecPhase::Done, true), ExecAction::Finish(1))
            }
        },
        ExecEvent::BatchDone(ok) => {
            if s.phase == ExecPhase::Removing && s.batches_left > 0 {
                let t = ExecState {
                    phase: ExecPhase::Removing,
                    fingerprint: s.fingerprint,
                    batches_left: s.batches_left - 1,
                    has_data: s.has_data,
                    checks_left: s.checks_left,
                    failed: s.failed || !ok,
                };
                if t.batches_left > 0 {
                    (t, ExecAction::RunBatch)
                } else {
                    removals_done(t)
                }
            } else {
                (exec_with(s, ExecPhase::Done, true), ExecAction::Finish(1))
            }
        },
        ExecEvent::DataDone(ok) => {
            if s.phase == ExecPhase::RemovingData {
                let failed = s.failed || !ok;
                checks_from(exec_with(s, ExecPhase::RemovingData, failed), false)
            } else {
                (exec_with(s, ExecPhase::Done, true), ExecAction::Finish(1))
            }
        },
        ExecEvent::StillPresent(present) => {
            if s.phase == ExecPhase::Checking && s.checks_left > 0 {
                let t = ExecState {
                    phase: ExecPhase::Checking,
                    fingerprint: s.fingerprint,
                    batches_left: s.batches_left,
                    has_data: s.has_data,
                    checks_left: s.checks_left - 1,
                    failed: s.failed || matches!(present, Some(true)),
                };
                if t.checks_left > 0 {
                    (t, ExecAction::Check { kept_data: false })
                } else {
                    let code: i32 = if t.failed {
                        1
                    } else {
                        0
                    };
                    let failed = t.failed;
                    (exec_with(t, ExecPhase::Done, failed), ExecAction::Finish(code))
                }
            } else {
                (exec_with(s, ExecPhase::Done, true), ExecAction::Finish(1))
            }
        },
    }
}

/// The actions of a run of the execution from `s` through `events`.
pub open spec fn exec_trace(s: ExecState, events: Seq<ExecEvent>) -> Seq<ExecAction>
    decreases events.len(),
{
    if events.len() == 0 {
        Seq::empty()
    } else {
        let (t, a) = exec_step_spec(s, events[0]);
        seq![a] + exec_trace(t, events.drop_first())
    }
}

proof fn lemma_trace_step(s: ExecState, events: Seq<ExecEvent>)
    requires
        events.len() > 0,
    ensures
        exec_trace(s, events).len() == events.len(),
        forall|i: int|
            0 < i < events.len() ==> #[trigger] exec_trace(s, events)[i] == exec_trace(
                exec_step_spec(s, events[0]).0,
                events.drop_first(),
            )[i - 1],
        exec_trace(s, events)[0] == exec_step_spec(s, events[0]).1,
{
    let t = exec_step_spec(s, events[0]).0;
    lemma_trace_len(t, events.drop_first());
}

proof fn lemma_trace_len(s: ExecState, events: Seq<ExecEvent>)
    ensures
        exec_trace(s, events).len() == events.len(),
    decreases events.len(),
{
    if events.len() > 0 {
        lemma_trace_len(exec_step_spec(s, events[0]).0, events.drop_first());
    }
}

/// Whether an action changes the system: a removal batch or the removal of
/// data.
pub open spec fn changes_system(a: ExecAction) -> bool {
    a is RunBatch || a is RemoveData
}

/// Whether an event stops the run before anything is removed: the items
/// could not be confirmed again, or the plan built again just before
/// execution has another fingerprint than the confirmed one.
pub open spec fn stops_before_removal(s: ExecState, e: ExecEvent) -> bool {
    ||| s.phase == ExecPhase::Revalidating && e matches ExecEvent::Revalidated(Err(_))
    ||| s.phase == ExecPhase::Replanning && (e matches ExecEvent::Replanned(f) && f@ != s.fingerprint@)
}

proof fn lemma_done_changes_nothing(s: ExecState, events: Seq<ExecEvent>)
    requires
        s.phase == ExecPhase::Done,
    ensures
        forall|i: int| 0 <= i < events.len() ==> !changes_system(#[trigger] exec_trace(s, events)[i]),
    decreases events.len(),
{
    if events.len() > 0 {
        let t = exec_step_spec(s, events[0]).0;
        lemma_done_changes_nothing(t, events.drop_first());
        lemma_trace_step(s, events);
        assert forall|i: int| 0 <= i < events.len() implies !changes_system(
            #[trigger] exec_trace(s, events)[i],
        ) by {
            if i > 0 {
                assert(exec_trace(s, events)[i] == exec_trace(t, events.drop_first())[i - 1]);
            }
        }
    }
}

/// When the selected items cannot be confirmed again, or the transaction
/// built again just before execution differs from the confirmed one, the
/// run stops with exit code 1 and no removal of any kind follows, whatever
/// is reported afterwards.
pub proof fn changed_plan_runs_nothing(s: ExecState, events: Seq<ExecEvent>)
    requires
        events.len() >= 1,
        stops_before_removal(s, events[0]),
    ensures
        exec_trace(s, events)[0] is Abort,
        forall|i: int| 0 <= i < events.len() ==> !changes_system(#[trigger] exec_trace(s, events)[i]),
{
    let t = exec_step_spec(s, events[0]).0;
    lemma_done_changes_nothing(t, events.drop_first());
    lemma_trace_step(s, events);
    assert forall|i: int| 0 <= i < events.len() implies !changes_system(
        #[trigger] exec_trace(s, events)[i],
    ) by {
        if i > 0 {
            assert(exec_trace(s, events)[i] == exec_trace(t, events.drop_first())[i - 1]);
        }
    }
}

/// Once a removal has failed, selected data is never removed afterwards:
/// a failing removal batch marks the run as failed, a run never stops
/// being failed, and data is removed only by a run that has not failed.
pub proof fn data_only_after_successful_removals(s: ExecState, e: ExecEvent, events: Seq<ExecEvent>)
    ensures
        s.phase == ExecPhase::Removing && s.batches_left > 0 && e == ExecEvent::BatchDone(false)
            ==> exec_step_spec(s, e).0.failed,
        s.failed ==> exec_step_spec(s, e).0.failed,
        exec_step_spec(s, e).1 is RemoveData ==> !s.failed && !exec_step_spec(s, e).0.failed,
        s.failed ==> forall|i: int|
            0 <= i < events.len() ==> !(#[trigger] exec_trace(s, events)[i] is RemoveData),
    decreases events.len(),
{
    if s.failed && events.len() > 0 {
        let t = exec_step_spec(s, events[0]).0;
        data_only_after_successful_removals(t, events[0], events.drop_first());
        lemma_trace_step(s, events);
        assert forall|i: int| 0 <= i < events.len() implies !(#[trigger] exec_trace(
            s,
            events,
        )[i] is RemoveData) by {
            if i > 0 {
                assert(exec_trace(s, events)[i] == exec_trace(t, events.drop_first())[i - 1]);
            }
        }
    }
}

/// Whether an event is itself a failure in the current phase: a step that
/// failed, an item still installed, a stop before removal, or an event out
/// of turn.
pub open spec fn step_fails(s: ExecState, e: ExecEvent) -> bool {
    match e {
        ExecEvent::Revalidated(outcome) => s.phase != ExecPhase::Revalidating || outcome is Err,
        ExecEvent::Replanned(f) => s.phase != ExecPhase::Replanning || f@ != s.fingerprint@,
        ExecEvent::Prepared(outcome) => s.phase != ExecPhase::Preparing || outcome is Err,
        ExecEvent::BatchDone(ok) => !(s.phase == ExecPhase::Removing && s.batches_left > 0) || !ok,
        ExecEvent::DataDone(ok) => s.phase != ExecPhase::RemovingData || !ok,
        ExecEvent::StillPresent(p) => !(s.phase == ExecPhase::Checking && s.checks_left > 0) || p
            == Some(true),
    }
}

/// The run is failed exactly when it was already, or the event is itself
/// a failure; and a finished run exits with 1 exactly when it failed, 0
/// otherwise.
pub proof fn exit_code_reports_failures(s: ExecState, e: ExecEvent)
    ensures
        exec_step_spec(s, e).0.failed == (s.failed || step_fails(s, e)),
        exec_step_spec(s, e).1 matches ExecAction::Finish(code) ==> code == exit_code_spec(
            exec_step_spec(s, e).0.failed,
        ),
{
}

// ---------------------------------------------------------------------------
// The interactive session
// ---------------------------------------------------------------------------

/// Where the interactive session stands once the items are selected.
#[derive(Debug, Clone, Copy, PartialEq, Eq, Structural)]
pub enum SessionPhase {
    Planning,
    ChoosingData,
    Replanning,
    Showing,
    Asking,
    Done,
}

/// The session: the impact and fingerprint of the plan on show, and
/// whether selected data lies outside the home directory.
pub struct SessionState {
    pub phase: SessionPhase,
    pub impact: Impact,
    pub fingerprint: String,
    pub outside: bool,
}

/// What the caller reports back.
pub enum SessionEvent {
    /// The first plan (already shown): its impact and fingerprint.
    Planned(Impact, String),
    /// The data choice: whether a manager cleanup was chosen, and whether a
    /// chosen path lies outside the home directory.
    DataChosen { cleanup: bool, outside: bool },
    /// The plan built again with the chosen cleanup.
    Replanned(Impact, String),
    /// The changed plan was shown.
    Shown,
    /// The answer typed at the confirmation prompt.
    Answered(String),
}

/// What the caller is to do next.
pub enum SessionAction {
    ChooseData,
    Replan,
    ShowPlan,
    /// Prompt for confirmation: the phrase that `confirmation` gives for
    /// the plan, or a yes.
    Ask,
    Execute,
    Cancel,
    Exit(i32),
}

pub open spec fn session_at(s: SessionState, phase: SessionPhase) -> SessionState {
    SessionState { phase, impact: s.impact, fingerprint: s.fingerprint, outside: s.outside }
}

/// Whether an answer confirms the plan: the typed phrase that the plan asks
/// for, or a yes when it asks for none.
pub open spec fn confirms(answer: Seq<char>, impact: Impact, selected: Seq<Match>, outside: bool) -> bool {
    match confirmation_spec(impact, selected, outside) {
        Some((expected, _)) => answer == expected,
        None => affirmative_spec(answer),
    }
}

/// One step of the interactive session.
pub open spec fn session_step_spec(s: SessionState, e: SessionEvent, selected: Seq<Match>) -> (
    SessionState,
    SessionAction,
) {
    let out_of_turn = (session_at(s, SessionPhase::Done), SessionAction::Exit(1));
    match e {
        SessionEvent::Planned(impact, fingerprint) => if s.phase == SessionPhase::Planning {
            let blocked = impact == Impact::Blocked;
            (
                SessionState {
                    phase: if blocked {
                        SessionPhase::Done
                    } else {
                        SessionPhase::ChoosingData
                    },
                    impact,
                    fingerprint,
                    outside: s.outside,
                },
                if blocked {
                    SessionAction::Exit(1)
                } else {
                    SessionAction::ChooseData
                },
            )
        } else {
            out_of_turn
        },
        SessionEvent::DataChosen { cleanup, outside } => if s.phase == SessionPhase::ChoosingData {
            let t = SessionState {
                phase: if cleanup {
                    SessionPhase::Replanning
                } else {
                    SessionPhase::Asking
                },
                impact: s.impact,
                fingerprint: s.fingerprint,
                outside,
            };
            (t, if cleanup {
                SessionAction::Replan
            } else {
                SessionAction::Ask
            })
        } else {
            out_of_turn
        },
        SessionEvent::Replanned(impact, fingerprint) => if s.phase == SessionPhase::Replanning {
            if fingerprint@ != s.fingerprint@ {
                (
                    SessionState { phase: SessionPhase::Showing, impact, fingerprint, outside: s.outside },
                    SessionAction::ShowPlan,
                )
            } else {
                (session_at(s, SessionPhase::Asking), SessionAction::Ask)
            }
        } else {
            out_of_turn
        },
        SessionEvent::Shown => if s.phase == SessionPhase::Showing {
            if s.impact == Impact::Blocked {
                (session_at(s, SessionPhase::Done), SessionAction::Exit(1))
            } else {
                (session_at(s, SessionPhase::Asking), SessionAction::Ask)
            }
        } else {
            out_of_turn
        },
        SessionEvent::Answered(answer) => if s.phase == SessionPhase::Asking {
            (
                session_at(s, SessionPhase::Done),
                if confirms(answer@, s.impact, selected, s.outside) {
                    SessionAction::Execute
                } else {
                    SessionAction::Cancel
                },
            )
        } else {
            out_of_turn
        },
    }
}

/// The session before its first plan.
pub fn session_start() -> (r: SessionState)
    ensures
        r.phase == SessionPhase::Planning,
        r.impact == Impact::Unknown,
        r.fingerprint@ == Seq::<char>::empty(),
        !r.outside,
{
    SessionState {
        phase: SessionPhase::Planning,
        impact: Impact::Unknown,
        fingerprint: String::new(),
        outside: false,
    }
}

fn session_with(s: SessionState, phase: SessionPhase) -> (r: SessionState)
    ensures
        r == session_at(s, phase),
{
    SessionState { phase, impact: s.impact, fingerprint: s.fingerprint, outside: s.outside }
}

/// One step of the interactive session: the next state and the action to
/// perform. `selected` are the selected items.
pub fn session_step(state: SessionState, event: SessionEvent, selected: &Vec<Match>) -> (r: (
    SessionState,
    SessionAction,
))
    ensures
        r == session_step_spec(state, event, selected@),
{
    let s = state;
    match event {
        SessionEvent::Planned(impact, fingerprint) => {
            if s.phase == SessionPhase::Planning {
                let blocked = impact == Impact::Blocked;
                let t = SessionState {
                    phase: if blocked {
                        SessionPhase::Done
                    } else {
                        SessionPhase::ChoosingData
                    },
                    impact,
                    fingerprint,
                    outside: s.outside,
                };
                (t, if blocked {
                    SessionAction::Exit(1)
                } else {
                    SessionAction::ChooseData
                })
            } else {
                (session_with(s, SessionPhase::Done), SessionAction::Exit(1))
            }
        },
        SessionEvent::DataChosen { cleanup, outside } => {
            if s.phase == SessionPhase::ChoosingData {
                let t = SessionState {
                    phase: if cleanup {
                        SessionPhase::Replanning
                    } else {
                        SessionPhase::Asking
                    },
                    impact: s.impact,
                    fingerprint: s.fingerprint,
                    outside,
                };
                (t, if cleanup {
                    SessionAction::Replan
                } else {
                    SessionAction::Ask
                })
            } else {
                (session_with(s, SessionPhase::Done), SessionAction::Exit(1))
            }
        },
        SessionEvent::Replanned(impact, fingerprint) => {
            if s.phase == SessionPhase::Replanning {
                if !str_eq(fingerprint.as_str(), s.fingerprint.as_str()) {
                    (
                        SessionState {
                            phase: SessionPhase::Showing,
                            impact,
                            fingerprint,
                            outside: s.outside,
                        },
                        SessionAction::ShowPlan,
                    )
                } else {
                    (session_with(s, SessionPhase::Asking), SessionAction::Ask)
                }
            } else {
                (session_with(s, SessionPhase::Done), SessionAction::Exit(1))
            }
        },
        SessionEvent::Shown => {
            if s.phase == SessionPhase::Showing {
                if s.impact == Impact::Blocked {
                    (session_with(s, SessionPhase::Done), SessionAction::Exit(1))
                } else {
                    (session_with(s, SessionPhase::Asking), SessionAction::Ask)
                }
            } else {
                (session_with(s, SessionPhase::Done), SessionAction::Exit(1))
            }
        },
        SessionEvent::Answered(answer) => {
            if s.phase == SessionPhase::Asking {
                let ok = match confirmation(s.impact, selected, s.outside) {
                    Some((expected, _)) => str_eq(answer.as_str(), expected.as_str()),
                    None => affirmative(answer.as_str()),
                };
                (session_with(s, SessionPhase::Done), if ok {
                    SessionAction::Execute
                } else {
                    SessionAction::Cancel
                })
            } else {
                (session_with(s, SessionPhase::Done), SessionAction::Exit(1))
            }
        },
    }
}

/// What every reachable session state keeps: past the first plan, and
/// until a changed plan is shown, the plan on hand is not blocked; in
/// particular a blocked plan is never awaiting confirmation.
pub open spec fn session_valid(s: SessionState) -> bool {
    (s.phase == SessionPhase::ChoosingData || s.phase == SessionPhase::Replanning || s.phase
        == SessionPhase::Asking) ==> s.impact != Impact::Blocked
}

/// A blocked plan ends the session with exit code 1, whether it is the
/// first plan or the plan shown again after the cleanup choice; every
/// step keeps a blocked plan from the confirmation prompt, so `Execute`
/// never follows a blocked plan.
pub proof fn blocked_plan_never_executes(s: SessionState, e: SessionEvent, selected: Seq<Match>)
    requires
        session_valid(s),
    ensures
        session_valid(session_step_spec(s, e, selected).0),
        session_step_spec(s, e, selected).1 is Execute ==> s.phase == SessionPhase::Asking
            && s.impact != Impact::Blocked,
        (s.phase == SessionPhase::Planning && (e matches SessionEvent::Planned(impact, _) && impact
            == Impact::Blocked)) ==> session_step_spec(s, e, selected).1 == SessionAction::Exit(1),
        s.phase == SessionPhase::Showing && s.impact == Impact::Blocked && e is Shown
            ==> session_step_spec(s, e, selected).1 == SessionAction::Exit(1),
{
}

/// The removal is carried out only after an answer to the confirmation
/// prompt: exactly the phrase that `confirmation` asks for on an unknown or
/// high-impact plan (or data outside the home directory), and otherwise,
/// on a low- or caution-impact plan, a yes.
pub proof fn execute_needs_confirmation(s: SessionState, e: SessionEvent, selected: Seq<Match>)
    requires
        session_valid(s),
    ensures
        session_step_spec(s, e, selected).1 is Execute ==> (e matches SessionEvent::Answered(answer)
            && match confirmation_spec(s.impact, selected, s.outside) {
            Some((expected, _)) => answer@ == expected,
            None => affirmative_spec(answer@) && (s.impact == Impact::Low || s.impact
                == Impact::Caution) && !s.outside,
        }),
{
}

/// Pressing Enter at the confirmation prompt cancels.
pub proof fn empty_answer_cancels(s: SessionState, answer: String, selected: Seq<Match>)
    requires
        s.phase == SessionPhase::Asking,
        answer@.len() == 0,
    ensures
        session_step_spec(s, SessionEvent::Answered(answer), selected).1 == SessionAction::Cancel,
{
    assert(!affirmative_spec(answer@)) by {
        crate::session::lemma_empty_not_affirmative(answer@);
    }
    match confirmation_spec(s.impact, selected, s.outside) {
        Some((expected, _)) => {
            assert(expected.len() > 0) by {
                reveal_strlit("REMOVE ");
                reveal_strlit("REMOVE ALL");
            }
        },
        None => {},
    }
}

/// When the cleanup choice changes the transaction, the changed plan is
/// shown again before anything else.
pub proof fn changed_plan_is_shown_again(
    s: SessionState,
    impact: Impact,
    fingerprint: String,
    selected: Seq<Match>,
)
    requires
        s.phase == SessionPhase::Replanning,
        fingerprint@ != s.fingerprint@,
    ensures
        session_step_spec(s, SessionEvent::Replanned(impact, fingerprint), selected) == (
            SessionState { phase: SessionPhase::Showing, impact, fingerprint, outside: s.outside },
            SessionAction::ShowPlan,
        ),
{
}

} // verus!
