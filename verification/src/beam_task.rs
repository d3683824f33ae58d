//! The life of one beam in a run: it waits for what it needs, takes a slot,
//! is compared with what is remembered of it, and is replayed or run.
//!
//! Each step takes what happened and says what to do next. Whatever goes
//! wrong once a beam has started is that beam's failure, never the run's.

use vstd::prelude::*;
use crate::cache::Assessment;
use crate::event::{BeamStatus, OutputLine, RunEvent, Stream};
use crate::model::BeamId;
use crate::store::Manifest;


verus! {

/// The exit code of a command that could not be run at all.
pub const NO_EXIT_CODE: i32 = -1;

/// What a finished beam tells what depends on it: how it ended, and what it
/// contributes to their fingerprints, if anything stable.
#[derive(Debug, PartialEq)]
pub struct BeamOutcome {
    pub status: BeamStatus,
    pub contribution: Option<String>,
}

/// What a beam's life depends on besides what happens.
#[derive(Debug, PartialEq)]
pub struct BeamTask {
    pub allow_failure: bool,
    pub keep_going: bool,
    /// How many commands it runs, or why its templates do not render.
    pub commands: Result<usize, String>,
    /// What it contributes where it is not remembered; nothing where it does
    /// not render.
    pub static_contribution: Option<String>,
}

/// Where a beam is in its life.
#[derive(Debug, PartialEq)]
pub enum Phase {
    /// For what it needs.
    Waiting,
    /// For a slot.
    Queued,
    /// In a slot, being compared with what is remembered.
    Assessing,
    /// In a slot, running the command at this place. `remember` is the
    /// fingerprint to remember a success under.
    Running { command: usize, remember: Option<String>, contribution: Option<String> },
    Done,
}

/// Something that happened.
#[derive(Debug, PartialEq)]
pub enum Happening {
    /// Everything it needs has ended, well enough or not.
    NeedsEnded { satisfied: bool },
    /// A slot came free, or the run stopped first.
    Slot { granted: bool },
    /// It was compared with what is remembered.
    Assessed { assessment: Option<Assessment>, notice: Option<String> },
    /// The running command exited, or could not be run.
    Exited(Result<i32, String>),
}

/// Something to do.
#[derive(Debug, PartialEq)]
pub enum Effect {
    AcquireSlot,
    Assess,
    ReleaseSlot,
    /// Announce that the beam starts.
    Started,
    /// Show a line on the beam's error stream.
    Line(String),
    /// Announce that it need not run, then replay its output.
    Replay,
    /// Run the command at this place.
    Run(usize),
    /// Remember the success under this fingerprint.
    Remember(String),
    /// No beam may start from now on.
    StopRun,
    /// Announce how it ended.
    Finished(BeamStatus),
    /// Release what depends on it.
    Publish(BeamOutcome),
}

/// What ends a beam's life, in order: a plain success is remembered, an
/// outright failure stops the run, the end is announced, dependents are
/// released.
pub open spec fn ending(
    task: BeamTask,
    status: BeamStatus,
    remember: Option<String>,
    contribution: Option<String>,
) -> Seq<Effect> {
    (if status is Succeeded && remember is Some {
        seq![Effect::Remember(remember->Some_0)]
    } else {
        Seq::empty()
    }) + (if status is Failed && !task.keep_going {
        seq![Effect::StopRun]
    } else {
        Seq::empty()
    }) + seq![
        Effect::Finished(status),
        Effect::Publish(BeamOutcome { status, contribution }),
    ]
}

/// How a failure with this exit code is recorded.
pub open spec fn failure(task: BeamTask, exit_code: i32) -> BeamStatus {
    if task.allow_failure {
        BeamStatus::FailedAllowed { exit_code }
    } else {
        BeamStatus::Failed { exit_code }
    }
}

pub open spec fn cancelled_life(task: BeamTask) -> (Phase, Seq<Effect>) {
    (Phase::Done, ending(task, BeamStatus::Cancelled, None, None))
}

/// What a beam that has to run does first.
pub open spec fn started(
    task: BeamTask,
    remember: Option<String>,
    contribution: Option<String>,
    notice: Option<String>,
) -> (Phase, Seq<Effect>) {
    let first = seq![Effect::Started] + (match notice {
        Some(text) => seq![Effect::Line(text)],
        None => Seq::empty(),
    });
    match task.commands {
        Err(error) => (
            Phase::Done,
            first + seq![Effect::Line(error)] + ending(
                task,
                failure(task, NO_EXIT_CODE),
                remember,
                contribution,
            ),
        ),
        Ok(n) => if n == 0 {
            (Phase::Done, first + ending(task, BeamStatus::Succeeded, remember, contribution))
        } else {
            (
                Phase::Running { command: 0, remember, contribution },
                first + seq![Effect::Run(0)],
            )
        },
    }
}

/// One step of a beam's life. `stopping` says that no beam may start from
/// now on, `cancelled` that running commands are being stopped. What does not
/// belong to the phase changes nothing.
pub open spec fn stepped(
    task: BeamTask,
    phase: Phase,
    what: Happening,
    stopping: bool,
    cancelled: bool,
) -> (Phase, Seq<Effect>) {
    match (phase, what) {
        (Phase::Waiting, Happening::NeedsEnded { satisfied }) => if !satisfied || stopping {
            cancelled_life(task)
        } else {
            (Phase::Queued, seq![Effect::AcquireSlot])
        },
        (Phase::Queued, Happening::Slot { granted }) => if granted {
            (Phase::Assessing, seq![Effect::Assess])
        } else {
            cancelled_life(task)
        },
        (Phase::Assessing, Happening::Assessed { assessment, notice }) => if stopping {
            cancelled_life(task)
        } else {
            match assessment {
                Some(a) => if a.hit is Some {
                    (
                        Phase::Done,
                        seq![Effect::ReleaseSlot, Effect::Replay] + ending(
                            task,
                            BeamStatus::Cached,
                            None,
                            Some(a.fingerprint),
                        ),
                    )
                } else {
                    started(task, Some(a.fingerprint), Some(a.fingerprint), notice)
                },
                None => started(task, None, task.static_contribution, notice),
            }
        },
        (
            Phase::Running { command, remember, contribution },
            Happening::Exited(result),
        ) => match result {
            Ok(code) => if code == 0 {
                if task.commands is Ok && command + 1 < task.commands->Ok_0 {
                    (
                        Phase::Running { command: (command + 1) as usize, remember, contribution },
                        seq![Effect::Run((command + 1) as usize)],
                    )
                } else {
                    (
                        Phase::Done,
                        ending(task, BeamStatus::Succeeded, remember, contribution),
                    )
                }
            } else {
                (
                    Phase::Done,
                    ending(
                        task,
                        if cancelled {
                            BeamStatus::Cancelled
                        } else {
                            failure(task, code)
                        },
                        remember,
                        contribution,
                    ),
                )
            },
            Err(error) => (
                Phase::Done,
                seq![Effect::Line(error)] + ending(
                    task,
                    if cancelled {
                        BeamStatus::Cancelled
                    } else {
                        failure(task, NO_EXIT_CODE)
                    },
                    remember,
                    contribution,
                ),
            ),
        },
        (other, _) => (other, Seq::empty()),
    }
}

fn copy_text(o: &Option<String>) -> (r: Option<String>)
    ensures
        r == *o,
{
    match o {
        Some(s) => Some(s.clone()),
        None => None,
    }
}

/// How a failure with this exit code is recorded.
pub fn failure_status(task: &BeamTask, exit_code: i32) -> (r: BeamStatus)
    ensures
        r == failure(*task, exit_code),
{
    if task.allow_failure {
        BeamStatus::FailedAllowed { exit_code }
    } else {
        BeamStatus::Failed { exit_code }
    }
}

fn end(
    task: &BeamTask,
    effects: &mut Vec<Effect>,
    status: BeamStatus,
    remember: Option<String>,
    contribution: Option<String>,
)
    ensures
        final(effects)@ == old(effects)@ + ending(*task, status, remember, contribution),
{
    let ghost start = effects@;
    match (status, remember) {
        (BeamStatus::Succeeded, Some(fingerprint)) => {
            effects.push(Effect::Remember(fingerprint));
        },
        _ => {},
    }
    if let BeamStatus::Failed { .. } = status {
        if !task.keep_going {
            effects.push(Effect::StopRun);
        }
    }
    effects.push(Effect::Finished(status));
    effects.push(Effect::Publish(BeamOutcome { status, contribution }));
    assert(effects@ =~= start + ending(*task, status, remember, contribution));
}

fn cancel(task: &BeamTask) -> (r: (Phase, Vec<Effect>))
    ensures
        (r.0, r.1@) == cancelled_life(*task),
{
    let mut effects: Vec<Effect> = Vec::new();
    end(task, &mut effects, BeamStatus::Cancelled, None, None);
    assert(effects@ =~= ending(*task, BeamStatus::Cancelled, None, None));
    (Phase::Done, effects)
}

fn start(
    task: &BeamTask,
    remember: Option<String>,
    contribution: Option<String>,
    notice: Option<String>,
) -> (r: (Phase, Vec<Effect>))
    ensures
        (r.0, r.1@) == started(*task, remember, contribution, notice),
{
    let mut effects: Vec<Effect> = Vec::new();
    effects.push(Effect::Started);
    if let Some(text) = notice {
        effects.push(Effect::Line(text));
    }
    let ghost first = effects@;
    assert(first =~= seq![Effect::Started] + (match notice {
        Some(text) => seq![Effect::Line(text)],
        None => Seq::empty(),
    }));
    match &task.commands {
        Err(error) => {
            effects.push(Effect::Line(error.clone()));
            assert(effects@ =~= first + seq![Effect::Line(*error)]);
            end(
                task,
                &mut effects,
                failure_status(task, NO_EXIT_CODE),
                remember,
                contribution,
            );
            (Phase::Done, effects)
        },
        Ok(n) => if *n == 0 {
            end(task, &mut effects, BeamStatus::Succeeded, remember, contribution);
            (Phase::Done, effects)
        } else {
            effects.push(Effect::Run(0));
            assert(effects@ =~= first + seq![Effect::Run(0)]);
            (Phase::Running { command: 0, remember, contribution }, effects)
        },
    }
}

fn failed(
    task: &BeamTask,
    effects: Vec<Effect>,
    exit_code: i32,
    cancelled: bool,
    remember: Option<String>,
    contribution: Option<String>,
) -> (r: (Phase, Vec<Effect>))
    ensures
        (r.0, r.1@) == (
            Phase::Done,
            effects@ + ending(
                *task,
                if cancelled {
                    BeamStatus::Cancelled
                } else {
                    failure(*task, exit_code)
                },
                remember,
                contribution,
            ),
        ),
{
    let mut effects = effects;
    let status = if cancelled {
        BeamStatus::Cancelled
    } else {
        failure_status(task, exit_code)
    };
    end(task, &mut effects, status, remember, contribution);
    (Phase::Done, effects)
}

/// One step of a beam's life: where it is after what happened, and what to
/// do, in order.
pub fn step(task: &BeamTask, phase: Phase, what: Happening, stopping: bool, cancelled: bool) -> (r: (
    Phase,
    Vec<Effect>,
))
    ensures
        (r.0, r.1@) == stepped(*task, phase, what, stopping, cancelled),
{
    let mut effects: Vec<Effect> = Vec::new();
    match (phase, what) {
        (Phase::Waiting, Happening::NeedsEnded { satisfied }) => {
            if !satisfied || stopping {
                return cancel(task);
            }
            effects.push(Effect::AcquireSlot);
            assert(effects@ =~= seq![Effect::AcquireSlot]);
            (Phase::Queued, effects)
        },
        (Phase::Queued, Happening::Slot { granted }) => {
            if !granted {
                return cancel(task);
            }
            effects.push(Effect::Assess);
            assert(effects@ =~= seq![Effect::Assess]);
            (Phase::Assessing, effects)
        },
        (Phase::Assessing, Happening::Assessed { assessment, notice }) => {
            if stopping {
                return cancel(task);
            }
            match assessment {
                Some(a) => {
                    let Assessment { fingerprint, hit } = a;
                    if hit.is_some() {
                        effects.push(Effect::ReleaseSlot);
                        effects.push(Effect::Replay);
                        assert(effects@ =~= seq![Effect::ReleaseSlot, Effect::Replay]);
                        end(task, &mut effects, BeamStatus::Cached, None, Some(fingerprint));
                        (Phase::Done, effects)
                    } else {
                        start(task, Some(fingerprint.clone()), Some(fingerprint), notice)
                    }
                },
                None => start(task, None, copy_text(&task.static_contribution), notice),
            }
        },
        (
            Phase::Running { command, remember, contribution },
            Happening::Exited(result),
        ) => match result {
            Ok(code) => if code == 0 {
                let more = match &task.commands {
                    Ok(n) => command < *n && command + 1 < *n,
                    Err(_) => false,
                };
                if more {
                    effects.push(Effect::Run(command + 1));
                    assert(effects@ =~= seq![Effect::Run((command + 1) as usize)]);
                    (Phase::Running { command: command + 1, remember, contribution }, effects)
                } else {
                    end(task, &mut effects, BeamStatus::Succeeded, remember, contribution);
                    assert(effects@ =~= ending(
                        *task,
                        BeamStatus::Succeeded,
                        remember,
                        contribution,
                    ));
                    (Phase::Done, effects)
                }
            } else {
                let r = failed(task, effects, code, cancelled, remember, contribution);
                assert(r.1@ =~= stepped(*task, phase, what, stopping, cancelled).1);
                r
            },
            Err(error) => {
                effects.push(Effect::Line(error));
                assert(effects@ =~= seq![Effect::Line(error)]);
                failed(task, effects, NO_EXIT_CODE, cancelled, remember, contribution)
            },
        },
        (other, _) => {
            assert(effects@ =~= Seq::<Effect>::empty());
            (other, effects)
        },
    }
}

/// Whether everything a beam needs ended well enough for it to run, and what
/// each contributes, in order. The first that did not decides.
pub fn gather_contributions(outcomes: &Vec<BeamOutcome>) -> (r: Option<Vec<Option<String>>>)
    ensures
        r is Some <==> forall|i: int|
            0 <= i < outcomes@.len() ==> (#[trigger] outcomes@[i]).status.satisfies(),
        r matches Some(c) ==> c@.len() == outcomes@.len() && forall|i: int|
            0 <= i < c@.len() ==> #[trigger] c@[i] == outcomes@[i].contribution,
{
    let mut out: Vec<Option<String>> = Vec::new();
    let mut i: usize = 0;
    while i < outcomes.len()
        invariant
            i <= outcomes@.len(),
            out@.len() == i,
            forall|k: int| 0 <= k < i ==> (#[trigger] outcomes@[k]).status.satisfies(),
            forall|k: int| 0 <= k < i ==> #[trigger] out@[k] == outcomes@[k].contribution,
        decreases outcomes.len() - i,
    {
        if !outcomes[i].status.is_satisfied() {
            return None;
        }
        out.push(copy_text(&outcomes[i].contribution));
        i += 1;
    }
    Some(out)
}

/// What is announced of a beam for something that it does.
pub open spec fn announced(id: BeamId, effect: Effect, duration_ms: u64) -> Option<RunEvent> {
    match effect {
        Effect::Started => Some(RunEvent::BeamStarted { id }),
        Effect::Line(text) => Some(
            RunEvent::BeamOutput {
                id,
                line: OutputLine { stream: Stream::Stderr, text },
                replayed: false,
            },
        ),
        Effect::Replay => Some(RunEvent::BeamCached { id }),
        Effect::Finished(status) => Some(RunEvent::BeamFinished { id, status, duration_ms }),
        _ => None,
    }
}

/// The event for something that a beam does, where there is one. A line that
/// the beam did not write itself goes to its error stream.
pub fn announce(id: &BeamId, effect: &Effect, duration_ms: u64) -> (r: Option<RunEvent>)
    ensures
        r == announced(*id, *effect, duration_ms),
{
    match effect {
        Effect::Started => Some(RunEvent::BeamStarted { id: id.clone() }),
        Effect::Line(text) => Some(
            RunEvent::BeamOutput {
                id: id.clone(),
                line: OutputLine { stream: Stream::Stderr, text: text.clone() },
                replayed: false,
            },
        ),
        Effect::Replay => Some(RunEvent::BeamCached { id: id.clone() }),
        Effect::Finished(status) => Some(
            RunEvent::BeamFinished { id: id.clone(), status: *status, duration_ms },
        ),
        _ => None,
    }
}

/// The events for lines of a beam's output, in order.
pub fn output_events(id: &BeamId, lines: &Vec<OutputLine>, replayed: bool) -> (r: Vec<RunEvent>)
    ensures
        r@ == Seq::new(
            lines@.len(),
            |i: int| RunEvent::BeamOutput { id: *id, line: lines@[i], replayed },
        ),
{
    let mut out: Vec<RunEvent> = Vec::new();
    let mut i: usize = 0;
    while i < lines.len()
        invariant
            i <= lines@.len(),
            out@.len() == i,
            forall|k: int|
                0 <= k < i ==> #[trigger] out@[k] == (RunEvent::BeamOutput {
                    id: *id,
                    line: lines@[k],
                    replayed,
                }),
        decreases lines.len() - i,
    {
        out.push(RunEvent::BeamOutput { id: id.clone(), line: lines[i].clone(), replayed });
        i += 1;
    }
    assert(out@ =~= Seq::new(
        lines@.len(),
        |i: int| RunEvent::BeamOutput { id: *id, line: lines@[i], replayed },
    ));
    out
}

/// How long a beam is said to have taken that ends with `status`: what is
/// remembered of it where it need not run, nothing where it did not start.
/// What was found of a beam that is then cancelled says nothing of it.
pub fn reported_duration(
    status: BeamStatus,
    hit: &Option<Manifest>,
    elapsed_ms: Option<u64>,
) -> (r: u64)
    ensures
        r == match (status, *hit, elapsed_ms) {
            (BeamStatus::Cached, Some(manifest), _) => manifest.duration_ms,
            (BeamStatus::Cached, None, _) => 0,
            (_, _, Some(elapsed)) => elapsed,
            (_, _, None) => 0,
        },
{
    match status {
        BeamStatus::Cached => match hit {
            Some(manifest) => manifest.duration_ms,
            None => 0,
        },
        _ => match elapsed_ms {
            Some(elapsed) => elapsed,
            None => 0,
        },
    }
}

} // verus!
