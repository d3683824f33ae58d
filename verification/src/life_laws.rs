//! How a beam lives, step by step: when it starts, what it runs, how it ends
//! and what that means for the others.

use vstd::prelude::*;
use crate::beam_task::{
    announce, output_events, reported_duration, step, BeamOutcome, BeamTask, Effect, Happening,
    Phase,
};
use crate::cache::Assessment;
use crate::event::{BeamStatus, OutputLine, RunEvent};
use crate::model::{BeamId, Project, ProjectView};
use crate::schedule::{
    need_lists, needs_in_run, needs_met, needs_verdict, place_in_run, run_needs, Run,
};
use crate::store::Manifest;

verus! {

/// Nothing among `effects` starts the beam or runs a command.
pub open spec fn leaves_the_machine_alone(effects: Seq<Effect>) -> bool {
    forall|i: int|
        0 <= i < effects.len() ==> !(#[trigger] effects[i] is Started) && !(effects[i] is Run)
}

/// The beam ends with `status` and contributes `contribution`: both are told,
/// once and last.
pub open spec fn ends_as(
    effects: Seq<Effect>,
    status: BeamStatus,
    contribution: Option<String>,
) -> bool {
    &&& effects.len() >= 2
    &&& effects[effects.len() - 2] == Effect::Finished(status)
    &&& effects[effects.len() - 1] == Effect::Publish(BeamOutcome { status, contribution })
    &&& forall|i: int|
        0 <= i < effects.len() - 2 ==> !(#[trigger] effects[i] is Finished)
            && !(effects[i] is Publish)
}

/// The run is stopped for the others.
pub open spec fn stops_the_run(effects: Seq<Effect>) -> bool {
    exists|i: int| 0 <= i < effects.len() && #[trigger] effects[i] is StopRun
}

/// A success is remembered under this fingerprint.
pub open spec fn remembers(effects: Seq<Effect>, fingerprint: String) -> bool {
    exists|i: int| 0 <= i < effects.len() && #[trigger] effects[i] == Effect::Remember(fingerprint)
}

/// Nothing is remembered.
pub open spec fn remembers_nothing(effects: Seq<Effect>) -> bool {
    forall|i: int| 0 <= i < effects.len() ==> !(#[trigger] effects[i] is Remember)
}

/// A line is shown.
pub open spec fn shows(effects: Seq<Effect>, text: String) -> bool {
    exists|i: int| 0 <= i < effects.len() && #[trigger] effects[i] == Effect::Line(text)
}

/// How a failure counts: as allowed where failures are.
pub open spec fn fails_as(task: BeamTask, code: i32, cancelled: bool) -> BeamStatus {
    if cancelled {
        BeamStatus::Cancelled
    } else if task.allow_failure {
        BeamStatus::FailedAllowed { exit_code: code }
    } else {
        BeamStatus::Failed { exit_code: code }
    }
}

/// A beam that waits asks for a slot exactly where everything that it needs
/// ended well and the run is not stopping; else it is cancelled without a
/// trace on the machine.
pub proof fn a_beam_waits_for_its_needs(
    task: &BeamTask,
    satisfied: bool,
    stopping: bool,
    cancelled: bool,
    r: (Phase, Vec<Effect>),
)
    requires
        call_ensures(
            step,
            (task, Phase::Waiting, Happening::NeedsEnded { satisfied }, stopping, cancelled),
            r,
        ),
    ensures
        satisfied && !stopping ==> r.0 is Queued && r.1@ == seq![Effect::AcquireSlot],
        !satisfied || stopping ==> r.0 is Done && ends_as(r.1@, BeamStatus::Cancelled, None)
            && leaves_the_machine_alone(r.1@) && remembers_nothing(r.1@) && !stops_the_run(r.1@),
{
}

/// A beam with a slot is looked up; one that gets none is cancelled.
pub proof fn a_beam_with_a_slot_is_looked_up(
    task: &BeamTask,
    granted: bool,
    stopping: bool,
    cancelled: bool,
    r: (Phase, Vec<Effect>),
)
    requires
        call_ensures(
            step,
            (task, Phase::Queued, Happening::Slot { granted }, stopping, cancelled),
            r,
        ),
    ensures
        granted ==> r.0 is Assessing && r.1@ == seq![Effect::Assess],
        !granted ==> r.0 is Done && ends_as(r.1@, BeamStatus::Cancelled, None)
            && leaves_the_machine_alone(r.1@) && remembers_nothing(r.1@) && !stops_the_run(r.1@),
{
}

/// What was looked up decides: once the run is stopping nothing starts, not
/// even a hit is replayed; a hit is replayed and nothing is run; and anything
/// else starts with the first command, to be remembered under the fingerprint
/// that it was looked up by. What it contributes is that fingerprint, or what
/// it runs where it has none. A notice is shown, and so is why a beam does
/// not render, which is a failure.
pub proof fn what_is_looked_up_decides(
    task: &BeamTask,
    assessment: Option<Assessment>,
    notice: Option<String>,
    stopping: bool,
    cancelled: bool,
    r: (Phase, Vec<Effect>),
)
    requires
        call_ensures(
            step,
            (
                task,
                Phase::Assessing,
                Happening::Assessed { assessment, notice },
                stopping,
                cancelled,
            ),
            r,
        ),
    ensures
        stopping ==> r.0 is Done && ends_as(r.1@, BeamStatus::Cancelled, None)
            && leaves_the_machine_alone(r.1@) && remembers_nothing(r.1@),
        !stopping ==> match assessment {
            Some(a) if a.hit is Some => {
                &&& r.0 is Done
                &&& ends_as(r.1@, BeamStatus::Cached, Some(a.fingerprint))
                &&& leaves_the_machine_alone(r.1@)
                &&& remembers_nothing(r.1@)
                &&& r.1@[0] == Effect::ReleaseSlot
                &&& r.1@[1] == Effect::Replay
            },
            other => {
                let fingerprint = match other {
                    Some(a) => Some(a.fingerprint),
                    None => None,
                };
                let contribution = match other {
                    Some(a) => Some(a.fingerprint),
                    None => task.static_contribution,
                };
                &&& r.1@[0] == Effect::Started
                &&& notice matches Some(text) ==> r.1@[1] == Effect::Line(text)
                &&& match task.commands {
                    Ok(n) => if n == 0 {
                        &&& r.0 is Done
                        &&& ends_as(r.1@, BeamStatus::Succeeded, contribution)
                    } else {
                        &&& r.0 == (Phase::Running {
                            command: 0,
                            remember: fingerprint,
                            contribution,
                        })
                        &&& r.1@.last() == Effect::Run(0)
                        &&& remembers_nothing(r.1@)
                    },
                    Err(error) => {
                        &&& r.0 is Done
                        &&& shows(r.1@, error)
                        &&& ends_as(r.1@, fails_as(*task, (-1) as i32, false), contribution)
                        &&& remembers_nothing(r.1@)
                        &&& stops_the_run(r.1@) <==> !task.allow_failure && !task.keep_going
                    },
                }
            },
        },
{
    if let Err(error) = task.commands {
        if !stopping {
            let k = if notice is Some {
                2int
            } else {
                1int
            };
            if !(assessment matches Some(a) && a.hit is Some) {
                assert(r.1@[k] == Effect::Line(error));
                if !task.allow_failure && !task.keep_going {
                    assert(r.1@[k + 1] is StopRun);
                }
            }
        }
    }
}

/// A command that succeeds is followed by the next one, in order; after the
/// last the beam has succeeded, which is remembered where it was looked up.
pub proof fn commands_run_one_after_the_other(
    task: &BeamTask,
    n: usize,
    command: usize,
    remember: Option<String>,
    contribution: Option<String>,
    stopping: bool,
    cancelled: bool,
    r: (Phase, Vec<Effect>),
)
    requires
        call_ensures(
            step,
            (
                task,
                Phase::Running { command, remember, contribution },
                Happening::Exited(Ok(0i32)),
                stopping,
                cancelled,
            ),
            r,
        ),
        task.commands == Ok::<usize, String>(n),
        command < n,
    ensures
        command + 1 < n ==> r.0 == (Phase::Running {
            command: (command + 1) as usize,
            remember,
            contribution,
        }) && r.1@ == seq![Effect::Run((command + 1) as usize)],
        command + 1 == n ==> r.0 is Done && ends_as(r.1@, BeamStatus::Succeeded, contribution)
            && !stops_the_run(r.1@) && leaves_the_machine_alone(r.1@),
        command + 1 == n ==> (remember matches Some(fingerprint) ==> remembers(r.1@, fingerprint)),
        command + 1 == n && remember is None ==> remembers_nothing(r.1@),
{
    if command + 1 == n {
        if let Some(fingerprint) = remember {
            assert(r.1@[0] == Effect::Remember(fingerprint));
        }
    }
}

/// A command that fails ends the beam: cancelled where commands are being
/// stopped, as an allowed failure where failures are allowed, and else as a
/// failure, which stops the run unless it keeps going. The exit code is kept,
/// nothing is remembered and no further command runs.
pub proof fn a_failing_command_ends_the_beam(
    task: &BeamTask,
    command: usize,
    remember: Option<String>,
    contribution: Option<String>,
    result: Result<i32, String>,
    stopping: bool,
    cancelled: bool,
    r: (Phase, Vec<Effect>),
)
    requires
        call_ensures(
            step,
            (
                task,
                Phase::Running { command, remember, contribution },
                Happening::Exited(result),
                stopping,
                cancelled,
            ),
            r,
        ),
        result != Ok::<i32, String>(0i32),
    ensures
        ({
            let code = match result {
                Ok(code) => code,
                Err(_) => (-1) as i32,
            };
            let status = fails_as(*task, code, cancelled);
            &&& r.0 is Done
            &&& ends_as(r.1@, status, contribution)
            &&& remembers_nothing(r.1@)
            &&& leaves_the_machine_alone(r.1@)
            &&& stops_the_run(r.1@) <==> status is Failed && !task.keep_going
            &&& result matches Err(text) ==> shows(r.1@, text)
        }),
{
    let code = match result {
        Ok(code) => code,
        Err(_) => (-1) as i32,
    };
    let status = fails_as(*task, code, cancelled);
    if let Err(text) = result {
        assert(r.1@[0] == Effect::Line(text));
        if status is Failed && !task.keep_going {
            assert(r.1@[1] is StopRun);
        }
    } else if status is Failed && !task.keep_going {
        assert(r.1@[0] is StopRun);
    }
}

/// What depends on a beam may run where the beam succeeded, was replayed or
/// was allowed to fail, and not where it failed or was cancelled.
pub proof fn what_lets_dependents_run(status: BeamStatus)
    ensures
        status is Succeeded || status is Cached || status is FailedAllowed ==> status.satisfies(),
        status is Failed || status is Cancelled ==> !status.satisfies(),
{
}

/// What is known of a beam's needs: they let it run where all of them ended
/// well; they do not where one did not, all before it having ended well; and
/// as long as neither is known it waits.
pub proof fn needs_decide_in_order(needs: Seq<usize>, outcomes: Seq<Option<BeamOutcome>>)
    ensures
        needs_verdict(needs, outcomes) == Some(true) <==> needs_met(needs, outcomes),
        needs_verdict(needs, outcomes) == Some(false) <==> exists|j: int|
            0 <= j < needs.len() && needs_met(needs.take(j), outcomes) && (
            outcomes[#[trigger] needs[j] as int] matches Some(o) && !o.status.satisfies()),
    decreases needs.len(),
{
    if needs.len() > 0 {
        let rest = needs.drop_first();
        needs_decide_in_order(rest, outcomes);
        let first = outcomes[needs[0] as int];
        if needs_met(needs, outcomes) {
            assert(outcomes[needs[0] as int] matches Some(o) && o.status.satisfies());
            assert forall|j: int| 0 <= j < rest.len() implies (outcomes[#[trigger] rest[j] as int] matches Some(
                o,
            ) && o.status.satisfies()) by {
                assert(rest[j] == needs[j + 1]);
            }
        }
        if needs_verdict(needs, outcomes) == Some(true) {
            assert forall|j: int| 0 <= j < needs.len() implies (outcomes[
            #[trigger] needs[j] as int] matches Some(o) && o.status.satisfies()) by {
                if j > 0 {
                    assert(rest[j - 1] == needs[j]);
                }
            }
        }
        if needs_verdict(needs, outcomes) == Some(false) {
            if first matches Some(o) && o.status.satisfies() {
                let j = choose|j: int|
                    0 <= j < rest.len() && needs_met(rest.take(j), outcomes) && (outcomes[
                    #[trigger] rest[j] as int] matches Some(o) && !o.status.satisfies());
                let all = needs.take(j + 1);
                assert forall|i: int| 0 <= i < all.len() implies (outcomes[
                #[trigger] all[i] as int] matches Some(o) && o.status.satisfies()) by {
                    if i > 0 {
                        assert(rest.take(j)[i - 1] == all[i]);
                    }
                }
                assert(needs[j + 1] == rest[j]);
            } else {
                assert(needs_met(needs.take(0), outcomes));
                assert(needs[0] == needs[0]);
            }
        }
        if exists|j: int|
            0 <= j < needs.len() && needs_met(needs.take(j), outcomes) && (
            outcomes[#[trigger] needs[j] as int] matches Some(o) && !o.status.satisfies()) {
            let j = choose|j: int|
                0 <= j < needs.len() && needs_met(needs.take(j), outcomes) && (
                outcomes[#[trigger] needs[j] as int] matches Some(o) && !o.status.satisfies());
            if j > 0 {
                assert(needs.take(j)[0] == needs[0]);
                assert(outcomes[needs.take(j)[0] as int] matches Some(o) && o.status.satisfies());
                assert forall|i: int| 0 <= i < rest.take(j - 1).len() implies (outcomes[
                #[trigger] rest.take(j - 1)[i] as int] matches Some(o) && o.status.satisfies()) by {
                    assert(needs.take(j)[i + 1] == rest.take(j - 1)[i]);
                }
                assert(rest[j - 1] == needs[j]);
            }
        }
    }
}

/// What the schedule does next: a beam that waits learns how its needs ended,
/// and one that has asked for a slot gets one while one is free and the run
/// is not stopping, and is turned away once it is.
pub proof fn the_schedule_grants_free_slots(run: &Run, r: Option<(usize, Happening)>)
    requires
        run@.fits(),
        call_ensures(Run::next, (run,), r),
    ensures
        r matches Some((i, what)) ==> i < run@.phases.len() && match run@.phases[i as int] {
            Phase::Waiting => what matches Happening::NeedsEnded { satisfied } && (satisfied
                <==> needs_met(run@.needs[i as int], run@.outcomes)),
            Phase::Queued => what matches Happening::Slot { granted } && (granted
                <==> !run@.stopping) && (granted ==> run@.taken < run@.slots),
            _ => false,
        },
        r is None ==> forall|i: int|
            0 <= i < run@.phases.len() ==> !((#[trigger] run@.phases[i]) is Waiting && needs_met(
                run@.needs[i],
                run@.outcomes,
            )) && !(run@.phases[i] is Queued && (run@.stopping || run@.taken < run@.slots)),
{
    if let Some((i, what)) = r {
        needs_decide_in_order(run@.needs[i as int], run@.outcomes);
    } else {
        assert forall|i: int| 0 <= i < run@.phases.len() implies !((
        #[trigger] run@.phases[i]) is Waiting && needs_met(run@.needs[i], run@.outcomes)) && !(
        run@.phases[i] is Queued && (run@.stopping || run@.taken < run@.slots)) by {
            needs_decide_in_order(run@.needs[i], run@.outcomes);
            assert(run@.ready(i) is None);
        }
    }
}

/// What a beam of a run waits for: the beams that it needs, each by the place
/// at which it is in the run, in order.
pub proof fn a_beam_waits_for_the_beams_it_names(
    project: &Project,
    places: &Vec<usize>,
    r: Vec<Vec<usize>>,
    k: int,
)
    requires
        forall|i: int| 0 <= i < places@.len() ==> (#[trigger] places@[i]) < project@.beams.len(),
        call_ensures(run_needs, (project, places), r),
        0 <= k < places@.len(),
        places@.len() <= usize::MAX,
        forall|j: int|
            0 <= j < project@.beams[places@[k] as int].needs.len() ==> exists|i: int|
                0 <= i < places@.len() && project@.beams[#[trigger] places@[i] as int].id == (
                #[trigger] project@.beams[places@[k] as int].needs[j]).0,
    ensures
        r@.len() == places@.len(),
        r@[k]@.len() == project@.beams[places@[k] as int].needs.len(),
        forall|j: int|
            0 <= j < r@[k]@.len() ==> (#[trigger] r@[k]@[j]) < places@.len()
                && project@.beams[places@[r@[k]@[j] as int] as int].id
                == project@.beams[places@[k] as int].needs[j].0,
{
    let p = project@;
    let needs = p.beams[places@[k] as int].needs;
    assert(need_lists(r@)[k] == r@[k]@);
    needs_are_found(p, places@, needs, needs.len() as int);
}

proof fn found_in_run(p: ProjectView, places: Seq<usize>, name: Seq<char>)
    requires
        places.len() <= usize::MAX,
    ensures
        match place_in_run(p, places, name) {
            Some(k) => k < places.len() && p.beams[places[k as int] as int].id == name,
            None => forall|k: int|
                0 <= k < places.len() ==> p.beams[#[trigger] places[k] as int].id != name,
        },
    decreases places.len(),
{
    if places.len() > 0 {
        found_in_run(p, places.drop_last(), name);
        if place_in_run(p, places, name) is None {
            assert forall|k: int| 0 <= k < places.len() implies p.beams[
            #[trigger] places[k] as int].id != name by {
                if k < places.len() - 1 {
                    assert(places.drop_last()[k] == places[k]);
                }
            }
        }
    }
}

proof fn needs_are_found(
    p: ProjectView,
    places: Seq<usize>,
    needs: Seq<(Seq<char>, crate::syntax::Span)>,
    n: int,
)
    requires
        places.len() <= usize::MAX,
        0 <= n <= needs.len(),
        forall|j: int|
            0 <= j < needs.len() ==> exists|i: int|
                0 <= i < places.len() && p.beams[#[trigger] places[i] as int].id == (
                #[trigger] needs[j]).0,
    ensures
        needs_in_run(p, places, needs, n).len() == n,
        forall|j: int|
            0 <= j < n ==> (#[trigger] needs_in_run(p, places, needs, n)[j]) < places.len()
                && p.beams[places[needs_in_run(p, places, needs, n)[j] as int] as int].id
                == needs[j].0,
    decreases n,
{
    if n > 0 {
        needs_are_found(p, places, needs, n - 1);
        found_in_run(p, places, needs[n - 1].0);
        let i = choose|i: int|
            0 <= i < places.len() && p.beams[#[trigger] places[i] as int].id == needs[n - 1].0;
        assert(p.beams[places[i] as int].id == needs[n - 1].0);
    }
}

/// What is announced of a beam: that it starts, a line on its error stream,
/// that it is replayed, and how it ended and how long that took; everything
/// else is the schedule's own.
pub proof fn a_beam_s_doings_are_announced(
    id: &BeamId,
    effect: &Effect,
    duration_ms: u64,
    r: Option<RunEvent>,
)
    requires
        call_ensures(announce, (id, effect, duration_ms), r),
    ensures
        *effect is Started <==> (r matches Some(RunEvent::BeamStarted { .. })),
        *effect is Replay <==> (r matches Some(RunEvent::BeamCached { .. })),
        *effect matches Effect::Line(text) ==> (r matches Some(
            RunEvent::BeamOutput { id: i, line, replayed },
        ) && i == *id && line.text == text && line.stream is Stderr && !replayed),
        *effect matches Effect::Finished(status) ==> (r matches Some(
            RunEvent::BeamFinished { id: i, status: s, duration_ms: d },
        ) && i == *id && s == status && d == duration_ms),
        r matches Some(RunEvent::BeamStarted { id: i }) ==> i == *id,
        r matches Some(RunEvent::BeamCached { id: i }) ==> i == *id,
        r is Some <==> *effect is Started || *effect is Replay || *effect is Line
            || *effect is Finished,
{
}

/// Every line of output becomes an event of its beam, in order, as it is, and
/// is marked as replayed exactly where it is.
pub proof fn every_line_becomes_an_event(
    id: &BeamId,
    lines: &Vec<OutputLine>,
    replayed: bool,
    r: Vec<RunEvent>,
    k: int,
)
    requires
        call_ensures(output_events, (id, lines, replayed), r),
        0 <= k < lines@.len(),
    ensures
        r@.len() == lines@.len(),
        r@[k] matches RunEvent::BeamOutput { id: i, line, replayed: again } && i == *id && line
            == lines@[k] && again == replayed,
{
}

/// A replayed beam is said to have taken as long as what it replays, and any
/// other as long as it ran, which is nothing where it did not start.
pub proof fn a_replay_took_as_long_as_what_it_replays(
    status: BeamStatus,
    hit: &Option<Manifest>,
    elapsed_ms: Option<u64>,
    r: u64,
)
    requires
        call_ensures(reported_duration, (status, hit, elapsed_ms), r),
    ensures
        status is Cached ==> (*hit matches Some(m) ==> r == m.duration_ms),
        !(status is Cached) ==> (elapsed_ms matches Some(ms) ==> r == ms),
        !(status is Cached) && elapsed_ms is None ==> r == 0,
{
}

} // verus!
