//! What beams come to, told by the lists of a run's summary, and what the
//! end of one does to a run.

use vstd::prelude::*;
use crate::beam_task::{gather_contributions, stepped, BeamOutcome, Happening, Phase};
use crate::event::{BeamStatus, RunEvent, RunSummary, Stream};
use crate::json::{exit_code, millis, status_name, stream_name};
use crate::model::BeamId;
use crate::plan::{conclude, ended_like, first_panicked, is_summary, summarize, EngineError};
use crate::schedule::{in_slots, RunView};
use crate::store::{accept_manifest, Manifest};

verus! {

/// Each end of a beam has a list of its own.
pub proof fn every_end_has_its_own_list(s: RunSummary, a: BeamStatus, b: BeamStatus)
    ensures
        a is Succeeded ==> s.bucket(a) == s.succeeded@,
        a is Cached ==> s.bucket(a) == s.cached@,
        a is Failed ==> s.bucket(a) == s.failed@,
        a is FailedAllowed ==> s.bucket(a) == s.failed_allowed@,
        a is Cancelled ==> s.bucket(a) == s.cancelled@,
        RunSummary::same_bucket(a, b) <==> (a is Succeeded && b is Succeeded) || (a is Cached
            && b is Cached) || (a is Failed && b is Failed) || (a is FailedAllowed
            && b is FailedAllowed) || (a is Cancelled && b is Cancelled),
{
}

proof fn listed_where_it_ended_so(
    ids: Seq<BeamId>,
    statuses: Seq<Option<BeamStatus>>,
    like: BeamStatus,
    n: int,
    id: BeamId,
)
    requires
        0 <= n <= ids.len(),
        ids.len() == statuses.len(),
    ensures
        ended_like(ids, statuses, like, n).contains(id) <==> exists|k: int|
            0 <= k < n && #[trigger] ids[k] == id && statuses[k] is Some
                && RunSummary::same_bucket(like, statuses[k]->Some_0),
    decreases n,
{
    if n > 0 {
        listed_where_it_ended_so(ids, statuses, like, n - 1, id);
        let before = ended_like(ids, statuses, like, n - 1);
        let all = ended_like(ids, statuses, like, n);
        if before.contains(id) {
            let i = choose|i: int| 0 <= i < before.len() && before[i] == id;
            assert(all[i] == id);
        }
        if all.contains(id) && !before.contains(id) {
            let i = choose|i: int| 0 <= i < all.len() && all[i] == id;
            if i < before.len() {
                assert(before[i] == id);
            }
            assert(ids[n - 1] == id);
        }
        if ids[n - 1] == id && statuses[n - 1] is Some && RunSummary::same_bucket(
            like,
            statuses[n - 1]->Some_0,
        ) {
            assert(all[before.len() as int] == id);
        }
    }
}

/// A run's summary lists a beam among those that failed exactly where it
/// failed, and so for every other end. There is one exactly where every beam
/// ended; else the error names a beam that did not.
pub proof fn a_summary_lists_beams_by_how_they_ended(
    ids: &Vec<BeamId>,
    statuses: &Vec<Option<BeamStatus>>,
    duration_ms: u64,
    r: Result<RunSummary, EngineError>,
    id: BeamId,
)
    requires
        ids@.len() == statuses@.len(),
        call_ensures(summarize, (ids, statuses, duration_ms), r),
    ensures
        r is Ok <==> forall|k: int| 0 <= k < statuses@.len() ==> (#[trigger] statuses@[k]) is Some,
        r matches Ok(s) ==> {
            &&& s.duration_ms == duration_ms
            &&& s.succeeded@.contains(id) <==> exists|k: int|
                0 <= k < ids@.len() && #[trigger] ids@[k] == id && (statuses@[k] matches Some(
                    BeamStatus::Succeeded,
                ))
            &&& s.cached@.contains(id) <==> exists|k: int|
                0 <= k < ids@.len() && #[trigger] ids@[k] == id && (statuses@[k] matches Some(
                    BeamStatus::Cached,
                ))
            &&& s.failed@.contains(id) <==> exists|k: int|
                0 <= k < ids@.len() && #[trigger] ids@[k] == id && (statuses@[k] matches Some(
                    BeamStatus::Failed { .. },
                ))
            &&& s.failed_allowed@.contains(id) <==> exists|k: int|
                0 <= k < ids@.len() && #[trigger] ids@[k] == id && (statuses@[k] matches Some(
                    BeamStatus::FailedAllowed { .. },
                ))
            &&& s.cancelled@.contains(id) <==> exists|k: int|
                0 <= k < ids@.len() && #[trigger] ids@[k] == id && (statuses@[k] matches Some(
                    BeamStatus::Cancelled,
                ))
        },
        r matches Err(e) ==> (e matches EngineError::Panicked { beam } && exists|k: int|
            0 <= k < ids@.len() && #[trigger] ids@[k] == beam && statuses@[k] is None),
{
    let n = ids@.len() as int;
    panicked_is_first(statuses@);
    listed_where_it_ended_so(ids@, statuses@, BeamStatus::Succeeded, n, id);
    listed_where_it_ended_so(ids@, statuses@, BeamStatus::Cached, n, id);
    listed_where_it_ended_so(ids@, statuses@, BeamStatus::Failed { exit_code: 0 }, n, id);
    listed_where_it_ended_so(ids@, statuses@, BeamStatus::FailedAllowed { exit_code: 0 }, n, id);
    listed_where_it_ended_so(ids@, statuses@, BeamStatus::Cancelled, n, id);
    if let Ok(s) = r {
        assert(is_summary(ids@, statuses@, s));
        assert(s.bucket(BeamStatus::Succeeded) == s.succeeded@);
        assert(s.bucket(BeamStatus::Cached) == s.cached@);
        assert(s.bucket(BeamStatus::Failed { exit_code: 0 }) == s.failed@);
        assert(s.bucket(BeamStatus::FailedAllowed { exit_code: 0 }) == s.failed_allowed@);
        assert(s.bucket(BeamStatus::Cancelled) == s.cancelled@);
    } else {
        let i = first_panicked(statuses@)->Some_0;
        assert(ids@[i] == ids@[i]);
    }
}

proof fn panicked_is_first(statuses: Seq<Option<BeamStatus>>)
    ensures
        match first_panicked(statuses) {
            Some(i) => 0 <= i < statuses.len() && statuses[i] is None,
            None => forall|k: int| 0 <= k < statuses.len() ==> (#[trigger] statuses[k]) is Some,
        },
    decreases statuses.len(),
{
    if statuses.len() > 0 {
        let front = statuses.drop_last();
        panicked_is_first(front);
        if first_panicked(statuses) is None {
            assert forall|k: int| 0 <= k < statuses.len() implies (#[trigger] statuses[k]) is Some by {
                if k < front.len() {
                    assert(front[k] == statuses[k]);
                }
            }
        }
    }
}

/// What a run returns is what it announces: the event that it ends with holds
/// a summary with the same lists and the same time.
pub proof fn a_run_announces_what_it_returns(
    ids: &Vec<BeamId>,
    statuses: &Vec<Option<BeamStatus>>,
    duration_ms: u64,
    r: Result<(RunSummary, RunEvent), EngineError>,
    s: Result<RunSummary, EngineError>,
)
    requires
        ids@.len() == statuses@.len(),
        call_ensures(conclude, (ids, statuses, duration_ms), r),
        call_ensures(summarize, (ids, statuses, duration_ms), s),
    ensures
        r is Ok <==> s is Ok,
        r matches Ok((summary, event)) ==> (event matches RunEvent::RunFinished { summary: told } && {
            &&& told.succeeded@ == summary.succeeded@
            &&& told.cached@ == summary.cached@
            &&& told.failed@ == summary.failed@
            &&& told.failed_allowed@ == summary.failed_allowed@
            &&& told.cancelled@ == summary.cancelled@
            &&& told.duration_ms == summary.duration_ms
            &&& summary.failed@ == s->Ok_0.failed@
        }),
{
    if let Ok((summary, event)) = r {
        let told = event->RunFinished_summary;
        let a = BeamStatus::Succeeded;
        let b = BeamStatus::Cached;
        let c = BeamStatus::Failed { exit_code: 0 };
        let d = BeamStatus::FailedAllowed { exit_code: 0 };
        let e = BeamStatus::Cancelled;
        assert(told.bucket(a) == summary.bucket(a));
        assert(told.bucket(b) == summary.bucket(b));
        assert(told.bucket(c) == summary.bucket(c));
        assert(told.bucket(d) == summary.bucket(d));
        assert(told.bucket(e) == summary.bucket(e));
        assert(summary.bucket(c) == s->Ok_0.bucket(c));
    }
}

/// What happens to a beam touches that beam alone: its phase is what its step
/// says, and it has an outcome once its step publishes one. From the first
/// step that stops the run on, the run is stopping.
pub proof fn a_step_touches_its_beam_alone(run: RunView, i: int, what: Happening)
    requires
        run.sound(),
        run.may_happen(i, what),
    ensures
        ({
            let (phase, effects) = stepped(
                run.tasks[i],
                run.phases[i],
                what,
                run.stopping,
                run.cancelled,
            );
            let after = run.after(i, what);
            &&& after.phases[i] == phase
            &&& forall|k: int|
                0 <= k < run.phases.len() && k != i ==> #[trigger] after.phases[k] == run.phases[k]
            &&& forall|k: int|
                0 <= k < run.outcomes.len() && k != i ==> #[trigger] after.outcomes[k]
                    == run.outcomes[k]
            &&& effects.len() > 0 && effects[effects.len() - 1] is Publish ==> after.outcomes[i]
                == Some(effects[effects.len() - 1]->Publish_0)
            &&& (exists|k: int| 0 <= k < effects.len() && #[trigger] effects[k] is StopRun)
                ==> after.stopping
            &&& after.stopping ==> run.stopping || exists|k: int|
                0 <= k < effects.len() && #[trigger] effects[k] is StopRun
            &&& run.stopping ==> after.stopping
            &&& after.cancelled == run.cancelled
            &&& after.tasks == run.tasks
            &&& after.needs == run.needs
            &&& after.slots == run.slots
        }),
{
}

/// A beam is in a slot while it is looked up and while it runs.
pub proof fn a_slot_is_held_while_a_beam_works(phases: Seq<Phase>, phase: Phase)
    ensures
        in_slots(Seq::<Phase>::empty()) == 0,
        in_slots(phases.push(phase)) == in_slots(phases) + if phase is Assessing
            || phase is Running {
            1int
        } else {
            0int
        },
{
    assert(phases.push(phase).drop_last() =~= phases);
}

/// What a beam's needs contribute is known exactly where each of them lets it
/// run, and is what each of them contributes, in order.
pub proof fn contributions_come_in_the_order_of_needs(
    outcomes: &Vec<BeamOutcome>,
    r: Option<Vec<Option<String>>>,
)
    requires
        call_ensures(gather_contributions, (outcomes,), r),
    ensures
        (exists|i: int|
            0 <= i < outcomes@.len() && ((#[trigger] outcomes@[i]).status is Failed
                || outcomes@[i].status is Cancelled)) <==> r is None,
        r matches Some(all) ==> all@.len() == outcomes@.len() && forall|i: int|
            0 <= i < all@.len() ==> #[trigger] all@[i] == outcomes@[i].contribution,
{
    if r is None {
        let i = choose|i: int|
            0 <= i < outcomes@.len() && !(#[trigger] outcomes@[i]).status.satisfies();
        assert(outcomes@[i].status is Failed || outcomes@[i].status is Cancelled);
    } else if exists|i: int|
        0 <= i < outcomes@.len() && ((#[trigger] outcomes@[i]).status is Failed
            || outcomes@[i].status is Cancelled) {
        let i = choose|i: int|
            0 <= i < outcomes@.len() && ((#[trigger] outcomes@[i]).status is Failed
                || outcomes@[i].status is Cancelled);
        assert(outcomes@[i].status.satisfies());
    }
}

/// Only a beam that ran and failed has an exit code. A status and a stream go
/// by their names, and a duration that does not fit is as long as can be
/// said.
pub proof fn statuses_go_by_their_names(
    status: &BeamStatus,
    code: Option<i32>,
    name: &'static str,
    stream: Stream,
    word: &'static str,
    duration: u128,
    ms: u64,
)
    requires
        call_ensures(exit_code, (status,), code),
        call_ensures(status_name, (status,), name),
        call_ensures(stream_name, (stream,), word),
        call_ensures(millis, (duration,), ms),
    ensures
        match *status {
            BeamStatus::Failed { exit_code: c } => code == Some(c) && name@ == "failed"@,
            BeamStatus::FailedAllowed { exit_code: c } => code == Some(c) && name@
                == "failed_allowed"@,
            BeamStatus::Succeeded => code is None && name@ == "succeeded"@,
            BeamStatus::Cached => code is None && name@ == "cached"@,
            BeamStatus::Cancelled => code is None && name@ == "cancelled"@,
        },
        stream is Stdout ==> word@ == "stdout"@,
        stream is Stderr ==> word@ == "stderr"@,
        duration <= u64::MAX ==> ms == duration,
        duration > u64::MAX ==> ms == u64::MAX,
{
}

/// What was written in another format is not read.
pub proof fn another_format_is_not_read(m: Manifest, r: Option<Manifest>, none: Option<Manifest>)
    requires
        call_ensures(accept_manifest, (Some(m),), r),
        call_ensures(accept_manifest, (None,), none),
    ensures
        r is Some <==> m.version == 2,
        r matches Some(kept) ==> kept == m,
        none is None,
{
}

} // verus!
