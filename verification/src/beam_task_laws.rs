//! What every beam's life looks like, whatever happens to it.

use vstd::prelude::*;
use crate::beam_task::{
    ending, failure, started, stepped, BeamTask, Effect, Happening, Phase, NO_EXIT_CODE,
};
use crate::event::BeamStatus;

verus! {

/// Something that happened, and whether the run was stopping or being
/// cancelled then.
pub struct Moment {
    pub what: Happening,
    pub stopping: bool,
    pub cancelled: bool,
}

/// Where a beam is after all of `moments`, and everything done until then.
pub open spec fn life(task: BeamTask, moments: Seq<Moment>) -> (Phase, Seq<Effect>)
    decreases moments.len(),
{
    if moments.len() == 0 {
        (Phase::Waiting, Seq::empty())
    } else {
        let (phase, effects) = life(task, moments.drop_last());
        let m = moments.last();
        let (next, more) = stepped(task, phase, m.what, m.stopping, m.cancelled);
        (next, effects + more)
    }
}

/// The commands before place `k`, in order.
pub open spec fn runs(k: nat) -> Seq<Effect> {
    Seq::new(k, |i: int| Effect::Run(i as usize))
}

pub open spec fn line(text: Option<String>) -> Seq<Effect> {
    match text {
        Some(t) => seq![Effect::Line(t)],
        None => Seq::empty(),
    }
}

/// What is done up to the first `k` commands.
pub open spec fn running(notice: Option<String>, k: nat) -> Seq<Effect> {
    seq![Effect::AcquireSlot, Effect::Assess, Effect::Started] + line(notice) + runs(k)
}

/// How a life that ran `k` commands ended.
pub struct Ran {
    pub notice: Option<String>,
    pub k: nat,
    pub complaint: Option<String>,
    pub status: BeamStatus,
    pub remember: Option<String>,
    pub contribution: Option<String>,
}

pub open spec fn ran_life(task: BeamTask, r: Ran) -> Seq<Effect> {
    running(r.notice, r.k) + line(r.complaint) + ending(task, r.status, r.remember, r.contribution)
}

/// What can be said of a life that started: it succeeded exactly where it
/// renders and ran all its commands without a complaint, and it is not
/// counted as a replay.
pub open spec fn ran_well(task: BeamTask, r: Ran) -> bool {
    &&& !(r.status is Cached)
    &&& match task.commands {
        Ok(n) => r.k <= n && (r.status is Succeeded ==> r.k == n && r.complaint is None),
        Err(error) => r.k == 0 && r.complaint == Some(error) && r.status == failure(
            task,
            NO_EXIT_CODE,
        ),
    }
}

/// A beam that did not start: cancelled while it waited, or replayed.
pub open spec fn unstarted_life(task: BeamTask, effects: Seq<Effect>) -> bool {
    let cancelled = ending(task, BeamStatus::Cancelled, None, None);
    ||| effects == cancelled
    ||| effects == seq![Effect::AcquireSlot] + cancelled
    ||| effects == seq![Effect::AcquireSlot, Effect::Assess] + cancelled
    ||| exists|fingerprint: String|
        effects == #[trigger] replayed_life(task, fingerprint)
}

pub open spec fn replayed_life(task: BeamTask, fingerprint: String) -> Seq<Effect> {
    seq![Effect::AcquireSlot, Effect::Assess, Effect::ReleaseSlot, Effect::Replay] + ending(
        task,
        BeamStatus::Cached,
        None,
        Some(fingerprint),
    )
}

/// A life that is over: it never started, or it started and ran commands in
/// order, each once, until it ended.
pub open spec fn whole_life(task: BeamTask, effects: Seq<Effect>) -> bool {
    ||| unstarted_life(task, effects)
    ||| exists|r: Ran| effects == #[trigger] ran_life(task, r) && ran_well(task, r)
}

/// `effects` are those up to the first `k` commands.
pub open spec fn has_run(effects: Seq<Effect>, k: nat) -> bool {
    exists|notice: Option<String>| effects == #[trigger] running(notice, k)
}

/// What a life looks like in each phase.
pub open spec fn lived(task: BeamTask, phase: Phase, effects: Seq<Effect>) -> bool {
    match phase {
        Phase::Waiting => effects == Seq::<Effect>::empty(),
        Phase::Queued => effects == seq![Effect::AcquireSlot],
        Phase::Assessing => effects == seq![Effect::AcquireSlot, Effect::Assess],
        Phase::Running { command, .. } => {
            &&& task.commands is Ok
            &&& command < task.commands->Ok_0
            &&& has_run(effects, (command + 1) as nat)
        },
        Phase::Done => whole_life(task, effects),
    }
}

proof fn started_lived(
    task: BeamTask,
    before: Seq<Effect>,
    remember: Option<String>,
    contribution: Option<String>,
    notice: Option<String>,
)
    requires
        before == seq![Effect::AcquireSlot, Effect::Assess],
    ensures
        ({
            let (phase, more) = started(task, remember, contribution, notice);
            lived(task, phase, before + more)
        }),
{
    let (phase, more) = started(task, remember, contribution, notice);
    match task.commands {
        Err(error) => {
            let r = Ran {
                notice,
                k: 0,
                complaint: Some(error),
                status: failure(task, NO_EXIT_CODE),
                remember,
                contribution,
            };
            assert(before + more =~= ran_life(task, r));
            assert(ran_well(task, r));
        },
        Ok(n) => {
            if n == 0 {
                let r = Ran {
                    notice,
                    k: 0,
                    complaint: None,
                    status: BeamStatus::Succeeded,
                    remember,
                    contribution,
                };
                assert(before + more =~= ran_life(task, r));
                assert(ran_well(task, r));
            } else {
                assert(before + more =~= running(notice, 1));
            }
        },
    }
}

proof fn exit_lived(
    task: BeamTask,
    effects: Seq<Effect>,
    notice: Option<String>,
    command: usize,
    remember: Option<String>,
    contribution: Option<String>,
    result: Result<i32, String>,
    stopping: bool,
    cancelled: bool,
)
    requires
        task.commands is Ok,
        command < task.commands->Ok_0,
        effects == running(notice, (command + 1) as nat),
    ensures
        ({
            let (next, more) = stepped(
                task,
                Phase::Running { command, remember, contribution },
                Happening::Exited(result),
                stopping,
                cancelled,
            );
            lived(task, next, effects + more)
        }),
{
    let (next, more) = stepped(
        task,
        Phase::Running { command, remember, contribution },
        Happening::Exited(result),
        stopping,
        cancelled,
    );
    let all = effects + more;
    let n = task.commands->Ok_0;
    if result is Ok && result->Ok_0 == 0 && command + 1 < n {
        let later: usize = (command + 1) as usize;
        assert(next == Phase::Running { command: later, remember, contribution });
        assert(all =~= running(notice, (later + 1) as nat));
        assert(has_run(all, (later + 1) as nat));
    } else {
        let r = Ran {
            notice,
            k: (command + 1) as nat,
            complaint: match result {
                Ok(_) => None,
                Err(error) => Some(error),
            },
            status: match result {
                Ok(code) => if code == 0 {
                    BeamStatus::Succeeded
                } else if cancelled {
                    BeamStatus::Cancelled
                } else {
                    failure(task, code)
                },
                Err(_) => if cancelled {
                    BeamStatus::Cancelled
                } else {
                    failure(task, NO_EXIT_CODE)
                },
            },
            remember,
            contribution,
        };
        assert(all =~= ran_life(task, r));
        assert(ran_well(task, r));
        assert(next is Done);
        assert(whole_life(task, all));
        assert(lived(task, next, all));
    }
}

proof fn step_lived(task: BeamTask, phase: Phase, effects: Seq<Effect>, m: Moment)
    requires
        lived(task, phase, effects),
    ensures
        ({
            let (next, more) = stepped(task, phase, m.what, m.stopping, m.cancelled);
            lived(task, next, effects + more)
        }),
{
    let (next, more) = stepped(task, phase, m.what, m.stopping, m.cancelled);
    let all = effects + more;
    let cancelled = ending(task, BeamStatus::Cancelled, None, None);
    match (phase, m.what) {
        (Phase::Waiting, Happening::NeedsEnded { satisfied }) => {
            if !satisfied || m.stopping {
                assert(all =~= cancelled);
            } else {
                assert(all =~= seq![Effect::AcquireSlot]);
            }
        },
        (Phase::Queued, Happening::Slot { granted }) => {
            if granted {
                assert(all =~= seq![Effect::AcquireSlot, Effect::Assess]);
            } else {
                assert(unstarted_life(task, all));
            }
        },
        (Phase::Assessing, Happening::Assessed { assessment, notice }) => {
            if m.stopping {
                assert(unstarted_life(task, all));
            } else {
                match assessment {
                    Some(a) => {
                        if a.hit is Some {
                            assert(all =~= replayed_life(task, a.fingerprint));
                            assert(unstarted_life(task, all));
                        } else {
                            started_lived(
                                task,
                                effects,
                                Some(a.fingerprint),
                                Some(a.fingerprint),
                                notice,
                            );
                        }
                    },
                    None => {
                        started_lived(task, effects, None, task.static_contribution, notice);
                    },
                }
            }
        },
        (Phase::Running { command, remember, contribution }, Happening::Exited(result)) => {
            let notice = choose|notice: Option<String>|
                effects == #[trigger] running(notice, (command + 1) as nat);
            exit_lived(
                task,
                effects,
                notice,
                command,
                remember,
                contribution,
                result,
                m.stopping,
                m.cancelled,
            );
        },
        (other, _) => {
            assert(all =~= effects);
        },
    }
}

/// Whatever happens, a beam takes a slot before it is looked at, is looked at
/// before it starts, starts before it runs anything, and runs its commands in
/// order, each once.
pub proof fn every_life_is_in_order(task: BeamTask, moments: Seq<Moment>)
    ensures
        lived(task, life(task, moments).0, life(task, moments).1),
    decreases moments.len(),
{
    if moments.len() > 0 {
        every_life_is_in_order(task, moments.drop_last());
        let (phase, effects) = life(task, moments.drop_last());
        step_lived(task, phase, effects, moments.last());
    }
}

/// A life ends with the announcement of how it ended and the release of what
/// depends on it.
pub open spec fn ends_with(effects: Seq<Effect>, status: BeamStatus) -> bool {
    &&& effects.len() >= 2
    &&& effects[effects.len() - 2] == Effect::Finished(status)
    &&& effects.last() matches Effect::Publish(outcome) && outcome.status == status
}

/// Whether `effects` hold one that starts the beam or runs a command.
pub open spec fn touches_the_machine(effects: Seq<Effect>) -> bool {
    exists|i: int|
        0 <= i < effects.len() && (#[trigger] effects[i] is Started || effects[i] is Run)
}

/// A life that is over ended with one status. It stops the run exactly where
/// it failed outright and the run does not keep going, and is remembered only
/// where it succeeded.
pub proof fn a_life_ends_once(task: BeamTask, moments: Seq<Moment>) -> (status: BeamStatus)
    requires
        life(task, moments).0 is Done,
    ensures
        ends_with(life(task, moments).1, status),
        forall|i: int|
            0 <= i < life(task, moments).1.len() - 2 ==> !(#[trigger] life(
                task,
                moments,
            ).1[i] is Finished) && !(life(task, moments).1[i] is Publish),
        (exists|i: int| 0 <= i < life(task, moments).1.len() && (#[trigger] life(task, moments).1[i]) is StopRun)
            <==> status is Failed && !task.keep_going,
        (exists|i: int| 0 <= i < life(task, moments).1.len() && (#[trigger] life(task, moments).1[i]) is Remember)
            ==> status is Succeeded,
        status is Cached ==> !touches_the_machine(life(task, moments).1),
{
    every_life_is_in_order(task, moments);
    let effects = life(task, moments).1;
    if unstarted_life(task, effects) {
        unstarted_ends(task, effects)
    } else {
        let r = choose|r: Ran| effects == #[trigger] ran_life(task, r) && ran_well(task, r);
        ran_ends(task, r);
        r.status
    }
}

proof fn ending_shape(
    task: BeamTask,
    before: Seq<Effect>,
    status: BeamStatus,
    remember: Option<String>,
    contribution: Option<String>,
)
    requires
        forall|i: int|
            0 <= i < before.len() ==> !(#[trigger] before[i] is Finished) && !(before[i] is Publish)
                && !(before[i] is StopRun) && !(before[i] is Remember),
    ensures
        ({
            let all = before + ending(task, status, remember, contribution);
            &&& ends_with(all, status)
            &&& forall|i: int|
                0 <= i < all.len() - 2 ==> !(#[trigger] all[i] is Finished) && !(all[i] is Publish)
            &&& (exists|i: int| 0 <= i < all.len() && (#[trigger] all[i]) is StopRun) <==> status
                is Failed && !task.keep_going
            &&& (exists|i: int| 0 <= i < all.len() && (#[trigger] all[i]) is Remember) ==> status
                is Succeeded
        }),
{
    let tail = ending(task, status, remember, contribution);
    let all = before + tail;
    assert forall|i: int| 0 <= i < all.len() implies #[trigger] all[i] == (if i < before.len() {
        before[i]
    } else {
        tail[i - before.len()]
    }) by {}
    if status is Failed && !task.keep_going {
        assert(tail[0] is StopRun);
        assert(all[before.len() as int] is StopRun);
    }
}

proof fn unstarted_ends(task: BeamTask, effects: Seq<Effect>) -> (status: BeamStatus)
    requires
        unstarted_life(task, effects),
    ensures
        ends_with(effects, status),
        forall|i: int|
            0 <= i < effects.len() - 2 ==> !(#[trigger] effects[i] is Finished) && !(effects[i]
                is Publish),
        (exists|i: int| 0 <= i < effects.len() && (#[trigger] effects[i]) is StopRun) <==> status
            is Failed && !task.keep_going,
        (exists|i: int| 0 <= i < effects.len() && (#[trigger] effects[i]) is Remember) ==> status
            is Succeeded,
        !touches_the_machine(effects),
{
    let cancelled = ending(task, BeamStatus::Cancelled, None, None);
    if effects == cancelled {
        ending_shape(task, Seq::empty(), BeamStatus::Cancelled, None, None);
        assert(effects =~= Seq::<Effect>::empty() + cancelled);
        BeamStatus::Cancelled
    } else if effects == seq![Effect::AcquireSlot] + cancelled {
        ending_shape(task, seq![Effect::AcquireSlot], BeamStatus::Cancelled, None, None);
        BeamStatus::Cancelled
    } else if effects == seq![Effect::AcquireSlot, Effect::Assess] + cancelled {
        ending_shape(
            task,
            seq![Effect::AcquireSlot, Effect::Assess],
            BeamStatus::Cancelled,
            None,
            None,
        );
        BeamStatus::Cancelled
    } else {
        let fingerprint = choose|fingerprint: String|
            effects == #[trigger] replayed_life(task, fingerprint);
        ending_shape(
            task,
            seq![Effect::AcquireSlot, Effect::Assess, Effect::ReleaseSlot, Effect::Replay],
            BeamStatus::Cached,
            None,
            Some(fingerprint),
        );
        BeamStatus::Cached
    }
}

proof fn ran_ends(task: BeamTask, r: Ran)
    requires
        ran_well(task, r),
    ensures
        ({
            let all = ran_life(task, r);
            &&& ends_with(all, r.status)
            &&& forall|i: int|
                0 <= i < all.len() - 2 ==> !(#[trigger] all[i] is Finished) && !(all[i] is Publish)
            &&& (exists|i: int| 0 <= i < all.len() && (#[trigger] all[i]) is StopRun) <==> r.status
                is Failed && !task.keep_going
            &&& (exists|i: int| 0 <= i < all.len() && (#[trigger] all[i]) is Remember) ==> r.status
                is Succeeded
        }),
{
    let before = running(r.notice, r.k) + line(r.complaint);
    assert forall|i: int| 0 <= i < before.len() implies !(#[trigger] before[i] is Finished) && !(
    before[i] is Publish) && !(before[i] is StopRun) && !(before[i] is Remember) by {
        let head = running(r.notice, r.k);
        if i < head.len() {
            assert(before[i] == head[i]);
            let opening = seq![Effect::AcquireSlot, Effect::Assess, Effect::Started];
            if i >= 3 + line(r.notice).len() {
                assert(head[i] == runs(r.k)[i - 3 - line(r.notice).len()]);
            } else if i >= 3 {
                assert(head[i] == line(r.notice)[i - 3]);
            } else {
                assert(head[i] == opening[i]);
            }
        } else {
            assert(before[i] == line(r.complaint)[i - head.len()]);
        }
    }
    ending_shape(task, before, r.status, r.remember, r.contribution);
}

/// A beam something of whose needs failed does nothing but say so, whatever
/// happens later.
pub proof fn an_unsatisfied_beam_never_starts(task: BeamTask, first: Moment, rest: Seq<Moment>)
    requires
        first.what == (Happening::NeedsEnded { satisfied: false }),
    ensures
        life(task, seq![first] + rest) == (
            Phase::Done,
            ending(task, BeamStatus::Cancelled, None, None),
        ),
    decreases rest.len(),
{
    let all = seq![first] + rest;
    let cancelled = ending(task, BeamStatus::Cancelled, None, None);
    if rest.len() == 0 {
        assert(all.drop_last() =~= Seq::<Moment>::empty());
        assert(all.last() == first);
        assert(life(task, all.drop_last()) == (Phase::Waiting, Seq::<Effect>::empty()));
        assert(Seq::<Effect>::empty() + cancelled =~= cancelled);
    } else {
        an_unsatisfied_beam_never_starts(task, first, rest.drop_last());
        assert(all.drop_last() =~= seq![first] + rest.drop_last());
        assert(cancelled + Seq::<Effect>::empty() =~= cancelled);
    }
}

/// A beam that succeeded ran every one of its commands, in order.
pub proof fn a_success_ran_everything(task: BeamTask, moments: Seq<Moment>)
    requires
        life(task, moments).0 is Done,
        ends_with(life(task, moments).1, BeamStatus::Succeeded),
    ensures
        task.commands is Ok,
        exists|r: Ran|
            life(task, moments).1 == #[trigger] ran_life(task, r) && r.k == task.commands->Ok_0,
{
    every_life_is_in_order(task, moments);
    let effects = life(task, moments).1;
    if unstarted_life(task, effects) {
        let status = unstarted_ends(task, effects);
        let cancelled = ending(task, BeamStatus::Cancelled, None, None);
        assert(effects[effects.len() - 2] == Effect::Finished(BeamStatus::Succeeded));
        if effects == cancelled || effects == seq![Effect::AcquireSlot] + cancelled || effects
            == seq![Effect::AcquireSlot, Effect::Assess] + cancelled {
            assert(effects[effects.len() - 2] == Effect::Finished(BeamStatus::Cancelled));
        } else {
            let fingerprint = choose|fingerprint: String|
                effects == #[trigger] replayed_life(task, fingerprint);
            assert(effects[effects.len() - 2] == Effect::Finished(BeamStatus::Cached));
        }
    } else {
        let r = choose|r: Ran| effects == #[trigger] ran_life(task, r) && ran_well(task, r);
        ran_ends(task, r);
        assert(r.status is Succeeded);
    }
}

} // verus!
