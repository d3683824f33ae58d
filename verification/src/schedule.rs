//! A whole run: which beam may go on, and what its steps mean for the others.
//!
//! A beam waits for what it needs, then for one of the slots. What it does in
//! its slot, and the commands it runs, are the caller's part: it delivers
//! what happened to a beam and carries out what that beam does next.

use vstd::prelude::*;
use crate::beam_task::{step, stepped, BeamOutcome, BeamTask, Effect, Happening, Phase};
use crate::error::ErrorView;
use crate::event::BeamStatus;
use crate::fingerprint::{fingerprint_of, static_contribution, static_facts};
use crate::model::{copy_pairs, copy_strings, Beam, BeamView, Project, ProjectView};
use crate::plan::{
    executor_label, executor_word, render, rendered_beam, RenderedBeam, RenderedView,
};
use crate::scope::Environment;
use crate::text::{opt_view, same_text, views};

verus! {

/// A run in progress.
pub struct Run {
    tasks: Vec<BeamTask>,
    /// The places of what each beam needs, in order.
    needs: Vec<Vec<usize>>,
    phases: Vec<Phase>,
    outcomes: Vec<Option<BeamOutcome>>,
    /// How many beams are in a slot.
    taken: usize,
    slots: usize,
    /// No beam may start from now on.
    stopping: bool,
    /// Running commands are being stopped.
    cancelled: bool,
}

pub struct RunView {
    pub tasks: Seq<BeamTask>,
    pub needs: Seq<Seq<usize>>,
    pub phases: Seq<Phase>,
    pub outcomes: Seq<Option<BeamOutcome>>,
    pub taken: int,
    pub slots: int,
    pub stopping: bool,
    pub cancelled: bool,
}

pub open spec fn need_lists(needs: Seq<Vec<usize>>) -> Seq<Seq<usize>> {
    Seq::new(needs.len(), |i: int| needs[i]@)
}

impl View for Run {
    type V = RunView;

    closed spec fn view(&self) -> RunView {
        RunView {
            tasks: self.tasks@,
            needs: need_lists(self.needs@),
            phases: self.phases@,
            outcomes: self.outcomes@,
            taken: self.taken as int,
            slots: self.slots as int,
            stopping: self.stopping,
            cancelled: self.cancelled,
        }
    }
}

/// Whether a beam is in a slot.
pub open spec fn in_slot(phase: Phase) -> bool {
    phase is Assessing || phase is Running
}

/// How many beams are in a slot.
pub open spec fn in_slots(phases: Seq<Phase>) -> int
    decreases phases.len(),
{
    if phases.len() == 0 {
        0
    } else {
        in_slots(phases.drop_last()) + if in_slot(phases.last()) {
            1int
        } else {
            0
        }
    }
}

/// Whether what a beam needs lets it run: unknown as long as one has not
/// ended and every one before it ended well, no where one did not end well.
pub open spec fn needs_verdict(needs: Seq<usize>, outcomes: Seq<Option<BeamOutcome>>) -> Option<bool>
    decreases needs.len(),
{
    if needs.len() == 0 {
        Some(true)
    } else {
        match outcomes[needs[0] as int] {
            None => None,
            Some(outcome) => if outcome.status.satisfies() {
                needs_verdict(needs.drop_first(), outcomes)
            } else {
                Some(false)
            },
        }
    }
}

/// Everything that a beam needs has ended well.
pub open spec fn needs_met(needs: Seq<usize>, outcomes: Seq<Option<BeamOutcome>>) -> bool {
    forall|j: int|
        0 <= j < needs.len() ==> (outcomes[#[trigger] needs[j] as int] matches Some(o)
            && o.status.satisfies())
}

impl RunView {
    /// The parts fit each other.
    pub open spec fn fits(self) -> bool {
        &&& self.needs.len() == self.tasks.len()
        &&& self.phases.len() == self.tasks.len()
        &&& self.outcomes.len() == self.tasks.len()
        &&& forall|i: int, j: int|
            0 <= i < self.needs.len() && 0 <= j < self.needs[i].len() ==> (
            #[trigger] self.needs[i][j]) < self.tasks.len()
    }

    /// What every state of a run keeps: no more beams are in slots than there
    /// are, a beam has an outcome exactly where it is done, and one that got
    /// past waiting, and was not cancelled, has all that it needs.
    pub open spec fn sound(self) -> bool {
        &&& self.fits()
        &&& self.slots >= 1
        &&& self.taken == in_slots(self.phases)
        &&& self.taken <= self.slots
        &&& forall|i: int|
            0 <= i < self.phases.len() ==> (#[trigger] self.phases[i] is Done
                <==> self.outcomes[i] is Some)
        &&& forall|i: int| 0 <= i < self.phases.len() ==> #[trigger] self.in_order(i)
    }

    /// A beam that got past waiting, and was not cancelled, has all that it
    /// needs.
    pub open spec fn in_order(self, i: int) -> bool {
        self.phases[i] is Waiting || (self.outcomes[i] matches Some(o) && o.status is Cancelled)
            || needs_met(self.needs[i], self.outcomes)
    }

    /// What can happen to a beam from within the run.
    pub open spec fn ready(self, i: int) -> Option<Happening> {
        match self.phases[i] {
            Phase::Waiting => match needs_verdict(self.needs[i], self.outcomes) {
                Some(satisfied) => Some(Happening::NeedsEnded { satisfied }),
                None => None,
            },
            Phase::Queued => if self.stopping {
                Some(Happening::Slot { granted: false })
            } else if self.taken < self.slots {
                Some(Happening::Slot { granted: true })
            } else {
                None
            },
            _ => None,
        }
    }

    /// What may be delivered to a beam: what can happen to it from within, or
    /// what it waits for from outside.
    pub open spec fn may_happen(self, i: int, what: Happening) -> bool {
        0 <= i < self.phases.len() && (self.ready(i) == Some(what) || (self.phases[i] is Assessing
            && what is Assessed) || (self.phases[i] is Running && what is Exited))
    }

    /// The run after something happened to beam `i`.
    pub open spec fn after(self, i: int, what: Happening) -> RunView {
        let (phase, effects) = stepped(
            self.tasks[i],
            self.phases[i],
            what,
            self.stopping,
            self.cancelled,
        );
        RunView {
            phases: self.phases.update(i, phase),
            outcomes: match published(effects) {
                Some(outcome) => self.outcomes.update(i, Some(outcome)),
                None => self.outcomes,
            },
            taken: self.taken + slot_change(self.phases[i], phase),
            stopping: self.stopping || stops(effects),
            ..self
        }
    }

    pub open spec fn all_done(self) -> bool {
        forall|i: int| 0 <= i < self.phases.len() ==> #[trigger] self.phases[i] is Done
    }
}

/// What a beam's end tells the others.
pub open spec fn published(effects: Seq<Effect>) -> Option<BeamOutcome> {
    if effects.len() > 0 {
        match effects.last() {
            Effect::Publish(outcome) => Some(outcome),
            _ => None,
        }
    } else {
        None
    }
}

/// Something among `effects` stops the run.
pub open spec fn stops(effects: Seq<Effect>) -> bool {
    exists|k: int| 0 <= k < effects.len() && #[trigger] effects[k] is StopRun
}

pub open spec fn slot_change(before: Phase, after: Phase) -> int {
    (if in_slot(after) {
        1int
    } else {
        0
    }) - (if in_slot(before) {
        1int
    } else {
        0
    })
}

fn holds_slot(phase: &Phase) -> (r: bool)
    ensures
        r == in_slot(*phase),
{
    match phase {
        Phase::Assessing | Phase::Running { .. } => true,
        _ => false,
    }
}

/// Whether what a beam needs lets it run.
pub fn verdict_on(needs: &Vec<usize>, outcomes: &Vec<Option<BeamOutcome>>) -> (r: Option<bool>)
    requires
        forall|j: int| 0 <= j < needs@.len() ==> (#[trigger] needs@[j]) < outcomes@.len(),
    ensures
        r == needs_verdict(needs@, outcomes@),
{
    let mut j: usize = 0;
    assert(needs@.skip(0) =~= needs@);
    while j < needs.len()
        invariant
            j <= needs@.len(),
            forall|j: int| 0 <= j < needs@.len() ==> (#[trigger] needs@[j]) < outcomes@.len(),
            needs_verdict(needs@, outcomes@) == needs_verdict(needs@.skip(j as int), outcomes@),
        decreases needs.len() - j,
    {
        let ghost left = needs@.skip(j as int);
        assert(left.drop_first() =~= needs@.skip(j + 1));
        assert(left[0] == needs@[j as int]);
        match &outcomes[needs[j]] {
            None => {
                return None;
            },
            Some(outcome) => {
                if !outcome.status.is_satisfied() {
                    return Some(false);
                }
            },
        }
        j += 1;
    }
    Some(true)
}

proof fn verdict_means(needs: Seq<usize>, outcomes: Seq<Option<BeamOutcome>>)
    ensures
        needs_verdict(needs, outcomes) == Some(true) <==> needs_met(needs, outcomes),
        needs_verdict(needs, outcomes) is None ==> exists|j: int|
            0 <= j < needs.len() && outcomes[#[trigger] needs[j] as int] is None,
    decreases needs.len(),
{
    if needs.len() > 0 {
        let rest = needs.drop_first();
        verdict_means(rest, outcomes);
        if needs_met(rest, outcomes) && (outcomes[needs[0] as int] matches Some(o)
            && o.status.satisfies()) {
            assert forall|j: int| 0 <= j < needs.len() implies (outcomes[
            #[trigger] needs[j] as int] matches Some(o) && o.status.satisfies()) by {
                if j > 0 {
                    assert(rest[j - 1] == needs[j]);
                }
            }
        }
        if needs_met(needs, outcomes) {
            assert(outcomes[needs[0] as int] is Some);
            assert forall|j: int| 0 <= j < rest.len() implies (outcomes[
            #[trigger] rest[j] as int] matches Some(o) && o.status.satisfies()) by {
                assert(rest[j] == needs[j + 1]);
            }
        }
        if needs_verdict(needs, outcomes) is None {
            if outcomes[needs[0] as int] is None {
                assert(outcomes[needs[0] as int] is None);
            } else {
                let j = choose|j: int|
                    0 <= j < rest.len() && outcomes[#[trigger] rest[j] as int] is None;
                assert(needs[j + 1] == rest[j]);
            }
        }
    }
}

proof fn in_slots_changes(phases: Seq<Phase>, i: int, phase: Phase)
    requires
        0 <= i < phases.len(),
    ensures
        in_slots(phases.update(i, phase)) == in_slots(phases) + slot_change(phases[i], phase),
    decreases phases.len(),
{
    let changed = phases.update(i, phase);
    if i < phases.len() - 1 {
        in_slots_changes(phases.drop_last(), i, phase);
        assert(changed.drop_last() =~= phases.drop_last().update(i, phase));
    } else {
        assert(changed.drop_last() =~= phases.drop_last());
    }
}

proof fn in_slots_counts(phases: Seq<Phase>)
    ensures
        0 <= in_slots(phases) <= phases.len(),
        in_slots(phases) > 0 ==> exists|i: int|
            0 <= i < phases.len() && in_slot(#[trigger] phases[i]),
        forall|i: int| 0 <= i < phases.len() && in_slot(#[trigger] phases[i]) ==> in_slots(phases) > 0,
    decreases phases.len(),
{
    if phases.len() > 0 {
        let front = phases.drop_last();
        in_slots_counts(front);
        if in_slots(phases) > 0 {
            if in_slot(phases.last()) {
                assert(in_slot(phases[phases.len() - 1]));
            } else {
                let i = choose|i: int| 0 <= i < front.len() && in_slot(#[trigger] front[i]);
                assert(phases[i] == front[i]);
            }
        }
        assert forall|i: int|
            0 <= i < phases.len() && in_slot(#[trigger] phases[i]) implies in_slots(phases)
            > 0 by {
            if i < front.len() {
                assert(front[i] == phases[i]);
            }
        }
    }
}

/// A step ends a beam exactly where it tells the others, and it tells them
/// how.
proof fn steps_publish(
    task: BeamTask,
    phase: Phase,
    what: Happening,
    stopping: bool,
    cancelled: bool,
)
    ensures
        ({
            let (next, effects) = stepped(task, phase, what, stopping, cancelled);
            &&& !(phase is Done) ==> (next is Done <==> published(effects) is Some)
            &&& phase is Done ==> next is Done && published(effects) is None
            &&& phase is Waiting && !(next is Waiting || next is Queued) ==> (published(
                effects,
            ) matches Some(o) && o.status is Cancelled)
            &&& phase is Waiting && next is Queued ==> what == (Happening::NeedsEnded {
                satisfied: true,
            })
            &&& !(phase is Waiting) ==> !(next is Waiting)
            &&& in_slot(next) && !in_slot(phase) ==> what == (Happening::Slot { granted: true })
        }),
{
}

/// What happens to one beam keeps what every state of a run keeps.
proof fn after_is_sound(run: RunView, i: int, what: Happening)
    requires
        run.sound(),
        run.may_happen(i, what),
    ensures
        run.after(i, what).sound(),
{
    let (phase, effects) = stepped(
        run.tasks[i],
        run.phases[i],
        what,
        run.stopping,
        run.cancelled,
    );
    let next = run.after(i, what);
    steps_publish(run.tasks[i], run.phases[i], what, run.stopping, run.cancelled);
    in_slots_changes(run.phases, i, phase);
    in_slots_counts(run.phases);
    in_slots_counts(next.phases);
    verdict_means(run.needs[i], run.outcomes);
    assert(!(run.phases[i] is Done));
    assert(run.outcomes[i] is None);
    assert(next.taken <= next.slots);
    assert forall|k: int| 0 <= k < next.phases.len() implies (#[trigger] next.phases[k] is Done
        <==> next.outcomes[k] is Some) by {
        assert(run.phases[k] is Done <==> run.outcomes[k] is Some);
    }
    assert forall|k: int| 0 <= k < next.phases.len() implies #[trigger] next.in_order(k) by {
        assert(run.in_order(k));
        still_met(run, next, i, k);
    }
}

/// What ended well stays ended well.
proof fn still_met(run: RunView, next: RunView, i: int, k: int)
    requires
        run.fits(),
        0 <= i < run.phases.len(),
        0 <= k < run.phases.len(),
        run.outcomes[i] is None,
        next.needs == run.needs,
        next.outcomes.len() == run.outcomes.len(),
        forall|m: int|
            0 <= m < run.outcomes.len() && m != i ==> #[trigger] next.outcomes[m]
                == run.outcomes[m],
    ensures
        needs_met(run.needs[k], run.outcomes) ==> needs_met(next.needs[k], next.outcomes),
{
    if needs_met(run.needs[k], run.outcomes) {
        assert forall|j: int| 0 <= j < next.needs[k].len() implies (next.outcomes[
        #[trigger] next.needs[k][j] as int] matches Some(o) && o.status.satisfies()) by {
            let n = run.needs[k][j] as int;
            assert(run.outcomes[n] is Some);
            assert(n != i);
            assert(next.outcomes[n] == run.outcomes[n]);
        }
    }
}

fn copy_outcome(outcome: &BeamOutcome) -> (r: BeamOutcome)
    ensures
        r == *outcome,
{
    let contribution = match &outcome.contribution {
        Some(text) => Some(text.clone()),
        None => None,
    };
    BeamOutcome { status: outcome.status, contribution }
}

impl Run {
    /// A run of beams of which none has started. `needs` holds the places of
    /// what each beam needs; as many beams as there are `slots` may be in one
    /// at a time, none counting as one.
    pub fn new(tasks: Vec<BeamTask>, needs: Vec<Vec<usize>>, slots: usize) -> (r: Run)
        requires
            needs@.len() == tasks@.len(),
            forall|i: int, j: int|
                0 <= i < needs@.len() && 0 <= j < needs@[i]@.len() ==> (
                #[trigger] needs@[i]@[j]) < tasks@.len(),
        ensures
            r@.sound(),
            r@.tasks == tasks@,
            r@.needs == need_lists(needs@),
            forall|i: int| 0 <= i < tasks@.len() ==> #[trigger] r@.phases[i] is Waiting,
            r@.slots == if slots == 0 {
                1
            } else {
                slots as int
            },
            !r@.stopping,
            !r@.cancelled,
    {
        let mut phases: Vec<Phase> = Vec::new();
        let mut outcomes: Vec<Option<BeamOutcome>> = Vec::new();
        let mut i: usize = 0;
        while i < tasks.len()
            invariant
                i <= tasks@.len(),
                phases@.len() == i,
                outcomes@.len() == i,
                forall|k: int| 0 <= k < i ==> #[trigger] phases@[k] is Waiting,
                forall|k: int| 0 <= k < i ==> #[trigger] outcomes@[k] is None,
                in_slots(phases@) == 0,
            decreases tasks.len() - i,
        {
            let ghost before = phases@;
            phases.push(Phase::Waiting);
            assert(phases@.drop_last() =~= before);
            outcomes.push(None);
            i += 1;
        }
        let slots = if slots == 0 {
            1
        } else {
            slots
        };
        let r = Run {
            tasks,
            needs,
            phases,
            outcomes,
            taken: 0,
            slots,
            stopping: false,
            cancelled: false,
        };
        assert forall|i: int| 0 <= i < r@.phases.len() implies #[trigger] r@.in_order(i) by {
            assert(r@.phases[i] is Waiting);
        }
        assert forall|i: int, j: int|
            0 <= i < r@.needs.len() && 0 <= j < r@.needs[i].len() implies (
            #[trigger] r@.needs[i][j]) < r@.tasks.len() by {
            assert(needs@[i]@[j] < tasks@.len());
        }
        r
    }

    /// The next thing that happens from within the run, to the first beam
    /// that something can happen to.
    pub fn next(&self) -> (r: Option<(usize, Happening)>)
        requires
            self@.fits(),
        ensures
            match r {
                Some((i, what)) => 0 <= i < self@.phases.len() && self@.ready(i as int) == Some(
                    what,
                ) && forall|k: int| 0 <= k < i ==> #[trigger] self@.ready(k) is None,
                None => forall|k: int|
                    0 <= k < self@.phases.len() ==> #[trigger] self@.ready(k) is None,
            },
    {
        let mut i: usize = 0;
        while i < self.phases.len()
            invariant
                i <= self.phases@.len(),
                self@.fits(),
                forall|k: int| 0 <= k < i ==> #[trigger] self@.ready(k) is None,
            decreases self.phases.len() - i,
        {
            assert(self@.phases[i as int] == self.phases@[i as int]);
            match &self.phases[i] {
                Phase::Waiting => {
                    assert(self@.needs[i as int] == self.needs@[i as int]@);
                    assert forall|j: int| 0 <= j < self.needs@[i as int]@.len() implies (
                    #[trigger] self.needs@[i as int]@[j]) < self.outcomes@.len() by {
                        assert(self@.needs[i as int][j] < self@.tasks.len());
                    }
                    if let Some(satisfied) = verdict_on(&self.needs[i], &self.outcomes) {
                        return Some((i, Happening::NeedsEnded { satisfied }));
                    }
                },
                Phase::Queued => {
                    if self.stopping {
                        return Some((i, Happening::Slot { granted: false }));
                    } else if self.taken < self.slots {
                        return Some((i, Happening::Slot { granted: true }));
                    }
                },
                _ => {},
            }
            i += 1;
        }
        None
    }

    /// Takes what happened to beam `i`, and says what that beam does next.
    pub fn deliver(&mut self, i: usize, what: Happening) -> (r: Vec<Effect>)
        requires
            old(self)@.sound(),
            old(self)@.may_happen(i as int, what),
        ensures
            final(self)@ == old(self)@.after(i as int, what),
            final(self)@.sound(),
            r@ == stepped(
                old(self)@.tasks[i as int],
                old(self)@.phases[i as int],
                what,
                old(self)@.stopping,
                old(self)@.cancelled,
            ).1,
    {
        let ghost before = self@;
        proof {
            after_is_sound(before, i as int, what);
            in_slots_counts(before.phases);
        }
        self.phases.push(Phase::Done);
        let phase = self.phases.swap_remove(i);
        let held = holds_slot(&phase);
        let (next, effects) = step(&self.tasks[i], phase, what, self.stopping, self.cancelled);
        let holds = holds_slot(&next);
        self.phases.set(i, next);
        assert(self.phases@ =~= before.phases.update(i as int, next));
        if holds && !held {
            assert(before.taken < before.slots);
            self.taken = self.taken + 1;
        } else if held && !holds {
            assert(before.taken > 0);
            self.taken = self.taken - 1;
        }
        let mut k: usize = 0;
        let mut stop = false;
        while k < effects.len()
            invariant
                k <= effects@.len(),
                stop == (exists|m: int| 0 <= m < k && #[trigger] effects@[m] is StopRun),
            decreases effects.len() - k,
        {
            if let Effect::StopRun = &effects[k] {
                stop = true;
                assert(effects@[k as int] is StopRun);
            }
            k += 1;
        }
        if stop {
            self.stopping = true;
        }
        let n: usize = effects.len();
        if n > 0 {
            if let Effect::Publish(outcome) = &effects[n - 1] {
                let copy = copy_outcome(outcome);
                self.outcomes.set(i, Some(copy));
                assert(self.outcomes@ =~= before.outcomes.update(i as int, Some(*outcome)));
            }
        }
        assert(self@ == before.after(i as int, what));
        effects
    }

    /// Whether beam `i` waits for this from outside: the outcome of its
    /// assessment, or of a command.
    pub fn awaits(&self, i: usize, what: &Happening) -> (r: bool)
        requires
            self@.fits(),
        ensures
            r == (i < self@.phases.len() && ((self@.phases[i as int] is Assessing
                && what is Assessed) || (self@.phases[i as int] is Running && what is Exited))),
            r ==> self@.may_happen(i as int, *what),
    {
        if i >= self.phases.len() {
            return false;
        }
        match (&self.phases[i], what) {
            (Phase::Assessing, Happening::Assessed { .. }) => true,
            (Phase::Running { .. }, Happening::Exited(_)) => true,
            _ => false,
        }
    }

    /// Stops the run: no beam may start, and running commands are stopped.
    pub fn cancel(&mut self)
        ensures
            final(self)@ == (RunView { stopping: true, cancelled: true, ..old(self)@ }),
            old(self)@.sound() ==> final(self)@.sound(),
    {
        let ghost before = self@;
        self.stopping = true;
        self.cancelled = true;
        proof {
            if before.sound() {
                assert forall|i: int| 0 <= i < self@.phases.len() implies #[trigger] self@.in_order(
                    i,
                ) by {
                    assert(before.in_order(i));
                }
            }
        }
    }

    /// How each beam ended, as far as it did.
    pub fn statuses(&self) -> (r: Vec<Option<BeamStatus>>)
        ensures
            r@.len() == self@.outcomes.len(),
            forall|i: int|
                0 <= i < r@.len() ==> #[trigger] r@[i] == match self@.outcomes[i] {
                    Some(outcome) => Some(outcome.status),
                    None => None,
                },
    {
        let mut out: Vec<Option<BeamStatus>> = Vec::new();
        let mut i: usize = 0;
        while i < self.outcomes.len()
            invariant
                i <= self.outcomes@.len(),
                out@.len() == i,
                forall|k: int|
                    0 <= k < i ==> #[trigger] out@[k] == match self@.outcomes[k] {
                        Some(outcome) => Some(outcome.status),
                        None => None,
                    },
            decreases self.outcomes.len() - i,
        {
            let status = match &self.outcomes[i] {
                Some(outcome) => Some(outcome.status),
                None => None,
            };
            out.push(status);
            i += 1;
        }
        out
    }

    /// What everything that beam `i` needs contributes, in order; nothing
    /// where one has not ended well.
    pub fn contributions(&self, i: usize) -> (r: Option<Vec<Option<String>>>)
        requires
            self@.fits(),
            i < self@.needs.len(),
        ensures
            r is Some <==> needs_met(self@.needs[i as int], self@.outcomes),
            r matches Some(c) ==> c@.len() == self@.needs[i as int].len() && forall|j: int|
                0 <= j < c@.len() ==> #[trigger] c@[j] == self@.outcomes[
                self@.needs[i as int][j] as int]->Some_0.contribution,
    {
        let mut out: Vec<Option<String>> = Vec::new();
        let needs = &self.needs[i];
        assert(self@.needs[i as int] == needs@);
        let mut j: usize = 0;
        while j < needs.len()
            invariant
                j <= needs@.len(),
                self@.fits(),
                i < self@.needs.len(),
                self@.needs[i as int] == needs@,
                out@.len() == j,
                forall|k: int|
                    0 <= k < j ==> (self@.outcomes[#[trigger] needs@[k] as int] matches Some(o)
                        && o.status.satisfies()),
                forall|k: int|
                    0 <= k < j ==> #[trigger] out@[k] == self@.outcomes[
                    needs@[k] as int]->Some_0.contribution,
            decreases needs.len() - j,
        {
            assert(self@.needs[i as int][j as int] < self@.tasks.len());
            match &self.outcomes[needs[j]] {
                Some(outcome) => {
                    if !outcome.status.is_satisfied() {
                        assert(!needs_met(self@.needs[i as int], self@.outcomes)) by {
                            assert(self@.needs[i as int][j as int] == needs@[j as int]);
                        }
                        return None;
                    }
                    out.push(copy_outcome(outcome).contribution);
                },
                None => {
                    assert(!needs_met(self@.needs[i as int], self@.outcomes)) by {
                        assert(self@.needs[i as int][j as int] == needs@[j as int]);
                    }
                    return None;
                },
            }
            j += 1;
        }
        Some(out)
    }
}

/// What a beam's life depends on, from what rendering it gave.
pub open spec fn is_task(
    beam: BeamView,
    args: Seq<Seq<char>>,
    keep_going: bool,
    rendered: Result<RenderedView, ErrorView>,
    task: BeamTask,
) -> bool {
    &&& task.allow_failure == beam.allow_failure
    &&& task.keep_going == keep_going
    &&& match rendered {
        Ok(plan) => {
            &&& task.commands matches Ok(n) && n == plan.commands.len()
            &&& opt_view(task.static_contribution) == Some(
                fingerprint_of(
                    static_facts(
                        plan.commands,
                        plan.cwd,
                        plan.env,
                        args,
                        executor_word(beam.executor),
                    ),
                ),
            )
        },
        Err(error) => {
            &&& task.commands matches Err(text) && text@ == error.message
            &&& task.static_contribution is None
        },
    }
}

/// Renders a beam for a run: what its life depends on, and what it runs where
/// it renders. A beam that does not render fails once it starts, with the
/// error's message.
pub fn prepare(beam: &Beam, args: &Vec<String>, keep_going: bool, env: &Environment) -> (r: (
    BeamTask,
    Option<RenderedBeam>,
))
    ensures
        is_task(
            beam@,
            views(args@),
            keep_going,
            rendered_beam(beam@, views(args@), *env),
            r.0,
        ),
        match rendered_beam(beam@, views(args@), *env) {
            Ok(plan) => r.1 matches Some(b) && b@ == plan,
            Err(_) => r.1 is None,
        },
{
    match render(beam, args, env) {
        Ok(plan) => {
            let contribution = static_contribution(
                copy_strings(&plan.commands),
                plan.cwd.clone(),
                copy_pairs(&plan.env),
                copy_strings(args),
                executor_label(&beam.executor),
            );
            let task = BeamTask {
                allow_failure: beam.allow_failure,
                keep_going,
                commands: Ok(plan.commands.len()),
                static_contribution: Some(contribution),
            };
            assert(plan@.commands.len() == plan.commands@.len());
            (task, Some(plan))
        },
        Err(error) => (
            BeamTask {
                allow_failure: beam.allow_failure,
                keep_going,
                commands: Err(error.message),
                static_contribution: None,
            },
            None,
        ),
    }
}

/// The place among `places` of the beam called `name`, the last where several
/// are.
pub open spec fn place_in_run(p: ProjectView, places: Seq<usize>, name: Seq<char>) -> Option<usize>
    decreases places.len(),
{
    if places.len() == 0 {
        None
    } else if p.beams[places.last() as int].id == name {
        Some((places.len() - 1) as usize)
    } else {
        place_in_run(p, places.drop_last(), name)
    }
}

/// The places, within the run, of the first `n` entries of what a beam needs.
pub open spec fn needs_in_run(
    p: ProjectView,
    places: Seq<usize>,
    needs: Seq<(Seq<char>, crate::syntax::Span)>,
    n: int,
) -> Seq<usize>
    decreases n,
{
    if n <= 0 {
        Seq::empty()
    } else {
        match place_in_run(p, places, needs[n - 1].0) {
            Some(place) => needs_in_run(p, places, needs, n - 1).push(place),
            None => needs_in_run(p, places, needs, n - 1),
        }
    }
}

/// What each beam of a run needs, by place within the run.
pub open spec fn run_needs_of(p: ProjectView, places: Seq<usize>) -> Seq<Seq<usize>> {
    Seq::new(
        places.len(),
        |k: int|
            needs_in_run(
                p,
                places,
                p.beams[places[k] as int].needs,
                p.beams[places[k] as int].needs.len() as int,
            ),
    )
}

fn find_in_run(project: &Project, places: &Vec<usize>, name: &str) -> (r: Option<usize>)
    requires
        forall|k: int| 0 <= k < places@.len() ==> (#[trigger] places@[k]) < project.beams@.len(),
    ensures
        r == place_in_run(project@, places@, name@),
        r matches Some(k) ==> k < places@.len(),
{
    let mut i: usize = places.len();
    assert(places@.take(i as int) =~= places@);
    while i > 0
        invariant
            i <= places@.len(),
            forall|k: int|
                0 <= k < places@.len() ==> (#[trigger] places@[k]) < project.beams@.len(),
            place_in_run(project@, places@, name@) == place_in_run(
                project@,
                places@.take(i as int),
                name@,
            ),
        decreases i,
    {
        assert(places@.take(i as int).drop_last() =~= places@.take(i - 1));
        assert(places@.take(i as int).last() == places@[i - 1]);
        i -= 1;
        let place = places[i];
        assert(project@.beams[place as int] == project.beams@[place as int]@);
        if same_text(project.beams[place].id.0.as_str(), name) {
            return Some(i);
        }
    }
    None
}

/// What each beam of a run needs, by place within the run. `places` are those
/// of the run's beams in the project.
pub fn run_needs(project: &Project, places: &Vec<usize>) -> (r: Vec<Vec<usize>>)
    requires
        forall|k: int| 0 <= k < places@.len() ==> (#[trigger] places@[k]) < project.beams@.len(),
    ensures
        need_lists(r@) == run_needs_of(project@, places@),
        r@.len() == places@.len(),
        forall|i: int, j: int|
            0 <= i < r@.len() && 0 <= j < r@[i]@.len() ==> (#[trigger] r@[i]@[j]) < places@.len(),
{
    let mut out: Vec<Vec<usize>> = Vec::new();
    let mut k: usize = 0;
    while k < places.len()
        invariant
            k <= places@.len(),
            forall|k: int|
                0 <= k < places@.len() ==> (#[trigger] places@[k]) < project.beams@.len(),
            out@.len() == k,
            forall|i: int|
                0 <= i < k ==> (#[trigger] out@[i])@ == run_needs_of(project@, places@)[i],
            forall|i: int, j: int|
                0 <= i < out@.len() && 0 <= j < out@[i]@.len() ==> (#[trigger] out@[i]@[j])
                    < places@.len(),
        decreases places.len() - k,
    {
        let beam = &project.beams[places[k]];
        assert(project@.beams[places@[k as int] as int] == beam@);
        assert(beam@.needs.len() == beam.needs@.len());
        let mut list: Vec<usize> = Vec::new();
        let mut j: usize = 0;
        while j < beam.needs.len()
            invariant
                j <= beam.needs@.len(),
                forall|k: int|
                    0 <= k < places@.len() ==> (#[trigger] places@[k]) < project.beams@.len(),
                list@ == needs_in_run(project@, places@, beam@.needs, j as int),
                forall|m: int| 0 <= m < list@.len() ==> (#[trigger] list@[m]) < places@.len(),
            decreases beam.needs.len() - j,
        {
            assert(beam@.needs[j as int].0 == beam.needs@[j as int].value@);
            if let Some(place) = find_in_run(project, places, beam.needs[j].value.0.as_str()) {
                list.push(place);
            }
            j += 1;
        }
        out.push(list);
        k += 1;
    }
    assert(need_lists(out@) =~= run_needs_of(project@, places@));
    out
}

/// Needs can be ranked: every beam ranks above all that it needs.
pub open spec fn ranked(run: RunView, rank: Seq<int>) -> bool {
    &&& rank.len() == run.needs.len()
    &&& forall|i: int, j: int|
        0 <= i < run.needs.len() && 0 <= j < run.needs[i].len() ==> 0 <= rank[
        #[trigger] run.needs[i][j] as int] < rank[i]
}

/// A run never stalls: as long as a beam is not done, something can happen
/// from within, or a beam is in a slot and what it waits for comes from
/// outside.
pub proof fn a_run_never_stalls(run: RunView, rank: Seq<int>)
    requires
        run.sound(),
        ranked(run, rank),
        !run.all_done(),
    ensures
        exists|i: int|
            0 <= i < run.phases.len() && (#[trigger] run.ready(i) is Some || in_slot(
                run.phases[i],
            )),
{
    if forall|i: int|
        0 <= i < run.phases.len() ==> !(#[trigger] run.ready(i) is Some || in_slot(run.phases[i])) {
        in_slots_counts(run.phases);
        if run.taken > 0 {
            let i = choose|i: int| 0 <= i < run.phases.len() && in_slot(#[trigger] run.phases[i]);
            assert(!(run.ready(i) is Some || in_slot(run.phases[i])));
        }
        let i = choose|i: int| 0 <= i < run.phases.len() && !(#[trigger] run.phases[i] is Done);
        is_done(run, rank, i);
    }
}

/// Where nothing can happen and no slot is taken, every beam is done.
proof fn is_done(run: RunView, rank: Seq<int>, i: int)
    requires
        run.sound(),
        ranked(run, rank),
        run.taken == 0,
        0 <= i < run.phases.len(),
        forall|k: int|
            0 <= k < run.phases.len() ==> !(#[trigger] run.ready(k) is Some || in_slot(
                run.phases[k],
            )),
    ensures
        run.phases[i] is Done,
    decreases rank[i],
{
    if !(run.phases[i] is Done) {
        assert(!(run.ready(i) is Some || in_slot(run.phases[i])));
        assert(run.phases[i] is Waiting);
        verdict_means(run.needs[i], run.outcomes);
        let j = choose|j: int|
            0 <= j < run.needs[i].len() && run.outcomes[#[trigger] run.needs[i][j] as int] is None;
        let n = run.needs[i][j] as int;
        assert(run.phases[n] is Done <==> run.outcomes[n] is Some);
        is_done(run, rank, n);
    }
}

/// Once a run is stopping, no beam takes a slot any more.
pub proof fn nothing_starts_once_stopping(run: RunView, i: int, what: Happening)
    requires
        run.sound(),
        run.stopping,
        run.may_happen(i, what),
    ensures
        in_slot(run.after(i, what).phases[i]) ==> in_slot(run.phases[i]),
        run.after(i, what).stopping,
{
    steps_publish(run.tasks[i], run.phases[i], what, run.stopping, run.cancelled);
}

/// A beam is in a slot, or has run, only after everything it needs has ended
/// well, and no more beams are in slots than there are.
pub proof fn beams_run_in_order_and_within_the_slots(run: RunView, i: int)
    requires
        run.sound(),
        0 <= i < run.phases.len(),
    ensures
        in_slots(run.phases) <= run.slots,
        in_slot(run.phases[i]) || (run.outcomes[i] matches Some(o) && !(o.status is Cancelled))
            ==> needs_met(run.needs[i], run.outcomes),
{
    assert(run.in_order(i));
    assert(run.phases[i] is Done <==> run.outcomes[i] is Some);
}

} // verus!
