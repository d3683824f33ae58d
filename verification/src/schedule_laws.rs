//! A run of a valid project waits for everything that its beams need, never
//! stalls, and takes no more steps than its beams have.

use vstd::prelude::*;
use crate::beam_task::{BeamTask, Happening, Phase};
use crate::graph::{edge, first_place, graph_verdict, is_walk, place_of, place_of_is_last, reaches};
use crate::graph_laws::{
    a_valid_graph_can_be_ordered, checked_needs_exist, distinct_beams, first_place_holds,
    first_place_is_first, needing_is_transitive,
};
use crate::model::ProjectView;
use crate::plan::{as_ints, needed_by, needed_by_any, needed_by_one, run_places};
use crate::schedule::{
    a_run_never_stalls, in_slot, needs_in_run, place_in_run, ranked, run_needs_of, RunView,
};

verus! {

proof fn place_in_run_fits(p: ProjectView, places: Seq<usize>, name: Seq<char>)
    requires
        places.len() <= usize::MAX,
    ensures
        match place_in_run(p, places, name) {
            Some(k) => k < places.len() && p.beams[places[k as int] as int].id == name,
            None => forall|k: int|
                0 <= k < places.len() ==> p.beams[#[trigger] places[k] as int].id != name,
        },
    decreases places.len(),
{
    if places.len() > 0 {
        place_in_run_fits(p, places.drop_last(), name);
        if place_in_run(p, places, name) is None {
            assert forall|k: int| 0 <= k < places.len() implies p.beams[
            #[trigger] places[k] as int].id != name by {
                if k < places.len() - 1 {
                    assert(places.drop_last()[k] == places[k]);
                }
            }
        }
    }
}

/// Every beam that one of the targets needs is in the run.
proof fn reached_beams_run(p: ProjectView, targets: Seq<Seq<char>>, n: int, i: int)
    requires
        0 <= i < n,
        needed_by_one(p, targets, i),
    ensures
        needed_by_any(p, targets, n).contains(i),
    decreases n,
{
    if i < n - 1 {
        reached_beams_run(p, targets, n - 1, i);
        let before = needed_by_any(p, targets, n - 1);
        let k = choose|k: int| 0 <= k < before.len() && before[k] == i;
        assert(needed_by_any(p, targets, n)[k] == i);
    } else {
        let all = needed_by_any(p, targets, n);
        assert(all[all.len() - 1] == i);
    }
}

proof fn running_beams_are_reached(p: ProjectView, targets: Seq<Seq<char>>, n: int, k: int)
    requires
        0 <= k < needed_by_any(p, targets, n).len(),
        n <= p.beams.len(),
    ensures
        ({
            let i = needed_by_any(p, targets, n)[k];
            0 <= i < n && needed_by_one(p, targets, i)
        }),
    decreases n,
{
    let before = needed_by_any(p, targets, n - 1);
    if k < before.len() {
        running_beams_are_reached(p, targets, n - 1, k);
    }
}

/// A run of one beam takes what a run of several takes that has it alone.
pub proof fn one_target_is_a_run_of_several(p: ProjectView, target: Seq<char>)
    ensures
        run_places(p, target) == needed_by_any(p, seq![target], p.beams.len() as int),
{
    alone_is_as_several(p, target, p.beams.len() as int);
}

proof fn alone_is_as_several(p: ProjectView, target: Seq<char>, n: int)
    ensures
        needed_by(p, target, n) == needed_by_any(p, seq![target], n),
    decreases n,
{
    if n > 0 {
        alone_is_as_several(p, target, n - 1);
        if reaches(p, target, p.beams[n - 1].id) {
            assert(reaches(p, seq![target][0], p.beams[n - 1].id));
            assert(needed_by_one(p, seq![target], n - 1));
        }
    }
}

/// In a run of a valid project every entry of what a beam needs is a beam of
/// the run: nothing starts without waiting for all of it.
pub proof fn every_need_is_in_the_run(
    p: ProjectView,
    targets: Seq<Seq<char>>,
    places: Seq<usize>,
    k: int,
    j: int,
)
    requires
        distinct_beams(p),
        graph_verdict(p) is Ok,
        places.len() <= usize::MAX,
        as_ints(places) == needed_by_any(p, targets, p.beams.len() as int),
        0 <= k < places.len(),
        0 <= j < p.beams[places[k] as int].needs.len(),
    ensures
        place_in_run(p, places, p.beams[places[k] as int].needs[j].0) is Some,
{
    let all = needed_by_any(p, targets, p.beams.len() as int);
    let i = places[k] as int;
    assert(all[k] == i) by {
        assert(as_ints(places)[k] == places[k] as int);
    }
    running_beams_are_reached(p, targets, p.beams.len() as int, k);
    let name = p.beams[i].needs[j].0;
    checked_needs_exist(p);
    assert(place_of(p.beams, p.beams[i].needs[j].0) is Some);
    place_of_is_last(p.beams, name);
    place_of_is_last(p.beams, p.beams[i].id);
    let m = place_of(p.beams, name)->Some_0;
    assert(place_of(p.beams, p.beams[i].id) == Some(i)) by {
        let own = place_of(p.beams, p.beams[i].id)->Some_0;
        if own < i {
            assert(p.beams[own].id != p.beams[i].id);
        }
        if i < own {
            assert(p.beams[i].id != p.beams[own].id);
        }
    }
    assert(edge(p, p.beams[i].id, name));
    let w = seq![p.beams[i].id, name];
    assert(is_walk(p, w)) by {
        assert forall|t: int| 0 <= t < w.len() - 1 implies edge(p, #[trigger] w[t], w[t + 1]) by {}
    }
    assert(reaches(p, p.beams[i].id, name));
    let from = choose|from: int|
        0 <= from < targets.len() && reaches(p, #[trigger] targets[from], p.beams[i].id);
    needing_is_transitive(p, targets[from], p.beams[i].id, name);
    assert(p.beams[m].id == name);
    assert(needed_by_one(p, targets, m));
    reached_beams_run(p, targets, p.beams.len() as int, m);
    let t = choose|t: int| 0 <= t < all.len() && all[t] == m;
    assert(places[t] as int == m) by {
        assert(as_ints(places)[t] == places[t] as int);
    }
    place_in_run_fits(p, places, name);
}

/// Every place in a list of needs stands for an entry.
proof fn needs_stand_for_entries(
    p: ProjectView,
    places: Seq<usize>,
    needs: Seq<(Seq<char>, crate::syntax::Span)>,
    n: int,
    m: int,
)
    requires
        places.len() <= usize::MAX,
        0 <= n <= needs.len(),
        0 <= m < needs_in_run(p, places, needs, n).len(),
    ensures
        ({
            let place = needs_in_run(p, places, needs, n)[m];
            place < places.len() && exists|j: int|
                0 <= j < needs.len() && (#[trigger] needs[j]).0 == p.beams[
                places[place as int] as int].id
        }),
    decreases n,
{
    let before = needs_in_run(p, places, needs, n - 1);
    place_in_run_fits(p, places, needs[n - 1].0);
    if m < before.len() {
        needs_stand_for_entries(p, places, needs, n - 1, m);
    } else {
        assert(needs[n - 1].0 == needs[n - 1].0);
    }
}

/// The beams of a run of a valid project can be ranked above what they need.
proof fn a_run_is_ranked(run: RunView, p: ProjectView, targets: Seq<Seq<char>>, places: Seq<usize>) -> (rank:
    Seq<int>)
    requires
        distinct_beams(p),
        graph_verdict(p) is Ok,
        places.len() <= usize::MAX,
        as_ints(places) == needed_by_any(p, targets, p.beams.len() as int),
        run.fits(),
        run.needs == run_needs_of(p, places),
    ensures
        ranked(run, rank),
{
    let order = a_valid_graph_can_be_ordered(p);
    let rank = Seq::new(
        places.len(),
        |k: int| first_place(order, p.beams[places[k] as int].id),
    );
    assert forall|i: int, j: int|
        0 <= i < run.needs.len() && 0 <= j < run.needs[i].len() implies 0 <= rank[
    #[trigger] run.needs[i][j] as int] < rank[i] by {
        let beam = p.beams[places[i] as int];
        assert(as_ints(places)[i] == places[i] as int);
        running_beams_are_reached(p, targets, p.beams.len() as int, i);
        assert(run.needs[i] == needs_in_run(p, places, beam.needs, beam.needs.len() as int));
        needs_stand_for_entries(p, places, beam.needs, beam.needs.len() as int, j);
        let place = run.needs[i][j] as int;
        let name = p.beams[places[place] as int].id;
        let e = choose|e: int| 0 <= e < beam.needs.len() && (#[trigger] beam.needs[e]).0 == name;
        place_of_is_last(p.beams, beam.id);
        let own = place_of(p.beams, beam.id)->Some_0;
        let here = places[i] as int;
        assert(own == here) by {
            if own < here {
                assert(p.beams[own].id != p.beams[here].id);
            }
            if here < own {
                assert(p.beams[here].id != p.beams[own].id);
            }
        }
        assert(edge(p, beam.id, name)) by {
            assert(p.beams[own].needs[e].0 == name);
        }
        assert(order.contains(p.beams[here].id));
        first_place_holds(order, beam.id);
        let k = first_place(order, beam.id);
        assert(order[k] == beam.id);
        assert(order.take(k).contains(name));
        let t = choose|t: int| 0 <= t < k && order.take(k)[t] == name;
        assert(order[t] == name);
        first_place_is_first(order, name, t);
        first_place_holds(order, name);
    }
    rank
}

/// A run of a valid project never stalls: in every state that is not the
/// last, something can happen from within, or a beam is in a slot.
pub proof fn a_run_of_a_valid_project_never_stalls(
    run: RunView,
    p: ProjectView,
    targets: Seq<Seq<char>>,
    places: Seq<usize>,
)
    requires
        distinct_beams(p),
        graph_verdict(p) is Ok,
        places.len() <= usize::MAX,
        as_ints(places) == needed_by_any(p, targets, p.beams.len() as int),
        run.sound(),
        run.needs == run_needs_of(p, places),
        !run.all_done(),
    ensures
        exists|i: int|
            0 <= i < run.phases.len() && (#[trigger] run.ready(i) is Some || in_slot(
                run.phases[i],
            )),
{
    let rank = a_run_is_ranked(run, p, targets, places);
    a_run_never_stalls(run, rank);
}

/// How many steps a beam has left at most.
pub open spec fn steps_left(task: BeamTask, phase: Phase) -> int {
    let n = match task.commands {
        Ok(count) => count as int,
        Err(_) => 0,
    };
    match phase {
        Phase::Waiting => n + 3,
        Phase::Queued => n + 2,
        Phase::Assessing => n + 1,
        Phase::Running { command, .. } => if command < n {
            n - command
        } else {
            1
        },
        Phase::Done => 0,
    }
}

/// Whatever happens to a beam brings it closer to its end.
pub proof fn every_step_is_progress(run: RunView, i: int, what: Happening)
    requires
        run.sound(),
        run.may_happen(i, what),
    ensures
        0 <= steps_left(run.tasks[i], run.after(i, what).phases[i]) < steps_left(
            run.tasks[i],
            run.phases[i],
        ),
        forall|k: int|
            0 <= k < run.phases.len() && k != i ==> #[trigger] run.after(i, what).phases[k]
                == run.phases[k],
{
}

/// Once every beam is done nothing more happens, from within or from outside,
/// and how each ended is known: what is said then is said last.
pub proof fn nothing_follows_the_end(run: RunView, i: int, what: Happening)
    requires
        run.sound(),
        run.all_done(),
    ensures
        !run.may_happen(i, what),
        forall|k: int| 0 <= k < run.outcomes.len() ==> (#[trigger] run.outcomes[k]) is Some,
{
    assert(0 <= i < run.phases.len() ==> run.phases[i] is Done);
    assert forall|k: int| 0 <= k < run.outcomes.len() implies (
    #[trigger] run.outcomes[k]) is Some by {
        assert(run.phases[k] is Done);
    }
}

} // verus!
