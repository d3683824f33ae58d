//! Which beams a run takes, and when a run is refused.

use vstd::prelude::*;
use crate::graph::{edge, id_views, is_walk, place_of, reaches};
use crate::json::edge_views;
use crate::model::{BeamId, Project, ProjectView};
use crate::plan::{
    as_ints, edges_at, edges_of, first_called, first_unplanned, first_with_parameters,
    first_without_plugin, ids_at, needed_by_any, plan, plan_all, planned, run_places, run_started,
    EngineError,
};
use crate::event::RunEvent;
use crate::schedule_laws::one_target_is_a_run_of_several;
use crate::summary_laws::{needed_by_any_are_reached, needed_come_in_order};
use crate::text::views;

verus! {

proof fn with_parameters_is_first(p: ProjectView, places: Seq<int>, target: Seq<char>)
    ensures
        first_with_parameters(p, places, target) is None <==> forall|k: int|
            0 <= k < places.len() && p.beams[#[trigger] places[k]].id != target
                ==> p.beams[places[k]].params.len() == 0,
    decreases places.len(),
{
    if places.len() > 0 {
        let rest = places.drop_first();
        with_parameters_is_first(p, rest, target);
        if first_with_parameters(p, places, target) is None {
            assert forall|k: int|
                0 <= k < places.len() && p.beams[#[trigger] places[k]].id != target implies p.beams[places[k]].params.len()
                == 0 by {
                if k > 0 {
                    assert(rest[k - 1] == places[k]);
                }
            }
        }
        if forall|k: int|
            0 <= k < places.len() && p.beams[#[trigger] places[k]].id != target
                ==> p.beams[places[k]].params.len() == 0 {
            assert(p.beams[places[0]].id != target ==> p.beams[places[0]].params.len() == 0);
            assert forall|k: int|
                0 <= k < rest.len() && p.beams[#[trigger] rest[k]].id != target implies p.beams[rest[k]].params.len()
                == 0 by {
                assert(rest[k] == places[k + 1]);
            }
        }
    }
}

proof fn called_is_first(p: ProjectView, places: Seq<int>, target: Seq<char>)
    ensures
        match first_called(p, places, target) {
            Some(i) => places.contains(i) && p.beams[i].id == target,
            None => forall|k: int| 0 <= k < places.len() ==> p.beams[#[trigger] places[k]].id != target,
        },
    decreases places.len(),
{
    if places.len() > 0 {
        let rest = places.drop_first();
        called_is_first(p, rest, target);
        if p.beams[places[0]].id == target {
            assert(places[0] == places[0]);
        } else if let Some(i) = first_called(p, rest, target) {
            let k = choose|k: int| 0 <= k < rest.len() && rest[k] == i;
            assert(places[k + 1] == i);
        } else {
            assert forall|k: int| 0 <= k < places.len() implies p.beams[#[trigger] places[k]].id
                != target by {
                if k > 0 {
                    assert(rest[k - 1] == places[k]);
                }
            }
        }
    }
}

proof fn without_plugin_is_first(p: ProjectView, places: Seq<int>, plugins: Seq<Seq<char>>)
    ensures
        first_without_plugin(p, places, plugins) is None <==> forall|k: int|
            0 <= k < places.len() && p.beams[#[trigger] places[k]].executor is Plugin
                ==> plugins.contains(p.beams[places[k]].executor->Plugin_name),
    decreases places.len(),
{
    if places.len() > 0 {
        let rest = places.drop_first();
        without_plugin_is_first(p, rest, plugins);
        if first_without_plugin(p, places, plugins) is None {
            assert forall|k: int|
                0 <= k < places.len() && p.beams[#[trigger] places[k]].executor is Plugin implies plugins.contains(
            p.beams[places[k]].executor->Plugin_name) by {
                if k > 0 {
                    assert(rest[k - 1] == places[k]);
                }
            }
        }
        if forall|k: int|
            0 <= k < places.len() && p.beams[#[trigger] places[k]].executor is Plugin
                ==> plugins.contains(p.beams[places[k]].executor->Plugin_name) {
            assert(p.beams[places[0]].executor is Plugin ==> plugins.contains(
                p.beams[places[0]].executor->Plugin_name,
            ));
            assert forall|k: int|
                0 <= k < rest.len() && p.beams[#[trigger] rest[k]].executor is Plugin implies plugins.contains(
            p.beams[rest[k]].executor->Plugin_name) by {
                assert(rest[k] == places[k + 1]);
            }
        }
    }
}

/// A beam of the project that a run for `target` can take: no container, no
/// plugin that is missing, and parameters only where it is the target.
pub open spec fn can_run(
    p: ProjectView,
    target: Seq<char>,
    given: nat,
    plugins: Seq<Seq<char>>,
    i: int,
) -> bool {
    let beam = p.beams[i];
    &&& !(beam.executor is Docker)
    &&& beam.executor is Plugin ==> plugins.contains(beam.executor->Plugin_name)
    &&& beam.params.len() == if beam.id == target {
        given
    } else {
        0
    }
}

/// The target is a beam, and every beam that it needs can be run.
pub open spec fn all_can_run(
    p: ProjectView,
    target: Seq<char>,
    given: nat,
    plugins: Seq<Seq<char>>,
) -> bool {
    place_of(p.beams, target) is Some && forall|i: int|
        0 <= i < p.beams.len() && reaches(p, target, (#[trigger] p.beams[i]).id) ==> can_run(
            p,
            target,
            given,
            plugins,
            i,
        )
}

proof fn a_plan_is_what_can_run(
    p: ProjectView,
    target: Seq<char>,
    given: nat,
    plugins: Seq<Seq<char>>,
)
    requires
        forall|i: int, j: int|
            0 <= i < j < p.beams.len() ==> (#[trigger] p.beams[i]).id != (#[trigger] p.beams[j]).id,
    ensures
        planned(p, target, given, plugins) is Ok <==> all_can_run(p, target, given, plugins),
{
    let places = run_places(p, target);
    let n = p.beams.len() as int;
    one_target_is_a_run_of_several(p, target);
    let one = seq![target];
    with_parameters_is_first(p, places, target);
    called_is_first(p, places, target);
    without_plugin_is_first(p, places, plugins);
    assert forall|i: int| places.contains(i) <==> 0 <= i < n && reaches(
        p,
        target,
        (#[trigger] p.beams[i]).id,
    ) by {
        needed_by_any_are_reached(p, one, n, i);
        if reaches(p, target, p.beams[i].id) {
            assert(reaches(p, one[0], p.beams[i].id));
        }
    }
    needed_by_any_are_reached(p, one, n, 0);
    assert forall|k: int| 0 <= k < places.len() implies 0 <= #[trigger] places[k] < n && reaches(
        p,
        target,
        p.beams[places[k]].id,
    ) by {
        assert(places.contains(places[k]));
        assert(p.beams[places[k]].id == p.beams[places[k]].id);
    }
    if planned(p, target, given, plugins) is Ok {
        assert forall|i: int|
            0 <= i < n && reaches(p, target, (#[trigger] p.beams[i]).id) implies can_run(
            p,
            target,
            given,
            plugins,
            i,
        ) by {
            assert(places.contains(i));
            let k = choose|k: int| 0 <= k < places.len() && places[k] == i;
            assert(!(p.beams[places[k]].executor is Docker));
            if p.beams[i].id == target {
                let j = first_called(p, places, target)->Some_0;
                assert(places.contains(j));
                if j < i {
                    assert(p.beams[j].id != p.beams[i].id);
                } else if i < j {
                    assert(p.beams[i].id != p.beams[j].id);
                }
            }
        }
    } else if place_of(p.beams, target) is Some {
        if forall|i: int|
            0 <= i < n && reaches(p, target, (#[trigger] p.beams[i]).id) ==> can_run(
                p,
                target,
                given,
                plugins,
                i,
            ) {
            assert forall|k: int| 0 <= k < places.len() implies can_run(
                p,
                target,
                given,
                plugins,
                #[trigger] places[k],
            ) by {
                let beam = p.beams[places[k]];
                assert(reaches(p, target, beam.id));
            }
            assert forall|k: int|
                0 <= k < places.len() && p.beams[#[trigger] places[k]].id != target implies p.beams[places[k]].params.len()
                == 0 by {
                assert(can_run(p, target, given, plugins, places[k]));
            }
            assert forall|k: int|
                0 <= k < places.len() && p.beams[#[trigger] places[k]].executor is Plugin implies plugins.contains(
            p.beams[places[k]].executor->Plugin_name) by {
                assert(can_run(p, target, given, plugins, places[k]));
            }
            assert forall|k: int| 0 <= k < places.len() implies !(p.beams[
            #[trigger] places[k]].executor is Docker) by {
                assert(can_run(p, target, given, plugins, places[k]));
            }
            if let Some(i) = first_called(p, places, target) {
                let k = choose|k: int| 0 <= k < places.len() && places[k] == i;
                assert(can_run(p, target, given, plugins, places[k]));
            }
        }
    }
}

/// A run is planned exactly where its target is a beam and every beam that it
/// needs can be run. It then takes the target and what it needs, directly or
/// through others, every one and no other, in project order.
pub proof fn a_run_takes_what_its_target_needs(
    project: &Project,
    target: &BeamId,
    params: &Vec<String>,
    plugins: &Vec<String>,
    r: Result<Vec<usize>, EngineError>,
)
    requires
        call_ensures(plan, (project, target, params, plugins), r),
        forall|i: int, j: int|
            0 <= i < j < project@.beams.len() ==> (#[trigger] project@.beams[i]).id != (
            #[trigger] project@.beams[j]).id,
    ensures
        r is Ok <==> all_can_run(project@, target@, params@.len(), views(plugins@)),
        r matches Ok(places) ==> {
            &&& forall|k: int|
                0 <= k < places@.len() ==> (#[trigger] places@[k]) < project@.beams.len()
                    && reaches(project@, target@, project@.beams[places@[k] as int].id)
            &&& forall|i: int|
                0 <= i < project@.beams.len() && reaches(
                    project@,
                    target@,
                    (#[trigger] project@.beams[i]).id,
                ) ==> exists|k: int| 0 <= k < places@.len() && #[trigger] places@[k] == i
            &&& forall|j: int, k: int|
                0 <= j < k < places@.len() ==> #[trigger] places@[j] < #[trigger] places@[k]
        },
{
    let p = project@;
    let n = p.beams.len() as int;
    a_plan_is_what_can_run(p, target@, params@.len(), views(plugins@));
    if let Ok(places) = r {
        let all = run_places(p, target@);
        let one = seq![target@];
        one_target_is_a_run_of_several(p, target@);
        assert(as_ints(places@) == all);
        assert forall|k: int| 0 <= k < places@.len() implies (#[trigger] places@[k]) < p.beams.len()
            && reaches(p, target@, p.beams[places@[k] as int].id) by {
            assert(as_ints(places@)[k] == places@[k] as int);
            needed_by_any_are_reached(p, one, n, all[k]);
            assert(all.contains(all[k]));
        }
        assert forall|i: int|
            0 <= i < n && reaches(p, target@, (#[trigger] p.beams[i]).id) implies exists|k: int|
            0 <= k < places@.len() && #[trigger] places@[k] == i by {
            assert(reaches(p, one[0], p.beams[i].id));
            needed_by_any_are_reached(p, one, n, i);
            let k = choose|k: int| 0 <= k < all.len() && all[k] == i;
            assert(as_ints(places@)[k] == places@[k] as int);
        }
        assert forall|j: int, k: int| 0 <= j < k < places@.len() implies #[trigger] places@[j]
            < #[trigger] places@[k] by {
            needed_come_in_order(p, one, n, j, k);
            assert(as_ints(places@)[j] == places@[j] as int);
            assert(as_ints(places@)[k] == places@[k] as int);
        }
    }
}

proof fn unplanned_is_first(
    p: ProjectView,
    targets: Seq<Seq<char>>,
    given: nat,
    plugins: Seq<Seq<char>>,
)
    ensures
        match first_unplanned(p, targets, given, plugins) {
            Some(i) => 0 <= i < targets.len() && planned(p, targets[i], given, plugins) is Err,
            None => forall|k: int|
                0 <= k < targets.len() ==> planned(p, #[trigger] targets[k], given, plugins) is Ok,
        },
    decreases targets.len(),
{
    if targets.len() > 0 {
        let front = targets.drop_last();
        unplanned_is_first(p, front, given, plugins);
        if first_unplanned(p, targets, given, plugins) is None {
            assert forall|k: int| 0 <= k < targets.len() implies planned(
                p,
                #[trigger] targets[k],
                given,
                plugins,
            ) is Ok by {
                if k < front.len() {
                    assert(front[k] == targets[k]);
                }
            }
        }
    }
}

/// A run of several targets is planned exactly where each of them could be by
/// itself, and takes what they take together.
pub proof fn a_run_of_several_takes_what_each_takes(
    project: &Project,
    targets: &Vec<BeamId>,
    params: &Vec<String>,
    plugins: &Vec<String>,
    r: Result<Vec<usize>, EngineError>,
)
    requires
        call_ensures(plan_all, (project, targets, params, plugins), r),
        forall|i: int, j: int|
            0 <= i < j < project@.beams.len() ==> (#[trigger] project@.beams[i]).id != (
            #[trigger] project@.beams[j]).id,
    ensures
        r is Ok <==> forall|k: int|
            0 <= k < targets@.len() ==> all_can_run(
                project@,
                (#[trigger] targets@[k])@,
                params@.len(),
                views(plugins@),
            ),
        r matches Ok(places) ==> forall|i: int|
            (exists|t: int| 0 <= t < places@.len() && #[trigger] places@[t] == i) <==> 0 <= i
                < project@.beams.len() && exists|k: int|
                0 <= k < targets@.len() && reaches(
                    project@,
                    (#[trigger] targets@[k])@,
                    #[trigger] project@.beams[i].id,
                ),
{
    let p = project@;
    let names = id_views(targets@);
    let n = p.beams.len() as int;
    unplanned_is_first(p, names, params@.len(), views(plugins@));
    assert(names.len() == targets@.len());
    assert forall|k: int| 0 <= k < targets@.len() implies planned(
        p,
        #[trigger] names[k],
        params@.len(),
        views(plugins@),
    ) is Ok == all_can_run(p, targets@[k]@, params@.len(), views(plugins@)) by {
        a_plan_is_what_can_run(p, names[k], params@.len(), views(plugins@));
    }
    if r is Err {
        let k = first_unplanned(p, names, params@.len(), views(plugins@))->Some_0;
        assert(!all_can_run(p, targets@[k]@, params@.len(), views(plugins@)));
    }
    if r is Ok {
        assert forall|k: int| 0 <= k < targets@.len() implies all_can_run(
            p,
            (#[trigger] targets@[k])@,
            params@.len(),
            views(plugins@),
        ) by {
            assert(planned(p, names[k], params@.len(), views(plugins@)) is Ok);
        }
        let places = r->Ok_0;
        assert forall|i: int|
            (exists|t: int| 0 <= t < places@.len() && #[trigger] places@[t] == i) <==> 0 <= i < n
                && exists|k: int|
                0 <= k < targets@.len() && reaches(
                    p,
                    (#[trigger] targets@[k])@,
                    #[trigger] p.beams[i].id,
                ) by {
            needed_by_any_are_reached(p, names, n, i);
            let all = needed_by_any(p, names, n);
            assert(as_ints(places@) == all);
            if exists|t: int| 0 <= t < places@.len() && #[trigger] places@[t] == i {
                let t = choose|t: int| 0 <= t < places@.len() && #[trigger] places@[t] == i;
                assert(as_ints(places@)[t] == i);
                assert(all.contains(i));
                let k = choose|k: int| 0 <= k < names.len() && reaches(p, #[trigger] names[k], p.beams[i].id);
                assert(targets@[k]@ == names[k]);
            }
            if 0 <= i < n && exists|k: int|
                0 <= k < targets@.len() && reaches(
                    p,
                    (#[trigger] targets@[k])@,
                    #[trigger] p.beams[i].id,
                ) {
                let k = choose|k: int|
                    0 <= k < targets@.len() && reaches(
                        p,
                        (#[trigger] targets@[k])@,
                        #[trigger] p.beams[i].id,
                    );
                assert(names[k] == targets@[k]@);
                let t = choose|t: int| 0 <= t < all.len() && all[t] == i;
                assert(as_ints(places@)[t] == places@[t] as int);
            }
        }
    }
}

/// What is announced of a run: its target, its beams in order, and a pair for
/// every need of every one of them.
pub proof fn a_run_is_announced_with_its_graph(
    project: &Project,
    target: &BeamId,
    places: &Vec<usize>,
    r: RunEvent,
)
    requires
        forall|k: int| 0 <= k < places@.len() ==> (#[trigger] places@[k]) < project@.beams.len(),
        call_ensures(run_started, (project, target, places), r),
    ensures
        r matches RunEvent::RunStarted { target: t, beams, edges } && {
            &&& t@ == target@
            &&& beams@.len() == places@.len()
            &&& forall|k: int|
                0 <= k < places@.len() ==> (#[trigger] beams@[k])@
                    == project@.beams[places@[k] as int].id
            &&& forall|a: Seq<char>, b: Seq<char>|
                edge_views(edges@).contains((a, b)) <==> #[trigger] needs_among(
                    project@,
                    places@,
                    a,
                    b,
                )
        },
{
    let p = project@;
    if let RunEvent::RunStarted { target: t, beams, edges } = r {
        let ints = as_ints(places@);
        assert(id_views(beams@).len() == beams@.len());
        assert forall|k: int| 0 <= k < places@.len() implies (#[trigger] beams@[k])@ == p.beams[
        places@[k] as int].id by {
            assert(id_views(beams@)[k] == ids_at(p, ints)[k]);
        }
        assert forall|a: Seq<char>, b: Seq<char>|
            edge_views(edges@).contains((a, b)) <==> #[trigger] needs_among(
                p,
                places@,
                a,
                b,
            ) by {
            edges_are_needs(p, ints, a, b);
            if needs_among(p, places@, a, b) {
                let (k, j) = choose|k: int, j: int|
                    0 <= k < places@.len() && p.beams[#[trigger] places@[k] as int].id == a && 0 <= j
                        < p.beams[places@[k] as int].needs.len() && (
                    #[trigger] p.beams[places@[k] as int].needs[j]).0 == b;
                assert(ints[k] == places@[k] as int);
                assert(p.beams[ints[k]].needs[j].0 == b);
            }
            if edges_at(p, ints).contains((a, b)) {
                let (k, j) = choose|k: int, j: int|
                    0 <= k < ints.len() && p.beams[#[trigger] ints[k]].id == a && 0 <= j
                        < p.beams[ints[k]].needs.len() && (#[trigger] p.beams[ints[k]].needs[j]).0 == b;
                assert(ints[k] == places@[k] as int);
                assert(p.beams[places@[k] as int].needs[j].0 == b);
            }
        }
    }
}

/// A beam at one of `places` is called `a` and needs `b`.
pub open spec fn needs_among(
    p: ProjectView,
    places: Seq<usize>,
    a: Seq<char>,
    b: Seq<char>,
) -> bool {
    exists|k: int, j: int|
        0 <= k < places.len() && p.beams[#[trigger] places[k] as int].id == a && 0 <= j < p.beams[
        places[k] as int].needs.len() && (#[trigger] p.beams[places[k] as int].needs[j]).0 == b
}

pub(crate) proof fn edges_are_needs(p: ProjectView, places: Seq<int>, a: Seq<char>, b: Seq<char>)
    ensures
        edges_at(p, places).contains((a, b)) <==> exists|k: int, j: int|
            0 <= k < places.len() && p.beams[#[trigger] places[k]].id == a && 0 <= j < p.beams[
            places[k]].needs.len() && (#[trigger] p.beams[places[k]].needs[j]).0 == b,
    decreases places.len(),
{
    if places.len() > 0 {
        let front = places.drop_last();
        let n = places.len() - 1;
        edges_are_needs(p, front, a, b);
        let before = edges_at(p, front);
        let own = edges_of(p.beams[places[n]]);
        let all = edges_at(p, places);
        assert(all == before + own);
        if all.contains((a, b)) {
            let t = choose|t: int| 0 <= t < all.len() && all[t] == (a, b);
            if t < before.len() {
                assert(before[t] == (a, b));
                let (k, j) = choose|k: int, j: int|
                    0 <= k < front.len() && p.beams[#[trigger] front[k]].id == a && 0 <= j < p.beams[
                    front[k]].needs.len() && (#[trigger] p.beams[front[k]].needs[j]).0 == b;
                assert(places[k] == front[k]);
                assert(p.beams[places[k]].needs[j].0 == b);
            } else {
                let j = t - before.len();
                assert(own[j] == (a, b));
                assert(p.beams[places[n]].needs[j].0 == b);
            }
        }
        if exists|k: int, j: int|
            0 <= k < places.len() && p.beams[#[trigger] places[k]].id == a && 0 <= j < p.beams[
            places[k]].needs.len() && (#[trigger] p.beams[places[k]].needs[j]).0 == b {
            let (k, j) = choose|k: int, j: int|
                0 <= k < places.len() && p.beams[#[trigger] places[k]].id == a && 0 <= j < p.beams[
                places[k]].needs.len() && (#[trigger] p.beams[places[k]].needs[j]).0 == b;
            if k < n {
                assert(front[k] == places[k]);
                assert(p.beams[front[k]].needs[j].0 == b);
                let t = choose|t: int| 0 <= t < before.len() && before[t] == (a, b);
                assert(all[t] == (a, b));
            } else {
                assert(own[j] == (a, b));
                assert(all[before.len() + j] == (a, b));
            }
        }
    }
}

/// A beam reaches itself, what it needs and what those reach, and nothing
/// else.
pub proof fn to_reach_is_to_need_step_by_step(p: ProjectView, a: Seq<char>, b: Seq<char>)
    ensures
        reaches(p, a, b) <==> a == b || exists|j: int|
            place_of(p.beams, a) is Some && 0 <= j < p.beams[place_of(
                p.beams,
                a,
            )->Some_0].needs.len() && reaches(
                p,
                (#[trigger] p.beams[place_of(p.beams, a)->Some_0].needs[j]).0,
                b,
            ),
{
    if reaches(p, a, b) && a != b {
        let w = choose|w: Seq<Seq<char>>| #[trigger] is_walk(p, w) && w[0] == a && w.last() == b;
        let rest = w.drop_first();
        assert(w.len() > 1);
        assert(edge(p, w[0], w[0int + 1]));
        assert forall|k: int| 0 <= k < rest.len() - 1 implies edge(
            p,
            #[trigger] rest[k],
            rest[k + 1],
        ) by {
            assert(edge(p, w[k + 1], w[k + 1 + 1]));
        }
        assert(is_walk(p, rest));
        let i = place_of(p.beams, a)->Some_0;
        let j = choose|j: int|
            0 <= j < p.beams[i].needs.len() && (#[trigger] p.beams[i].needs[j]).0 == w[1];
        assert(rest[0] == w[1] && rest.last() == b);
        assert(reaches(p, p.beams[i].needs[j].0, b));
    }
    if a == b {
        let w = seq![a];
        assert(is_walk(p, w));
        assert(w.last() == b);
    } else if exists|j: int|
        place_of(p.beams, a) is Some && 0 <= j < p.beams[place_of(p.beams, a)->Some_0].needs.len()
            && reaches(p, (#[trigger] p.beams[place_of(p.beams, a)->Some_0].needs[j]).0, b) {
        let i = place_of(p.beams, a)->Some_0;
        let j = choose|j: int|
            place_of(p.beams, a) is Some && 0 <= j < p.beams[place_of(p.beams, a)->Some_0].needs.len()
                && reaches(p, (#[trigger] p.beams[place_of(p.beams, a)->Some_0].needs[j]).0, b);
        let x = p.beams[i].needs[j].0;
        let w = choose|w: Seq<Seq<char>>| #[trigger] is_walk(p, w) && w[0] == x && w.last() == b;
        let longer = seq![a] + w;
        assert(edge(p, a, x));
        assert forall|k: int| 0 <= k < longer.len() - 1 implies edge(
            p,
            #[trigger] longer[k],
            longer[k + 1],
        ) by {
            if k > 0 {
                assert(longer[k] == w[k - 1] && longer[k + 1] == w[k - 1 + 1]);
                assert(edge(p, w[k - 1], w[k - 1 + 1]));
            } else {
                assert(longer[0] == a && longer[0int + 1] == x);
            }
        }
        assert(is_walk(p, longer));
        assert(longer[0] == a && longer.last() == b);
    }
}

} // verus!
