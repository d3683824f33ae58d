//! A run's summary holds every beam of the run once.

use vstd::prelude::*;
use crate::event::{BeamStatus, RunSummary};
use crate::graph::{id_views, place_of, place_of_is_last, reaches};
use crate::graph_laws::distinct_beams;
use crate::model::{BeamId, ProjectView};
use crate::plan::{ended_like, first_panicked, is_summary, needed_by_any, needed_by_one};

verus! {

/// Beam `i` ended with a status like `like`.
pub open spec fn ended_so(statuses: Seq<Option<BeamStatus>>, like: BeamStatus, i: int) -> bool {
    statuses[i] is Some && RunSummary::same_bucket(like, statuses[i]->Some_0)
}

/// `at` are the places of `part` in `whole`, in order.
pub open spec fn places_in(part: Seq<BeamId>, whole: Seq<BeamId>, at: Seq<int>) -> bool {
    &&& at.len() == part.len()
    &&& forall|k: int|
        0 <= k < at.len() ==> 0 <= #[trigger] at[k] < whole.len() && part[k] == whole[at[k]]
    &&& forall|j: int, k: int| #![trigger at[j], at[k]] 0 <= j < k < at.len() ==> at[j] < at[k]
}

/// `part` is in the order of `whole`.
pub open spec fn in_order(part: Seq<BeamId>, whole: Seq<BeamId>) -> bool {
    exists|at: Seq<int>| places_in(part, whole, at)
}

/// Beam `i` ended, and is in the list of those that ended like it.
pub open spec fn is_filed(
    ids: Seq<BeamId>,
    statuses: Seq<Option<BeamStatus>>,
    summary: RunSummary,
    i: int,
) -> bool {
    statuses[i] is Some && summary.bucket(statuses[i]->Some_0).contains(ids[i])
}

proof fn none_panicked(statuses: Seq<Option<BeamStatus>>, i: int)
    requires
        first_panicked(statuses) is None,
        0 <= i < statuses.len(),
    ensures
        statuses[i] is Some,
    decreases statuses.len(),
{
    if i < statuses.len() - 1 {
        none_panicked(statuses.drop_last(), i);
    }
}

/// The places of the beams that ended like `like`, of the first `n`.
proof fn places_of_bucket(
    ids: Seq<BeamId>,
    statuses: Seq<Option<BeamStatus>>,
    like: BeamStatus,
    n: int,
) -> (at: Seq<int>)
    requires
        0 <= n <= ids.len(),
        ids.len() == statuses.len(),
    ensures
        places_in(ended_like(ids, statuses, like, n), ids, at),
        forall|k: int| 0 <= k < at.len() ==> (#[trigger] at[k]) < n && ended_so(
            statuses,
            like,
            at[k],
        ),
        forall|i: int| 0 <= i < n && #[trigger] ended_so(statuses, like, i) ==> at.contains(i),
    decreases n,
{
    if n == 0 {
        Seq::empty()
    } else {
        let before = places_of_bucket(ids, statuses, like, n - 1);
        if ended_so(statuses, like, n - 1) {
            let at = before.push(n - 1);
            assert forall|i: int| 0 <= i < n && #[trigger] ended_so(
                statuses,
                like,
                i,
            ) implies at.contains(i) by {
                if i < n - 1 {
                    let k = choose|k: int| 0 <= k < before.len() && before[k] == i;
                    assert(at[k] == i);
                } else {
                    assert(at[before.len() as int] == i);
                }
            }
            at
        } else {
            before
        }
    }
}

/// Each list is in the run's order and holds beams of the run; every beam of
/// the run is in one of them; and where no two beams share a name, none is in
/// two lists or in one of them twice.
pub proof fn a_summary_holds_every_beam_once(
    ids: Seq<BeamId>,
    statuses: Seq<Option<BeamStatus>>,
    summary: RunSummary,
)
    requires
        is_summary(ids, statuses, summary),
    ensures
        forall|s: BeamStatus| in_order(#[trigger] summary.bucket(s), ids),
        forall|i: int|
            0 <= i < ids.len() ==> #[trigger] is_filed(ids, statuses, summary, i),
        ids.no_duplicates() ==> forall|s: BeamStatus, t: BeamStatus, id: BeamId|
            #![trigger summary.bucket(s).contains(id), summary.bucket(t).contains(id)]
            summary.bucket(s).contains(id) && summary.bucket(t).contains(id)
                ==> RunSummary::same_bucket(s, t),
        ids.no_duplicates() ==> forall|s: BeamStatus|
            (#[trigger] summary.bucket(s)).no_duplicates(),
{
    let n = ids.len() as int;
    assert forall|s: BeamStatus| in_order(#[trigger] summary.bucket(s), ids) by {
        let at = places_of_bucket(ids, statuses, s, n);
        assert(places_in(summary.bucket(s), ids, at));
    }
    assert forall|i: int| 0 <= i < ids.len() implies #[trigger] is_filed(
        ids,
        statuses,
        summary,
        i,
    ) by {
        none_panicked(statuses, i);
        let s = statuses[i]->Some_0;
        let at = places_of_bucket(ids, statuses, s, n);
        assert(ended_so(statuses, s, i));
        let k = choose|k: int| 0 <= k < at.len() && at[k] == i;
        assert(summary.bucket(s)[k] == ids[i]);
    }
    if ids.no_duplicates() {
        assert forall|s: BeamStatus, t: BeamStatus, id: BeamId|
            #![trigger summary.bucket(s).contains(id), summary.bucket(t).contains(id)]
            summary.bucket(s).contains(id) && summary.bucket(t).contains(
                id,
            ) implies RunSummary::same_bucket(s, t) by {
            let a = places_of_bucket(ids, statuses, s, n);
            let b = places_of_bucket(ids, statuses, t, n);
            let j = choose|j: int| 0 <= j < summary.bucket(s).len() && summary.bucket(s)[j] == id;
            let k = choose|k: int| 0 <= k < summary.bucket(t).len() && summary.bucket(t)[k] == id;
            assert(ids[a[j]] == ids[b[k]]);
            assert(ended_so(statuses, s, a[j]) && ended_so(statuses, t, b[k]));
        }
        assert forall|s: BeamStatus| (#[trigger] summary.bucket(s)).no_duplicates() by {
            let at = places_of_bucket(ids, statuses, s, n);
            let bucket = summary.bucket(s);
            assert forall|j: int, k: int|
                0 <= j < bucket.len() && 0 <= k < bucket.len() && j != k implies bucket[j]
                != bucket[k] by {
                if j < k {
                    assert(at[j] < at[k]);
                } else {
                    assert(at[k] < at[j]);
                }
            }
        }
    }
}

/// A beam is among those that the targets need exactly where one reaches it.
pub(crate) proof fn needed_by_any_are_reached(p: ProjectView, targets: Seq<Seq<char>>, n: int, i: int)
    requires
        0 <= n <= p.beams.len(),
    ensures
        needed_by_any(p, targets, n).contains(i) <==> 0 <= i < n && needed_by_one(p, targets, i),
        forall|k: int|
            0 <= k < needed_by_any(p, targets, n).len() ==> 0 <= #[trigger] needed_by_any(
                p,
                targets,
                n,
            )[k] < n,
    decreases n,
{
    if n > 0 {
        needed_by_any_are_reached(p, targets, n - 1, i);
        let before = needed_by_any(p, targets, n - 1);
        if before.contains(i) {
            let k = choose|k: int| 0 <= k < before.len() && before[k] == i;
            assert(before.push(n - 1)[k] == i);
        }
        assert(before.push(n - 1)[before.len() as int] == n - 1);
    }
}

/// The names of the beams that a run of some targets takes.
pub open spec fn run_names(p: ProjectView, targets: Seq<Seq<char>>) -> Seq<Seq<char>> {
    let places = needed_by_any(p, targets, p.beams.len() as int);
    Seq::new(places.len(), |k: int| p.beams[places[k]].id)
}

/// A beam of the project that one of the targets needs, directly or through
/// others, or that is one.
pub open spec fn is_needed(p: ProjectView, targets: Seq<Seq<char>>, name: Seq<char>) -> bool {
    (exists|k: int| 0 <= k < targets.len() && reaches(p, #[trigger] targets[k], name)) && place_of(
        p.beams,
        name,
    ) is Some
}

/// `at` are the places of the beams called `names`, in order.
pub open spec fn are_at(p: ProjectView, names: Seq<Seq<char>>, at: Seq<int>) -> bool {
    &&& at.len() == names.len()
    &&& forall|k: int|
        0 <= k < at.len() ==> 0 <= #[trigger] at[k] < p.beams.len() && names[k]
            == p.beams[at[k]].id
    &&& forall|j: int, k: int| #![trigger at[j], at[k]] 0 <= j < k < at.len() ==> at[j] < at[k]
}

pub open spec fn in_project_order(p: ProjectView, names: Seq<Seq<char>>) -> bool {
    exists|at: Seq<int>| are_at(p, names, at)
}

/// A run's summary holds the targets and the beams that they need, directly or
/// through others, and no other.
pub proof fn a_summary_holds_the_closure(
    p: ProjectView,
    targets: Seq<Seq<char>>,
    ids: Seq<BeamId>,
    statuses: Seq<Option<BeamStatus>>,
    summary: RunSummary,
    name: Seq<char>,
)
    requires
        is_summary(ids, statuses, summary),
        id_views(ids) == run_names(p, targets),
    ensures
        (exists|s: BeamStatus| id_views(#[trigger] summary.bucket(s)).contains(name)) <==> is_needed(
            p,
            targets,
            name,
        ),
{
    let n = ids.len() as int;
    let places = needed_by_any(p, targets, p.beams.len() as int);
    let all = p.beams.len() as int;
    assert(id_views(ids).len() == run_names(p, targets).len());
    assert(id_views(ids).len() == ids.len());
    assert(run_names(p, targets).len() == places.len());
    place_of_is_last(p.beams, name);
    a_summary_holds_every_beam_once(ids, statuses, summary);
    if exists|s: BeamStatus| id_views(#[trigger] summary.bucket(s)).contains(name) {
        let s = choose|s: BeamStatus| id_views(#[trigger] summary.bucket(s)).contains(name);
        let bucket = summary.bucket(s);
        let k = choose|k: int| 0 <= k < bucket.len() && id_views(bucket)[k] == name;
        let at = places_of_bucket(ids, statuses, s, n);
        assert(bucket[k] == ids[at[k]]);
        assert(id_views(ids)[at[k]] == name);
        assert(run_names(p, targets)[at[k]] == name);
        let i = places[at[k]];
        assert(places.contains(i));
        needed_by_any_are_reached(p, targets, all, i);
        assert(p.beams[i].id == name);
    }
    if is_needed(p, targets, name) {
        let i = place_of(p.beams, name)->Some_0;
        assert(needed_by_one(p, targets, i));
        needed_by_any_are_reached(p, targets, all, i);
        let k = choose|k: int| 0 <= k < places.len() && places[k] == i;
        assert(run_names(p, targets)[k] == name);
        assert(id_views(ids)[k] == name);
        assert(is_filed(ids, statuses, summary, k));
        let s = statuses[k]->Some_0;
        assert(summary.bucket(s).contains(ids[k]));
        let m = choose|m: int| 0 <= m < summary.bucket(s).len() && summary.bucket(s)[m] == ids[k];
        assert(id_views(summary.bucket(s))[m] == name);
    }
}

/// The beams of a run come in project order.
pub(crate) proof fn needed_come_in_order(p: ProjectView, targets: Seq<Seq<char>>, n: int, j: int, k: int)
    requires
        0 <= n <= p.beams.len(),
        0 <= j < k < needed_by_any(p, targets, n).len(),
    ensures
        needed_by_any(p, targets, n)[j] < needed_by_any(p, targets, n)[k],
    decreases n,
{
    let before = needed_by_any(p, targets, n - 1);
    if k < before.len() {
        needed_come_in_order(p, targets, n - 1, j, k);
    } else {
        needed_by_any_are_reached(p, targets, n - 1, before[j]);
        assert(needed_by_any(p, targets, n)[j] == before[j]);
    }
}

/// What a run's summary says, where no two beams of the project share a name:
/// its lists hold the targets and what they need, directly or through others,
/// and no other beam; none is in two lists or in one of them twice; and each
/// list is in project order.
pub proof fn a_summary_parts_the_closure(
    p: ProjectView,
    targets: Seq<Seq<char>>,
    ids: Seq<BeamId>,
    statuses: Seq<Option<BeamStatus>>,
    summary: RunSummary,
)
    requires
        distinct_beams(p),
        is_summary(ids, statuses, summary),
        id_views(ids) == run_names(p, targets),
    ensures
        forall|name: Seq<char>|
            (exists|s: BeamStatus| id_views(#[trigger] summary.bucket(s)).contains(name))
                <==> #[trigger] is_needed(p, targets, name),
        forall|s: BeamStatus, t: BeamStatus, id: BeamId|
            #![trigger summary.bucket(s).contains(id), summary.bucket(t).contains(id)]
            summary.bucket(s).contains(id) && summary.bucket(t).contains(id)
                ==> RunSummary::same_bucket(s, t),
        forall|s: BeamStatus| (#[trigger] summary.bucket(s)).no_duplicates(),
        forall|s: BeamStatus|
            in_project_order(p, id_views(#[trigger] summary.bucket(s))),
{
    let places = needed_by_any(p, targets, p.beams.len() as int);
    let n = ids.len() as int;
    assert(id_views(ids).len() == ids.len() && run_names(p, targets).len() == places.len());
    assert forall|j: int, k: int| 0 <= j < k < places.len() implies (#[trigger] places[j]) < (
    #[trigger] places[k]) by {
        needed_come_in_order(p, targets, p.beams.len() as int, j, k);
    }
    needed_by_any_are_reached(p, targets, p.beams.len() as int, 0);
    assert forall|j: int| 0 <= j < n implies (#[trigger] ids[j])@ == p.beams[places[j]].id by {
        assert(id_views(ids)[j] == run_names(p, targets)[j]);
    }
    assert forall|j: int, k: int| 0 <= j < n && 0 <= k < n && j != k implies ids[j] != ids[k] by {
        if j < k {
            assert(places[j] < places[k]);
            assert(p.beams[places[j]].id != p.beams[places[k]].id);
        } else {
            assert(places[k] < places[j]);
            assert(p.beams[places[k]].id != p.beams[places[j]].id);
        }
        assert(ids[j]@ != ids[k]@);
    }
    assert(ids.no_duplicates());
    a_summary_holds_every_beam_once(ids, statuses, summary);
    assert forall|name: Seq<char>|
        (exists|s: BeamStatus| id_views(#[trigger] summary.bucket(s)).contains(name))
            <==> #[trigger] is_needed(p, targets, name) by {
        a_summary_holds_the_closure(p, targets, ids, statuses, summary, name);
    }
    assert forall|s: BeamStatus| in_project_order(p, id_views(#[trigger] summary.bucket(s))) by {
        let bucket = summary.bucket(s);
        let at = places_of_bucket(ids, statuses, s, n);
        let own = Seq::new(at.len(), |k: int| places[at[k]]);
        assert(are_at(p, id_views(bucket), own)) by {
            assert forall|k: int| 0 <= k < own.len() implies 0 <= #[trigger] own[k] < p.beams.len()
                && id_views(bucket)[k] == p.beams[own[k]].id by {
                assert(0 <= at[k] < n && bucket[k] == ids[at[k]]);
                assert(ids[at[k]]@ == p.beams[places[at[k]]].id);
            }
            assert forall|j: int, k: int| #![trigger own[j], own[k]] 0 <= j < k < own.len() implies own[j]
                < own[k] by {
                assert(at[j] < at[k]);
                assert(places[at[j]] < places[at[k]]);
            }
        }
    }
}

} // verus!
