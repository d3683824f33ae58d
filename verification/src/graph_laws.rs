//! What a valid dependency graph promises.

use vstd::prelude::*;
use crate::error::ErrorView;
use crate::graph::{
    beam_needs_verdict, cycle_error, cycle_names, edge, enter, enter_needs, first_place,
    graph_verdict, is_walk, need_verdict, place_of, place_of_is_last, reaches, search_from,
};
use crate::model::ProjectView;
use crate::project::{collect, collect_gives_each};

verus! {

/// No two beams have one name.
pub open spec fn distinct_beams(p: ProjectView) -> bool {
    forall|i: int, j: int|
        0 <= i < j < p.beams.len() ==> (#[trigger] p.beams[i]).id != (#[trigger] p.beams[j]).id
}

/// Every `needs` entry names a beam.
pub open spec fn needs_exist(p: ProjectView) -> bool {
    forall|i: int, j: int|
        0 <= i < p.beams.len() && 0 <= j < p.beams[i].needs.len() ==> place_of(
            p.beams,
            (#[trigger] p.beams[i].needs[j]).0,
        ) is Some
}

/// What an entry needs comes before it.
pub open spec fn needs_first(p: ProjectView, order: Seq<Seq<char>>) -> bool {
    forall|k: int, y: Seq<char>|
        0 <= k < order.len() && #[trigger] edge(p, order[k], y) ==> order.take(k).contains(y)
}

/// A walk that ends where it began.
pub open spec fn is_cycle(p: ProjectView, w: Seq<Seq<char>>) -> bool {
    is_walk(p, w) && w.len() >= 2 && w[0] == w.last()
}

/// Different beams of the project, each needing the next.
spec fn is_path(p: ProjectView, path: Seq<Seq<char>>) -> bool {
    &&& path.no_duplicates()
    &&& forall|k: int| 0 <= k < path.len() ==> place_of(p.beams, #[trigger] path[k]) is Some
    &&& forall|k: int| 0 <= k < path.len() - 1 ==> edge(p, #[trigger] path[k], path[k + 1])
}

/// What the search gives back: an order, or the error for a cycle.
spec fn search_result(
    p: ProjectView,
    done: Seq<Seq<char>>,
    r: Result<Seq<Seq<char>>, ErrorView>,
) -> bool {
    match r {
        Ok(after) => {
            &&& needs_first(p, after)
            &&& done.len() <= after.len()
            &&& after.take(done.len() as int) == done
        },
        Err(x) => exists|path: Seq<Seq<char>>, i: int|
            #![trigger cycle_error(path, p.beams[i])]
            0 <= i < p.beams.len() && x == cycle_error(path, p.beams[i]) && is_cycle(
                p,
                cycle_names(path, p.beams[i].id),
            ),
    }
}

proof fn name_has_place(p: ProjectView, i: int)
    requires
        0 <= i < p.beams.len(),
        distinct_beams(p),
    ensures
        place_of(p.beams, p.beams[i].id) == Some(i),
{
    place_of_is_last(p.beams, p.beams[i].id);
}

pub proof fn first_place_holds(path: Seq<Seq<char>>, name: Seq<char>)
    requires
        path.contains(name),
    ensures
        0 <= first_place(path, name) < path.len(),
        path[first_place(path, name)] == name,
    decreases path.len(),
{
    if path[0] != name {
        let k = choose|k: int| 0 <= k < path.len() && path[k] == name;
        assert(path.drop_first()[k - 1] == name);
        first_place_holds(path.drop_first(), name);
    }
}

proof fn short_path(p: ProjectView, path: Seq<Seq<char>>, i: int)
    requires
        is_path(p, path),
        0 <= i < p.beams.len(),
        !path.contains(p.beams[i].id),
    ensures
        path.len() < p.beams.len(),
{
    let places = Seq::new(
        path.len() + 1,
        |k: int| if k < path.len() { place_of(p.beams, path[k])->Some_0 } else { i },
    );
    assert forall|k: int| 0 <= k < path.len() implies 0 <= #[trigger] places[k] < p.beams.len()
        && p.beams[places[k]].id == path[k] by {
        place_of_is_last(p.beams, path[k]);
    }
    assert(places.no_duplicates()) by {
        assert forall|a: int, b: int| 0 <= a < places.len() && 0 <= b < places.len() && a != b implies places[a]
            != places[b] by {
            if a < path.len() && b < path.len() {
                assert(path[a] != path[b]);
            } else if a < path.len() {
                assert(path.contains(path[a]));
            } else {
                assert(path.contains(path[b]));
            }
        }
    }
    places.unique_seq_to_set();
    let range = vstd::set_lib::set_int_range(0, p.beams.len() as int);
    vstd::set_lib::lemma_int_range(0, p.beams.len() as int);
    assert(places.to_set().subset_of(range));
    vstd::set_lib::lemma_len_subset(places.to_set(), range);
}

proof fn longer_order(p: ProjectView, order: Seq<Seq<char>>, i: int)
    requires
        distinct_beams(p),
        0 <= i < p.beams.len(),
        needs_first(p, order),
        forall|j: int|
            0 <= j < p.beams[i].needs.len() ==> order.contains((#[trigger] p.beams[i].needs[j]).0),
    ensures
        needs_first(p, order.push(p.beams[i].id)),
{
    name_has_place(p, i);
    let more = order.push(p.beams[i].id);
    assert forall|k: int, y: Seq<char>| 0 <= k < more.len() && #[trigger] edge(p, more[k], y) implies more.take(
        k,
    ).contains(y) by {
        if k < order.len() {
            assert(edge(p, order[k], y));
            assert(more.take(k) =~= order.take(k));
        } else {
            assert(more.take(k) =~= order);
        }
    }
}

proof fn search_enters(p: ProjectView, path: Seq<Seq<char>>, done: Seq<Seq<char>>, i: int)
    requires
        distinct_beams(p),
        needs_exist(p),
        is_path(p, path),
        needs_first(p, done),
        0 <= i < p.beams.len(),
        path.len() > 0 ==> edge(p, path.last(), p.beams[i].id),
    ensures
        search_result(p, done, enter(p, path, done, i)),
        enter(p, path, done, i) matches Ok(after) ==> after.contains(p.beams[i].id),
    decreases p.beams.len() - path.len(), 0int,
{
    let id = p.beams[i].id;
    name_has_place(p, i);
    if path.contains(id) {
        first_place_holds(path, id);
        let pos = first_place(path, id);
        let w = cycle_names(path, id);
        assert(w[0] == path[pos]);
        assert forall|k: int| 0 <= k < w.len() - 1 implies edge(p, #[trigger] w[k], w[k + 1]) by {
            assert(w[k] == path[pos + k]);
            if k < w.len() - 2 {
                assert(w[k + 1] == path[pos + k + 1]);
            } else {
                assert(w[k] == path.last());
            }
        }
        assert(is_cycle(p, w));
    } else if done.contains(id) {
        assert(done.take(done.len() as int) == done);
    } else {
        short_path(p, path, i);
        let pushed = path.push(id);
        assert(is_path(p, pushed)) by {
            assert forall|k: int| 0 <= k < pushed.len() - 1 implies edge(
                p,
                #[trigger] pushed[k],
                pushed[k + 1],
            ) by {
                if k < path.len() - 1 {
                    assert(edge(p, path[k], path[k + 1]));
                }
            }
            assert forall|k: int| 0 <= k < pushed.len() implies place_of(
                p.beams,
                #[trigger] pushed[k],
            ) is Some by {
                if k < path.len() {
                    assert(place_of(p.beams, path[k]) is Some);
                }
            }
        }
        search_enters_needs(p, pushed, done, i, 0);
        match enter_needs(p, pushed, done, p.beams[i].needs, 0) {
            Ok(after) => {
                longer_order(p, after, i);
                let more = after.push(id);
                assert(more[after.len() as int] == id);
                assert(more.take(done.len() as int) =~= after.take(done.len() as int));
            },
            Err(_) => {},
        }
    }
}

proof fn search_enters_needs(
    p: ProjectView,
    path: Seq<Seq<char>>,
    done: Seq<Seq<char>>,
    i: int,
    k: int,
)
    requires
        distinct_beams(p),
        needs_exist(p),
        is_path(p, path),
        path.len() > 0,
        0 <= i < p.beams.len(),
        path.last() == p.beams[i].id,
        needs_first(p, done),
        0 <= k <= p.beams[i].needs.len(),
        forall|j: int| 0 <= j < k ==> done.contains((#[trigger] p.beams[i].needs[j]).0),
    ensures
        search_result(p, done, enter_needs(p, path, done, p.beams[i].needs, k)),
        enter_needs(p, path, done, p.beams[i].needs, k) matches Ok(after) ==> forall|j: int|
            0 <= j < p.beams[i].needs.len() ==> after.contains((#[trigger] p.beams[i].needs[j]).0),
    decreases p.beams.len() - path.len(), p.beams[i].needs.len() - k + 1,
{
    let needs = p.beams[i].needs;
    if k >= needs.len() {
        assert(done.take(done.len() as int) == done);
    } else {
        let place = place_of(p.beams, p.beams[i].needs[k].0)->Some_0;
        place_of_is_last(p.beams, needs[k].0);
        name_has_place(p, i);
        assert(edge(p, path.last(), p.beams[place].id));
        search_enters(p, path, done, place);
        match enter(p, path, done, place) {
            Err(_) => {},
            Ok(after) => {
                assert forall|j: int| 0 <= j < k + 1 implies after.contains(
                    (#[trigger] p.beams[i].needs[j]).0,
                ) by {
                    if j < k {
                        let t = choose|t: int| 0 <= t < done.len() && done[t] == needs[j].0;
                        assert(after.take(done.len() as int)[t] == after[t]);
                    }
                }
                search_enters_needs(p, path, after, i, k + 1);
                match enter_needs(p, path, after, needs, k + 1) {
                    Ok(last) => {
                        assert(last.take(done.len() as int) =~= last.take(
                            after.len() as int,
                        ).take(done.len() as int));
                    },
                    Err(_) => {},
                }
            },
        }
    }
}

proof fn search_goes_on(p: ProjectView, done: Seq<Seq<char>>, i: int)
    requires
        distinct_beams(p),
        needs_exist(p),
        needs_first(p, done),
        0 <= i <= p.beams.len(),
        forall|j: int| 0 <= j < i ==> done.contains((#[trigger] p.beams[j]).id),
    ensures
        search_result(p, done, search_from(p, done, i)),
        search_from(p, done, i) matches Ok(after) ==> forall|j: int|
            0 <= j < p.beams.len() ==> after.contains((#[trigger] p.beams[j]).id),
    decreases p.beams.len() - i,
{
    if i >= p.beams.len() {
        assert(done.take(done.len() as int) == done);
    } else {
        assert(is_path(p, Seq::empty()));
        search_enters(p, Seq::empty(), done, i);
        match enter(p, Seq::empty(), done, i) {
            Err(_) => {},
            Ok(after) => {
                assert forall|j: int| 0 <= j < i + 1 implies after.contains(
                    (#[trigger] p.beams[j]).id,
                ) by {
                    if j < i {
                        let t = choose|t: int| 0 <= t < done.len() && done[t] == p.beams[j].id;
                        assert(after.take(done.len() as int)[t] == after[t]);
                    }
                }
                search_goes_on(p, after, i + 1);
                match search_from(p, after, i + 1) {
                    Ok(last) => {
                        assert(last.take(done.len() as int) =~= last.take(
                            after.len() as int,
                        ).take(done.len() as int));
                    },
                    Err(_) => {},
                }
            },
        }
    }
}

/// In a project whose `needs` passed the check, every entry names a beam.
pub proof fn checked_needs_exist(p: ProjectView)
    requires
        collect(p.beams.len(), beam_needs_verdict(p)) is Ok,
    ensures
        needs_exist(p),
{
    collect_gives_each(p.beams.len(), beam_needs_verdict(p));
    let all = collect(p.beams.len(), beam_needs_verdict(p))->Ok_0;
    assert forall|i: int, j: int| 0 <= i < p.beams.len() && 0 <= j < p.beams[i].needs.len() implies place_of(
        p.beams,
        (#[trigger] p.beams[i].needs[j]).0,
    ) is Some by {
        assert(beam_needs_verdict(p)(i) == Ok::<(), ErrorView>(all[i]));
        collect_gives_each(p.beams[i].needs.len(), need_verdict(p, i));
        let each = collect(p.beams[i].needs.len(), need_verdict(p, i))->Ok_0;
        assert(need_verdict(p, i)(j) == Ok::<(), ErrorView>(each[j]));
    }
}

/// The beams of a valid project can be ordered so that each comes after all
/// that it needs.
pub proof fn a_valid_graph_can_be_ordered(p: ProjectView) -> (order: Seq<Seq<char>>)
    requires
        distinct_beams(p),
        graph_verdict(p) is Ok,
    ensures
        needs_first(p, order),
        forall|i: int| 0 <= i < p.beams.len() ==> order.contains((#[trigger] p.beams[i]).id),
{
    checked_needs_exist(p);
    search_goes_on(p, Seq::empty(), 0);
    search_from(p, Seq::empty(), 0)->Ok_0
}

proof fn walks_go_back(p: ProjectView, order: Seq<Seq<char>>, w: Seq<Seq<char>>, k: int)
    requires
        needs_first(p, order),
        is_walk(p, w),
        w.len() >= 2,
        0 <= k < order.len(),
        order[k] == w[0],
    ensures
        order.take(k).contains(w.last()),
    decreases w.len(),
{
    assert(edge(p, w[0], w[0int + 1]));
    assert(edge(p, order[k], w[1]));
    assert(order.take(k).contains(w[1]));
    let j = choose|j: int| 0 <= j < k && order.take(k)[j] == w[1];
    if w.len() > 2 {
        let rest = w.drop_first();
        assert forall|t: int| 0 <= t < rest.len() - 1 implies edge(
            p,
            #[trigger] rest[t],
            rest[t + 1],
        ) by {
            assert(edge(p, w[t + 1], w[t + 1 + 1]));
        }
        walks_go_back(p, order, rest, j);
        let t = choose|t: int| 0 <= t < j && order.take(j)[t] == w.last();
        assert(order.take(k)[t] == w.last());
    }
}

/// In a valid project no beam needs itself, directly or through others.
pub proof fn a_valid_graph_has_no_cycle(p: ProjectView, w: Seq<Seq<char>>)
    requires
        distinct_beams(p),
        graph_verdict(p) is Ok,
    ensures
        !is_cycle(p, w),
{
    if is_cycle(p, w) {
        let order = a_valid_graph_can_be_ordered(p);
        assert(edge(p, w[0], w[0int + 1]));
        let i = place_of(p.beams, w[0])->Some_0;
        place_of_is_last(p.beams, w[0]);
        assert(order.contains(p.beams[i].id));
        let k = first_place(order, w[0]);
        first_place_holds(order, w[0]);
        walks_go_back(p, order, w, k);
        let t = choose|t: int| 0 <= t < k && order.take(k)[t] == w.last();
        assert(order[t] == w[0]);
        first_place_is_first(order, w[0], t);
    }
}

pub proof fn first_place_is_first(path: Seq<Seq<char>>, name: Seq<char>, t: int)
    requires
        0 <= t < path.len(),
        path[t] == name,
    ensures
        first_place(path, name) <= t,
    decreases path.len(),
{
    if path[0] != name {
        assert(path.drop_first()[t - 1] == name);
        first_place_is_first(path.drop_first(), name, t - 1);
    }
}

/// A cycle is reported only where there is one: where every name resolves
/// and yet the project is refused, the error spells a cycle.
pub proof fn a_reported_cycle_is_a_cycle(p: ProjectView) -> (w: Seq<Seq<char>>)
    requires
        distinct_beams(p),
        collect(p.beams.len(), beam_needs_verdict(p)) is Ok,
        search_from(p, Seq::empty(), 0) is Err,
    ensures
        is_cycle(p, w),
        search_from(p, Seq::empty(), 0)->Err_0.message == "dependency cycle: "@
            + crate::text::joined(w, " → "@),
{
    checked_needs_exist(p);
    search_goes_on(p, Seq::empty(), 0);
    let x = search_from(p, Seq::empty(), 0)->Err_0;
    let (path, i) = choose|path: Seq<Seq<char>>, i: int|
        #![trigger cycle_error(path, p.beams[i])]
        0 <= i < p.beams.len() && x == cycle_error(path, p.beams[i]) && is_cycle(
            p,
            cycle_names(path, p.beams[i].id),
        );
    cycle_names(path, p.beams[i].id)
}

/// What is needed by something that is needed is needed.
pub proof fn needing_is_transitive(p: ProjectView, a: Seq<char>, b: Seq<char>, c: Seq<char>)
    requires
        reaches(p, a, b),
        reaches(p, b, c),
    ensures
        reaches(p, a, c),
{
    let v = choose|v: Seq<Seq<char>>| #[trigger] is_walk(p, v) && v[0] == a && v.last() == b;
    let w = choose|w: Seq<Seq<char>>| #[trigger] is_walk(p, w) && w[0] == b && w.last() == c;
    let both = v + w.drop_first();
    assert forall|k: int| 0 <= k < both.len() - 1 implies edge(
        p,
        #[trigger] both[k],
        both[k + 1],
    ) by {
        if k < v.len() - 1 {
            assert(edge(p, v[k], v[k + 1]));
        } else {
            let t = k - (v.len() - 1);
            assert(both[k] == w[t]);
            assert(both[k + 1] == w[t + 1]);
            assert(edge(p, w[t], w[t + 1]));
        }
    }
    assert(is_walk(p, both));
    assert(both.last() == c) by {
        if w.len() == 1 {
            assert(both =~= v);
        } else {
            assert(both.last() == w.last());
        }
    }
}

} // verus!
