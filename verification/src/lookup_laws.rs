//! When a graph is refused, what is suggested, and how paths are looked up
//! and shown.

use vstd::prelude::*;
use crate::error::{result_view, CoreError};
use crate::eval::with_suggestion;
use crate::files::{output_query, unified, unify, OutputQuery};
use crate::graph::{
    beam_needs_verdict, default_verdict, graph_verdict, need_verdict, place_of, search_from,
    validate_graph,
};
use crate::graph_laws::{
    a_reported_cycle_is_a_cycle, a_valid_graph_has_no_cycle, checked_needs_exist, distinct_beams,
    is_cycle, needs_exist,
};
use crate::model::{Project, ProjectView};
use crate::paths::{below, components, is_absolute};
use crate::paths_laws::{joining_adds_components, what_is_below_has_the_other_components};
use crate::project::collect;
use crate::project_root::{display_paths, relative_to, Reported};
use crate::render_laws::collect_fails_where_one_does;
use crate::suggest::{closer, edit_distance, is_closest, names_of, suggest};
use crate::text::{opt_view, text_lt, text_lt_total, text_lt_transitive, views};

verus! {

proof fn needs_are_checked(p: ProjectView)
    ensures
        collect(p.beams.len(), beam_needs_verdict(p)) is Ok <==> needs_exist(p),
{
    let f = beam_needs_verdict(p);
    collect_fails_where_one_does(p.beams.len(), f);
    if collect(p.beams.len(), f) is Ok {
        checked_needs_exist(p);
    }
    if needs_exist(p) {
        assert forall|i: int| 0 <= i < p.beams.len() implies (#[trigger] f(i)) is Ok by {
            let g = need_verdict(p, i);
            collect_fails_where_one_does(p.beams[i].needs.len(), g);
            assert forall|j: int| 0 <= j < p.beams[i].needs.len() implies (#[trigger] g(j)) is Ok by {
                assert(place_of(p.beams, p.beams[i].needs[j].0) is Some);
            }
        }
    }
}

/// A graph is valid exactly where everything that a beam needs is a beam, so
/// is the default where there is one, and no beam needs itself, directly or
/// through others.
pub proof fn a_graph_is_valid_where_it_can_be_run(project: &Project, r: Result<(), CoreError>)
    requires
        call_ensures(validate_graph, (project,), r),
        distinct_beams(project@),
    ensures
        r is Ok <==> {
            &&& forall|i: int, j: int|
                0 <= i < project@.beams.len() && 0 <= j < project@.beams[i].needs.len()
                    ==> place_of(
                    project@.beams,
                    (#[trigger] project@.beams[i].needs[j]).0,
                ) is Some
            &&& project@.default matches Some(d) ==> place_of(project@.beams, d.0) is Some
            &&& forall|w: Seq<Seq<char>>| !#[trigger] is_cycle(project@, w)
        },
{
    let p = project@;
    let f = |u: ()| u;
    assert(result_view(r, f) is Ok <==> r is Ok);
    needs_are_checked(p);
    if graph_verdict(p) is Ok {
        assert forall|w: Seq<Seq<char>>| !#[trigger] is_cycle(p, w) by {
            a_valid_graph_has_no_cycle(p, w);
        }
    } else if needs_exist(p) && default_verdict(p) is Ok {
        assert(search_from(p, Seq::empty(), 0) is Err);
        let w = a_reported_cycle_is_a_cycle(p);
        assert(is_cycle(p, w));
    }
}

proof fn one_is_closest(name: Seq<char>, all: Seq<&str>) -> (c: Seq<char>)
    requires
        all.len() > 0,
    ensures
        names_of(all).contains(c),
        forall|d: Seq<char>| #[trigger] names_of(all).contains(d) ==> d == c || closer(name, c, d),
    decreases all.len(),
{
    let front = all.drop_last();
    let last = all.last()@;
    assert(all[all.len() - 1]@ == last);
    if front.len() == 0 {
        assert forall|d: Seq<char>| #[trigger] names_of(all).contains(d) implies d == last || closer(
            name,
            last,
            d,
        ) by {
            let i = choose|i: int| 0 <= i < all.len() && (#[trigger] all[i])@ == d;
            assert(i == 0);
        }
        last
    } else {
        let c = one_is_closest(name, front);
        let i = choose|i: int| 0 <= i < front.len() && (#[trigger] front[i])@ == c;
        assert(all[i]@ == c);
        text_lt_total(c, last);
        let best = if c == last || closer(name, c, last) {
            c
        } else {
            last
        };
        assert forall|d: Seq<char>| #[trigger] names_of(all).contains(d) implies d == best || closer(
            name,
            best,
            d,
        ) by {
            let j = choose|j: int| 0 <= j < all.len() && (#[trigger] all[j])@ == d;
            if j < front.len() {
                assert(front[j]@ == d);
                assert(names_of(front).contains(d));
                if best == last && d != last {
                    if d != c {
                        if text_lt(last, c) && text_lt(c, d) {
                            text_lt_transitive(last, c, d);
                        }
                    }
                }
            }
        }
        best
    }
}

/// What is suggested for a name is one of the candidates, no more than two
/// edits away, and no candidate is fewer; something is suggested exactly
/// where there is such a candidate.
pub proof fn a_suggestion_is_the_closest_candidate<'a>(
    name: &str,
    candidates: &[&'a str],
    r: Option<&'a str>,
)
    requires
        call_ensures(suggest, (name, candidates), r),
    ensures
        r is Some <==> exists|i: int|
            0 <= i < candidates@.len() && edit_distance(name@, (#[trigger] candidates@[i])@) <= 2,
        r matches Some(c) ==> {
            &&& exists|i: int| 0 <= i < candidates@.len() && (#[trigger] candidates@[i])@ == c@
            &&& forall|i: int|
                0 <= i < candidates@.len() ==> edit_distance(name@, c@) <= edit_distance(
                    name@,
                    (#[trigger] candidates@[i])@,
                )
        },
{
    let all = names_of(candidates@);
    if let Some(c) = r {
        let best = choose|c: Seq<char>| is_closest(name@, all, c);
        assert(best == c@);
        let i = choose|i: int| 0 <= i < candidates@.len() && (#[trigger] candidates@[i])@ == c@;
        assert(edit_distance(name@, candidates@[i]@) <= 2);
        assert forall|i: int| 0 <= i < candidates@.len() implies edit_distance(name@, c@)
            <= edit_distance(name@, (#[trigger] candidates@[i])@) by {
            assert(all.contains(candidates@[i]@));
        }
    } else if exists|i: int|
        0 <= i < candidates@.len() && edit_distance(name@, (#[trigger] candidates@[i])@) <= 2 {
        let i = choose|i: int|
            0 <= i < candidates@.len() && edit_distance(name@, (#[trigger] candidates@[i])@) <= 2;
        let c = one_is_closest(name@, candidates@);
        assert(all.contains(candidates@[i]@));
        assert(c == candidates@[i]@ || closer(name@, c, candidates@[i]@));
        assert(is_closest(name@, all, c));
    }
}

/// An error about a name is helped with the suggestion for it, where there is
/// one, and left as it is where there is none.
pub proof fn an_error_is_helped_with_the_suggestion<'a>(
    error: CoreError,
    name: &str,
    candidates: &[&'a str],
    r: CoreError,
    s: Option<&'a str>,
)
    requires
        call_ensures(with_suggestion, (error, name, candidates), r),
        call_ensures(suggest, (name, candidates), s),
    ensures
        s matches Some(c) ==> opt_view(r.help) == Some("did you mean `"@ + c@ + "`?"@),
        s is None ==> opt_view(r.help) == opt_view(error.help),
        r.message@ == error.message@,
        r.span == error.span,
        r.source_id == error.source_id,
{
}

/// A path with `/` separators has them in place of `\`, and is otherwise as
/// it was.
pub proof fn separators_are_unified(relative: &str, r: String, i: int)
    requires
        call_ensures(unify, (relative,), r),
        0 <= i < relative@.len(),
    ensures
        r@.len() == relative@.len(),
        relative@[i] == '\\' ==> r@[i] == '/',
        relative@[i] != '\\' ==> r@[i] == relative@[i],
{
}

/// An output is looked for below its beam's directory: any match where its
/// pattern has a glob's characters, and else the path itself.
pub proof fn an_output_is_looked_for_below_its_beam(
    base: &str,
    pattern: &str,
    r: OutputQuery,
)
    requires
        call_ensures(output_query, (base, pattern), r),
        base@.len() > 0,
    ensures
        r is AnyMatch <==> pattern@.contains('*') || pattern@.contains('?') || pattern@.contains('['),
        ({
            let path = match r {
                OutputQuery::AnyMatch(path) => path@,
                OutputQuery::Exists(path) => path@,
            };
            &&& is_absolute(pattern@) ==> path == pattern@
            &&& !is_absolute(pattern@) ==> components(path) == components(base@)
                + crate::paths_laws::names_of(pattern@)
        }),
{
    if !is_absolute(pattern@) {
        joining_adds_components(base@, pattern@);
    }
}

/// A path is shown from the project's root where it is below it, under
/// either of the root's spellings, and else as it is.
pub proof fn a_path_is_shown_from_the_root(
    root: &str,
    canonical_root: &Option<String>,
    path: &str,
    canonical: &Option<String>,
    r: String,
)
    requires
        call_ensures(relative_to, (root, canonical_root, path, canonical), r),
    ensures
        below(path@, root@) is Some ==> components(root@) + components(r@) == components(path@),
        below(path@, root@) is None ==> (*canonical_root matches Some(c) ==> (below(
            path@,
            c@,
        ) is Some ==> components(c@) + components(r@) == components(path@))),
        below(path@, root@) is None && *canonical_root is None ==> r@ == path@,
        below(path@, root@) is None ==> (*canonical_root matches Some(c) ==> (below(path@, c@) is None
            ==> (*canonical matches Some(d) ==> (below(d@, c@) is Some ==> components(c@)
            + components(r@) == components(d@))))),
{
    if below(path@, root@) is Some {
        what_is_below_has_the_other_components(path@, root@);
    } else if let Some(c) = *canonical_root {
        if below(path@, c@) is Some {
            what_is_below_has_the_other_components(path@, c@);
        } else if let Some(d) = *canonical {
            if below(d@, c@) is Some {
                what_is_below_has_the_other_components(d@, c@);
            }
        }
    }
}

/// Reported paths are shown in order and each once: every one as it is seen
/// from the root, with `/` separators, and no other.
pub proof fn reported_paths_are_shown_once(
    root: &str,
    canonical_root: &Option<String>,
    paths: &Vec<Reported>,
    r: Vec<String>,
)
    requires
        call_ensures(display_paths, (root, canonical_root, paths), r),
    ensures
        forall|i: int, j: int|
            0 <= i < j < r@.len() ==> text_lt((#[trigger] r@[i])@, (#[trigger] r@[j])@),
        forall|i: int, path: &str, one: String|
            0 <= i < paths@.len() && path@ == paths@[i].path@ && #[trigger] call_ensures(
                relative_to,
                (root, canonical_root, path, &paths@[i].canonical),
                one,
            ) ==> exists|k: int| 0 <= k < r@.len() && (#[trigger] r@[k])@ == unified(one@),
        paths@.len() == 0 ==> r@.len() == 0,
{
    let v = views(r@);
    assert(v.len() == r@.len());
    assert forall|i: int, j: int| 0 <= i < j < r@.len() implies text_lt(
        (#[trigger] r@[i])@,
        (#[trigger] r@[j])@,
    ) by {
        assert(v[i] == r@[i]@ && v[j] == r@[j]@);
    }
    assert forall|i: int, path: &str, one: String|
        0 <= i < paths@.len() && path@ == paths@[i].path@ && #[trigger] call_ensures(
            relative_to,
            (root, canonical_root, path, &paths@[i].canonical),
            one,
        ) implies exists|k: int| 0 <= k < r@.len() && (#[trigger] r@[k])@ == unified(one@) by {
        let shown = crate::project_root::display_path(
            root@,
            opt_view(*canonical_root),
            paths@[i],
        );
        assert(shown == unified(one@));
        assert(v.contains(shown));
        let k = choose|k: int| 0 <= k < v.len() && v[k] == shown;
        assert(r@[k]@ == unified(one@));
    }
    if paths@.len() == 0 && r@.len() > 0 {
        assert(crate::project_root::is_shown(root@, opt_view(*canonical_root), paths@, v[0]));
    }
}

} // verus!
