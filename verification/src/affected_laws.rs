//! What it means that a change affects a beam.

use vstd::prelude::*;
use crate::affected::{
    affected, affected_names, beamfile_changed, dependents, depends_on_any, direct_names,
    directly_affected, from_root, group_patterns, input_hit, is_chain, needs_name,
    one_step_further, pattern_hit, select, source_path, takes_no_parameters, without_parameters,
    SelectError, Selection, Targets,
};
use crate::files::unified;
use crate::git::GitError;
use crate::globs::{compiling, compiling_compile, glob_matches, glob_refusal, set_builds};
use crate::graph::{edge, id_views, is_walk, place_of, place_of_is_last, reaches};
use crate::graph_laws::distinct_beams;
use crate::loader::{cwd_view, SourceMap};
use crate::model::{BeamId, Project, ProjectView};
use crate::paths::{below, components, is_absolute, joined_path, same_path};
use crate::paths_laws::{an_absolute_path_is_seen_from_the_directory, names_of};
use crate::text::views;

verus! {

/// What needs an affected beam, directly or through others, is affected.
pub proof fn what_needs_an_affected_beam_is_affected(
    p: ProjectView,
    direct: Set<Seq<char>>,
    a: Seq<char>,
    b: Seq<char>,
)
    requires
        reaches(p, a, b),
        depends_on_any(p, direct, b),
    ensures
        depends_on_any(p, direct, a),
{
    let w = choose|w: Seq<Seq<char>>| #[trigger] is_walk(p, w) && w[0] == a && w.last() == b;
    walk_back(p, direct, w);
}

proof fn walk_back(p: ProjectView, direct: Set<Seq<char>>, w: Seq<Seq<char>>)
    requires
        is_walk(p, w),
        depends_on_any(p, direct, w.last()),
    ensures
        depends_on_any(p, direct, w[0]),
    decreases w.len(),
{
    if w.len() > 1 {
        let rest = w.drop_first();
        assert forall|k: int| 0 <= k < rest.len() - 1 implies edge(
            p,
            #[trigger] rest[k],
            rest[k + 1],
        ) by {
            assert(edge(p, w[k + 1], w[k + 1 + 1]));
        }
        walk_back(p, direct, rest);
        assert(edge(p, w[0], w[0int + 1]));
        let i = place_of(p.beams, w[0])->Some_0;
        place_of_is_last(p.beams, w[0]);
        let j = choose|j: int|
            0 <= j < p.beams[i].needs.len() && (#[trigger] p.beams[i].needs[j]).0 == w[1];
        assert(p.beams[i].needs[j].0 == w[1]);
        assert(needs_name(p, w[0], w[1]));
        one_step_further(p, direct, w[0], w[1]);
    }
}

/// What a change touches is affected by it.
pub proof fn what_a_change_touches_is_affected(
    p: ProjectView,
    direct: Set<Seq<char>>,
    name: Seq<char>,
)
    requires
        direct.contains(name),
    ensures
        depends_on_any(p, direct, name),
{
    let w = seq![name];
    assert(is_chain(p, w));
    assert(w.last() == name);
}

/// Beam `i`, or a beam that it needs, directly or through others, is touched
/// by the change itself.
pub open spec fn touched_below(
    p: ProjectView,
    sources: Seq<(Seq<char>, Seq<char>)>,
    cwd: Result<Seq<char>, Seq<char>>,
    changed: Seq<Seq<char>>,
    i: int,
) -> bool {
    exists|c: int|
        0 <= c < p.beams.len() && reaches(p, p.beams[i].id, (#[trigger] p.beams[c]).id)
            && directly_affected(p, sources, cwd, changed, c)
}

/// Where no two beams share a name, a chain of names that need each other is
/// a walk through the beams.
proof fn a_chain_is_a_walk(p: ProjectView, w: Seq<Seq<char>>)
    requires
        distinct_beams(p),
        is_chain(p, w),
    ensures
        is_walk(p, w),
{
    assert forall|k: int| 0 <= k < w.len() - 1 implies edge(p, #[trigger] w[k], w[k + 1]) by {
        assert(needs_name(p, w[k], w[k + 1]));
        let (i, j) = choose|i: int, j: int|
            #![trigger p.beams[i].needs[j]]
            0 <= i < p.beams.len() && p.beams[i].id == w[k] && 0 <= j < p.beams[i].needs.len()
                && p.beams[i].needs[j].0 == w[k + 1];
        place_of_is_last(p.beams, w[k]);
        let own = place_of(p.beams, w[k])->Some_0;
        if own != i {
            assert(p.beams[own].id == p.beams[i].id);
        }
        assert(p.beams[own].needs[j].0 == w[k + 1]);
    }
}

/// A beam depends on a touched one exactly where one that it needs, or the
/// beam itself, is touched.
proof fn to_depend_is_to_reach(
    p: ProjectView,
    sources: Seq<(Seq<char>, Seq<char>)>,
    cwd: Result<Seq<char>, Seq<char>>,
    changed: Seq<Seq<char>>,
    i: int,
)
    requires
        distinct_beams(p),
        0 <= i < p.beams.len(),
    ensures
        depends_on_any(p, direct_names(p, sources, cwd, changed), p.beams[i].id) <==> touched_below(
            p,
            sources,
            cwd,
            changed,
            i,
        ),
{
    let direct = direct_names(p, sources, cwd, changed);
    let name = p.beams[i].id;
    if depends_on_any(p, direct, name) {
        let w = choose|w: Seq<Seq<char>>|
            #[trigger] is_chain(p, w) && w[0] == name && direct.contains(w.last());
        a_chain_is_a_walk(p, w);
        let c = choose|c: int|
            #![trigger p.beams[c]]
            0 <= c < p.beams.len() && p.beams[c].id == w.last() && directly_affected(
                p,
                sources,
                cwd,
                changed,
                c,
            );
        assert(reaches(p, name, p.beams[c].id));
    }
    if touched_below(p, sources, cwd, changed, i) {
        let c = choose|c: int|
            0 <= c < p.beams.len() && reaches(p, name, (#[trigger] p.beams[c]).id)
                && directly_affected(p, sources, cwd, changed, c);
        assert(direct.contains(p.beams[c].id)) by {
            assert(p.beams[c].id == p.beams[c].id);
        }
        what_a_change_touches_is_affected(p, direct, p.beams[c].id);
        what_needs_an_affected_beam_is_affected(p, direct, name, p.beams[c].id);
    }
}

/// The places of the first `n` beams that have something touched below them.
proof fn affected_places(
    p: ProjectView,
    sources: Seq<(Seq<char>, Seq<char>)>,
    cwd: Result<Seq<char>, Seq<char>>,
    changed: Seq<Seq<char>>,
    n: int,
) -> (places: Seq<int>)
    requires
        distinct_beams(p),
        0 <= n <= p.beams.len(),
    ensures
        dependents(p, direct_names(p, sources, cwd, changed), n) == Seq::new(
            places.len(),
            |k: int| p.beams[places[k]].id,
        ),
        forall|j: int, k: int| #![trigger places[j], places[k]]
            0 <= j < k < places.len() ==> places[j] < places[k],
        forall|i: int| #[trigger]
            places.contains(i) <==> 0 <= i < n && touched_below(p, sources, cwd, changed, i),
    decreases n,
{
    let direct = direct_names(p, sources, cwd, changed);
    if n == 0 {
        let none = Seq::<int>::empty();
        assert(dependents(p, direct, n) =~= Seq::new(none.len(), |k: int| p.beams[none[k]].id));
        none
    } else {
        let before = affected_places(p, sources, cwd, changed, n - 1);
        to_depend_is_to_reach(p, sources, cwd, changed, n - 1);
        if touched_below(p, sources, cwd, changed, n - 1) {
            let places = before.push(n - 1);
            assert(dependents(p, direct, n) =~= Seq::new(
                places.len(),
                |k: int| p.beams[places[k]].id,
            ));
            assert forall|k: int| 0 <= k < before.len() implies #[trigger] before[k] < n - 1 by {
                assert(before.contains(before[k]));
            }
            assert forall|i: int| #[trigger]
                places.contains(i) <==> 0 <= i < n && touched_below(
                    p,
                    sources,
                    cwd,
                    changed,
                    i,
                ) by {
                if places.contains(i) && i != n - 1 {
                    let k = choose|k: int| 0 <= k < places.len() && places[k] == i;
                    assert(before[k] == i);
                    assert(before.contains(i));
                }
                if before.contains(i) {
                    let k = choose|k: int| 0 <= k < before.len() && before[k] == i;
                    assert(places[k] == i);
                }
                assert(places[before.len() as int] == n - 1);
            }
            places
        } else {
            assert forall|i: int| #[trigger]
                before.contains(i) <==> 0 <= i < n && touched_below(
                    p,
                    sources,
                    cwd,
                    changed,
                    i,
                ) by {}
            before
        }
    }
}

/// A change affects exactly the beams of which the beam itself, or one that
/// it needs, directly or through others, is touched: its Beamfile changed, or
/// a changed path matches its `inputs`. They come in project order, each
/// once.
pub proof fn a_change_affects_what_has_something_touched_below(
    p: ProjectView,
    sources: Seq<(Seq<char>, Seq<char>)>,
    cwd: Result<Seq<char>, Seq<char>>,
    changed: Seq<Seq<char>>,
) -> (places: Seq<int>)
    requires
        distinct_beams(p),
    ensures
        affected_names(p, sources, cwd, changed) == Seq::new(
            places.len(),
            |k: int| p.beams[places[k]].id,
        ),
        forall|j: int, k: int| #![trigger places[j], places[k]]
            0 <= j < k < places.len() ==> places[j] < places[k],
        forall|i: int| #[trigger]
            places.contains(i) <==> 0 <= i < p.beams.len() && touched_below(
                p,
                sources,
                cwd,
                changed,
                i,
            ),
        affected_names(p, sources, cwd, changed).no_duplicates(),
{
    let places = affected_places(p, sources, cwd, changed, p.beams.len() as int);
    let names = affected_names(p, sources, cwd, changed);
    assert forall|j: int, k: int| 0 <= j < names.len() && 0 <= k < names.len() && j != k implies names[j]
        != names[k] by {
        assert(places.contains(places[j]) && places.contains(places[k]));
        if j < k {
            assert(places[j] < places[k]);
        } else {
            assert(places[k] < places[j]);
        }
    }
    places
}

/// A source file's path as seen from the current directory.
pub open spec fn seen_as(path: Seq<char>, cwd: Seq<char>) -> Seq<Seq<char>> {
    if is_absolute(path) {
        components(path)
    } else {
        components(cwd) + names_of(path)
    }
}

/// The Beamfile that declares beam `i` is one of the changed files.
pub open spec fn its_beamfile_changed(
    p: ProjectView,
    sources: Seq<(Seq<char>, Seq<char>)>,
    cwd: Seq<char>,
    changed: Seq<Seq<char>>,
    i: int,
) -> bool {
    exists|c: int|
        0 <= c < changed.len() && p.beams[i].source.0 < sources.len() && components(
            #[trigger] changed[c],
        ) == seen_as(sources[p.beams[i].source.0 as int].0, cwd)
}

/// A changed file below the directory of beam `i` matches one of its inputs.
pub open spec fn an_input_changed(p: ProjectView, changed: Seq<Seq<char>>, i: int) -> bool {
    exists|c: int, t: int|
        0 <= c < changed.len() && 0 <= t < p.beams[i].inputs.len() && below(
            #[trigger] changed[c],
            p.beams[i].dir,
        ) is Some && glob_refusal(#[trigger] p.beams[i].inputs[t]) is None && glob_matches(
            p.beams[i].inputs[t],
            unified(below(changed[c], p.beams[i].dir)->Some_0),
        )
}

/// Patterns, each of which compiles, can be built into a set.
pub open spec fn sets_build() -> bool {
    forall|patterns: Seq<Seq<char>>|
        (forall|k: int|
            0 <= k < patterns.len() ==> glob_refusal(#[trigger] patterns[k]) is None) ==> #[trigger] set_builds(
            patterns,
        )
}

proof fn directly_means(
    p: ProjectView,
    sources: Seq<(Seq<char>, Seq<char>)>,
    cwd: Seq<char>,
    changed: Seq<Seq<char>>,
    i: int,
)
    requires
        cwd.len() > 0,
        sets_build(),
        forall|k: int| 0 <= k < sources.len() ==> (#[trigger] sources[k]).0.len() > 0,
        0 <= i < p.beams.len(),
    ensures
        directly_affected(p, sources, Ok(cwd), changed, i) <==> its_beamfile_changed(
            p,
            sources,
            cwd,
            changed,
            i,
        ) || an_input_changed(p, changed, i),
{
    let id = p.beams[i].source.0;
    if id < sources.len() {
        let path = sources[id as int].0;
        assert(path.len() > 0);
        an_absolute_path_is_seen_from_the_directory(path, cwd);
        assert(components(source_path(path, Ok(cwd))) == seen_as(path, cwd));
        if beamfile_changed(p, sources, Ok(cwd), changed, i) {
            let c = choose|c: int|
                0 <= c < changed.len() && same_path(
                    #[trigger] changed[c],
                    source_path(path, Ok(cwd)),
                );
            assert(components(changed[c]) == seen_as(path, cwd));
        }
        if its_beamfile_changed(p, sources, cwd, changed, i) {
            let c = choose|c: int|
                0 <= c < changed.len() && p.beams[i].source.0 < sources.len() && components(
                    #[trigger] changed[c],
                ) == seen_as(sources[p.beams[i].source.0 as int].0, cwd);
            assert(same_path(changed[c], source_path(path, Ok(cwd))));
        }
    }
    let group = group_patterns(p.beams, p.beams[i].dir);
    compiling_compile(group);
    assert(set_builds(compiling(group)));
    let beam = p.beams[i];
    if input_hit(p, changed, i) {
        let t = choose|t: int|
            0 <= t < beam.inputs.len() && glob_refusal(#[trigger] p.beams[i].inputs[t]) is None
                && pattern_hit(p.beams[i].inputs[t], p.beams[i].dir, changed);
        let c = choose|c: int|
            0 <= c < changed.len() && below(#[trigger] changed[c], beam.dir) is Some
                && glob_matches(beam.inputs[t], unified(below(changed[c], beam.dir)->Some_0));
        assert(below(changed[c], p.beams[i].dir) is Some);
        assert(glob_refusal(p.beams[i].inputs[t]) is None);
    }
    if an_input_changed(p, changed, i) {
        let (c, t) = choose|c: int, t: int|
            0 <= c < changed.len() && 0 <= t < p.beams[i].inputs.len() && below(
                #[trigger] changed[c],
                p.beams[i].dir,
            ) is Some && glob_refusal(#[trigger] p.beams[i].inputs[t]) is None && glob_matches(
                p.beams[i].inputs[t],
                unified(below(changed[c], p.beams[i].dir)->Some_0),
            );
        assert(pattern_hit(p.beams[i].inputs[t], p.beams[i].dir, changed));
    }
}

/// The changed files as git names them, seen from the project's root.
pub open spec fn at_root(root: Seq<char>, changed: Seq<Seq<char>>) -> Seq<Seq<char>> {
    Seq::new(changed.len(), |c: int| joined_path(root, changed[c]))
}

/// What changed since a reference affects exactly the beams that need, or
/// are, a beam whose Beamfile is among what git names, or one of whose inputs
/// matches a file that git names. They come in project order. Where git
/// cannot say what changed its error comes back.
pub proof fn what_git_names_affects_beams(
    project: &Project,
    sources: &SourceMap,
    cwd: String,
    root: &str,
    changed: Result<Vec<String>, GitError>,
    r: Result<Vec<BeamId>, GitError>,
)
    requires
        call_ensures(affected, (project, sources, &Ok::<String, String>(cwd), root, changed), r),
        cwd@.len() > 0,
        distinct_beams(project@),
        forall|k: int| 0 <= k < sources@.len() ==> (#[trigger] sources@[k]).0.len() > 0,
    ensures
        r is Ok <==> changed is Ok,
        changed matches Err(e) ==> r == Err::<Vec<BeamId>, GitError>(e),
        sets_build() ==> (changed matches Ok(files) ==> (r matches Ok(ids) ==> {
            let paths = at_root(root@, views(files@));
            &&& forall|i: int|
                #![trigger project@.beams[i].id]
                0 <= i < project@.beams.len() ==> (id_views(ids@).contains(project@.beams[i].id)
                    <==> exists|c: int|
                    0 <= c < project@.beams.len() && reaches(
                        project@,
                        project@.beams[i].id,
                        (#[trigger] project@.beams[c]).id,
                    ) && (its_beamfile_changed(project@, sources@, cwd@, paths, c)
                        || an_input_changed(project@, paths, c)))
            &&& forall|k: int|
                0 <= k < ids@.len() ==> exists|i: int|
                    0 <= i < project@.beams.len() && (#[trigger] project@.beams[i]).id == (
                    #[trigger] ids@[k])@
        })),
{
    let p = project@;
    if let (Ok(files), Ok(ids)) = (changed, r) {
        if sets_build() {
            let paths = at_root(root@, views(files@));
            assert(paths =~= from_root(root@, views(files@)));
            let here = Ok::<Seq<char>, Seq<char>>(cwd@);
            let places = a_change_affects_what_has_something_touched_below(
                p,
                sources@,
                here,
                paths,
            );
            let names = affected_names(p, sources@, here, paths);
            assert(cwd_view(Ok::<String, String>(cwd)) == here);
            assert(id_views(ids@) == names);
            assert forall|c: int| 0 <= c < p.beams.len() implies (directly_affected(
                p,
                sources@,
                here,
                paths,
                c,
            ) <==> its_beamfile_changed(p, sources@, cwd@, paths, c) || #[trigger] an_input_changed(
                p,
                paths,
                c,
            )) by {
                directly_means(p, sources@, cwd@, paths, c);
            }
            assert forall|i: int|
                #![trigger p.beams[i].id]
                0 <= i < p.beams.len() implies (names.contains(p.beams[i].id) <==> exists|c: int|
                0 <= c < p.beams.len() && reaches(p, p.beams[i].id, (#[trigger] p.beams[c]).id) && (
                its_beamfile_changed(p, sources@, cwd@, paths, c) || an_input_changed(
                    p,
                    paths,
                    c,
                ))) by {
                if names.contains(p.beams[i].id) {
                    let t = choose|t: int| 0 <= t < names.len() && names[t] == p.beams[i].id;
                    assert(places.contains(places[t]));
                    let q = places[t];
                    if q < i {
                        assert(p.beams[q].id != p.beams[i].id);
                    } else if i < q {
                        assert(p.beams[i].id != p.beams[q].id);
                    }
                    assert(touched_below(p, sources@, here, paths, i));
                    let c = choose|c: int|
                        0 <= c < p.beams.len() && reaches(
                            p,
                            p.beams[i].id,
                            (#[trigger] p.beams[c]).id,
                        ) && directly_affected(p, sources@, here, paths, c);
                    assert(an_input_changed(p, paths, c) || its_beamfile_changed(
                        p,
                        sources@,
                        cwd@,
                        paths,
                        c,
                    ));
                }
                if exists|c: int|
                    0 <= c < p.beams.len() && reaches(p, p.beams[i].id, (#[trigger] p.beams[c]).id)
                        && (its_beamfile_changed(p, sources@, cwd@, paths, c) || an_input_changed(
                        p,
                        paths,
                        c,
                    )) {
                    let c = choose|c: int|
                        0 <= c < p.beams.len() && reaches(
                            p,
                            p.beams[i].id,
                            (#[trigger] p.beams[c]).id,
                        ) && (its_beamfile_changed(p, sources@, cwd@, paths, c)
                            || an_input_changed(p, paths, c));
                    assert(an_input_changed(p, paths, c) == an_input_changed(p, paths, c));
                    assert(directly_affected(p, sources@, here, paths, c));
                    assert(touched_below(p, sources@, here, paths, i));
                    assert(places.contains(i));
                    let t = choose|t: int| 0 <= t < places.len() && places[t] == i;
                    assert(names[t] == p.beams[i].id);
                }
            }
            assert forall|k: int| 0 <= k < ids@.len() implies exists|i: int|
                0 <= i < p.beams.len() && (#[trigger] p.beams[i]).id == (#[trigger] ids@[k])@ by {
                assert(id_views(ids@)[k] == ids@[k]@);
                assert(places.contains(places[k]));
                assert(p.beams[places[k]].id == ids@[k]@);
            }
        }
    }
}

/// A beam called `name` takes no parameters.
pub open spec fn is_free(p: ProjectView, name: Seq<char>) -> bool {
    exists|i: int|
        0 <= i < p.beams.len() && (#[trigger] p.beams[i]).id == name && p.beams[i].params.len() == 0
}

proof fn free_ones_stay(p: ProjectView, names: Seq<Seq<char>>)
    ensures
        without_parameters(p, names) == names.filter(|n: Seq<char>| is_free(p, n)),
    decreases names.len(),
{
    reveal(Seq::filter);
    if names.len() > 0 {
        free_ones_stay(p, names.drop_last());
        assert(takes_no_parameters(p, names.last()) == is_free(p, names.last()));
    } else {
        assert(without_parameters(p, names) =~= names.filter(|n: Seq<char>| is_free(p, n)));
    }
}

/// What a run is for. A beam that is named is run, where it exists. Of what
/// changed since a reference a named beam is run exactly where it is
/// affected; and where none is named all that is affected is run, in order,
/// but for beams that take parameters. The run remembers the reference.
pub proof fn a_selection_is_what_is_asked_for(
    project: &Project,
    sources: &SourceMap,
    cwd: &Result<String, String>,
    root: &str,
    selection: &Selection,
    changed: Result<Vec<String>, GitError>,
    r: Result<Targets, SelectError>,
    all: Result<Vec<BeamId>, GitError>,
)
    requires
        call_ensures(select, (project, sources, cwd, root, selection, changed), r),
        call_ensures(affected, (project, sources, cwd, root, changed), all),
    ensures
        *selection matches Selection::Beam(id) ==> {
            &&& r is Ok <==> place_of(project@.beams, id@) is Some
            &&& r matches Ok(t) ==> id_views(t.beams@) == seq![id@] && t.affected_by is None
        },
        *selection matches Selection::Affected { reference, within } ==> {
            &&& changed is Err ==> (r matches Err(SelectError::Git(e)) && e == changed->Err_0)
            &&& changed is Ok ==> (r is Ok <==> match within {
                Some(id) => place_of(project@.beams, id@) is Some,
                None => true,
            })
            &&& r matches Ok(t) ==> {
                &&& t.affected_by == Some(reference)
                &&& within matches Some(id) ==> id_views(t.beams@) == if id_views(
                    all->Ok_0@,
                ).contains(id@) {
                    seq![id@]
                } else {
                    Seq::<Seq<char>>::empty()
                }
                &&& within is None ==> id_views(t.beams@) == id_views(all->Ok_0@).filter(
                    |n: Seq<char>| is_free(project@, n),
                )
            }
        },
{
    if let (Ok(files), Ok(ids)) = (changed, all) {
        free_ones_stay(project@, id_views(ids@));
    }
}

} // verus!
