//! Which beams a change touches.

use vstd::prelude::*;
use vstd::string::*;
use crate::error::CoreError;
use crate::files::{unified, unify};
use crate::git::GitError;
use crate::globs::{
    build_owned, compiling, compiling_compile, glob_matches, glob_refusal, matching_places,
    set_builds,
};
use crate::graph::{
    canonical, canonical_places, canonical_tells_apart, execution_subgraph, holds_id, id_views,
    index_of, place_of, place_of_is_last, unknown_beam,
};
use crate::loader::{cwd_view, SourceMap};
use crate::model::{Beam, BeamId, BeamView, Project, ProjectView};
use crate::paths::{
    absolute, absolute_path, below, is_absolute, is_same_path, join_path, joined_path,
    path_is_absolute, same_path, strip_prefix,
};
use crate::text::{same_text, views};

verus! {

/// What a run was asked for.
#[derive(Debug, PartialEq, Eq)]
pub enum Selection {
    /// One beam and all that it needs.
    Beam(BeamId),
    /// What changed since `reference`, within what one beam needs where one
    /// is named.
    Affected { reference: String, within: Option<BeamId> },
}

impl Selection {
    /// The beam whose needs a watch session watches, or `None` for the whole
    /// project.
    pub fn watched_target(&self) -> (r: Option<&BeamId>)
        ensures
            match (*self, r) {
                (Selection::Beam(id), Some(t)) => *t == id,
                (Selection::Beam(_), None) => false,
                (Selection::Affected { within: Some(id), .. }, Some(t)) => *t == id,
                (Selection::Affected { within: None, .. }, None) => true,
                (Selection::Affected { .. }, _) => false,
            },
    {
        match self {
            Selection::Beam(id) => Some(id),
            Selection::Affected { within, .. } => match within {
                Some(id) => Some(id),
                None => None,
            },
        }
    }
}

/// What a run is for: the beams, and the reference they were found to be
/// affected by, if any.
#[derive(Debug, PartialEq, Eq)]
pub struct Targets {
    pub beams: Vec<BeamId>,
    pub affected_by: Option<String>,
}

impl Targets {
    /// One beam, asked for by name.
    pub fn beam(id: BeamId) -> (r: Targets)
        ensures
            r.beams@ == seq![id],
            r.affected_by is None,
    {
        let mut beams: Vec<BeamId> = Vec::new();
        beams.push(id);
        assert(beams@ =~= seq![id]);
        Targets { beams, affected_by: None }
    }
}

/// A source file's absolute path; the path itself where it is relative and
/// there is no current directory.
pub open spec fn source_path(path: Seq<char>, cwd: Result<Seq<char>, Seq<char>>) -> Seq<char> {
    if path.len() == 0 || (cwd is Err && !is_absolute(path)) {
        path
    } else {
        absolute_path(
            path,
            if cwd is Ok {
                cwd->Ok_0
            } else {
                Seq::empty()
            },
        )
    }
}

/// The Beamfile that declares beam `i` is among the changed paths.
pub open spec fn beamfile_changed(
    p: ProjectView,
    sources: Seq<(Seq<char>, Seq<char>)>,
    cwd: Result<Seq<char>, Seq<char>>,
    changed: Seq<Seq<char>>,
    i: int,
) -> bool {
    let id = p.beams[i].source.0;
    id < sources.len() && exists|c: int|
        0 <= c < changed.len() && same_path(
            #[trigger] changed[c],
            source_path(sources[id as int].0, cwd),
        )
}

/// The `inputs` patterns of all beams in the directory `dir`, in order.
pub open spec fn group_patterns(beams: Seq<BeamView>, dir: Seq<char>) -> Seq<Seq<char>>
    decreases beams.len(),
{
    if beams.len() == 0 {
        Seq::empty()
    } else if same_path(beams.last().dir, dir) {
        group_patterns(beams.drop_last(), dir) + beams.last().inputs
    } else {
        group_patterns(beams.drop_last(), dir)
    }
}

/// A changed path below `dir` matches the pattern.
pub open spec fn pattern_hit(pattern: Seq<char>, dir: Seq<char>, changed: Seq<Seq<char>>) -> bool {
    exists|c: int|
        0 <= c < changed.len() && below(#[trigger] changed[c], dir) is Some && glob_matches(
            pattern,
            unified(below(changed[c], dir)->Some_0),
        )
}

/// A changed path matches one of beam `i`'s `inputs`. The patterns of all
/// beams in its directory are matched together.
pub open spec fn input_hit(p: ProjectView, changed: Seq<Seq<char>>, i: int) -> bool {
    &&& set_builds(compiling(group_patterns(p.beams, p.beams[i].dir)))
    &&& exists|t: int|
        0 <= t < p.beams[i].inputs.len() && glob_refusal(#[trigger] p.beams[i].inputs[t]) is None
            && pattern_hit(p.beams[i].inputs[t], p.beams[i].dir, changed)
}

/// Beam `i` is touched by the change itself.
pub open spec fn directly_affected(
    p: ProjectView,
    sources: Seq<(Seq<char>, Seq<char>)>,
    cwd: Result<Seq<char>, Seq<char>>,
    changed: Seq<Seq<char>>,
    i: int,
) -> bool {
    beamfile_changed(p, sources, cwd, changed, i) || input_hit(p, changed, i)
}

/// A beam called `a` needs `b` directly.
pub open spec fn needs_name(p: ProjectView, a: Seq<char>, b: Seq<char>) -> bool {
    exists|i: int, j: int|
        #![trigger p.beams[i].needs[j]]
        0 <= i < p.beams.len() && p.beams[i].id == a && 0 <= j < p.beams[i].needs.len()
            && p.beams[i].needs[j].0 == b
}

/// Each name of the chain needs the next.
pub open spec fn is_chain(p: ProjectView, w: Seq<Seq<char>>) -> bool {
    &&& w.len() >= 1
    &&& forall|k: int| 0 <= k < w.len() - 1 ==> needs_name(p, #[trigger] w[k], w[k + 1])
}

/// `name` is one of `direct`, or needs one of them, directly or through
/// others.
pub open spec fn depends_on_any(
    p: ProjectView,
    direct: Set<Seq<char>>,
    name: Seq<char>,
) -> bool {
    exists|w: Seq<Seq<char>>|
        #[trigger] is_chain(p, w) && w[0] == name && direct.contains(w.last())
}

/// The names of the beams touched by the change itself.
pub open spec fn direct_names(
    p: ProjectView,
    sources: Seq<(Seq<char>, Seq<char>)>,
    cwd: Result<Seq<char>, Seq<char>>,
    changed: Seq<Seq<char>>,
) -> Set<Seq<char>> {
    Set::new(
        |n: Seq<char>|
            exists|i: int|
                #![trigger p.beams[i]]
                0 <= i < p.beams.len() && p.beams[i].id == n && directly_affected(
                    p,
                    sources,
                    cwd,
                    changed,
                    i,
                ),
    )
}

/// The names of the beams, in order, that depend on one of `direct`.
pub open spec fn dependents(
    p: ProjectView,
    direct: Set<Seq<char>>,
    n: int,
) -> Seq<Seq<char>>
    decreases n,
{
    if n <= 0 {
        Seq::empty()
    } else if depends_on_any(p, direct, p.beams[n - 1].id) {
        dependents(p, direct, n - 1).push(p.beams[n - 1].id)
    } else {
        dependents(p, direct, n - 1)
    }
}

/// The beams that a change affects, in project order: those whose Beamfile
/// changed or whose `inputs` match a changed path, and those that depend on
/// one.
pub open spec fn affected_names(
    p: ProjectView,
    sources: Seq<(Seq<char>, Seq<char>)>,
    cwd: Result<Seq<char>, Seq<char>>,
    changed: Seq<Seq<char>>,
) -> Seq<Seq<char>> {
    dependents(p, direct_names(p, sources, cwd, changed), p.beams.len() as int)
}

fn source_path_of(path: &str, cwd: &Result<String, String>) -> (r: String)
    ensures
        r@ == source_path(path@, cwd_view(*cwd)),
{
    if path.is_empty() {
        return path.to_owned();
    }
    match cwd {
        Ok(dir) => absolute(path, dir.as_str()),
        Err(_) => if path_is_absolute(path) {
            proof {
                reveal_strlit("");
                assert(""@ =~= Seq::<char>::empty());
            }
            absolute(path, "")
        } else {
            path.to_owned()
        },
    }
}

fn has_beamfile_changed(
    project: &Project,
    sources: &SourceMap,
    cwd: &Result<String, String>,
    changed: &Vec<String>,
    i: usize,
) -> (r: bool)
    requires
        i < project.beams@.len(),
    ensures
        r == beamfile_changed(project@, sources@, cwd_view(*cwd), views(changed@), i as int),
{
    match sources.get(project.beams[i].source) {
        None => false,
        Some((path, _)) => {
            let path = source_path_of(path, cwd);
            let ghost id = project.beams@[i as int].source.0;
            let mut c: usize = 0;
            while c < changed.len()
                invariant
                    c <= changed@.len(),
                    id == project@.beams[i as int].source.0,
                    id < sources@.len(),
                    path@ == source_path(sources@[id as int].0, cwd_view(*cwd)),
                    forall|k: int|
                        0 <= k < c ==> !same_path(#[trigger] views(changed@)[k], path@),
                decreases changed.len() - c,
            {
                if is_same_path(changed[c].as_str(), path.as_str()) {
                    assert(same_path(views(changed@)[c as int], path@));
                    return true;
                }
                c += 1;
            }
            false
        },
    }
}

/// Beam `j` is in directory `dir` and has `inputs`.
spec fn in_group(p: ProjectView, dir: Seq<char>, j: int) -> bool {
    same_path(p.beams[j].dir, dir) && p.beams[j].inputs.len() > 0
}

/// `patterns[k]` is one of the `inputs` of beam `owners[k]`, and every one of
/// the group's first `n` beams is there.
spec fn owned_patterns(
    p: ProjectView,
    dir: Seq<char>,
    patterns: Seq<Seq<char>>,
    owners: Seq<usize>,
    n: int,
) -> bool {
    &&& patterns == group_patterns(p.beams.take(n), dir)
    &&& patterns.len() == owners.len()
    &&& forall|k: int|
        0 <= k < owners.len() ==> (#[trigger] owners[k]) < n && in_group(p, dir, owners[k] as int)
            && p.beams[owners[k] as int].inputs.contains(patterns[k])
    &&& forall|j: int, t: int|
        #![trigger p.beams[j].inputs[t]]
        0 <= j < n && in_group(p, dir, j) && 0 <= t < p.beams[j].inputs.len() ==> has_owner(
            patterns,
            owners,
            j,
            p.beams[j].inputs[t],
        )
}

/// `pattern` is listed for beam `j`.
spec fn has_owner(
    patterns: Seq<Seq<char>>,
    owners: Seq<usize>,
    j: int,
    pattern: Seq<char>,
) -> bool {
    exists|k: int| 0 <= k < owners.len() && #[trigger] owners[k] == j && patterns[k] == pattern
}

fn gather_group(project: &Project, dir: &str) -> (r: (Vec<String>, Vec<usize>))
    ensures
        owned_patterns(project@, dir@, views(r.0@), r.1@, project.beams@.len() as int),
{
    let ghost p = project@;
    let mut patterns: Vec<String> = Vec::new();
    let mut owners: Vec<usize> = Vec::new();
    let mut j: usize = 0;
    assert(views(patterns@) =~= group_patterns(p.beams.take(0), dir@));
    while j < project.beams.len()
        invariant
            p == project@,
            j <= project.beams@.len(),
            owned_patterns(p, dir@, views(patterns@), owners@, j as int),
        decreases project.beams.len() - j,
    {
        let beam = &project.beams[j];
        proof {
            assert(p.beams.take(j + 1).drop_last() == p.beams.take(j as int));
            assert(p.beams.take(j + 1).last() == beam@);
        }
        let ghost before = views(patterns@);
        let ghost owners_before = owners@;
        let ghost inputs = p.beams[j as int].inputs;
        if is_same_path(beam.dir.as_str(), dir) {
            let mut t: usize = 0;
            assert(before + inputs.take(0) =~= before);
            while t < beam.inputs.len()
                invariant
                    p == project@,
                    j < project.beams@.len(),
                    *beam == project.beams@[j as int],
                    inputs == views(beam.inputs@),
                    t <= beam.inputs@.len(),
                    before.len() == owners_before.len(),
                    views(patterns@) == before + inputs.take(t as int),
                    owners@.len() == before.len() + t,
                    forall|k: int| 0 <= k < before.len() ==> owners@[k] == owners_before[k],
                    forall|k: int| before.len() <= k < owners@.len() ==> #[trigger] owners@[k] == j,
                decreases beam.inputs.len() - t,
            {
                let ghost now = views(patterns@);
                patterns.push(beam.inputs[t].clone());
                owners.push(j);
                proof {
                    assert(views(patterns@) =~= now.push(inputs[t as int]));
                    assert(before + inputs.take(t + 1) =~= now.push(inputs[t as int]));
                }
                t += 1;
            }
            proof {
                assert(inputs.take(inputs.len() as int) == inputs);
                let after = views(patterns@);
                assert(after == before + inputs);
                assert forall|k: int| 0 <= k < owners@.len() implies (#[trigger] owners@[k]) < j + 1
                    && in_group(p, dir@, owners@[k] as int) && p.beams[owners@[k] as int].inputs.contains(after[k]) by {
                    if k < before.len() {
                        assert(owners@[k] == owners_before[k]);
                    } else {
                        assert(after[k] == inputs[k - before.len()]);
                    }
                }
                assert forall|b: int, t: int|
                    #![trigger p.beams[b].inputs[t]]
                    0 <= b < j + 1 && in_group(p, dir@, b) && 0 <= t < p.beams[b].inputs.len() implies has_owner(
                    after,
                    owners@,
                    b,
                    p.beams[b].inputs[t],
                ) by {
                    if b < j {
                        assert(has_owner(before, owners_before, b, p.beams[b].inputs[t]));
                        let k = choose|k: int|
                            0 <= k < owners_before.len() && #[trigger] owners_before[k] == b && before[k]
                                == p.beams[b].inputs[t];
                        assert(owners@[k] == b);
                        assert(after[k] == before[k]);
                    } else {
                        assert(owners@[before.len() + t] == j);
                        assert(after[before.len() + t] == inputs[t]);
                    }
                }
                assert(after == group_patterns(p.beams.take(j + 1), dir@));
                assert(owned_patterns(p, dir@, after, owners@, j + 1));
            }
        } else {
            assert(owned_patterns(p, dir@, views(patterns@), owners@, j + 1));
        }
        j += 1;
    }
    assert(p.beams.take(p.beams.len() as int) == p.beams);
    (patterns, owners)
}

/// Marks in `hits` the beams of the directory of beam `i` that a changed
/// path touches through their `inputs`, and in `grouped` those looked at.
fn group_hits(
    project: &Project,
    i: usize,
    changed: &Vec<String>,
    hits: &mut Vec<bool>,
    grouped: &mut Vec<bool>,
)
    requires
        i < project.beams@.len(),
        old(hits)@.len() == project.beams@.len(),
        old(grouped)@.len() == project.beams@.len(),
    ensures
        final(hits)@.len() == project.beams@.len(),
        final(grouped)@.len() == project.beams@.len(),
        forall|j: int|
            #![trigger final(hits)@[j]]
            0 <= j < project.beams@.len() ==> final(hits)@[j] == (old(hits)@[j] || (in_group(
                project@,
                project@.beams[i as int].dir,
                j,
            ) && input_hit(project@, views(changed@), j))),
        forall|j: int|
            #![trigger final(grouped)@[j]]
            0 <= j < project.beams@.len() ==> final(grouped)@[j] == (old(grouped)@[j] || in_group(
                project@,
                project@.beams[i as int].dir,
                j,
            )),
{
    let ghost p = project@;
    let ghost dir = p.beams[i as int].dir;
    let ghost paths = views(changed@);
    let ghost start = hits@;
    let (patterns, owners) = gather_group(project, project.beams[i].dir.as_str());
    let ghost all = views(patterns@);
    let mut g: usize = 0;
    let ghost grouped_before = grouped@;
    while g < project.beams.len()
        invariant
            p == project@,
            i < project.beams@.len(),
            dir == p.beams[i as int].dir,
            g <= project.beams@.len(),
            grouped@.len() == project.beams@.len(),
            forall|j: int|
                #![trigger grouped@[j]]
                0 <= j < g ==> grouped@[j] == (grouped_before[j] || in_group(p, dir, j)),
            forall|j: int| g <= j < grouped@.len() ==> grouped@[j] == grouped_before[j],
        decreases project.beams.len() - g,
    {
        if project.beams[g].inputs.len() > 0 && is_same_path(
            project.beams[g].dir.as_str(),
            project.beams[i].dir.as_str(),
        ) {
            grouped.set(g, true);
        }
        g += 1;
    }
    match build_owned(&patterns) {
        None => {
            proof {
                assert forall|j: int| 0 <= j < p.beams.len() && in_group(p, dir, j) implies !input_hit(
                    p,
                    paths,
                    j,
                ) by {
                    same_directory_same_group(p.beams, dir, p.beams[j].dir);
                    assert(p.beams.take(p.beams.len() as int) == p.beams);
                }
            }
        },
        Some((set, places)) => {
            proof {
                assert(p.beams.take(p.beams.len() as int) == p.beams);
                compiling_compile(all);
                assert forall|j: int| #![trigger hits@[j]] 0 <= j < p.beams.len() implies hits@[j]
                    == (start[j] || (in_group(p, dir, j) && hit_so_far(p, paths.take(0), j))) by {
                    assert(!hit_so_far(p, paths.take(0), j));
                }
            }
            let mut c: usize = 0;
            while c < changed.len()
                invariant
                    p == project@,
                    i < project.beams@.len(),
                    dir == p.beams[i as int].dir,
                    paths == views(changed@),
                    c <= changed@.len(),
                    all == views(patterns@),
                    owned_patterns(p, dir, all, owners@, p.beams.len() as int),
                    hits@.len() == p.beams.len(),
                    places@.len() == set@.len(),
                    forall|k: int|
                        0 <= k < places@.len() ==> (#[trigger] places@[k]) < patterns@.len()
                            && patterns@[places@[k] as int]@ == set@[k],
                    forall|k: int|
                        0 <= k < patterns@.len() && glob_refusal((#[trigger] patterns@[k])@) is None
                            ==> places@.contains(k as usize),
                    forall|k: int| 0 <= k < set@.len() ==> glob_refusal(#[trigger] set@[k]) is None,
                    forall|j: int|
                        #![trigger hits@[j]]
                        0 <= j < p.beams.len() ==> hits@[j] == (start[j] || (in_group(p, dir, j)
                            && hit_so_far(p, paths.take(c as int), j))),
                decreases changed.len() - c,
            {
                let ghost before = hits@;
                let ghost next = paths.take(c + 1);
                proof {
                    assert(paths[c as int] == changed@[c as int]@);
                }
                match strip_prefix(changed[c].as_str(), project.beams[i].dir.as_str()) {
                    None => {
                        proof {
                            assert forall|j: int| 0 <= j < p.beams.len() && in_group(p, dir, j) implies hit_so_far(
                                p,
                                next,
                                j,
                            ) == hit_so_far(p, paths.take(c as int), j) by {
                                one_more_path(p, paths, c as int, j);
                            }
                        }
                    },
                    Some(relative) => {
                        let name = unify(relative.as_str());
                        let found = set.matches(name.as_str());
                        let mut m: usize = 0;
                        while m < found.len()
                            invariant
                                m <= found@.len(),
                                hits@.len() == p.beams.len(),
                                all == views(patterns@),
                                owned_patterns(p, dir, all, owners@, p.beams.len() as int),
                                places@.len() == set@.len(),
                                forall|k: int|
                                    0 <= k < places@.len() ==> (#[trigger] places@[k])
                                        < patterns@.len() && patterns@[places@[k] as int]@
                                        == set@[k],
                                forall|k: int|
                                    0 <= k < set@.len() ==> glob_refusal(#[trigger] set@[k]) is None,
                                matching_places(found@, set@, name@),
                                before.len() == p.beams.len(),
                                forall|j: int|
                                    #![trigger hits@[j]]
                                    0 <= j < p.beams.len() ==> (hits@[j] ==> before[j] || (in_group(
                                        p,
                                        dir,
                                        j,
                                    ) && hit_by(p, name@, j))) && (before[j] ==> hits@[j]),
                                forall|q: int|
                                    0 <= q < m ==> hits@[owners@[places@[#[trigger] found@[q] as int] as int] as int],
                            decreases found.len() - m,
                        {
                            let index: usize = found[m];
                            assert(found@[m as int] < set@.len() && glob_matches(
                                set@[found@[m as int] as int],
                                name@,
                            ));
                            let place: usize = places[index];
                            assert(all[place as int] == set@[index as int]);
                            let owner: usize = owners[place];
                            proof {
                                assert(in_group(p, dir, owner as int) && p.beams[owner as int].inputs.contains(
                                    all[place as int],
                                ));
                                let t = choose|t: int|
                                    0 <= t < p.beams[owner as int].inputs.len() && p.beams[owner as int].inputs[t]
                                        == all[place as int];
                                assert(glob_matches(p.beams[owner as int].inputs[t], name@));
                                assert(hit_by(p, name@, owner as int));
                            }
                            hits.set(owner, true);
                            m += 1;
                        }
                        proof {
                            assert forall|j: int| #![trigger hits@[j]] 0 <= j < p.beams.len() implies hits@[j] == (start[j]
                                || (in_group(p, dir, j) && hit_so_far(p, next, j))) by {
                                if in_group(p, dir, j) {
                                    one_more_path(p, paths, c as int, j);
                                    if hit_by(p, name@, j) {
                                        let t = choose|t: int|
                                            0 <= t < p.beams[j].inputs.len() && glob_refusal(
                                                #[trigger] p.beams[j].inputs[t],
                                            ) is None && glob_matches(p.beams[j].inputs[t], name@);
                                        assert(has_owner(all, owners@, j, p.beams[j].inputs[t]));
                                        let k = choose|k: int|
                                            0 <= k < owners@.len() && #[trigger] owners@[k] == j && all[k]
                                                == p.beams[j].inputs[t];
                                        assert(patterns@[k]@ == all[k]);
                                        assert(places@.contains(k as usize));
                                        let s = choose|s: int|
                                            0 <= s < places@.len() && places@[s] == k as usize;
                                        assert(set@[s] == all[k]);
                                        assert(glob_matches(set@[s], name@));
                                        let q = choose|q: int|
                                            0 <= q < found@.len() && #[trigger] found@[q] == s;
                                        assert(hits@[owners@[places@[found@[q] as int] as int] as int]);
                                    }
                                }
                            }
                        }
                    },
                }
                c += 1;
            }
            proof {
                assert(paths.take(paths.len() as int) == paths);
                assert forall|j: int| 0 <= j < p.beams.len() && in_group(p, dir, j) implies input_hit(
                    p,
                    paths,
                    j,
                ) == hit_so_far(p, paths, j) by {
                    same_directory_same_group(p.beams, dir, p.beams[j].dir);
                }
            }
        },
    }
}

/// One of beam `j`'s `inputs` matches a changed path.
spec fn hit_so_far(p: ProjectView, changed: Seq<Seq<char>>, j: int) -> bool {
    exists|t: int|
        0 <= t < p.beams[j].inputs.len() && glob_refusal(#[trigger] p.beams[j].inputs[t]) is None
            && pattern_hit(p.beams[j].inputs[t], p.beams[j].dir, changed)
}

/// One of beam `j`'s `inputs` matches a relative path.
spec fn hit_by(p: ProjectView, name: Seq<char>, j: int) -> bool {
    exists|t: int|
        0 <= t < p.beams[j].inputs.len() && glob_refusal(#[trigger] p.beams[j].inputs[t]) is None
            && glob_matches(p.beams[j].inputs[t], name)
}

proof fn one_more_path(p: ProjectView, paths: Seq<Seq<char>>, c: int, j: int)
    requires
        0 <= c < paths.len(),
    ensures
        hit_so_far(p, paths.take(c + 1), j) == (hit_so_far(p, paths.take(c), j) || (below(
            paths[c],
            p.beams[j].dir,
        ) is Some && hit_by(p, unified(below(paths[c], p.beams[j].dir)->Some_0), j))),
{
    let dir = p.beams[j].dir;
    let old_paths = paths.take(c);
    let new_paths = paths.take(c + 1);
    assert forall|pattern: Seq<char>| pattern_hit(pattern, dir, new_paths) == (#[trigger] pattern_hit(
        pattern,
        dir,
        old_paths,
    ) || (below(paths[c], dir) is Some && glob_matches(
        pattern,
        unified(below(paths[c], dir)->Some_0),
    ))) by {
        if pattern_hit(pattern, dir, old_paths) {
            let k = choose|k: int|
                0 <= k < old_paths.len() && below(#[trigger] old_paths[k], dir) is Some && glob_matches(
                    pattern,
                    unified(below(old_paths[k], dir)->Some_0),
                );
            assert(new_paths[k] == old_paths[k]);
        }
        if pattern_hit(pattern, dir, new_paths) {
            let k = choose|k: int|
                0 <= k < new_paths.len() && below(#[trigger] new_paths[k], dir) is Some && glob_matches(
                    pattern,
                    unified(below(new_paths[k], dir)->Some_0),
                );
            if k < c {
                assert(old_paths[k] == new_paths[k]);
            }
        }
        assert(new_paths[c] == paths[c]);
    }
    if hit_so_far(p, old_paths, j) {
        let t = choose|t: int|
            0 <= t < p.beams[j].inputs.len() && glob_refusal(#[trigger] p.beams[j].inputs[t]) is None
                && pattern_hit(p.beams[j].inputs[t], dir, old_paths);
        assert(pattern_hit(p.beams[j].inputs[t], dir, new_paths));
    }
    if below(paths[c], dir) is Some && hit_by(p, unified(below(paths[c], dir)->Some_0), j) {
        let t = choose|t: int|
            0 <= t < p.beams[j].inputs.len() && glob_refusal(#[trigger] p.beams[j].inputs[t]) is None
                && glob_matches(
                p.beams[j].inputs[t],
                unified(below(paths[c], dir)->Some_0),
            );
        assert(new_paths[c] == paths[c]);
        assert(below(new_paths[c], dir) is Some);
        assert(pattern_hit(p.beams[j].inputs[t], dir, new_paths));
    }
    if hit_so_far(p, new_paths, j) {
        let t = choose|t: int|
            0 <= t < p.beams[j].inputs.len() && glob_refusal(#[trigger] p.beams[j].inputs[t]) is None
                && pattern_hit(p.beams[j].inputs[t], dir, new_paths);
        assert(pattern_hit(p.beams[j].inputs[t], dir, old_paths) || (below(paths[c], dir) is Some
            && glob_matches(
            p.beams[j].inputs[t],
            unified(below(paths[c], dir)->Some_0),
        )));
    }
}

proof fn same_directory_same_group(beams: Seq<BeamView>, a: Seq<char>, b: Seq<char>)
    requires
        same_path(a, b),
    ensures
        group_patterns(beams, a) == group_patterns(beams, b),
    decreases beams.len(),
{
    if beams.len() > 0 {
        same_directory_same_group(beams.drop_last(), a, b);
    }
}

/// `places` are those of the beams that beam `i` needs.
spec fn needed_places(p: ProjectView, places: Seq<usize>, i: int) -> bool {
    &&& forall|k: int|
        0 <= k < places.len() ==> (#[trigger] places[k]) < p.beams.len() && needs_name(
            p,
            p.beams[i].id,
            p.beams[places[k] as int].id,
        ) && canonical_is_place(p, places[k] as int)
    &&& forall|j: int|
        #![trigger p.beams[i].needs[j]]
        0 <= j < p.beams[i].needs.len() && place_of(p.beams, p.beams[i].needs[j].0) is Some
            ==> places.contains(place_of(p.beams, p.beams[i].needs[j].0)->Some_0 as usize)
}

fn resolve_places(project: &Project, i: usize) -> (r: Vec<usize>)
    requires
        i < project.beams@.len(),
    ensures
        needed_places(project@, r@, i as int),
{
    let ghost p = project@;
    let beam = &project.beams[i];
    let mut out: Vec<usize> = Vec::new();
    let mut j: usize = 0;
    while j < beam.needs.len()
        invariant
            p == project@,
            i < project.beams@.len(),
            *beam == project.beams@[i as int],
            j <= beam.needs@.len(),
            forall|k: int|
                0 <= k < out@.len() ==> (#[trigger] out@[k]) < p.beams.len() && needs_name(
                    p,
                    p.beams[i as int].id,
                    p.beams[out@[k] as int].id,
                ) && canonical_is_place(p, out@[k] as int),
            forall|q: int|
                #![trigger p.beams[i as int].needs[q]]
                0 <= q < j && place_of(p.beams, p.beams[i as int].needs[q].0) is Some
                    ==> out@.contains(
                    place_of(p.beams, p.beams[i as int].needs[q].0)->Some_0 as usize,
                ),
        decreases beam.needs.len() - j,
    {
        let ghost before = out@;
        assert(p.beams[i as int].needs[j as int].0 == beam.needs@[j as int].value@);
        match index_of(project, beam.needs[j].value.0.as_str()) {
            None => {},
            Some(place) => {
                out.push(place);
                proof {
                    place_of_is_last(p.beams, p.beams[i as int].needs[j as int].0);
                    assert(needs_name(p, p.beams[i as int].id, p.beams[place as int].id));
                    assert(out@[before.len() as int] == place);
                    assert forall|q: int|
                        #![trigger p.beams[i as int].needs[q]]
                        0 <= q < j + 1 && place_of(p.beams, p.beams[i as int].needs[q].0) is Some implies out@.contains(
                        place_of(p.beams, p.beams[i as int].needs[q].0)->Some_0 as usize,
                    ) by {
                        if q < j {
                            let x = place_of(p.beams, p.beams[i as int].needs[q].0)->Some_0 as usize;
                            let k = choose|k: int| 0 <= k < before.len() && before[k] == x;
                            assert(out@[k] == x);
                        }
                    }
                }
            },
        }
        j += 1;
    }
    out
}

/// The beams whose names are not marked.
spec fn unmarked(flags: Seq<bool>) -> Set<int> {
    Set::new(|i: int| 0 <= i < flags.len() && !flags[i])
}

proof fn unmarked_shrinks(before: Seq<bool>, after: Seq<bool>, i: int)
    requires
        before.len() == after.len(),
        0 <= i < before.len(),
        !before[i],
        after[i],
        forall|k: int| 0 <= k < before.len() && before[k] ==> after[k],
    ensures
        unmarked(after).len() < unmarked(before).len(),
{
    let range = vstd::set_lib::set_int_range(0, before.len() as int);
    vstd::set_lib::lemma_int_range(0, before.len() as int);
    assert(unmarked(before).subset_of(range));
    vstd::set_lib::lemma_set_subset_finite(range, unmarked(before));
    assert(unmarked(after).subset_of(unmarked(before).remove(i)));
    vstd::set_lib::lemma_len_subset(unmarked(after), unmarked(before).remove(i));
}

/// Some beam called `name` is marked.
spec fn name_marked(p: ProjectView, canon: Seq<usize>, flags: Seq<bool>, name: Seq<char>) -> bool {
    exists|i: int|
        #![trigger p.beams[i]]
        0 <= i < p.beams.len() && p.beams[i].id == name && flags[canon[i] as int]
}

/// What needs a marked beam is marked.
spec fn marks_closed(p: ProjectView, canon: Seq<usize>, flags: Seq<bool>) -> bool {
    forall|i: int, j: int|
        #![trigger p.beams[i].needs[j]]
        0 <= i < p.beams.len() && 0 <= j < p.beams[i].needs.len() && place_of(
            p.beams,
            p.beams[i].needs[j].0,
        ) is Some && flags[place_of(p.beams, p.beams[i].needs[j].0)->Some_0] ==> flags[canon[i] as int]
}

proof fn chains_are_marked(
    p: ProjectView,
    canon: Seq<usize>,
    flags: Seq<bool>,
    direct: Set<Seq<char>>,
    w: Seq<Seq<char>>,
)
    requires
        canonical(p, canon),
        flags.len() == p.beams.len(),
        marks_closed(p, canon, flags),
        forall|n: Seq<char>| #[trigger] direct.contains(n) ==> name_marked(p, canon, flags, n),
        is_chain(p, w),
        direct.contains(w.last()),
    ensures
        name_marked(p, canon, flags, w[0]),
    decreases w.len(),
{
    if w.len() > 1 {
        let rest = w.drop_first();
        assert forall|k: int| 0 <= k < rest.len() - 1 implies needs_name(
            p,
            #[trigger] rest[k],
            rest[k + 1],
        ) by {
            assert(needs_name(p, w[k + 1], w[k + 1 + 1]));
        }
        chains_are_marked(p, canon, flags, direct, rest);
        let q = choose|q: int|
            #![trigger p.beams[q]]
            0 <= q < p.beams.len() && p.beams[q].id == w[1] && flags[canon[q] as int];
        assert(needs_name(p, w[0], w[0int + 1]));
        let (i, j) = choose|i: int, j: int|
            #![trigger p.beams[i].needs[j]]
            0 <= i < p.beams.len() && p.beams[i].id == w[0] && 0 <= j < p.beams[i].needs.len()
                && p.beams[i].needs[j].0 == w[1];
        canonical_tells_apart(p, canon, q, q);
        assert(place_of(p.beams, p.beams[q].id) == Some(canon[q] as int));
        assert(p.beams[i].needs[j].0 == w[1]);
        assert(flags[canon[i] as int]);
    }
}

pub(crate) proof fn one_step_further(
    p: ProjectView,
    direct: Set<Seq<char>>,
    a: Seq<char>,
    b: Seq<char>,
)
    requires
        needs_name(p, a, b),
        depends_on_any(p, direct, b),
    ensures
        depends_on_any(p, direct, a),
{
    let w = choose|w: Seq<Seq<char>>|
        #[trigger] is_chain(p, w) && w[0] == b && direct.contains(w.last());
    let longer = seq![a] + w;
    assert forall|k: int| 0 <= k < longer.len() - 1 implies needs_name(
        p,
        #[trigger] longer[k],
        longer[k + 1],
    ) by {
        if k > 0 {
            assert(longer[k] == w[k - 1]);
            assert(longer[k + 1] == w[k - 1 + 1]);
            assert(needs_name(p, w[k - 1], w[k - 1 + 1]));
        } else {
            assert(longer[0] == a && longer[0int + 1] == w[0]);
        }
    }
    assert(is_chain(p, longer));
    assert(longer.last() == w.last());
}

/// Marks everything that depends on what is marked.
fn mark_dependents(
    project: &Project,
    canon: &Vec<usize>,
    flags: &mut Vec<bool>,
    Ghost(direct): Ghost<Set<Seq<char>>>,
)
    requires
        canonical(project@, canon@),
        old(flags)@.len() == project.beams@.len(),
        forall|i: int|
            #![trigger project@.beams[i]]
            0 <= i < project.beams@.len() ==> old(flags)@[canon@[i] as int] == direct.contains(
                project@.beams[i].id,
            ),
        forall|n: Seq<char>|
            #[trigger] direct.contains(n) ==> name_marked(project@, canon@, old(flags)@, n),
    ensures
        final(flags)@.len() == project.beams@.len(),
        forall|i: int|
            #![trigger project@.beams[i]]
            0 <= i < project.beams@.len() ==> final(flags)@[canon@[i] as int] == depends_on_any(
                project@,
                direct,
                project@.beams[i].id,
            ),
{
    let ghost p = project@;
    let mut targets: Vec<Vec<usize>> = Vec::new();
    let mut i: usize = 0;
    while i < project.beams.len()
        invariant
            p == project@,
            i <= project.beams@.len(),
            targets@.len() == i,
            forall|k: int| 0 <= k < i ==> needed_places(p, #[trigger] targets@[k]@, k),
        decreases project.beams.len() - i,
    {
        targets.push(resolve_places(project, i));
        i += 1;
    }
    proof {
        assert forall|i: int| #![trigger p.beams[i]] 0 <= i < p.beams.len() && flags@[canon@[i] as int] implies depends_on_any(
            p,
            direct,
            p.beams[i].id,
        ) by {
            let w = seq![p.beams[i].id];
            assert(is_chain(p, w));
            assert(w.last() == p.beams[i].id);
        }
    }
    let mut more = true;
    while more
        invariant
            p == project@,
            canonical(p, canon@),
            flags@.len() == p.beams.len(),
            targets@.len() == p.beams.len(),
            p.beams.len() == project.beams@.len(),
            forall|k: int| 0 <= k < targets@.len() ==> needed_places(p, #[trigger] targets@[k]@, k),
            forall|i: int|
                #![trigger p.beams[i]]
                0 <= i < p.beams.len() && flags@[canon@[i] as int] ==> depends_on_any(
                    p,
                    direct,
                    p.beams[i].id,
                ),
            forall|n: Seq<char>|
                #[trigger] direct.contains(n) ==> name_marked(p, canon@, flags@, n),
            !more ==> marks_closed(p, canon@, flags@),
        decreases unmarked(flags@).len(), if more { 1int } else { 0 },
    {
        more = false;
        let ghost before = flags@;
        let mut i: usize = 0;
        while i < project.beams.len()
            invariant
                p == project@,
                canonical(p, canon@),
                i <= p.beams.len(),
                flags@.len() == p.beams.len(),
                before.len() == p.beams.len(),
                targets@.len() == p.beams.len(),
                p.beams.len() == project.beams@.len(),
                forall|k: int|
                    0 <= k < targets@.len() ==> needed_places(p, #[trigger] targets@[k]@, k),
                forall|i: int|
                    #![trigger p.beams[i]]
                    0 <= i < p.beams.len() && flags@[canon@[i] as int] ==> depends_on_any(
                        p,
                        direct,
                        p.beams[i].id,
                    ),
                forall|k: int| 0 <= k < before.len() && before[k] ==> flags@[k],
                more ==> unmarked(flags@).len() < unmarked(before).len(),
                !more ==> flags@ == before,
                !more ==> forall|b: int, j: int|
                    #![trigger p.beams[b].needs[j]]
                    0 <= b < i && 0 <= j < p.beams[b].needs.len() && place_of(
                        p.beams,
                        p.beams[b].needs[j].0,
                    ) is Some && flags@[place_of(p.beams, p.beams[b].needs[j].0)->Some_0]
                        ==> flags@[canon@[b] as int],
            decreases project.beams.len() - i,
        {
            proof {
                canonical_tells_apart(p, canon@, i as int, i as int);
            }
            if !flags[canon[i]] {
                let mut hit = false;
                let mut k: usize = 0;
                while k < targets[i].len()
                    invariant
                        p == project@,
                        canonical(p, canon@),
                        i < p.beams.len(),
                        flags@.len() == p.beams.len(),
                        targets@.len() == p.beams.len(),
                        needed_places(p, targets@[i as int]@, i as int),
                        k <= targets@[i as int]@.len(),
                        forall|i: int|
                            #![trigger p.beams[i]]
                            0 <= i < p.beams.len() && flags@[canon@[i] as int] ==> depends_on_any(
                                p,
                                direct,
                                p.beams[i].id,
                            ),
                        hit ==> depends_on_any(p, direct, p.beams[i as int].id),
                        !hit ==> forall|q: int| 0 <= q < k ==> !flags@[#[trigger] targets@[i as int]@[q] as int],
                    decreases targets@[i as int]@.len() - k,
                {
                    let target: usize = targets[i][k];
                    assert(targets@[i as int]@[k as int] < p.beams.len());
                    if flags[target] {
                        proof {
                            target_depends(p, canon@, flags@, direct, target as int);
                            one_step_further(
                                p,
                                direct,
                                p.beams[i as int].id,
                                p.beams[target as int].id,
                            );
                        }
                        hit = true;
                    }
                    k += 1;
                }
                if hit {
                    let ghost now = flags@;
                    flags.set(canon[i], true);
                    proof {
                        unmarked_shrinks(now, flags@, canon@[i as int] as int);
                        assert forall|b: int| #![trigger p.beams[b]] 0 <= b < p.beams.len() && flags@[canon@[b] as int] implies depends_on_any(
                            p,
                            direct,
                            p.beams[b].id,
                        ) by {
                            canonical_tells_apart(p, canon@, b, i as int);
                        }
                    }
                    more = true;
                } else {
                    proof {
                        assert forall|j: int|
                            #![trigger p.beams[i as int].needs[j]]
                            0 <= j < p.beams[i as int].needs.len() && place_of(
                                p.beams,
                                p.beams[i as int].needs[j].0,
                            ) is Some implies !flags@[place_of(
                            p.beams,
                            p.beams[i as int].needs[j].0,
                        )->Some_0] by {
                            place_of_is_last(p.beams, p.beams[i as int].needs[j].0);
                            let x = place_of(p.beams, p.beams[i as int].needs[j].0)->Some_0 as usize;
                            assert(targets@[i as int]@.contains(x));
                            let q = choose|q: int|
                                0 <= q < targets@[i as int]@.len() && targets@[i as int]@[q] == x;
                            assert(!flags@[targets@[i as int]@[q] as int]);
                        }
                    }
                }
            }
            i += 1;
        }
        proof {
            assert forall|n: Seq<char>| #[trigger] direct.contains(n) implies name_marked(
                p,
                canon@,
                flags@,
                n,
            ) by {
                assert(name_marked(p, canon@, before, n));
                let q = choose|q: int|
                    #![trigger p.beams[q]]
                    0 <= q < p.beams.len() && p.beams[q].id == n && before[canon@[q] as int];
                canonical_tells_apart(p, canon@, q, q);
                assert(p.beams[q].id == n && flags@[canon@[q] as int]);
            }
        }
    }
    proof {
        assert forall|i: int| #![trigger p.beams[i]] 0 <= i < p.beams.len() && depends_on_any(
            p,
            direct,
            p.beams[i].id,
        ) implies flags@[canon@[i] as int] by {
            let w = choose|w: Seq<Seq<char>>|
                #[trigger] is_chain(p, w) && w[0] == p.beams[i].id && direct.contains(w.last());
            chains_are_marked(p, canon@, flags@, direct, w);
            let q = choose|q: int|
                #![trigger p.beams[q]]
                0 <= q < p.beams.len() && p.beams[q].id == w[0] && flags@[canon@[q] as int];
            canonical_tells_apart(p, canon@, q, i);
        }
    }
}

/// A marked place is that of a beam that depends on the change.
proof fn target_depends(
    p: ProjectView,
    canon: Seq<usize>,
    flags: Seq<bool>,
    direct: Set<Seq<char>>,
    target: int,
)
    requires
        canonical(p, canon),
        flags.len() == p.beams.len(),
        0 <= target < p.beams.len(),
        flags[target],
        canonical_is_place(p, target),
        forall|i: int|
            #![trigger p.beams[i]]
            0 <= i < p.beams.len() && flags[canon[i] as int] ==> depends_on_any(
                p,
                direct,
                p.beams[i].id,
            ),
    ensures
        depends_on_any(p, direct, p.beams[target].id),
{
    canonical_tells_apart(p, canon, target, target);
    assert(flags[canon[target] as int]);
    assert(p.beams[target].id == p.beams[target].id);
}

/// `i` is the place of its own name.
spec fn canonical_is_place(p: ProjectView, i: int) -> bool {
    place_of(p.beams, p.beams[i].id) == Some(i)
}

/// Marks each beam that the change itself touches.
fn mark_direct(
    project: &Project,
    sources: &SourceMap,
    cwd: &Result<String, String>,
    changed: &Vec<String>,
) -> (r: Vec<bool>)
    ensures
        r@.len() == project.beams@.len(),
        forall|i: int|
            #![trigger r@[i]]
            0 <= i < r@.len() ==> r@[i] == directly_affected(
                project@,
                sources@,
                cwd_view(*cwd),
                views(changed@),
                i,
            ),
{
    let ghost p = project@;
    let ghost paths = views(changed@);
    let mut hits: Vec<bool> = Vec::new();
    let mut grouped: Vec<bool> = Vec::new();
    let mut n: usize = 0;
    while n < project.beams.len()
        invariant
            n <= project.beams@.len(),
            hits@.len() == n,
            grouped@.len() == n,
            forall|j: int| 0 <= j < n ==> !#[trigger] hits@[j],
            forall|j: int| 0 <= j < n ==> !#[trigger] grouped@[j],
        decreases project.beams.len() - n,
    {
        hits.push(false);
        grouped.push(false);
        n += 1;
    }
    let mut i: usize = 0;
    while i < project.beams.len()
        invariant
            p == project@,
            paths == views(changed@),
            i <= project.beams@.len(),
            hits@.len() == project.beams@.len(),
            grouped@.len() == project.beams@.len(),
            forall|j: int|
                #![trigger hits@[j]]
                0 <= j < hits@.len() ==> (hits@[j] ==> input_hit(p, paths, j)) && (grouped@[j]
                    && input_hit(p, paths, j) ==> hits@[j]),
            forall|j: int|
                #![trigger p.beams[j]]
                0 <= j < i && p.beams[j].inputs.len() > 0 ==> grouped@[j],
        decreases project.beams.len() - i,
    {
        if project.beams[i].inputs.len() > 0 && !grouped[i] {
            let ghost h0 = hits@;
            let ghost g0 = grouped@;
            group_hits(project, i, changed, &mut hits, &mut grouped);
            proof {
                assert(in_group(p, p.beams[i as int].dir, i as int));
                assert forall|j: int|
                    #![trigger hits@[j]]
                    0 <= j < hits@.len() implies (hits@[j] ==> input_hit(p, paths, j)) && (grouped@[j]
                    && input_hit(p, paths, j) ==> hits@[j]) by {
                    assert(h0[j] ==> input_hit(p, paths, j));
                    assert(grouped@[j] == (g0[j] || in_group(p, p.beams[i as int].dir, j)));
                }
            }
        }
        i += 1;
    }
    let mut out: Vec<bool> = Vec::new();
    let mut k: usize = 0;
    while k < project.beams.len()
        invariant
            p == project@,
            paths == views(changed@),
            k <= project.beams@.len(),
            hits@.len() == project.beams@.len(),
            grouped@.len() == project.beams@.len(),
            forall|j: int|
                #![trigger hits@[j]]
                0 <= j < hits@.len() ==> (hits@[j] ==> input_hit(p, paths, j)) && (grouped@[j]
                    && input_hit(p, paths, j) ==> hits@[j]),
            forall|j: int|
                #![trigger p.beams[j]]
                0 <= j < p.beams.len() && p.beams[j].inputs.len() > 0 ==> grouped@[j],
            out@.len() == k,
            forall|j: int|
                #![trigger out@[j]]
                0 <= j < k ==> out@[j] == directly_affected(p, sources@, cwd_view(*cwd), paths, j),
        decreases project.beams.len() - k,
    {
        let direct = hits[k] || has_beamfile_changed(project, sources, cwd, changed, k);
        proof {
            assert(hits@[k as int] == input_hit(p, paths, k as int)) by {
                assert(p.beams[k as int].inputs.len() > 0 ==> grouped@[k as int]);
            }
        }
        out.push(direct);
        k += 1;
    }
    out
}

/// One of the first `n` beams called `name` is touched.
spec fn touched_name(p: ProjectView, touched: Seq<bool>, n: int, name: Seq<char>) -> bool {
    exists|k: int| 0 <= k < n && #[trigger] touched[k] && p.beams[k].id == name
}

proof fn one_more_touched(p: ProjectView, touched: Seq<bool>, n: int, name: Seq<char>)
    requires
        0 <= n < touched.len(),
    ensures
        touched_name(p, touched, n + 1, name) == (touched_name(p, touched, n, name) || (touched[n]
            && p.beams[n].id == name)),
{
}

/// Marks the names of the touched beams at their canonical places.
fn mark_names(project: &Project, canon: &Vec<usize>, touched: &Vec<bool>) -> (flags: Vec<bool>)
    requires
        canonical(project@, canon@),
        touched@.len() == project.beams@.len(),
    ensures
        flags@.len() == project.beams@.len(),
        forall|j: int|
            #![trigger canon@[j]]
            0 <= j < canon@.len() ==> flags@[canon@[j] as int] == touched_name(
                project@,
                touched@,
                touched@.len() as int,
                project@.beams[j].id,
            ),
{
    let ghost p = project@;
    let mut flags: Vec<bool> = Vec::new();
    let mut n: usize = 0;
    while n < project.beams.len()
        invariant
            n <= project.beams@.len(),
            flags@.len() == n,
            forall|j: int| 0 <= j < n ==> !#[trigger] flags@[j],
        decreases project.beams.len() - n,
    {
        flags.push(false);
        n += 1;
    }
    proof {
        assert forall|j: int| #![trigger canon@[j]] 0 <= j < canon@.len() implies flags@[canon@[j] as int]
            == touched_name(p, touched@, 0, p.beams[j].id) by {
            canonical_tells_apart(p, canon@, j, j);
        }
    }
    let mut i: usize = 0;
    while i < project.beams.len()
        invariant
            p == project@,
            canonical(p, canon@),
            i <= p.beams.len(),
            p.beams.len() == project.beams@.len(),
            flags@.len() == p.beams.len(),
            touched@.len() == p.beams.len(),
            forall|j: int|
                #![trigger canon@[j]]
                0 <= j < canon@.len() ==> flags@[canon@[j] as int] == touched_name(
                    p,
                    touched@,
                    i as int,
                    p.beams[j].id,
                ),
        decreases project.beams.len() - i,
    {
        let ghost before = flags@;
        proof {
            canonical_tells_apart(p, canon@, i as int, i as int);
        }
        if touched[i] {
            flags.set(canon[i], true);
        }
        proof {
            assert forall|j: int| #![trigger canon@[j]] 0 <= j < canon@.len() implies flags@[canon@[j] as int]
                == touched_name(p, touched@, i + 1, p.beams[j].id) by {
                canonical_tells_apart(p, canon@, i as int, j);
                canonical_tells_apart(p, canon@, j, j);
                one_more_touched(p, touched@, i as int, p.beams[j].id);
            }
        }
        i += 1;
    }
    flags
}

/// The beams that a change affects, in project order. `changed` holds
/// absolute paths, of files that exist or not.
pub fn affected_beams(
    project: &Project,
    sources: &SourceMap,
    cwd: &Result<String, String>,
    changed: &Vec<String>,
) -> (r: Vec<BeamId>)
    ensures
        id_views(r@) == affected_names(project@, sources@, cwd_view(*cwd), views(changed@)),
{
    let ghost p = project@;
    let ghost direct = direct_names(p, sources@, cwd_view(*cwd), views(changed@));
    let touched = mark_direct(project, sources, cwd, changed);
    let canon = canonical_places(project);
    let mut flags = mark_names(project, &canon, &touched);
    proof {
        assert forall|n: Seq<char>| touched_name(p, touched@, touched@.len() as int, n)
            == #[trigger] direct.contains(n) by {
            if touched_name(p, touched@, touched@.len() as int, n) {
                let k = choose|k: int|
                    0 <= k < touched@.len() && #[trigger] touched@[k] && p.beams[k].id == n;
                assert(p.beams[k].id == n);
            }
            if direct.contains(n) {
                let k = choose|k: int|
                    #![trigger p.beams[k]]
                    0 <= k < p.beams.len() && p.beams[k].id == n && directly_affected(
                        p,
                        sources@,
                        cwd_view(*cwd),
                        views(changed@),
                        k,
                    );
                assert(touched@[k]);
            }
        }
        assert forall|j: int| #![trigger p.beams[j]] 0 <= j < p.beams.len() implies flags@[canon@[j] as int]
            == direct.contains(p.beams[j].id) by {
            assert(canon@[j] == canon@[j]);
        }
        assert forall|n: Seq<char>| #[trigger] direct.contains(n) implies name_marked(
            p,
            canon@,
            flags@,
            n,
        ) by {
            let k = choose|k: int|
                0 <= k < touched@.len() && #[trigger] touched@[k] && p.beams[k].id == n;
            assert(p.beams[k].id == n && flags@[canon@[k] as int]);
        }
    }
    mark_dependents(project, &canon, &mut flags, Ghost(direct));
    let mut out: Vec<BeamId> = Vec::new();
    let mut k: usize = 0;
    assert(id_views(out@) =~= dependents(p, direct, 0));
    while k < project.beams.len()
        invariant
            p == project@,
            canonical(p, canon@),
            k <= p.beams.len(),
            p.beams.len() == project.beams@.len(),
            flags@.len() == p.beams.len(),
            forall|i: int|
                #![trigger p.beams[i]]
                0 <= i < p.beams.len() ==> flags@[canon@[i] as int] == depends_on_any(
                    p,
                    direct,
                    p.beams[i].id,
                ),
            id_views(out@) == dependents(p, direct, k as int),
        decreases project.beams.len() - k,
    {
        proof {
            canonical_tells_apart(p, canon@, k as int, k as int);
            assert(flags@[canon@[k as int] as int] == depends_on_any(
                p,
                direct,
                p.beams[k as int].id,
            ));
        }
        if flags[canon[k]] {
            let ghost before = id_views(out@);
            out.push(project.beams[k].id.clone());
            assert(id_views(out@) =~= before.push(p.beams[k as int].id));
        }
        k += 1;
    }
    out
}

/// The changed paths as git gives them, from the project root.
pub open spec fn from_root(root: Seq<char>, changed: Seq<Seq<char>>) -> Seq<Seq<char>> {
    Seq::new(changed.len(), |i: int| joined_path(root, changed[i]))
}

/// The beams affected by what changed since a reference, in project order.
/// `changed` is what git reports, relative to `root`, or why it does not.
pub fn affected(
    project: &Project,
    sources: &SourceMap,
    cwd: &Result<String, String>,
    root: &str,
    changed: Result<Vec<String>, GitError>,
) -> (r: Result<Vec<BeamId>, GitError>)
    ensures
        match (changed, r) {
            (Ok(c), Ok(ids)) => id_views(ids@) == affected_names(
                project@,
                sources@,
                cwd_view(*cwd),
                from_root(root@, views(c@)),
            ),
            (Err(e), Err(x)) => x == e,
            _ => false,
        },
{
    match changed {
        Err(error) => Err(error),
        Ok(changed) => {
            let mut paths: Vec<String> = Vec::new();
            let mut i: usize = 0;
            while i < changed.len()
                invariant
                    i <= changed@.len(),
                    paths@.len() == i,
                    forall|k: int|
                        0 <= k < i ==> (#[trigger] paths@[k])@ == joined_path(
                            root@,
                            changed@[k]@,
                        ),
                decreases changed.len() - i,
            {
                paths.push(join_path(root, changed[i].as_str()));
                i += 1;
            }
            assert(views(paths@) =~= from_root(root@, views(changed@)));
            Ok(affected_beams(project, sources, cwd, &paths))
        },
    }
}

/// Why a selection could not be resolved.
#[derive(Debug, PartialEq)]
pub enum SelectError {
    Core(CoreError),
    Git(GitError),
}

/// A beam called `name` takes no parameters.
pub open spec fn takes_no_parameters(p: ProjectView, name: Seq<char>) -> bool {
    exists|i: int|
        0 <= i < p.beams.len() && (#[trigger] p.beams[i]).id == name && p.beams[i].params.len() == 0
}

fn has_no_parameters(project: &Project, id: &BeamId) -> (r: bool)
    ensures
        r == takes_no_parameters(project@, id@),
{
    let mut i: usize = 0;
    while i < project.beams.len()
        invariant
            i <= project.beams@.len(),
            forall|k: int|
                0 <= k < i ==> !((#[trigger] project@.beams[k]).id == id@
                    && project@.beams[k].params.len() == 0),
        decreases project.beams.len() - i,
    {
        let beam = &project.beams[i];
        assert(project@.beams[i as int] == beam@);
        if beam.params.len() == 0 && same_text(beam.id.0.as_str(), id.0.as_str()) {
            return true;
        }
        i += 1;
    }
    false
}

/// The names, in order, of the beams that take no parameters.
pub open spec fn without_parameters(p: ProjectView, names: Seq<Seq<char>>) -> Seq<Seq<char>>
    decreases names.len(),
{
    if names.len() == 0 {
        Seq::empty()
    } else if takes_no_parameters(p, names.last()) {
        without_parameters(p, names.drop_last()).push(names.last())
    } else {
        without_parameters(p, names.drop_last())
    }
}

/// What a run for `selection` targets.
pub open spec fn selected(
    p: ProjectView,
    selection: Selection,
    affected: Seq<Seq<char>>,
) -> Seq<Seq<char>> {
    match selection {
        Selection::Beam(id) => seq![id@],
        Selection::Affected { reference, within: Some(id) } => if affected.contains(id@) {
            seq![id@]
        } else {
            Seq::empty()
        },
        Selection::Affected { reference, within: None } => without_parameters(p, affected),
    }
}

/// The beam that a selection names, if it names one.
pub open spec fn named_beam(selection: Selection) -> Option<Seq<char>> {
    match selection {
        Selection::Beam(id) => Some(id@),
        Selection::Affected { within: Some(id), .. } => Some(id@),
        Selection::Affected { within: None, .. } => None,
    }
}

/// What a run for `selection` targets. A beam that it names has to exist. Of
/// what changed since a reference, a named beam is run where it is affected;
/// without one, all that is affected is run but for beams with parameters,
/// which nothing could bind. `changed` is read only where the selection asks
/// for what changed.
pub fn select(
    project: &Project,
    sources: &SourceMap,
    cwd: &Result<String, String>,
    root: &str,
    selection: &Selection,
    changed: Result<Vec<String>, GitError>,
) -> (r: Result<Targets, SelectError>)
    ensures
        match r {
            Ok(targets) => {
                &&& named_beam(*selection) matches Some(n) ==> place_of(project@.beams, n) is Some
                &&& match *selection {
                    Selection::Beam(_) => targets.affected_by is None && id_views(
                        targets.beams@,
                    ) == selected(project@, *selection, Seq::empty()),
                    Selection::Affected { reference, .. } => {
                        &&& changed is Ok
                        &&& targets.affected_by == Some(reference)
                        &&& id_views(targets.beams@) == selected(
                            project@,
                            *selection,
                            affected_names(
                                project@,
                                sources@,
                                cwd_view(*cwd),
                                from_root(root@, views(changed->Ok_0@)),
                            ),
                        )
                    },
                }
            },
            Err(SelectError::Git(error)) => *selection is Affected && changed
                == Err::<Vec<String>, GitError>(error),
            Err(SelectError::Core(error)) => {
                &&& *selection is Affected ==> changed is Ok
                &&& named_beam(*selection) matches Some(n) && place_of(project@.beams, n) is None
                    && error@ == unknown_beam(project@, n, None)
            },
        },
{
    match selection {
        Selection::Beam(id) => match execution_subgraph(project, id) {
            Err(error) => Err(SelectError::Core(error)),
            Ok(_) => {
                let targets = Targets::beam(id.clone());
                assert(id_views(targets.beams@) =~= seq![id@]);
                Ok(targets)
            },
        },
        Selection::Affected { reference, within } => {
            let all = match affected(project, sources, cwd, root, changed) {
                Ok(all) => all,
                Err(error) => {
                    return Err(SelectError::Git(error));
                },
            };
            let mut beams: Vec<BeamId> = Vec::new();
            match within {
                Some(id) => {
                    match execution_subgraph(project, id) {
                        Err(error) => {
                            return Err(SelectError::Core(error));
                        },
                        Ok(_) => {},
                    }
                    if holds_id(&all, id.0.as_str()) {
                        beams.push(id.clone());
                        assert(id_views(beams@) =~= seq![id@]);
                    } else {
                        assert(id_views(beams@) =~= Seq::<Seq<char>>::empty());
                    }
                },
                None => {
                    let ghost names = id_views(all@);
                    let mut i: usize = 0;
                    assert(id_views(beams@) =~= without_parameters(project@, names.take(0)));
                    while i < all.len()
                        invariant
                            names == id_views(all@),
                            i <= all@.len(),
                            id_views(beams@) == without_parameters(
                                project@,
                                names.take(i as int),
                            ),
                        decreases all.len() - i,
                    {
                        assert(names.take(i + 1).drop_last() == names.take(i as int));
                        assert(names.take(i + 1).last() == all@[i as int]@);
                        if has_no_parameters(project, &all[i]) {
                            let ghost before = id_views(beams@);
                            beams.push(all[i].clone());
                            assert(id_views(beams@) =~= before.push(all@[i as int]@));
                        }
                        i += 1;
                    }
                    assert(names.take(names.len() as int) == names);
                },
            }
            Ok(Targets { beams, affected_by: Some(reference.clone()) })
        },
    }
}

} // verus!
