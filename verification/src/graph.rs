//! The dependency graph of a project: every `needs` entry and the `default`
//! name a beam that exists, and no beam needs itself, through others or not.

use vstd::prelude::*;
use crate::project::{collect, collect_fails_early};
use crate::error::{result_view, CoreError, ErrorView};
use crate::eval::{did_you_mean, with_suggestion};
use crate::model::{BeamId, BeamView, Project, ProjectView, SourceId};
use crate::suggest::names_of;
use crate::syntax::Span;
use crate::text::{join, joined, same_text, text2, text3, views};

verus! {

/// The place of the beam called `name`, the last one where several are.
pub open spec fn place_of(beams: Seq<BeamView>, name: Seq<char>) -> Option<int>
    decreases beams.len(),
{
    if beams.len() == 0 {
        None
    } else if beams.last().id == name {
        Some(beams.len() - 1)
    } else {
        place_of(beams.drop_last(), name)
    }
}

/// The names of all beams.
pub open spec fn all_names(p: ProjectView) -> Set<Seq<char>> {
    Set::new(|n: Seq<char>| exists|i: int| 0 <= i < p.beams.len() && #[trigger] p.beams[i].id == n)
}

/// The error for a name that no beam has.
pub open spec fn unknown_beam(p: ProjectView, name: Seq<char>, span: Option<Span>) -> ErrorView {
    did_you_mean(
        ErrorView {
            message: "unknown beam `"@ + name + "`"@,
            span,
            help: None,
            source_id: SourceId(0),
        },
        name,
        all_names(p),
    )
}

pub open spec fn need_verdict(p: ProjectView, i: int) -> spec_fn(int) -> Result<(), ErrorView> {
    |j: int|
        {
            let need = p.beams[i].needs[j];
            if place_of(p.beams, need.0) is Some {
                Ok(())
            } else {
                Err(
                    unknown_beam(p, need.0, Some(need.1)).with_source_id(p.beams[i].source),
                )
            }
        }
}

/// Whether every entry of one beam's `needs` names a beam.
pub open spec fn beam_needs_verdict(p: ProjectView) -> spec_fn(int) -> Result<(), ErrorView> {
    |i: int|
        match collect(p.beams[i].needs.len(), need_verdict(p, i)) {
            Ok(_) => Ok(()),
            Err(x) => Err(x),
        }
}

pub open spec fn default_verdict(p: ProjectView) -> Result<(), ErrorView> {
    match p.default {
        None => Ok(()),
        Some((name, span)) => if place_of(p.beams, name) is Some {
            Ok(())
        } else {
            Err(unknown_beam(p, name, Some(span)))
        },
    }
}

/// The first place of `name` in `path`.
pub open spec fn first_place(path: Seq<Seq<char>>, name: Seq<char>) -> int
    decreases path.len(),
{
    if path.len() == 0 || path[0] == name {
        0
    } else {
        1 + first_place(path.drop_first(), name)
    }
}

/// The names of a cycle that closes on `name` at the end of `path`.
pub open spec fn cycle_names(path: Seq<Seq<char>>, name: Seq<char>) -> Seq<Seq<char>> {
    path.skip(first_place(path, name)).push(name)
}

pub open spec fn cycle_error(path: Seq<Seq<char>>, beam: BeamView) -> ErrorView {
    ErrorView {
        message: "dependency cycle: "@ + joined(cycle_names(path, beam.id), " → "@),
        span: Some(beam.span),
        help: None,
        source_id: beam.source,
    }
}

/// Depth-first search from beam `i`. `path` leads to it; `done` lists what
/// was left for good, in that order, and is what comes back, longer.
pub open spec fn enter(
    p: ProjectView,
    path: Seq<Seq<char>>,
    done: Seq<Seq<char>>,
    i: int,
) -> Result<Seq<Seq<char>>, ErrorView>
    decreases p.beams.len() - path.len(), 0int,
{
    let beam = p.beams[i];
    if path.contains(beam.id) {
        Err(cycle_error(path, beam))
    } else if done.contains(beam.id) || path.len() >= p.beams.len() {
        Ok(done)
    } else {
        match enter_needs(p, path.push(beam.id), done, beam.needs, 0) {
            Err(x) => Err(x),
            Ok(after) => Ok(after.push(beam.id)),
        }
    }
}

/// The search from each of `needs` in turn, the first `k` left aside.
pub open spec fn enter_needs(
    p: ProjectView,
    path: Seq<Seq<char>>,
    done: Seq<Seq<char>>,
    needs: Seq<(Seq<char>, Span)>,
    k: int,
) -> Result<Seq<Seq<char>>, ErrorView>
    decreases p.beams.len() - path.len(), needs.len() - k + 1,
{
    if k < 0 || k >= needs.len() {
        Ok(done)
    } else {
        match enter(p, path, done, place_of(p.beams, needs[k].0)->Some_0) {
            Err(x) => Err(x),
            Ok(after) => enter_needs(p, path, after, needs, k + 1),
        }
    }
}

/// The search from each beam in turn, the first `i` left aside.
pub open spec fn search_from(p: ProjectView, done: Seq<Seq<char>>, i: int) -> Result<
    Seq<Seq<char>>,
    ErrorView,
>
    decreases p.beams.len() - i,
{
    if i < 0 || i >= p.beams.len() {
        Ok(done)
    } else {
        match enter(p, Seq::empty(), done, i) {
            Err(x) => Err(x),
            Ok(after) => search_from(p, after, i + 1),
        }
    }
}

/// Whether a project's graph is valid: first every `needs` entry names a
/// beam, then the default does, then nothing needs itself.
pub open spec fn graph_verdict(p: ProjectView) -> Result<(), ErrorView> {
    match collect(p.beams.len(), beam_needs_verdict(p)) {
        Err(x) => Err(x),
        Ok(_) => match default_verdict(p) {
            Err(x) => Err(x),
            Ok(_) => match search_from(p, Seq::empty(), 0) {
                Err(x) => Err(x),
                Ok(_) => Ok(()),
            },
        },
    }
}

/// A found place holds the name, and nothing after it does.
pub proof fn place_of_is_last(beams: Seq<BeamView>, name: Seq<char>)
    ensures
        match place_of(beams, name) {
            Some(i) => 0 <= i < beams.len() && beams[i].id == name && forall|j: int|
                i < j < beams.len() ==> (#[trigger] beams[j]).id != name,
            None => forall|j: int| 0 <= j < beams.len() ==> (#[trigger] beams[j]).id != name,
        },
    decreases beams.len(),
{
    if beams.len() > 0 {
        place_of_is_last(beams.drop_last(), name);
        let rest = beams.drop_last();
        assert forall|j: int| 0 <= j < beams.len() implies (j == beams.len() - 1 || #[trigger] beams[j]
            == rest[j]) by {}
    }
}

/// The place of the beam called `name`.
pub fn index_of(project: &Project, name: &str) -> (r: Option<usize>)
    ensures
        match r {
            Some(i) => place_of(project@.beams, name@) == Some(i as int) && i < project.beams@.len(),
            None => place_of(project@.beams, name@) is None,
        },
{
    let mut i: usize = project.beams.len();
    assert(project@.beams.take(i as int) == project@.beams);
    while i > 0
        invariant
            i <= project.beams@.len(),
            place_of(project@.beams, name@) == place_of(project@.beams.take(i as int), name@),
        decreases i,
    {
        assert(project@.beams.take(i as int).drop_last() == project@.beams.take(i - 1));
        assert(project@.beams.take(i as int).last() == project.beams@[i - 1]@);
        i -= 1;
        if same_text(project.beams[i].id.0.as_str(), name) {
            return Some(i);
        }
    }
    None
}

/// Every beam's name, in order.
pub fn all_ids(project: &Project) -> (r: Vec<&str>)
    ensures
        names_of(r@) == all_names(project@),
        r@.len() == project.beams@.len(),
        forall|i: int| 0 <= i < r@.len() ==> (#[trigger] r@[i])@ == project@.beams[i].id,
{
    let mut out: Vec<&str> = Vec::new();
    let mut i: usize = 0;
    while i < project.beams.len()
        invariant
            i <= project.beams.len(),
            out@.len() == i,
            forall|k: int| 0 <= k < i ==> (#[trigger] out@[k])@ == project@.beams[k].id,
        decreases project.beams.len() - i,
    {
        out.push(project.beams[i].id.0.as_str());
        i += 1;
    }
    proof {
        let p = project@;
        assert forall|n: Seq<char>| names_of(out@).contains(n) == all_names(p).contains(n) by {
            if names_of(out@).contains(n) {
                let k = choose|k: int| 0 <= k < out@.len() && (#[trigger] out@[k])@ == n;
                assert(p.beams[k].id == n);
            }
            if all_names(p).contains(n) {
                let k = choose|k: int| 0 <= k < p.beams.len() && #[trigger] p.beams[k].id == n;
                assert(out@[k]@ == n);
            }
        }
        assert(names_of(out@) =~= all_names(p));
    }
    out
}

/// The error for a name that no beam has. `span` is absent where the name
/// came from outside the Beamfile.
pub fn unknown_beam_error(project: &Project, name: &str, span: Option<Span>) -> (r: CoreError)
    ensures
        r@ == unknown_beam(project@, name@, span),
{
    let message = text3("unknown beam `", name, "`");
    let error = match span {
        Some(span) => CoreError::new(message, span),
        None => CoreError::unlocated(message),
    };
    with_suggestion(error, name, all_ids(project).as_slice())
}

/// One entry of the search's stack: a beam to go into, or the mark that all
/// it needs has been searched.
enum Step {
    Enter(usize),
    Leave,
}

/// What is left of the search with `stack` still to do, its end first.
spec fn resume(
    p: ProjectView,
    path: Seq<Seq<char>>,
    done: Seq<Seq<char>>,
    stack: Seq<Step>,
) -> Result<Seq<Seq<char>>, ErrorView>
    decreases stack.len(),
{
    if stack.len() == 0 {
        Ok(done)
    } else {
        match stack.last() {
            Step::Leave => resume(p, path.drop_last(), done.push(path.last()), stack.drop_last()),
            Step::Enter(i) => match enter(p, path, done, i as int) {
                Err(x) => Err(x),
                Ok(after) => resume(p, path, after, stack.drop_last()),
            },
        }
    }
}

/// The stack with `needs` on top, the first `k` left aside, the first of
/// them last.
spec fn with_needs(
    p: ProjectView,
    base: Seq<Step>,
    needs: Seq<(Seq<char>, Span)>,
    k: int,
) -> Seq<Step> {
    base + Seq::new(
        (needs.len() - k) as nat,
        |j: int| Step::Enter(place_of(p.beams, needs[needs.len() - 1 - j].0)->Some_0 as usize),
    )
}

proof fn resume_enters_needs(
    p: ProjectView,
    path: Seq<Seq<char>>,
    done: Seq<Seq<char>>,
    base: Seq<Step>,
    needs: Seq<(Seq<char>, Span)>,
    k: int,
)
    requires
        0 <= k <= needs.len(),
        p.beams.len() <= usize::MAX,
        forall|j: int| 0 <= j < needs.len() ==> place_of(p.beams, (#[trigger] needs[j]).0) is Some,
    ensures
        resume(p, path, done, with_needs(p, base, needs, k)) == match enter_needs(
            p,
            path,
            done,
            needs,
            k,
        ) {
            Err(x) => Err::<Seq<Seq<char>>, ErrorView>(x),
            Ok(after) => resume(p, path, after, base),
        },
    decreases needs.len() - k,
{
    let stack = with_needs(p, base, needs, k);
    if k == needs.len() {
        assert(stack =~= base);
    } else {
        place_of_is_last(p.beams, needs[k].0);
        assert(stack.drop_last() =~= with_needs(p, base, needs, k + 1));
        assert(stack.last() == Step::Enter(place_of(p.beams, needs[k].0)->Some_0 as usize));
        let place = place_of(p.beams, needs[k].0)->Some_0;
        match enter(p, path, done, place) {
            Err(_) => {},
            Ok(after) => {
                resume_enters_needs(p, path, after, base, needs, k + 1);
            },
        }
    }
}

/// The names of the beams at `places`.
spec fn names_at(p: ProjectView, places: Seq<usize>) -> Seq<Seq<char>> {
    Seq::new(places.len(), |k: int| p.beams[places[k] as int].id)
}

/// The beams that are neither on the path nor done with.
spec fn fresh(p: ProjectView, path: Seq<Seq<char>>, done: Seq<Seq<char>>) -> Set<int> {
    Set::new(
        |i: int|
            0 <= i < p.beams.len() && !path.contains(p.beams[i].id) && !done.contains(
                p.beams[i].id,
            ),
    )
}

proof fn fresh_is_finite(p: ProjectView, path: Seq<Seq<char>>, done: Seq<Seq<char>>)
    ensures
        fresh(p, path, done).finite(),
{
    let all = vstd::set_lib::set_int_range(0, p.beams.len() as int);
    vstd::set_lib::lemma_int_range(0, p.beams.len() as int);
    assert(fresh(p, path, done).subset_of(all));
    vstd::set_lib::lemma_set_subset_finite(all, fresh(p, path, done));
}

proof fn fresh_shrinks(p: ProjectView, path: Seq<Seq<char>>, done: Seq<Seq<char>>, i: int)
    requires
        fresh(p, path, done).contains(i),
    ensures
        fresh(p, path.push(p.beams[i].id), done).len() < fresh(p, path, done).len(),
{
    let before = fresh(p, path, done);
    let after = fresh(p, path.push(p.beams[i].id), done);
    fresh_is_finite(p, path, done);
    let pushed = path.push(p.beams[i].id);
    assert(pushed[path.len() as int] == p.beams[i].id);
    assert(after.subset_of(before.remove(i))) by {
        assert forall|j: int| after.contains(j) implies before.remove(i).contains(j) by {
            if path.contains(p.beams[j].id) {
                let k = choose|k: int| 0 <= k < path.len() && path[k] == p.beams[j].id;
                assert(pushed[k] == p.beams[j].id);
            }
        }
    }
    vstd::set_lib::lemma_len_subset(after, before.remove(i));
}

proof fn fresh_is_kept(p: ProjectView, path: Seq<Seq<char>>, done: Seq<Seq<char>>)
    requires
        path.len() > 0,
    ensures
        fresh(p, path.drop_last(), done.push(path.last())) == fresh(p, path, done),
{
    let rest = path.drop_last();
    let more = done.push(path.last());
    assert forall|n: Seq<char>| (path.contains(n) || done.contains(n)) == (rest.contains(n)
        || more.contains(n)) by {
        if path.contains(n) {
            let k = choose|k: int| 0 <= k < path.len() && path[k] == n;
            if k < rest.len() {
                assert(rest[k] == n);
            } else {
                assert(more[done.len() as int] == n);
            }
        }
        if done.contains(n) {
            let k = choose|k: int| 0 <= k < done.len() && done[k] == n;
            assert(more[k] == n);
        }
        if rest.contains(n) {
            let k = choose|k: int| 0 <= k < rest.len() && rest[k] == n;
            assert(path[k] == n);
        }
        if more.contains(n) {
            let k = choose|k: int| 0 <= k < more.len() && more[k] == n;
            if k < done.len() {
                assert(done[k] == n);
            } else {
                assert(path[path.len() - 1] == n);
            }
        }
    }
    assert(fresh(p, rest, more) =~= fresh(p, path, done));
}

/// A path of different beams that leaves out one is shorter than the list of
/// beams.
proof fn path_is_short(p: ProjectView, places: Seq<usize>, i: int)
    requires
        0 <= i < p.beams.len(),
        forall|k: int| 0 <= k < places.len() ==> (#[trigger] places[k]) < p.beams.len(),
        names_at(p, places).no_duplicates(),
        !names_at(p, places).contains(p.beams[i].id),
    ensures
        places.len() < p.beams.len(),
{
    let names = names_at(p, places);
    let all = Seq::new(
        places.len() + 1,
        |k: int| if k < places.len() { places[k] as int } else { i },
    );
    assert(all.no_duplicates()) by {
        assert forall|a: int, b: int| 0 <= a < all.len() && 0 <= b < all.len() && a != b implies all[a] != all[b] by {
            if a < places.len() && b < places.len() {
                assert(names[a] != names[b]);
            } else if a < places.len() {
                assert(names[a] != p.beams[i].id);
            } else {
                assert(names[b] != p.beams[i].id);
            }
        }
    }
    all.unique_seq_to_set();
    let range = vstd::set_lib::set_int_range(0, p.beams.len() as int);
    vstd::set_lib::lemma_int_range(0, p.beams.len() as int);
    assert(all.to_set().subset_of(range));
    vstd::set_lib::lemma_len_subset(all.to_set(), range);
}

/// The places of each beam's needs.
spec fn resolved(p: ProjectView, targets: Seq<Vec<usize>>) -> bool {
    &&& targets.len() == p.beams.len()
    &&& forall|i: int| 0 <= i < targets.len() ==> resolved_at(p, #[trigger] targets[i]@, i)
}

spec fn resolved_at(p: ProjectView, places: Seq<usize>, i: int) -> bool {
    &&& places.len() == p.beams[i].needs.len()
    &&& forall|j: int|
        0 <= j < places.len() ==> place_of(p.beams, p.beams[i].needs[j].0) == Some(
            #[trigger] places[j] as int,
        )
}

/// Each beam's place by its name.
pub(crate) open spec fn canonical(p: ProjectView, canon: Seq<usize>) -> bool {
    &&& canon.len() == p.beams.len()
    &&& forall|i: int|
        0 <= i < canon.len() ==> place_of(p.beams, p.beams[i].id) == Some(
            #[trigger] canon[i] as int,
        )
}

/// `flags` says of each name whether it is in `done`.
spec fn flagged(p: ProjectView, canon: Seq<usize>, flags: Seq<bool>, done: Seq<Seq<char>>) -> bool {
    &&& flags.len() == p.beams.len()
    &&& forall|i: int|
        0 <= i < canon.len() ==> flags[#[trigger] canon[i] as int] == done.contains(p.beams[i].id)
}

/// Two beams have one name exactly where they have one canonical place.
pub(crate) proof fn canonical_tells_apart(p: ProjectView, canon: Seq<usize>, a: int, b: int)
    requires
        canonical(p, canon),
        0 <= a < canon.len(),
        0 <= b < canon.len(),
    ensures
        canon[a] == canon[b] <==> p.beams[a].id == p.beams[b].id,
        canon[a] < p.beams.len(),
{
    place_of_is_last(p.beams, p.beams[a].id);
    place_of_is_last(p.beams, p.beams[b].id);
}

/// The first place on the path that holds a name.
proof fn first_place_found(path: Seq<Seq<char>>, name: Seq<char>, k: int)
    requires
        0 <= k < path.len(),
        path[k] == name,
        forall|j: int| 0 <= j < k ==> path[j] != name,
    ensures
        first_place(path, name) == k,
    decreases path.len(),
{
    if k > 0 {
        assert(path.drop_first()[k - 1] == path[k]);
        assert forall|j: int| 0 <= j < k - 1 implies path.drop_first()[j] != name by {
            assert(path.drop_first()[j] == path[j + 1]);
        }
        first_place_found(path.drop_first(), name, k - 1);
    }
}

/// The error for a cycle that closes on beam `i` at the end of `path`.
fn cycle_found(project: &Project, path: &Vec<usize>, pos: usize, i: usize) -> (r: CoreError)
    requires
        i < project.beams@.len(),
        pos < path@.len(),
        forall|k: int| 0 <= k < path@.len() ==> (#[trigger] path@[k]) < project.beams@.len(),
        first_place(names_at(project@, path@), project@.beams[i as int].id) == pos,
    ensures
        r@ == cycle_error(names_at(project@, path@), project@.beams[i as int]),
{
    let ghost all = names_at(project@, path@);
    let mut cycle: Vec<String> = Vec::new();
    let mut k: usize = pos;
    while k < path.len()
        invariant
            pos <= k <= path@.len(),
            all == names_at(project@, path@),
            forall|j: int| 0 <= j < path@.len() ==> (#[trigger] path@[j]) < project.beams@.len(),
            views(cycle@) == all.subrange(pos as int, k as int),
        decreases path.len() - k,
    {
        let ghost before = views(cycle@);
        cycle.push(project.beams[path[k]].id.0.clone());
        assert(views(cycle@) =~= before.push(all[k as int]));
        assert(all.subrange(pos as int, k + 1) =~= all.subrange(pos as int, k as int).push(
            all[k as int],
        ));
        k += 1;
    }
    let ghost before = views(cycle@);
    cycle.push(project.beams[i].id.0.clone());
    assert(views(cycle@) =~= before.push(project@.beams[i as int].id));
    assert(all.subrange(pos as int, all.len() as int) =~= all.skip(pos as int));
    CoreError::new(
        text2("dependency cycle: ", join(&cycle, " → ").as_str()),
        project.beams[i].span,
    ).with_source_id(project.beams[i].source)
}

/// Where on the path a beam with the name of beam `i` stands.
fn position_on(project: &Project, canon: &Vec<usize>, path: &Vec<usize>, i: usize) -> (r: Option<usize>)
    requires
        canonical(project@, canon@),
        i < project.beams@.len(),
        forall|k: int| 0 <= k < path@.len() ==> (#[trigger] path@[k]) < project.beams@.len(),
    ensures
        match r {
            Some(pos) => {
                &&& pos < path@.len()
                &&& names_at(project@, path@).contains(project@.beams[i as int].id)
                &&& first_place(names_at(project@, path@), project@.beams[i as int].id) == pos
            },
            None => !names_at(project@, path@).contains(project@.beams[i as int].id),
        },
{
    let ghost all = names_at(project@, path@);
    let ghost name = project@.beams[i as int].id;
    let mut k: usize = 0;
    while k < path.len()
        invariant
            k <= path@.len(),
            canonical(project@, canon@),
            i < project.beams@.len(),
            all == names_at(project@, path@),
            name == project@.beams[i as int].id,
            forall|j: int| 0 <= j < path@.len() ==> (#[trigger] path@[j]) < project.beams@.len(),
            forall|j: int| 0 <= j < k ==> all[j] != name,
        decreases path.len() - k,
    {
        proof {
            canonical_tells_apart(project@, canon@, path@[k as int] as int, i as int);
        }
        if canon[path[k]] == canon[i] {
            proof {
                assert(all[k as int] == name);
                first_place_found(all, name, k as int);
            }
            return Some(k);
        }
        k += 1;
    }
    None
}

/// Searches for a cycle from beam `root`. `flags` marks the names searched
/// before, and those searched here.
#[verifier::rlimit(40)]
fn detect_cycle(
    project: &Project,
    canon: &Vec<usize>,
    targets: &Vec<Vec<usize>>,
    root: usize,
    flags: &mut Vec<bool>,
    Ghost(done): Ghost<Seq<Seq<char>>>,
) -> (r: Result<Ghost<Seq<Seq<char>>>, CoreError>)
    requires
        root < project.beams@.len(),
        canonical(project@, canon@),
        resolved(project@, targets@),
        flagged(project@, canon@, old(flags)@, done),
    ensures
        match r {
            Ok(after) => enter(project@, Seq::empty(), done, root as int) == Ok::<
                Seq<Seq<char>>,
                ErrorView,
            >(after@) && flagged(project@, canon@, final(flags)@, after@),
            Err(error) => enter(project@, Seq::empty(), done, root as int) == Err::<
                Seq<Seq<char>>,
                ErrorView,
            >(error@),
        },
{
    let ghost p = project@;
    let ghost whole = enter(p, Seq::empty(), done, root as int);
    let ghost mut left = done;
    let mut path: Vec<usize> = Vec::new();
    let mut stack: Vec<Step> = Vec::new();
    stack.push(Step::Enter(root));
    proof {
        assert(stack@.drop_last() =~= Seq::<Step>::empty());
        assert(names_at(p, path@) =~= Seq::<Seq<char>>::empty());
        assert(stack@.last() == Step::Enter(root));
        match whole {
            Ok(after) => {
                assert(resume(p, Seq::empty(), after, stack@.drop_last()) == whole);
            },
            Err(_) => {},
        }
        assert(resume(p, names_at(p, path@), left, stack@) == whole);
        assert(leaves(stack@.drop_last()) == 0);
        assert(project.beams.len() == p.beams.len());
        fresh_is_finite(p, names_at(p, path@), left);
    }
    while stack.len() > 0
        invariant
            p == project@,
            p.beams.len() <= usize::MAX,
            canonical(p, canon@),
            resolved(p, targets@),
            flagged(p, canon@, flags@, left),
            whole == enter(p, Seq::empty(), done, root as int),
            resume(p, names_at(p, path@), left, stack@) == whole,
            forall|k: int| 0 <= k < path@.len() ==> (#[trigger] path@[k]) < p.beams.len(),
            names_at(p, path@).no_duplicates(),
            forall|k: int|
                0 <= k < stack@.len() ==> (#[trigger] stack@[k] matches Step::Enter(i) ==> i
                    < p.beams.len()),
            leaves(stack@) == path@.len(),
            fresh(p, names_at(p, path@), left).finite(),
        decreases fresh(p, names_at(p, path@), left).len(), stack@.len(),
    {
        let ghost names = names_at(p, path@);
        let ghost before = stack@;
        let step = stack.pop().unwrap();
        assert(step == before.last());
        assert(stack@ == before.drop_last());
        match step {
            Step::Leave => {
                let i = path.pop().unwrap();
                proof {
                    assert(names_at(p, path@) =~= names.drop_last());
                    assert(names.last() == p.beams[i as int].id);
                    fresh_is_kept(p, names, left);
                }
                let ghost after = left.push(p.beams[i as int].id);
                proof {
                    canonical_tells_apart(p, canon@, i as int, i as int);
                    assert forall|j: int| 0 <= j < canon@.len() implies after.contains(p.beams[j].id) == (
                    left.contains(p.beams[j].id) || p.beams[j].id == p.beams[i as int].id) by {
                        assert(after[left.len() as int] == p.beams[i as int].id);
                        if left.contains(p.beams[j].id) {
                            let k = choose|k: int| 0 <= k < left.len() && left[k] == p.beams[j].id;
                            assert(after[k] == p.beams[j].id);
                        }
                    }
                }
                let ghost flags_before = flags@;
                flags.set(canon[i], true);
                proof {
                    assert forall|j: int| 0 <= j < canon@.len() implies flags@[#[trigger] canon@[j] as int]
                        == after.contains(p.beams[j].id) by {
                        canonical_tells_apart(p, canon@, i as int, j);
                        canonical_tells_apart(p, canon@, j, j);
                    }
                    left = after;
                    fresh_is_finite(p, names_at(p, path@), left);
                }
            },
            Step::Enter(i) => {
                assert(before[before.len() - 1] == Step::Enter(i));
                match position_on(project, canon, &path, i) {
                    Some(pos) => {
                        return Err(cycle_found(project, &path, pos, i));
                    },
                    None => {},
                }
                proof {
                    canonical_tells_apart(p, canon@, i as int, i as int);
                    path_is_short(p, path@, i as int);
                }
                if !flags[canon[i]] {
                    let ghost base = stack@.push(Step::Leave);
                    let ghost needs = p.beams[i as int].needs;
                    proof {
                        fresh_shrinks(p, names, left, i as int);
                    }
                    path.push(i);
                    stack.push(Step::Leave);
                    let ghost pushed = names_at(p, path@);
                    proof {
                        assert(pushed =~= names.push(p.beams[i as int].id));
                        assert(resolved_at(p, targets@[i as int]@, i as int));
                        assert(with_needs(p, base, needs, needs.len() as int) =~= base);
                    }
                    let mut j: usize = targets[i].len();
                    while j > 0
                        invariant
                            i < targets@.len(),
                            p.beams.len() <= usize::MAX,
                            resolved_at(p, targets@[i as int]@, i as int),
                            needs == p.beams[i as int].needs,
                            j <= targets@[i as int]@.len(),
                            stack@ == with_needs(p, base, needs, j as int),
                            leaves(stack@) == leaves(base),
                            forall|k: int|
                                0 <= k < stack@.len() ==> (#[trigger] stack@[k] matches Step::Enter(t) ==> t
                                    < p.beams.len()),
                        decreases j,
                    {
                        j -= 1;
                        let target: usize = targets[i][j];
                        let ghost shorter = stack@;
                        proof {
                            place_of_is_last(p.beams, needs[j as int].0);
                            assert(place_of(p.beams, needs[j as int].0) == Some(target as int));
                        }
                        stack.push(Step::Enter(target));
                        proof {
                            assert(stack@ =~= with_needs(p, base, needs, j as int));
                            assert(stack@.drop_last() =~= shorter);
                        }
                    }
                    proof {
                        assert forall|q: int| 0 <= q < needs.len() implies place_of(
                            p.beams,
                            (#[trigger] needs[q]).0,
                        ) is Some by {
                            assert(place_of(p.beams, needs[q].0) == Some(
                                targets@[i as int]@[q] as int,
                            ));
                        }
                        resume_enters_needs(p, pushed, left, base, needs, 0);
                        assert(base.drop_last() =~= before.drop_last());
                        match enter_needs(p, pushed, left, needs, 0) {
                            Ok(after) => {
                                assert(pushed.drop_last() =~= names);
                                assert(base.last() is Leave);
                            },
                            Err(_) => {},
                        }
                        assert(leaves(base) == leaves(before.drop_last()) + 1);
                        fresh_is_finite(p, names_at(p, path@), left);
                    }
                }
            },
        }
    }
    Ok(Ghost(left))
}

/// How many beams a stack still has to leave.
spec fn leaves(stack: Seq<Step>) -> nat
    decreases stack.len(),
{
    if stack.len() == 0 {
        0
    } else if stack.last() is Leave {
        leaves(stack.drop_last()) + 1
    } else {
        leaves(stack.drop_last())
    }
}

/// The place of each beam by its name.
pub(crate) fn canonical_places(project: &Project) -> (r: Vec<usize>)
    ensures
        canonical(project@, r@),
{
    let mut out: Vec<usize> = Vec::new();
    let mut i: usize = 0;
    while i < project.beams.len()
        invariant
            i <= project.beams@.len(),
            out@.len() == i,
            forall|k: int|
                0 <= k < i ==> place_of(project@.beams, project@.beams[k].id) == Some(
                    #[trigger] out@[k] as int,
                ),
        decreases project.beams.len() - i,
    {
        proof {
            place_of_is_last(project@.beams, project@.beams[i as int].id);
        }
        match index_of(project, project.beams[i].id.0.as_str()) {
            Some(place) => {
                out.push(place);
            },
            None => {
                assert(false);
            },
        }
        i += 1;
    }
    out
}

/// The places that beam `i` needs, or the error for the first entry that
/// names no beam.
fn resolve_needs(project: &Project, i: usize) -> (r: Result<Vec<usize>, CoreError>)
    requires
        i < project.beams@.len(),
    ensures
        match r {
            Ok(places) => resolved_at(project@, places@, i as int) && beam_needs_verdict(project@)(
                i as int,
            ) is Ok,
            Err(error) => beam_needs_verdict(project@)(i as int) == Err::<(), ErrorView>(error@),
        },
{
    let ghost p = project@;
    let beam = &project.beams[i];
    let ghost needs = p.beams[i as int].needs;
    let mut out: Vec<usize> = Vec::new();
    let mut j: usize = 0;
    while j < beam.needs.len()
        invariant
            p == project@,
            i < project.beams@.len(),
            *beam == project.beams@[i as int],
            needs == p.beams[i as int].needs,
            needs.len() == beam.needs@.len(),
            j <= beam.needs@.len(),
            out@.len() == j,
            forall|k: int|
                0 <= k < j ==> place_of(p.beams, needs[k].0) == Some(#[trigger] out@[k] as int),
            collect(j as nat, need_verdict(p, i as int)) is Ok,
        decreases beam.needs.len() - j,
    {
        let need = &beam.needs[j];
        assert(needs[j as int] == (need.value@, need.span));
        match index_of(project, need.value.0.as_str()) {
            Some(place) => {
                out.push(place);
            },
            None => {
                proof {
                    collect_fails_early(needs.len(), (j + 1) as nat, need_verdict(p, i as int));
                }
                return Err(
                    unknown_beam_error(project, need.value.0.as_str(), Some(need.span)).with_source_id(
                        beam.source,
                    ),
                );
            },
        }
        j += 1;
    }
    Ok(out)
}

/// Checks that every `needs` entry and the default name a beam that exists,
/// and that no beam needs itself, directly or through others.
pub fn validate_graph(project: &Project) -> (r: Result<(), CoreError>)
    ensures
        result_view(r, |u: ()| u) == graph_verdict(project@),
{
    let ghost p = project@;
    let mut targets: Vec<Vec<usize>> = Vec::new();
    let mut i: usize = 0;
    while i < project.beams.len()
        invariant
            p == project@,
            i <= project.beams@.len(),
            targets@.len() == i,
            forall|k: int| 0 <= k < i ==> resolved_at(p, #[trigger] targets@[k]@, k),
            collect(i as nat, beam_needs_verdict(p)) is Ok,
        decreases project.beams.len() - i,
    {
        match resolve_needs(project, i) {
            Ok(places) => {
                targets.push(places);
            },
            Err(error) => {
                proof {
                    collect_fails_early(p.beams.len(), (i + 1) as nat, beam_needs_verdict(p));
                }
                return Err(error);
            },
        }
        i += 1;
    }
    match &project.default {
        Some(default) => match index_of(project, default.value.0.as_str()) {
            Some(_) => {},
            None => {
                return Err(
                    unknown_beam_error(project, default.value.0.as_str(), Some(default.span)),
                );
            },
        },
        None => {},
    }
    let canon = canonical_places(project);
    let mut flags: Vec<bool> = Vec::new();
    let mut k: usize = 0;
    while k < project.beams.len()
        invariant
            k <= project.beams@.len(),
            flags@.len() == k,
            forall|j: int| 0 <= j < k ==> !#[trigger] flags@[j],
        decreases project.beams.len() - k,
    {
        flags.push(false);
        k += 1;
    }
    let ghost mut done: Seq<Seq<char>> = Seq::empty();
    proof {
        assert forall|j: int| 0 <= j < canon@.len() implies flags@[#[trigger] canon@[j] as int] == done.contains(
            p.beams[j].id,
        ) by {
            canonical_tells_apart(p, canon@, j, j);
        }
    }
    let mut n: usize = 0;
    while n < project.beams.len()
        invariant
            p == project@,
            n <= project.beams@.len(),
            canonical(p, canon@),
            resolved(p, targets@),
            flagged(p, canon@, flags@, done),
            collect(p.beams.len(), beam_needs_verdict(p)) is Ok,
            default_verdict(p) is Ok,
            search_from(p, Seq::empty(), 0) == search_from(p, done, n as int),
        decreases project.beams.len() - n,
    {
        match detect_cycle(project, &canon, &targets, n, &mut flags, Ghost(done)) {
            Ok(after) => {
                proof {
                    done = after@;
                }
            },
            Err(error) => {
                return Err(error);
            },
        }
        n += 1;
    }
    Ok(())
}

/// Beam `a` needs `b` directly.
pub open spec fn edge(p: ProjectView, a: Seq<char>, b: Seq<char>) -> bool {
    place_of(p.beams, a) matches Some(i) && exists|j: int|
        0 <= j < p.beams[i].needs.len() && (#[trigger] p.beams[i].needs[j]).0 == b
}

/// Each name of the walk needs the next.
pub open spec fn is_walk(p: ProjectView, w: Seq<Seq<char>>) -> bool {
    &&& w.len() >= 1
    &&& forall|k: int| 0 <= k < w.len() - 1 ==> edge(p, #[trigger] w[k], w[k + 1])
}

/// `b` is `a`, or something that `a` needs, directly or through others.
pub open spec fn reaches(p: ProjectView, a: Seq<char>, b: Seq<char>) -> bool {
    exists|w: Seq<Seq<char>>| #[trigger] is_walk(p, w) && w[0] == a && w.last() == b
}

/// Every name that a project's beams have or need.
pub open spec fn mentioned(beams: Seq<BeamView>) -> Set<Seq<char>>
    decreases beams.len(),
{
    if beams.len() == 0 {
        Set::empty()
    } else {
        mentioned(beams.drop_last()) + Seq::new(
            beams.last().needs.len(),
            |j: int| beams.last().needs[j].0,
        ).to_set().insert(beams.last().id)
    }
}

proof fn mentioned_holds(beams: Seq<BeamView>, i: int)
    requires
        0 <= i < beams.len(),
    ensures
        mentioned(beams).finite(),
        mentioned(beams).contains(beams[i].id),
        forall|j: int|
            0 <= j < beams[i].needs.len() ==> mentioned(beams).contains(
                (#[trigger] beams[i].needs[j]).0,
            ),
    decreases beams.len(),
{
    let last = Seq::new(beams.last().needs.len(), |j: int| beams.last().needs[j].0);
    mentioned_is_finite(beams);
    if i < beams.len() - 1 {
        mentioned_holds(beams.drop_last(), i);
        assert(beams.drop_last()[i] == beams[i]);
    } else {
        assert forall|j: int| 0 <= j < beams[i].needs.len() implies mentioned(beams).contains(
            (#[trigger] beams[i].needs[j]).0,
        ) by {
            assert(last[j] == beams[i].needs[j].0);
        }
    }
}

proof fn mentioned_is_finite(beams: Seq<BeamView>)
    ensures
        mentioned(beams).finite(),
    decreases beams.len(),
{
    if beams.len() > 0 {
        mentioned_is_finite(beams.drop_last());
        vstd::seq_lib::seq_to_set_is_finite(
            Seq::new(beams.last().needs.len(), |j: int| beams.last().needs[j].0),
        );
    }
}

/// What is reached from a name that is reached is reached.
pub proof fn reaches_one_more(p: ProjectView, a: Seq<char>, b: Seq<char>, c: Seq<char>)
    requires
        reaches(p, a, b),
        edge(p, b, c),
    ensures
        reaches(p, a, c),
{
    let w = choose|w: Seq<Seq<char>>| #[trigger] is_walk(p, w) && w[0] == a && w.last() == b;
    let longer = w.push(c);
    assert forall|k: int| 0 <= k < longer.len() - 1 implies edge(
        p,
        #[trigger] longer[k],
        longer[k + 1],
    ) by {
        if k < w.len() - 1 {
            assert(edge(p, w[k], w[k + 1]));
        }
    }
    assert(is_walk(p, longer));
}

/// A set that holds `a` and every beam that its members need holds every beam
/// that `a` reaches.
proof fn closed_sets_hold_what_is_reached(
    p: ProjectView,
    set: Seq<Seq<char>>,
    w: Seq<Seq<char>>,
)
    requires
        is_walk(p, w),
        set.contains(w[0]),
        forall|x: Seq<char>, y: Seq<char>|
            set.contains(x) && edge(p, x, y) && place_of(p.beams, y) is Some ==> set.contains(y),
        place_of(p.beams, w.last()) is Some,
    ensures
        set.contains(w.last()),
    decreases w.len(),
{
    if w.len() > 1 {
        let shorter = w.drop_last();
        assert forall|k: int| 0 <= k < shorter.len() - 1 implies edge(
            p,
            #[trigger] shorter[k],
            shorter[k + 1],
        ) by {
            assert(edge(p, w[k], w[k + 1]));
        }
        assert(edge(p, w[w.len() - 2], w[w.len() - 2 + 1]));
        assert(place_of(p.beams, shorter.last()) is Some);
        closed_sets_hold_what_is_reached(p, set, shorter);
    }
}

/// The names of a list of ids.
pub open spec fn id_views(ids: Seq<BeamId>) -> Seq<Seq<char>> {
    Seq::new(ids.len(), |i: int| ids[i]@)
}

/// Whether `ids` holds `name`.
pub fn holds_id(ids: &Vec<BeamId>, name: &str) -> (r: bool)
    ensures
        r == id_views(ids@).contains(name@),
{
    let mut i: usize = 0;
    while i < ids.len()
        invariant
            i <= ids.len(),
            forall|k: int| 0 <= k < i ==> id_views(ids@)[k] != name@,
        decreases ids.len() - i,
    {
        if same_text(ids[i].0.as_str(), name) {
            assert(id_views(ids@)[i as int] == name@);
            return true;
        }
        i += 1;
    }
    false
}

/// `found` holds beams that `target` reaches, each once, and every beam that
/// the first `q` of them need.
spec fn partial_closure(
    p: ProjectView,
    found: Seq<Seq<char>>,
    target: Seq<char>,
    q: int,
) -> bool {
    &&& found.no_duplicates()
    &&& found.len() > 0
    &&& found[0] == target
    &&& found.len() <= mentioned(p.beams).len()
    &&& forall|k: int|
        0 <= k < found.len() ==> reaches(p, target, #[trigger] found[k]) && mentioned(
            p.beams,
        ).contains(found[k]) && place_of(p.beams, found[k]) is Some
    &&& forall|k: int, y: Seq<char>|
        0 <= k < q && edge(p, found[k], y) && place_of(p.beams, y) is Some ==> found.contains(y)
}

proof fn partial_closure_grows(
    p: ProjectView,
    found: Seq<Seq<char>>,
    target: Seq<char>,
    q: int,
    name: Seq<char>,
)
    requires
        partial_closure(p, found, target, q),
        0 <= q < found.len(),
        edge(p, found[q], name),
        place_of(p.beams, name) is Some,
        !found.contains(name),
    ensures
        partial_closure(p, found.push(name), target, q),
{
    let more = found.push(name);
    reaches_one_more(p, target, found[q], name);
    let i = place_of(p.beams, found[q])->Some_0;
    place_of_is_last(p.beams, found[q]);
    mentioned_holds(p.beams, i);
    let j = choose|j: int|
        0 <= j < p.beams[i].needs.len() && (#[trigger] p.beams[i].needs[j]).0 == name;
    assert(mentioned(p.beams).contains(p.beams[i].needs[j].0));
    more.unique_seq_to_set();
    assert(more.to_set().subset_of(mentioned(p.beams)));
    vstd::set_lib::lemma_len_subset(more.to_set(), mentioned(p.beams));
    assert forall|k: int, y: Seq<char>| 0 <= k < q && edge(p, more[k], y) && place_of(
        p.beams,
        y,
    ) is Some implies more.contains(y) by {
        assert(edge(p, found[k], y));
        assert(found.contains(y));
        let t = choose|t: int| 0 <= t < found.len() && found[t] == y;
        assert(more[t] == y);
    }
}

/// `target` and every beam that it needs, directly or through others, each
/// once. A `needs` entry that names no beam is skipped.
pub fn execution_subgraph(project: &Project, target: &BeamId) -> (r: Result<
    Vec<BeamId>,
    CoreError,
>)
    ensures
        match r {
            Ok(ids) => {
                &&& place_of(project@.beams, target@) is Some
                &&& id_views(ids@).no_duplicates()
                &&& forall|n: Seq<char>|
                    id_views(ids@).contains(n) <==> #[trigger] reaches(project@, target@, n)
                        && place_of(project@.beams, n) is Some
            },
            Err(error) => {
                &&& place_of(project@.beams, target@) is None
                &&& error@ == unknown_beam(project@, target@, None)
            },
        },
{
    let ghost p = project@;
    match index_of(project, target.0.as_str()) {
        Some(_) => {},
        None => {
            return Err(unknown_beam_error(project, target.0.as_str(), None));
        },
    }
    let mut found: Vec<BeamId> = Vec::new();
    found.push(target.clone());
    let ghost mut names = id_views(found@);
    proof {
        place_of_is_last(p.beams, target@);
        mentioned_holds(p.beams, place_of(p.beams, target@)->Some_0);
        assert(names[0] == target@);
        assert(is_walk(p, seq![target@]));
        assert(names.no_duplicates());
        names.unique_seq_to_set();
        assert(names.to_set().subset_of(mentioned(p.beams)));
        vstd::set_lib::lemma_len_subset(names.to_set(), mentioned(p.beams));
    }
    let mut q: usize = 0;
    while q < found.len()
        invariant
            p == project@,
            q <= found@.len(),
            names == id_views(found@),
            partial_closure(p, names, target@, q as int),
        decreases mentioned(p.beams).len() - found@.len(), found@.len() - q,
    {
        let id = found[q].clone();
        match index_of(project, id.0.as_str()) {
            None => {},
            Some(i) => {
                let beam = &project.beams[i];
                let ghost needs = p.beams[i as int].needs;
                let mut j: usize = 0;
                let ghost outer = found@.len();
                while j < beam.needs.len()
                    invariant
                        p == project@,
                        i < project.beams@.len(),
                        *beam == project.beams@[i as int],
                        needs == p.beams[i as int].needs,
                        q < found@.len(),
                        outer <= found@.len(),
                        j <= beam.needs@.len(),
                        names == id_views(found@),
                        id@ == names[q as int],
                        place_of(p.beams, id@) == Some(i as int),
                        partial_closure(p, names, target@, q as int),
                        forall|k: int|
                            0 <= k < j && place_of(p.beams, (#[trigger] needs[k]).0) is Some
                                ==> names.contains(needs[k].0),
                    decreases beam.needs.len() - j,
                {
                    let need = &beam.needs[j].value;
                    assert(needs[j as int].0 == need@);
                    let known = index_of(project, need.0.as_str()).is_some();
                    if known && !holds_id(&found, need.0.as_str()) {
                        let ghost before = names;
                        found.push(need.clone());
                        proof {
                            assert(edge(p, names[q as int], need@));
                            partial_closure_grows(p, names, target@, q as int, need@);
                            names = id_views(found@);
                            assert(names =~= before.push(need@));
                            assert(names[before.len() as int] == need@);
                            assert forall|k: int|
                                0 <= k < j && place_of(p.beams, (#[trigger] needs[k]).0) is Some implies names.contains(
                                needs[k].0,
                            ) by {
                                let t = choose|t: int| 0 <= t < before.len() && before[t] == needs[k].0;
                                assert(names[t] == needs[k].0);
                            }
                        }
                    }
                    j += 1;
                }
            },
        }
        proof {
            assert forall|k: int, y: Seq<char>| 0 <= k < q + 1 && edge(p, names[k], y)
                && place_of(p.beams, y) is Some implies names.contains(y) by {
            }
        }
        q += 1;
    }
    proof {
        assert forall|n: Seq<char>| names.contains(n) <==> #[trigger] reaches(p, target@, n)
            && place_of(p.beams, n) is Some by {
            if reaches(p, target@, n) && place_of(p.beams, n) is Some {
                let w = choose|w: Seq<Seq<char>>| #[trigger]
                    is_walk(p, w) && w[0] == target@ && w.last() == n;
                assert forall|x: Seq<char>, y: Seq<char>| names.contains(x) && edge(p, x, y)
                    && place_of(p.beams, y) is Some implies names.contains(y) by {
                    let k = choose|k: int| 0 <= k < names.len() && names[k] == x;
                    assert(edge(p, names[k], y));
                }
                closed_sets_hold_what_is_reached(p, names, w);
            }
        }
    }
    Ok(found)
}

} // verus!
