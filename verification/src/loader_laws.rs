//! What holds of every load: each file is loaded once, every beam and every
//! error belongs to a file that was read, and git is asked only where a file
//! reads it.

use vstd::prelude::*;
use crate::error::ErrorView;
use crate::git_reads::file_reads_git;
use crate::graph::{
    beam_needs_verdict, enter, enter_needs, graph_verdict, need_verdict, place_of,
    place_of_is_last, search_from,
};
use crate::loader::{
    all_under_alias, beam_dir_of, duplicate_alias, entry_place, file_loaded, file_read,
    import_base_of, import_count, imports_loaded, loaded_place, loaded_project, project_loaded,
    stack_place,
    FileEntry, Gathered, Inputs, LoadView, LoadedView, Outcome, ReadFile,
};
use crate::model::{BeamView, ProjectView, SourceId};
use crate::paths::joined_path;
use crate::project::{beam_at, collect, collect_gives_each, lets_of, project_of};
use crate::scope::GitView;
use crate::syntax::{Import, Span};

verus! {

/// Every beam comes from one of `n` files.
pub open spec fn beams_within(beams: Seq<BeamView>, n: nat) -> bool {
    forall|i: int| 0 <= i < beams.len() ==> (#[trigger] beams[i]).source.0 < n
}

/// A canonical path that the table knows.
pub open spec fn is_canonical(entries: Seq<FileEntry>, path: Seq<char>) -> bool {
    exists|k: int|
        0 <= k < entries.len() && ((#[trigger] entries[k]).canonical matches Ok(c) && c@ == path)
}

/// The canonical paths of the files loaded, then of those on the stack.
pub open spec fn seen(stack: Seq<(Seq<char>, Seq<char>)>, g: Gathered) -> Seq<Seq<char>> {
    Seq::new(g.loaded.len(), |i: int| g.loaded[i].canonical) + Seq::new(
        stack.len(),
        |i: int| stack[i].0,
    )
}

/// Every file read is loaded or on the stack, none of them twice, and every
/// beam so far comes from a file read.
pub open spec fn sound(t: Inputs, stack: Seq<(Seq<char>, Seq<char>)>, g: Gathered) -> bool {
    &&& seen(stack, g).no_duplicates()
    &&& forall|i: int|
        0 <= i < seen(stack, g).len() ==> is_canonical(t.entries, #[trigger] seen(stack, g)[i])
    &&& g.sources.len() == g.loaded.len() + stack.len()
    &&& forall|i: int|
        0 <= i < g.loaded.len() ==> beams_within((#[trigger] g.loaded[i]).beams, g.sources.len())
}

pub(crate) proof fn entry_place_fits(entries: Seq<FileEntry>, path: Seq<char>)
    ensures
        entry_place(entries, path) matches Some(k) ==> 0 <= k < entries.len(),
    decreases entries.len(),
{
    if entries.len() > 0 && entries.last().path@ != path {
        entry_place_fits(entries.drop_last(), path);
    }
}

pub(crate) proof fn not_on_stack(stack: Seq<(Seq<char>, Seq<char>)>, canonical: Seq<char>)
    requires
        stack_place(stack, canonical) is None,
    ensures
        forall|i: int| 0 <= i < stack.len() ==> (#[trigger] stack[i]).0 != canonical,
    decreases stack.len(),
{
    if stack.len() > 0 {
        not_on_stack(stack.drop_last(), canonical);
        assert forall|i: int| 0 <= i < stack.len() implies (#[trigger] stack[i]).0 != canonical by {
            if i < stack.len() - 1 {
                assert(stack.drop_last()[i] == stack[i]);
            }
        }
    }
}

pub(crate) proof fn not_loaded(loaded: Seq<LoadedView>, canonical: Seq<char>)
    ensures
        match loaded_place(loaded, canonical) {
            Some(i) => 0 <= i < loaded.len(),
            None => forall|i: int|
                0 <= i < loaded.len() ==> (#[trigger] loaded[i]).canonical != canonical,
        },
    decreases loaded.len(),
{
    if loaded.len() > 0 {
        not_loaded(loaded.drop_last(), canonical);
        if loaded_place(loaded, canonical) is None {
            assert forall|i: int| 0 <= i < loaded.len() implies (#[trigger] loaded[i]).canonical
                != canonical by {
                if i < loaded.len() - 1 {
                    assert(loaded.drop_last()[i] == loaded[i]);
                }
            }
        }
    }
}

/// Different canonical paths are at different places of the table, so there
/// are no more of them than entries.
pub(crate) proof fn no_more_than_entries(entries: Seq<FileEntry>, paths: Seq<Seq<char>>)
    requires
        paths.no_duplicates(),
        forall|i: int| 0 <= i < paths.len() ==> is_canonical(entries, #[trigger] paths[i]),
    ensures
        paths.len() <= entries.len(),
    decreases entries.len(),
{
    if paths.len() > 0 {
        let x = paths[0];
        assert(is_canonical(entries, x));
        let k0 = choose|k: int|
            0 <= k < entries.len() && ((#[trigger] entries[k]).canonical matches Ok(c) && c@ == x);
        let last = entries.last();
        let front = entries.drop_last();
        match last.canonical {
            Err(_) => {
                assert forall|i: int| 0 <= i < paths.len() implies is_canonical(
                    front,
                    #[trigger] paths[i],
                ) by {
                    assert(is_canonical(entries, paths[i]));
                    let k = choose|k: int|
                        0 <= k < entries.len() && ((#[trigger] entries[k]).canonical matches Ok(c)
                            && c@ == paths[i]);
                    assert(front[k] == entries[k]);
                }
                no_more_than_entries(front, paths);
            },
            Ok(canonical) => {
                if paths.contains(canonical@) {
                    let p = choose|p: int| 0 <= p < paths.len() && paths[p] == canonical@;
                    let rest = paths.remove(p);
                    assert forall|i: int| 0 <= i < rest.len() implies is_canonical(
                        front,
                        #[trigger] rest[i],
                    ) by {
                        let j = if i < p {
                            i
                        } else {
                            i + 1
                        };
                        assert(rest[i] == paths[j]);
                        assert(is_canonical(entries, paths[j]));
                        let k = choose|k: int|
                            0 <= k < entries.len() && ((#[trigger] entries[k]).canonical matches Ok(
                                c,
                            ) && c@ == paths[j]);
                        assert(paths[j] != paths[p]);
                        assert(front[k] == entries[k]);
                    }
                    assert(rest.no_duplicates()) by {
                        assert forall|a: int, b: int|
                            0 <= a < rest.len() && 0 <= b < rest.len() && a != b implies rest[a]
                            != rest[b] by {
                            let c = if a < p {
                                a
                            } else {
                                a + 1
                            };
                            let d = if b < p {
                                b
                            } else {
                                b + 1
                            };
                            assert(rest[a] == paths[c] && rest[b] == paths[d]);
                        }
                    }
                    no_more_than_entries(front, rest);
                } else {
                    assert forall|i: int| 0 <= i < paths.len() implies is_canonical(
                        front,
                        #[trigger] paths[i],
                    ) by {
                        assert(is_canonical(entries, paths[i]));
                        let k = choose|k: int|
                            0 <= k < entries.len() && ((#[trigger] entries[k]).canonical matches Ok(
                                c,
                            ) && c@ == paths[i]);
                        assert(paths.contains(paths[i]));
                        assert(front[k] == entries[k]);
                    }
                    no_more_than_entries(front, paths);
                }
            },
        }
    }
}

/// Putting a new file on the stack keeps the files apart, and leaves room in
/// the table.
pub(crate) proof fn pushed_is_sound(
    t: Inputs,
    stack: Seq<(Seq<char>, Seq<char>)>,
    g: Gathered,
    canonical: Seq<char>,
    path: Seq<char>,
    text: Seq<char>,
    k: int,
)
    requires
        sound(t, stack, g),
        0 <= k < t.entries.len(),
        t.entries[k].canonical matches Ok(c) && c@ == canonical,
        stack_place(stack, canonical) is None,
        loaded_place(g.loaded, canonical) is None,
    ensures
        sound(
            t,
            stack.push((canonical, path)),
            Gathered { sources: g.sources.push((path, text)), ..g },
        ),
        stack.len() < t.entries.len(),
        g.sources.len() < t.entries.len(),
{
    let after = Gathered { sources: g.sources.push((path, text)), ..g };
    let longer = stack.push((canonical, path));
    not_on_stack(stack, canonical);
    not_loaded(g.loaded, canonical);
    let before = seen(stack, g);
    let now = seen(longer, after);
    assert(now =~= before.push(canonical));
    assert(is_canonical(t.entries, canonical));
    assert forall|i: int| 0 <= i < before.len() implies before[i] != canonical by {
        if i < g.loaded.len() {
            assert(before[i] == g.loaded[i].canonical);
        } else {
            assert(before[i] == stack[i - g.loaded.len()].0);
        }
    }
    assert(now.no_duplicates()) by {
        assert forall|a: int, b: int|
            0 <= a < now.len() && 0 <= b < now.len() && a != b implies now[a] != now[b] by {
            if a < before.len() && b < before.len() {
                assert(before[a] != before[b]);
            }
        }
    }
    assert forall|i: int| 0 <= i < now.len() implies is_canonical(t.entries, #[trigger] now[i]) by {
        if i < before.len() {
            assert(is_canonical(t.entries, before[i]));
        }
    }
    no_more_than_entries(t.entries, now);
    assert forall|i: int| 0 <= i < after.loaded.len() implies beams_within(
        (#[trigger] after.loaded[i]).beams,
        after.sources.len(),
    ) by {
        assert(beams_within(g.loaded[i].beams, g.sources.len()));
    }
}

/// A file's own beams come from it, and its errors point into it.
proof fn own_beams(
    file: crate::syntax::File,
    dir: Seq<char>,
    git: GitView,
    env: crate::scope::Environment,
    source: SourceId,
)
    ensures
        match project_of(file, dir, git, env, source) {
            Ok(own) => forall|i: int| 0 <= i < own.beams.len() ==> (#[trigger] own.beams[i]).source
                == source,
            Err(x) => x.source_id == source,
        },
{
    if let Ok(lets) = lets_of(file.lets@, git, env) {
        collect_gives_each(file.beams@.len(), beam_at(file.beams@, lets, dir, env, source));
    }
}

/// What loading a file leaves behind: what was gathered stays sound, and a
/// failure points into a file that was read.
pub open spec fn left_sound(
    t: Inputs,
    stack: Seq<(Seq<char>, Seq<char>)>,
    g: Gathered,
    r: (Outcome, Gathered),
    from: SourceId,
) -> bool {
    &&& r.1.sources.len() >= g.sources.len()
    &&& match r.0 {
        Outcome::Loaded(i) => sound(t, stack, r.1) && 0 <= i < r.1.loaded.len(),
        Outcome::Failed(x) => x.source_id.0 < r.1.sources.len() || x.source_id == from,
        Outcome::Read(_) => true,
        Outcome::AskGit => asks_rightly(t),
    }
}

/// Git has not been asked, and a file of the table reads it.
pub open spec fn asks_rightly(t: Inputs) -> bool {
    t.git is Unavailable && exists|k: int|
        0 <= k < t.entries.len() && ((#[trigger] t.entries[k]).read matches Ok(file)
            && file.parsed matches Ok(parsed) && file_reads_git(parsed))
}

pub(crate) proof fn file_loaded_sound(
    t: Inputs,
    stack: Seq<(Seq<char>, Seq<char>)>,
    g: Gathered,
    path: Seq<char>,
    span: Span,
    from: SourceId,
)
    requires
        sound(t, stack, g),
        t.entries.len() <= usize::MAX,
    ensures
        left_sound(t, stack, g, file_loaded(t, stack, g, path, span, from), from),
    decreases t.entries.len() - stack.len(), 0int,
{
    entry_place_fits(t.entries, path);
    if let Some(k) = entry_place(t.entries, path) {
        if let Ok(canonical) = t.entries[k].canonical {
            if stack_place(stack, canonical@) is None {
                not_loaded(g.loaded, canonical@);
                if loaded_place(g.loaded, canonical@) is None {
                    if let Ok(file) = t.entries[k].read {
                        if let Ok(dir) = beam_dir_of(path, t.cwd, span) {
                            pushed_is_sound(t, stack, g, canonical@, path, file.text@, k);
                            let longer = stack.push((canonical@, path));
                            let after = Gathered { sources: g.sources.push((path, file.text@)), ..g };
                            let id = SourceId(g.sources.len() as usize);
                            file_read_sound(t, longer, after, path, dir, file, id, k);
                            assert(longer.drop_last() =~= stack);
                        }
                    }
                }
            }
        }
    }
}

proof fn file_read_sound(
    t: Inputs,
    stack: Seq<(Seq<char>, Seq<char>)>,
    g: Gathered,
    path: Seq<char>,
    dir: Seq<char>,
    file: ReadFile,
    id: SourceId,
    k: int,
)
    requires
        stack.len() > 0,
        sound(t, stack, g),
        t.entries.len() <= usize::MAX,
        id.0 < g.sources.len(),
        0 <= k < t.entries.len(),
        t.entries[k].read == Ok::<ReadFile, String>(file),
    ensures
        left_sound(
            t,
            stack.drop_last(),
            g,
            file_read(t, stack, g, path, dir, file, id),
            id,
        ),
        file_read(t, stack, g, path, dir, file, id).0 matches Outcome::Failed(x)
            ==> x.source_id.0 < file_read(t, stack, g, path, dir, file, id).1.sources.len(),
    decreases t.entries.len() - stack.len(), import_count(file) + 2,
{
    if let Ok(parsed) = file.parsed {
        if duplicate_alias(parsed.imports@) is None {
            if file_reads_git(parsed) && t.git is Unavailable {
                assert(asks_rightly(t));
            } else {
                own_beams(parsed, dir, t.git, t.env, id);
                if let Ok(own) = project_of(parsed, dir, t.git, t.env, id) {
                    let loaded = LoadedView {
                        canonical: stack.last().0,
                        beams: own.beams,
                        default: own.default,
                        hooks: own.hooks,
                    };
                    assert(beams_within(loaded.beams, g.sources.len()));
                    imports_loaded_sound(
                        t,
                        stack,
                        g,
                        parsed.imports@,
                        0,
                        import_base_of(path),
                        id,
                        loaded,
                    );
                }
            }
        }
    }
}

/// A file that is loaded leaves the stack and joins those loaded.
pub(crate) proof fn finished_is_sound(
    t: Inputs,
    stack: Seq<(Seq<char>, Seq<char>)>,
    g: Gathered,
    own: LoadedView,
)
    requires
        stack.len() > 0,
        sound(t, stack, g),
        own.canonical == stack.last().0,
        beams_within(own.beams, g.sources.len()),
    ensures
        sound(t, stack.drop_last(), Gathered { loaded: g.loaded.push(own), ..g }),
{
    let after = Gathered { loaded: g.loaded.push(own), ..g };
    let shorter = stack.drop_last();
    let before = seen(stack, g);
    let now = seen(shorter, after);
    let n = g.loaded.len() as int;
    assert(now.len() == before.len());
    assert forall|i: int| 0 <= i < now.len() implies now[i] == before[if i < n {
        i
    } else if i == n {
        before.len() - 1
    } else {
        i - 1
    }] by {
        if i < n {
        } else if i == n {
            assert(before[before.len() - 1] == stack[stack.len() - 1].0);
        } else {
            assert(now[i] == shorter[i - n - 1].0);
            assert(before[i - 1] == stack[i - 1 - n].0);
        }
    }
    assert(now.no_duplicates()) by {
        assert forall|a: int, b: int|
            0 <= a < now.len() && 0 <= b < now.len() && a != b implies now[a] != now[b] by {
            let c = if a < n {
                a
            } else if a == n {
                before.len() - 1
            } else {
                a - 1
            };
            let d = if b < n {
                b
            } else if b == n {
                before.len() - 1
            } else {
                b - 1
            };
            assert(now[a] == before[c] && now[b] == before[d]);
            assert(c != d);
        }
    }
    assert forall|i: int| 0 <= i < now.len() implies is_canonical(t.entries, #[trigger] now[i]) by {
        let c = if i < n {
            i
        } else if i == n {
            before.len() - 1
        } else {
            i - 1
        };
        assert(is_canonical(t.entries, before[c]));
    }
    assert forall|i: int| 0 <= i < after.loaded.len() implies beams_within(
        (#[trigger] after.loaded[i]).beams,
        after.sources.len(),
    ) by {
        if i < n {
            assert(beams_within(g.loaded[i].beams, g.sources.len()));
        }
    }
}

proof fn imports_loaded_sound(
    t: Inputs,
    stack: Seq<(Seq<char>, Seq<char>)>,
    g: Gathered,
    imports: Seq<Import>,
    k: int,
    base: Seq<char>,
    id: SourceId,
    own: LoadedView,
)
    requires
        0 <= k,
        stack.len() > 0,
        sound(t, stack, g),
        t.entries.len() <= usize::MAX,
        id.0 < g.sources.len(),
        own.canonical == stack.last().0,
        beams_within(own.beams, g.sources.len()),
    ensures
        left_sound(
            t,
            stack.drop_last(),
            g,
            imports_loaded(t, stack, g, imports, k, base, id, own),
            id,
        ),
        imports_loaded(t, stack, g, imports, k, base, id, own).0 matches Outcome::Failed(x)
            ==> x.source_id.0 < imports_loaded(
            t,
            stack,
            g,
            imports,
            k,
            base,
            id,
            own,
        ).1.sources.len(),
    decreases t.entries.len() - stack.len(), imports.len() - k + 1,
{
    if k >= imports.len() {
        finished_is_sound(t, stack, g, own);
    } else {
        let path = joined_path(base, imports[k].path.value@);
        let span = imports[k].path.span;
        file_loaded_sound(t, stack, g, path, span, id);
        let r = file_loaded(t, stack, g, path, span, id);
        if let Outcome::Loaded(i) = r.0 {
            let after = r.1;
            let more = LoadedView {
                beams: own.beams + all_under_alias(
                    imports[k].alias.value@,
                    after.loaded[i].beams,
                ),
                ..own
            };
            assert(beams_within(after.loaded[i].beams, after.sources.len()));
            assert forall|j: int| 0 <= j < more.beams.len() implies (
            #[trigger] more.beams[j]).source.0 < after.sources.len() by {
                if j < own.beams.len() {
                    assert(own.beams[j].source.0 < g.sources.len());
                } else {
                    let m = j - own.beams.len();
                    assert(after.loaded[i].beams[m].source.0 < after.sources.len());
                }
            }
            imports_loaded_sound(t, stack, after, imports, k + 1, base, id, more);
        }
    }
}

proof fn entering_points_at_a_beam(
    p: ProjectView,
    path: Seq<Seq<char>>,
    done: Seq<Seq<char>>,
    i: int,
    n: nat,
)
    requires
        beams_within(p.beams, n),
        0 <= i < p.beams.len(),
        forall|a: int, b: int|
            0 <= a < p.beams.len() && 0 <= b < p.beams[a].needs.len() ==> place_of(
                p.beams,
                #[trigger] p.beams[a].needs[b].0,
            ) is Some,
    ensures
        enter(p, path, done, i) matches Err(x) ==> x.source_id.0 < n,
    decreases p.beams.len() - path.len(), 0int,
{
    let beam = p.beams[i];
    if !path.contains(beam.id) && !(done.contains(beam.id) || path.len() >= p.beams.len()) {
        needs_point_at_a_beam(p, path.push(beam.id), done, i, 0, n);
    }
}

proof fn needs_point_at_a_beam(
    p: ProjectView,
    path: Seq<Seq<char>>,
    done: Seq<Seq<char>>,
    i: int,
    k: int,
    n: nat,
)
    requires
        beams_within(p.beams, n),
        0 <= i < p.beams.len(),
        0 <= k,
        forall|a: int, b: int|
            0 <= a < p.beams.len() && 0 <= b < p.beams[a].needs.len() ==> place_of(
                p.beams,
                #[trigger] p.beams[a].needs[b].0,
            ) is Some,
    ensures
        enter_needs(p, path, done, p.beams[i].needs, k) matches Err(x) ==> x.source_id.0 < n,
    decreases p.beams.len() - path.len(), p.beams[i].needs.len() - k + 1,
{
    let needs = p.beams[i].needs;
    if k < needs.len() {
        assert(place_of(p.beams, p.beams[i].needs[k].0) is Some);
        let next = place_of(p.beams, needs[k].0)->Some_0;
        place_of_is_last(p.beams, needs[k].0);
        entering_points_at_a_beam(p, path, done, next, n);
        if let Ok(after) = enter(p, path, done, next) {
            needs_point_at_a_beam(p, path, after, i, k + 1, n);
        }
    }
}

proof fn search_points_at_a_beam(p: ProjectView, done: Seq<Seq<char>>, i: int, n: nat)
    requires
        beams_within(p.beams, n),
        0 <= i,
        forall|a: int, b: int|
            0 <= a < p.beams.len() && 0 <= b < p.beams[a].needs.len() ==> place_of(
                p.beams,
                #[trigger] p.beams[a].needs[b].0,
            ) is Some,
    ensures
        search_from(p, done, i) matches Err(x) ==> x.source_id.0 < n,
    decreases p.beams.len() - i,
{
    if i < p.beams.len() {
        entering_points_at_a_beam(p, Seq::empty(), done, i, n);
        if let Ok(after) = enter(p, Seq::empty(), done, i) {
            search_points_at_a_beam(p, after, i + 1, n);
        }
    }
}

proof fn needs_point(p: ProjectView, i: int, k: nat, n: nat)
    requires
        beams_within(p.beams, n),
        0 <= i < p.beams.len(),
    ensures
        collect(k, need_verdict(p, i)) matches Err(x) ==> x.source_id.0 < n,
    decreases k,
{
    if k > 0 {
        needs_point(p, i, (k - 1) as nat, n);
    }
}

proof fn all_needs_point(p: ProjectView, k: nat, n: nat)
    requires
        beams_within(p.beams, n),
        k <= p.beams.len(),
    ensures
        collect(k, beam_needs_verdict(p)) matches Err(x) ==> x.source_id.0 < n,
    decreases k,
{
    if k > 0 {
        all_needs_point(p, (k - 1) as nat, n);
        needs_point(p, k - 1, p.beams[k - 1].needs.len(), n);
    }
}

/// What is wrong with a graph is pointed out in a file that one of its beams
/// comes from, or in the root file.
proof fn a_graph_error_points_into_a_file(p: ProjectView, n: nat)
    requires
        beams_within(p.beams, n),
        n > 0,
    ensures
        graph_verdict(p) matches Err(x) ==> x.source_id.0 < n,
{
    all_needs_point(p, p.beams.len(), n);
    if collect(p.beams.len(), beam_needs_verdict(p)) is Ok {
        collect_gives_each(p.beams.len(), beam_needs_verdict(p));
        assert forall|a: int, b: int|
            0 <= a < p.beams.len() && 0 <= b < p.beams[a].needs.len() implies place_of(
            p.beams,
            #[trigger] p.beams[a].needs[b].0,
        ) is Some by {
            let all = collect(p.beams.len(), beam_needs_verdict(p))->Ok_0;
            assert(beam_needs_verdict(p)(a) == Ok::<(), ErrorView>(all[a]));
            collect_gives_each(p.beams[a].needs.len(), need_verdict(p, a));
            let each = collect(p.beams[a].needs.len(), need_verdict(p, a))->Ok_0;
            assert(need_verdict(p, a)(b) == Ok::<(), ErrorView>(each[b]));
        }
        search_points_at_a_beam(p, Seq::empty(), 0, n);
    }
}

/// Whatever loading comes to: every beam of a project comes from a file that
/// was read and is among the sources, no file is read twice, an error points
/// into a file that was read unless none was, and git is asked only where it
/// has not been and a file reads it.
pub proof fn loading_is_sound(t: Inputs, root: Seq<char>)
    requires
        t.entries.len() <= usize::MAX,
    ensures
        match project_loaded(t, root) {
            LoadView::Done(p, sources) => beams_within(p.beams, sources.len()) && sources.len()
                <= t.entries.len(),
            LoadView::Failed(x, sources) => x.source_id.0 < sources.len() || (sources.len() == 0
                && x.source_id == SourceId(0)),
            LoadView::Read(_) => true,
            LoadView::AskGit => asks_rightly(t),
        },
{
    let start = Gathered { sources: Seq::empty(), loaded: Seq::empty() };
    let none = Seq::<(Seq<char>, Seq<char>)>::empty();
    let span = Span { start: 0, end: 0 };
    assert(seen(none, start) =~= Seq::<Seq<char>>::empty());
    file_loaded_sound(t, none, start, root, span, SourceId(0));
    let r = file_loaded(t, none, start, root, span, SourceId(0));
    if let Outcome::Loaded(i) = r.0 {
        let p = loaded_project(r.1.loaded[i]);
        assert(beams_within(r.1.loaded[i].beams, r.1.sources.len()));
        no_more_than_entries(t.entries, seen(none, r.1));
        a_graph_error_points_into_a_file(p, r.1.sources.len());
    }
}

} // verus!
