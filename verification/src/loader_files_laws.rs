//! What loading keeps of the files that it reads: each is there once, in the
//! order in which they were met, and every beam belongs to the one that
//! declares it.

use vstd::prelude::*;
use crate::error::ErrorView;
use crate::graph::graph_verdict;
use crate::loader::{
    all_under_alias, beam_dir_of, duplicate_alias, entry_place, file_loaded, file_read, grows,
    import_base_of, import_count, import_cycle, imports_loaded, loaded_place, project_loaded,
    stack_place, under_alias, Gathered, Inputs, LoadView, LoadedView, Outcome, ReadFile,
};
use crate::loader_laws::{
    beams_within, entry_place_fits, file_loaded_sound, not_loaded, not_on_stack, pushed_is_sound,
    seen, sound,
};
use crate::git_reads::file_reads_git;
use crate::model::{BeamView, SourceId};
use crate::paths::joined_path;
use crate::project::{beam_at, collect_gives_each, hooks_named, lets_of, named_default, project_of};
use crate::scope::{Environment, GitView};
use crate::syntax::{File, Import, Span};

verus! {

/// The canonical form of a path, where the table knows it.
pub open spec fn canonical_of(t: Inputs, path: Seq<char>) -> Option<Seq<char>> {
    match entry_place(t.entries, path) {
        Some(k) => match t.entries[k].canonical {
            Ok(canonical) => Some(canonical@),
            Err(_) => None,
        },
        None => None,
    }
}

/// The file at a path, where the table has it and it could be parsed.
pub open spec fn parsed_at(t: Inputs, path: Seq<char>) -> Option<File> {
    match entry_place(t.entries, path) {
        Some(k) => match t.entries[k].read {
            Ok(file) => match file.parsed {
                Ok(parsed) => Some(parsed),
                Err(_) => None,
            },
            Err(_) => None,
        },
        None => None,
    }
}

/// A path and the text that the table has for it.
pub open spec fn is_file(t: Inputs, source: (Seq<char>, Seq<char>)) -> bool {
    &&& canonical_of(t, source.0) is Some
    &&& entry_place(t.entries, source.0) matches Some(k) && (t.entries[k].read matches Ok(file)
        && file.text@ == source.1)
}

/// Files of the table, none of them twice.
pub open spec fn each_once(t: Inputs, sources: Seq<(Seq<char>, Seq<char>)>) -> bool {
    &&& forall|i: int| 0 <= i < sources.len() ==> is_file(t, #[trigger] sources[i])
    &&& forall|i: int, j: int|
        0 <= i < j < sources.len() ==> canonical_of(t, (#[trigger] sources[i]).0) != canonical_of(
            t,
            (#[trigger] sources[j]).0,
        )
}

/// A beam belongs to one of the files, and its directory is that file's.
pub open spec fn at_home(t: Inputs, sources: Seq<(Seq<char>, Seq<char>)>, beam: BeamView) -> bool {
    &&& beam.source.0 < sources.len()
    &&& beam_dir_of(sources[beam.source.0 as int].0, t.cwd, Span { start: 0, end: 0 }) == Ok::<
        Seq<char>,
        ErrorView,
    >(beam.dir)
}

/// All of the beams are at home.
pub open spec fn all_at_home(
    t: Inputs,
    sources: Seq<(Seq<char>, Seq<char>)>,
    beams: Seq<BeamView>,
) -> bool {
    forall|i: int| 0 <= i < beams.len() ==> at_home(t, sources, #[trigger] beams[i])
}

/// A beam seen through an alias: its id and all that it needs begin with it.
pub open spec fn comes_through(alias: Seq<char>, beam: BeamView) -> bool {
    exists|inner: BeamView| beam == #[trigger] under_alias(alias, inner)
}

/// A beam seen through one of the imports.
pub open spec fn is_imported(imports: Seq<Import>, beam: BeamView) -> bool {
    exists|k: int|
        0 <= k < imports.len() && comes_through((#[trigger] imports[k]).alias.value@, beam)
}

pub open spec fn on_stack(stack: Seq<(Seq<char>, Seq<char>)>, canonical: Seq<char>) -> bool {
    exists|j: int| 0 <= j < stack.len() && (#[trigger] stack[j]).0 == canonical
}

pub open spec fn is_loaded(loaded: Seq<LoadedView>, canonical: Seq<char>) -> bool {
    exists|j: int| 0 <= j < loaded.len() && (#[trigger] loaded[j]).canonical == canonical
}

/// What was gathered is files of the table, each once, all of them loaded or
/// on the stack, with beams that are at home.
pub open spec fn kept(t: Inputs, stack: Seq<(Seq<char>, Seq<char>)>, g: Gathered) -> bool {
    &&& each_once(t, g.sources)
    &&& forall|i: int|
        0 <= i < g.sources.len() ==> {
            let canonical = canonical_of(t, (#[trigger] g.sources[i]).0)->Some_0;
            on_stack(stack, canonical) || is_loaded(g.loaded, canonical)
        }
    &&& forall|i: int|
        0 <= i < g.loaded.len() ==> all_at_home(t, g.sources, (#[trigger] g.loaded[i]).beams)
}

/// Where loading can stand: the files read are those loaded and those on the
/// stack, none of them twice.
pub open spec fn is_state(t: Inputs, stack: Seq<(Seq<char>, Seq<char>)>, g: Gathered) -> bool {
    sound(t, stack, g) && kept(t, stack, g)
}

/// None of the files loaded since is on the stack.
spec fn added_elsewhere(
    stack: Seq<(Seq<char>, Seq<char>)>,
    before: Gathered,
    after: Gathered,
) -> bool {
    forall|i: int|
        before.loaded.len() <= i < after.loaded.len() ==> !on_stack(
            stack,
            (#[trigger] after.loaded[i]).canonical,
        )
}

/// What loading leaves: what was there is still there, and what was added is
/// kept as well.
spec fn left(
    t: Inputs,
    stack: Seq<(Seq<char>, Seq<char>)>,
    g: Gathered,
    r: (Outcome, Gathered),
) -> bool {
    &&& grows(g.sources, r.1.sources)
    &&& grows(g.loaded, r.1.loaded)
    &&& each_once(t, r.1.sources)
    &&& added_elsewhere(stack, g, r.1)
    &&& r.0 is Loaded ==> kept(t, stack, r.1)
}

/// The directory of a file does not depend on where it was imported.
proof fn directory_is_one(t: Inputs, path: Seq<char>, a: Span, b: Span)
    ensures
        beam_dir_of(path, t.cwd, a) matches Ok(dir) ==> beam_dir_of(path, t.cwd, b) == Ok::<
            Seq<char>,
            ErrorView,
        >(dir),
{
}

proof fn homes_stay(
    t: Inputs,
    before: Seq<(Seq<char>, Seq<char>)>,
    after: Seq<(Seq<char>, Seq<char>)>,
    beams: Seq<BeamView>,
)
    requires
        grows(before, after),
        all_at_home(t, before, beams),
    ensures
        all_at_home(t, after, beams),
{
    assert forall|i: int| 0 <= i < beams.len() implies at_home(t, after, #[trigger] beams[i]) by {
        assert(at_home(t, before, beams[i]));
    }
}

/// A file's own beams belong to it.
proof fn own_beams_at_home(
    file: File,
    dir: Seq<char>,
    git: GitView,
    env: Environment,
    source: SourceId,
)
    ensures
        project_of(file, dir, git, env, source) matches Ok(own) ==> forall|i: int|
            0 <= i < own.beams.len() ==> (#[trigger] own.beams[i]).source == source
                && own.beams[i].dir == dir,
{
    if let Ok(lets) = lets_of(file.lets@, git, env) {
        collect_gives_each(file.beams@.len(), beam_at(file.beams@, lets, dir, env, source));
    }
}

/// Reading one more file keeps the files apart.
proof fn pushed_is_kept(
    t: Inputs,
    stack: Seq<(Seq<char>, Seq<char>)>,
    g: Gathered,
    canonical: Seq<char>,
    path: Seq<char>,
    text: Seq<char>,
)
    requires
        kept(t, stack, g),
        is_file(t, (path, text)),
        canonical_of(t, path) == Some(canonical),
        stack_place(stack, canonical) is None,
        loaded_place(g.loaded, canonical) is None,
    ensures
        kept(
            t,
            stack.push((canonical, path)),
            Gathered { sources: g.sources.push((path, text)), ..g },
        ),
{
    let longer = stack.push((canonical, path));
    let after = Gathered { sources: g.sources.push((path, text)), ..g };
    not_on_stack(stack, canonical);
    not_loaded(g.loaded, canonical);
    assert(longer[stack.len() as int].0 == canonical);
    assert forall|i: int| 0 <= i < after.sources.len() implies {
        let canonical = canonical_of(t, (#[trigger] after.sources[i]).0)->Some_0;
        on_stack(longer, canonical) || is_loaded(after.loaded, canonical)
    } by {
        if i < g.sources.len() {
            assert(after.sources[i] == g.sources[i]);
            let c = canonical_of(t, g.sources[i].0)->Some_0;
            if on_stack(stack, c) {
                let j = choose|j: int| 0 <= j < stack.len() && (#[trigger] stack[j]).0 == c;
                assert(longer[j].0 == c);
            }
        }
    }
    assert forall|i: int, j: int| 0 <= i < j < after.sources.len() implies canonical_of(
        t,
        (#[trigger] after.sources[i]).0,
    ) != canonical_of(t, (#[trigger] after.sources[j]).0) by {
        assert(after.sources[i] == g.sources[i]);
        assert(is_file(t, g.sources[i]));
        if j < g.sources.len() {
            assert(after.sources[j] == g.sources[j]);
        }
    }
    assert forall|i: int| 0 <= i < after.sources.len() implies is_file(
        t,
        #[trigger] after.sources[i],
    ) by {
        if i < g.sources.len() {
            assert(is_file(t, g.sources[i]));
        }
    }
    assert forall|i: int| 0 <= i < after.loaded.len() implies all_at_home(
        t,
        after.sources,
        (#[trigger] after.loaded[i]).beams,
    ) by {
        homes_stay(t, g.sources, after.sources, g.loaded[i].beams);
    }
}

/// A file that is loaded to the end leaves the stack and is kept.
proof fn finished_is_kept(
    t: Inputs,
    stack: Seq<(Seq<char>, Seq<char>)>,
    g: Gathered,
    own: LoadedView,
)
    requires
        stack.len() > 0,
        kept(t, stack, g),
        own.canonical == stack.last().0,
        all_at_home(t, g.sources, own.beams),
    ensures
        kept(t, stack.drop_last(), Gathered { loaded: g.loaded.push(own), ..g }),
{
    let shorter = stack.drop_last();
    let after = Gathered { loaded: g.loaded.push(own), ..g };
    assert(after.loaded[g.loaded.len() as int].canonical == stack.last().0);
    assert forall|i: int| 0 <= i < after.sources.len() implies {
        let canonical = canonical_of(t, (#[trigger] after.sources[i]).0)->Some_0;
        on_stack(shorter, canonical) || is_loaded(after.loaded, canonical)
    } by {
        assert(after.sources[i] == g.sources[i]);
        let c = canonical_of(t, g.sources[i].0)->Some_0;
        if on_stack(stack, c) {
            let j = choose|j: int| 0 <= j < stack.len() && (#[trigger] stack[j]).0 == c;
            if j < stack.len() - 1 {
                assert(shorter[j].0 == c);
            }
        } else {
            let j = choose|j: int| 0 <= j < g.loaded.len() && (#[trigger] g.loaded[j]).canonical == c;
            assert(after.loaded[j].canonical == c);
        }
    }
    assert forall|i: int| 0 <= i < after.loaded.len() implies all_at_home(
        t,
        after.sources,
        (#[trigger] after.loaded[i]).beams,
    ) by {
        if i < g.loaded.len() {
            assert(all_at_home(t, g.sources, g.loaded[i].beams));
        }
    }
}

/// What is off a longer stack is off a shorter one.
proof fn off_the_stack(
    stack: Seq<(Seq<char>, Seq<char>)>,
    last: (Seq<char>, Seq<char>),
    before: Gathered,
    after: Gathered,
)
    requires
        added_elsewhere(stack.push(last), before, after),
    ensures
        added_elsewhere(stack, before, after),
        forall|i: int|
            before.loaded.len() <= i < after.loaded.len() ==> (#[trigger] after.loaded[i]).canonical
                != last.0,
{
    let longer = stack.push(last);
    assert forall|i: int| before.loaded.len() <= i < after.loaded.len() implies !on_stack(
        stack,
        (#[trigger] after.loaded[i]).canonical,
    ) && after.loaded[i].canonical != last.0 by {
        let c = after.loaded[i].canonical;
        assert(!on_stack(longer, c));
        assert(longer[stack.len() as int].0 == last.0);
        if on_stack(stack, c) {
            let j = choose|j: int| 0 <= j < stack.len() && (#[trigger] stack[j]).0 == c;
            assert(longer[j].0 == c);
        }
    }
}

proof fn file_loaded_left(
    t: Inputs,
    stack: Seq<(Seq<char>, Seq<char>)>,
    g: Gathered,
    path: Seq<char>,
    span: Span,
    from: SourceId,
)
    requires
        sound(t, stack, g),
        kept(t, stack, g),
        t.entries.len() <= usize::MAX,
    ensures
        left(t, stack, g, file_loaded(t, stack, g, path, span, from)),
    decreases t.entries.len() - stack.len(), 1int,
{
    entry_place_fits(t.entries, path);
    if let Some(k) = entry_place(t.entries, path) {
        if let Ok(canonical) = t.entries[k].canonical {
            if stack_place(stack, canonical@) is None {
                not_loaded(g.loaded, canonical@);
                if loaded_place(g.loaded, canonical@) is None {
                    if let Ok(file) = t.entries[k].read {
                        if let Ok(dir) = beam_dir_of(path, t.cwd, span) {
                            fresh_file_left(t, stack, g, path, span, from, k);
                        }
                    }
                }
            }
        }
    }
}

/// A file that has to be read.
proof fn fresh_file_left(
    t: Inputs,
    stack: Seq<(Seq<char>, Seq<char>)>,
    g: Gathered,
    path: Seq<char>,
    span: Span,
    from: SourceId,
    k: int,
)
    requires
        sound(t, stack, g),
        kept(t, stack, g),
        t.entries.len() <= usize::MAX,
        entry_place(t.entries, path) == Some(k),
        0 <= k < t.entries.len(),
        t.entries[k].canonical is Ok,
        stack_place(stack, t.entries[k].canonical->Ok_0@) is None,
        loaded_place(g.loaded, t.entries[k].canonical->Ok_0@) is None,
        t.entries[k].read is Ok,
        beam_dir_of(path, t.cwd, span) is Ok,
    ensures
        left(t, stack, g, file_loaded(t, stack, g, path, span, from)),
        !(file_loaded(t, stack, g, path, span, from).0 is Loaded) ==> !is_loaded(
            file_loaded(t, stack, g, path, span, from).1.loaded,
            t.entries[k].canonical->Ok_0@,
        ),
        file_loaded(t, stack, g, path, span, from).1.sources.len() > g.sources.len(),
        file_loaded(t, stack, g, path, span, from).1.sources[g.sources.len() as int].0 == path,
        file_loaded(t, stack, g, path, span, from).0 matches Outcome::Loaded(i) ==> {
            let r = file_loaded(t, stack, g, path, span, from).1;
            let id = SourceId(g.sources.len() as usize);
            parsed_at(t, path) matches Some(file) && is_whole(file, id, r.loaded[i])
        },
    decreases t.entries.len() - stack.len(), 0int,
{
    let canonical = t.entries[k].canonical->Ok_0@;
    let file = t.entries[k].read->Ok_0;
    let dir = beam_dir_of(path, t.cwd, span)->Ok_0;
    pushed_is_sound(t, stack, g, canonical, path, file.text@, k);
    pushed_is_kept(t, stack, g, canonical, path, file.text@);
    directory_is_one(t, path, span, Span { start: 0, end: 0 });
    let longer = stack.push((canonical, path));
    let after = Gathered { sources: g.sources.push((path, file.text@)), ..g };
    let id = SourceId(g.sources.len() as usize);
    file_read_left(t, longer, after, path, dir, file, id);
    let r = file_read(t, longer, after, path, dir, file, id);
    assert(r == file_loaded(t, stack, g, path, span, from));
    assert(longer.drop_last() =~= stack);
    not_loaded(g.loaded, canonical);
    not_on_stack(stack, canonical);
    assert(r.1.sources[g.sources.len() as int] == after.sources[g.sources.len() as int]);
    assert forall|i: int| 0 <= i < g.sources.len() implies #[trigger] r.1.sources[i]
        == g.sources[i] by {
        assert(r.1.sources[i] == after.sources[i]);
    }
    if !(r.0 is Loaded) {
        off_the_stack(stack, (canonical, path), after, r.1);
        assert forall|i: int| 0 <= i < r.1.loaded.len() implies (
        #[trigger] r.1.loaded[i]).canonical != canonical by {
            if i < g.loaded.len() {
                assert(r.1.loaded[i] == g.loaded[i]);
            }
        }
    }
}

/// What a file loaded to the end is made of: its own default and hooks, and
/// beams that are its own or come through one of its imports.
spec fn is_whole(file: File, id: SourceId, loaded: LoadedView) -> bool {
    &&& loaded.default == named_default(file.default)
    &&& loaded.hooks == hooks_named(file.hooks@)
    &&& forall|i: int|
        0 <= i < loaded.beams.len() ==> (#[trigger] loaded.beams[i]).source == id || is_imported(
            file.imports@,
            loaded.beams[i],
        )
}

proof fn file_read_left(
    t: Inputs,
    stack: Seq<(Seq<char>, Seq<char>)>,
    g: Gathered,
    path: Seq<char>,
    dir: Seq<char>,
    file: ReadFile,
    id: SourceId,
)
    requires
        stack.len() > 0,
        sound(t, stack, g),
        kept(t, stack, g),
        t.entries.len() <= usize::MAX,
        id.0 < g.sources.len(),
        g.sources[id.0 as int].0 == path,
        beam_dir_of(path, t.cwd, Span { start: 0, end: 0 }) == Ok::<Seq<char>, ErrorView>(dir),
    ensures
        left(t, stack.drop_last(), g, file_read(t, stack, g, path, dir, file, id)),
        !(file_read(t, stack, g, path, dir, file, id).0 is Loaded) ==> added_elsewhere(
            stack,
            g,
            file_read(t, stack, g, path, dir, file, id).1,
        ),
        file_read(t, stack, g, path, dir, file, id).0 matches Outcome::Loaded(i)
            ==> file.parsed matches Ok(parsed) && is_whole(
            parsed,
            id,
            file_read(t, stack, g, path, dir, file, id).1.loaded[i],
        ),
    decreases t.entries.len() - stack.len(), import_count(file) + 2,
{
    if let Ok(parsed) = file.parsed {
        if duplicate_alias(parsed.imports@) is None && !(file_reads_git(parsed)
            && t.git is Unavailable) {
            own_beams_at_home(parsed, dir, t.git, t.env, id);
            if let Ok(own) = project_of(parsed, dir, t.git, t.env, id) {
                let loaded = LoadedView {
                    canonical: stack.last().0,
                    beams: own.beams,
                    default: own.default,
                    hooks: own.hooks,
                };
                assert(beams_within(loaded.beams, g.sources.len()));
                assert(all_at_home(t, g.sources, loaded.beams));
                imports_loaded_left(
                    t,
                    stack,
                    g,
                    parsed.imports@,
                    0,
                    import_base_of(path),
                    id,
                    loaded,
                );
            }
        }
    }
}

/// What an import adds is at home and comes through it.
proof fn imported_beams(
    t: Inputs,
    sources: Seq<(Seq<char>, Seq<char>)>,
    imports: Seq<Import>,
    k: int,
    own: Seq<BeamView>,
    theirs: Seq<BeamView>,
    id: SourceId,
)
    requires
        0 <= k < imports.len(),
        all_at_home(t, sources, own),
        all_at_home(t, sources, theirs),
        forall|i: int|
            0 <= i < own.len() ==> (#[trigger] own[i]).source == id || is_imported(imports, own[i]),
    ensures
        all_at_home(t, sources, own + all_under_alias(imports[k].alias.value@, theirs)),
        forall|i: int|
            0 <= i < own.len() + theirs.len() ==> (#[trigger] (own + all_under_alias(
                imports[k].alias.value@,
                theirs,
            ))[i]).source == id || is_imported(
                imports,
                (own + all_under_alias(imports[k].alias.value@, theirs))[i],
            ),
{
    let alias = imports[k].alias.value@;
    let all = own + all_under_alias(alias, theirs);
    assert forall|i: int| 0 <= i < all.len() implies at_home(t, sources, #[trigger] all[i]) && (
    all[i].source == id || is_imported(imports, all[i])) by {
        if i < own.len() {
            assert(all[i] == own[i]);
            assert(at_home(t, sources, own[i]));
        } else {
            let inner = theirs[i - own.len()];
            assert(at_home(t, sources, inner));
            assert(all[i] == under_alias(alias, inner));
            assert(comes_through(imports[k].alias.value@, all[i]));
        }
    }
}

proof fn imports_loaded_left(
    t: Inputs,
    stack: Seq<(Seq<char>, Seq<char>)>,
    g: Gathered,
    imports: Seq<Import>,
    k: int,
    base: Seq<char>,
    id: SourceId,
    own: LoadedView,
)
    requires
        0 <= k,
        stack.len() > 0,
        sound(t, stack, g),
        kept(t, stack, g),
        t.entries.len() <= usize::MAX,
        id.0 < g.sources.len(),
        own.canonical == stack.last().0,
        beams_within(own.beams, g.sources.len()),
        all_at_home(t, g.sources, own.beams),
        forall|i: int|
            0 <= i < own.beams.len() ==> (#[trigger] own.beams[i]).source == id || is_imported(
                imports,
                own.beams[i],
            ),
    ensures
        left(
            t,
            stack.drop_last(),
            g,
            imports_loaded(t, stack, g, imports, k, base, id, own),
        ),
        !(imports_loaded(t, stack, g, imports, k, base, id, own).0 is Loaded) ==> added_elsewhere(
            stack,
            g,
            imports_loaded(t, stack, g, imports, k, base, id, own).1,
        ),
        imports_loaded(t, stack, g, imports, k, base, id, own).0 matches Outcome::Loaded(i) ==> {
            let file = imports_loaded(t, stack, g, imports, k, base, id, own).1.loaded[i];
            file.default == own.default && file.hooks == own.hooks && forall|j: int|
                0 <= j < file.beams.len() ==> (#[trigger] file.beams[j]).source == id
                    || is_imported(imports, file.beams[j])
        },
    decreases t.entries.len() - stack.len(), imports.len() - k + 1,
{
    let shorter = stack.drop_last();
    assert(stack =~= shorter.push(stack.last()));
    if k >= imports.len() {
        finished_is_kept(t, stack, g, own);
        last_is_off_the_rest(t, stack, g);
    } else {
        let path = joined_path(base, imports[k].path.value@);
        let span = imports[k].path.span;
        file_loaded_sound(t, stack, g, path, span, id);
        file_loaded_left(t, stack, g, path, span, id);
        let r = file_loaded(t, stack, g, path, span, id);
        let after = r.1;
        off_the_stack(shorter, stack.last(), g, after);
        if let Outcome::Loaded(i) = r.0 {
            let theirs = after.loaded[i].beams;
            let more = LoadedView {
                beams: own.beams + all_under_alias(imports[k].alias.value@, theirs),
                ..own
            };
            homes_stay(t, g.sources, after.sources, own.beams);
            assert(all_at_home(t, after.sources, theirs));
            imported_beams(t, after.sources, imports, k, own.beams, theirs, id);
            assert forall|j: int| 0 <= j < more.beams.len() implies (
            #[trigger] more.beams[j]).source.0 < after.sources.len() by {
                assert(at_home(t, after.sources, more.beams[j]));
            }
            imports_loaded_left(t, stack, after, imports, k + 1, base, id, more);
            let whole = imports_loaded(t, stack, after, imports, k + 1, base, id, more);
            assert(whole == imports_loaded(t, stack, g, imports, k, base, id, own));
            two_steps(t, stack, g, after, whole);
            two_steps(t, shorter, g, after, whole);
        }
    }
}

/// The file on top of the stack is not among those below it.
proof fn last_is_off_the_rest(t: Inputs, stack: Seq<(Seq<char>, Seq<char>)>, g: Gathered)
    requires
        stack.len() > 0,
        sound(t, stack, g),
    ensures
        !on_stack(stack.drop_last(), stack.last().0),
{
    let all = seen(stack, g);
    let n = g.loaded.len() as int;
    let shorter = stack.drop_last();
    if on_stack(shorter, stack.last().0) {
        let j = choose|j: int|
            0 <= j < shorter.len() && (#[trigger] shorter[j]).0 == stack.last().0;
        assert(all[n + j] == stack[j].0);
        assert(all[n + stack.len() - 1] == stack.last().0);
        assert(shorter[j] == stack[j]);
    }
}

/// What two steps add is off the stack where what each adds is.
proof fn two_steps(
    t: Inputs,
    stack: Seq<(Seq<char>, Seq<char>)>,
    g: Gathered,
    middle: Gathered,
    r: (Outcome, Gathered),
)
    requires
        grows(g.sources, middle.sources),
        grows(middle.sources, r.1.sources),
        grows(g.loaded, middle.loaded),
        grows(middle.loaded, r.1.loaded),
        added_elsewhere(stack, g, middle),
    ensures
        grows(g.sources, r.1.sources),
        grows(g.loaded, r.1.loaded),
        added_elsewhere(stack, middle, r.1) ==> added_elsewhere(stack, g, r.1),
{
    assert forall|i: int| 0 <= i < g.sources.len() implies #[trigger] r.1.sources[i]
        == g.sources[i] by {
        assert(r.1.sources[i] == middle.sources[i]);
    }
    assert forall|i: int| 0 <= i < g.loaded.len() implies #[trigger] r.1.loaded[i]
        == g.loaded[i] by {
        assert(r.1.loaded[i] == middle.loaded[i]);
    }
    if added_elsewhere(stack, middle, r.1) {
        assert forall|i: int| g.loaded.len() <= i < r.1.loaded.len() implies !on_stack(
            stack,
            (#[trigger] r.1.loaded[i]).canonical,
        ) by {
            if i < middle.loaded.len() {
                assert(r.1.loaded[i] == middle.loaded[i]);
            }
        }
    }
}

proof fn loaded_has_a_place(loaded: Seq<LoadedView>, canonical: Seq<char>)
    ensures
        loaded_place(loaded, canonical) is Some ==> is_loaded(loaded, canonical),
    decreases loaded.len(),
{
    if loaded.len() > 0 {
        loaded_has_a_place(loaded.drop_last(), canonical);
        if is_loaded(loaded.drop_last(), canonical) {
            let j = choose|j: int|
                0 <= j < loaded.len() - 1 && (#[trigger] loaded.drop_last()[j]).canonical
                    == canonical;
            assert(loaded[j].canonical == canonical);
        }
        if loaded.last().canonical == canonical {
            assert(loaded[loaded.len() - 1].canonical == canonical);
        }
    }
}

/// Loading a file only adds to what is there, whatever comes of it. A file on
/// the stack closes a cycle; one that was loaded to the end comes back and is
/// not read again; one that fails is not kept.
pub proof fn loading_a_file_only_adds(
    t: Inputs,
    stack: Seq<(Seq<char>, Seq<char>)>,
    g: Gathered,
    path: Seq<char>,
    span: Span,
    from: SourceId,
)
    requires
        is_state(t, stack, g),
        t.entries.len() <= usize::MAX,
    ensures
        ({
            let r = file_loaded(t, stack, g, path, span, from);
            &&& grows(g.sources, r.1.sources)
            &&& grows(g.loaded, r.1.loaded)
            &&& each_once(t, r.1.sources)
            &&& r.0 is Loaded ==> is_state(t, stack, r.1)
            &&& canonical_of(t, path) matches Some(canonical) ==> {
                &&& stack_place(stack, canonical) matches Some(start) ==> r == (
                    Outcome::Failed(import_cycle(stack, start, path, span).with_source_id(from)),
                    g,
                )
                &&& stack_place(stack, canonical) is None ==> (loaded_place(
                    g.loaded,
                    canonical,
                ) matches Some(i) ==> r == (Outcome::Loaded(i), g))
                &&& loaded_place(g.loaded, canonical) is None && !(r.0 is Loaded) ==> loaded_place(
                    r.1.loaded,
                    canonical,
                ) is None
            }
        }),
{
    file_loaded_left(t, stack, g, path, span, from);
    file_loaded_sound(t, stack, g, path, span, from);
    entry_place_fits(t.entries, path);
    if let Some(k) = entry_place(t.entries, path) {
        if let Ok(canonical) = t.entries[k].canonical {
            if stack_place(stack, canonical@) is None && loaded_place(g.loaded, canonical@) is None
                && t.entries[k].read is Ok && beam_dir_of(path, t.cwd, span) is Ok {
                fresh_file_left(t, stack, g, path, span, from, k);
                loaded_has_a_place(
                    file_loaded(t, stack, g, path, span, from).1.loaded,
                    canonical@,
                );
            }
        }
    }
}

/// What a loaded project is: its graph is valid; the root is its first file
/// and no file is there twice, however many imports name it; every beam
/// belongs to the file that declares it and has that file's directory; the
/// default and the hooks are the root's own; and a beam that is not the
/// root's own comes through one of the root's imports, under its alias.
pub proof fn a_project_is_its_files(t: Inputs, root: Seq<char>)
    requires
        t.entries.len() <= usize::MAX,
    ensures
        match project_loaded(t, root) {
            LoadView::Done(p, sources) => {
                &&& graph_verdict(p) is Ok
                &&& sources.len() > 0 && sources[0].0 == root
                &&& each_once(t, sources)
                &&& all_at_home(t, sources, p.beams)
                &&& parsed_at(t, root) matches Some(file) && {
                    &&& p.default == named_default(file.default)
                    &&& p.hooks == hooks_named(file.hooks@)
                    &&& forall|i: int|
                        0 <= i < p.beams.len() ==> (#[trigger] p.beams[i]).source == SourceId(0)
                            || is_imported(file.imports@, p.beams[i])
                }
            },
            LoadView::Failed(_, sources) => each_once(t, sources) && (sources.len() > 0
                ==> sources[0].0 == root),
            LoadView::Read(_) => true,
            LoadView::AskGit => true,
        },
{
    let start = Gathered { sources: Seq::empty(), loaded: Seq::empty() };
    let none = Seq::<(Seq<char>, Seq<char>)>::empty();
    let span = Span { start: 0, end: 0 };
    assert(seen(none, start) =~= Seq::<Seq<char>>::empty());
    file_loaded_left(t, none, start, root, span, SourceId(0));
    file_loaded_sound(t, none, start, root, span, SourceId(0));
    entry_place_fits(t.entries, root);
    if let Some(k) = entry_place(t.entries, root) {
        if t.entries[k].canonical is Ok && t.entries[k].read is Ok && beam_dir_of(
            root,
            t.cwd,
            span,
        ) is Ok {
            fresh_file_left(t, none, start, root, span, SourceId(0), k);
        }
    }
}

} // verus!
