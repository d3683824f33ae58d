//! When a project loads, and what is asked for before it does.

use vstd::prelude::*;
use crate::git::{GitError, GitHead};
use crate::git_reads::file_reads_git;
use crate::graph::graph_verdict;
use crate::loader::{
    beam_dir_of, cwd_view, duplicate_alias, entry_place, file_loaded, file_read, import_base_of,
    imports_loaded, load_project, loaded_place, loaded_project, project_loaded, stack_place,
    FileTable, Gathered, Inputs, LoadStep, LoadView, LoadedView, Outcome,
};
use crate::loader_files_laws::{canonical_of, parsed_at};
use crate::loader_laws::{entry_place_fits, is_canonical, no_more_than_entries};
use crate::model::{ProjectView, SourceId};
use crate::paths::joined_path;
use crate::project::{named_default, project_of};
use crate::scope::{git_view, Environment};
use crate::syntax::{Import, Span};

verus! {

/// The path that an import of the file at `path` leads to.
pub open spec fn leads_to(path: Seq<char>, import: Import) -> Seq<char> {
    joined_path(import_base_of(path), import.path.value@)
}

/// The file at `path` is there, it parses, its imports have different
/// aliases, git was asked where it has to be, and its beams can be built.
pub open spec fn is_fine(t: Inputs, path: Seq<char>) -> bool {
    &&& canonical_of(t, path) is Some
    &&& beam_dir_of(path, t.cwd, Span { start: 0, end: 0 }) matches Ok(dir) && (parsed_at(
        t,
        path,
    ) matches Some(file) && {
        &&& duplicate_alias(file.imports@) is None
        &&& file_reads_git(file) ==> !(t.git is Unavailable)
        &&& forall|id: SourceId| (#[trigger] project_of(file, dir, t.git, t.env, id)) is Ok
    })
}

/// Every file at one of `paths` is fine, and what it imports is at one of
/// them too and further down: `depth` says how far down a file is.
pub open spec fn are_fine(
    t: Inputs,
    paths: Set<Seq<char>>,
    depth: Map<Seq<char>, nat>,
) -> bool {
    forall|path: Seq<char>| #[trigger] paths.contains(path) ==> is_fine(t, path) && imports_below(
        t,
        paths,
        depth,
        path,
    )
}

pub open spec fn imports_below(
    t: Inputs,
    paths: Set<Seq<char>>,
    depth: Map<Seq<char>, nat>,
    path: Seq<char>,
) -> bool {
    parsed_at(t, path) matches Some(file) ==> forall|i: int|
        0 <= i < file.imports@.len() ==> {
            let to = leads_to(path, #[trigger] file.imports@[i]);
            paths.contains(to) && depth[canonical_of(t, to)->Some_0] < depth[canonical_of(
                t,
                path,
            )->Some_0]
        }
}

/// The files on the stack are entries of the table, each once, and all less
/// far down than `least`.
spec fn is_above(
    t: Inputs,
    stack: Seq<(Seq<char>, Seq<char>)>,
    depth: Map<Seq<char>, nat>,
    least: nat,
) -> bool {
    &&& forall|i: int|
        0 <= i < stack.len() ==> is_canonical(t.entries, (#[trigger] stack[i]).0) && depth[stack[i].0]
            > least
    &&& forall|i: int, j: int|
        0 <= i < j < stack.len() ==> (#[trigger] stack[i]).0 != (#[trigger] stack[j]).0
}

proof fn what_is_above_is_not_met_again(
    t: Inputs,
    stack: Seq<(Seq<char>, Seq<char>)>,
    depth: Map<Seq<char>, nat>,
    canonical: Seq<char>,
)
    requires
        is_above(t, stack, depth, depth[canonical]),
        is_canonical(t.entries, canonical),
    ensures
        stack_place(stack, canonical) is None,
        stack.len() < t.entries.len(),
{
    is_not_on(stack, canonical);
    let all = Seq::new(stack.len(), |i: int| stack[i].0).push(canonical);
    assert forall|i: int, j: int| 0 <= i < j < all.len() implies all[i] != all[j] by {
        if j < stack.len() {
            assert(stack[i].0 != stack[j].0);
        } else {
            assert(depth[stack[i].0] > depth[canonical]);
        }
    }
    assert(all.no_duplicates());
    assert forall|i: int| 0 <= i < all.len() implies is_canonical(t.entries, #[trigger] all[i]) by {
        if i < stack.len() {
            assert(is_canonical(t.entries, stack[i].0));
        }
    }
    no_more_than_entries(t.entries, all);
}

proof fn is_not_on(stack: Seq<(Seq<char>, Seq<char>)>, canonical: Seq<char>)
    requires
        forall|i: int| 0 <= i < stack.len() ==> (#[trigger] stack[i]).0 != canonical,
    ensures
        stack_place(stack, canonical) is None,
    decreases stack.len(),
{
    if stack.len() > 0 {
        let front = stack.drop_last();
        assert forall|i: int| 0 <= i < front.len() implies (#[trigger] front[i]).0 != canonical by {
            assert(front[i] == stack[i]);
        }
        is_not_on(front, canonical);
    }
}

proof fn a_fine_file_loads(
    t: Inputs,
    stack: Seq<(Seq<char>, Seq<char>)>,
    g: Gathered,
    path: Seq<char>,
    span: Span,
    from: SourceId,
    paths: Set<Seq<char>>,
    depth: Map<Seq<char>, nat>,
)
    requires
        are_fine(t, paths, depth),
        paths.contains(path),
        is_above(t, stack, depth, depth[canonical_of(t, path)->Some_0]),
    ensures
        file_loaded(t, stack, g, path, span, from).0 is Loaded,
    decreases depth[canonical_of(t, path)->Some_0], 1nat, 0nat,
{
    assert(is_fine(t, path));
    assert(imports_below(t, paths, depth, path));
    entry_place_fits(t.entries, path);
    let k = entry_place(t.entries, path)->Some_0;
    let canonical = canonical_of(t, path)->Some_0;
    let file = t.entries[k].read->Ok_0;
    let parsed = file.parsed->Ok_0;
    let dir = beam_dir_of(path, t.cwd, span)->Ok_0;
    assert(beam_dir_of(path, t.cwd, span) == beam_dir_of(path, t.cwd, Span { start: 0, end: 0 }));
    assert(is_canonical(t.entries, canonical));
    what_is_above_is_not_met_again(t, stack, depth, canonical);
    if loaded_place(g.loaded, canonical) is None {
        let longer = stack.push((canonical, path));
        let next = Gathered { sources: g.sources.push((path, file.text@)), ..g };
        let id = SourceId(g.sources.len() as usize);
        let own = project_of(parsed, dir, t.git, t.env, id)->Ok_0;
        let all = LoadedView {
            canonical: longer.last().0,
            beams: own.beams,
            default: own.default,
            hooks: own.hooks,
        };
        fine_imports_load(t, longer, next, parsed.imports@, 0, path, id, all, paths, depth);
        assert(project_of(parsed, dir, t.git, t.env, id) is Ok);
        assert(file_read(t, longer, next, path, dir, file, id) == imports_loaded(
            t,
            longer,
            next,
            parsed.imports@,
            0,
            import_base_of(path),
            id,
            all,
        ));
    }
}

proof fn fine_imports_load(
    t: Inputs,
    stack: Seq<(Seq<char>, Seq<char>)>,
    g: Gathered,
    imports: Seq<Import>,
    k: int,
    path: Seq<char>,
    id: SourceId,
    own: LoadedView,
    paths: Set<Seq<char>>,
    depth: Map<Seq<char>, nat>,
)
    requires
        are_fine(t, paths, depth),
        paths.contains(path),
        parsed_at(t, path) matches Some(file) && file.imports@ == imports,
        stack.len() > 0,
        stack.last() == (canonical_of(t, path)->Some_0, path),
        is_canonical(t.entries, stack.last().0),
        is_above(t, stack.drop_last(), depth, depth[canonical_of(t, path)->Some_0]),
        0 <= k <= imports.len(),
    ensures
        imports_loaded(t, stack, g, imports, k, import_base_of(path), id, own).0 is Loaded,
    decreases depth[canonical_of(t, path)->Some_0], 0nat, imports.len() - k,
{
    if k < imports.len() {
        assert(imports_below(t, paths, depth, path));
        let to = leads_to(path, imports[k]);
        let front = stack.drop_last();
        let c = canonical_of(t, path)->Some_0;
        let low = depth[canonical_of(t, to)->Some_0];
        assert(low < depth[c]);
        assert forall|i: int| 0 <= i < stack.len() implies is_canonical(
            t.entries,
            (#[trigger] stack[i]).0,
        ) && depth[stack[i].0] > low by {
            if i < front.len() {
                assert(front[i] == stack[i]);
            }
        }
        assert forall|i: int, j: int| 0 <= i < j < stack.len() implies (#[trigger] stack[i]).0 != (
        #[trigger] stack[j]).0 by {
            assert(front[i] == stack[i]);
            if j < front.len() {
                assert(front[j] == stack[j]);
            } else {
                assert(depth[front[i].0] > depth[c]);
            }
        }
        a_fine_file_loads(t, stack, g, to, imports[k].path.span, id, paths, depth);
        let (outcome, after) = file_loaded(t, stack, g, to, imports[k].path.span, id);
        if let Outcome::Loaded(i) = outcome {
            let more = LoadedView {
                beams: own.beams + crate::loader::all_under_alias(
                    imports[k].alias.value@,
                    after.loaded[i].beams,
                ),
                ..own
            };
            fine_imports_load(t, stack, after, imports, k + 1, path, id, more, paths, depth);
        }
    }
}

/// A project whose files are all there and fine, and import no file that
/// leads back to them, loads, unless its beams do not make up a valid graph.
pub proof fn a_project_loads_where_its_files_are_fine(
    t: Inputs,
    root: Seq<char>,
    paths: Set<Seq<char>>,
    depth: Map<Seq<char>, nat>,
)
    requires
        are_fine(t, paths, depth),
        paths.contains(root),
    ensures
        match project_loaded(t, root) {
            LoadView::Done(p, _) => graph_verdict(p) is Ok,
            LoadView::Failed(x, _) => exists|p: ProjectView| #[trigger] graph_verdict(p) == Err::<
                (),
                crate::error::ErrorView,
            >(x),
            _ => false,
        },
{
    let start = Gathered { sources: Seq::empty(), loaded: Seq::empty() };
    let none = Seq::<(Seq<char>, Seq<char>)>::empty();
    let span = Span { start: 0, end: 0 };
    a_fine_file_loads(t, none, start, root, span, SourceId(0), paths, depth);
    let (outcome, g) = file_loaded(t, none, start, root, span, SourceId(0));
    if let Outcome::Loaded(i) = outcome {
        let p = loaded_project(g.loaded[i]);
        assert(graph_verdict(p) is Ok || graph_verdict(p) is Err);
    }
}

/// A file that is fine and imports nothing is a project of its own: its
/// beams, its default and its hooks, unless they do not make up a valid
/// graph.
pub proof fn a_file_without_imports_is_a_project(t: Inputs, root: Seq<char>)
    requires
        is_fine(t, root),
        parsed_at(t, root)->Some_0.imports@.len() == 0,
    ensures
        ({
            let file = parsed_at(t, root)->Some_0;
            let dir = beam_dir_of(root, t.cwd, Span { start: 0, end: 0 })->Ok_0;
            let own = project_of(file, dir, t.git, t.env, SourceId(0))->Ok_0;
            match project_loaded(t, root) {
                LoadView::Done(p, sources) => p == own && graph_verdict(own) is Ok && sources.len()
                    == 1 && sources[0].0 == root,
                LoadView::Failed(x, _) => graph_verdict(own) == Err::<(), crate::error::ErrorView>(
                    x,
                ),
                _ => false,
            }
        }),
{
    let start = Gathered { sources: Seq::empty(), loaded: Seq::empty() };
    let none = Seq::<(Seq<char>, Seq<char>)>::empty();
    let span = Span { start: 0, end: 0 };
    entry_place_fits(t.entries, root);
    let k = entry_place(t.entries, root)->Some_0;
    let canonical = canonical_of(t, root)->Some_0;
    let read = t.entries[k].read->Ok_0;
    let file = parsed_at(t, root)->Some_0;
    let dir = beam_dir_of(root, t.cwd, span)->Ok_0;
    let id = SourceId(0);
    assert(project_of(file, dir, t.git, t.env, id) is Ok);
    let own = project_of(file, dir, t.git, t.env, id)->Ok_0;
    let longer = none.push((canonical, root));
    let next = Gathered { sources: start.sources.push((root, read.text@)), ..start };
    let all = LoadedView {
        canonical: longer.last().0,
        beams: own.beams,
        default: own.default,
        hooks: own.hooks,
    };
    assert(stack_place(none, canonical) is None);
    assert(loaded_place(start.loaded, canonical) is None);
    let base = import_base_of(root);
    let end = imports_loaded(t, longer, next, file.imports@, 0, base, id, all);
    assert(end.1.loaded =~= seq![all]);
    assert(file_read(t, longer, next, root, dir, read, id) == end);
    assert(file_loaded(t, none, start, root, span, id) == end);
    assert(loaded_project(end.1.loaded[0]) == own);
}

/// A path that a file of the table imports.
pub open spec fn is_imported_by_one(t: Inputs, path: Seq<char>) -> bool {
    exists|from: Seq<char>, i: int| #[trigger] imports_at(t, from, i, path)
}

pub open spec fn imports_at(t: Inputs, from: Seq<char>, i: int, path: Seq<char>) -> bool {
    parsed_at(t, from) matches Some(file) && 0 <= i < file.imports@.len() && path == leads_to(
        from,
        file.imports@[i],
    )
}

proof fn a_file_to_read_is_missing(
    t: Inputs,
    stack: Seq<(Seq<char>, Seq<char>)>,
    g: Gathered,
    path: Seq<char>,
    span: Span,
    from: SourceId,
)
    ensures
        file_loaded(t, stack, g, path, span, from).0 matches Outcome::Read(missing) ==> entry_place(
            t.entries,
            missing,
        ) is None && (missing == path || is_imported_by_one(t, missing)),
    decreases t.entries.len() - stack.len(), 0int,
{
    entry_place_fits(t.entries, path);
    if let Some(k) = entry_place(t.entries, path) {
        if let (Ok(canonical), Ok(file), Ok(dir)) = (
            t.entries[k].canonical,
            t.entries[k].read,
            beam_dir_of(path, t.cwd, span),
        ) {
            if stack_place(stack, canonical@) is None && loaded_place(g.loaded, canonical@) is None
                && stack.len() < t.entries.len() {
                let next = Gathered { sources: g.sources.push((path, file.text@)), ..g };
                let id = SourceId(g.sources.len() as usize);
                let longer = stack.push((canonical@, path));
                if let Ok(parsed) = file.parsed {
                    if let Ok(own) = project_of(parsed, dir, t.git, t.env, id) {
                        let all = LoadedView {
                            canonical: longer.last().0,
                            beams: own.beams,
                            default: own.default,
                            hooks: own.hooks,
                        };
                        an_import_to_read_is_missing(
                            t,
                            longer,
                            next,
                            parsed.imports@,
                            0,
                            path,
                            id,
                            all,
                        );
                    }
                }
                assert(file_loaded(t, stack, g, path, span, from) == file_read(
                    t,
                    longer,
                    next,
                    path,
                    dir,
                    file,
                    id,
                ));
            }
        }
    }
}

proof fn an_import_to_read_is_missing(
    t: Inputs,
    stack: Seq<(Seq<char>, Seq<char>)>,
    g: Gathered,
    imports: Seq<Import>,
    k: int,
    path: Seq<char>,
    id: SourceId,
    own: LoadedView,
)
    requires
        parsed_at(t, path) matches Some(file) && file.imports@ == imports,
        0 <= k <= imports.len(),
    ensures
        imports_loaded(t, stack, g, imports, k, import_base_of(path), id, own).0
            matches Outcome::Read(missing) ==> entry_place(t.entries, missing) is None
            && is_imported_by_one(t, missing),
    decreases t.entries.len() - stack.len(), imports.len() - k + 1,
{
    if k < imports.len() {
        let to = leads_to(path, imports[k]);
        assert(imports_at(t, path, k, to));
        a_file_to_read_is_missing(t, stack, g, to, imports[k].path.span, id);
        let (outcome, after) = file_loaded(t, stack, g, to, imports[k].path.span, id);
        if let Outcome::Loaded(i) = outcome {
            let more = LoadedView {
                beams: own.beams + crate::loader::all_under_alias(
                    imports[k].alias.value@,
                    after.loaded[i].beams,
                ),
                ..own
            };
            an_import_to_read_is_missing(t, stack, after, imports, k + 1, path, id, more);
        }
    }
}

/// What is asked for before a project loads: a file only where it was not
/// read yet, the root first and then what a file that was read imports; and
/// what git says only where that is not known yet. Where it loads, its graph
/// is valid and its default is the root's own.
pub proof fn only_what_is_missing_is_asked_for(
    root: &str,
    table: &FileTable,
    cwd: &Result<String, String>,
    git: &Option<Result<GitHead, GitError>>,
    env: &Environment,
    r: LoadStep,
    t: Inputs,
)
    requires
        call_ensures(load_project, (root, table, cwd, git, env), r),
        t == (Inputs {
            entries: table.entries@,
            cwd: cwd_view(*cwd),
            git: git_view(*git),
            env: *env,
        }),
        table.entries@.len() <= usize::MAX,
    ensures
        entry_place(t.entries, root@) is None ==> (r matches LoadStep::Read(path) && path@ == root@),
        r matches LoadStep::Read(path) ==> entry_place(t.entries, path@) is None && (path@ == root@
            || is_imported_by_one(t, path@)),
        r is AskGit ==> *git is None,
        r matches LoadStep::Done(project, _) ==> graph_verdict(project@) is Ok && (parsed_at(
            t,
            root@,
        ) matches Some(file) && project@.default == named_default(file.default)),
{
    let start = Gathered { sources: Seq::empty(), loaded: Seq::empty() };
    let none = Seq::<(Seq<char>, Seq<char>)>::empty();
    let span = Span { start: 0, end: 0 };
    assert(r@ == project_loaded(t, root@));
    a_file_to_read_is_missing(t, none, start, root@, span, SourceId(0));
    crate::loader_laws::loading_is_sound(t, root@);
    crate::loader_files_laws::a_project_is_its_files(t, root@);
}

} // verus!
