//! A project has the beams of its root file and, under their aliases, those
//! of the files that it imports.

use vstd::prelude::*;
use crate::loader::{
    all_under_alias, beam_dir_of, entry_place, file_loaded, import_base_of, imports_loaded,
    imports_loaded_grow, loaded_place, project_loaded, stack_place, Gathered, Inputs, LoadView,
    LoadedView, Outcome,
};
use crate::loader_files_laws::{canonical_of, parsed_at};
use crate::loader_laws::entry_place_fits;
use crate::model::{BeamView, SourceId};
use crate::paths::{components, is_absolute, joined_path, parent_of};
use crate::paths_laws::{
    a_parent_lacks_the_last_component, an_absolute_path_is_seen_from_the_directory, names_of,
};
use crate::project::project_of;
use crate::syntax::{Import, Span};

verus! {

/// The beams of imports, from import `k` on: `at` says which of the loaded
/// files each import is.
pub open spec fn imported_beams(
    imports: Seq<Import>,
    k: int,
    loaded: Seq<LoadedView>,
    at: Seq<int>,
) -> Seq<BeamView>
    decreases at.len(),
{
    if at.len() == 0 {
        Seq::empty()
    } else {
        all_under_alias(imports[k].alias.value@, loaded[at[0]].beams) + imported_beams(
            imports,
            k + 1,
            loaded,
            at.drop_first(),
        )
    }
}

/// Each import, from import `k` on, is the loaded file that its path leads
/// to.
pub open spec fn are_the_imports(
    t: Inputs,
    imports: Seq<Import>,
    k: int,
    base: Seq<char>,
    loaded: Seq<LoadedView>,
    at: Seq<int>,
) -> bool {
    &&& at.len() == imports.len() - k
    &&& forall|m: int|
        #![trigger at[m]]
        0 <= m < at.len() ==> 0 <= at[m] < loaded.len() && canonical_of(
            t,
            joined_path(base, imports[k + m].path.value@),
        ) == Some(loaded[at[m]].canonical)
}

proof fn a_loaded_place_is_the_file(loaded: Seq<LoadedView>, canonical: Seq<char>)
    ensures
        loaded_place(loaded, canonical) matches Some(i) ==> 0 <= i < loaded.len()
            && loaded[i].canonical == canonical,
    decreases loaded.len(),
{
    if loaded.len() > 0 {
        a_loaded_place_is_the_file(loaded.drop_last(), canonical);
    }
}

proof fn imports_end_with_the_file(
    t: Inputs,
    stack: Seq<(Seq<char>, Seq<char>)>,
    g: Gathered,
    imports: Seq<Import>,
    k: int,
    base: Seq<char>,
    id: SourceId,
    own: LoadedView,
)
    ensures
        imports_loaded(t, stack, g, imports, k, base, id, own).0 matches Outcome::Loaded(i) ==> {
            let after = imports_loaded(t, stack, g, imports, k, base, id, own).1.loaded;
            i == after.len() - 1 && 0 <= i && after[i].canonical == own.canonical
        },
    decreases imports.len() - k,
{
    if 0 <= k < imports.len() {
        let path = joined_path(base, imports[k].path.value@);
        let (outcome, after) = file_loaded(t, stack, g, path, imports[k].path.span, id);
        if let Outcome::Loaded(i) = outcome {
            let more = LoadedView {
                beams: own.beams + all_under_alias(
                    imports[k].alias.value@,
                    after.loaded[i].beams,
                ),
                ..own
            };
            imports_end_with_the_file(t, stack, after, imports, k + 1, base, id, more);
        }
    }
}

proof fn a_loaded_file_is_the_one_asked_for(
    t: Inputs,
    stack: Seq<(Seq<char>, Seq<char>)>,
    g: Gathered,
    path: Seq<char>,
    span: Span,
    from: SourceId,
)
    ensures
        file_loaded(t, stack, g, path, span, from).0 matches Outcome::Loaded(i) ==> {
            let after = file_loaded(t, stack, g, path, span, from).1.loaded;
            0 <= i < after.len() && canonical_of(t, path) == Some(after[i].canonical)
        },
{
    entry_place_fits(t.entries, path);
    if let Some(k) = entry_place(t.entries, path) {
        if let Ok(canonical) = t.entries[k].canonical {
            a_loaded_place_is_the_file(g.loaded, canonical@);
            if let (Ok(file), Ok(dir)) = (t.entries[k].read, beam_dir_of(path, t.cwd, span)) {
                if let Ok(parsed) = file.parsed {
                    let id = SourceId(g.sources.len() as usize);
                    let next = Gathered { sources: g.sources.push((path, file.text@)), ..g };
                    let longer = stack.push((canonical@, path));
                    if let Ok(own) = project_of(parsed, dir, t.git, t.env, id) {
                        let all = LoadedView {
                            canonical: longer.last().0,
                            beams: own.beams,
                            default: own.default,
                            hooks: own.hooks,
                        };
                        imports_end_with_the_file(
                            t,
                            longer,
                            next,
                            parsed.imports@,
                            0,
                            import_base_of(path),
                            id,
                            all,
                        );
                    }
                }
            }
        }
    }
}

/// A file has its own beams and then, import by import, those of the files
/// that it imports.
pub proof fn imports_add_their_beams(
    t: Inputs,
    stack: Seq<(Seq<char>, Seq<char>)>,
    g: Gathered,
    imports: Seq<Import>,
    k: int,
    base: Seq<char>,
    id: SourceId,
    own: LoadedView,
) -> (at: Seq<int>)
    requires
        0 <= k <= imports.len(),
    ensures
        imports_loaded(t, stack, g, imports, k, base, id, own).0 matches Outcome::Loaded(i) ==> {
            let after = imports_loaded(t, stack, g, imports, k, base, id, own).1.loaded;
            &&& are_the_imports(t, imports, k, base, after, at)
            &&& after[i].beams == own.beams + imported_beams(imports, k, after, at)
            &&& after[i].default == own.default
            &&& after[i].hooks == own.hooks
        },
    decreases imports.len() - k,
{
    let whole = imports_loaded(t, stack, g, imports, k, base, id, own);
    if k == imports.len() {
        let none = Seq::<int>::empty();
        assert(own.beams + imported_beams(imports, k, whole.1.loaded, none) =~= own.beams);
        none
    } else {
        let path = joined_path(base, imports[k].path.value@);
        let span = imports[k].path.span;
        let (outcome, after) = file_loaded(t, stack, g, path, span, id);
        a_loaded_file_is_the_one_asked_for(t, stack, g, path, span, id);
        match outcome {
            Outcome::Loaded(i) => {
                let theirs = all_under_alias(imports[k].alias.value@, after.loaded[i].beams);
                let more = LoadedView { beams: own.beams + theirs, ..own };
                let rest = imports_add_their_beams(
                    t,
                    stack,
                    after,
                    imports,
                    k + 1,
                    base,
                    id,
                    more,
                );
                imports_loaded_grow(t, stack, after, imports, k + 1, base, id, more);
                let at = seq![i] + rest;
                if let Outcome::Loaded(j) = whole.0 {
                    let loaded = whole.1.loaded;
                    assert(loaded[i] == after.loaded[i]);
                    assert(at.drop_first() =~= rest);
                    assert(at[0] == i);
                    assert forall|m: int|
                        #![trigger at[m]]
                        0 <= m < at.len() implies 0 <= at[m] < loaded.len() && canonical_of(
                        t,
                        joined_path(base, imports[k + m].path.value@),
                    ) == Some(loaded[at[m]].canonical) by {
                        if m > 0 {
                            assert(at[m] == rest[m - 1]);
                            assert(imports[k + m] == imports[k + 1 + (m - 1)]);
                        }
                    }
                    let tail = imported_beams(imports, k + 1, loaded, rest);
                    assert((own.beams + theirs) + tail =~= own.beams + (theirs + tail));
                }
                at
            },
            _ => Seq::empty(),
        }
    }
}

/// A loaded project has the beams of its root file, in the order in which the
/// file declares them, and then, import by import, those of the files that it
/// imports, under their aliases; and these have theirs in the same way.
pub proof fn a_project_has_the_beams_of_its_files(t: Inputs, root: Seq<char>) -> (r: (
    Seq<LoadedView>,
    Seq<int>,
))
    ensures
        project_loaded(t, root) matches LoadView::Done(p, _) ==> (parsed_at(t, root) matches Some(
            file,
        ) && (beam_dir_of(root, t.cwd, Span { start: 0, end: 0 }) matches Ok(dir) && {
            let own = project_of(file, dir, t.git, t.env, SourceId(0));
            &&& own is Ok
            &&& are_the_imports(t, file.imports@, 0, import_base_of(root), r.0, r.1)
            &&& p.beams == own->Ok_0.beams + imported_beams(file.imports@, 0, r.0, r.1)
            &&& p.default == own->Ok_0.default
            &&& p.hooks == own->Ok_0.hooks
        })),
{
    let start = Gathered { sources: Seq::empty(), loaded: Seq::empty() };
    let span = Span { start: 0, end: 0 };
    let none = Seq::<(Seq<char>, Seq<char>)>::empty();
    entry_place_fits(t.entries, root);
    let g = file_loaded(t, none, start, root, span, SourceId(0)).1;
    if let Some(k) = entry_place(t.entries, root) {
        if let (Ok(canonical), Ok(file), Ok(dir)) = (
            t.entries[k].canonical,
            t.entries[k].read,
            beam_dir_of(root, t.cwd, span),
        ) {
            if let Ok(parsed) = file.parsed {
                let id = SourceId(0);
                let next = Gathered { sources: start.sources.push((root, file.text@)), ..start };
                let longer = none.push((canonical@, root));
                if let Ok(own) = project_of(parsed, dir, t.git, t.env, id) {
                    let all = LoadedView {
                        canonical: longer.last().0,
                        beams: own.beams,
                        default: own.default,
                        hooks: own.hooks,
                    };
                    let at = imports_add_their_beams(
                        t,
                        longer,
                        next,
                        parsed.imports@,
                        0,
                        import_base_of(root),
                        id,
                        all,
                    );
                    assert(stack_place(none, canonical@) is None);
                    assert(loaded_place(start.loaded, canonical@) is None);
                    (g.loaded, at)
                } else {
                    (g.loaded, Seq::empty())
                }
            } else {
                (g.loaded, Seq::empty())
            }
        } else {
            (g.loaded, Seq::empty())
        }
    } else {
        (g.loaded, Seq::empty())
    }
}

/// A beam's directory is that of its file, and absolute as soon as the
/// current directory is.
pub proof fn a_beam_is_in_its_file_s_directory(path: Seq<char>, cwd: Seq<char>, span: Span)
    requires
        path.len() > 0,
        is_absolute(path) || cwd.len() > 0,
    ensures
        beam_dir_of(path, Ok(cwd), span) matches Ok(dir) && {
            let all = if is_absolute(path) {
                components(path)
            } else {
                components(cwd) + names_of(path)
            };
            all.len() > 1 ==> components(dir) == all.drop_last()
        },
{
    an_absolute_path_is_seen_from_the_directory(path, cwd);
    let full = crate::paths::absolute_path(path, cwd);
    if parent_of(full) is Some {
        a_parent_lacks_the_last_component(full);
    } else if components(full).len() > 1 {
        let n = components(full).len() - 1;
        crate::paths_laws::a_component_is_the_root_or_a_name(full, n);
        reveal_strlit("/");
        assert("/"@[0] == '/');
        assert(components(full)[n].contains('/'));
    }
}

} // verus!
