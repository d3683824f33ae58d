//! No two beams of a loaded project share a name.

use vstd::prelude::*;
use crate::graph_laws::distinct_beams;
use crate::loader::{
    all_under_alias, beam_dir_of, duplicate_alias, entry_place, file_loaded, file_read,
    import_base_of, import_count, imports_loaded, loaded_place, project_loaded, stack_place,
    under_alias, Gathered, Inputs, LoadView, LoadedView, Outcome, ReadFile,
};
use crate::loader_laws::entry_place_fits;
use crate::model::{BeamView, SourceId};
use crate::paths::joined_path;
use crate::project::{beam_at, collect_gives_each, lets_of, project_of};
use crate::syntax::{File, Import, Span};

verus! {

/// A name without the character that joins an alias to a name.
pub open spec fn is_plain(name: Seq<char>) -> bool {
    !name.contains(':')
}

/// Names and aliases are single words, as they are where they are parsed as
/// identifiers, and no beam is declared twice.
pub open spec fn well_named(file: File) -> bool {
    &&& forall|i: int|
        0 <= i < file.beams@.len() ==> is_plain((#[trigger] file.beams@[i]).name.value@)
    &&& forall|i: int, j: int|
        0 <= i < j < file.beams@.len() ==> (#[trigger] file.beams@[i]).name.value@ != (
        #[trigger] file.beams@[j]).name.value@
    &&& forall|i: int|
        0 <= i < file.imports@.len() ==> is_plain((#[trigger] file.imports@[i]).alias.value@)
}

/// Every file that could be parsed is well named.
pub open spec fn all_well_named(t: Inputs) -> bool {
    forall|k: int|
        #![trigger t.entries[k]]
        0 <= k < t.entries.len() ==> (t.entries[k].read matches Ok(file) ==> (
        file.parsed matches Ok(parsed) ==> well_named(parsed)))
}

pub open spec fn named_differently(beams: Seq<BeamView>) -> bool {
    forall|i: int, j: int|
        0 <= i < j < beams.len() ==> (#[trigger] beams[i]).id != (#[trigger] beams[j]).id
}

spec fn each_named_differently(loaded: Seq<LoadedView>) -> bool {
    forall|i: int| 0 <= i < loaded.len() ==> named_differently((#[trigger] loaded[i]).beams)
}

spec fn aliases_differ(imports: Seq<Import>) -> bool {
    &&& forall|i: int| 0 <= i < imports.len() ==> is_plain((#[trigger] imports[i]).alias.value@)
    &&& forall|i: int, j: int|
        0 <= i < j < imports.len() ==> (#[trigger] imports[i]).alias.value@ != (
        #[trigger] imports[j]).alias.value@
}

/// A name that begins with an alias.
spec fn is_under(alias: Seq<char>, name: Seq<char>) -> bool {
    exists|rest: Seq<char>| name == #[trigger] (alias + ":"@ + rest)
}

/// A beam of the file itself, or of one of its first `k` imports.
spec fn from_first(imports: Seq<Import>, k: int, name: Seq<char>) -> bool {
    is_plain(name) || exists|m: int|
        0 <= m < k && m < imports.len() && is_under((#[trigger] imports[m]).alias.value@, name)
}

/// An alias ends where the first joint is.
proof fn an_alias_can_be_told(a: Seq<char>, x: Seq<char>, b: Seq<char>, y: Seq<char>)
    requires
        is_plain(a),
        is_plain(b),
        a + ":"@ + x == b + ":"@ + y,
    ensures
        a == b,
        x == y,
{
    reveal_strlit(":");
    let s = a + ":"@ + x;
    let t = b + ":"@ + y;
    assert(s[a.len() as int] == ':');
    assert(t[b.len() as int] == ':');
    if a.len() < b.len() {
        assert(b[a.len() as int] == t[a.len() as int]);
        assert(b.contains(':'));
    }
    if b.len() < a.len() {
        assert(a[b.len() as int] == s[b.len() as int]);
        assert(a.contains(':'));
    }
    assert(s.take(a.len() as int) =~= a);
    assert(t.take(b.len() as int) =~= b);
    assert(s.skip(1int + a.len()) =~= x);
    assert(t.skip(1int + b.len()) =~= y);
}

proof fn a_joined_name_is_not_plain(a: Seq<char>, x: Seq<char>)
    ensures
        !is_plain(a + ":"@ + x),
{
    reveal_strlit(":");
    assert((a + ":"@ + x)[a.len() as int] == ':');
}

proof fn aliases_are_told_apart(imports: Seq<Import>, i: int, j: int)
    requires
        duplicate_alias(imports) is None,
        0 <= i < j < imports.len(),
    ensures
        imports[i].alias.value@ != imports[j].alias.value@,
    decreases imports.len(),
{
    if j < imports.len() - 1 {
        aliases_are_told_apart(imports.drop_last(), i, j);
    }
}

pub(crate) proof fn loaded_place_fits(loaded: Seq<LoadedView>, canonical: Seq<char>)
    ensures
        loaded_place(loaded, canonical) matches Some(i) ==> 0 <= i < loaded.len(),
    decreases loaded.len(),
{
    if loaded.len() > 0 {
        loaded_place_fits(loaded.drop_last(), canonical);
    }
}

/// The beams that a file declares have the names it gives them.
proof fn own_names(file: File, dir: Seq<char>, t: Inputs, id: SourceId)
    requires
        well_named(file),
        project_of(file, dir, t.git, t.env, id) is Ok,
    ensures
        ({
            let beams = project_of(file, dir, t.git, t.env, id)->Ok_0.beams;
            &&& named_differently(beams)
            &&& forall|i: int| 0 <= i < beams.len() ==> is_plain((#[trigger] beams[i]).id)
        }),
{
    let lets = lets_of(file.lets@, t.git, t.env)->Ok_0;
    let f = beam_at(file.beams@, lets, dir, t.env, id);
    collect_gives_each(file.beams@.len(), f);
    let beams = project_of(file, dir, t.git, t.env, id)->Ok_0.beams;
    assert forall|i: int| 0 <= i < beams.len() implies (#[trigger] beams[i]).id
        == file.beams@[i].name.value@ by {
        assert(f(i) == Ok::<BeamView, crate::error::ErrorView>(beams[i]));
    }
}

/// One more import keeps all names apart.
proof fn one_more_import(imports: Seq<Import>, k: int, own: Seq<BeamView>, theirs: Seq<BeamView>)
    requires
        aliases_differ(imports),
        0 <= k < imports.len(),
        named_differently(own),
        named_differently(theirs),
        forall|i: int| 0 <= i < own.len() ==> from_first(imports, k, (#[trigger] own[i]).id),
    ensures
        ({
            let all = own + all_under_alias(imports[k].alias.value@, theirs);
            &&& named_differently(all)
            &&& forall|i: int|
                0 <= i < all.len() ==> from_first(imports, k + 1, (#[trigger] all[i]).id)
        }),
{
    let alias = imports[k].alias.value@;
    let added = all_under_alias(alias, theirs);
    let all = own + added;
    assert forall|i: int| 0 <= i < all.len() implies from_first(
        imports,
        k + 1,
        (#[trigger] all[i]).id,
    ) by {
        if i < own.len() {
            assert(all[i] == own[i]);
            assert(from_first(imports, k, own[i].id));
            if !is_plain(own[i].id) {
                let m = choose|m: int|
                    0 <= m < k && m < imports.len() && is_under(
                        (#[trigger] imports[m]).alias.value@,
                        own[i].id,
                    );
                assert(is_under(imports[m].alias.value@, own[i].id));
            }
        } else {
            let inner = theirs[i - own.len()];
            assert(all[i] == under_alias(alias, inner));
            assert(all[i].id == alias + ":"@ + inner.id);
            assert(is_under(imports[k].alias.value@, all[i].id));
        }
    }
    assert forall|i: int, j: int| 0 <= i < j < all.len() implies (#[trigger] all[i]).id != (
    #[trigger] all[j]).id by {
        if j < own.len() {
            assert(own[i].id != own[j].id);
        } else {
            let y = theirs[j - own.len()];
            assert(all[j].id == alias + ":"@ + y.id);
            if i < own.len() {
                assert(from_first(imports, k, own[i].id));
                a_joined_name_is_not_plain(alias, y.id);
                if all[i].id == all[j].id {
                    let m = choose|m: int|
                        0 <= m < k && m < imports.len() && is_under(
                            (#[trigger] imports[m]).alias.value@,
                            own[i].id,
                        );
                    let other = imports[m].alias.value@;
                    let rest = choose|rest: Seq<char>| own[i].id == #[trigger] (other + ":"@ + rest);
                    an_alias_can_be_told(other, rest, alias, y.id);
                    assert(imports[m].alias.value@ != imports[k].alias.value@);
                }
            } else {
                let x = theirs[i - own.len()];
                assert(all[i].id == alias + ":"@ + x.id);
                if all[i].id == all[j].id {
                    assert(is_plain(imports[k].alias.value@));
                    an_alias_can_be_told(alias, x.id, alias, y.id);
                }
            }
        }
    }
}

proof fn file_loaded_names(
    t: Inputs,
    stack: Seq<(Seq<char>, Seq<char>)>,
    g: Gathered,
    path: Seq<char>,
    span: Span,
    from: SourceId,
)
    requires
        all_well_named(t),
        each_named_differently(g.loaded),
    ensures
        ({
            let r = file_loaded(t, stack, g, path, span, from);
            &&& each_named_differently(r.1.loaded)
            &&& r.0 matches Outcome::Loaded(i) ==> 0 <= i < r.1.loaded.len()
        }),
    decreases t.entries.len() - stack.len(), 0int,
{
    entry_place_fits(t.entries, path);
    if let Some(k) = entry_place(t.entries, path) {
        if let Ok(canonical) = t.entries[k].canonical {
            loaded_place_fits(g.loaded, canonical@);
            if let (Ok(file), Ok(dir)) = (t.entries[k].read, beam_dir_of(path, t.cwd, span)) {
                if stack_place(stack, canonical@) is None && loaded_place(
                    g.loaded,
                    canonical@,
                ) is None && stack.len() < t.entries.len() {
                    let next = Gathered { sources: g.sources.push((path, file.text@)), ..g };
                    let id = SourceId(g.sources.len() as usize);
                    file_read_names(t, stack.push((canonical@, path)), next, path, dir, file, id);
                }
            }
        }
    }
}

proof fn file_read_names(
    t: Inputs,
    stack: Seq<(Seq<char>, Seq<char>)>,
    g: Gathered,
    path: Seq<char>,
    dir: Seq<char>,
    file: ReadFile,
    id: SourceId,
)
    requires
        all_well_named(t),
        file.parsed matches Ok(parsed) ==> well_named(parsed),
        each_named_differently(g.loaded),
    ensures
        ({
            let r = file_read(t, stack, g, path, dir, file, id);
            &&& each_named_differently(r.1.loaded)
            &&& r.0 matches Outcome::Loaded(i) ==> 0 <= i < r.1.loaded.len()
        }),
    decreases t.entries.len() - stack.len(), import_count(file) + 2,
{
    if let Ok(parsed) = file.parsed {
        if let Ok(own) = project_of(parsed, dir, t.git, t.env, id) {
            if duplicate_alias(parsed.imports@) is None {
                let all = LoadedView {
                    canonical: stack.last().0,
                    beams: own.beams,
                    default: own.default,
                    hooks: own.hooks,
                };
                let imports = parsed.imports@;
                own_names(parsed, dir, t, id);
                assert forall|i: int, j: int| 0 <= i < j < imports.len() implies (
                #[trigger] imports[i]).alias.value@ != (#[trigger] imports[j]).alias.value@ by {
                    aliases_are_told_apart(imports, i, j);
                }
                imports_loaded_names(t, stack, g, imports, 0, import_base_of(path), id, all);
            }
        }
    }
}

proof fn imports_loaded_names(
    t: Inputs,
    stack: Seq<(Seq<char>, Seq<char>)>,
    g: Gathered,
    imports: Seq<Import>,
    k: int,
    base: Seq<char>,
    id: SourceId,
    own: LoadedView,
)
    requires
        0 <= k,
        all_well_named(t),
        aliases_differ(imports),
        each_named_differently(g.loaded),
        named_differently(own.beams),
        forall|i: int|
            0 <= i < own.beams.len() ==> from_first(imports, k, (#[trigger] own.beams[i]).id),
    ensures
        ({
            let r = imports_loaded(t, stack, g, imports, k, base, id, own);
            &&& each_named_differently(r.1.loaded)
            &&& r.0 matches Outcome::Loaded(i) ==> 0 <= i < r.1.loaded.len()
        }),
    decreases t.entries.len() - stack.len(), imports.len() - k + 1,
{
    if k < imports.len() {
        let path = joined_path(base, imports[k].path.value@);
        file_loaded_names(t, stack, g, path, imports[k].path.span, id);
        let (outcome, after) = file_loaded(t, stack, g, path, imports[k].path.span, id);
        if let Outcome::Loaded(i) = outcome {
            let theirs = after.loaded[i].beams;
            let more = LoadedView {
                beams: own.beams + all_under_alias(imports[k].alias.value@, theirs),
                ..own
            };
            one_more_import(imports, k, own.beams, theirs);
            imports_loaded_names(t, stack, after, imports, k + 1, base, id, more);
        }
    }
}

/// In a loaded project no two beams share a name, through however many
/// imports they come, as long as no file declares one twice.
pub proof fn no_two_beams_share_a_name(t: Inputs, root: Seq<char>)
    requires
        all_well_named(t),
    ensures
        project_loaded(t, root) matches LoadView::Done(p, _) ==> distinct_beams(p),
{
    let start = Gathered { sources: Seq::empty(), loaded: Seq::empty() };
    let span = Span { start: 0, end: 0 };
    file_loaded_names(t, Seq::empty(), start, root, span, SourceId(0));
    let (outcome, g) = file_loaded(t, Seq::empty(), start, root, span, SourceId(0));
    if let Outcome::Loaded(i) = outcome {
        assert(named_differently(g.loaded[i].beams));
    }
}

} // verus!
