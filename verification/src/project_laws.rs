//! A project is what its Beamfile declares.

use vstd::prelude::*;
use crate::check::{load_time_text, template_verdict, Timing};
use crate::error::{result_view, CoreError, ErrorView};
use crate::eval::{start_of_source, span_or, text_of, value_of};
use crate::globs::glob_refusal;
use crate::loader::{all_under_alias, import_base_of};
use crate::model::{Beam, BeamId, BeamView, ExecutorView, OptionView, Project, ProjectView, SourceId};
use crate::paths::{components, is_absolute, joined_path, parent_of};
use crate::paths_laws::{a_parent_lacks_the_last_component, joining_adds_components, names_of};
use crate::project::{
    beam_at, beam_of, beam_ref_to_id, build_beam, build_project, collect, collect_gives_each,
    docker_of, docker_option, docker_options, env_verdict_at, executor_of, first_invalid_volume,
    lets_of, names, option_at, option_of, pattern_at, run_verdict_at, valid_volume, Context,
};
use crate::render_laws::collect_fails_where_one_does;
use crate::scope::{Environment, GitView, Scope, ScopeView};
use crate::syntax::{BeamDecl, BeamRef, ExecutorDecl, File, LetBinding, Span, StringTemplate};
use crate::text::{joined, views};
use crate::text_laws::joining_goes_part_by_part;

verus! {

/// The text that a field has once the file's `let`s are known.
pub open spec fn text_in(t: StringTemplate, lets: ScopeView, env: Environment) -> Result<
    Seq<char>,
    ErrorView,
> {
    text_of(t.parts@, t.span, lets, env)
}

/// A beam is what its declaration says: it has the declaration's name,
/// parameters, commands and flags; it needs what the declaration needs, in
/// order; its variables are the declaration's; and its description, patterns
/// and directory are what the declaration's templates render to. Every
/// pattern compiles.
pub proof fn a_beam_is_what_its_declaration_says(
    decl: &BeamDecl,
    lets: &Scope,
    dir: &str,
    env: &Environment,
    source: SourceId,
    r: Result<Beam, CoreError>,
)
    requires
        call_ensures(build_beam, (decl, lets, dir, env, source), r),
    ensures
        r matches Ok(b) ==> {
            &&& b.id@ == decl.name.value@
            &&& b.allow_failure == decl.allow_failure
            &&& b.dir@ == dir@
            &&& b.source == source
            &&& b.run@ == decl.run@
            &&& b.scope@ == lets@
            &&& b.params@.len() == decl.params@.len()
            &&& forall|k: int|
                0 <= k < decl.params@.len() ==> (#[trigger] b.params@[k])@ == decl.params@[k].value@
            &&& b.env@.len() == decl.env@.len()
            &&& forall|k: int|
                0 <= k < decl.env@.len() ==> (#[trigger] b.env@[k]).0@ == decl.env@[k].0.value@
                    && b.env@[k].1 == decl.env@[k].1
            &&& b.needs@.len() == decl.needs@.len()
            &&& forall|k: int, id: BeamId|
                0 <= k < decl.needs@.len() && #[trigger] call_ensures(
                    beam_ref_to_id,
                    (&decl.needs@[k].value,),
                    id,
                ) ==> b.needs@[k].value@ == id@
            &&& b.inputs@.len() == decl.inputs@.len()
            &&& forall|k: int|
                0 <= k < decl.inputs@.len() ==> text_in(#[trigger] decl.inputs@[k], lets@, *env)
                    == Ok::<Seq<char>, ErrorView>(b.inputs@[k]@) && glob_refusal(
                    b.inputs@[k]@,
                ) is None
            &&& b.outputs@.len() == decl.outputs@.len()
            &&& forall|k: int|
                0 <= k < decl.outputs@.len() ==> text_in(#[trigger] decl.outputs@[k], lets@, *env)
                    == Ok::<Seq<char>, ErrorView>(b.outputs@[k]@) && glob_refusal(
                    b.outputs@[k]@,
                ) is None
            &&& b.cwd is Some <==> decl.cwd is Some
            &&& decl.cwd matches Some(t) ==> text_in(t, lets@, *env) == Ok::<Seq<char>, ErrorView>(
                b.cwd->Some_0@,
            )
            &&& b.description is Some <==> decl.description is Some
            &&& decl.description matches Some(t) ==> text_in(t, lets@, *env) == Ok::<
                Seq<char>,
                ErrorView,
            >(b.description->Some_0@)
        },
{
    let f = |b: Beam| b@;
    if let Ok(b) = r {
        assert(result_view(r, f) == Ok::<BeamView, ErrorView>(b@));
        let c = Context { lets: lets@, params: names(decl.params@), env: *env };
        let v = b@;
        let fi = pattern_at(c, "inputs"@, decl.name.value@, decl.inputs@);
        let fo = pattern_at(c, "outputs"@, decl.name.value@, decl.outputs@);
        collect_gives_each(decl.inputs@.len(), fi);
        collect_gives_each(decl.outputs@.len(), fo);
        assert(v.inputs.len() == b.inputs@.len());
        assert(v.outputs.len() == b.outputs@.len());
        assert(v.params.len() == b.params@.len());
        assert(v.env.len() == b.env@.len());
        assert(v.needs.len() == b.needs@.len());
        assert forall|k: int| 0 <= k < decl.params@.len() implies (#[trigger] b.params@[k])@
            == decl.params@[k].value@ by {
            assert(v.params[k] == b.params@[k]@);
        }
        assert forall|k: int| 0 <= k < decl.env@.len() implies (#[trigger] b.env@[k]).0@
            == decl.env@[k].0.value@ && b.env@[k].1 == decl.env@[k].1 by {
            assert(v.env[k] == (b.env@[k].0@, b.env@[k].1));
        }
        assert forall|k: int, id: BeamId|
            0 <= k < decl.needs@.len() && #[trigger] call_ensures(
                beam_ref_to_id,
                (&decl.needs@[k].value,),
                id,
            ) implies b.needs@[k].value@ == id@ by {
            assert(v.needs[k] == (b.needs@[k].value@, b.needs@[k].span));
        }
        assert forall|k: int| 0 <= k < decl.inputs@.len() implies text_in(
            #[trigger] decl.inputs@[k],
            lets@,
            *env,
        ) == Ok::<Seq<char>, ErrorView>(b.inputs@[k]@) && glob_refusal(b.inputs@[k]@) is None by {
            assert(fi(k) == Ok::<Seq<char>, ErrorView>(v.inputs[k]));
            assert(v.inputs[k] == b.inputs@[k]@);
        }
        assert forall|k: int| 0 <= k < decl.outputs@.len() implies text_in(
            #[trigger] decl.outputs@[k],
            lets@,
            *env,
        ) == Ok::<Seq<char>, ErrorView>(b.outputs@[k]@) && glob_refusal(b.outputs@[k]@) is None by {
            assert(fo(k) == Ok::<Seq<char>, ErrorView>(v.outputs[k]));
            assert(v.outputs[k] == b.outputs@[k]@);
        }
    }
}

/// A field that is rendered while loading can be.
pub open spec fn loads(
    field: Seq<char>,
    t: StringTemplate,
    decl: BeamDecl,
    lets: ScopeView,
    env: Environment,
) -> bool {
    load_time_text(field, t, lets, names(decl.params@), env) is Ok
}

/// A beam is taken exactly where each of its fields is: what is rendered
/// while loading renders, and its patterns compile; what is rendered later
/// passes its check; and its executor is one.
pub proof fn a_beam_is_taken_where_its_fields_are(
    decl: BeamDecl,
    lets: ScopeView,
    dir: Seq<char>,
    env: Environment,
    source: SourceId,
)
    ensures
        beam_of(decl, lets, dir, env, source) is Ok <==> {
            let c = Context { lets, params: names(decl.params@), env };
            &&& decl.description matches Some(t) ==> loads("description"@, t, decl, lets, env)
            &&& decl.cwd matches Some(t) ==> loads("cwd"@, t, decl, lets, env)
            &&& forall|k: int|
                0 <= k < decl.inputs@.len() ==> loads(
                    "inputs"@,
                    #[trigger] decl.inputs@[k],
                    decl,
                    lets,
                    env,
                ) && glob_refusal(
                    load_time_text(
                        "inputs"@,
                        decl.inputs@[k],
                        lets,
                        names(decl.params@),
                        env,
                    )->Ok_0,
                ) is None
            &&& forall|k: int|
                0 <= k < decl.outputs@.len() ==> loads(
                    "outputs"@,
                    #[trigger] decl.outputs@[k],
                    decl,
                    lets,
                    env,
                ) && glob_refusal(
                    load_time_text(
                        "outputs"@,
                        decl.outputs@[k],
                        lets,
                        names(decl.params@),
                        env,
                    )->Ok_0,
                ) is None
            &&& forall|k: int|
                0 <= k < decl.run@.len() ==> template_verdict(
                    #[trigger] decl.run@[k],
                    lets,
                    names(decl.params@),
                    Timing::Schedule,
                ) is Ok
            &&& forall|k: int|
                0 <= k < decl.env@.len() ==> template_verdict(
                    (#[trigger] decl.env@[k]).1,
                    lets,
                    names(decl.params@),
                    Timing::Schedule,
                ) is Ok
            &&& executor_of(c, decl.executor) is Ok
        },
{
    let c = Context { lets, params: names(decl.params@), env };
    let fi = pattern_at(c, "inputs"@, decl.name.value@, decl.inputs@);
    let fo = pattern_at(c, "outputs"@, decl.name.value@, decl.outputs@);
    let fr = run_verdict_at(c, decl.run@);
    let fe = env_verdict_at(c, decl.env@);
    collect_fails_where_one_does(decl.inputs@.len(), fi);
    collect_fails_where_one_does(decl.outputs@.len(), fo);
    collect_fails_where_one_does(decl.run@.len(), fr);
    collect_fails_where_one_does(decl.env@.len(), fe);
    assert forall|k: int| 0 <= k < decl.inputs@.len() implies (fi(k) is Ok <==> loads(
        "inputs"@,
        #[trigger] decl.inputs@[k],
        decl,
        lets,
        env,
    ) && glob_refusal(
        load_time_text("inputs"@, decl.inputs@[k], lets, names(decl.params@), env)->Ok_0,
    ) is None) by {}
    assert forall|k: int| 0 <= k < decl.outputs@.len() implies (fo(k) is Ok <==> loads(
        "outputs"@,
        #[trigger] decl.outputs@[k],
        decl,
        lets,
        env,
    ) && glob_refusal(
        load_time_text("outputs"@, decl.outputs@[k], lets, names(decl.params@), env)->Ok_0,
    ) is None) by {}
    assert forall|k: int| 0 <= k < decl.run@.len() implies fr(k) == template_verdict(
        #[trigger] decl.run@[k],
        lets,
        names(decl.params@),
        Timing::Schedule,
    ) by {}
    assert forall|k: int| 0 <= k < decl.env@.len() implies fe(k) == template_verdict(
        (#[trigger] decl.env@[k]).1,
        lets,
        names(decl.params@),
        Timing::Schedule,
    ) by {}
    both_ways(decl.inputs@, fi);
    both_ways(decl.outputs@, fo);
    both_ways(decl.run@, fr);
    both_ways(decl.env@, fe);
}

spec fn each_place<T>(n: nat, f: spec_fn(int) -> Result<T, ErrorView>) -> bool {
    forall|k: int| 0 <= k < n ==> (#[trigger] f(k)) is Ok
}

spec fn each_entry<A, T>(all: Seq<A>, f: spec_fn(int) -> Result<T, ErrorView>) -> bool {
    forall|k: int| #![trigger all[k]] 0 <= k < all.len() ==> f(k) is Ok
}

/// A statement of every place is one of every entry.
proof fn both_ways<A, T>(all: Seq<A>, f: spec_fn(int) -> Result<T, ErrorView>)
    ensures
        each_place(all.len(), f) == each_entry(all, f),
{
    if each_entry(all, f) {
        assert forall|k: int| 0 <= k < all.len() implies (#[trigger] f(k)) is Ok by {
            assert(all.contains(all[k]));
        }
    }
    if each_place(all.len(), f) {
        assert forall|k: int| #![trigger all[k]] 0 <= k < all.len() implies f(k) is Ok by {}
    }
}

/// A reference names a beam by its path of aliases and its name, with `:`
/// between each two.
pub proof fn a_reference_spells_its_path(r: &BeamRef, id: BeamId)
    requires
        call_ensures(beam_ref_to_id, (r,), id),
    ensures
        id@ == joined(views(r.namespace@).push(r.name@), ":"@),
{
    let ns = views(r.namespace@);
    let all = ns.push(r.name@);
    assert(ns.len() == r.namespace@.len());
    if ns.len() == 0 {
        assert(all =~= seq![r.name@]);
        joining_goes_part_by_part(ns, ns, r.name@, ":"@);
    } else {
        assert(all =~= ns + seq![r.name@]);
        joining_goes_part_by_part(ns, seq![r.name@], r.name@, ":"@);
    }
}

/// Each `let` is evaluated from those before it, and its name then has the
/// value that it was given; other names keep theirs. Where a `let` has no
/// value nothing has.
pub proof fn a_let_sees_those_before_it(
    bindings: Seq<LetBinding>,
    next: LetBinding,
    git: GitView,
    env: Environment,
)
    ensures
        lets_of(bindings, git, env) is Err ==> lets_of(bindings.push(next), git, env) is Err,
        lets_of(bindings, git, env) matches Ok(before) ==> {
            let value = value_of(next.value, before, env, span_or(next.value, start_of_source()));
            let all = lets_of(bindings.push(next), git, env);
            &&& value is Err ==> all is Err
            &&& all matches Ok(scope) ==> {
                &&& value is Ok
                &&& scope.git == git
                &&& scope.values.contains_key(next.name.value@)
                &&& scope.values[next.name.value@] == value->Ok_0
                &&& forall|name: Seq<char>|
                    name != next.name.value@ ==> {
                        &&& scope.values.contains_key(name) <==> #[trigger] before.values.contains_key(
                            name,
                        )
                        &&& before.values.contains_key(name) ==> scope.values[name]
                            == before.values[name]
                    }
            }
        },
        lets_of(Seq::<LetBinding>::empty(), git, env) matches Ok(none) && none.git == git
            && forall|name: Seq<char>| !#[trigger] none.values.contains_key(name),
{
    assert(bindings.push(next).drop_last() =~= bindings);
    lets_keep_git(bindings, git, env);
}

proof fn lets_keep_git(bindings: Seq<LetBinding>, git: GitView, env: Environment)
    ensures
        lets_of(bindings, git, env) matches Ok(scope) ==> scope.git == git,
    decreases bindings.len(),
{
    if bindings.len() > 0 {
        lets_keep_git(bindings.drop_last(), git, env);
    }
}

/// A file describes a beam for each of its declarations, in order, each with
/// the file's `let`s; and the default and the hooks that it names.
pub proof fn a_file_describes_its_beams(
    file: &File,
    dir: &str,
    git: Option<Result<crate::git::GitHead, crate::git::GitError>>,
    env: &Environment,
    source: SourceId,
    r: Result<Project, CoreError>,
)
    requires
        call_ensures(build_project, (file, dir, git, env, source), r),
    ensures
        ({
            let lets = lets_of(file.lets@, crate::scope::git_view(git), *env);
            &&& r is Ok <==> lets is Ok && forall|k: int|
                0 <= k < file.beams@.len() ==> beam_of(
                    #[trigger] file.beams@[k],
                    lets->Ok_0,
                    dir@,
                    *env,
                    source,
                ) is Ok
            &&& r matches Ok(p) ==> {
                &&& p.beams@.len() == file.beams@.len()
                &&& forall|k: int|
                    0 <= k < file.beams@.len() ==> beam_of(
                        #[trigger] file.beams@[k],
                        lets->Ok_0,
                        dir@,
                        *env,
                        source,
                    ) == Ok::<BeamView, ErrorView>(p.beams@[k]@)
                &&& p.default is Some <==> file.default is Some
                &&& file.default matches Some(d) ==> p.default->Some_0.value@ == d.value@
                &&& p.hooks@.len() == file.hooks@.len()
                &&& forall|k: int, id: BeamId|
                    0 <= k < file.hooks@.len() && #[trigger] call_ensures(
                        beam_ref_to_id,
                        (&file.hooks@[k].beam.value,),
                        id,
                    ) ==> p.hooks@[k].name.value@ == file.hooks@[k].name.value@
                        && p.hooks@[k].beam.value@ == id@
            }
            &&& r matches Err(error) ==> error@.source_id == source
        }),
{
    let f = |p: Project| p@;
    let g = crate::scope::git_view(git);
    let lets = lets_of(file.lets@, g, *env);
    if let Ok(scope) = lets {
        let at = beam_at(file.beams@, scope, dir@, *env, source);
        collect_fails_where_one_does(file.beams@.len(), at);
        collect_gives_each(file.beams@.len(), at);
        assert forall|k: int| 0 <= k < file.beams@.len() implies at(k) == beam_of(
            #[trigger] file.beams@[k],
            scope,
            dir@,
            *env,
            source,
        ) by {}
        both_ways(file.beams@, at);
    }
    if let Ok(p) = r {
        assert(result_view(r, f) == Ok::<ProjectView, ErrorView>(p@));
        let at = beam_at(file.beams@, lets->Ok_0, dir@, *env, source);
        assert(p@.beams.len() == p.beams@.len());
        assert forall|k: int| 0 <= k < file.beams@.len() implies beam_of(
            #[trigger] file.beams@[k],
            lets->Ok_0,
            dir@,
            *env,
            source,
        ) == Ok::<BeamView, ErrorView>(p.beams@[k]@) by {
            assert(at(k) == Ok::<BeamView, ErrorView>(p@.beams[k]));
            assert(p@.beams[k] == p.beams@[k]@);
        }
        assert(p@.hooks.len() == p.hooks@.len());
        assert forall|k: int, id: BeamId|
            0 <= k < file.hooks@.len() && #[trigger] call_ensures(
                beam_ref_to_id,
                (&file.hooks@[k].beam.value,),
                id,
            ) implies p.hooks@[k].name.value@ == file.hooks@[k].name.value@
            && p.hooks@[k].beam.value@ == id@ by {
            assert(p@.hooks[k] == p.hooks@[k]@);
        }
    } else {
        assert(result_view(r, f) is Err);
    }
}

/// What runs a beam: the embedded shell where nothing is declared or it is
/// named, the system's shell where that is named, neither of which takes
/// options; a container under `docker`; and a plugin under any other name,
/// with its options, in order, as they render.
pub proof fn an_executor_is_what_is_named(c: Context, decl: Option<ExecutorDecl>)
    ensures
        ({
            let r = executor_of(c, decl);
            &&& decl is None ==> r == Ok::<ExecutorView, ErrorView>(ExecutorView::Shell)
            &&& decl matches Some(d) ==> {
                let name = d.name.value@;
                &&& name == "shell"@ ==> (r is Ok <==> d.options@.len() == 0) && (r is Ok ==> r->Ok_0
                    == ExecutorView::Shell)
                &&& name == "system_shell"@ ==> (r is Ok <==> d.options@.len() == 0) && (r is Ok
                    ==> r->Ok_0 == ExecutorView::SystemShell)
                &&& name == "docker"@ ==> (r matches Ok(e) ==> e is Docker)
                &&& name != "shell"@ && name != "system_shell"@ && name != "docker"@ ==> {
                    &&& r is Ok <==> forall|k: int|
                        0 <= k < d.options@.len() ==> option_of(
                            c,
                            (#[trigger] d.options@[k]).1,
                        ) is Ok
                    &&& r matches Ok(e) ==> (e matches ExecutorView::Plugin { name: n, options } && n
                        == name && options.len() == d.options@.len() && forall|k: int|
                        0 <= k < d.options@.len() ==> option_of(c, (#[trigger] d.options@[k]).1)
                            == Ok::<OptionView, ErrorView>(options[k].1) && options[k].0
                            == d.options@[k].0.value@)
                }
            }
        }),
{
    reveal_strlit("shell");
    reveal_strlit("system_shell");
    reveal_strlit("docker");
    assert("shell"@.len() != "system_shell"@.len());
    assert("shell"@.len() != "docker"@.len());
    assert("docker"@.len() != "system_shell"@.len());
    if let Some(d) = decl {
        let f = option_at(c, d.options@);
        let n = d.options@.len();
        collect_fails_where_one_does(n, f);
        collect_gives_each(n, f);
        assert forall|k: int| 0 <= k < n implies (f(k) is Ok <==> option_of(
            c,
            (#[trigger] d.options@[k]).1,
        ) is Ok) by {}
        both_ways(d.options@, f);
        if let Ok(options) = collect(n, f) {
            assert forall|k: int| 0 <= k < n implies option_of(c, (#[trigger] d.options@[k]).1)
                == Ok::<OptionView, ErrorView>(options[k].2) && options[k].0
                == d.options@[k].0.value@ by {
                assert(f(k) == Ok::<(Seq<char>, Span, OptionView), ErrorView>(options[k]));
            }
        }
        if n == 0 {
            assert(collect(0, f) is Ok);
        }
    }
}

/// The last option called `key` has this value.
pub open spec fn last_called(
    options: Seq<(Seq<char>, Span, OptionView)>,
    key: Seq<char>,
    value: OptionView,
) -> bool {
    exists|i: int|
        0 <= i < options.len() && (#[trigger] options[i]).0 == key && options[i].2 == value
            && forall|j: int| i < j < options.len() ==> (#[trigger] options[j]).0 != key
}

pub open spec fn none_called(options: Seq<(Seq<char>, Span, OptionView)>, key: Seq<char>) -> bool {
    forall|i: int| 0 <= i < options.len() ==> (#[trigger] options[i]).0 != key
}

/// An option that a container takes: an image, volumes of the form
/// `host:container`, or an absolute working directory.
pub open spec fn is_docker_option(option: (Seq<char>, Span, OptionView)) -> bool {
    ||| option.0 == "image"@ && option.2 is Str
    ||| option.0 == "volumes"@ && (option.2 matches OptionView::List(all) && forall|i: int|
        0 <= i < all.len() ==> is_volume(#[trigger] all[i]))
    ||| option.0 == "workdir"@ && (option.2 matches OptionView::Str(dir) && is_absolute(dir))
}

/// A host, and after the last `:` an absolute path.
pub open spec fn is_volume(entry: Seq<char>) -> bool {
    exists|host: Seq<char>, path: Seq<char>| #[trigger]
        splits(entry, host, path) && host.len() > 0 && is_absolute(path)
}

pub open spec fn splits(entry: Seq<char>, host: Seq<char>, path: Seq<char>) -> bool {
    entry == host + seq![':'] + path && !path.contains(':')
}

proof fn a_volume_splits(entry: Seq<char>)
    ensures
        valid_volume(entry) <==> is_volume(entry),
{
    if valid_volume(entry) {
        let i = choose|i: int|
            {
                &&& 0 < i
                &&& i + 1 < entry.len()
                &&& #[trigger] entry[i] == ':'
                &&& entry[i + 1] == '/'
                &&& forall|j: int| i < j < entry.len() ==> entry[j] != ':'
            };
        let host = entry.take(i);
        let path = entry.skip(i + 1);
        assert(entry =~= host + seq![':'] + path);
        assert forall|j: int| 0 <= j < path.len() implies path[j] != ':' by {
            assert(path[j] == entry[i + 1 + j]);
        }
        assert(splits(entry, host, path));
    }
    if is_volume(entry) {
        let (host, path) = choose|host: Seq<char>, path: Seq<char>| #[trigger]
            splits(entry, host, path) && host.len() > 0 && is_absolute(path);
        let i = host.len() as int;
        assert(entry[i] == ':');
        assert(entry[i + 1] == path[0]);
        assert forall|j: int| i < j < entry.len() implies entry[j] != ':' by {
            assert(entry[j] == path[j - i - 1]);
        }
    }
}

proof fn no_volume_is_invalid(entries: Seq<Seq<char>>)
    ensures
        first_invalid_volume(entries) is None <==> forall|i: int|
            0 <= i < entries.len() ==> is_volume(#[trigger] entries[i]),
    decreases entries.len(),
{
    if entries.len() > 0 {
        let front = entries.drop_last();
        no_volume_is_invalid(front);
        a_volume_splits(entries.last());
        if first_invalid_volume(entries) is None {
            assert forall|i: int| 0 <= i < entries.len() implies is_volume(
                #[trigger] entries[i],
            ) by {
                if i < front.len() {
                    assert(front[i] == entries[i]);
                }
            }
        }
        if forall|i: int| 0 <= i < entries.len() ==> is_volume(#[trigger] entries[i]) {
            assert(is_volume(entries[entries.len() - 1]));
            assert forall|i: int| 0 <= i < front.len() implies is_volume(#[trigger] front[i]) by {
                assert(front[i] == entries[i]);
            }
        }
    }
}

proof fn docker_takes(options: Seq<(Seq<char>, Span, OptionView)>)
    ensures
        docker_options(options) is Ok <==> forall|i: int|
            0 <= i < options.len() ==> is_docker_option(#[trigger] options[i]),
        docker_options(options) matches Ok(d) ==> {
            &&& d.image matches Some(image) ==> last_called(
                options,
                "image"@,
                OptionView::Str(image),
            )
            &&& d.image is None ==> none_called(options, "image"@)
            &&& last_called(options, "volumes"@, OptionView::List(d.volumes)) || (none_called(
                options,
                "volumes"@,
            ) && d.volumes.len() == 0)
            &&& d.workdir matches Some(dir) ==> last_called(
                options,
                "workdir"@,
                OptionView::Str(dir),
            )
            &&& d.workdir is None ==> none_called(options, "workdir"@)
        },
    decreases options.len(),
{
    reveal_strlit("image");
    reveal_strlit("volumes");
    reveal_strlit("workdir");
    assert("image"@.len() == 5 && "volumes"@.len() == 7 && "workdir"@.len() == 7);
    assert("volumes"@[0] == 'v' && "workdir"@[0] == 'w');
    if options.len() > 0 {
        let front = options.drop_last();
        let n = options.len() - 1;
        let last = options[n];
        docker_takes(front);
        if let OptionView::List(all) = last.2 {
            no_volume_is_invalid(all);
        }
        if docker_options(front) is Ok {
            assert(docker_option(docker_options(front)->Ok_0, last) is Ok <==> is_docker_option(
                last,
            ));
        }
        if docker_options(options) is Ok {
            assert forall|i: int| 0 <= i < options.len() implies is_docker_option(
                #[trigger] options[i],
            ) by {
                if i < n {
                    assert(front[i] == options[i]);
                }
            }
        }
        if forall|i: int| 0 <= i < options.len() ==> is_docker_option(#[trigger] options[i]) {
            assert(is_docker_option(options[n]));
            assert forall|i: int| 0 <= i < front.len() implies is_docker_option(
                #[trigger] front[i],
            ) by {
                assert(front[i] == options[i]);
            }
        }
        if let (Ok(before), Ok(d)) = (docker_options(front), docker_options(options)) {
            stays_last(options, "image"@);
            stays_last(options, "volumes"@);
            stays_last(options, "workdir"@);
            assert(last.0 == "image"@ || last.0 == "volumes"@ || last.0 == "workdir"@);
        }
    }
}

/// The last of a name stays the last unless one follows.
proof fn stays_last(options: Seq<(Seq<char>, Span, OptionView)>, key: Seq<char>)
    requires
        options.len() > 0,
    ensures
        options.last().0 == key ==> last_called(options, key, options.last().2),
        options.last().0 != key ==> {
            &&& none_called(options, key) <==> none_called(options.drop_last(), key)
            &&& forall|v: OptionView| #[trigger]
                last_called(options, key, v) <==> last_called(options.drop_last(), key, v)
        },
{
    let front = options.drop_last();
    let n = options.len() - 1;
    if options.last().0 == key {
        assert(options[n].0 == key);
    } else {
        if none_called(front, key) {
            assert forall|i: int| 0 <= i < options.len() implies (#[trigger] options[i]).0 != key by {
                if i < n {
                    assert(front[i] == options[i]);
                }
            }
        }
        if none_called(options, key) {
            assert forall|i: int| 0 <= i < front.len() implies (#[trigger] front[i]).0 != key by {
                assert(front[i] == options[i]);
            }
        }
        assert forall|v: OptionView| #[trigger]
            last_called(options, key, v) <==> last_called(front, key, v) by {
            if last_called(options, key, v) {
                let i = choose|i: int|
                    0 <= i < options.len() && (#[trigger] options[i]).0 == key && options[i].2 == v
                        && forall|j: int| i < j < options.len() ==> (#[trigger] options[j]).0 != key;
                assert(front[i] == options[i]);
                assert forall|j: int| i < j < front.len() implies (#[trigger] front[j]).0 != key by {
                    assert(front[j] == options[j]);
                }
            }
            if last_called(front, key, v) {
                let i = choose|i: int|
                    0 <= i < front.len() && (#[trigger] front[i]).0 == key && front[i].2 == v
                        && forall|j: int| i < j < front.len() ==> (#[trigger] front[j]).0 != key;
                assert(front[i] == options[i]);
                assert forall|j: int| i < j < options.len() implies (#[trigger] options[j]).0
                    != key by {
                    if j < n {
                        assert(front[j] == options[j]);
                    }
                }
            }
        }
    }
}

/// A container has the last image, volumes and working directory that its
/// options name. It is taken exactly where there is an image and every option
/// is one that a container takes.
pub proof fn a_container_has_what_its_options_name(
    span: Span,
    options: Seq<(Seq<char>, Span, OptionView)>,
)
    ensures
        docker_of(span, options) is Ok <==> !none_called(options, "image"@) && forall|i: int|
            0 <= i < options.len() ==> is_docker_option(#[trigger] options[i]),
        docker_of(span, options) matches Ok(e) ==> (e matches ExecutorView::Docker {
            image,
            volumes,
            workdir,
        } && {
            &&& last_called(options, "image"@, OptionView::Str(image))
            &&& last_called(options, "volumes"@, OptionView::List(volumes)) || (none_called(
                options,
                "volumes"@,
            ) && volumes.len() == 0)
            &&& workdir matches Some(dir) ==> last_called(
                options,
                "workdir"@,
                OptionView::Str(dir),
            )
            &&& workdir is None ==> none_called(options, "workdir"@)
        }),
{
    docker_takes(options);
    if docker_options(options) matches Ok(d) && d.image is Some {
        let image = docker_options(options)->Ok_0.image->Some_0;
        let i = choose|i: int|
            0 <= i < options.len() && (#[trigger] options[i]).0 == "image"@ && options[i].2
                == OptionView::Str(image) && forall|j: int|
                i < j < options.len() ==> (#[trigger] options[j]).0 != "image"@;
        assert(options[i].0 == "image"@);
    }
}

/// An imported beam is the beam under its file's alias: the alias and `:`
/// stand before its name and before the name of everything that it needs, and
/// all else is as its file has it.
pub proof fn an_alias_stands_before_names_only(alias: Seq<char>, beams: Seq<BeamView>, i: int)
    requires
        0 <= i < beams.len(),
    ensures
        all_under_alias(alias, beams).len() == beams.len(),
        ({
            let b = all_under_alias(alias, beams)[i];
            &&& b.id == alias + ":"@ + beams[i].id
            &&& b.needs.len() == beams[i].needs.len()
            &&& forall|j: int|
                0 <= j < b.needs.len() ==> (#[trigger] b.needs[j]).0 == alias + ":"@
                    + beams[i].needs[j].0
            &&& b == (BeamView { id: b.id, needs: b.needs, ..beams[i] })
        }),
{
}

/// What a file imports is looked for from the file's own directory.
pub proof fn an_import_is_seen_from_its_file(path: Seq<char>, import: Seq<char>)
    requires
        parent_of(path) matches Some(dir) && dir.len() > 0,
        !is_absolute(import),
    ensures
        components(joined_path(import_base_of(path), import)) == components(path).drop_last()
            + names_of(import),
{
    a_parent_lacks_the_last_component(path);
    joining_adds_components(import_base_of(path), import);
}

} // verus!
