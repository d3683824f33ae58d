//! Errors name what they are about.

use vstd::prelude::*;
use crate::cache::{first_unhashed, Assessment, CacheableBeam};
use crate::commands::{resolve_beamfile, searched};
use crate::error::CoreError;
use crate::eval::{span_or, value_of};
use crate::git::{git, GitError, GitReply};
use crate::graph::{execution_subgraph, need_verdict, place_of};
use crate::loader::{check_duplicate_aliases, duplicate_alias, entry_place, FileEntry, import_cycle, stack_place};
use crate::model::{BeamId, Project, ProjectView, ValueView};
use crate::plan::{builtin_executors, missing_plugin, plan, quoted, wrong_count, EngineError};
use crate::project::{pattern_of, Context};
use crate::globs::glob_refusal;
use crate::scope::{Environment, ScopeView};
use crate::show_laws::{a_joined_part_is_there, has_part};
use crate::store::Manifest;
use crate::syntax::{Expr, File, Import, Span, Spanned, StringTemplate};
use crate::suggest::suggestion;
use crate::text::{decimal, joined, opt_view};

verus! {

proof fn quoted_is_part(a: Seq<char>, name: Seq<char>, b: Seq<char>)
    ensures
        has_part(a + name + b, name),
{
}

/// An unknown beam is named, and only an unknown beam is an error.
pub proof fn an_unknown_beam_is_named(
    project: &Project,
    target: &BeamId,
    r: Result<Vec<BeamId>, CoreError>,
)
    requires
        call_ensures(execution_subgraph, (project, target), r),
    ensures
        r is Err <==> place_of(project@.beams, target@) is None,
        r matches Err(e) ==> has_part(e.message@, target@),
{
    quoted_is_part("unknown beam `"@, target@, "`"@);
}

/// An unknown name is named where it stands, and so are a function that is
/// none and a variable of the environment that is not set.
pub proof fn an_unknown_name_is_named(
    name: Spanned<String>,
    args: Vec<Expr>,
    scope: ScopeView,
    env: Environment,
    fallback: Span,
)
    ensures
        value_of(Expr::Var(name), scope, env, fallback) matches Err(e) ==> has_part(
            e.message,
            name.value@,
        ) && e.span == Some(name.span),
        name.value@ != "env"@ && name.value@ != "glob"@ ==> (value_of(
            Expr::Call { name, args },
            scope,
            env,
            fallback,
        ) matches Err(e) && has_part(e.message, name.value@) && e.span == Some(name.span)),
        name.value@ == "env"@ && args@.len() == 1 ==> (value_of(
            args@[0],
            scope,
            env,
            span_or(args@[0], fallback),
        ) matches Ok(ValueView::Str(key)) ==> (env.value(key) is None ==> (value_of(
            Expr::Call { name, args },
            scope,
            env,
            fallback,
        ) matches Err(e) && has_part(e.message, key) && e.span == Some(name.span)))),
{
    quoted_is_part("unknown variable `"@, name.value@, "`"@);
    quoted_is_part("unknown function `"@, name.value@, "`"@);
    if name.value@ == "env"@ && args@.len() == 1 {
        if let Ok(ValueView::Str(key)) = value_of(args@[0], scope, env, span_or(args@[0], fallback)) {
            quoted_is_part("environment variable `"@, key, "` is not set"@);
        }
    }
}

/// A run that cannot be scheduled fails as one for an unknown target exactly
/// where its target is none, which is named.
pub proof fn only_an_unknown_target_is_unknown(
    project: &Project,
    target: &BeamId,
    params: &Vec<String>,
    plugins: &Vec<String>,
    r: Result<Vec<usize>, EngineError>,
)
    requires
        call_ensures(plan, (project, target, params, plugins), r),
    ensures
        (r matches Err(EngineError::Core(_))) <==> place_of(project@.beams, target@) is None,
        r matches Err(EngineError::Core(e)) ==> has_part(e.message@, target@),
        r matches Err(e) ==> (e is Core || e is Unschedulable),
{
    quoted_is_part("unknown beam `"@, target@, "`"@);
    if let Err(e) = r {
        assert(e@ is Core <==> e is Core);
        assert(e@ is Unschedulable <==> e is Unschedulable);
    }
}

/// A beam that is run without the cache because of an input is told which:
/// the first that cannot be hashed, and why.
pub proof fn the_input_that_is_in_the_way_is_named(
    beam: CacheableBeam,
    files: &Vec<(String, Result<String, String>)>,
    stored: Option<Manifest>,
    outputs: bool,
    r: (Option<Assessment>, Option<String>),
    i: int,
)
    requires
        call_ensures(CacheableBeam::decide, (beam, files, stored, outputs), r),
        0 <= i < files@.len(),
        files@[i].1 is Err,
        forall|k: int| 0 <= k < i ==> (#[trigger] files@[k]).1 is Ok,
    ensures
        r.1 matches Some(notice) && has_part(notice@, files@[i].0@) && has_part(
            notice@,
            files@[i].1->Err_0@,
        ),
{
    first_is(files@, i);
    let name = files@[i].0@;
    let why = files@[i].1->Err_0@;
    let a = "cache: cannot hash input `"@;
    let b = "` ("@;
    let c = "); running without cache"@;
    let text = a + name + b + why + c;
    assert(opt_view(r.1) == Some(text));
    assert(text =~= a + name + (b + why + c));
    assert(text =~= (a + name + b) + why + c);
}

proof fn first_is(files: Seq<(String, Result<String, String>)>, i: int)
    requires
        0 <= i < files.len(),
        files[i].1 is Err,
        forall|k: int| 0 <= k < i ==> (#[trigger] files[k]).1 is Ok,
    ensures
        first_unhashed(files) == Some(i),
    decreases files.len(),
{
    let front = files.drop_last();
    if i < front.len() {
        assert(front[i] == files[i]);
        assert forall|k: int| 0 <= k < i implies (#[trigger] front[k]).1 is Ok by {
            assert(front[k] == files[k]);
        }
        first_is(front, i);
    } else {
        none_before(front);
    }
}

proof fn none_before(files: Seq<(String, Result<String, String>)>)
    requires
        forall|k: int| 0 <= k < files.len() ==> (#[trigger] files[k]).1 is Ok,
    ensures
        first_unhashed(files) is None,
    decreases files.len(),
{
    if files.len() > 0 {
        let front = files.drop_last();
        assert forall|k: int| 0 <= k < front.len() implies (#[trigger] front[k]).1 is Ok by {
            assert(front[k] == files[k]);
        }
        none_before(front);
        assert(files[files.len() - 1].1 is Ok);
    }
}

/// An import cycle is told from the file that it comes back to: every file on
/// the way, in order, and that file again, each as it was written.
pub proof fn a_cycle_is_told_from_where_it_closes(
    stack: Seq<(Seq<char>, Seq<char>)>,
    canonical: Seq<char>,
    path: Seq<char>,
    span: Span,
)
    ensures
        stack_place(stack, canonical) matches Some(start) ==> {
            &&& 0 <= start < stack.len()
            &&& stack[start].0 == canonical
            &&& forall|k: int| 0 <= k < start ==> (#[trigger] stack[k]).0 != canonical
            &&& exists|chain: Seq<Seq<char>>|
                {
                    &&& import_cycle(stack, start, path, span).message == "import cycle: "@
                        + #[trigger] joined(chain, " -> "@)
                    &&& chain.len() == stack.len() - start + 1
                    &&& chain.last() == path
                    &&& forall|k: int|
                        start <= k < stack.len() ==> chain[k - start] == (#[trigger] stack[k]).1
                }
        },
        stack_place(stack, canonical) is None ==> forall|k: int|
            0 <= k < stack.len() ==> (#[trigger] stack[k]).0 != canonical,
{
    stack_place_holds(stack, canonical);
    if let Some(start) = stack_place(stack, canonical) {
        let chain = Seq::new((stack.len() - start) as nat, |j: int| stack[start + j].1).push(path);
        assert(import_cycle(stack, start, path, span).message == "import cycle: "@ + joined(
            chain,
            " -> "@,
        ));
        assert forall|k: int| start <= k < stack.len() implies chain[k - start] == (
        #[trigger] stack[k]).1 by {}
    }
}

proof fn stack_place_holds(stack: Seq<(Seq<char>, Seq<char>)>, canonical: Seq<char>)
    ensures
        match stack_place(stack, canonical) {
            Some(i) => 0 <= i < stack.len() && stack[i].0 == canonical && forall|k: int|
                0 <= k < i ==> (#[trigger] stack[k]).0 != canonical,
            None => forall|k: int| 0 <= k < stack.len() ==> (#[trigger] stack[k]).0 != canonical,
        },
    decreases stack.len(),
{
    if stack.len() > 0 {
        let front = stack.drop_last();
        stack_place_holds(front, canonical);
        match stack_place(stack, canonical) {
            Some(i) => {
                assert forall|k: int| 0 <= k < i implies (#[trigger] stack[k]).0 != canonical by {
                    assert(front[k] == stack[k]);
                }
            },
            None => {
                assert forall|k: int| 0 <= k < stack.len() implies (#[trigger] stack[k]).0
                    != canonical by {
                    if k < front.len() {
                        assert(front[k] == stack[k]);
                    }
                }
            },
        }
    }
}

/// Two imports of a file may not share an alias: that is the one thing that
/// is refused, and the alias is named.
pub proof fn an_alias_is_taken_once(file: &File, r: Result<(), CoreError>)
    requires
        call_ensures(check_duplicate_aliases, (file,), r),
    ensures
        r is Ok <==> forall|i: int, j: int|
            0 <= i < j < file.imports@.len() ==> (#[trigger] file.imports@[i]).alias.value@ != (
            #[trigger] file.imports@[j]).alias.value@,
        r matches Err(e) ==> exists|i: int, j: int|
            0 <= i < j < file.imports@.len() && (#[trigger] file.imports@[i]).alias.value@ == (
            #[trigger] file.imports@[j]).alias.value@ && has_part(
                e.message@,
                file.imports@[j].alias.value@,
            ),
{
    let all = file.imports@;
    shared_alias(all);
    if let Err(e) = r {
        let k = duplicate_alias(all)->Some_0;
        quoted_is_part("duplicate import alias `"@, all[k].alias.value@, "`"@);
        let i = choose|i: int|
            0 <= i < k && (#[trigger] all[i]).alias.value@ == all[k].alias.value@;
        assert(all[i].alias.value@ == all[k].alias.value@);
    }
}

proof fn shared_alias(all: Seq<Import>)
    ensures
        match duplicate_alias(all) {
            Some(k) => 0 <= k < all.len() && exists|i: int|
                0 <= i < k && (#[trigger] all[i]).alias.value@ == all[k].alias.value@,
            None => forall|i: int, j: int|
                0 <= i < j < all.len() ==> (#[trigger] all[i]).alias.value@ != (
                #[trigger] all[j]).alias.value@,
        },
    decreases all.len(),
{
    if all.len() > 0 {
        let front = all.drop_last();
        shared_alias(front);
        match duplicate_alias(all) {
            Some(k) => {
                if k < front.len() && duplicate_alias(front) is Some {
                    let i = choose|i: int|
                        0 <= i < k && (#[trigger] front[i]).alias.value@ == front[k].alias.value@;
                    assert(all[i].alias.value@ == all[k].alias.value@);
                }
            },
            None => {
                assert forall|i: int, j: int| 0 <= i < j < all.len() implies (
                #[trigger] all[i]).alias.value@ != (#[trigger] all[j]).alias.value@ by {
                    if j < front.len() {
                        assert(front[i] == all[i] && front[j] == all[j]);
                    }
                }
            },
        }
    }
}

/// A pattern that does not compile is named, with its field and its beam.
pub proof fn a_bad_pattern_is_named(
    c: Context,
    field: Seq<char>,
    beam: Seq<char>,
    template: StringTemplate,
)
    ensures
        crate::project::rendered(c, field, template) matches Ok(pattern) ==> {
            let r = pattern_of(c, field, beam, template);
            &&& r is Ok <==> glob_refusal(pattern) is None
            &&& r matches Ok(p) ==> p == pattern
            &&& r matches Err(e) ==> has_part(e.message, field) && has_part(e.message, pattern)
                && has_part(e.message, beam) && e.span == Some(template.span)
        },
{
    if let Ok(pattern) = crate::project::rendered(c, field, template) {
        if let Some(kind) = glob_refusal(pattern) {
            let a = "invalid `"@;
            let b = "` pattern `"@;
            let d = "` in beam `"@;
            let f = "`: "@;
            let text = a + field + b + pattern + d + beam + f + kind;
            assert(text =~= a + field + (b + pattern + d + beam + f + kind));
            assert(text =~= (a + field + b) + pattern + (d + beam + f + kind));
            assert(text =~= (a + field + b + pattern + d) + beam + (f + kind));
        }
    }
}

/// A Beamfile that is not there is told by where it was looked for.
pub proof fn a_missing_beamfile_is_named(
    file: &Option<String>,
    cwd: &Result<String, String>,
    r: Result<String, String>,
)
    requires
        call_ensures(resolve_beamfile, (file, false, cwd), r),
    ensures
        r matches Err(message) && has_part(message@, searched(opt_view(*file)).1),
{
    let a = "no Beamfile found in "@;
    let dir = crate::affected::source_path(
        searched(opt_view(*file)).0,
        crate::loader::cwd_view(*cwd),
    );
    let b = " (searched "@;
    let name = searched(opt_view(*file)).1;
    assert(a + dir + b + name + ")"@ =~= (a + dir + b) + name + ")"@);
}

/// An error says what it was made for, in words.
pub proof fn an_error_says_what_it_was_made_for(error: &EngineError, r: String)
    requires
        call_ensures(EngineError::message, (error,), r),
    ensures
        *error matches EngineError::Core(e) ==> r@ == e.message@,
        *error matches EngineError::Unschedulable(text) ==> r@ == text@,
        *error matches EngineError::Executor { beam, source } ==> has_part(r@, beam@) && has_part(
            r@,
            source@,
        ),
        *error matches EngineError::Panicked { beam } ==> has_part(r@, beam@),
        *error matches EngineError::Git(e) ==> r@ == e@,
{
    match *error {
        EngineError::Executor { beam, source } => {
            let a = "beam `"@;
            let b = "`: "@;
            let none = Seq::<char>::empty();
            assert(r@ =~= a + beam@ + (b + source@));
            assert(r@ =~= (a + beam@ + b) + source@ + none);
        },
        EngineError::Panicked { beam } => {
            assert(r@ == "beam `"@ + beam@ + "` panicked while running"@);
        },
        _ => {},
    }
}

/// A file that is asked for is the entry with its path, the last where there
/// are several, and none where there is none.
pub proof fn an_entry_is_found_by_its_path(entries: Seq<FileEntry>, path: Seq<char>)
    ensures
        match entry_place(entries, path) {
            Some(k) => 0 <= k < entries.len() && entries[k].path@ == path && forall|j: int|
                k < j < entries.len() ==> (#[trigger] entries[j]).path@ != path,
            None => forall|j: int| 0 <= j < entries.len() ==> (#[trigger] entries[j]).path@ != path,
        },
    decreases entries.len(),
{
    if entries.len() > 0 {
        let front = entries.drop_last();
        an_entry_is_found_by_its_path(front, path);
        let start = match entry_place(entries, path) {
            Some(k) => k + 1,
            None => 0,
        };
        assert forall|j: int| start <= j < entries.len() implies (#[trigger] entries[j]).path@
            != path by {
            if j < front.len() {
                assert(front[j] == entries[j]);
            }
        }
    }
}

/// A wrong number of arguments is told with the beam, how many it takes and
/// how many it was given, and the names of its parameters.
pub proof fn a_wrong_count_is_told(target: Seq<char>, names: Seq<Seq<char>>, given: nat, k: int)
    requires
        0 <= k < names.len(),
    ensures
        ({
            let text = wrong_count(target, names, given);
            &&& has_part(text, target)
            &&& has_part(text, "expects "@ + decimal(names.len()))
            &&& has_part(text, "got "@ + decimal(given))
            &&& has_part(text, names[k])
        }),
        has_part(wrong_count(target, Seq::empty(), given), target),
        has_part(wrong_count(target, Seq::empty(), given), "got "@ + decimal(given)),
{
    reveal_strlit("` expects ");
    reveal_strlit("expects ");
    reveal_strlit("` ");
    reveal_strlit("), got ");
    reveal_strlit("), ");
    reveal_strlit("got ");
    reveal_strlit("` takes no parameters, got ");
    reveal_strlit("` takes no parameters, ");
    let none = Seq::<char>::empty();
    let a = "beam `"@;
    let tick = "` "@;
    assert("` expects "@ =~= tick + "expects "@);
    assert("), got "@ =~= "), "@ + "got "@);
    assert("` takes no parameters, got "@ =~= "` takes no parameters, "@ + "got "@);
    let n = decimal(names.len());
    let plural = if names.len() == 1 {
        ""@
    } else {
        "s"@
    };
    let quotes = quoted(names);
    let list = joined(quotes, ", "@);
    let text = wrong_count(target, names, given);
    a_joined_part_is_there(quotes, ", "@, k);
    let (before, after) = choose|before: Seq<char>, after: Seq<char>|
        list == #[trigger] (before + quotes[k] + after);
    let s1 = a + target;
    let s2 = s1 + "` expects "@;
    let s3 = s2 + n;
    let s4 = s3 + " parameter"@;
    let s5 = s4 + plural;
    let s6 = s5 + " ("@;
    let s7 = s6 + list;
    let s8 = s7 + "), got "@;
    assert(text == s8 + decimal(given));
    assert(s1 =~= a + target + none);
    two_meet(s1, tick, "expects "@, n);
    assert(quotes[k] == "`"@ + names[k] + "`"@);
    assert(has_part(quotes[k], names[k]));
    a_part_of_a_part(before, quotes[k], after, names[k]);
    a_part_of_a_part(s6, list, none, names[k]);
    assert(s6 + list + none =~= s7);
    two_meet(s7, "), "@, "got "@, decimal(given));
    a_part_stays(s1, "` expects "@, target);
    a_part_stays(s2, n, target);
    let told = "expects "@ + n;
    three_more(s3, " parameter"@, plural, " ("@, target);
    three_more(s3, " parameter"@, plural, " ("@, told);
    three_more(s6, list, "), got "@, decimal(given), target);
    three_more(s6, list, "), got "@, decimal(given), told);
    a_part_stays(s7, "), got "@, names[k]);
    a_part_stays(s8, decimal(given), names[k]);
    let bare = wrong_count(target, Seq::empty(), given);
    assert(bare =~= a + target + ("` takes no parameters, got "@ + decimal(given)));
    assert(bare =~= (a + target + "` takes no parameters, "@) + ("got "@ + decimal(given)) + none);
}

proof fn a_part_of_a_part(before: Seq<char>, text: Seq<char>, after: Seq<char>, part: Seq<char>)
    requires
        has_part(text, part),
    ensures
        has_part(before + text + after, part),
{
    let (x, y) = choose|x: Seq<char>, y: Seq<char>| text == #[trigger] (x + part + y);
    assert(before + text + after =~= (before + x) + part + (y + after));
}

proof fn a_part_stays(text: Seq<char>, more: Seq<char>, part: Seq<char>)
    requires
        has_part(text, part),
    ensures
        has_part(text + more, part),
{
    let none = Seq::<char>::empty();
    a_part_of_a_part(none, text, more, part);
    assert(none + text + more =~= text + more);
}

proof fn three_more(text: Seq<char>, a: Seq<char>, b: Seq<char>, c: Seq<char>, part: Seq<char>)
    requires
        has_part(text, part),
    ensures
        has_part(text + a + b + c, part),
{
    a_part_stays(text, a, part);
    a_part_stays(text + a, b, part);
    a_part_stays(text + a + b, c, part);
}

proof fn two_meet(text: Seq<char>, a: Seq<char>, b: Seq<char>, c: Seq<char>)
    ensures
        has_part(text + (a + b) + c, b + c),
{
    assert(text + (a + b) + c =~= (text + a) + (b + c) + Seq::<char>::empty());
}

/// A plugin that is missing is told with the beam that uses it.
pub proof fn a_missing_plugin_is_told(beam: Seq<char>, name: Seq<char>)
    ensures
        has_part(missing_plugin(beam, name), beam),
        has_part(missing_plugin(beam, name), name),
{
    let more = match suggestion(name, builtin_executors()) {
        Some(s) => "; did you mean `"@ + s + "`?"@,
        None => Seq::<char>::empty(),
    };
    missing(
        "beam `"@,
        beam,
        "` uses executor `"@,
        name,
        "`: `"@,
        "` is neither a built-in executor nor `alba-executor-"@,
        "` on the PATH"@,
        more,
    );
    let text = "beam `"@ + beam + "` uses executor `"@ + name + "`: `"@ + name
        + "` is neither a built-in executor nor `alba-executor-"@ + name + "` on the PATH"@;
    assert(missing_plugin(beam, name) =~= text + more);
}

proof fn missing(
    a: Seq<char>,
    beam: Seq<char>,
    b: Seq<char>,
    name: Seq<char>,
    c: Seq<char>,
    d: Seq<char>,
    e: Seq<char>,
    more: Seq<char>,
)
    ensures
        has_part(a + beam + b + name + c + name + d + name + e + more, beam),
        has_part(a + beam + b + name + c + name + d + name + e + more, name),
{
    let whole = a + beam + b + name + c + name + d + name + e + more;
    assert(whole =~= a + beam + (b + name + c + name + d + name + e + more));
    assert(whole =~= (a + beam + b) + name + (c + name + d + name + e + more));
}

/// A call with a wrong number of arguments is told at the name of what is
/// called: that name, and how many arguments it was given.
pub proof fn a_wrong_number_of_arguments_is_told(
    name: Spanned<String>,
    args: Vec<Expr>,
    scope: ScopeView,
    env: Environment,
    fallback: Span,
)
    requires
        (name.value@ == "env"@ && !(1 <= args@.len() <= 2)) || (name.value@ == "glob"@ && args@.len()
            != 1),
    ensures
        value_of(Expr::Call { name, args }, scope, env, fallback) matches Err(x) && x.span == Some(
            name.span,
        ) && has_part(x.message, name.value@) && has_part(x.message, "found "@ + decimal(args@.len())),
{
    reveal_strlit(" argument(s), found ");
    reveal_strlit(" argument(s), ");
    reveal_strlit("found ");
    reveal_strlit("env");
    reveal_strlit("glob");
    assert("env"@.len() == 3 && "glob"@.len() == 4);
    assert(" argument(s), found "@ =~= " argument(s), "@ + "found "@);
    let found = args@.len();
    let expected = if name.value@ == "glob"@ {
        decimal(1)
    } else {
        decimal(1) + " to "@ + decimal(2)
    };
    let tick = "`"@;
    let s1 = tick + name.value@ + "` expects "@;
    let s2 = s1 + expected;
    let s3 = s2 + " argument(s), found "@;
    a_part_stays(s1, expected, name.value@);
    a_part_stays(s2, " argument(s), found "@, name.value@);
    a_part_stays(s3, decimal(found), name.value@);
    two_meet(s2, " argument(s), "@, "found "@, decimal(found));
    if let Err(x) = value_of(Expr::Call { name, args }, scope, env, fallback) {
        assert(x.message == s3 + decimal(found));
    }
}

/// An unknown beam that another needs is told where the need is written, in
/// the file of the beam that needs it.
pub proof fn an_unknown_need_is_told_where_it_is_written(p: ProjectView, i: int, j: int)
    ensures
        ({
            let need = p.beams[i].needs[j];
            match need_verdict(p, i)(j) {
                Ok(_) => place_of(p.beams, need.0) is Some,
                Err(x) => place_of(p.beams, need.0) is None && x.span == Some(need.1) && x.source_id
                    == p.beams[i].source && has_part(x.message, need.0),
            }
        }),
{
    let need = p.beams[i].needs[j];
    if let Err(x) = need_verdict(p, i)(j) {
        assert(x.message == "unknown beam `"@ + need.0 + "`"@);
    }
}

/// Git that is not there is told as that, and otherwise why it did not start.
pub proof fn git_that_is_not_there_is_told(
    args: &Vec<String>,
    missing: bool,
    error: String,
    reply: &GitReply,
    r: Result<String, GitError>,
)
    requires
        *reply == (GitReply::Unstarted { missing, error }),
        call_ensures(git, (args, reply), r),
    ensures
        r is Err,
        missing ==> r->Err_0@ == "git not found on PATH"@,
        !missing ==> has_part(r->Err_0@, error@),
{
    if !missing {
        assert(r->Err_0@ =~= "cannot run git: "@ + error@ + Seq::<char>::empty());
    }
}

} // verus!
