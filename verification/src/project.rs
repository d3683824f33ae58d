//! From a parsed Beamfile to the project it describes.

use vstd::prelude::*;
use vstd::string::*;
use crate::check::{
    check_expr, load_time_text, render_load_time_template, static_value, template_verdict,
    validate_template, Timing,
};
use crate::error::{error_at, result_view, CoreError, ErrorView};
use crate::eval::{
    did_you_mean, eval_expr, expr_span_or, span_or, start_of_source, value_of, with_suggestion,
};
use crate::git::{GitError, GitHead};
use crate::globs::{compile_glob, error_kind_text, glob_refusal};
use crate::graph::{graph_verdict, validate_graph};
use crate::model::{
    beam_views, copy_templates, env_views, hook_views, need_views, option_views, Beam, BeamId,
    BeamView, ExecutorKind, ExecutorView, Hook, HookView, OptionValue, OptionView, Project,
    ProjectView, SourceId,
};
use crate::scope::{git_view, Environment, GitView, Scope, ScopeView};
use crate::suggest::names_of;
use crate::syntax::{
    BeamDecl, BeamRef, ExecutorDecl, ExecutorOptionValue, File, HookDecl, LetBinding, ParseError,
    Span, Spanned, StringTemplate,
};
use crate::text::{join, joined, opt_view, same_text, text3, text7, views};

verus! {

/// The results of `f` at `0 .. n` where all succeed, else the first error.
pub open spec fn collect<T>(n: nat, f: spec_fn(int) -> Result<T, ErrorView>) -> Result<
    Seq<T>,
    ErrorView,
>
    decreases n,
{
    if n == 0 {
        Ok(Seq::empty())
    } else {
        match collect((n - 1) as nat, f) {
            Err(x) => Err(x),
            Ok(before) => match f(n - 1) {
                Err(x) => Err(x),
                Ok(v) => Ok(before.push(v)),
            },
        }
    }
}

/// An error before place `k` is the error of the whole.
pub proof fn collect_fails_early<T>(n: nat, k: nat, f: spec_fn(int) -> Result<T, ErrorView>)
    requires
        k <= n,
        collect(k, f) is Err,
    ensures
        collect(n, f) == collect(k, f),
    decreases n,
{
    if k < n {
        collect_fails_early((n - 1) as nat, k, f);
    }
}

/// What is collected has one entry for each place, each as `f` gives it.
pub proof fn collect_gives_each<T>(n: nat, f: spec_fn(int) -> Result<T, ErrorView>)
    ensures
        collect(n, f) matches Ok(all) ==> all.len() == n && forall|i: int|
            0 <= i < n ==> f(i) == Ok::<T, ErrorView>(#[trigger] all[i]),
    decreases n,
{
    if n > 0 {
        collect_gives_each((n - 1) as nat, f);
    }
}

/// Everything that rendering a beam's load-time fields depends on.
pub struct Context {
    pub lets: ScopeView,
    pub params: Seq<Seq<char>>,
    pub env: Environment,
}

pub open spec fn rendered(c: Context, field: Seq<char>, template: StringTemplate) -> Result<
    Seq<char>,
    ErrorView,
> {
    load_time_text(field, template, c.lets, c.params, c.env)
}

pub open spec fn rendered_option(
    c: Context,
    field: Seq<char>,
    template: Option<StringTemplate>,
) -> Result<Option<Seq<char>>, ErrorView> {
    match template {
        None => Ok(None),
        Some(t) => match rendered(c, field, t) {
            Ok(s) => Ok(Some(s)),
            Err(x) => Err(x),
        },
    }
}

/// An `inputs` or `outputs` pattern: rendered, and one that compiles.
pub open spec fn pattern_of(
    c: Context,
    field: Seq<char>,
    beam: Seq<char>,
    template: StringTemplate,
) -> Result<Seq<char>, ErrorView> {
    match rendered(c, field, template) {
        Err(x) => Err(x),
        Ok(pattern) => match glob_refusal(pattern) {
            None => Ok(pattern),
            Some(kind) => Err(
                error_at(
                    "invalid `"@ + field + "` pattern `"@ + pattern + "` in beam `"@ + beam
                        + "`: "@ + kind,
                    template.span,
                ),
            ),
        },
    }
}

pub open spec fn pattern_at(
    c: Context,
    field: Seq<char>,
    beam: Seq<char>,
    templates: Seq<StringTemplate>,
) -> spec_fn(int) -> Result<Seq<char>, ErrorView> {
    |i: int| pattern_of(c, field, beam, templates[i])
}

pub open spec fn patterns_of(
    c: Context,
    field: Seq<char>,
    beam: Seq<char>,
    templates: Seq<StringTemplate>,
) -> Result<Seq<Seq<char>>, ErrorView> {
    collect(templates.len(), pattern_at(c, field, beam, templates))
}

pub open spec fn list_entry_at(c: Context, templates: Seq<StringTemplate>) -> spec_fn(
    int,
) -> Result<Seq<char>, ErrorView> {
    |i: int| rendered(c, "executor options"@, templates[i])
}

/// An executor option's value, rendered.
pub open spec fn option_of(c: Context, value: ExecutorOptionValue) -> Result<
    OptionView,
    ErrorView,
> {
    match value {
        ExecutorOptionValue::Str(t) => match rendered(c, "executor options"@, t) {
            Ok(s) => Ok(OptionView::Str(s)),
            Err(x) => Err(x),
        },
        ExecutorOptionValue::Bool(b) => Ok(OptionView::Bool(b)),
        ExecutorOptionValue::List(ts) => match collect(ts@.len(), list_entry_at(c, ts@)) {
            Ok(l) => Ok(OptionView::List(l)),
            Err(x) => Err(x),
        },
    }
}

pub open spec fn option_at(
    c: Context,
    options: Seq<(Spanned<String>, ExecutorOptionValue)>,
) -> spec_fn(int) -> Result<(Seq<char>, Span, OptionView), ErrorView> {
    |i: int|
        match option_of(c, options[i].1) {
            Ok(v) => Ok((options[i].0.value@, options[i].0.span, v)),
            Err(x) => Err(x),
        }
}

/// What a docker executor's options have said so far.
pub struct DockerView {
    pub image: Option<Seq<char>>,
    pub volumes: Seq<Seq<char>>,
    pub workdir: Option<Seq<char>>,
}

/// A volume is `host:container`: the last `:` parts a non-empty host from an
/// absolute container path.
pub open spec fn valid_volume(entry: Seq<char>) -> bool {
    exists|i: int|
        {
            &&& 0 < i
            &&& i + 1 < entry.len()
            &&& #[trigger] entry[i] == ':'
            &&& entry[i + 1] == '/'
            &&& forall|j: int| i < j < entry.len() ==> entry[j] != ':'
        }
}

pub open spec fn first_invalid_volume(entries: Seq<Seq<char>>) -> Option<Seq<char>>
    decreases entries.len(),
{
    if entries.len() == 0 {
        None
    } else {
        match first_invalid_volume(entries.drop_last()) {
            Some(e) => Some(e),
            None => if valid_volume(entries.last()) {
                None
            } else {
                Some(entries.last())
            },
        }
    }
}

pub open spec fn is_rooted(path: Seq<char>) -> bool {
    path.len() > 0 && path[0] == '/'
}

/// The effect of one docker option.
pub open spec fn docker_option(before: DockerView, option: (Seq<char>, Span, OptionView)) -> Result<
    DockerView,
    ErrorView,
> {
    let (key, span, value) = option;
    if key == "image"@ {
        match value {
            OptionView::Str(v) => Ok(DockerView { image: Some(v), ..before }),
            _ => Err(error_at("executor `docker` option `image` must be a string"@, span)),
        }
    } else if key == "volumes"@ {
        match value {
            OptionView::List(entries) => match first_invalid_volume(entries) {
                None => Ok(DockerView { volumes: entries, ..before }),
                Some(e) => Err(
                    error_at("invalid volume `"@ + e + "`: expected `host:container`"@, span),
                ),
            },
            _ => Err(
                error_at("executor `docker` option `volumes` must be a list of strings"@, span),
            ),
        }
    } else if key == "workdir"@ {
        if value is Str && is_rooted(value->Str_0) {
            Ok(DockerView { workdir: Some(value->Str_0), ..before })
        } else {
            Err(
                error_at(
                    "executor `docker` option `workdir` must be an absolute container path"@,
                    span,
                ),
            )
        }
    } else {
        Err(
            did_you_mean(
                error_at("executor `docker` does not take an option `"@ + key + "`"@, span),
                key,
                set!["image"@, "volumes"@, "workdir"@],
            ),
        )
    }
}

/// The effect of a docker executor's options, in order.
pub open spec fn docker_options(options: Seq<(Seq<char>, Span, OptionView)>) -> Result<
    DockerView,
    ErrorView,
>
    decreases options.len(),
{
    if options.len() == 0 {
        Ok(DockerView { image: None, volumes: Seq::empty(), workdir: None })
    } else {
        match docker_options(options.drop_last()) {
            Err(x) => Err(x),
            Ok(before) => docker_option(before, options.last()),
        }
    }
}

proof fn docker_options_fail_early(options: Seq<(Seq<char>, Span, OptionView)>, n: int)
    requires
        0 <= n <= options.len(),
        docker_options(options.take(n)) is Err,
    ensures
        docker_options(options) == docker_options(options.take(n)),
    decreases options.len() - n,
{
    if n == options.len() {
        assert(options.take(n) == options);
    } else {
        assert(options.take(n + 1).drop_last() == options.take(n));
        docker_options_fail_early(options, n + 1);
    }
}

/// A docker executor: it needs an image.
pub open spec fn docker_of(
    name_span: Span,
    options: Seq<(Seq<char>, Span, OptionView)>,
) -> Result<ExecutorView, ErrorView> {
    match docker_options(options) {
        Err(x) => Err(x),
        Ok(d) => match d.image {
            None => Err(error_at("executor `docker` requires an `image` option"@, name_span)),
            Some(image) => Ok(
                ExecutorView::Docker { image, volumes: d.volumes, workdir: d.workdir },
            ),
        },
    }
}

pub open spec fn takes_no_options(name: Seq<char>, count: nat, span: Span) -> Result<
    (),
    ErrorView,
> {
    if count == 0 {
        Ok(())
    } else {
        Err(error_at("executor `"@ + name + "` takes no options"@, span))
    }
}

/// A beam's executor: the embedded shell unless declared otherwise. A name
/// that is not built in names a plugin.
pub open spec fn executor_of(c: Context, decl: Option<ExecutorDecl>) -> Result<
    ExecutorView,
    ErrorView,
> {
    match decl {
        None => Ok(ExecutorView::Shell),
        Some(decl) => {
            let name = decl.name.value@;
            match collect(decl.options@.len(), option_at(c, decl.options@)) {
                Err(x) => Err(x),
                Ok(options) => if name == "shell"@ {
                    match takes_no_options(name, options.len(), decl.name.span) {
                        Ok(_) => Ok(ExecutorView::Shell),
                        Err(x) => Err(x),
                    }
                } else if name == "system_shell"@ {
                    match takes_no_options(name, options.len(), decl.name.span) {
                        Ok(_) => Ok(ExecutorView::SystemShell),
                        Err(x) => Err(x),
                    }
                } else if name == "docker"@ {
                    docker_of(decl.name.span, options)
                } else {
                    Ok(
                        ExecutorView::Plugin {
                            name,
                            options: Seq::new(options.len(), |i: int| (options[i].0, options[i].2)),
                        },
                    )
                },
            }
        },
    }
}

/// The full name that a reference spells.
pub open spec fn ref_name(r: BeamRef) -> Seq<char> {
    if r.namespace@.len() == 0 {
        r.name@
    } else {
        joined(views(r.namespace@), ":"@) + ":"@ + r.name@
    }
}

pub open spec fn refs_named(needs: Seq<Spanned<BeamRef>>) -> Seq<(Seq<char>, Span)> {
    Seq::new(needs.len(), |i: int| (ref_name(needs[i].value), needs[i].span))
}

/// The hooks that a file declares, each with the beam that it names.
pub open spec fn hooks_named(hooks: Seq<HookDecl>) -> Seq<HookView> {
    Seq::new(
        hooks.len(),
        |i: int|
            HookView {
                name: (hooks[i].name.value@, hooks[i].name.span),
                beam: (ref_name(hooks[i].beam.value), hooks[i].beam.span),
            },
    )
}

pub open spec fn names(v: Seq<Spanned<String>>) -> Seq<Seq<char>> {
    Seq::new(v.len(), |i: int| v[i].value@)
}

pub open spec fn env_named(env: Seq<(Spanned<String>, StringTemplate)>) -> Seq<
    (Seq<char>, StringTemplate),
> {
    Seq::new(env.len(), |i: int| (env[i].0.value@, env[i].1))
}

pub open spec fn run_verdict_at(c: Context, templates: Seq<StringTemplate>) -> spec_fn(
    int,
) -> Result<(), ErrorView> {
    |i: int| template_verdict(templates[i], c.lets, c.params, Timing::Schedule)
}

pub open spec fn env_verdict_at(
    c: Context,
    env: Seq<(Spanned<String>, StringTemplate)>,
) -> spec_fn(int) -> Result<(), ErrorView> {
    |i: int| template_verdict(env[i].1, c.lets, c.params, Timing::Schedule)
}

/// The beam that a declaration describes. What is rendered while loading is
/// rendered, what is rendered later is checked, in this order: description,
/// inputs, outputs, commands, environment, working directory, executor.
pub open spec fn beam_of(
    decl: BeamDecl,
    lets: ScopeView,
    dir: Seq<char>,
    env: Environment,
    source: SourceId,
) -> Result<BeamView, ErrorView> {
    let c = Context { lets, params: names(decl.params@), env };
    match rendered_option(c, "description"@, decl.description) {
        Err(x) => Err(x),
        Ok(description) => match patterns_of(c, "inputs"@, decl.name.value@, decl.inputs@) {
            Err(x) => Err(x),
            Ok(inputs) => match patterns_of(c, "outputs"@, decl.name.value@, decl.outputs@) {
                Err(x) => Err(x),
                Ok(outputs) => match collect(decl.run@.len(), run_verdict_at(c, decl.run@)) {
                    Err(x) => Err(x),
                    Ok(_) => match collect(decl.env@.len(), env_verdict_at(c, decl.env@)) {
                        Err(x) => Err(x),
                        Ok(_) => match rendered_option(c, "cwd"@, decl.cwd) {
                            Err(x) => Err(x),
                            Ok(cwd) => match executor_of(c, decl.executor) {
                                Err(x) => Err(x),
                                Ok(executor) => Ok(
                                    BeamView {
                                        id: decl.name.value@,
                                        description,
                                        needs: refs_named(decl.needs@),
                                        params: names(decl.params@),
                                        inputs,
                                        outputs,
                                        run: decl.run@,
                                        env: env_named(decl.env@),
                                        cwd,
                                        executor,
                                        allow_failure: decl.allow_failure,
                                        dir,
                                        span: decl.span,
                                        source,
                                        scope: lets,
                                    },
                                ),
                            },
                        },
                    },
                },
            },
        },
    }
}

/// A file's `let`s, evaluated in order. Each is checked before it is
/// evaluated, and sees those before it.
pub open spec fn lets_of(bindings: Seq<LetBinding>, git: GitView, env: Environment) -> Result<
    ScopeView,
    ErrorView,
>
    decreases bindings.len(),
{
    if bindings.len() == 0 {
        Ok(ScopeView { values: Map::empty(), git })
    } else {
        match lets_of(bindings.drop_last(), git, env) {
            Err(x) => Err(x),
            Ok(before) => {
                let b = bindings.last();
                match static_value(
                    b.value,
                    before,
                    Seq::empty(),
                    Timing::Load,
                    span_or(b.value, b.name.span),
                ) {
                    Err(x) => Err(x),
                    Ok(_) => match value_of(
                        b.value,
                        before,
                        env,
                        span_or(b.value, start_of_source()),
                    ) {
                        Err(x) => Err(x),
                        Ok(v) => Ok(
                            ScopeView {
                                values: before.values.insert(b.name.value@, v),
                                git: before.git,
                            },
                        ),
                    },
                }
            },
        }
    }
}

proof fn lets_fail_early(bindings: Seq<LetBinding>, n: int, git: GitView, env: Environment)
    requires
        0 <= n <= bindings.len(),
        lets_of(bindings.take(n), git, env) is Err,
    ensures
        lets_of(bindings, git, env) == lets_of(bindings.take(n), git, env),
    decreases bindings.len() - n,
{
    if n == bindings.len() {
        assert(bindings.take(n) == bindings);
    } else {
        assert(bindings.take(n + 1).drop_last() == bindings.take(n));
        lets_fail_early(bindings, n + 1, git, env);
    }
}

pub open spec fn beam_at(
    decls: Seq<BeamDecl>,
    lets: ScopeView,
    dir: Seq<char>,
    env: Environment,
    source: SourceId,
) -> spec_fn(int) -> Result<BeamView, ErrorView> {
    |i: int| beam_of(decls[i], lets, dir, env, source)
}

pub open spec fn named_default(default: Option<Spanned<String>>) -> Option<(Seq<char>, Span)> {
    match default {
        Some(d) => Some((d.value@, d.span)),
        None => None,
    }
}

/// The project that a file describes by itself, its imports left aside.
/// Errors point at the file `source`.
pub open spec fn project_of(
    file: File,
    dir: Seq<char>,
    git: GitView,
    env: Environment,
    source: SourceId,
) -> Result<ProjectView, ErrorView> {
    match lets_of(file.lets@, git, env) {
        Err(x) => Err(x.with_source_id(source)),
        Ok(lets) => match collect(file.beams@.len(), beam_at(file.beams@, lets, dir, env, source)) {
            Err(x) => Err(x.with_source_id(source)),
            Ok(beams) => Ok(
                ProjectView {
                    beams,
                    default: named_default(file.default),
                    hooks: hooks_named(file.hooks@),
                },
            ),
        },
    }
}

/// A parser's complaint as an error.
pub open spec fn parse_failure(e: ParseError) -> ErrorView {
    match e.help {
        None => error_at(e.message@, e.span),
        Some(help) => error_at(e.message@, e.span).with_help(help@),
    }
}

/// What loading one file on its own gives: imports are refused, and the
/// graph of beams has to be valid.
pub open spec fn loaded_alone(
    parsed: Result<File, ParseError>,
    git: GitView,
    env: Environment,
) -> Result<ProjectView, ErrorView> {
    match parsed {
        Err(e) => Err(parse_failure(e)),
        Ok(file) => if file.imports@.len() > 0 {
            Err(
                error_at(
                    "imports are not supported by `load_str`; use `load_project` instead"@,
                    file.imports@[0].path.span,
                ),
            )
        } else {
            match project_of(file, "."@, git, env, SourceId(0)) {
                Err(x) => Err(x),
                Ok(project) => match graph_verdict(project) {
                    Err(x) => Err(x),
                    Ok(_) => Ok(project),
                },
            }
        },
    }
}

spec fn context(lets: &Scope, params: &Vec<String>, env: &Environment) -> Context {
    Context { lets: lets@, params: views(params@), env: *env }
}

fn render_optional(
    field: &str,
    template: &Option<StringTemplate>,
    lets: &Scope,
    params: &Vec<String>,
    env: &Environment,
) -> (r: Result<Option<String>, CoreError>)
    ensures
        result_view(r, |o: Option<String>| opt_view(o)) == rendered_option(
            context(lets, params, env),
            field@,
            *template,
        ),
{
    match template {
        None => Ok(None),
        Some(t) => match render_load_time_template(field, t, lets, params, env) {
            Ok(s) => Ok(Some(s)),
            Err(error) => Err(error),
        },
    }
}

/// Renders a beam's `inputs` or `outputs` and checks that each result is a
/// pattern that compiles.
pub fn build_patterns(
    field: &str,
    beam: &str,
    templates: &Vec<StringTemplate>,
    lets: &Scope,
    params: &Vec<String>,
    env: &Environment,
) -> (r: Result<Vec<String>, CoreError>)
    ensures
        result_view(r, |v: Vec<String>| views(v@)) == patterns_of(
            (Context { lets: lets@, params: views(params@), env: *env }),
            field@,
            beam@,
            templates@,
        ),
{
    let ghost f = pattern_at(context(lets, params, env), field@, beam@, templates@);
    let mut patterns: Vec<String> = Vec::new();
    let mut i: usize = 0;
    assert(views(patterns@) =~= Seq::<Seq<char>>::empty());
    while i < templates.len()
        invariant
            i <= templates@.len(),
            f == pattern_at(context(lets, params, env), field@, beam@, templates@),
            collect(i as nat, f) == Ok::<Seq<Seq<char>>, ErrorView>(views(patterns@)),
        decreases templates.len() - i,
    {
        let pattern = match render_load_time_template(field, &templates[i], lets, params, env) {
            Ok(pattern) => pattern,
            Err(error) => {
                proof {
                    collect_fails_early(templates@.len(), (i + 1) as nat, f);
                }
                return Err(error);
            },
        };
        match compile_glob(pattern.as_str()) {
            Ok(_) => {},
            Err(error) => {
                let mut message = text7(
                    "invalid `",
                    field,
                    "` pattern `",
                    pattern.as_str(),
                    "` in beam `",
                    beam,
                    "`: ",
                );
                message.append(error_kind_text(&error).as_str());
                proof {
                    collect_fails_early(templates@.len(), (i + 1) as nat, f);
                }
                return Err(CoreError::new(message, templates[i].span));
            },
        }
        let ghost before = views(patterns@);
        patterns.push(pattern);
        assert(views(patterns@) =~= before.push(pattern@));
        i += 1;
    }
    Ok(patterns)
}

fn render_list(
    templates: &Vec<StringTemplate>,
    lets: &Scope,
    params: &Vec<String>,
    env: &Environment,
) -> (r: Result<Vec<String>, CoreError>)
    ensures
        result_view(r, |v: Vec<String>| views(v@)) == collect(
            templates@.len(),
            list_entry_at(context(lets, params, env), templates@),
        ),
{
    let ghost f = list_entry_at(context(lets, params, env), templates@);
    let mut out: Vec<String> = Vec::new();
    let mut i: usize = 0;
    assert(views(out@) =~= Seq::<Seq<char>>::empty());
    while i < templates.len()
        invariant
            i <= templates@.len(),
            f == list_entry_at(context(lets, params, env), templates@),
            collect(i as nat, f) == Ok::<Seq<Seq<char>>, ErrorView>(views(out@)),
        decreases templates.len() - i,
    {
        match render_load_time_template("executor options", &templates[i], lets, params, env) {
            Ok(s) => {
                let ghost before = views(out@);
                out.push(s);
                assert(views(out@) =~= before.push(s@));
            },
            Err(error) => {
                proof {
                    collect_fails_early(templates@.len(), (i + 1) as nat, f);
                }
                return Err(error);
            },
        }
        i += 1;
    }
    Ok(out)
}

/// Rendered options with their places.
pub open spec fn placed_views(o: Seq<(String, Span, OptionValue)>) -> Seq<
    (Seq<char>, Span, OptionView),
> {
    Seq::new(o.len(), |i: int| (o[i].0@, o[i].1, o[i].2@))
}

fn render_options(
    decl: &ExecutorDecl,
    lets: &Scope,
    params: &Vec<String>,
    env: &Environment,
) -> (r: Result<Vec<(String, Span, OptionValue)>, CoreError>)
    ensures
        result_view(r, |v: Vec<(String, Span, OptionValue)>| placed_views(v@)) == collect(
            decl.options@.len(),
            option_at(context(lets, params, env), decl.options@),
        ),
{
    let ghost f = option_at(context(lets, params, env), decl.options@);
    let mut out: Vec<(String, Span, OptionValue)> = Vec::new();
    let mut i: usize = 0;
    assert(placed_views(out@) =~= Seq::<(Seq<char>, Span, OptionView)>::empty());
    while i < decl.options.len()
        invariant
            i <= decl.options@.len(),
            f == option_at(context(lets, params, env), decl.options@),
            collect(i as nat, f) == Ok::<Seq<(Seq<char>, Span, OptionView)>, ErrorView>(
                placed_views(out@),
            ),
        decreases decl.options.len() - i,
    {
        let (key, value) = &decl.options[i];
        let outcome = match value {
            ExecutorOptionValue::Str(template) => match render_load_time_template(
                "executor options",
                template,
                lets,
                params,
                env,
            ) {
                Ok(s) => Ok(OptionValue::Str(s)),
                Err(error) => Err(error),
            },
            ExecutorOptionValue::Bool(flag) => Ok(OptionValue::Bool(*flag)),
            ExecutorOptionValue::List(templates) => match render_list(
                templates,
                lets,
                params,
                env,
            ) {
                Ok(list) => Ok(OptionValue::List(list)),
                Err(error) => Err(error),
            },
        };
        match outcome {
            Ok(v) => {
                let ghost before = placed_views(out@);
                let entry = (key.value.clone(), key.span, v);
                out.push(entry);
                assert(placed_views(out@) =~= before.push((key.value@, key.span, v@)));
            },
            Err(error) => {
                proof {
                    collect_fails_early(decl.options@.len(), (i + 1) as nat, f);
                }
                return Err(error);
            },
        }
        i += 1;
    }
    Ok(out)
}

/// Refuses any option on an executor that takes none.
fn no_options(name: &str, options: &Vec<(String, Span, OptionValue)>, decl: &ExecutorDecl) -> (r:
    Result<(), CoreError>)
    ensures
        result_view(r, |u: ()| u) == takes_no_options(name@, options@.len(), decl.name.span),
{
    if options.len() == 0 {
        Ok(())
    } else {
        Err(CoreError::new(text3("executor `", name, "` takes no options"), decl.name.span))
    }
}

/// Whether `entry` is `host:container`.
pub fn is_valid_volume(entry: &str) -> (r: bool)
    ensures
        r == valid_volume(entry@),
{
    let chars = crate::text::chars_of(entry);
    let mut i: usize = chars.len();
    while i > 0
        invariant
            i <= chars@.len(),
            chars@ == entry@,
            forall|j: int| i <= j < chars@.len() ==> chars@[j] != ':',
        decreases i,
    {
        i -= 1;
        if chars[i] == ':' {
            let valid = i > 0 && i + 1 < chars.len() && chars[i + 1] == '/';
            proof {
                if valid {
                    assert(entry@[i as int] == ':');
                }
                if valid_volume(entry@) {
                    let k = choose|k: int|
                        {
                            &&& 0 < k
                            &&& k + 1 < entry@.len()
                            &&& #[trigger] entry@[k] == ':'
                            &&& entry@[k + 1] == '/'
                            &&& forall|j: int| k < j < entry@.len() ==> entry@[j] != ':'
                        };
                    assert(k == i as int);
                }
            }
            return valid;
        }
    }
    false
}

proof fn first_invalid_volume_early(entries: Seq<Seq<char>>, n: int)
    requires
        0 <= n <= entries.len(),
        first_invalid_volume(entries.take(n)) is Some,
    ensures
        first_invalid_volume(entries) == first_invalid_volume(entries.take(n)),
    decreases entries.len() - n,
{
    if n == entries.len() {
        assert(entries.take(n) == entries);
    } else {
        assert(entries.take(n + 1).drop_last() == entries.take(n));
        first_invalid_volume_early(entries, n + 1);
    }
}

fn find_invalid_volume(entries: &Vec<String>) -> (r: Option<usize>)
    ensures
        match r {
            Some(i) => i < entries@.len() && first_invalid_volume(views(entries@)) == Some(
                entries@[i as int]@,
            ),
            None => first_invalid_volume(views(entries@)) is None,
        },
{
    let ghost all = views(entries@);
    let mut i: usize = 0;
    while i < entries.len()
        invariant
            i <= entries@.len(),
            all == views(entries@),
            first_invalid_volume(all.take(i as int)) is None,
        decreases entries.len() - i,
    {
        assert(all.take(i + 1).drop_last() == all.take(i as int));
        if !is_valid_volume(entries[i].as_str()) {
            proof {
                first_invalid_volume_early(all, i + 1);
            }
            return Some(i);
        }
        i += 1;
    }
    assert(all.take(all.len() as int) == all);
    None
}

fn starts_with_slash(s: &str) -> (r: bool)
    ensures
        r == is_rooted(s@),
{
    s.unicode_len() > 0 && s.get_char(0) == '/'
}

fn unknown_docker_option(key: &str, span: Span) -> (r: CoreError)
    ensures
        r@ == did_you_mean(
            error_at("executor `docker` does not take an option `"@ + key@ + "`"@, span),
            key@,
            set!["image"@, "volumes"@, "workdir"@],
        ),
{
    let error = CoreError::new(
        text3("executor `docker` does not take an option `", key, "`"),
        span,
    );
    let known: [&str; 3] = ["image", "volumes", "workdir"];
    proof {
        assert(known@[0]@ == "image"@ && known@[1]@ == "volumes"@ && known@[2]@ == "workdir"@);
        assert(names_of(known@) =~= set!["image"@, "volumes"@, "workdir"@]);
    }
    with_suggestion(error, key, &known)
}

/// A docker executor from its rendered options: `image` (required),
/// `volumes` (a list of `host:container` entries) and `workdir` (an absolute
/// container path).
pub fn build_docker(decl: &ExecutorDecl, options: Vec<(String, Span, OptionValue)>) -> (r: Result<
    ExecutorKind,
    CoreError,
>)
    ensures
        result_view(r, |e: ExecutorKind| e@) == docker_of(decl.name.span, placed_views(options@)),
{
    let ghost all = placed_views(options@);
    let mut image: Option<String> = None;
    let mut volumes: Vec<String> = Vec::new();
    let mut workdir: Option<String> = None;
    let mut i: usize = 0;
    assert(views(volumes@) =~= Seq::<Seq<char>>::empty());
    while i < options.len()
        invariant
            i <= options@.len(),
            all == placed_views(options@),
            docker_options(all.take(i as int)) == Ok::<DockerView, ErrorView>(
                DockerView {
                    image: opt_view(image),
                    volumes: views(volumes@),
                    workdir: opt_view(workdir),
                },
            ),
        decreases options.len() - i,
    {
        let (key, span, value) = &options[i];
        let span = *span;
        proof {
            assert(all.take(i + 1).drop_last() == all.take(i as int));
            assert(all.take(i + 1).last() == (key@, span, value@));
        }
        let mut failure: Option<CoreError> = None;
        if same_text(key.as_str(), "image") {
            match value {
                OptionValue::Str(v) => {
                    image = Some(v.clone());
                },
                _ => {
                    failure = Some(
                        CoreError::new(
                            "executor `docker` option `image` must be a string".to_owned(),
                            span,
                        ),
                    );
                },
            }
        } else if same_text(key.as_str(), "volumes") {
            match value {
                OptionValue::List(entries) => match find_invalid_volume(entries) {
                    Some(bad) => {
                        failure = Some(
                            CoreError::new(
                                text3(
                                    "invalid volume `",
                                    entries[bad].as_str(),
                                    "`: expected `host:container`",
                                ),
                                span,
                            ),
                        );
                    },
                    None => {
                        volumes = crate::model::copy_strings(entries);
                    },
                },
                _ => {
                    failure = Some(
                        CoreError::new(
                            "executor `docker` option `volumes` must be a list of strings".to_owned(),
                            span,
                        ),
                    );
                },
            }
        } else if same_text(key.as_str(), "workdir") {
            let rooted = match value {
                OptionValue::Str(v) => starts_with_slash(v.as_str()),
                _ => false,
            };
            match value {
                OptionValue::Str(v) if rooted => {
                    workdir = Some(v.clone());
                },
                _ => {
                    failure = Some(
                        CoreError::new(
                            "executor `docker` option `workdir` must be an absolute container path".to_owned(),
                            span,
                        ),
                    );
                },
            }
        } else {
            failure = Some(unknown_docker_option(key.as_str(), span));
        }
        if let Some(error) = failure {
            proof {
                docker_options_fail_early(all, i + 1);
            }
            return Err(error);
        }
        i += 1;
    }
    assert(all.take(all.len() as int) == all);
    match image {
        Some(image) => Ok(ExecutorKind::Docker { image, volumes, workdir }),
        None => Err(
            CoreError::new(
                "executor `docker` requires an `image` option".to_owned(),
                decl.name.span,
            ),
        ),
    }
}

fn plugin_options(options: &Vec<(String, Span, OptionValue)>) -> (r: Vec<(String, OptionValue)>)
    ensures
        option_views(r@) == Seq::new(
            placed_views(options@).len(),
            |i: int| (placed_views(options@)[i].0, placed_views(options@)[i].2),
        ),
{
    let mut out: Vec<(String, OptionValue)> = Vec::new();
    let mut i: usize = 0;
    while i < options.len()
        invariant
            i <= options@.len(),
            out@.len() == i,
            forall|k: int|
                0 <= k < i ==> (#[trigger] out@[k]).0@ == options@[k].0@ && out@[k].1@
                    == options@[k].2@,
        decreases options.len() - i,
    {
        let (key, _, value) = &options[i];
        out.push((key.clone(), value.clone()));
        i += 1;
    }
    assert(option_views(out@) =~= Seq::new(
        placed_views(options@).len(),
        |i: int| (placed_views(options@)[i].0, placed_views(options@)[i].2),
    ));
    out
}

/// A beam's executor. Every option is rendered, whatever the kind.
pub fn build_executor(
    decl: &Option<ExecutorDecl>,
    lets: &Scope,
    params: &Vec<String>,
    env: &Environment,
) -> (r: Result<ExecutorKind, CoreError>)
    ensures
        result_view(r, |e: ExecutorKind| e@) == executor_of(
            (Context { lets: lets@, params: views(params@), env: *env }),
            *decl,
        ),
{
    let decl = match decl {
        None => {
            return Ok(ExecutorKind::Shell);
        },
        Some(decl) => decl,
    };
    let options = match render_options(decl, lets, params, env) {
        Ok(options) => options,
        Err(error) => {
            return Err(error);
        },
    };
    let name = decl.name.value.as_str();
    if same_text(name, "shell") {
        match no_options(name, &options, decl) {
            Ok(()) => Ok(ExecutorKind::Shell),
            Err(error) => Err(error),
        }
    } else if same_text(name, "system_shell") {
        match no_options(name, &options, decl) {
            Ok(()) => Ok(ExecutorKind::SystemShell),
            Err(error) => Err(error),
        }
    } else if same_text(name, "docker") {
        build_docker(decl, options)
    } else {
        Ok(ExecutorKind::Plugin { name: decl.name.value.clone(), options: plugin_options(&options) })
    }
}

/// The id that a reference spells.
pub fn beam_ref_to_id(r: &BeamRef) -> (id: BeamId)
    ensures
        id@ == ref_name(*r),
{
    if r.namespace.len() == 0 {
        BeamId(r.name.clone())
    } else {
        BeamId(text3(join(&r.namespace, ":").as_str(), ":", r.name.as_str()))
    }
}

fn build_needs(needs: &Vec<Spanned<BeamRef>>) -> (r: Vec<Spanned<BeamId>>)
    ensures
        need_views(r@) == refs_named(needs@),
{
    let mut out: Vec<Spanned<BeamId>> = Vec::new();
    let mut i: usize = 0;
    while i < needs.len()
        invariant
            i <= needs@.len(),
            out@.len() == i,
            forall|k: int|
                0 <= k < i ==> (#[trigger] out@[k]).value@ == ref_name(needs@[k].value)
                    && out@[k].span == needs@[k].span,
        decreases needs.len() - i,
    {
        out.push(Spanned::new(beam_ref_to_id(&needs[i].value), needs[i].span));
        i += 1;
    }
    assert(need_views(out@) =~= refs_named(needs@));
    out
}

fn build_hooks(hooks: &Vec<HookDecl>) -> (r: Vec<Hook>)
    ensures
        hook_views(r@) == hooks_named(hooks@),
{
    let mut out: Vec<Hook> = Vec::new();
    let mut i: usize = 0;
    while i < hooks.len()
        invariant
            i <= hooks@.len(),
            out@.len() == i,
            forall|k: int| 0 <= k < i ==> (#[trigger] out@[k])@ == hooks_named(hooks@)[k],
        decreases hooks.len() - i,
    {
        let HookDecl { name, beam } = &hooks[i];
        out.push(
            Hook {
                name: Spanned::new(name.value.clone(), name.span),
                beam: Spanned::new(beam_ref_to_id(&beam.value), beam.span),
            },
        );
        i += 1;
    }
    assert(hook_views(out@) =~= hooks_named(hooks@));
    out
}

fn build_params(params: &Vec<Spanned<String>>) -> (r: Vec<String>)
    ensures
        views(r@) == names(params@),
{
    let mut out: Vec<String> = Vec::new();
    let mut i: usize = 0;
    while i < params.len()
        invariant
            i <= params@.len(),
            out@.len() == i,
            forall|k: int| 0 <= k < i ==> (#[trigger] out@[k])@ == params@[k].value@,
        decreases params.len() - i,
    {
        out.push(params[i].value.clone());
        i += 1;
    }
    assert(views(out@) =~= names(params@));
    out
}

fn build_env(env: &Vec<(Spanned<String>, StringTemplate)>) -> (r: Vec<(String, StringTemplate)>)
    ensures
        env_views(r@) == env_named(env@),
{
    let mut out: Vec<(String, StringTemplate)> = Vec::new();
    let mut i: usize = 0;
    while i < env.len()
        invariant
            i <= env@.len(),
            out@.len() == i,
            forall|k: int|
                0 <= k < i ==> (#[trigger] out@[k]).0@ == env@[k].0.value@ && out@[k].1 == env@[k].1,
        decreases env.len() - i,
    {
        let (key, value) = &env[i];
        out.push((key.value.clone(), value.clone()));
        i += 1;
    }
    assert(env_views(out@) =~= env_named(env@));
    out
}

fn validate_run(
    templates: &Vec<StringTemplate>,
    lets: &Scope,
    params: &Vec<String>,
    Ghost(c): Ghost<Context>,
) -> (r: Result<(), CoreError>)
    requires
        c.lets == lets@,
        c.params == views(params@),
    ensures
        match r {
            Ok(()) => collect(templates@.len(), run_verdict_at(c, templates@)) is Ok,
            Err(error) => collect(templates@.len(), run_verdict_at(c, templates@)) == Err::<
                Seq<()>,
                ErrorView,
            >(error@),
        },
{
    let ghost f = run_verdict_at(c, templates@);
    let mut i: usize = 0;
    while i < templates.len()
        invariant
            i <= templates@.len(),
            c.lets == lets@,
            c.params == views(params@),
            f == run_verdict_at(c, templates@),
            collect(i as nat, f) is Ok,
        decreases templates.len() - i,
    {
        match validate_template(&templates[i], lets, params, Timing::Schedule) {
            Ok(()) => {},
            Err(error) => {
                proof {
                    collect_fails_early(templates@.len(), (i + 1) as nat, f);
                }
                return Err(error);
            },
        }
        i += 1;
    }
    Ok(())
}

fn validate_env(
    env: &Vec<(Spanned<String>, StringTemplate)>,
    lets: &Scope,
    params: &Vec<String>,
    Ghost(c): Ghost<Context>,
) -> (r: Result<(), CoreError>)
    requires
        c.lets == lets@,
        c.params == views(params@),
    ensures
        match r {
            Ok(()) => collect(env@.len(), env_verdict_at(c, env@)) is Ok,
            Err(error) => collect(env@.len(), env_verdict_at(c, env@)) == Err::<
                Seq<()>,
                ErrorView,
            >(error@),
        },
{
    let ghost f = env_verdict_at(c, env@);
    let mut i: usize = 0;
    while i < env.len()
        invariant
            i <= env@.len(),
            c.lets == lets@,
            c.params == views(params@),
            f == env_verdict_at(c, env@),
            collect(i as nat, f) is Ok,
        decreases env.len() - i,
    {
        match validate_template(&env[i].1, lets, params, Timing::Schedule) {
            Ok(()) => {},
            Err(error) => {
                proof {
                    collect_fails_early(env@.len(), (i + 1) as nat, f);
                }
                return Err(error);
            },
        }
        i += 1;
    }
    Ok(())
}

/// The beam that `decl` describes, in the file `source` in the directory
/// `dir` whose `let`s are `lets`.
pub fn build_beam(decl: &BeamDecl, lets: &Scope, dir: &str, env: &Environment, source: SourceId) -> (r:
    Result<Beam, CoreError>)
    ensures
        result_view(r, |b: Beam| b@) == beam_of(*decl, lets@, dir@, *env, source),
{
    let params = build_params(&decl.params);
    let ghost c = Context { lets: lets@, params: names(decl.params@), env: *env };
    assert(c == context(lets, &params, env));
    let description = match render_optional(
        "description",
        &decl.description,
        lets,
        &params,
        env,
    ) {
        Ok(d) => d,
        Err(error) => {
            return Err(error);
        },
    };
    let beam_name = decl.name.value.as_str();
    let inputs = match build_patterns("inputs", beam_name, &decl.inputs, lets, &params, env) {
        Ok(v) => v,
        Err(error) => {
            return Err(error);
        },
    };
    let outputs = match build_patterns("outputs", beam_name, &decl.outputs, lets, &params, env) {
        Ok(v) => v,
        Err(error) => {
            return Err(error);
        },
    };
    match validate_run(&decl.run, lets, &params, Ghost(c)) {
        Ok(()) => {},
        Err(error) => {
            return Err(error);
        },
    }
    match validate_env(&decl.env, lets, &params, Ghost(c)) {
        Ok(()) => {},
        Err(error) => {
            return Err(error);
        },
    }
    let cwd = match render_optional("cwd", &decl.cwd, lets, &params, env) {
        Ok(d) => d,
        Err(error) => {
            return Err(error);
        },
    };
    let executor = match build_executor(&decl.executor, lets, &params, env) {
        Ok(e) => e,
        Err(error) => {
            return Err(error);
        },
    };
    Ok(
        Beam {
            id: BeamId(decl.name.value.clone()),
            description,
            needs: build_needs(&decl.needs),
            params,
            inputs,
            outputs,
            run: copy_templates(&decl.run),
            env: build_env(&decl.env),
            cwd,
            executor,
            allow_failure: decl.allow_failure,
            dir: dir.to_owned(),
            span: decl.span,
            source,
            scope: lets.clone(),
        },
    )
}

fn build_lets(bindings: &Vec<LetBinding>, git: Option<Result<GitHead, GitError>>, env: &Environment) -> (r:
    Result<Scope, CoreError>)
    ensures
        result_view(r, |s: Scope| s@) == lets_of(bindings@, git_view(git), *env),
{
    let ghost g = git_view(git);
    let mut lets = Scope::with_head(git);
    let none: Vec<String> = Vec::new();
    assert(views(none@) =~= Seq::<Seq<char>>::empty());
    let mut i: usize = 0;
    while i < bindings.len()
        invariant
            i <= bindings@.len(),
            views(none@) == Seq::<Seq<char>>::empty(),
            g == git_view(git),
            lets_of(bindings@.take(i as int), g, *env) == Ok::<ScopeView, ErrorView>(lets@),
        decreases bindings.len() - i,
    {
        let binding = &bindings[i];
        proof {
            assert(bindings@.take(i + 1).drop_last() == bindings@.take(i as int));
            assert(bindings@.take(i + 1).last() == *binding);
        }
        let fallback = expr_span_or(&binding.value, binding.name.span);
        match check_expr(&binding.value, &lets, &none, Timing::Load, fallback) {
            Ok(_) => {},
            Err(error) => {
                proof {
                    lets_fail_early(bindings@, i + 1, g, *env);
                }
                return Err(error);
            },
        }
        match eval_expr(&binding.value, &lets, env) {
            Ok(value) => {
                lets = lets.insert(binding.name.value.clone(), value);
            },
            Err(error) => {
                proof {
                    lets_fail_early(bindings@, i + 1, g, *env);
                }
                return Err(error);
            },
        }
        i += 1;
    }
    assert(bindings@.take(bindings@.len() as int) == bindings@);
    Ok(lets)
}

/// The project that a parsed file describes by itself: its `let`s in order,
/// then its beams and its hooks. Imports are left aside.
pub fn build_project(
    file: &File,
    dir: &str,
    git: Option<Result<GitHead, GitError>>,
    env: &Environment,
    source: SourceId,
) -> (r: Result<Project, CoreError>)
    ensures
        result_view(r, |p: Project| p@) == project_of(
            *file,
            dir@,
            git_view(git),
            *env,
            source,
        ),
{
    let lets = match build_lets(&file.lets, git, env) {
        Ok(lets) => lets,
        Err(error) => {
            return Err(error.with_source_id(source));
        },
    };
    let ghost f = beam_at(file.beams@, lets@, dir@, *env, source);
    let mut beams: Vec<Beam> = Vec::new();
    let mut i: usize = 0;
    assert(beam_views(beams@) =~= Seq::<BeamView>::empty());
    while i < file.beams.len()
        invariant
            i <= file.beams@.len(),
            f == beam_at(file.beams@, lets@, dir@, *env, source),
            lets_of(file.lets@, git_view(git), *env) == Ok::<ScopeView, ErrorView>(lets@),
            collect(i as nat, f) == Ok::<Seq<BeamView>, ErrorView>(beam_views(beams@)),
        decreases file.beams.len() - i,
    {
        match build_beam(&file.beams[i], &lets, dir, env, source) {
            Ok(beam) => {
                let ghost before = beam_views(beams@);
                beams.push(beam);
                assert(beam_views(beams@) =~= before.push(beam@));
            },
            Err(error) => {
                proof {
                    collect_fails_early(file.beams@.len(), (i + 1) as nat, f);
                }
                return Err(error.with_source_id(source));
            },
        }
        i += 1;
    }
    let default = match &file.default {
        Some(d) => Some(Spanned::new(BeamId(d.value.clone()), d.span)),
        None => None,
    };
    Ok(Project { beams, default, hooks: build_hooks(&file.hooks) })
}

/// A parser's complaint as an error in the root file.
pub fn parse_error_to_core_error(e: ParseError) -> (r: CoreError)
    ensures
        r@ == parse_failure(e),
{
    match e.help {
        Some(help) => CoreError::new(e.message, e.span).with_help(help),
        None => CoreError::new(e.message, e.span),
    }
}

/// Loads a single parsed file, without imports: what it describes, where its
/// graph is valid.
pub fn load_str(
    parsed: Result<File, ParseError>,
    git: Option<Result<GitHead, GitError>>,
    env: &Environment,
) -> (r: Result<Project, CoreError>)
    ensures
        result_view(r, |p: Project| p@) == loaded_alone(parsed, git_view(git), *env),
{
    let file = match parsed {
        Ok(file) => file,
        Err(e) => {
            return Err(parse_error_to_core_error(e));
        },
    };
    if file.imports.len() > 0 {
        return Err(
            CoreError::new(
                "imports are not supported by `load_str`; use `load_project` instead".to_owned(),
                file.imports[0].path.span,
            ),
        );
    }
    let project = match build_project(&file, ".", git, env, SourceId(0)) {
        Ok(project) => project,
        Err(error) => {
            return Err(error);
        },
    };
    match validate_graph(&project) {
        Ok(()) => Ok(project),
        Err(error) => Err(error),
    }
}

} // verus!
