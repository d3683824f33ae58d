//! Which Beamfiles read `git.*`: git is asked for those alone.

use vstd::prelude::*;
use crate::eval::{span_or, text_of, value_of};
use crate::scope::{Environment, GitView, ScopeView};
use crate::syntax::{
    BeamDecl, ExecutorDecl, ExecutorOptionValue, Expr, File, Span, Spanned, StringTemplate,
    TemplatePart,
};
use crate::text::same_text;

verus! {

/// An expression reads `git.*` somewhere, in a branch that is not taken too.
pub open spec fn reads_git(e: Expr) -> bool
    decreases e,
{
    match e {
        Expr::Str(t) => parts_read_git(t.parts@),
        Expr::Bool(_) => false,
        Expr::Var(_) => false,
        Expr::Call { name, args } => args_read_git(args@),
        Expr::Binary { op, lhs, rhs } => reads_git(*lhs) || reads_git(*rhs),
        Expr::If { cond, consequence, otherwise } => reads_git(*cond) || reads_git(*consequence)
            || reads_git(*otherwise),
        Expr::Field { object, field } => object.value@ == "git"@,
    }
}

pub open spec fn args_read_git(args: Seq<Expr>) -> bool
    decreases args,
{
    args.len() > 0 && (args_read_git(args.drop_last()) || reads_git(args.last()))
}

pub open spec fn parts_read_git(parts: Seq<TemplatePart>) -> bool
    decreases parts,
{
    parts.len() > 0 && (parts_read_git(parts.drop_last()) || match parts.last() {
        TemplatePart::Literal(_) => false,
        TemplatePart::Expr(e) => reads_git(e),
    })
}

pub open spec fn template_reads_git(t: StringTemplate) -> bool {
    parts_read_git(t.parts@)
}

pub open spec fn any_template_reads_git(ts: Seq<StringTemplate>) -> bool {
    exists|i: int| 0 <= i < ts.len() && template_reads_git(#[trigger] ts[i])
}

pub open spec fn option_reads_git(v: ExecutorOptionValue) -> bool {
    match v {
        ExecutorOptionValue::Str(t) => template_reads_git(t),
        ExecutorOptionValue::Bool(_) => false,
        ExecutorOptionValue::List(ts) => any_template_reads_git(ts@),
    }
}

pub open spec fn executor_reads_git(e: ExecutorDecl) -> bool {
    exists|i: int| 0 <= i < e.options@.len() && option_reads_git((#[trigger] e.options@[i]).1)
}

pub open spec fn env_reads_git(env: Seq<(Spanned<String>, StringTemplate)>) -> bool {
    exists|i: int| 0 <= i < env.len() && template_reads_git((#[trigger] env[i]).1)
}

pub open spec fn beam_reads_git(b: BeamDecl) -> bool {
    ||| b.description is Some && template_reads_git(b.description->Some_0)
    ||| any_template_reads_git(b.inputs@)
    ||| any_template_reads_git(b.outputs@)
    ||| any_template_reads_git(b.run@)
    ||| env_reads_git(b.env@)
    ||| b.cwd is Some && template_reads_git(b.cwd->Some_0)
    ||| b.executor is Some && executor_reads_git(b.executor->Some_0)
}

/// A file reads `git.*` in a `let` or in a beam.
pub open spec fn file_reads_git(f: File) -> bool {
    ||| exists|i: int| 0 <= i < f.lets@.len() && reads_git((#[trigger] f.lets@[i]).value)
    ||| exists|i: int| 0 <= i < f.beams@.len() && beam_reads_git(#[trigger] f.beams@[i])
}

/// Whether `expr` reads `git.*`.
pub fn expr_reads_git(expr: &Expr) -> (r: bool)
    ensures
        r == reads_git(*expr),
    decreases *expr,
{
    match expr {
        Expr::Str(t) => template_reads(t),
        Expr::Bool(_) => false,
        Expr::Var(_) => false,
        Expr::Call { args, .. } => {
            let mut i: usize = 0;
            let mut any = false;
            while i < args.len()
                invariant
                    i <= args@.len(),
                    *expr matches Expr::Call { args: own, .. } && own == *args,
                    any == args_read_git(args@.take(i as int)),
                decreases args.len() - i,
            {
                assert(args@.take(i + 1).drop_last() == args@.take(i as int));
                if expr_reads_git(&args[i]) {
                    any = true;
                }
                i += 1;
            }
            assert(args@.take(args@.len() as int) == args@);
            any
        },
        Expr::Binary { lhs, rhs, .. } => expr_reads_git(lhs) || expr_reads_git(rhs),
        Expr::If { cond, consequence, otherwise } => expr_reads_git(cond) || expr_reads_git(
            consequence,
        ) || expr_reads_git(otherwise),
        Expr::Field { object, .. } => same_text(object.value.as_str(), "git"),
    }
}

/// Whether `template` reads `git.*`.
pub fn template_reads(template: &StringTemplate) -> (r: bool)
    ensures
        r == template_reads_git(*template),
    decreases *template,
{
    let mut i: usize = 0;
    let mut any = false;
    while i < template.parts.len()
        invariant
            i <= template.parts@.len(),
            any == parts_read_git(template.parts@.take(i as int)),
        decreases template.parts.len() - i,
    {
        assert(template.parts@.take(i + 1).drop_last() == template.parts@.take(i as int));
        if let TemplatePart::Expr(e) = &template.parts[i] {
            if expr_reads_git(e) {
                any = true;
            }
        }
        i += 1;
    }
    assert(template.parts@.take(template.parts@.len() as int) == template.parts@);
    any
}

fn any_template_reads(templates: &Vec<StringTemplate>) -> (r: bool)
    ensures
        r == any_template_reads_git(templates@),
{
    let mut i: usize = 0;
    while i < templates.len()
        invariant
            i <= templates@.len(),
            forall|k: int| 0 <= k < i ==> !template_reads_git(#[trigger] templates@[k]),
        decreases templates.len() - i,
    {
        if template_reads(&templates[i]) {
            return true;
        }
        i += 1;
    }
    false
}

fn optional_reads(template: &Option<StringTemplate>) -> (r: bool)
    ensures
        r == (template is Some && template_reads_git(template->Some_0)),
{
    match template {
        Some(t) => template_reads(t),
        None => false,
    }
}

fn env_reads(env: &Vec<(Spanned<String>, StringTemplate)>) -> (r: bool)
    ensures
        r == env_reads_git(env@),
{
    let mut i: usize = 0;
    while i < env.len()
        invariant
            i <= env@.len(),
            forall|k: int| 0 <= k < i ==> !template_reads_git((#[trigger] env@[k]).1),
        decreases env.len() - i,
    {
        if template_reads(&env[i].1) {
            return true;
        }
        i += 1;
    }
    false
}

fn executor_reads(executor: &ExecutorDecl) -> (r: bool)
    ensures
        r == executor_reads_git(*executor),
{
    let mut i: usize = 0;
    while i < executor.options.len()
        invariant
            i <= executor.options@.len(),
            forall|k: int| 0 <= k < i ==> !option_reads_git((#[trigger] executor.options@[k]).1),
        decreases executor.options.len() - i,
    {
        let reads = match &executor.options[i].1 {
            ExecutorOptionValue::Str(t) => template_reads(t),
            ExecutorOptionValue::Bool(_) => false,
            ExecutorOptionValue::List(ts) => any_template_reads(ts),
        };
        if reads {
            assert(option_reads_git(executor.options@[i as int].1));
            return true;
        }
        i += 1;
    }
    false
}

fn beam_reads(beam: &BeamDecl) -> (r: bool)
    ensures
        r == beam_reads_git(*beam),
{
    optional_reads(&beam.description) || any_template_reads(&beam.inputs) || any_template_reads(
        &beam.outputs,
    ) || any_template_reads(&beam.run) || env_reads(&beam.env) || optional_reads(&beam.cwd)
        || match &beam.executor {
        Some(executor) => executor_reads(executor),
        None => false,
    }
}

/// Whether `file` reads `git.*`.
pub fn mentions_git(file: &File) -> (r: bool)
    ensures
        r == file_reads_git(*file),
{
    let mut i: usize = 0;
    while i < file.lets.len()
        invariant
            i <= file.lets@.len(),
            forall|k: int| 0 <= k < i ==> !reads_git((#[trigger] file.lets@[k]).value),
        decreases file.lets.len() - i,
    {
        if expr_reads_git(&file.lets[i].value) {
            return true;
        }
        i += 1;
    }
    let mut j: usize = 0;
    while j < file.beams.len()
        invariant
            j <= file.beams@.len(),
            forall|k: int| 0 <= k < file.lets@.len() ==> !reads_git((#[trigger] file.lets@[k]).value),
            forall|k: int| 0 <= k < j ==> !beam_reads_git(#[trigger] file.beams@[k]),
        decreases file.beams.len() - j,
    {
        if beam_reads(&file.beams[j]) {
            return true;
        }
        j += 1;
    }
    false
}

/// The value of an expression that does not read `git.*` does not depend on
/// what git answered.
pub proof fn git_matters_only_where_it_is_read(
    e: Expr,
    scope: ScopeView,
    other: GitView,
    env: Environment,
    fallback: Span,
)
    requires
        !reads_git(e),
    ensures
        value_of(e, ScopeView { values: scope.values, git: other }, env, fallback) == value_of(
            e,
            scope,
            env,
            fallback,
        ),
    decreases e,
{
    match e {
        Expr::Str(t) => {
            git_matters_only_where_it_is_read_in_text(t.parts@, t.span, scope, other, env);
        },
        Expr::Bool(_) => {},
        Expr::Var(_) => {},
        Expr::Call { name, args } => {
            if args@.len() == 1 {
                assert(args_read_git(args@) == (args_read_git(args@.drop_last()) || reads_git(
                    args@.last(),
                )));
                assert(args@.last() == args@[0]);
                git_matters_only_where_it_is_read(
                    args@[0],
                    scope,
                    other,
                    env,
                    span_or(args@[0], fallback),
                );
            } else if args@.len() == 2 {
                let rest = args@.drop_last();
                assert(args_read_git(args@) == (args_read_git(rest) || reads_git(args@.last())));
                assert(args_read_git(rest) == (args_read_git(rest.drop_last()) || reads_git(
                    rest.last(),
                )));
                assert(rest.last() == args@[0] && args@.last() == args@[1]);
                git_matters_only_where_it_is_read(
                    args@[0],
                    scope,
                    other,
                    env,
                    span_or(args@[0], fallback),
                );
                git_matters_only_where_it_is_read(
                    args@[1],
                    scope,
                    other,
                    env,
                    span_or(args@[1], fallback),
                );
            }
        },
        Expr::Binary { op, lhs, rhs } => {
            git_matters_only_where_it_is_read(*lhs, scope, other, env, span_or(*lhs, fallback));
            git_matters_only_where_it_is_read(*rhs, scope, other, env, span_or(*rhs, fallback));
        },
        Expr::If { cond, consequence, otherwise } => {
            git_matters_only_where_it_is_read(*cond, scope, other, env, span_or(*cond, fallback));
            git_matters_only_where_it_is_read(
                *consequence,
                scope,
                other,
                env,
                span_or(*consequence, fallback),
            );
            git_matters_only_where_it_is_read(
                *otherwise,
                scope,
                other,
                env,
                span_or(*otherwise, fallback),
            );
        },
        Expr::Field { object, field } => {},
    }
}

/// The text of a template that does not read `git.*` does not depend on what
/// git answered.
pub proof fn git_matters_only_where_it_is_read_in_text(
    parts: Seq<TemplatePart>,
    span: Span,
    scope: ScopeView,
    other: GitView,
    env: Environment,
)
    requires
        !parts_read_git(parts),
    ensures
        text_of(parts, span, ScopeView { values: scope.values, git: other }, env) == text_of(
            parts,
            span,
            scope,
            env,
        ),
    decreases parts,
{
    if parts.len() > 0 {
        git_matters_only_where_it_is_read_in_text(parts.drop_last(), span, scope, other, env);
        match parts.last() {
            TemplatePart::Literal(_) => {},
            TemplatePart::Expr(e) => {
                git_matters_only_where_it_is_read(e, scope, other, env, span_or(e, span));
            },
        }
    }
}

} // verus!
