//! The static check of expressions and templates: every name and every
//! branch is validated, and whatever depends on `let`s alone is computed and
//! type-checked, without reading the environment.

use vstd::prelude::*;
use vstd::string::*;
use crate::error::{error_at, result_view, CoreError, ErrorView};
use crate::eval::{
    arity_error, as_string, binary, eval_binary, eval_field, expect_str_value, expr_span_or,
    field_value, not_a_condition, not_a_condition_error, render_template, span_or, text_of,
    unknown_function, unknown_function_error, unknown_variable, unknown_variable_error, valid_glob,
    validate_glob_pattern, wrong_arity,
};
use crate::model::{Value, ValueView};
use crate::scope::{Environment, Scope, ScopeView};
use crate::suggest::names_of;
use crate::syntax::{Expr, Span, Spanned, StringTemplate, TemplatePart};
use crate::text::{same_text, text3, views};

verus! {

/// What the check knows of an expression: its value, or only that it depends
/// on a parameter or on the environment.
#[derive(Debug, PartialEq)]
pub enum StaticValue {
    Known(Value),
    Unknown,
}

pub enum StaticView {
    Known(ValueView),
    Unknown,
}

impl View for StaticValue {
    type V = StaticView;

    open spec fn view(&self) -> StaticView {
        match self {
            StaticValue::Known(v) => StaticView::Known(v@),
            StaticValue::Unknown => StaticView::Unknown,
        }
    }
}

/// When a checked expression will be evaluated. While loading, `env()` needs
/// a default.
#[derive(Debug, Clone, Copy, PartialEq, Eq, Structural)]
pub enum Timing {
    Load,
    Schedule,
}

pub open spec fn env_needs_default(name: Spanned<String>) -> ErrorView {
    error_at("`env` requires a default value here"@, name.span).with_help(
        "add one, e.g. `env(\"NAME\", \"fallback\")`, or read the variable from `run`/`env` instead, where it resolves when the beam runs"@,
    )
}

/// What the check says of an expression, `params` being the names bound only
/// when the beam runs. A parameter hides a `let` of the same name.
pub open spec fn static_value(
    e: Expr,
    lets: ScopeView,
    params: Seq<Seq<char>>,
    timing: Timing,
    fallback: Span,
) -> Result<StaticView, ErrorView>
    decreases e,
{
    match e {
        Expr::Bool(b) => Ok(StaticView::Known(ValueView::Bool(b))),
        Expr::Var(name) => if params.contains(name.value@) {
            Ok(StaticView::Unknown)
        } else if lets.values.contains_key(name.value@) {
            Ok(StaticView::Known(lets.values[name.value@]))
        } else {
            Err(unknown_variable(name, lets.values.dom() + params.to_set()))
        },
        Expr::Str(t) => match static_text(t.parts@, t.span, lets, params, timing) {
            Err(x) => Err(x),
            Ok(Some(s)) => Ok(StaticView::Known(ValueView::Str(s))),
            Ok(None) => Ok(StaticView::Unknown),
        },
        Expr::Call { name, args } => if name.value@ == "env"@ {
            if args@.len() == 0 || args@.len() > 2 {
                Err(wrong_arity(name, 1, 2, args@.len()))
            } else {
                match static_value(args@[0], lets, params, timing, span_or(args@[0], fallback)) {
                    Err(x) => Err(x),
                    Ok(_) => if args@.len() == 2 {
                        match static_value(
                            args@[1],
                            lets,
                            params,
                            timing,
                            span_or(args@[1], fallback),
                        ) {
                            Err(x) => Err(x),
                            Ok(_) => Ok(StaticView::Unknown),
                        }
                    } else if timing == Timing::Load {
                        Err(env_needs_default(name))
                    } else {
                        Ok(StaticView::Unknown)
                    },
                }
            }
        } else if name.value@ == "glob"@ {
            if args@.len() != 1 {
                Err(wrong_arity(name, 1, 1, args@.len()))
            } else {
                let span = span_or(args@[0], fallback);
                match static_value(args@[0], lets, params, timing, span) {
                    Err(x) => Err(x),
                    Ok(StaticView::Unknown) => Ok(StaticView::Unknown),
                    Ok(StaticView::Known(v)) => match as_string(name.value@, v, span) {
                        Err(x) => Err(x),
                        Ok(pattern) => match valid_glob(pattern, span) {
                            Err(x) => Err(x),
                            Ok(v) => Ok(StaticView::Known(v)),
                        },
                    },
                }
            }
        } else {
            Err(unknown_function(name))
        },
        Expr::Binary { op, lhs, rhs } => match static_value(
            *lhs,
            lets,
            params,
            timing,
            span_or(*lhs, fallback),
        ) {
            Err(x) => Err(x),
            Ok(l) => match static_value(*rhs, lets, params, timing, span_or(*rhs, fallback)) {
                Err(x) => Err(x),
                Ok(r) => match (l, r) {
                    (StaticView::Known(lv), StaticView::Known(rv)) => match binary(
                        op,
                        lv,
                        rv,
                        fallback,
                    ) {
                        Err(x) => Err(x),
                        Ok(v) => Ok(StaticView::Known(v)),
                    },
                    _ => Ok(StaticView::Unknown),
                },
            },
        },
        Expr::If { cond, consequence, otherwise } => {
            let first = static_value(
                *consequence,
                lets,
                params,
                timing,
                span_or(*consequence, fallback),
            );
            let second = static_value(
                *otherwise,
                lets,
                params,
                timing,
                span_or(*otherwise, fallback),
            );
            match static_value(*cond, lets, params, timing, span_or(*cond, fallback)) {
                Err(x) => Err(x),
                Ok(StaticView::Known(ValueView::Str(s))) => Err(
                    not_a_condition(ValueView::Str(s), span_or(*cond, fallback)),
                ),
                Ok(c) => if first is Err {
                    first
                } else if second is Err {
                    second
                } else {
                    match c {
                        StaticView::Known(ValueView::Bool(true)) => first,
                        StaticView::Known(_) => second,
                        StaticView::Unknown => Ok(StaticView::Unknown),
                    }
                },
            }
        },
        Expr::Field { object, field } => match field_value(lets.git, object, field) {
            Err(x) => Err(x),
            Ok(v) => Ok(StaticView::Known(v)),
        },
    }
}

/// What the check says of a template's parts: the text where every part is
/// known, `None` where one is not. The first part that fails decides the
/// error.
pub open spec fn static_text(
    parts: Seq<TemplatePart>,
    span: Span,
    lets: ScopeView,
    params: Seq<Seq<char>>,
    timing: Timing,
) -> Result<Option<Seq<char>>, ErrorView>
    decreases parts,
{
    if parts.len() == 0 {
        Ok(Some(Seq::empty()))
    } else {
        match static_text(parts.drop_last(), span, lets, params, timing) {
            Err(x) => Err(x),
            Ok(before) => match parts.last() {
                TemplatePart::Literal(s) => match before {
                    Some(b) => Ok(Some(b + s@)),
                    None => Ok(None),
                },
                TemplatePart::Expr(e) => match static_value(
                    e,
                    lets,
                    params,
                    timing,
                    span_or(e, span),
                ) {
                    Err(x) => Err(x),
                    Ok(v) => match (before, v) {
                        (Some(b), StaticView::Known(v)) => Ok(Some(b + v.display())),
                        _ => Ok(None),
                    },
                },
            },
        }
    }
}

proof fn static_text_fails_early(
    parts: Seq<TemplatePart>,
    n: int,
    span: Span,
    lets: ScopeView,
    params: Seq<Seq<char>>,
    timing: Timing,
)
    requires
        0 <= n <= parts.len(),
        static_text(parts.take(n), span, lets, params, timing) is Err,
    ensures
        static_text(parts, span, lets, params, timing) == static_text(
            parts.take(n),
            span,
            lets,
            params,
            timing,
        ),
    decreases parts.len() - n,
{
    if n == parts.len() {
        assert(parts.take(n) == parts);
    } else {
        assert(parts.take(n + 1).drop_last() == parts.take(n));
        static_text_fails_early(parts, n + 1, span, lets, params, timing);
    }
}

/// Whether `name` is one of `params`.
pub fn is_param(params: &Vec<String>, name: &str) -> (r: bool)
    ensures
        r == views(params@).contains(name@),
{
    let mut i: usize = 0;
    while i < params.len()
        invariant
            i <= params.len(),
            forall|k: int| 0 <= k < i ==> (#[trigger] params@[k])@ != name@,
        decreases params.len() - i,
    {
        if same_text(params[i].as_str(), name) {
            assert(views(params@)[i as int] == name@);
            return true;
        }
        i += 1;
    }
    assert forall|k: int| 0 <= k < views(params@).len() implies views(params@)[k] != name@ by {
        assert(params@[k]@ != name@);
    }
    false
}

/// The names of `lets`, then `params`.
fn candidates<'a>(lets: &'a Scope, params: &'a Vec<String>) -> (r: Vec<&'a str>)
    ensures
        names_of(r@) == lets@.values.dom() + views(params@).to_set(),
{
    let mut out = lets.names();
    let ghost before = out@;
    let mut i: usize = 0;
    while i < params.len()
        invariant
            i <= params.len(),
            out@.len() == before.len() + i,
            forall|k: int| 0 <= k < before.len() ==> out@[k] == before[k],
            forall|k: int| 0 <= k < i ==> (#[trigger] out@[before.len() + k])@ == params@[k]@,
        decreases params.len() - i,
    {
        out.push(params[i].as_str());
        i += 1;
    }
    proof {
        let p = views(params@);
        assert forall|c: Seq<char>| names_of(out@).contains(c) == (names_of(before) + p.to_set()).contains(c) by {
            if names_of(before).contains(c) {
                let k = choose|k: int| 0 <= k < before.len() && (#[trigger] before[k])@ == c;
                assert(out@[k]@ == c);
            }
            if p.to_set().contains(c) {
                let k = choose|k: int| 0 <= k < p.len() && p[k] == c;
                assert(out@[before.len() + k]@ == c);
            }
            if names_of(out@).contains(c) {
                let k = choose|k: int| 0 <= k < out@.len() && (#[trigger] out@[k])@ == c;
                if k < before.len() {
                    assert(before[k]@ == c);
                } else {
                    assert(out@[before.len() + (k - before.len())]@ == c);
                    assert(p[k - before.len()] == c);
                }
            }
        }
        assert(names_of(out@) =~= names_of(before) + p.to_set());
    }
    out
}

/// Validates `expr` without evaluating it, and computes what of it depends
/// on `lets` alone.
pub fn check_expr(
    expr: &Expr,
    lets: &Scope,
    params: &Vec<String>,
    timing: Timing,
    fallback: Span,
) -> (r: Result<StaticValue, CoreError>)
    ensures
        result_view(r, |v: StaticValue| v@) == static_value(
            *expr,
            lets@,
            views(params@),
            timing,
            fallback,
        ),
    decreases *expr, 0nat,
{
    match expr {
        Expr::Bool(b) => Ok(StaticValue::Known(Value::Bool(*b))),
        Expr::Var(name) => if is_param(params, name.value.as_str()) {
            Ok(StaticValue::Unknown)
        } else {
            match lets.get(name.value.as_str()) {
                Some(v) => Ok(StaticValue::Known(v.clone())),
                None => Err(
                    unknown_variable_error(name, candidates(lets, params).as_slice()),
                ),
            }
        },
        Expr::Str(template) => match check_parts(template, lets, params, timing) {
            Err(error) => Err(error),
            Ok(Some(s)) => Ok(StaticValue::Known(Value::Str(s))),
            Ok(None) => Ok(StaticValue::Unknown),
        },
        Expr::Call { name, args } => if same_text(name.value.as_str(), "env") {
            check_env_call(name, args, lets, params, timing, fallback)
        } else if same_text(name.value.as_str(), "glob") {
            check_glob_call(name, args, lets, params, timing, fallback)
        } else {
            Err(unknown_function_error(name))
        },
        Expr::Binary { op, lhs, rhs } => {
            let l = match check_expr(lhs, lets, params, timing, expr_span_or(lhs, fallback)) {
                Ok(v) => v,
                Err(error) => return Err(error),
            };
            let r = match check_expr(rhs, lets, params, timing, expr_span_or(rhs, fallback)) {
                Ok(v) => v,
                Err(error) => return Err(error),
            };
            match (l, r) {
                (StaticValue::Known(lv), StaticValue::Known(rv)) => match eval_binary(
                    *op,
                    lv,
                    rv,
                    fallback,
                ) {
                    Ok(v) => Ok(StaticValue::Known(v)),
                    Err(error) => Err(error),
                },
                _ => Ok(StaticValue::Unknown),
            }
        },
        Expr::If { cond, consequence, otherwise } => {
            let cond_span = expr_span_or(cond, fallback);
            let known = match check_expr(cond, lets, params, timing, cond_span) {
                Err(error) => return Err(error),
                Ok(StaticValue::Known(Value::Bool(b))) => Some(b),
                Ok(StaticValue::Known(other)) => {
                    return Err(not_a_condition_error(&other, cond_span));
                },
                Ok(StaticValue::Unknown) => None,
            };
            let first = match check_expr(
                consequence,
                lets,
                params,
                timing,
                expr_span_or(consequence, fallback),
            ) {
                Ok(v) => v,
                Err(error) => return Err(error),
            };
            let second = match check_expr(
                otherwise,
                lets,
                params,
                timing,
                expr_span_or(otherwise, fallback),
            ) {
                Ok(v) => v,
                Err(error) => return Err(error),
            };
            match known {
                Some(true) => Ok(first),
                Some(false) => Ok(second),
                None => Ok(StaticValue::Unknown),
            }
        },
        Expr::Field { object, field } => match eval_field(object, field, lets) {
            Ok(v) => Ok(StaticValue::Known(v)),
            Err(error) => Err(error),
        },
    }
}

/// Checks a template's parts in order; its text where every part is known.
fn check_parts(
    template: &StringTemplate,
    lets: &Scope,
    params: &Vec<String>,
    timing: Timing,
) -> (r: Result<Option<String>, CoreError>)
    ensures
        result_view(r, |s: Option<String>| crate::text::opt_view(s)) == static_text(
            template.parts@,
            template.span,
            lets@,
            views(params@),
            timing,
        ),
    decreases *template, 0nat,
{
    let ghost p = views(params@);
    let mut any_unknown = false;
    let mut rendered = String::new();
    let mut i: usize = 0;
    while i < template.parts.len()
        invariant
            i <= template.parts.len(),
            p == views(params@),
            static_text(template.parts@.take(i as int), template.span, lets@, p, timing) == Ok::<
                Option<Seq<char>>,
                ErrorView,
            >(
                if any_unknown {
                    None
                } else {
                    Some(rendered@)
                },
            ),
        decreases template.parts.len() - i,
    {
        proof {
            assert(template.parts@.take(i + 1).drop_last() == template.parts@.take(i as int));
        }
        match &template.parts[i] {
            TemplatePart::Literal(s) => {
                rendered.append(s.as_str());
            },
            TemplatePart::Expr(e) => {
                match check_expr(e, lets, params, timing, expr_span_or(e, template.span)) {
                    Ok(StaticValue::Known(v)) => {
                        rendered.append(v.as_display());
                    },
                    Ok(StaticValue::Unknown) => {
                        any_unknown = true;
                    },
                    Err(error) => {
                        proof {
                            static_text_fails_early(
                                template.parts@,
                                i + 1,
                                template.span,
                                lets@,
                                p,
                                timing,
                            );
                        }
                        return Err(error);
                    },
                }
            },
        }
        i += 1;
    }
    assert(template.parts@.take(template.parts@.len() as int) == template.parts@);
    if any_unknown {
        Ok(None)
    } else {
        Ok(Some(rendered))
    }
}

/// Validates an `env` call without executing it.
fn check_env_call(
    name: &Spanned<String>,
    args: &Vec<Expr>,
    lets: &Scope,
    params: &Vec<String>,
    timing: Timing,
    fallback: Span,
) -> (r: Result<StaticValue, CoreError>)
    requires
        name.value@ == "env"@,
    ensures
        result_view(r, |v: StaticValue| v@) == static_value(
            Expr::Call { name: *name, args: *args },
            lets@,
            views(params@),
            timing,
            fallback,
        ),
    decreases *args, 1nat,
{
    if args.len() == 0 || args.len() > 2 {
        return Err(arity_error(name, 1, 2, args.len()));
    }
    match check_expr(&args[0], lets, params, timing, expr_span_or(&args[0], fallback)) {
        Err(error) => return Err(error),
        Ok(_) => {},
    }
    if args.len() == 2 {
        match check_expr(&args[1], lets, params, timing, expr_span_or(&args[1], fallback)) {
            Err(error) => return Err(error),
            Ok(_) => {},
        }
    } else if timing == Timing::Load {
        return Err(
            CoreError::new("`env` requires a default value here".to_owned(), name.span).with_help(
                "add one, e.g. `env(\"NAME\", \"fallback\")`, or read the variable from `run`/`env` instead, where it resolves when the beam runs".to_owned(),
            ),
        );
    }
    Ok(StaticValue::Unknown)
}

/// Validates a `glob` call, compiling the pattern where it is known.
fn check_glob_call(
    name: &Spanned<String>,
    args: &Vec<Expr>,
    lets: &Scope,
    params: &Vec<String>,
    timing: Timing,
    fallback: Span,
) -> (r: Result<StaticValue, CoreError>)
    requires
        name.value@ == "glob"@,
    ensures
        result_view(r, |v: StaticValue| v@) == static_value(
            Expr::Call { name: *name, args: *args },
            lets@,
            views(params@),
            timing,
            fallback,
        ),
    decreases *args, 1nat,
{
    proof {
        reveal_strlit("glob");
        reveal_strlit("env");
    }
    if args.len() != 1 {
        return Err(arity_error(name, 1, 1, args.len()));
    }
    let span = expr_span_or(&args[0], fallback);
    match check_expr(&args[0], lets, params, timing, span) {
        Err(error) => Err(error),
        Ok(StaticValue::Unknown) => Ok(StaticValue::Unknown),
        Ok(StaticValue::Known(value)) => match expect_str_value(name.value.as_str(), value, span) {
            Err(error) => Err(error),
            Ok(pattern) => match validate_glob_pattern(pattern, span) {
                Err(error) => Err(error),
                Ok(v) => Ok(StaticValue::Known(v)),
            },
        },
    }
}

/// Whether a template passes the check.
pub open spec fn template_verdict(
    template: StringTemplate,
    lets: ScopeView,
    params: Seq<Seq<char>>,
    timing: Timing,
) -> Result<(), ErrorView> {
    match static_text(template.parts@, template.span, lets, params, timing) {
        Ok(_) => Ok(()),
        Err(x) => Err(x),
    }
}

/// Validates a template without rendering it.
pub fn validate_template(
    template: &StringTemplate,
    lets: &Scope,
    params: &Vec<String>,
    timing: Timing,
) -> (r: Result<(), CoreError>)
    ensures
        result_view(r, |u: ()| u) == template_verdict(*template, lets@, views(params@), timing),
{
    match check_parts(template, lets, params, timing) {
        Ok(_) => Ok(()),
        Err(error) => Err(error),
    }
}

/// The first place where an expression refers to one of `params`.
pub open spec fn first_param(e: Expr, params: Seq<Seq<char>>) -> Option<Span>
    decreases e,
{
    match e {
        Expr::Bool(_) => None,
        Expr::Var(name) => if params.contains(name.value@) {
            Some(name.span)
        } else {
            None
        },
        Expr::Str(t) => first_param_in_parts(t.parts@, params),
        Expr::Call { name, args } => first_param_in_args(args@, params),
        Expr::Binary { op, lhs, rhs } => match first_param(*lhs, params) {
            Some(s) => Some(s),
            None => first_param(*rhs, params),
        },
        Expr::If { cond, consequence, otherwise } => match first_param(*cond, params) {
            Some(s) => Some(s),
            None => match first_param(*consequence, params) {
                Some(s) => Some(s),
                None => first_param(*otherwise, params),
            },
        },
        Expr::Field { object, field } => None,
    }
}

pub open spec fn first_param_in_args(args: Seq<Expr>, params: Seq<Seq<char>>) -> Option<Span>
    decreases args,
{
    if args.len() == 0 {
        None
    } else {
        match first_param_in_args(args.drop_last(), params) {
            Some(s) => Some(s),
            None => first_param(args.last(), params),
        }
    }
}

pub open spec fn first_param_in_parts(parts: Seq<TemplatePart>, params: Seq<Seq<char>>) -> Option<
    Span,
>
    decreases parts,
{
    if parts.len() == 0 {
        None
    } else {
        match first_param_in_parts(parts.drop_last(), params) {
            Some(s) => Some(s),
            None => match parts.last() {
                TemplatePart::Literal(_) => None,
                TemplatePart::Expr(e) => first_param(e, params),
            },
        }
    }
}

proof fn first_param_in_args_early(args: Seq<Expr>, n: int, params: Seq<Seq<char>>)
    requires
        0 <= n <= args.len(),
        first_param_in_args(args.take(n), params) is Some,
    ensures
        first_param_in_args(args, params) == first_param_in_args(args.take(n), params),
    decreases args.len() - n,
{
    if n == args.len() {
        assert(args.take(n) == args);
    } else {
        assert(args.take(n + 1).drop_last() == args.take(n));
        first_param_in_args_early(args, n + 1, params);
    }
}

proof fn first_param_in_parts_early(parts: Seq<TemplatePart>, n: int, params: Seq<Seq<char>>)
    requires
        0 <= n <= parts.len(),
        first_param_in_parts(parts.take(n), params) is Some,
    ensures
        first_param_in_parts(parts, params) == first_param_in_parts(parts.take(n), params),
    decreases parts.len() - n,
{
    if n == parts.len() {
        assert(parts.take(n) == parts);
    } else {
        assert(parts.take(n + 1).drop_last() == parts.take(n));
        first_param_in_parts_early(parts, n + 1, params);
    }
}

/// The error for a parameter referred to in `field`, at `place` if at all.
pub open spec fn param_refused(place: Option<Span>, field: Seq<char>) -> Result<(), ErrorView> {
    match place {
        None => Ok(()),
        Some(span) => Err(
            error_at("beam parameters cannot be used in `"@ + field + "`"@, span),
        ),
    }
}

/// Refuses any reference to one of `params` inside `expr`, a part of `field`.
pub fn reject_param_references(expr: &Expr, params: &Vec<String>, field: &str) -> (r: Result<
    (),
    CoreError,
>)
    ensures
        result_view(r, |u: ()| u) == param_refused(
            first_param(*expr, views(params@)),
            field@,
        ),
    decreases *expr,
{
    match expr {
        Expr::Bool(_) => Ok(()),
        Expr::Var(name) => if is_param(params, name.value.as_str()) {
            Err(
                CoreError::new(
                    text3("beam parameters cannot be used in `", field, "`"),
                    name.span,
                ),
            )
        } else {
            Ok(())
        },
        Expr::Str(template) => reject_param_references_in_template(template, params, field),
        Expr::Call { args, .. } => {
            let mut i: usize = 0;
            while i < args.len()
                invariant
                    i <= args.len(),
                    *expr matches Expr::Call { args: own, .. } && own == *args,
                    first_param_in_args(args@.take(i as int), views(params@)) is None,
                decreases args.len() - i,
            {
                proof {
                    assert(args@.take(i + 1).drop_last() == args@.take(i as int));
                }
                match reject_param_references(&args[i], params, field) {
                    Ok(()) => {},
                    Err(error) => {
                        proof {
                            first_param_in_args_early(args@, i + 1, views(params@));
                        }
                        return Err(error);
                    },
                }
                i += 1;
            }
            assert(args@.take(args@.len() as int) == args@);
            Ok(())
        },
        Expr::Binary { lhs, rhs, .. } => match reject_param_references(lhs, params, field) {
            Err(error) => Err(error),
            Ok(()) => reject_param_references(rhs, params, field),
        },
        Expr::If { cond, consequence, otherwise } => match reject_param_references(
            cond,
            params,
            field,
        ) {
            Err(error) => Err(error),
            Ok(()) => match reject_param_references(consequence, params, field) {
                Err(error) => Err(error),
                Ok(()) => reject_param_references(otherwise, params, field),
            },
        },
        Expr::Field { .. } => Ok(()),
    }
}

/// Refuses any reference to one of `params` inside `template`.
pub fn reject_param_references_in_template(
    template: &StringTemplate,
    params: &Vec<String>,
    field: &str,
) -> (r: Result<(), CoreError>)
    ensures
        result_view(r, |u: ()| u) == param_refused(
            first_param_in_parts(template.parts@, views(params@)),
            field@,
        ),
    decreases *template,
{
    let mut i: usize = 0;
    while i < template.parts.len()
        invariant
            i <= template.parts.len(),
            first_param_in_parts(template.parts@.take(i as int), views(params@)) is None,
        decreases template.parts.len() - i,
    {
        proof {
            assert(template.parts@.take(i + 1).drop_last() == template.parts@.take(i as int));
        }
        if let TemplatePart::Expr(e) = &template.parts[i] {
            match reject_param_references(e, params, field) {
                Ok(()) => {},
                Err(error) => {
                    proof {
                        first_param_in_parts_early(template.parts@, i + 1, views(params@));
                    }
                    return Err(error);
                },
            }
        }
        i += 1;
    }
    assert(template.parts@.take(template.parts@.len() as int) == template.parts@);
    Ok(())
}

/// The text of a field rendered while loading: parameters are refused first,
/// then the whole template is checked, then it is rendered from `lets`.
pub open spec fn load_time_text(
    field: Seq<char>,
    template: StringTemplate,
    lets: ScopeView,
    params: Seq<Seq<char>>,
    env: Environment,
) -> Result<Seq<char>, ErrorView> {
    match param_refused(first_param_in_parts(template.parts@, params), field) {
        Err(x) => Err(x),
        Ok(_) => match template_verdict(template, lets, Seq::empty(), Timing::Load) {
            Err(x) => Err(x),
            Ok(_) => text_of(template.parts@, template.span, lets, env),
        },
    }
}

/// Renders a field that is evaluated while loading.
pub fn render_load_time_template(
    field: &str,
    template: &StringTemplate,
    lets: &Scope,
    params: &Vec<String>,
    env: &Environment,
) -> (r: Result<String, CoreError>)
    ensures
        result_view(r, |s: String| s@) == load_time_text(
            field@,
            *template,
            lets@,
            views(params@),
            *env,
        ),
{
    match reject_param_references_in_template(template, params, field) {
        Ok(()) => {},
        Err(error) => return Err(error),
    }
    let none: Vec<String> = Vec::new();
    assert(views(none@) =~= Seq::<Seq<char>>::empty());
    match validate_template(template, lets, &none, Timing::Load) {
        Ok(()) => {},
        Err(error) => return Err(error),
    }
    render_template(template, lets, env)
}

} // verus!
