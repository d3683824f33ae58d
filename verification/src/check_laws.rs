//! What the static check promises of evaluation.

use vstd::prelude::*;
use crate::check::{
    first_param, first_param_in_args, first_param_in_parts, static_text, static_value, StaticView,
    Timing,
};
use crate::error::ErrorView;
use crate::eval::{span_or, text_of, value_of};
use crate::model::ValueView;
use crate::scope::{with_arguments, Environment, ScopeView};
use crate::syntax::{Expr, Span, TemplatePart};

verus! {

/// Two scopes bind every name outside `params` alike.
pub open spec fn agree_outside(a: ScopeView, b: ScopeView, params: Seq<Seq<char>>) -> bool {
    &&& a.git == b.git
    &&& forall|k: Seq<char>|
        !params.contains(k) ==> (#[trigger] a.values.contains_key(k) <==> b.values.contains_key(k))
            && (a.values.contains_key(k) ==> a.values[k] == b.values[k])
}

/// Binding arguments to parameters changes nothing else.
pub proof fn arguments_bind_parameters_only(
    scope: ScopeView,
    params: Seq<Seq<char>>,
    args: Seq<Seq<char>>,
)
    ensures
        agree_outside(
            scope,
            ScopeView { values: with_arguments(scope.values, params, args), git: scope.git },
            params,
        ),
    decreases params.len(),
{
    if params.len() > 0 {
        arguments_bind_parameters_only(scope, params.drop_last(), args);
        let inner = with_arguments(scope.values, params.drop_last(), args);
        let outer = with_arguments(scope.values, params, args);
        assert forall|k: Seq<char>| !params.contains(k) implies (#[trigger] scope.values.contains_key(k)
            <==> outer.contains_key(k)) && (scope.values.contains_key(k) ==> scope.values[k]
            == outer[k]) by {
            if params.drop_last().contains(k) {
                let i = choose|i: int| 0 <= i < params.drop_last().len() && params.drop_last()[i] == k;
                assert(params[i] == k);
            }
            assert(scope.values.contains_key(k) <==> inner.contains_key(k));
            assert(params[params.len() - 1] == params.last());
        }
    }
}

/// A parameter is bound to its own argument, whatever a `let` of the same
/// name held.
pub proof fn a_parameter_hides_a_let(
    values: Map<Seq<char>, ValueView>,
    params: Seq<Seq<char>>,
    args: Seq<Seq<char>>,
    i: int,
)
    requires
        0 <= i < params.len(),
        params.len() <= args.len(),
        params.no_duplicates(),
    ensures
        with_arguments(values, params, args).contains_key(params[i]),
        with_arguments(values, params, args)[params[i]] == ValueView::Str(args[i]),
    decreases params.len(),
{
    if i < params.len() - 1 {
        assert(params.drop_last()[i] == params[i]);
        assert(params.drop_last().no_duplicates());
        a_parameter_hides_a_let(values, params.drop_last(), args, i);
        assert(params[i] != params.last());
    }
}

/// What the check knows of an expression is what the expression is worth
/// when the beam runs, whatever the parameters and the environment hold.
pub proof fn a_known_value_is_the_value(
    e: Expr,
    lets: ScopeView,
    params: Seq<Seq<char>>,
    timing: Timing,
    fallback: Span,
    scope: ScopeView,
    env: Environment,
)
    requires
        agree_outside(lets, scope, params),
    ensures
        static_value(e, lets, params, timing, fallback) matches Ok(StaticView::Known(v)) ==> value_of(
            e,
            scope,
            env,
            fallback,
        ) == Ok::<ValueView, ErrorView>(v),
    decreases e,
{
    match e {
        Expr::Str(t) => {
            a_known_text_is_the_text(t.parts@, t.span, lets, params, timing, scope, env);
        },
        Expr::Bool(b) => {},
        Expr::Var(name) => {
            assert(lets.values.contains_key(name.value@) ==> !params.contains(name.value@)
                ==> scope.values.contains_key(name.value@));
        },
        Expr::Call { name, args } => {
            if args@.len() == 1 {
                a_known_value_is_the_value(
                    args@[0],
                    lets,
                    params,
                    timing,
                    span_or(args@[0], fallback),
                    scope,
                    env,
                );
            }
        },
        Expr::Binary { op, lhs, rhs } => {
            a_known_value_is_the_value(
                *lhs,
                lets,
                params,
                timing,
                span_or(*lhs, fallback),
                scope,
                env,
            );
            a_known_value_is_the_value(
                *rhs,
                lets,
                params,
                timing,
                span_or(*rhs, fallback),
                scope,
                env,
            );
        },
        Expr::If { cond, consequence, otherwise } => {
            a_known_value_is_the_value(
                *cond,
                lets,
                params,
                timing,
                span_or(*cond, fallback),
                scope,
                env,
            );
            a_known_value_is_the_value(
                *consequence,
                lets,
                params,
                timing,
                span_or(*consequence, fallback),
                scope,
                env,
            );
            a_known_value_is_the_value(
                *otherwise,
                lets,
                params,
                timing,
                span_or(*otherwise, fallback),
                scope,
                env,
            );
        },
        Expr::Field { object, field } => {},
    }
}

/// A template whose text the check knows renders to that text.
pub proof fn a_known_text_is_the_text(
    parts: Seq<TemplatePart>,
    span: Span,
    lets: ScopeView,
    params: Seq<Seq<char>>,
    timing: Timing,
    scope: ScopeView,
    env: Environment,
)
    requires
        agree_outside(lets, scope, params),
    ensures
        static_text(parts, span, lets, params, timing) matches Ok(Some(s)) ==> text_of(
            parts,
            span,
            scope,
            env,
        ) == Ok::<Seq<char>, ErrorView>(s),
    decreases parts,
{
    if parts.len() > 0 {
        a_known_text_is_the_text(parts.drop_last(), span, lets, params, timing, scope, env);
        match parts.last() {
            TemplatePart::Literal(_) => {},
            TemplatePart::Expr(e) => {
                a_known_value_is_the_value(
                    e,
                    lets,
                    params,
                    timing,
                    span_or(e, span),
                    scope,
                    env,
                );
            },
        }
    }
}

/// Every variable in every branch is one of `names`, and every call is one
/// of the built-in functions with a number of arguments it takes.
pub open spec fn names_resolve(e: Expr, names: Set<Seq<char>>) -> bool
    decreases e,
{
    match e {
        Expr::Str(t) => names_resolve_in_parts(t.parts@, names),
        Expr::Bool(_) => true,
        Expr::Var(name) => names.contains(name.value@),
        Expr::Call { name, args } => {
            &&& (name.value@ == "env"@ && 1 <= args@.len() <= 2) || (name.value@ == "glob"@
                && args@.len() == 1)
            &&& forall|i: int| 0 <= i < args@.len() ==> names_resolve(#[trigger] args@[i], names)
        },
        Expr::Binary { op, lhs, rhs } => names_resolve(*lhs, names) && names_resolve(*rhs, names),
        Expr::If { cond, consequence, otherwise } => names_resolve(*cond, names) && names_resolve(
            *consequence,
            names,
        ) && names_resolve(*otherwise, names),
        Expr::Field { object, field } => object.value@ == "git"@,
    }
}

pub open spec fn names_resolve_in_parts(parts: Seq<TemplatePart>, names: Set<Seq<char>>) -> bool
    decreases parts,
{
    parts.len() == 0 || (names_resolve_in_parts(parts.drop_last(), names) && match parts.last() {
        TemplatePart::Literal(_) => true,
        TemplatePart::Expr(e) => names_resolve(e, names),
    })
}

/// An expression that passes the check refers to known names alone, in the
/// branches that are not taken too.
pub proof fn every_branch_is_checked(
    e: Expr,
    lets: ScopeView,
    params: Seq<Seq<char>>,
    timing: Timing,
    fallback: Span,
)
    requires
        static_value(e, lets, params, timing, fallback) is Ok,
    ensures
        names_resolve(e, lets.values.dom() + params.to_set()),
    decreases e,
{
    match e {
        Expr::Str(t) => {
            every_part_is_checked(t.parts@, t.span, lets, params, timing);
        },
        Expr::Bool(b) => {},
        Expr::Var(name) => {},
        Expr::Call { name, args } => {
            let names = lets.values.dom() + params.to_set();
            assert(args@.len() >= 1);
            every_branch_is_checked(args@[0], lets, params, timing, span_or(args@[0], fallback));
            if args@.len() == 2 {
                every_branch_is_checked(
                    args@[1],
                    lets,
                    params,
                    timing,
                    span_or(args@[1], fallback),
                );
            }
            assert forall|i: int| 0 <= i < args@.len() implies names_resolve(
                #[trigger] args@[i],
                names,
            ) by {
                assert(i == 0 || i == 1);
            }
        },
        Expr::Binary { op, lhs, rhs } => {
            every_branch_is_checked(*lhs, lets, params, timing, span_or(*lhs, fallback));
            every_branch_is_checked(*rhs, lets, params, timing, span_or(*rhs, fallback));
        },
        Expr::If { cond, consequence, otherwise } => {
            every_branch_is_checked(*cond, lets, params, timing, span_or(*cond, fallback));
            every_branch_is_checked(
                *consequence,
                lets,
                params,
                timing,
                span_or(*consequence, fallback),
            );
            every_branch_is_checked(
                *otherwise,
                lets,
                params,
                timing,
                span_or(*otherwise, fallback),
            );
        },
        Expr::Field { object, field } => {},
    }
}

/// A template that passes the check refers to known names alone.
pub proof fn every_part_is_checked(
    parts: Seq<TemplatePart>,
    span: Span,
    lets: ScopeView,
    params: Seq<Seq<char>>,
    timing: Timing,
)
    requires
        static_text(parts, span, lets, params, timing) is Ok,
    ensures
        names_resolve_in_parts(parts, lets.values.dom() + params.to_set()),
    decreases parts,
{
    if parts.len() > 0 {
        every_part_is_checked(parts.drop_last(), span, lets, params, timing);
        match parts.last() {
            TemplatePart::Literal(_) => {},
            TemplatePart::Expr(e) => {
                every_branch_is_checked(e, lets, params, timing, span_or(e, span));
            },
        }
    }
}

/// The value of an expression that refers to no parameter does not depend on
/// what the parameters are bound to.
pub proof fn unreferenced_parameters_do_not_matter(
    e: Expr,
    params: Seq<Seq<char>>,
    a: ScopeView,
    b: ScopeView,
    env: Environment,
    fallback: Span,
)
    requires
        first_param(e, params) is None,
        agree_outside(a, b, params),
        value_of(e, a, env, fallback) is Ok,
    ensures
        value_of(e, b, env, fallback) == value_of(e, a, env, fallback),
    decreases e,
{
    match e {
        Expr::Str(t) => {
            unreferenced_parameters_do_not_matter_in_text(t.parts@, params, a, b, env, t.span);
        },
        Expr::Bool(_) => {},
        Expr::Var(name) => {
            assert(a.values.contains_key(name.value@));
        },
        Expr::Call { name, args } => {
            if args@.len() == 1 {
                assert(first_param_in_args(args@, params) is None);
                assert(first_param_in_args(args@.drop_last(), params) is None);
                assert(args@.last() == args@[0]);
                unreferenced_parameters_do_not_matter(
                    args@[0],
                    params,
                    a,
                    b,
                    env,
                    span_or(args@[0], fallback),
                );
            } else if args@.len() == 2 {
                let rest = args@.drop_last();
                assert(rest.len() == 1 && rest.last() == args@[0]);
                assert(first_param_in_args(args@, params) is None);
                assert(first_param_in_args(rest, params) is None);
                assert(first_param_in_args(rest.drop_last(), params) is None);
                assert(args@.last() == args@[1]);
                unreferenced_parameters_do_not_matter(
                    args@[0],
                    params,
                    a,
                    b,
                    env,
                    span_or(args@[0], fallback),
                );
                if value_of(args@[1], a, env, span_or(args@[1], fallback)) is Ok {
                    unreferenced_parameters_do_not_matter(
                        args@[1],
                        params,
                        a,
                        b,
                        env,
                        span_or(args@[1], fallback),
                    );
                }
            }
        },
        Expr::Binary { op, lhs, rhs } => {
            unreferenced_parameters_do_not_matter(
                *lhs,
                params,
                a,
                b,
                env,
                span_or(*lhs, fallback),
            );
            unreferenced_parameters_do_not_matter(
                *rhs,
                params,
                a,
                b,
                env,
                span_or(*rhs, fallback),
            );
        },
        Expr::If { cond, consequence, otherwise } => {
            unreferenced_parameters_do_not_matter(
                *cond,
                params,
                a,
                b,
                env,
                span_or(*cond, fallback),
            );
            if value_of(*cond, a, env, span_or(*cond, fallback)) == Ok::<ValueView, ErrorView>(
                ValueView::Bool(true),
            ) {
                unreferenced_parameters_do_not_matter(
                    *consequence,
                    params,
                    a,
                    b,
                    env,
                    span_or(*consequence, fallback),
                );
            } else {
                unreferenced_parameters_do_not_matter(
                    *otherwise,
                    params,
                    a,
                    b,
                    env,
                    span_or(*otherwise, fallback),
                );
            }
        },
        Expr::Field { object, field } => {},
    }
}

/// The text of a template that refers to no parameter does not depend on
/// what the parameters are bound to.
pub proof fn unreferenced_parameters_do_not_matter_in_text(
    parts: Seq<TemplatePart>,
    params: Seq<Seq<char>>,
    a: ScopeView,
    b: ScopeView,
    env: Environment,
    span: Span,
)
    requires
        first_param_in_parts(parts, params) is None,
        agree_outside(a, b, params),
        text_of(parts, span, a, env) is Ok,
    ensures
        text_of(parts, span, b, env) == text_of(parts, span, a, env),
    decreases parts,
{
    if parts.len() > 0 {
        unreferenced_parameters_do_not_matter_in_text(parts.drop_last(), params, a, b, env, span);
        match parts.last() {
            TemplatePart::Literal(_) => {},
            TemplatePart::Expr(e) => {
                unreferenced_parameters_do_not_matter(e, params, a, b, env, span_or(e, span));
            },
        }
    }
}

} // verus!
