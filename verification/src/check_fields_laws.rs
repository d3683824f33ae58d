//! What checking an expression finds out about it before it is evaluated.

use vstd::prelude::*;
use crate::check::{
    first_param, first_param_in_args, first_param_in_parts, load_time_text, static_text,
    static_value, template_verdict, StaticView, Timing,
};
use crate::check_laws::{every_part_is_checked, names_resolve, names_resolve_in_parts};
use crate::error::ErrorView;
use crate::eval::{span_or, text_of, value_of};
use crate::model::ValueView;
use crate::scope::{Environment, ScopeView};
use crate::syntax::{Expr, Span, Spanned, StringTemplate, TemplatePart};

verus! {

/// Nothing in the expression asks for an environment variable.
pub open spec fn asks_for_no_variable(e: Expr) -> bool
    decreases e,
{
    match e {
        Expr::Str(t) => parts_ask_for_no_variable(t.parts@),
        Expr::Bool(_) => true,
        Expr::Var(_) => true,
        Expr::Call { name, args } => name.value@ != "env"@ && forall|i: int|
            0 <= i < args@.len() ==> asks_for_no_variable(#[trigger] args@[i]),
        Expr::Binary { op, lhs, rhs } => asks_for_no_variable(*lhs) && asks_for_no_variable(*rhs),
        Expr::If { cond, consequence, otherwise } => asks_for_no_variable(*cond)
            && asks_for_no_variable(*consequence) && asks_for_no_variable(*otherwise),
        Expr::Field { object, field } => true,
    }
}

pub open spec fn parts_ask_for_no_variable(parts: Seq<TemplatePart>) -> bool
    decreases parts,
{
    parts.len() == 0 || (parts_ask_for_no_variable(parts.drop_last()) && match parts.last() {
        TemplatePart::Literal(_) => true,
        TemplatePart::Expr(e) => asks_for_no_variable(e),
    })
}

/// What depends neither on parameters nor on the environment is known when it
/// is checked: a check that passes has found its value, and whatever fails to
/// evaluate fails its check.
pub proof fn a_check_finds_what_can_be_known(
    e: Expr,
    lets: ScopeView,
    timing: Timing,
    env: Environment,
    fallback: Span,
)
    requires
        asks_for_no_variable(e),
    ensures
        static_value(e, lets, Seq::empty(), timing, fallback) matches Ok(found) ==> (
        found matches StaticView::Known(v) && value_of(e, lets, env, fallback) == Ok::<
            ValueView,
            ErrorView,
        >(v)),
        value_of(e, lets, env, fallback) is Err ==> static_value(
            e,
            lets,
            Seq::empty(),
            timing,
            fallback,
        ) is Err,
    decreases e,
{
    match e {
        Expr::Str(t) => {
            a_check_finds_the_text(t.parts@, t.span, lets, timing, env);
        },
        Expr::Bool(_) => {},
        Expr::Var(_) => {},
        Expr::Call { name, args } => {
            if args@.len() == 1 {
                assert(asks_for_no_variable(args@[0]));
                a_check_finds_what_can_be_known(
                    args@[0],
                    lets,
                    timing,
                    env,
                    span_or(args@[0], fallback),
                );
            }
        },
        Expr::Binary { op, lhs, rhs } => {
            a_check_finds_what_can_be_known(*lhs, lets, timing, env, span_or(*lhs, fallback));
            a_check_finds_what_can_be_known(*rhs, lets, timing, env, span_or(*rhs, fallback));
        },
        Expr::If { cond, consequence, otherwise } => {
            a_check_finds_what_can_be_known(*cond, lets, timing, env, span_or(*cond, fallback));
            a_check_finds_what_can_be_known(
                *consequence,
                lets,
                timing,
                env,
                span_or(*consequence, fallback),
            );
            a_check_finds_what_can_be_known(
                *otherwise,
                lets,
                timing,
                env,
                span_or(*otherwise, fallback),
            );
        },
        Expr::Field { object, field } => {},
    }
}

/// So it is with a template.
pub proof fn a_check_finds_the_text(
    parts: Seq<TemplatePart>,
    span: Span,
    lets: ScopeView,
    timing: Timing,
    env: Environment,
)
    requires
        parts_ask_for_no_variable(parts),
    ensures
        static_text(parts, span, lets, Seq::empty(), timing) matches Ok(found) ==> (
        found matches Some(s) && text_of(parts, span, lets, env) == Ok::<Seq<char>, ErrorView>(s)),
        text_of(parts, span, lets, env) is Err ==> static_text(
            parts,
            span,
            lets,
            Seq::empty(),
            timing,
        ) is Err,
    decreases parts,
{
    if parts.len() > 0 {
        a_check_finds_the_text(parts.drop_last(), span, lets, timing, env);
        if let TemplatePart::Expr(e) = parts.last() {
            a_check_finds_what_can_be_known(e, lets, timing, env, span_or(e, span));
        }
    }
}

/// An environment variable without a default cannot be read while loading,
/// and can be when the beam runs.
pub proof fn loading_reads_no_variable_without_a_default(
    name: Spanned<String>,
    args: Vec<Expr>,
    lets: ScopeView,
    params: Seq<Seq<char>>,
    fallback: Span,
)
    requires
        name.value@ == "env"@,
        args@.len() == 1,
    ensures
        static_value(
            Expr::Call { name, args },
            lets,
            params,
            Timing::Load,
            fallback,
        ) is Err,
        static_value(
            Expr::Call { name, args },
            lets,
            params,
            Timing::Schedule,
            fallback,
        ) is Ok <==> static_value(
            args@[0],
            lets,
            params,
            Timing::Schedule,
            span_or(args@[0], fallback),
        ) is Ok,
{
}

/// The names that are no parameters.
pub open spec fn no_parameters(params: Seq<Seq<char>>) -> Set<Seq<char>> {
    Set::new(|name: Seq<char>| !params.contains(name))
}

proof fn args_without_parameters(args: Seq<Expr>, params: Seq<Seq<char>>, i: int)
    requires
        first_param_in_args(args, params) is None,
        0 <= i < args.len(),
    ensures
        first_param(args[i], params) is None,
    decreases args.len(),
{
    if i < args.len() - 1 {
        args_without_parameters(args.drop_last(), params, i);
        assert(args.drop_last()[i] == args[i]);
    }
}

proof fn none_in_args(args: Seq<Expr>, params: Seq<Seq<char>>)
    requires
        forall|i: int| 0 <= i < args.len() ==> first_param(#[trigger] args[i], params) is None,
    ensures
        first_param_in_args(args, params) is None,
    decreases args.len(),
{
    if args.len() > 0 {
        let front = args.drop_last();
        assert forall|i: int| 0 <= i < front.len() implies first_param(
            #[trigger] front[i],
            params,
        ) is None by {
            assert(front[i] == args[i]);
        }
        none_in_args(front, params);
        assert(first_param(args[args.len() - 1], params) is None);
    }
}

/// An expression that passed its check and in which no parameter was found
/// names none: all its names are among the others.
pub proof fn where_no_parameter_is_found_none_is_named(
    e: Expr,
    params: Seq<Seq<char>>,
    names: Set<Seq<char>>,
)
    requires
        first_param(e, params) is None,
        names_resolve(e, names),
    ensures
        names_resolve(e, names.intersect(no_parameters(params))),
    decreases e,
{
    let left = names.intersect(no_parameters(params));
    match e {
        Expr::Str(t) => {
            where_no_parameter_is_found_none_is_named_in_text(t.parts@, params, names);
        },
        Expr::Bool(_) => {},
        Expr::Var(_) => {},
        Expr::Call { name, args } => {
            assert forall|i: int| 0 <= i < args@.len() implies names_resolve(
                #[trigger] args@[i],
                left,
            ) by {
                args_without_parameters(args@, params, i);
                assert(names_resolve(args@[i], names));
                where_no_parameter_is_found_none_is_named(args@[i], params, names);
            }
        },
        Expr::Binary { op, lhs, rhs } => {
            where_no_parameter_is_found_none_is_named(*lhs, params, names);
            where_no_parameter_is_found_none_is_named(*rhs, params, names);
        },
        Expr::If { cond, consequence, otherwise } => {
            where_no_parameter_is_found_none_is_named(*cond, params, names);
            where_no_parameter_is_found_none_is_named(*consequence, params, names);
            where_no_parameter_is_found_none_is_named(*otherwise, params, names);
        },
        Expr::Field { object, field } => {},
    }
}

/// So it is with a template.
pub proof fn where_no_parameter_is_found_none_is_named_in_text(
    parts: Seq<TemplatePart>,
    params: Seq<Seq<char>>,
    names: Set<Seq<char>>,
)
    requires
        first_param_in_parts(parts, params) is None,
        names_resolve_in_parts(parts, names),
    ensures
        names_resolve_in_parts(parts, names.intersect(no_parameters(params))),
    decreases parts,
{
    if parts.len() > 0 {
        where_no_parameter_is_found_none_is_named_in_text(parts.drop_last(), params, names);
        if let TemplatePart::Expr(e) = parts.last() {
            where_no_parameter_is_found_none_is_named(e, params, names);
        }
    }
}

/// An expression that names no parameter is not refused for one.
pub proof fn what_names_no_parameter_is_not_refused_for_one(e: Expr, params: Seq<Seq<char>>)
    requires
        names_resolve(e, no_parameters(params)),
    ensures
        first_param(e, params) is None,
    decreases e,
{
    match e {
        Expr::Str(t) => {
            text_that_names_no_parameter_is_not_refused_for_one(t.parts@, params);
        },
        Expr::Bool(_) => {},
        Expr::Var(_) => {},
        Expr::Call { name, args } => {
            assert forall|i: int| 0 <= i < args@.len() implies first_param(
                #[trigger] args@[i],
                params,
            ) is None by {
                assert(names_resolve(args@[i], no_parameters(params)));
                what_names_no_parameter_is_not_refused_for_one(args@[i], params);
            }
            none_in_args(args@, params);
        },
        Expr::Binary { op, lhs, rhs } => {
            what_names_no_parameter_is_not_refused_for_one(*lhs, params);
            what_names_no_parameter_is_not_refused_for_one(*rhs, params);
        },
        Expr::If { cond, consequence, otherwise } => {
            what_names_no_parameter_is_not_refused_for_one(*cond, params);
            what_names_no_parameter_is_not_refused_for_one(*consequence, params);
            what_names_no_parameter_is_not_refused_for_one(*otherwise, params);
        },
        Expr::Field { object, field } => {},
    }
}

/// So it is with a template.
pub proof fn text_that_names_no_parameter_is_not_refused_for_one(
    parts: Seq<TemplatePart>,
    params: Seq<Seq<char>>,
)
    requires
        names_resolve_in_parts(parts, no_parameters(params)),
    ensures
        first_param_in_parts(parts, params) is None,
    decreases parts,
{
    if parts.len() > 0 {
        text_that_names_no_parameter_is_not_refused_for_one(parts.drop_last(), params);
        if let TemplatePart::Expr(e) = parts.last() {
            what_names_no_parameter_is_not_refused_for_one(e, params);
        }
    }
}

/// A field that is rendered while loading has the text of its template; it
/// names no parameter, and nothing but what the file's `let`s give.
pub proof fn a_loaded_field_names_lets_only(
    field: Seq<char>,
    template: StringTemplate,
    lets: ScopeView,
    params: Seq<Seq<char>>,
    env: Environment,
)
    requires
        load_time_text(field, template, lets, params, env) is Ok,
    ensures
        load_time_text(field, template, lets, params, env) == text_of(
            template.parts@,
            template.span,
            lets,
            env,
        ),
        names_resolve_in_parts(
            template.parts@,
            lets.values.dom().intersect(no_parameters(params)),
        ),
{
    let none = Seq::<Seq<char>>::empty();
    every_part_is_checked(template.parts@, template.span, lets, none, Timing::Load);
    assert(lets.values.dom() + none.to_set() =~= lets.values.dom());
    where_no_parameter_is_found_none_is_named_in_text(
        template.parts@,
        params,
        lets.values.dom(),
    );
}

/// A command names nothing but parameters and `let`s, in every branch.
pub proof fn a_command_names_parameters_and_lets_only(
    template: StringTemplate,
    lets: ScopeView,
    params: Seq<Seq<char>>,
    timing: Timing,
)
    requires
        template_verdict(template, lets, params, timing) is Ok,
    ensures
        names_resolve_in_parts(template.parts@, lets.values.dom() + params.to_set()),
{
    every_part_is_checked(template.parts@, template.span, lets, params, timing);
}

} // verus!
