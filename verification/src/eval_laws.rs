//! What expressions mean.

use vstd::prelude::*;
use crate::error::{result_view, CoreError, ErrorView};
use crate::eval::{eval_binary, glob_pattern_error, span_or, text_of, value_of};
use crate::model::{Value, ValueView};
use crate::scope::{variable, with_arguments, Environment, GitView, Scope, ScopeView};
use crate::syntax::{BinOp, Expr, Span, Spanned, StringTemplate, TemplatePart};
use crate::text::{opt_view, views};

verus! {

/// `==` of two strings is true exactly where they are one text, and of two
/// booleans where they are one value; `!=` is its negation. Operands of
/// different types cannot be compared.
pub proof fn equal_means_the_same(
    lhs: Value,
    rhs: Value,
    span: Span,
    eq: Result<Value, CoreError>,
    ne: Result<Value, CoreError>,
)
    requires
        call_ensures(eval_binary, (BinOp::Eq, lhs, rhs, span), eq),
        call_ensures(eval_binary, (BinOp::NotEq, lhs, rhs, span), ne),
    ensures
        match (lhs, rhs) {
            (Value::Str(a), Value::Str(b)) => eq == Ok::<Value, CoreError>(
                Value::Bool(a@ == b@),
            ) && ne == Ok::<Value, CoreError>(Value::Bool(a@ != b@)),
            (Value::Bool(a), Value::Bool(b)) => eq == Ok::<Value, CoreError>(Value::Bool(a == b))
                && ne == Ok::<Value, CoreError>(Value::Bool(a != b)),
            _ => eq is Err && ne is Err,
        },
        lhs@ == rhs@ ==> eq == Ok::<Value, CoreError>(Value::Bool(true)),
{
    let f = |v: Value| v@;
    if let Ok(v) = eq {
        assert(result_view(eq, f) == Ok::<ValueView, ErrorView>(v@));
    }
    if let Ok(v) = ne {
        assert(result_view(ne, f) == Ok::<ValueView, ErrorView>(v@));
    }
}

/// `+` of two strings is the one followed by the other, and takes nothing
/// else.
pub proof fn plus_is_one_text_after_the_other(
    lhs: Value,
    rhs: Value,
    span: Span,
    r: Result<Value, CoreError>,
)
    requires
        call_ensures(eval_binary, (BinOp::Concat, lhs, rhs, span), r),
    ensures
        match (lhs, rhs) {
            (Value::Str(a), Value::Str(b)) => r matches Ok(Value::Str(s)) && s@.len() == a@.len()
                + b@.len() && s@.take(a@.len() as int) == a@ && s@.skip(a@.len() as int) == b@,
            _ => r is Err,
        },
{
    let f = |v: Value| v@;
    if let Ok(v) = r {
        assert(result_view(r, f) == Ok::<ValueView, ErrorView>(v@));
        if let (Value::Str(a), Value::Str(b)) = (lhs, rhs) {
            let s = a@ + b@;
            assert(s.take(a@.len() as int) =~= a@);
            assert(s.skip(a@.len() as int) =~= b@);
        }
    }
}

/// `&&` is true where both sides are and `||` where one is; both take
/// booleans only.
pub proof fn and_needs_both_or_needs_one(
    lhs: Value,
    rhs: Value,
    span: Span,
    and: Result<Value, CoreError>,
    or: Result<Value, CoreError>,
)
    requires
        call_ensures(eval_binary, (BinOp::And, lhs, rhs, span), and),
        call_ensures(eval_binary, (BinOp::Or, lhs, rhs, span), or),
    ensures
        match (lhs, rhs) {
            (Value::Bool(a), Value::Bool(b)) => and == Ok::<Value, CoreError>(Value::Bool(a && b))
                && or == Ok::<Value, CoreError>(Value::Bool(a || b)),
            _ => and is Err && or is Err,
        },
{
    let f = |v: Value| v@;
    if let Ok(v) = and {
        assert(result_view(and, f) == Ok::<ValueView, ErrorView>(v@));
    }
    if let Ok(v) = or {
        assert(result_view(or, f) == Ok::<ValueView, ErrorView>(v@));
    }
}

/// An operation is evaluated from the values of its two sides, the left one
/// first; where a side fails the whole fails with its error.
pub proof fn an_operation_takes_both_sides(
    op: BinOp,
    lhs: Box<Expr>,
    rhs: Box<Expr>,
    scope: ScopeView,
    env: Environment,
    fallback: Span,
)
    ensures
        ({
            let l = value_of(*lhs, scope, env, span_or(*lhs, fallback));
            let r = value_of(*rhs, scope, env, span_or(*rhs, fallback));
            let whole = value_of(Expr::Binary { op, lhs, rhs }, scope, env, fallback);
            &&& l matches Err(x) ==> whole == Err::<ValueView, ErrorView>(x)
            &&& l is Ok && r is Err ==> whole == r
            &&& (l matches Ok(ValueView::Str(a)) && r matches Ok(ValueView::Str(b))) ==> match op {
                BinOp::Concat => whole == Ok::<ValueView, ErrorView>(
                    ValueView::Str(l->Ok_0->Str_0 + r->Ok_0->Str_0),
                ),
                BinOp::Eq => whole == Ok::<ValueView, ErrorView>(
                    ValueView::Bool(l->Ok_0->Str_0 == r->Ok_0->Str_0),
                ),
                BinOp::NotEq => whole == Ok::<ValueView, ErrorView>(
                    ValueView::Bool(l->Ok_0->Str_0 != r->Ok_0->Str_0),
                ),
                _ => whole is Err,
            }
            &&& (l matches Ok(ValueView::Bool(a)) && r matches Ok(ValueView::Bool(b))) ==> match op {
                BinOp::Concat => whole is Err,
                BinOp::Eq => whole == Ok::<ValueView, ErrorView>(
                    ValueView::Bool(l->Ok_0->Bool_0 == r->Ok_0->Bool_0),
                ),
                BinOp::NotEq => whole == Ok::<ValueView, ErrorView>(
                    ValueView::Bool(l->Ok_0->Bool_0 != r->Ok_0->Bool_0),
                ),
                BinOp::And => whole == Ok::<ValueView, ErrorView>(
                    ValueView::Bool(l->Ok_0->Bool_0 && r->Ok_0->Bool_0),
                ),
                BinOp::Or => whole == Ok::<ValueView, ErrorView>(
                    ValueView::Bool(l->Ok_0->Bool_0 || r->Ok_0->Bool_0),
                ),
            }
        }),
{
}

/// `if` has the value of the branch that its condition picks; the other
/// branch does not matter. A condition that is no boolean is refused.
pub proof fn if_picks_a_branch(
    cond: Box<Expr>,
    consequence: Box<Expr>,
    otherwise: Box<Expr>,
    scope: ScopeView,
    env: Environment,
    fallback: Span,
)
    ensures
        ({
            let c = value_of(*cond, scope, env, span_or(*cond, fallback));
            let a = value_of(*consequence, scope, env, span_or(*consequence, fallback));
            let b = value_of(*otherwise, scope, env, span_or(*otherwise, fallback));
            let whole = value_of(
                Expr::If { cond, consequence, otherwise },
                scope,
                env,
                fallback,
            );
            &&& c == Ok::<ValueView, ErrorView>(ValueView::Bool(true)) ==> whole == a
            &&& c == Ok::<ValueView, ErrorView>(ValueView::Bool(false)) ==> whole == b
            &&& (c matches Ok(ValueView::Str(_))) ==> whole is Err
            &&& c matches Err(x) ==> whole == Err::<ValueView, ErrorView>(x)
        }),
{
}

/// A name has the value that the scope gives it, and none where the scope has
/// none.
pub proof fn a_name_has_the_value_in_scope(
    name: Spanned<String>,
    scope: ScopeView,
    env: Environment,
    fallback: Span,
)
    ensures
        ({
            let r = value_of(Expr::Var(name), scope, env, fallback);
            &&& r is Ok <==> scope.values.contains_key(name.value@)
            &&& r matches Ok(v) ==> v == scope.values[name.value@]
        }),
        forall|b: bool|
            #[trigger] value_of(Expr::Bool(b), scope, env, fallback) == Ok::<ValueView, ErrorView>(
                ValueView::Bool(b),
            ),
{
}

/// `env(key)` has the value of the variable, whether or not there is a
/// default; where the variable is not set it has the default's value, and
/// without a default it fails. The key has to be a string.
pub proof fn env_reads_the_variable(
    name: Spanned<String>,
    args: Vec<Expr>,
    scope: ScopeView,
    env: Environment,
    fallback: Span,
)
    requires
        name.value@ == "env"@,
    ensures
        ({
            let whole = value_of(Expr::Call { name, args }, scope, env, fallback);
            let key = value_of(args@[0], scope, env, span_or(args@[0], fallback));
            &&& args@.len() == 0 || args@.len() > 2 ==> whole is Err
            &&& 1 <= args@.len() <= 2 ==> {
                &&& key is Err ==> whole == key
                &&& (key matches Ok(ValueView::Bool(_))) ==> whole is Err
                &&& key matches Ok(ValueView::Str(k)) ==> match env.value(k) {
                    Some(text) => whole == Ok::<ValueView, ErrorView>(ValueView::Str(text)),
                    None => if args@.len() == 2 {
                        whole == value_of(args@[1], scope, env, span_or(args@[1], fallback))
                    } else {
                        whole is Err
                    },
                }
            }
        }),
{
}

/// A variable has the value that it is first given, and none where it is
/// given none.
pub proof fn a_variable_is_what_is_set(env: &Environment, name: &str, r: Option<String>)
    requires
        call_ensures(Environment::var, (env, name), r),
    ensures
        forall|i: int|
            0 <= i < env.variables@.len() && (#[trigger] env.variables@[i]).0@ == name@ && (forall|
                j: int,
            |
                0 <= j < i ==> (#[trigger] env.variables@[j]).0@ != name@) ==> opt_view(r) == Some(
                env.variables@[i].1@,
            ),
        (forall|i: int|
            0 <= i < env.variables@.len() ==> (#[trigger] env.variables@[i]).0@ != name@) ==> r
            is None,
{
    first_variable(env.variables@, name@);
}

proof fn first_variable(all: Seq<(String, String)>, name: Seq<char>)
    ensures
        forall|i: int|
            0 <= i < all.len() && (#[trigger] all[i]).0@ == name && (forall|j: int|
                0 <= j < i ==> (#[trigger] all[j]).0@ != name) ==> variable(all, name) == Some(
                all[i].1@,
            ),
        (forall|i: int| 0 <= i < all.len() ==> (#[trigger] all[i]).0@ != name) ==> variable(
            all,
            name,
        ) is None,
    decreases all.len(),
{
    if all.len() > 0 {
        let rest = all.drop_first();
        first_variable(rest, name);
        assert forall|i: int|
            0 <= i < all.len() && (#[trigger] all[i]).0@ == name && (forall|j: int|
                0 <= j < i ==> (#[trigger] all[j]).0@ != name) implies variable(all, name) == Some(
            all[i].1@,
        ) by {
            if i > 0 {
                assert(all[0].0@ != name);
                assert(rest[i - 1] == all[i]);
                assert forall|j: int| 0 <= j < i - 1 implies (#[trigger] rest[j]).0@ != name by {
                    assert(rest[j] == all[j + 1]);
                }
            }
        }
        if forall|i: int| 0 <= i < all.len() ==> (#[trigger] all[i]).0@ != name {
            assert(all[0].0@ != name);
            assert forall|i: int| 0 <= i < rest.len() implies (#[trigger] rest[i]).0@ != name by {
                assert(rest[i] == all[i + 1]);
            }
        }
    }
}

/// `glob(pattern)` is the pattern itself where it compiles, and an error
/// where it does not. There are no functions but `env` and `glob`.
pub proof fn glob_is_its_pattern(
    name: Spanned<String>,
    args: Vec<Expr>,
    scope: ScopeView,
    env: Environment,
    fallback: Span,
)
    requires
        name.value@ != "env"@,
    ensures
        ({
            let whole = value_of(Expr::Call { name, args }, scope, env, fallback);
            let pattern = value_of(args@[0], scope, env, span_or(args@[0], fallback));
            &&& whole matches Ok(v) ==> name.value@ == "glob"@ && args@.len() == 1 && pattern
                == whole && (v matches ValueView::Str(p) && glob_pattern_error(p) is None)
            &&& name.value@ == "glob"@ && args@.len() == 1 && (pattern matches Ok(
                ValueView::Str(p),
            ) && glob_pattern_error(p) is None) ==> whole == pattern
        }),
{
}

/// `git` has four fields, each of which is what git said of `HEAD`; nothing
/// else has fields.
pub proof fn git_fields_are_what_git_said(
    object: Spanned<String>,
    field: Spanned<String>,
    scope: ScopeView,
    env: Environment,
    fallback: Span,
)
    ensures
        ({
            let r = value_of(Expr::Field { object, field }, scope, env, fallback);
            let name = field.value@;
            &&& object.value@ != "git"@ ==> r is Err
            &&& !(scope.git is Head) ==> r is Err
            &&& object.value@ == "git"@ ==> (scope.git matches GitView::Head(head) ==> {
                &&& name == "branch"@ ==> r == Ok::<ValueView, ErrorView>(
                    ValueView::Str(head.branch),
                )
                &&& name == "sha"@ ==> r == Ok::<ValueView, ErrorView>(ValueView::Str(head.sha))
                &&& name == "short_sha"@ ==> r == Ok::<ValueView, ErrorView>(
                    ValueView::Str(head.short_sha),
                )
                &&& name == "dirty"@ ==> r == Ok::<ValueView, ErrorView>(
                    ValueView::Bool(head.dirty),
                )
                &&& name != "branch"@ && name != "sha"@ && name != "short_sha"@ && name != "dirty"@
                    ==> r is Err
            })
        }),
{
    reveal_strlit("branch");
    reveal_strlit("sha");
    reveal_strlit("short_sha");
    reveal_strlit("dirty");
    assert("branch"@.len() != "sha"@.len());
    assert("short_sha"@.len() != "dirty"@.len());
    assert("branch"@.len() != "short_sha"@.len());
    assert("branch"@.len() != "dirty"@.len());
    assert("sha"@.len() != "short_sha"@.len());
    assert("sha"@.len() != "dirty"@.len());
}

/// A template's text is that of its parts, one after the other: a literal as
/// it is, an expression as its value shows, a string as it is and a boolean
/// as `true` or `false`. It has one exactly where each part has one.
pub proof fn a_template_is_its_parts(
    a: Seq<TemplatePart>,
    b: Seq<TemplatePart>,
    span: Span,
    scope: ScopeView,
    env: Environment,
)
    ensures
        text_of(Seq::<TemplatePart>::empty(), span, scope, env) == Ok::<Seq<char>, ErrorView>(
            Seq::empty(),
        ),
        match (text_of(a, span, scope, env), text_of(b, span, scope, env)) {
            (Ok(x), Ok(y)) => text_of(a + b, span, scope, env) == Ok::<Seq<char>, ErrorView>(x + y),
            (Err(x), _) => text_of(a + b, span, scope, env) == Err::<Seq<char>, ErrorView>(x),
            (Ok(_), Err(x)) => text_of(a + b, span, scope, env) == Err::<Seq<char>, ErrorView>(x),
        },
    decreases b.len(),
{
    if b.len() == 0 {
        assert(a + b =~= a);
        if let Ok(x) = text_of(a, span, scope, env) {
            assert(x + Seq::<char>::empty() =~= x);
        }
    } else {
        let front = b.drop_last();
        a_template_is_its_parts(a, front, span, scope, env);
        assert((a + b).drop_last() =~= a + front);
        assert((a + b).last() == b.last());
        if let (Ok(x), Ok(y)) = (
            text_of(a, span, scope, env),
            text_of(front, span, scope, env),
        ) {
            match b.last() {
                TemplatePart::Literal(s) => {
                    assert((x + y) + s@ =~= x + (y + s@));
                },
                TemplatePart::Expr(e) => {
                    if let Ok(v) = value_of(e, scope, env, span_or(e, span)) {
                        assert((x + y) + v.display() =~= x + (y + v.display()));
                    }
                },
            }
        }
    }
}

/// The text of one part.
pub proof fn a_part_is_a_literal_or_a_value(
    part: TemplatePart,
    span: Span,
    scope: ScopeView,
    env: Environment,
)
    ensures
        match part {
            TemplatePart::Literal(s) => text_of(seq![part], span, scope, env) == Ok::<
                Seq<char>,
                ErrorView,
            >(s@),
            TemplatePart::Expr(e) => match value_of(e, scope, env, span_or(e, span)) {
                Ok(ValueView::Str(s)) => text_of(seq![part], span, scope, env) == Ok::<
                    Seq<char>,
                    ErrorView,
                >(s),
                Ok(ValueView::Bool(b)) => text_of(seq![part], span, scope, env) == Ok::<
                    Seq<char>,
                    ErrorView,
                >(
                    if b {
                        "true"@
                    } else {
                        "false"@
                    },
                ),
                Err(x) => text_of(seq![part], span, scope, env) == Err::<Seq<char>, ErrorView>(x),
            },
        },
{
    reveal_with_fuel(text_of, 3);
    let all = seq![part];
    let none = Seq::<TemplatePart>::empty();
    assert(all.drop_last() =~= none);
    assert(text_of(none, span, scope, env) == Ok::<Seq<char>, ErrorView>(Seq::empty()));
    assert(all.last() == part);
    match part {
        TemplatePart::Literal(s) => {
            assert(Seq::<char>::empty() + s@ =~= s@);
        },
        TemplatePart::Expr(e) => {
            if let Ok(v) = value_of(e, scope, env, span_or(e, span)) {
                assert(Seq::<char>::empty() + v.display() =~= v.display());
            }
        },
    }
}

/// A string literal has the text of its parts as its value.
pub proof fn a_string_is_its_text(
    t: StringTemplate,
    scope: ScopeView,
    env: Environment,
    fallback: Span,
)
    ensures
        match text_of(t.parts@, t.span, scope, env) {
            Ok(s) => value_of(Expr::Str(t), scope, env, fallback) == Ok::<ValueView, ErrorView>(
                ValueView::Str(s),
            ),
            Err(x) => value_of(Expr::Str(t), scope, env, fallback) == Err::<ValueView, ErrorView>(x),
        },
{
}

/// With parameters bound each has its argument as its value, and every other
/// name the value that it had. Parameters without an argument are not bound.
pub proof fn a_parameter_is_its_argument(
    scope: &Scope,
    params: &Vec<String>,
    args: &Vec<String>,
    r: Scope,
)
    requires
        call_ensures(Scope::with_params, (scope, params, args), r),
        forall|i: int, j: int|
            0 <= i < j < params@.len() ==> (#[trigger] params@[i])@ != (#[trigger] params@[j])@,
    ensures
        r@.git == scope@.git,
        forall|i: int|
            0 <= i < params@.len() && i < args@.len() ==> r@.values.contains_key(
                (#[trigger] params@[i])@,
            ) && r@.values[params@[i]@] == ValueView::Str(args@[i]@),
        forall|name: Seq<char>|
            (forall|i: int|
                0 <= i < params@.len() && i < args@.len() ==> (#[trigger] params@[i])@ != name)
                ==> {
                &&& r@.values.contains_key(name) <==> #[trigger] scope@.values.contains_key(name)
                &&& scope@.values.contains_key(name) ==> r@.values[name] == scope@.values[name]
            },
{
    let p = views(params@);
    let a = views(args@);
    assert forall|i: int, j: int| 0 <= i < j < p.len() implies p[i] != p[j] by {
        assert(params@[i]@ != params@[j]@);
    }
    bound_one_by_one(scope@.values, p, a);
    assert forall|i: int| 0 <= i < params@.len() && i < args@.len() implies r@.values.contains_key(
        (#[trigger] params@[i])@,
    ) && r@.values[params@[i]@] == ValueView::Str(args@[i]@) by {
        assert(p[i] == params@[i]@ && a[i] == args@[i]@);
    }
    assert forall|name: Seq<char>|
        (forall|i: int|
            0 <= i < params@.len() && i < args@.len() ==> (#[trigger] params@[i])@ != name) implies {
        &&& r@.values.contains_key(name) <==> #[trigger] scope@.values.contains_key(name)
        &&& scope@.values.contains_key(name) ==> r@.values[name] == scope@.values[name]
    } by {
        assert forall|i: int| 0 <= i < p.len() && i < a.len() implies #[trigger] p[i] != name by {
            assert(params@[i]@ != name);
        }
    }
}

proof fn bound_one_by_one(
    values: Map<Seq<char>, ValueView>,
    params: Seq<Seq<char>>,
    args: Seq<Seq<char>>,
)
    requires
        forall|i: int, j: int| 0 <= i < j < params.len() ==> params[i] != params[j],
    ensures
        ({
            let all = with_arguments(values, params, args);
            &&& forall|i: int|
                0 <= i < params.len() && i < args.len() ==> all.contains_key(#[trigger] params[i])
                    && all[params[i]] == ValueView::Str(args[i])
            &&& forall|name: Seq<char>|
                (forall|i: int|
                    0 <= i < params.len() && i < args.len() ==> #[trigger] params[i] != name) ==> {
                    &&& all.contains_key(name) <==> #[trigger] values.contains_key(name)
                    &&& values.contains_key(name) ==> all[name] == values[name]
                }
        }),
    decreases params.len(),
{
    if params.len() > 0 {
        let front = params.drop_last();
        assert forall|i: int, j: int| 0 <= i < j < front.len() implies front[i] != front[j] by {
            assert(params[i] != params[j]);
        }
        bound_one_by_one(values, front, args);
        let before = with_arguments(values, front, args);
        let all = with_arguments(values, params, args);
        let n = params.len() - 1;
        assert forall|i: int| 0 <= i < params.len() && i < args.len() implies all.contains_key(
            #[trigger] params[i],
        ) && all[params[i]] == ValueView::Str(args[i]) by {
            if i < n {
                assert(front[i] == params[i]);
                assert(params[i] != params[n]);
            }
        }
        assert forall|name: Seq<char>|
            (forall|i: int|
                0 <= i < params.len() && i < args.len() ==> #[trigger] params[i] != name) implies {
            &&& all.contains_key(name) <==> #[trigger] values.contains_key(name)
            &&& values.contains_key(name) ==> all[name] == values[name]
        } by {
            assert forall|i: int| 0 <= i < front.len() && i < args.len() implies #[trigger] front[i]
                != name by {
                assert(params[i] != name);
            }
            if n < args.len() {
                assert(params[n] != name);
            }
        }
    }
}

/// What was last given to a name is found, every other name is left alone,
/// and a scope finds exactly what it was given.
pub proof fn a_scope_finds_what_it_was_given(
    scope: Scope,
    name: String,
    value: Value,
    r: Scope,
    asked: &str,
    found: Option<&Value>,
)
    requires
        call_ensures(Scope::insert, (scope, name, value), r),
        call_ensures(Scope::get, (&r, asked), found),
    ensures
        asked@ == name@ ==> (found matches Some(v) && v@ == value@),
        asked@ != name@ ==> (found is Some <==> scope@.values.contains_key(asked@)),
        asked@ != name@ ==> (found matches Some(v) ==> v@ == scope@.values[asked@]),
        r@.git == scope@.git,
{
}

} // verus!
