//! Expression evaluation, template rendering, and the static check that
//! validates every branch of an expression without evaluating it.
//!
//! A beam's `description`, `inputs`, `outputs`, `cwd` and executor options
//! are rendered while the file is loaded, from the file's `let`s alone: a
//! beam's parameter is refused there even where a `let` of the same name
//! exists. `run` and `env` stay templates until the beam runs; while loading
//! they are only checked.
//!
//! The check walks every branch of every `if`, so that a mistake in a branch
//! that is not taken does not depend on the machine a file is loaded on. It
//! never reads the environment.

use vstd::prelude::*;
use vstd::string::*;
use crate::error::{error_at, result_view, CoreError, ErrorView};
use crate::git::{GitError, GitHead};
use crate::model::{Value, ValueView};
use crate::scope::{Environment, GitView, Scope, ScopeView};
use crate::suggest::{names_of, suggest, suggestion};
use crate::syntax::{BinOp, Expr, Span, Spanned, StringTemplate, TemplatePart};
use crate::text::{decimal, decimal_text, same_text, text3, text5};

verus! {

/// What `glob::Pattern::new` says of a pattern: nothing where it compiles,
/// else the text of the error.
pub uninterp spec fn glob_pattern_error(pattern: Seq<char>) -> Option<Seq<char>>;

/// Compiles `pattern` with `glob::Pattern::new`. The verdict, and the text of
/// the error, depend on the pattern alone; which patterns compile is left to
/// that function.
#[verifier::external_body]
fn glob_pattern(pattern: &str) -> (r: Result<(), String>)
    ensures
        match r {
            Ok(()) => glob_pattern_error(pattern@) is None,
            Err(text) => glob_pattern_error(pattern@) == Some(text@),
        },
{
    match glob::Pattern::new(pattern) {
        Ok(_) => Ok(()),
        Err(error) => Err(error.to_string()),
    }
}

/// The most precise place known of an expression.
pub open spec fn expr_span_of(e: Expr) -> Option<Span> {
    match e {
        Expr::Str(t) => Some(t.span),
        Expr::Var(name) => Some(name.span),
        Expr::Call { name, args } => Some(name.span),
        Expr::Bool(_) => None,
        Expr::Binary { op, lhs, rhs } => None,
        Expr::If { cond, consequence, otherwise } => None,
        Expr::Field { object, field } => Some(
            (Span { start: object.span.start, end: field.span.end }),
        ),
    }
}

/// The place of an expression, or `fallback` where it has none of its own.
pub open spec fn span_or(e: Expr, fallback: Span) -> Span {
    match expr_span_of(e) {
        Some(span) => span,
        None => fallback,
    }
}

/// The error with a "did you mean" help, where a candidate is close enough.
pub open spec fn did_you_mean(
    error: ErrorView,
    name: Seq<char>,
    candidates: Set<Seq<char>>,
) -> ErrorView {
    match suggestion(name, candidates) {
        Some(c) => error.with_help("did you mean `"@ + c + "`?"@),
        None => error,
    }
}

pub open spec fn unknown_variable(
    name: Spanned<String>,
    candidates: Set<Seq<char>>,
) -> ErrorView {
    did_you_mean(
        error_at("unknown variable `"@ + name.value@ + "`"@, name.span),
        name.value@,
        candidates,
    )
}

/// The functions that an expression can call.
pub open spec fn builtin_functions() -> Set<Seq<char>> {
    set!["env"@, "glob"@]
}

pub open spec fn unknown_function(name: Spanned<String>) -> ErrorView {
    did_you_mean(
        error_at("unknown function `"@ + name.value@ + "`"@, name.span),
        name.value@,
        builtin_functions(),
    )
}

/// A call with the wrong number of arguments; `min` to `max` are right.
pub open spec fn wrong_arity(name: Spanned<String>, min: nat, max: nat, found: nat) -> ErrorView {
    let expected = if min == max {
        decimal(min)
    } else {
        decimal(min) + " to "@ + decimal(max)
    };
    error_at(
        "`"@ + name.value@ + "` expects "@ + expected + " argument(s), found "@ + decimal(found),
        name.span,
    )
}

/// The value as a string, where it is one.
pub open spec fn as_string(fn_name: Seq<char>, value: ValueView, span: Span) -> Result<
    Seq<char>,
    ErrorView,
> {
    match value {
        ValueView::Str(s) => Ok(s),
        ValueView::Bool(b) => Err(
            error_at(
                "argument to `"@ + fn_name + "` must be a string, found "@ + value.kind_name(),
                span,
            ),
        ),
    }
}

/// The pattern itself, where it compiles.
pub open spec fn valid_glob(pattern: Seq<char>, span: Span) -> Result<ValueView, ErrorView> {
    match glob_pattern_error(pattern) {
        None => Ok(ValueView::Str(pattern)),
        Some(text) => Err(
            error_at("invalid glob pattern `"@ + pattern + "`: "@ + text, span),
        ),
    }
}

pub open spec fn not_a_condition(value: ValueView, span: Span) -> ErrorView {
    error_at("expected a boolean condition for `if`, found "@ + value.kind_name(), span)
}

/// The value of `lhs op rhs`.
pub open spec fn binary(op: BinOp, lhs: ValueView, rhs: ValueView, span: Span) -> Result<
    ValueView,
    ErrorView,
> {
    let kinds = lhs.kind_name() + " and "@ + rhs.kind_name();
    match (op, lhs, rhs) {
        (BinOp::Concat, ValueView::Str(a), ValueView::Str(b)) => Ok(ValueView::Str(a + b)),
        (BinOp::Concat, _, _) => Err(error_at("`+` requires two strings, found "@ + kinds, span)),
        (BinOp::Eq, ValueView::Str(a), ValueView::Str(b)) => Ok(ValueView::Bool(a == b)),
        (BinOp::Eq, ValueView::Bool(a), ValueView::Bool(b)) => Ok(ValueView::Bool(a == b)),
        (BinOp::NotEq, ValueView::Str(a), ValueView::Str(b)) => Ok(ValueView::Bool(a != b)),
        (BinOp::NotEq, ValueView::Bool(a), ValueView::Bool(b)) => Ok(ValueView::Bool(a != b)),
        (BinOp::Eq, _, _) | (BinOp::NotEq, _, _) => Err(
            error_at("`==`/`!=` requires operands of the same type, found "@ + kinds, span),
        ),
        (BinOp::And, ValueView::Bool(a), ValueView::Bool(b)) => Ok(ValueView::Bool(a && b)),
        (BinOp::Or, ValueView::Bool(a), ValueView::Bool(b)) => Ok(ValueView::Bool(a || b)),
        (BinOp::And, _, _) | (BinOp::Or, _, _) => Err(
            error_at("`&&`/`||` requires two booleans, found "@ + kinds, span),
        ),
    }
}

/// The value of `git.field`.
pub open spec fn git_field_value(git: GitView, field: Spanned<String>, span: Span) -> Result<
    ValueView,
    ErrorView,
> {
    let name = field.value@;
    match git {
        GitView::Unavailable => Err(error_at("`git` is not available here"@, span)),
        _ => if name != "branch"@ && name != "sha"@ && name != "short_sha"@ && name != "dirty"@ {
            Err(
                error_at("unknown git field `"@ + name + "`"@, field.span).with_help(
                    "expected one of `branch`, `sha`, `short_sha`, `dirty`"@,
                ),
            )
        } else {
            match git {
                GitView::Head(head) => if name == "branch"@ {
                    Ok(ValueView::Str(head.branch))
                } else if name == "sha"@ {
                    Ok(ValueView::Str(head.sha))
                } else if name == "short_sha"@ {
                    Ok(ValueView::Str(head.short_sha))
                } else {
                    Ok(ValueView::Bool(head.dirty))
                },
                GitView::Failed(error) => Err(
                    error_at("cannot read `git."@ + name + "`: "@ + error, span),
                ),
                GitView::Unavailable => arbitrary(),
            }
        },
    }
}

/// The value of `object.field`: only `git` has fields.
pub open spec fn field_value(
    git: GitView,
    object: Spanned<String>,
    field: Spanned<String>,
) -> Result<ValueView, ErrorView> {
    if object.value@ != "git"@ {
        Err(
            error_at("`"@ + object.value@ + "` has no fields; only `git` does"@, object.span),
        )
    } else {
        git_field_value(git, field, Span { start: object.span.start, end: field.span.end })
    }
}

/// The value of an expression: names from `scope`, variables from `env`.
/// `fallback` is the place of an expression that has none of its own.
pub open spec fn value_of(e: Expr, scope: ScopeView, env: Environment, fallback: Span) -> Result<
    ValueView,
    ErrorView,
>
    decreases e,
{
    match e {
        Expr::Str(t) => match text_of(t.parts@, t.span, scope, env) {
            Ok(s) => Ok(ValueView::Str(s)),
            Err(x) => Err(x),
        },
        Expr::Bool(b) => Ok(ValueView::Bool(b)),
        Expr::Var(name) => if scope.values.contains_key(name.value@) {
            Ok(scope.values[name.value@])
        } else {
            Err(unknown_variable(name, scope.values.dom()))
        },
        Expr::Call { name, args } => if name.value@ == "env"@ {
            if args@.len() == 0 || args@.len() > 2 {
                Err(wrong_arity(name, 1, 2, args@.len()))
            } else {
                let span = span_or(args@[0], fallback);
                match value_of(args@[0], scope, env, span) {
                    Err(x) => Err(x),
                    Ok(v) => match as_string(name.value@, v, span) {
                        Err(x) => Err(x),
                        Ok(key) => match env.value(key) {
                            Some(s) => Ok(ValueView::Str(s)),
                            None => if args@.len() == 2 {
                                value_of(args@[1], scope, env, span_or(args@[1], fallback))
                            } else {
                                Err(
                                    error_at(
                                        "environment variable `"@ + key + "` is not set"@,
                                        name.span,
                                    ),
                                )
                            },
                        },
                    },
                }
            }
        } else if name.value@ == "glob"@ {
            if args@.len() != 1 {
                Err(wrong_arity(name, 1, 1, args@.len()))
            } else {
                let span = span_or(args@[0], fallback);
                match value_of(args@[0], scope, env, span) {
                    Err(x) => Err(x),
                    Ok(v) => match as_string(name.value@, v, span) {
                        Err(x) => Err(x),
                        Ok(pattern) => valid_glob(pattern, span),
                    },
                }
            }
        } else {
            Err(unknown_function(name))
        },
        Expr::Binary { op, lhs, rhs } => match value_of(
            *lhs,
            scope,
            env,
            span_or(*lhs, fallback),
        ) {
            Err(x) => Err(x),
            Ok(l) => match value_of(*rhs, scope, env, span_or(*rhs, fallback)) {
                Err(x) => Err(x),
                Ok(r) => binary(op, l, r, fallback),
            },
        },
        Expr::If { cond, consequence, otherwise } => match value_of(
            *cond,
            scope,
            env,
            span_or(*cond, fallback),
        ) {
            Err(x) => Err(x),
            Ok(ValueView::Bool(true)) => value_of(
                *consequence,
                scope,
                env,
                span_or(*consequence, fallback),
            ),
            Ok(ValueView::Bool(false)) => value_of(
                *otherwise,
                scope,
                env,
                span_or(*otherwise, fallback),
            ),
            Ok(other) => Err(not_a_condition(other, span_or(*cond, fallback))),
        },
        Expr::Field { object, field } => field_value(scope.git, object, field),
    }
}

/// The text of a template's parts: literals as they are, expressions by
/// their value. The first part that fails decides the error.
pub open spec fn text_of(
    parts: Seq<TemplatePart>,
    span: Span,
    scope: ScopeView,
    env: Environment,
) -> Result<Seq<char>, ErrorView>
    decreases parts,
{
    if parts.len() == 0 {
        Ok(Seq::empty())
    } else {
        match text_of(parts.drop_last(), span, scope, env) {
            Err(x) => Err(x),
            Ok(before) => match parts.last() {
                TemplatePart::Literal(s) => Ok(before + s@),
                TemplatePart::Expr(e) => match value_of(e, scope, env, span_or(e, span)) {
                    Err(x) => Err(x),
                    Ok(v) => Ok(before + v.display()),
                },
            },
        }
    }
}

/// A part that fails decides the error of the whole template.
proof fn text_of_fails_early(
    parts: Seq<TemplatePart>,
    n: int,
    span: Span,
    scope: ScopeView,
    env: Environment,
)
    requires
        0 <= n <= parts.len(),
        text_of(parts.take(n), span, scope, env) is Err,
    ensures
        text_of(parts, span, scope, env) == text_of(parts.take(n), span, scope, env),
    decreases parts.len() - n,
{
    if n == parts.len() {
        assert(parts.take(n) == parts);
    } else {
        assert(parts.take(n + 1).drop_last() == parts.take(n));
        text_of_fails_early(parts, n + 1, span, scope, env);
    }
}

/// The most precise place known of `expr`.
pub fn expr_span(expr: &Expr) -> (r: Option<Span>)
    ensures
        r == expr_span_of(*expr),
{
    match expr {
        Expr::Str(t) => Some(t.span),
        Expr::Var(name) => Some(name.span),
        Expr::Call { name, .. } => Some(name.span),
        Expr::Bool(_) | Expr::Binary { .. } | Expr::If { .. } => None,
        Expr::Field { object, field } => Some(Span::new(object.span.start, field.span.end)),
    }
}

pub(crate) fn expr_span_or(expr: &Expr, fallback: Span) -> (r: Span)
    ensures
        r == span_or(*expr, fallback),
{
    match expr_span(expr) {
        Some(span) => span,
        None => fallback,
    }
}

/// `error` with the closest of `candidates` to `name` as its help.
pub fn with_suggestion(error: CoreError, name: &str, candidates: &[&str]) -> (r: CoreError)
    ensures
        r@ == did_you_mean(error@, name@, names_of(candidates@)),
{
    match suggest(name, candidates) {
        Some(c) => error.with_help(text3("did you mean `", c, "`?")),
        None => error,
    }
}

pub(crate) fn unknown_variable_error(name: &Spanned<String>, candidates: &[&str]) -> (r: CoreError)
    ensures
        r@ == unknown_variable(*name, names_of(candidates@)),
{
    let error = CoreError::new(
        text3("unknown variable `", name.value.as_str(), "`"),
        name.span,
    );
    with_suggestion(error, name.value.as_str(), candidates)
}

pub(crate) fn unknown_function_error(name: &Spanned<String>) -> (r: CoreError)
    ensures
        r@ == unknown_function(*name),
{
    let error = CoreError::new(
        text3("unknown function `", name.value.as_str(), "`"),
        name.span,
    );
    let builtins: [&str; 2] = ["env", "glob"];
    proof {
        assert(builtins@[0]@ == "env"@ && builtins@[1]@ == "glob"@);
        assert(names_of(builtins@) =~= builtin_functions());
    }
    with_suggestion(error, name.value.as_str(), &builtins)
}

/// The value of `git.field`, to be reported at `span`.
fn git_field(scope: &Scope, field: &Spanned<String>, span: Span) -> (r: Result<Value, CoreError>)
    ensures
        result_view(r, |v: Value| v@) == git_field_value(scope@.git, *field, span),
{
    let git: &Result<GitHead, GitError> = match scope.git() {
        None => {
            return Err(CoreError::new("`git` is not available here".to_owned(), span));
        },
        Some(git) => git,
    };
    let name = field.value.as_str();
    let branch = same_text(name, "branch");
    let sha = same_text(name, "sha");
    let short_sha = same_text(name, "short_sha");
    let dirty = same_text(name, "dirty");
    if !branch && !sha && !short_sha && !dirty {
        return Err(
            CoreError::new(text3("unknown git field `", name, "`"), field.span).with_help(
                "expected one of `branch`, `sha`, `short_sha`, `dirty`".to_owned(),
            ),
        );
    }
    match git {
        Err(error) => Err(
            CoreError::new(
                {
                    let mut message = text3("cannot read `git.", name, "`: ");
                    message.append(error.0.as_str());
                    message
                },
                span,
            ),
        ),
        Ok(head) => if branch {
            Ok(Value::Str(head.branch.clone()))
        } else if sha {
            Ok(Value::Str(head.sha.clone()))
        } else if short_sha {
            Ok(Value::Str(head.short_sha.clone()))
        } else {
            Ok(Value::Bool(head.dirty))
        },
    }
}

/// The value of `object.field`.
pub(crate) fn eval_field(object: &Spanned<String>, field: &Spanned<String>, scope: &Scope) -> (r: Result<
    Value,
    CoreError,
>)
    ensures
        result_view(r, |v: Value| v@) == field_value(scope@.git, *object, *field),
{
    if !same_text(object.value.as_str(), "git") {
        return Err(
            CoreError::new(
                text3("`", object.value.as_str(), "` has no fields; only `git` does"),
                object.span,
            ),
        );
    }
    git_field(scope, field, Span::new(object.span.start, field.span.end))
}

fn kinds_of(lhs: &Value, rhs: &Value) -> (r: String)
    ensures
        r@ == lhs@.kind_name() + " and "@ + rhs@.kind_name(),
{
    text3(lhs.kind_name(), " and ", rhs.kind_name())
}

/// The value of `lhs op rhs`, errors being reported at `span`.
pub fn eval_binary(op: BinOp, lhs: Value, rhs: Value, span: Span) -> (r: Result<Value, CoreError>)
    ensures
        result_view(r, |v: Value| v@) == binary(op, lhs@, rhs@, span),
{
    match op {
        BinOp::Concat => match (&lhs, &rhs) {
            (Value::Str(a), Value::Str(b)) => {
                let mut out = a.clone();
                out.append(b.as_str());
                Ok(Value::Str(out))
            },
            _ => Err(
                CoreError::new(
                    crate::text::text2(
                        "`+` requires two strings, found ",
                        kinds_of(&lhs, &rhs).as_str(),
                    ),
                    span,
                ),
            ),
        },
        BinOp::Eq | BinOp::NotEq => {
            let equal = match (&lhs, &rhs) {
                (Value::Str(a), Value::Str(b)) => same_text(a.as_str(), b.as_str()),
                (Value::Bool(a), Value::Bool(b)) => *a == *b,
                _ => {
                    return Err(
                        CoreError::new(
                            crate::text::text2(
                                "`==`/`!=` requires operands of the same type, found ",
                                kinds_of(&lhs, &rhs).as_str(),
                            ),
                            span,
                        ),
                    );
                },
            };
            Ok(Value::Bool(if op == BinOp::Eq { equal } else { !equal }))
        },
        BinOp::And | BinOp::Or => match (&lhs, &rhs) {
            (Value::Bool(a), Value::Bool(b)) => Ok(
                Value::Bool(if op == BinOp::And { *a && *b } else { *a || *b }),
            ),
            _ => Err(
                CoreError::new(
                    crate::text::text2(
                        "`&&`/`||` requires two booleans, found ",
                        kinds_of(&lhs, &rhs).as_str(),
                    ),
                    span,
                ),
            ),
        },
    }
}

pub(crate) fn arity_error(name: &Spanned<String>, min: u64, max: u64, found: usize) -> (r: CoreError)
    ensures
        r@ == wrong_arity(*name, min as nat, max as nat, found as nat),
{
    let expected = if min == max {
        decimal_text(min)
    } else {
        text3(decimal_text(min).as_str(), " to ", decimal_text(max).as_str())
    };
    let mut message = text5(
        "`",
        name.value.as_str(),
        "` expects ",
        expected.as_str(),
        " argument(s), found ",
    );
    message.append(decimal_text(found as u64).as_str());
    CoreError::new(message, name.span)
}

/// `value` as a string, for an argument of `fn_name`.
pub(crate) fn expect_str_value(fn_name: &str, value: Value, span: Span) -> (r: Result<String, CoreError>)
    ensures
        result_view(r, |s: String| s@) == as_string(fn_name@, value@, span),
{
    match value {
        Value::Str(s) => Ok(s),
        Value::Bool(b) => {
            let mut message = text3("argument to `", fn_name, "` must be a string, found ");
            message.append(Value::Bool(b).kind_name());
            Err(CoreError::new(message, span))
        },
    }
}

pub(crate) fn not_a_condition_error(value: &Value, span: Span) -> (r: CoreError)
    ensures
        r@ == not_a_condition(value@, span),
{
    CoreError::new(
        crate::text::text2("expected a boolean condition for `if`, found ", value.kind_name()),
        span,
    )
}

/// `pattern` unchanged, where it compiles.
pub(crate) fn validate_glob_pattern(pattern: String, span: Span) -> (r: Result<Value, CoreError>)
    ensures
        result_view(r, |v: Value| v@) == valid_glob(pattern@, span),
{
    match glob_pattern(pattern.as_str()) {
        Ok(()) => Ok(Value::Str(pattern)),
        Err(text) => {
            let mut message = text3("invalid glob pattern `", pattern.as_str(), "`: ");
            message.append(text.as_str());
            Err(CoreError::new(message, span))
        },
    }
}

/// Renders `template`: literals pass through, `{expr}` parts are evaluated.
pub fn render_template(template: &StringTemplate, scope: &Scope, env: &Environment) -> (r: Result<
    String,
    CoreError,
>)
    ensures
        result_view(r, |s: String| s@) == text_of(template.parts@, template.span, scope@, *env),
    decreases *template, 0nat,
{
    let mut out = String::new();
    let mut i: usize = 0;
    while i < template.parts.len()
        invariant
            i <= template.parts.len(),
            text_of(template.parts@.take(i as int), template.span, scope@, *env) == Ok::<
                Seq<char>,
                ErrorView,
            >(out@),
        decreases template.parts.len() - i,
    {
        proof {
            assert(template.parts@.take(i + 1).drop_last() == template.parts@.take(i as int));
        }
        match &template.parts[i] {
            TemplatePart::Literal(s) => {
                out.append(s.as_str());
            },
            TemplatePart::Expr(e) => {
                match eval_with_fallback(e, scope, env, expr_span_or(e, template.span)) {
                    Ok(value) => {
                        out.append(value.as_display());
                    },
                    Err(error) => {
                        proof {
                            text_of_fails_early(
                                template.parts@,
                                i + 1,
                                template.span,
                                scope@,
                                *env,
                            );
                        }
                        return Err(error);
                    },
                }
            },
        }
        i += 1;
    }
    assert(template.parts@.take(template.parts@.len() as int) == template.parts@);
    Ok(out)
}

/// The place reported for an expression that has none of its own and stands
/// in nothing that has one.
pub open spec fn start_of_source() -> Span {
    Span { start: 0, end: 0 }
}

/// Evaluates `expr`, on its own.
pub fn eval_expr(expr: &Expr, scope: &Scope, env: &Environment) -> (r: Result<Value, CoreError>)
    ensures
        result_view(r, |v: Value| v@) == value_of(
            *expr,
            scope@,
            *env,
            span_or(*expr, start_of_source()),
        ),
{
    eval_with_fallback(expr, scope, env, expr_span_or(expr, Span::new(0, 0)))
}

/// Evaluates `expr`, `fallback` being its place where it has none of its own.
pub fn eval_with_fallback(
    expr: &Expr,
    scope: &Scope,
    env: &Environment,
    fallback: Span,
) -> (r: Result<Value, CoreError>)
    ensures
        result_view(r, |v: Value| v@) == value_of(*expr, scope@, *env, fallback),
    decreases *expr, 0nat,
{
    match expr {
        Expr::Str(t) => match render_template(t, scope, env) {
            Ok(s) => Ok(Value::Str(s)),
            Err(error) => Err(error),
        },
        Expr::Bool(b) => Ok(Value::Bool(*b)),
        Expr::Var(name) => match scope.get(name.value.as_str()) {
            Some(value) => Ok(value.clone()),
            None => Err(unknown_variable_error(name, scope.names().as_slice())),
        },
        Expr::Call { name, args } => if same_text(name.value.as_str(), "env") {
            eval_env(name, args, scope, env, fallback)
        } else if same_text(name.value.as_str(), "glob") {
            eval_glob(name, args, scope, env, fallback)
        } else {
            Err(unknown_function_error(name))
        },
        Expr::Binary { op, lhs, rhs } => {
            let l = match eval_with_fallback(lhs, scope, env, expr_span_or(lhs, fallback)) {
                Ok(v) => v,
                Err(error) => return Err(error),
            };
            let r = match eval_with_fallback(rhs, scope, env, expr_span_or(rhs, fallback)) {
                Ok(v) => v,
                Err(error) => return Err(error),
            };
            eval_binary(*op, l, r, fallback)
        },
        Expr::If { cond, consequence, otherwise } => {
            let cond_span = expr_span_or(cond, fallback);
            match eval_with_fallback(cond, scope, env, cond_span) {
                Err(error) => Err(error),
                Ok(Value::Bool(true)) => eval_with_fallback(
                    consequence,
                    scope,
                    env,
                    expr_span_or(consequence, fallback),
                ),
                Ok(Value::Bool(false)) => eval_with_fallback(
                    otherwise,
                    scope,
                    env,
                    expr_span_or(otherwise, fallback),
                ),
                Ok(other) => Err(not_a_condition_error(&other, cond_span)),
            }
        },
        Expr::Field { object, field } => eval_field(object, field, scope),
    }
}

/// The first argument of a call, which has to be a string.
fn expect_str_arg(
    fn_name: &Spanned<String>,
    arg: &Expr,
    scope: &Scope,
    env: &Environment,
    fallback: Span,
) -> (r: Result<String, CoreError>)
    ensures
        result_view(r, |s: String| s@) == match value_of(
            *arg,
            scope@,
            *env,
            span_or(*arg, fallback),
        ) {
            Err(x) => Err::<Seq<char>, ErrorView>(x),
            Ok(v) => as_string(fn_name.value@, v, span_or(*arg, fallback)),
        },
    decreases *arg, 1nat,
{
    let span = expr_span_or(arg, fallback);
    match eval_with_fallback(arg, scope, env, span) {
        Ok(value) => expect_str_value(fn_name.value.as_str(), value, span),
        Err(error) => Err(error),
    }
}

/// `env(name)` or `env(name, default)`.
fn eval_env(
    name: &Spanned<String>,
    args: &Vec<Expr>,
    scope: &Scope,
    env: &Environment,
    fallback: Span,
) -> (r: Result<Value, CoreError>)
    requires
        name.value@ == "env"@,
    ensures
        result_view(r, |v: Value| v@) == value_of(
            Expr::Call { name: *name, args: *args },
            scope@,
            *env,
            fallback,
        ),
    decreases *args, 1nat,
{
    if args.len() == 0 || args.len() > 2 {
        return Err(arity_error(name, 1, 2, args.len()));
    }
    let key = match expect_str_arg(name, &args[0], scope, env, fallback) {
        Ok(key) => key,
        Err(error) => return Err(error),
    };
    match env.var(key.as_str()) {
        Some(v) => Ok(Value::Str(v)),
        None => if args.len() == 2 {
            eval_with_fallback(&args[1], scope, env, expr_span_or(&args[1], fallback))
        } else {
            Err(
                CoreError::new(
                    text3("environment variable `", key.as_str(), "` is not set"),
                    name.span,
                ),
            )
        },
    }
}

/// `glob(pattern)`: the pattern unchanged, where it compiles.
fn eval_glob(
    name: &Spanned<String>,
    args: &Vec<Expr>,
    scope: &Scope,
    env: &Environment,
    fallback: Span,
) -> (r: Result<Value, CoreError>)
    requires
        name.value@ == "glob"@,
    ensures
        result_view(r, |v: Value| v@) == value_of(
            Expr::Call { name: *name, args: *args },
            scope@,
            *env,
            fallback,
        ),
    decreases *args, 1nat,
{
    proof {
        reveal_strlit("glob");
        reveal_strlit("env");
    }
    if args.len() != 1 {
        return Err(arity_error(name, 1, 1, args.len()));
    }
    let span = expr_span_or(&args[0], fallback);
    match expect_str_arg(name, &args[0], scope, env, fallback) {
        Ok(pattern) => validate_glob_pattern(pattern, span),
        Err(error) => Err(error),
    }
}

} // verus!
