//! Where nothing of a file reads what git says, what git says does not
//! matter.

use vstd::prelude::*;
use crate::eval::{text_of, value_of};
use crate::git_reads::{
    any_template_reads_git, beam_reads_git, env_reads_git, git_matters_only_where_it_is_read,
    git_matters_only_where_it_is_read_in_text, mentions_git, option_reads_git, parts_read_git,
    reads_git, template_reads_git,
};
use crate::scope::{Environment, GitView, ScopeView};
use crate::syntax::{BeamDecl, ExecutorOptionValue, File, Span, StringTemplate};

verus! {

/// The template is a string of one of an executor's options.
pub open spec fn is_in_option(v: ExecutorOptionValue, t: StringTemplate) -> bool {
    match v {
        ExecutorOptionValue::Str(s) => s == t,
        ExecutorOptionValue::Bool(_) => false,
        ExecutorOptionValue::List(all) => all@.contains(t),
    }
}

/// The template is one that the declaration holds, whichever field it is in.
pub open spec fn is_template_of(b: BeamDecl, t: StringTemplate) -> bool {
    ||| b.description == Some(t)
    ||| b.inputs@.contains(t)
    ||| b.outputs@.contains(t)
    ||| b.run@.contains(t)
    ||| exists|i: int| 0 <= i < b.env@.len() && (#[trigger] b.env@[i]).1 == t
    ||| b.cwd == Some(t)
    ||| b.executor matches Some(e) && exists|i: int|
        0 <= i < e.options@.len() && is_in_option((#[trigger] e.options@[i]).1, t)
}

proof fn a_reading_template_is_found(b: BeamDecl, t: StringTemplate)
    requires
        is_template_of(b, t),
        parts_read_git(t.parts@),
    ensures
        beam_reads_git(b),
{
    assert(template_reads_git(t));
    if b.inputs@.contains(t) {
        let i = choose|i: int| 0 <= i < b.inputs@.len() && b.inputs@[i] == t;
        assert(template_reads_git(b.inputs@[i]));
    } else if b.outputs@.contains(t) {
        let i = choose|i: int| 0 <= i < b.outputs@.len() && b.outputs@[i] == t;
        assert(template_reads_git(b.outputs@[i]));
    } else if b.run@.contains(t) {
        let i = choose|i: int| 0 <= i < b.run@.len() && b.run@[i] == t;
        assert(template_reads_git(b.run@[i]));
    } else if exists|i: int| 0 <= i < b.env@.len() && (#[trigger] b.env@[i]).1 == t {
        let i = choose|i: int| 0 <= i < b.env@.len() && (#[trigger] b.env@[i]).1 == t;
        assert(template_reads_git(b.env@[i].1));
    } else if b.executor is Some && exists|i: int|
        0 <= i < b.executor->Some_0.options@.len() && is_in_option(
            (#[trigger] b.executor->Some_0.options@[i]).1,
            t,
        ) {
        let e = b.executor->Some_0;
        let i = choose|i: int|
            0 <= i < e.options@.len() && is_in_option((#[trigger] e.options@[i]).1, t);
        if let ExecutorOptionValue::List(all) = e.options@[i].1 {
            let j = choose|j: int| 0 <= j < all@.len() && all@[j] == t;
            assert(template_reads_git(all@[j]));
        }
        assert(option_reads_git(e.options@[i].1));
    }
}

proof fn what_reads_is_a_template(b: BeamDecl) -> (t: StringTemplate)
    requires
        beam_reads_git(b),
    ensures
        is_template_of(b, t),
        parts_read_git(t.parts@),
{
    if b.description is Some && template_reads_git(b.description->Some_0) {
        b.description->Some_0
    } else if any_template_reads_git(b.inputs@) {
        let i = choose|i: int| 0 <= i < b.inputs@.len() && template_reads_git(#[trigger] b.inputs@[i]);
        b.inputs@[i]
    } else if any_template_reads_git(b.outputs@) {
        let i = choose|i: int|
            0 <= i < b.outputs@.len() && template_reads_git(#[trigger] b.outputs@[i]);
        b.outputs@[i]
    } else if any_template_reads_git(b.run@) {
        let i = choose|i: int| 0 <= i < b.run@.len() && template_reads_git(#[trigger] b.run@[i]);
        b.run@[i]
    } else if env_reads_git(b.env@) {
        let i = choose|i: int| 0 <= i < b.env@.len() && template_reads_git((#[trigger] b.env@[i]).1);
        b.env@[i].1
    } else if b.cwd is Some && template_reads_git(b.cwd->Some_0) {
        b.cwd->Some_0
    } else {
        let e = b.executor->Some_0;
        let i = choose|i: int|
            0 <= i < e.options@.len() && option_reads_git((#[trigger] e.options@[i]).1);
        match e.options@[i].1 {
            ExecutorOptionValue::Str(t) => {
                assert(is_in_option(e.options@[i].1, t));
                t
            },
            ExecutorOptionValue::Bool(_) => arbitrary(),
            ExecutorOptionValue::List(all) => {
                let j = choose|j: int| 0 <= j < all@.len() && template_reads_git(#[trigger] all@[j]);
                assert(is_in_option(e.options@[i].1, all@[j]));
                all@[j]
            },
        }
    }
}

/// Where a file does not mention git, nothing of it depends on what git says:
/// no `let`, and no template of any of its beams. Where it does, one of them
/// reads it.
pub proof fn git_is_asked_only_where_it_matters(
    file: &File,
    r: bool,
    values: Map<Seq<char>, crate::model::ValueView>,
    a: GitView,
    b: GitView,
    env: Environment,
    fallback: Span,
)
    requires
        call_ensures(mentions_git, (file,), r),
    ensures
        !r ==> forall|i: int|
            0 <= i < file.lets@.len() ==> value_of(
                (#[trigger] file.lets@[i]).value,
                ScopeView { values, git: a },
                env,
                fallback,
            ) == value_of(file.lets@[i].value, ScopeView { values, git: b }, env, fallback),
        !r ==> forall|k: int, t: StringTemplate|
            0 <= k < file.beams@.len() && #[trigger] is_template_of(file.beams@[k], t) ==> text_of(
                t.parts@,
                t.span,
                ScopeView { values, git: a },
                env,
            ) == text_of(t.parts@, t.span, ScopeView { values, git: b }, env),
        r ==> (exists|i: int|
            0 <= i < file.lets@.len() && reads_git((#[trigger] file.lets@[i]).value)) || (exists|
            k: int,
            t: StringTemplate,
        |
            0 <= k < file.beams@.len() && #[trigger] is_template_of(file.beams@[k], t)
                && parts_read_git(t.parts@)),
{
    let x = ScopeView { values, git: a };
    if !r {
        assert forall|i: int| 0 <= i < file.lets@.len() implies value_of(
            (#[trigger] file.lets@[i]).value,
            x,
            env,
            fallback,
        ) == value_of(file.lets@[i].value, ScopeView { values, git: b }, env, fallback) by {
            git_matters_only_where_it_is_read(file.lets@[i].value, x, b, env, fallback);
        }
        assert forall|k: int, t: StringTemplate|
            0 <= k < file.beams@.len() && #[trigger] is_template_of(file.beams@[k], t) implies text_of(
        t.parts@, t.span, x, env) == text_of(
            t.parts@,
            t.span,
            ScopeView { values, git: b },
            env,
        ) by {
            assert(!beam_reads_git(file.beams@[k]));
            if parts_read_git(t.parts@) {
                a_reading_template_is_found(file.beams@[k], t);
            }
            git_matters_only_where_it_is_read_in_text(t.parts@, t.span, x, b, env);
        }
    } else if !(exists|i: int|
        0 <= i < file.lets@.len() && reads_git((#[trigger] file.lets@[i]).value)) {
        let k = choose|k: int| 0 <= k < file.beams@.len() && beam_reads_git(#[trigger] file.beams@[k]);
        let t = what_reads_is_a_template(file.beams@[k]);
        assert(is_template_of(file.beams@[k], t));
    }
}

} // verus!
