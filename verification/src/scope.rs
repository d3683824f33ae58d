//! The names that expressions can refer to: [`Scope`] holds a file's `let`s
//! and a beam's parameters, [`Environment`] the process environment.

use vstd::prelude::*;
use crate::git::{GitError, GitHead, GitHeadView};
use crate::model::{Value, ValueView};
use crate::text::{same_text, views};

verus! {

/// What git answered about `HEAD`, where git was asked.
pub enum GitView {
    Unavailable,
    Head(GitHeadView),
    Failed(Seq<char>),
}

pub struct ScopeView {
    pub values: Map<Seq<char>, ValueView>,
    pub git: GitView,
}

/// Name bindings: a file's evaluated `let`s, later with a beam's parameters
/// on top, and what git answered about `HEAD`.
#[derive(Debug, PartialEq)]
pub struct Scope {
    values: Vec<(String, Value)>,
    git: Option<Result<GitHead, GitError>>,
}

/// `name` is bound at place `i`.
pub open spec fn bound_at(values: Seq<(String, Value)>, name: Seq<char>, i: int) -> bool {
    0 <= i < values.len() && values[i].0@ == name
}

pub open spec fn bindings(values: Seq<(String, Value)>) -> Map<Seq<char>, ValueView> {
    Map::new(
        |name: Seq<char>| exists|i: int| bound_at(values, name, i),
        |name: Seq<char>| values[choose|i: int| bound_at(values, name, i)].1@,
    )
}

pub open spec fn distinct_names(values: Seq<(String, Value)>) -> bool {
    forall|i: int, j: int|
        0 <= i < j < values.len() ==> (#[trigger] values[i]).0@ != (#[trigger] values[j]).0@
}

pub open spec fn git_view(git: Option<Result<GitHead, GitError>>) -> GitView {
    match git {
        None => GitView::Unavailable,
        Some(Ok(head)) => GitView::Head(head@),
        Some(Err(error)) => GitView::Failed(error@),
    }
}

impl View for Scope {
    type V = ScopeView;

    closed spec fn view(&self) -> ScopeView {
        ScopeView { values: bindings(self.values@), git: git_view(self.git) }
    }
}

/// `values` with each parameter bound to the argument at its place, later
/// parameters over earlier ones and over what was there.
pub open spec fn with_arguments(
    values: Map<Seq<char>, ValueView>,
    params: Seq<Seq<char>>,
    args: Seq<Seq<char>>,
) -> Map<Seq<char>, ValueView>
    decreases params.len(),
{
    if params.len() == 0 {
        values
    } else if params.len() > args.len() {
        with_arguments(values, params.drop_last(), args)
    } else {
        with_arguments(values, params.drop_last(), args).insert(
            params.last(),
            ValueView::Str(args[params.len() - 1]),
        )
    }
}

fn position(values: &Vec<(String, Value)>, name: &str) -> (r: Option<usize>)
    ensures
        match r {
            Some(i) => bound_at(values@, name@, i as int),
            None => forall|i: int| !bound_at(values@, name@, i),
        },
{
    let mut i: usize = 0;
    while i < values.len()
        invariant
            i <= values.len(),
            forall|k: int| 0 <= k < i ==> !bound_at(values@, name@, k),
        decreases values.len() - i,
    {
        if same_text(values[i].0.as_str(), name) {
            return Some(i);
        }
        i += 1;
    }
    None
}

fn bind(values: &mut Vec<(String, Value)>, name: String, value: Value)
    requires
        distinct_names(old(values)@),
    ensures
        distinct_names(final(values)@),
        bindings(final(values)@) == bindings(old(values)@).insert(name@, value@),
{
    let ghost before = values@;
    let ghost n = name@;
    let ghost v = value@;
    match position(values, name.as_str()) {
        Some(i) => {
            values.set(i, (name, value));
            proof {
                assert forall|k: Seq<char>, j: int| bound_at(values@, k, j) == bound_at(before, k, j) by {}
                assert(bound_at(values@, n, i as int));
                assert forall|k: Seq<char>| bindings(values@).dom().contains(k)
                    == bindings(before).insert(n, v).dom().contains(k) by {
                    if bindings(before).dom().contains(k) {
                        let j = choose|j: int| bound_at(before, k, j);
                        assert(bound_at(values@, k, j));
                    }
                    if bindings(values@).dom().contains(k) && k != n {
                        let j = choose|j: int| bound_at(values@, k, j);
                        assert(bound_at(before, k, j));
                    }
                }
                assert forall|k: Seq<char>| bindings(values@).dom().contains(k) implies
                    bindings(values@)[k] == bindings(before).insert(n, v)[k] by {
                    let a = choose|j: int| bound_at(values@, k, j);
                    let b = choose|j: int| bound_at(before, k, j);
                    assert(bound_at(values@, k, a) && bound_at(before, k, b));
                    if k == n {
                        assert(a == i as int);
                    } else {
                        assert(a == b);
                    }
                }
                assert(bindings(values@) =~= bindings(before).insert(n, v));
            }
        },
        None => {
            values.push((name, value));
            proof {
                let m = before.len() as int;
                assert(bound_at(values@, n, m));
                assert forall|i: int, j: int| 0 <= i < j < values@.len() implies (#[trigger] values@[i]).0@
                    != (#[trigger] values@[j]).0@ by {
                    if j == m {
                        assert(!bound_at(before, n, i));
                    }
                }
                assert forall|k: Seq<char>, j: int| bound_at(before, k, j) implies bound_at(values@, k, j) by {}
                assert forall|k: Seq<char>, j: int| bound_at(values@, k, j) implies k == n || bound_at(before, k, j) by {}
                assert forall|k: Seq<char>| bindings(values@).dom().contains(k)
                    == bindings(before).insert(n, v).dom().contains(k) by {
                    if bindings(before).dom().contains(k) {
                        let j = choose|j: int| bound_at(before, k, j);
                        assert(bound_at(values@, k, j));
                    }
                    if bindings(values@).dom().contains(k) && k != n {
                        let j = choose|j: int| bound_at(values@, k, j);
                        assert(bound_at(before, k, j));
                    }
                }
                assert forall|k: Seq<char>| bindings(values@).dom().contains(k) implies
                    bindings(values@)[k] == bindings(before).insert(n, v)[k] by {
                    let a = choose|j: int| bound_at(values@, k, j);
                    assert(bound_at(values@, k, a));
                    if k == n {
                        assert(a == m);
                    } else {
                        let b = choose|j: int| bound_at(before, k, j);
                        assert(bound_at(before, k, a));
                        assert(bound_at(before, k, b));
                        assert(a == b);
                    }
                }
                assert(bindings(values@) =~= bindings(before).insert(n, v));
            }
        },
    }
}

fn copy_values(values: &Vec<(String, Value)>) -> (r: Vec<(String, Value)>)
    ensures
        r@ == values@,
{
    let mut out: Vec<(String, Value)> = Vec::new();
    let mut i: usize = 0;
    while i < values.len()
        invariant
            i <= values.len(),
            out@ == values@.take(i as int),
        decreases values.len() - i,
    {
        let (name, value) = &values[i];
        out.push((name.clone(), value.clone()));
        assert(values@.take(i as int).push(values@[i as int]) == values@.take(i + 1));
        i += 1;
    }
    assert(values@.take(values@.len() as int) == values@);
    out
}

/// A copy of what git answered.
pub fn copy_git(git: &Option<Result<GitHead, GitError>>) -> (r: Option<Result<GitHead, GitError>>)
    ensures
        r == *git,
{
    match git {
        None => None,
        Some(Ok(head)) => Some(Ok(head.clone())),
        Some(Err(error)) => Some(Err(error.clone())),
    }
}

impl Scope {
    #[verifier::type_invariant]
    spec fn inv(self) -> bool {
        distinct_names(self.values@)
    }

    /// No `let`s, no parameters, no git.
    pub fn empty() -> (r: Scope)
        ensures
            r@.values == Map::<Seq<char>, ValueView>::empty(),
            r@.git is Unavailable,
    {
        let r = Scope { values: Vec::new(), git: None };
        assert(r@.values =~= Map::<Seq<char>, ValueView>::empty());
        r
    }

    /// No `let`s and no parameters; `git.*` reads `head`, where git was asked.
    pub fn with_head(head: Option<Result<GitHead, GitError>>) -> (r: Scope)
        ensures
            r@.values == Map::<Seq<char>, ValueView>::empty(),
            r@.git == git_view(head),
    {
        let r = Scope { values: Vec::new(), git: head };
        assert(r@.values =~= Map::<Seq<char>, ValueView>::empty());
        r
    }

    /// No `let`s and no parameters; `git.*` reads `head`.
    pub fn with_git(head: Result<GitHead, GitError>) -> (r: Scope)
        ensures
            r@.values == Map::<Seq<char>, ValueView>::empty(),
            r@.git == git_view(Some(head)),
    {
        Scope::with_head(Some(head))
    }

    /// What git answered about `HEAD`.
    pub fn git(&self) -> (r: &Option<Result<GitHead, GitError>>)
        ensures
            git_view(*r) == self@.git,
    {
        &self.git
    }

    /// The scope with `name` bound to `value`.
    pub fn insert(self, name: String, value: Value) -> (r: Scope)
        ensures
            r@.values == self@.values.insert(name@, value@),
            r@.git == self@.git,
    {
        proof {
            use_type_invariant(&self);
        }
        let Scope { values, git } = self;
        let mut values = values;
        bind(&mut values, name, value);
        Scope { values, git }
    }

    /// The value bound to `name`.
    pub fn get(&self, name: &str) -> (r: Option<&Value>)
        ensures
            match r {
                Some(v) => self@.values.contains_key(name@) && v@ == self@.values[name@],
                None => !self@.values.contains_key(name@),
            },
    {
        proof {
            use_type_invariant(self);
        }
        match position(&self.values, name) {
            Some(i) => {
                proof {
                    let c = choose|j: int| bound_at(self.values@, name@, j);
                    assert(bound_at(self.values@, name@, c));
                    assert(c == i as int);
                }
                Some(&self.values[i].1)
            },
            None => None,
        }
    }

    /// The bound names, each once.
    pub fn names(&self) -> (r: Vec<&str>)
        ensures
            crate::suggest::names_of(r@) == self@.values.dom(),
            r@.len() == self@.values.dom().len(),
    {
        let mut out: Vec<&str> = Vec::new();
        let mut i: usize = 0;
        while i < self.values.len()
            invariant
                i <= self.values.len(),
                out@.len() == i,
                forall|k: int| 0 <= k < i ==> (#[trigger] out@[k])@ == self.values@[k].0@,
            decreases self.values.len() - i,
        {
            out.push(self.values[i].0.as_str());
            i += 1;
        }
        proof {
            use_type_invariant(self);
            let dom = self@.values.dom();
            assert forall|c: Seq<char>| crate::suggest::names_of(out@).contains(c) == dom.contains(c) by {
                if dom.contains(c) {
                    let j = choose|j: int| bound_at(self.values@, c, j);
                    assert(out@[j]@ == c);
                }
                if crate::suggest::names_of(out@).contains(c) {
                    let k = choose|k: int| 0 <= k < out@.len() && (#[trigger] out@[k])@ == c;
                    assert(bound_at(self.values@, c, k));
                }
            }
            assert(crate::suggest::names_of(out@) =~= dom);
            let listed = Seq::new(out@.len(), |k: int| out@[k]@);
            assert(listed.no_duplicates()) by {
                assert forall|a: int, b: int| 0 <= a < listed.len() && 0 <= b < listed.len() && a != b implies listed[a]
                    != listed[b] by {
                    if a < b {
                        assert(self.values@[a].0@ != self.values@[b].0@);
                    } else {
                        assert(self.values@[b].0@ != self.values@[a].0@);
                    }
                }
            }
            assert(listed.to_set() =~= dom) by {
                assert forall|c: Seq<char>| dom.contains(c) implies listed.to_set().contains(c) by {
                    let j = choose|j: int| bound_at(self.values@, c, j);
                    assert(listed[j] == c);
                }
            }
            listed.unique_seq_to_set();
        }
        out
    }

    /// A scope with `params[i]` bound to `args[i]` on top of this one's
    /// bindings. Where one list is longer, its rest is left alone.
    pub fn with_params(&self, params: &Vec<String>, args: &Vec<String>) -> (r: Scope)
        ensures
            r@.values == with_arguments(self@.values, views(params@), views(args@)),
            r@.git == self@.git,
    {
        proof {
            use_type_invariant(self);
        }
        let mut values = copy_values(&self.values);
        let mut i: usize = 0;
        let ghost p = views(params@);
        let ghost a = views(args@);
        while i < params.len()
            invariant
                i <= params.len(),
                p == views(params@),
                a == views(args@),
                distinct_names(values@),
                bindings(values@) == with_arguments(self@.values, p.take(i as int), a),
            decreases params.len() - i,
        {
            proof {
                assert(p.take(i + 1).drop_last() == p.take(i as int));
            }
            if i < args.len() {
                bind(&mut values, params[i].clone(), Value::Str(args[i].clone()));
            }
            i += 1;
        }
        assert(p.take(p.len() as int) == p);
        Scope { values, git: copy_git(&self.git) }
    }
}

impl Clone for Scope {
    fn clone(&self) -> (r: Scope)
        ensures
            r@ == self@,
    {
        proof {
            use_type_invariant(self);
        }
        Scope { values: copy_values(&self.values), git: copy_git(&self.git) }
    }
}

/// The variables of the process environment.
#[derive(Debug, PartialEq)]
pub struct Environment {
    pub variables: Vec<(String, String)>,
}

/// The value of the first variable called `name`.
pub open spec fn variable(variables: Seq<(String, String)>, name: Seq<char>) -> Option<Seq<char>>
    decreases variables.len(),
{
    if variables.len() == 0 {
        None
    } else if variables[0].0@ == name {
        Some(variables[0].1@)
    } else {
        variable(variables.drop_first(), name)
    }
}

impl Environment {
    pub open spec fn value(self, name: Seq<char>) -> Option<Seq<char>> {
        variable(self.variables@, name)
    }

    /// The value of the variable `name`, if it is set.
    pub fn var(&self, name: &str) -> (r: Option<String>)
        ensures
            crate::text::opt_view(r) == self.value(name@),
    {
        let mut i: usize = 0;
        assert(self.variables@.skip(0) == self.variables@);
        while i < self.variables.len()
            invariant
                i <= self.variables.len(),
                self.value(name@) == variable(self.variables@.skip(i as int), name@),
            decreases self.variables.len() - i,
        {
            let (n, v) = &self.variables[i];
            if same_text(n.as_str(), name) {
                return Some(v.clone());
            }
            assert(self.variables@.skip(i as int).drop_first() == self.variables@.skip(i + 1));
            i += 1;
        }
        None
    }
}

} // verus!
