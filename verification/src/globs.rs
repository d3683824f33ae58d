//! Glob patterns as the `globset` crate compiles and matches them.

use vstd::prelude::*;
use crate::text::views;

verus! {

#[verifier::external_type_specification]
#[verifier::external_body]
pub struct ExGlob(globset::Glob);

#[verifier::external_type_specification]
#[verifier::external_body]
pub struct ExGlobError(globset::Error);

#[verifier::external_type_specification]
#[verifier::external_body]
pub struct ExGlobSet(globset::GlobSet);

#[verifier::external_type_specification]
#[verifier::external_body]
pub struct ExGlobSetBuilder(globset::GlobSetBuilder);

/// Why `globset::Glob::new` refuses a pattern, as the text of the error's
/// kind; `None` where it compiles.
pub uninterp spec fn glob_refusal(pattern: Seq<char>) -> Option<Seq<char>>;

/// The pattern that a compiled glob was made from.
pub uninterp spec fn glob_text(glob: globset::Glob) -> Seq<char>;

/// The text of an error's kind.
pub uninterp spec fn error_kind(error: globset::Error) -> Seq<char>;

/// The patterns added to a builder, in order.
pub uninterp spec fn builder_patterns(builder: globset::GlobSetBuilder) -> Seq<Seq<char>>;

/// The patterns that a set was built from, in order.
pub uninterp spec fn set_patterns(set: globset::GlobSet) -> Seq<Seq<char>>;

/// Whether these patterns, each of which compiles, can be built into a set.
pub uninterp spec fn set_builds(patterns: Seq<Seq<char>>) -> bool;

/// Whether a pattern, once compiled with the default options, matches a path.
/// Those options are fixed when the crate is built: whether `\` escapes the
/// next character or separates components depends on the target.
pub uninterp spec fn glob_matches(pattern: Seq<char>, path: Seq<char>) -> bool;

/// `globset::Glob::new` compiles a pattern. Whether it does, and the kind of
/// the error where it does not, depend on the pattern alone.
#[verifier::external_body]
pub(crate) fn compile_glob(pattern: &str) -> (r: Result<globset::Glob, globset::Error>)
    ensures
        match r {
            Ok(glob) => glob_refusal(pattern@) is None && glob_text(glob) == pattern@,
            Err(error) => glob_refusal(pattern@) == Some(error_kind(error)),
        },
{
    globset::Glob::new(pattern)
}

/// `globset::Error::kind`, as text.
#[verifier::external_body]
pub(crate) fn error_kind_text(error: &globset::Error) -> (r: String)
    ensures
        r@ == error_kind(*error),
{
    error.kind().to_string()
}

/// `globset::GlobSetBuilder::new`: a builder without patterns.
#[verifier::external_body]
fn new_builder() -> (r: globset::GlobSetBuilder)
    ensures
        builder_patterns(r) == Seq::<Seq<char>>::empty(),
{
    globset::GlobSetBuilder::new()
}

/// `globset::GlobSetBuilder::add` appends one pattern.
#[verifier::external_body]
fn add_glob(builder: &mut globset::GlobSetBuilder, glob: globset::Glob)
    ensures
        builder_patterns(*final(builder)) == builder_patterns(*old(builder)).push(glob_text(glob)),
{
    builder.add(glob);
}

/// `globset::GlobSetBuilder::build`: a set of the patterns added so far.
/// Whether it can be built depends on the patterns alone.
#[verifier::external_body]
fn build_set(builder: &globset::GlobSetBuilder) -> (r: Result<globset::GlobSet, globset::Error>)
    ensures
        r is Ok <==> set_builds(builder_patterns(*builder)),
        r matches Ok(set) ==> set_patterns(set) == builder_patterns(*builder),
{
    builder.build()
}

/// `globset::GlobSet::empty`: a set without patterns.
#[verifier::external_body]
fn empty_set() -> (r: globset::GlobSet)
    ensures
        set_patterns(r) == Seq::<Seq<char>>::empty(),
{
    globset::GlobSet::empty()
}

/// Whether any of the patterns matches a path.
pub open spec fn any_matches(patterns: Seq<Seq<char>>, path: Seq<char>) -> bool {
    exists|i: int| 0 <= i < patterns.len() && glob_matches(#[trigger] patterns[i], path)
}

/// `places` holds the places of the patterns that match a path, and no other.
pub open spec fn matching_places(
    places: Seq<usize>,
    patterns: Seq<Seq<char>>,
    path: Seq<char>,
) -> bool {
    &&& forall|i: int|
        0 <= i < places.len() ==> (#[trigger] places[i]) < patterns.len() && glob_matches(
            patterns[places[i] as int],
            path,
        )
    &&& forall|k: int|
        0 <= k < patterns.len() && glob_matches(#[trigger] patterns[k], path) ==> exists|i: int|
            0 <= i < places.len() && #[trigger] places[i] == k
}

/// `globset::GlobSet::is_match`: whether any pattern of the set matches.
#[verifier::external_body]
fn set_is_match(set: &globset::GlobSet, path: &str) -> (r: bool)
    ensures
        r == (exists|i: int| (0 <= i && i < set_patterns(*set).len()) && glob_matches(#[trigger] set_patterns(*set)[i], path@)),
{
    set.is_match(path)
}

/// `globset::GlobSet::matches`: the places of the patterns that match.
#[verifier::external_body]
fn set_matches(set: &globset::GlobSet, path: &str) -> (r: Vec<usize>)
    ensures
        matching_places(r@, set_patterns(*set), path@),
{
    set.matches(path)
}

/// The patterns that compile, in order.
pub open spec fn compiling(patterns: Seq<Seq<char>>) -> Seq<Seq<char>>
    decreases patterns.len(),
{
    if patterns.len() == 0 {
        Seq::empty()
    } else if glob_refusal(patterns.last()) is None {
        compiling(patterns.drop_last()).push(patterns.last())
    } else {
        compiling(patterns.drop_last())
    }
}

/// What is kept compiles.
pub proof fn compiling_compile(patterns: Seq<Seq<char>>)
    ensures
        forall|k: int|
            0 <= k < compiling(patterns).len() ==> glob_refusal(
                #[trigger] compiling(patterns)[k],
            ) is None,
    decreases patterns.len(),
{
    if patterns.len() > 0 {
        compiling_compile(patterns.drop_last());
    }
}

/// What a set made of `patterns` holds: the patterns that compile, or nothing
/// where those cannot be built into a set.
pub open spec fn effective(patterns: Seq<Seq<char>>) -> Seq<Seq<char>> {
    if set_builds(compiling(patterns)) {
        compiling(patterns)
    } else {
        Seq::empty()
    }
}

/// Patterns to match paths against.
pub struct PatternSet {
    set: globset::GlobSet,
}

impl View for PatternSet {
    type V = Seq<Seq<char>>;

    closed spec fn view(&self) -> Seq<Seq<char>> {
        set_patterns(self.set)
    }
}

impl PatternSet {
    /// Whether any pattern matches `path`.
    pub fn is_match(&self, path: &str) -> (r: bool)
        ensures
            r == any_matches(self@, path@),
    {
        set_is_match(&self.set, path)
    }

    /// The places of the patterns that match `path`.
    pub fn matches(&self, path: &str) -> (r: Vec<usize>)
        ensures
            matching_places(r@, self@, path@),
    {
        set_matches(&self.set, path)
    }
}

/// Compiles `patterns` one at a time, keeping those that compile: one bad
/// pattern leaves the others' matches intact.
pub fn build_globset(patterns: &Vec<String>) -> (r: PatternSet)
    ensures
        r@ == effective(views(patterns@)),
{
    let ghost all = views(patterns@);
    let mut builder = new_builder();
    let mut i: usize = 0;
    while i < patterns.len()
        invariant
            i <= patterns.len(),
            all == views(patterns@),
            builder_patterns(builder) == compiling(all.take(i as int)),
        decreases patterns.len() - i,
    {
        proof {
            assert(all.take(i + 1).drop_last() == all.take(i as int));
        }
        match compile_glob(patterns[i].as_str()) {
            Ok(glob) => {
                add_glob(&mut builder, glob);
            },
            Err(_) => {},
        }
        i += 1;
    }
    assert(all.take(all.len() as int) == all);
    match build_set(&builder) {
        Ok(set) => PatternSet { set },
        Err(_) => PatternSet { set: empty_set() },
    }
}

/// A set of all of `patterns` that compile, with the place of each in
/// `patterns`; `None` where no set can be built of them.
pub fn build_owned(patterns: &Vec<String>) -> (r: Option<(PatternSet, Vec<usize>)>)
    ensures
        r is Some <==> set_builds(compiling(views(patterns@))),
        r matches Some((set, places)) ==> {
            &&& set@ == compiling(views(patterns@))
            &&& places@.len() == set@.len()
            &&& forall|i: int|
                0 <= i < places@.len() ==> (#[trigger] places@[i]) < patterns@.len()
                    && patterns@[places@[i] as int]@ == set@[i]
            &&& forall|k: int|
                0 <= k < patterns@.len() && glob_refusal((#[trigger] patterns@[k])@) is None
                    ==> places@.contains(k as usize)
        },
{
    let ghost all = views(patterns@);
    let mut builder = new_builder();
    let mut places: Vec<usize> = Vec::new();
    let mut i: usize = 0;
    while i < patterns.len()
        invariant
            i <= patterns.len(),
            all == views(patterns@),
            builder_patterns(builder) == compiling(all.take(i as int)),
            places@.len() == compiling(all.take(i as int)).len(),
            forall|j: int|
                0 <= j < places@.len() ==> (#[trigger] places@[j]) < i
                    && patterns@[places@[j] as int]@ == compiling(all.take(i as int))[j],
            forall|k: int|
                0 <= k < i && glob_refusal((#[trigger] patterns@[k])@) is None ==> places@.contains(
                    k as usize,
                ),
        decreases patterns.len() - i,
    {
        proof {
            assert(all.take(i + 1).drop_last() == all.take(i as int));
        }
        let ghost before = places@;
        match compile_glob(patterns[i].as_str()) {
            Ok(glob) => {
                add_glob(&mut builder, glob);
                places.push(i);
                proof {
                    assert(places@[before.len() as int] == i);
                    assert forall|k: int|
                        0 <= k < i + 1 && glob_refusal((#[trigger] patterns@[k])@) is None implies places@.contains(
                        k as usize,
                    ) by {
                        if k < i {
                            let j = choose|j: int| 0 <= j < before.len() && before[j] == k as usize;
                            assert(places@[j] == k as usize);
                        }
                    }
                }
            },
            Err(_) => {},
        }
        i += 1;
    }
    assert(all.take(all.len() as int) == all);
    match build_set(&builder) {
        Ok(set) => Some((PatternSet { set }, places)),
        Err(_) => None,
    }
}

} // verus!
