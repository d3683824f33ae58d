//! Which files a beam's `inputs` and `outputs` name.
//!
//! Inputs are resolved from a walk of the beam's directory that honours
//! ignore files; outputs are looked up on the raw disk, since they live in
//! ignored directories more often than not.

use vstd::prelude::*;
use crate::globs::{any_matches, build_globset, effective};
use crate::loader::pair_views;
use crate::paths::{below, components, components_of, join_path, joined_path, strip_prefix};
use crate::sort::{path_lt, rearranged_images, sort, Listed, Ordered};
use crate::text::{chars_of, same_text, string_of, text_lt, views};

verus! {

/// A path found by walking a directory.
#[derive(Debug, PartialEq)]
pub struct Walked {
    pub path: String,
    pub is_file: bool,
}

/// Whether a walk goes into, or lists, an entry called `name`: version
/// control's own directory and the cache's are left out.
pub fn is_walked(name: &str) -> (r: bool)
    ensures
        r == (name@ != ".git"@ && name@ != ".alba"@),
{
    !same_text(name, ".git") && !same_text(name, ".alba")
}

/// No component of a path is one that a walk leaves out.
pub open spec fn only_walked(relative: Seq<char>) -> bool {
    !components(relative).contains(".git"@) && !components(relative).contains(".alba"@)
}

fn is_only_walked(relative: &str) -> (r: bool)
    ensures
        r == only_walked(relative@),
{
    let parts = components_of(relative);
    let ghost all = components(relative@);
    let mut i: usize = 0;
    while i < parts.len()
        invariant
            i <= parts@.len(),
            views(parts@) == all,
            all == components(relative@),
            forall|k: int| 0 <= k < i ==> (#[trigger] all[k]) != ".git"@ && all[k] != ".alba"@,
        decreases parts.len() - i,
    {
        assert(all[i as int] == parts@[i as int]@);
        if !is_walked(parts[i].as_str()) {
            return false;
        }
        i += 1;
    }
    assert(all.len() == parts@.len());
    true
}

/// A relative path with `/` separators.
pub open spec fn unified(relative: Seq<char>) -> Seq<char> {
    Seq::new(
        relative.len(),
        |i: int|
            if relative[i] == '\\' {
                '/'
            } else {
                relative[i]
            },
    )
}

/// A relative path with `/` separators.
pub fn unify(relative: &str) -> (r: String)
    ensures
        r@ == unified(relative@),
{
    let chars = chars_of(relative);
    let mut out: Vec<char> = Vec::new();
    let mut i: usize = 0;
    while i < chars.len()
        invariant
            i <= chars@.len(),
            chars@ == relative@,
            out@.len() == i,
            forall|k: int| 0 <= k < i ==> #[trigger] out@[k] == unified(relative@)[k],
        decreases chars.len() - i,
    {
        if chars[i] == '\\' {
            out.push('/');
        } else {
            out.push(chars[i]);
        }
        i += 1;
    }
    assert(out@ =~= unified(relative@));
    string_of(&out)
}

/// Whether a walked path is a file below `base` that one of `patterns`
/// matches. What is in version control's own directory or in the cache's is
/// none.
pub open spec fn is_input(base: Seq<char>, patterns: Seq<Seq<char>>, w: Walked) -> bool {
    w.is_file && below(w.path@, base) is Some && only_walked(below(w.path@, base)->Some_0)
        && any_matches(effective(patterns), unified(below(w.path@, base)->Some_0))
}

/// The inputs among the walked paths, in the order they were walked, each
/// with its path relative to `base`.
pub open spec fn inputs_walked(
    base: Seq<char>,
    patterns: Seq<Seq<char>>,
    walked: Seq<Walked>,
) -> Seq<(Seq<char>, Seq<char>)>
    decreases walked.len(),
{
    if walked.len() == 0 {
        Seq::empty()
    } else {
        let before = inputs_walked(base, patterns, walked.drop_last());
        if is_input(base, patterns, walked.last()) {
            before.push((unified(below(walked.last().path@, base)->Some_0), walked.last().path@))
        } else {
            before
        }
    }
}

/// Inputs are ordered by relative path, then by path.
pub open spec fn input_lt(a: (Seq<char>, Seq<char>), b: (Seq<char>, Seq<char>)) -> bool {
    text_lt(a.0, b.0) || (a.0 == b.0 && path_lt(components(a.1), components(b.1)))
}

pub open spec fn input_sorted(s: Seq<(Seq<char>, Seq<char>)>) -> bool {
    forall|i: int, j: int| #![trigger s[i], s[j]] 0 <= i < j < s.len() ==> !input_lt(s[j], s[i])
}

spec fn listed_view(l: Listed) -> (Seq<char>, Seq<char>) {
    (l.name@, l.path@)
}

/// The files among `walked` that `patterns` match below `base`, as relative
/// path and path, sorted. A pattern that does not compile matches nothing.
pub fn expand_globs(base: &str, patterns: &Vec<String>, walked: &Vec<Walked>) -> (r: Vec<
    (String, String),
>)
    ensures
        input_sorted(pair_views(r@)),
        pair_views(r@).to_multiset() == inputs_walked(
            base@,
            views(patterns@),
            walked@,
        ).to_multiset(),
{
    let ghost p = views(patterns@);
    let set = build_globset(patterns);
    let mut files: Vec<Listed> = Vec::new();
    let mut i: usize = 0;
    assert(files@.map_values(|l: Listed| listed_view(l)) =~= inputs_walked(base@, p, walked@.take(0)));
    while i < walked.len()
        invariant
            i <= walked@.len(),
            set@ == effective(p),
            forall|k: int|
                0 <= k < files@.len() ==> views((#[trigger] files@[k]).parts@) == components(
                    files@[k].path@,
                ),
            files@.map_values(|l: Listed| listed_view(l)) == inputs_walked(
                base@,
                p,
                walked@.take(i as int),
            ),
        decreases walked.len() - i,
    {
        let entry = &walked[i];
        assert(walked@.take(i + 1).drop_last() == walked@.take(i as int));
        assert(walked@.take(i + 1).last() == *entry);
        if entry.is_file {
            match strip_prefix(entry.path.as_str(), base) {
                None => {},
                Some(relative) => {
                    let name = unify(relative.as_str());
                    if is_only_walked(relative.as_str()) && set.is_match(name.as_str()) {
                        let ghost before = files@;
                        let parts = components_of(entry.path.as_str());
                        files.push(Listed { name, path: entry.path.clone(), parts });
                        proof {
                            assert(files@.map_values(|l: Listed| listed_view(l))
                                =~= before.map_values(|l: Listed| listed_view(l)).push(
                                listed_view(files@.last()),
                            ));
                        }
                    }
                },
            }
        }
        i += 1;
    }
    assert(walked@.take(walked@.len() as int) == walked@);
    let ghost unsorted = files@;
    let files = sort(files);
    proof {
        rearranged_images(files@, unsorted, |l: Listed| listed_view(l));
        assert forall|k: int| 0 <= k < files@.len() implies views((#[trigger] files@[k]).parts@)
            == components(files@[k].path@) by {
            files@.to_multiset_ensures();
            unsorted.to_multiset_ensures();
            assert(files@.contains(files@[k]));
            assert(unsorted.to_multiset().count(files@[k]) > 0);
            let j = choose|j: int| 0 <= j < unsorted.len() && unsorted[j] == files@[k];
            assert(views(unsorted[j].parts@) == components(unsorted[j].path@));
        }
    }
    let mut out: Vec<(String, String)> = Vec::new();
    let mut j: usize = 0;
    while j < files.len()
        invariant
            j <= files@.len(),
            out@.len() == j,
            forall|k: int|
                0 <= k < j ==> (#[trigger] out@[k]).0@ == files@[k].name@ && out@[k].1@
                    == files@[k].path@,
        decreases files.len() - j,
    {
        out.push((files[j].name.clone(), files[j].path.clone()));
        j += 1;
    }
    proof {
        let views_out = pair_views(out@);
        assert(views_out =~= files@.map_values(|l: Listed| listed_view(l)));
        assert forall|a: int, b: int| #![trigger views_out[a], views_out[b]] 0 <= a < b < views_out.len() implies !input_lt(
            views_out[b],
            views_out[a],
        ) by {
            assert(!files@[b].before(&files@[a]));
            assert(views(files@[a].parts@) == components(files@[a].path@));
            assert(views(files@[b].parts@) == components(files@[b].path@));
        }
    }
    out
}

/// How to tell whether an `outputs` pattern is satisfied.
#[derive(Debug, PartialEq)]
pub enum OutputQuery {
    /// A glob of the raw disk has to match at least one entry.
    AnyMatch(String),
    /// The path has to exist.
    Exists(String),
}

/// Whether a pattern has a character that makes it a glob.
pub open spec fn is_glob(pattern: Seq<char>) -> bool {
    pattern.contains('*') || pattern.contains('?') || pattern.contains('[')
}

fn has_glob_character(pattern: &str) -> (r: bool)
    ensures
        r == is_glob(pattern@),
{
    let chars = chars_of(pattern);
    let mut i: usize = 0;
    while i < chars.len()
        invariant
            i <= chars@.len(),
            chars@ == pattern@,
            forall|k: int|
                0 <= k < i ==> (#[trigger] chars@[k]) != '*' && chars@[k] != '?' && chars@[k] != '[',
        decreases chars.len() - i,
    {
        if chars[i] == '*' || chars[i] == '?' || chars[i] == '[' {
            assert(pattern@[i as int] == chars@[i as int]);
            return true;
        }
        i += 1;
    }
    false
}

/// What to look up for the `outputs` pattern of a beam in the directory
/// `base`.
pub fn output_query(base: &str, pattern: &str) -> (r: OutputQuery)
    ensures
        match r {
            OutputQuery::AnyMatch(path) => is_glob(pattern@) && path@ == joined_path(
                base@,
                pattern@,
            ),
            OutputQuery::Exists(path) => !is_glob(pattern@) && path@ == joined_path(
                base@,
                pattern@,
            ),
        },
{
    let path = join_path(base, pattern);
    if has_glob_character(pattern) {
        OutputQuery::AnyMatch(path)
    } else {
        OutputQuery::Exists(path)
    }
}

/// Whether every `outputs` pattern is satisfied, given what looking up each
/// answered. No patterns are satisfied.
pub fn outputs_satisfied(answers: &Vec<bool>) -> (r: bool)
    ensures
        r == (forall|i: int| 0 <= i < answers@.len() ==> #[trigger] answers@[i]),
        r == !answers@.contains(false),
{
    let mut i: usize = 0;
    while i < answers.len()
        invariant
            i <= answers@.len(),
            forall|k: int| 0 <= k < i ==> #[trigger] answers@[k],
        decreases answers.len() - i,
    {
        if !answers[i] {
            assert(answers@[i as int] == false);
            return false;
        }
        i += 1;
    }
    true
}

} // verus!
