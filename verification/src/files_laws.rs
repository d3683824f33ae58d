//! What the inputs of a beam depend on.

use vstd::prelude::*;
use crate::files::{input_lt, input_sorted, inputs_walked, is_input, unified, Walked};
use crate::globs::{any_matches, compiling, effective, glob_matches, glob_refusal, set_builds};
use crate::paths::{below, components};
use crate::sort::{path_lt, path_lt_irreflexive, path_lt_total, path_lt_transitive};
use crate::text::{text_lt, text_lt_irreflexive, text_lt_total, text_lt_transitive};

verus! {

/// Compiling goes pattern by pattern.
proof fn compiling_both(a: Seq<Seq<char>>, b: Seq<Seq<char>>)
    ensures
        compiling(a + b) == compiling(a) + compiling(b),
    decreases b.len(),
{
    if b.len() == 0 {
        assert(a + b =~= a);
        assert(compiling(a) + compiling(b) =~= compiling(a));
    } else {
        assert((a + b).drop_last() =~= a + b.drop_last());
        compiling_both(a, b.drop_last());
        assert(compiling(a + b) =~= compiling(a) + compiling(b));
    }
}

/// What compiles are the patterns that are not refused.
proof fn compiling_holds(patterns: Seq<Seq<char>>, x: Seq<char>)
    ensures
        compiling(patterns).contains(x) <==> patterns.contains(x) && glob_refusal(x) is None,
    decreases patterns.len(),
{
    if patterns.len() > 0 {
        let front = patterns.drop_last();
        compiling_holds(front, x);
        assert(patterns =~= front.push(patterns.last()));
        let kept = compiling(front);
        if front.contains(x) {
            let i = choose|i: int| 0 <= i < front.len() && front[i] == x;
            assert(patterns[i] == x);
        }
        if patterns.contains(x) && patterns.last() != x {
            let i = choose|i: int| 0 <= i < patterns.len() && patterns[i] == x;
            assert(front[i] == x);
        }
        if patterns.last() == x {
            assert(patterns[patterns.len() - 1] == x);
        }
        if kept.contains(x) {
            let i = choose|i: int| 0 <= i < kept.len() && kept[i] == x;
            assert(kept.push(patterns.last())[i] == x);
        }
        assert(kept.push(patterns.last())[kept.len() as int] == patterns.last());
    }
}

/// Where the same patterns are in effect, the same files are inputs.
proof fn the_same_matches(
    base: Seq<char>,
    p: Seq<Seq<char>>,
    q: Seq<Seq<char>>,
    walked: Seq<Walked>,
)
    requires
        forall|path: Seq<char>|
            any_matches(effective(p), path) == #[trigger] any_matches(effective(q), path),
    ensures
        inputs_walked(base, p, walked) == inputs_walked(base, q, walked),
    decreases walked.len(),
{
    if walked.len() > 0 {
        the_same_matches(base, p, q, walked.drop_last());
        let path = unified(below(walked.last().path@, base)->Some_0);
        assert(any_matches(effective(p), path) == any_matches(effective(q), path));
        assert(is_input(base, p, walked.last()) == is_input(base, q, walked.last()));
    }
}

/// A pattern that does not compile, wherever it stands, changes nothing.
pub proof fn a_bad_pattern_changes_nothing(
    base: Seq<char>,
    before: Seq<Seq<char>>,
    bad: Seq<char>,
    after: Seq<Seq<char>>,
    walked: Seq<Walked>,
)
    ensures
        glob_refusal(bad) is Some ==> inputs_walked(base, before + seq![bad] + after, walked)
            == inputs_walked(base, before + after, walked),
{
    if glob_refusal(bad) is Some {
        compiling_both(before + seq![bad], after);
        compiling_both(before, seq![bad]);
        compiling_both(before, after);
        assert(seq![bad].drop_last() =~= Seq::<Seq<char>>::empty());
        reveal_with_fuel(compiling, 2);
        assert(compiling(seq![bad]) =~= Seq::<Seq<char>>::empty());
        assert(compiling(before) + compiling(seq![bad]) =~= compiling(before));
        the_same_matches(base, before + seq![bad] + after, before + after, walked);
    }
}

/// The order of the patterns does not matter, as long as either order can be
/// built into a set.
pub proof fn the_order_of_patterns_does_not_matter(
    base: Seq<char>,
    p: Seq<Seq<char>>,
    q: Seq<Seq<char>>,
    walked: Seq<Walked>,
)
    requires
        p.to_multiset() == q.to_multiset(),
    ensures
        set_builds(compiling(p)) == set_builds(compiling(q)) ==> inputs_walked(base, p, walked)
            == inputs_walked(base, q, walked),
{
    if set_builds(compiling(p)) == set_builds(compiling(q)) {
        assert forall|path: Seq<char>| any_matches(effective(p), path) == #[trigger] any_matches(
            effective(q),
            path,
        ) by {
            matches_are_kept(p, q, path);
            matches_are_kept(q, p, path);
        }
        the_same_matches(base, p, q, walked);
    }
}

proof fn matches_are_kept(p: Seq<Seq<char>>, q: Seq<Seq<char>>, path: Seq<char>)
    requires
        p.to_multiset() == q.to_multiset(),
        set_builds(compiling(p)) == set_builds(compiling(q)),
    ensures
        any_matches(effective(p), path) ==> any_matches(effective(q), path),
{
    if any_matches(effective(p), path) {
        let i = choose|i: int|
            0 <= i < effective(p).len() && glob_matches(
                #[trigger] effective(p)[i],
                path,
            );
        let x = effective(p)[i];
        assert(compiling(p)[i] == x);
        assert(compiling(p).contains(x));
        compiling_holds(p, x);
        p.to_multiset_ensures();
        q.to_multiset_ensures();
        assert(p.to_multiset().count(x) > 0);
        assert(q.contains(x));
        compiling_holds(q, x);
        let j = choose|j: int| 0 <= j < compiling(q).len() && compiling(q)[j] == x;
        assert(effective(q)[j] == x);
    }
}

/// Without patterns there are no inputs.
pub proof fn no_patterns_no_inputs(base: Seq<char>, walked: Seq<Walked>)
    ensures
        inputs_walked(base, Seq::empty(), walked) == Seq::<(Seq<char>, Seq<char>)>::empty(),
    decreases walked.len(),
{
    let none = Seq::<Seq<char>>::empty();
    assert(effective(none) =~= none);
    if walked.len() > 0 {
        no_patterns_no_inputs(base, walked.drop_last());
        assert(!is_input(base, none, walked.last()));
    }
}

/// Every input is a walked file below the directory that a pattern matches.
proof fn an_input_was_walked(
    base: Seq<char>,
    patterns: Seq<Seq<char>>,
    walked: Seq<Walked>,
    i: int,
) -> (k: int)
    requires
        0 <= i < inputs_walked(base, patterns, walked).len(),
    ensures
        0 <= k < walked.len(),
        walked[k].path@ == inputs_walked(base, patterns, walked)[i].1,
        is_input(base, patterns, walked[k]),
        inputs_walked(base, patterns, walked)[i].0 == unified(below(walked[k].path@, base)->Some_0),
    decreases walked.len(),
{
    let front = walked.drop_last();
    let before = inputs_walked(base, patterns, front);
    if i < before.len() {
        let k = an_input_was_walked(base, patterns, front, i);
        assert(front[k] == walked[k]);
        k
    } else {
        walked.len() - 1
    }
}

/// A walk that meets no path twice gives no input twice.
pub proof fn every_input_is_there_once(
    base: Seq<char>,
    patterns: Seq<Seq<char>>,
    walked: Seq<Walked>,
)
    requires
        forall|i: int, j: int|
            0 <= i < j < walked.len() ==> (#[trigger] walked[i]).path@ != (
            #[trigger] walked[j]).path@,
    ensures
        inputs_walked(base, patterns, walked).no_duplicates(),
    decreases walked.len(),
{
    if walked.len() > 0 {
        let front = walked.drop_last();
        let before = inputs_walked(base, patterns, front);
        let all = inputs_walked(base, patterns, walked);
        assert forall|i: int, j: int| 0 <= i < j < front.len() implies (
        #[trigger] front[i]).path@ != (#[trigger] front[j]).path@ by {
            assert(front[i] == walked[i] && front[j] == walked[j]);
        }
        every_input_is_there_once(base, patterns, front);
        assert forall|a: int, b: int| 0 <= a < all.len() && 0 <= b < all.len() && a != b implies all[a]
            != all[b] by {
            let low = if a < b {
                a
            } else {
                b
            };
            let high = if a < b {
                b
            } else {
                a
            };
            if high < before.len() {
                assert(before[low] != before[high]);
            } else {
                let k = an_input_was_walked(base, patterns, front, low);
                assert(front[k] == walked[k]);
                assert(walked[k].path@ != walked[walked.len() - 1].path@);
            }
        }
    }
}

/// The inputs are what the walk met and is an input, and nothing else: files
/// below the directory, outside version control's own directory and the
/// cache's, that a pattern matches, hidden ones too.
pub proof fn the_inputs_are_what_matches(
    base: Seq<char>,
    patterns: Seq<Seq<char>>,
    walked: Seq<Walked>,
    input: (Seq<char>, Seq<char>),
)
    ensures
        inputs_walked(base, patterns, walked).contains(input) <==> exists|k: int|
            0 <= k < walked.len() && is_input(base, patterns, #[trigger] walked[k]) && input == (
                unified(below(walked[k].path@, base)->Some_0),
                walked[k].path@,
            ),
    decreases walked.len(),
{
    let all = inputs_walked(base, patterns, walked);
    if all.contains(input) {
        let i = choose|i: int| 0 <= i < all.len() && all[i] == input;
        let k = an_input_was_walked(base, patterns, walked, i);
        assert(is_input(base, patterns, walked[k]));
    }
    if exists|k: int|
        0 <= k < walked.len() && is_input(base, patterns, #[trigger] walked[k]) && input == (
            unified(below(walked[k].path@, base)->Some_0),
            walked[k].path@,
        ) {
        let k = choose|k: int|
            0 <= k < walked.len() && is_input(base, patterns, #[trigger] walked[k]) && input == (
                unified(below(walked[k].path@, base)->Some_0),
                walked[k].path@,
            );
        let front = walked.drop_last();
        let before = inputs_walked(base, patterns, front);
        if k < walked.len() - 1 {
            assert(front[k] == walked[k]);
            the_inputs_are_what_matches(base, patterns, front, input);
            let i = choose|i: int| 0 <= i < before.len() && before[i] == input;
            assert(all[i] == input);
        } else {
            assert(all[before.len() as int] == input);
        }
    }
}

/// No two of the files are one file spelled differently.
pub open spec fn spelled_once(files: Seq<(Seq<char>, Seq<char>)>) -> bool {
    forall|i: int, j: int|
        #![trigger files[i], files[j]]
        0 <= i < j < files.len() ==> files[i].0 != files[j].0 || components(files[i].1)
            != components(files[j].1)
}

/// Of two inputs that are not one file one comes first.
proof fn one_input_comes_first(a: (Seq<char>, Seq<char>), b: (Seq<char>, Seq<char>))
    ensures
        a.0 == b.0 && components(a.1) == components(b.1) || input_lt(a, b) || input_lt(b, a),
        !(input_lt(a, b) && input_lt(b, a)),
{
    text_lt_total(a.0, b.0);
    if a.0 != b.0 {
        if text_lt(a.0, b.0) && text_lt(b.0, a.0) {
            text_lt_transitive(a.0, b.0, a.0);
            text_lt_irreflexive(a.0);
        }
    } else {
        text_lt_irreflexive(a.0);
        path_lt_total(components(a.1), components(b.1));
        if path_lt(components(a.1), components(b.1)) && path_lt(
            components(b.1),
            components(a.1),
        ) {
            path_lt_transitive(components(a.1), components(b.1), components(a.1));
            path_lt_irreflexive(components(a.1));
        }
    }
}

/// The same files come in the same order, in whatever order they were met.
pub proof fn inputs_come_in_one_order(
    a: Seq<(Seq<char>, Seq<char>)>,
    b: Seq<(Seq<char>, Seq<char>)>,
)
    requires
        input_sorted(a),
        input_sorted(b),
        a.to_multiset() == b.to_multiset(),
        spelled_once(a),
    ensures
        a == b,
    decreases a.len(),
{
    a.to_multiset_ensures();
    b.to_multiset_ensures();
    if a.len() == 0 {
        assert(a =~= b);
    } else {
        let x = a.last();
        let y = b.last();
        assert(a[a.len() - 1] == x && b[b.len() - 1] == y);
        assert(b.contains(y));
        assert(a.to_multiset().count(y) > 0);
        assert(a.contains(y));
        let i = choose|i: int| 0 <= i < a.len() && a[i] == y;
        assert(a.contains(x));
        assert(b.to_multiset().count(x) > 0);
        assert(b.contains(x));
        let j = choose|j: int| 0 <= j < b.len() && b[j] == x;
        if i < a.len() - 1 {
            assert(!input_lt(a[a.len() - 1], a[i]));
            if j < b.len() - 1 {
                assert(!input_lt(b[b.len() - 1], b[j]));
                one_input_comes_first(x, y);
                assert(a[i].0 != a[a.len() - 1].0 || components(a[i].1) != components(
                    a[a.len() - 1].1,
                ));
            }
        }
        assert(x == y);
        assert(a =~= a.drop_last().push(x));
        assert(b =~= b.drop_last().push(x));
        a.drop_last().to_multiset_ensures();
        b.drop_last().to_multiset_ensures();
        assert(a.to_multiset() =~= a.drop_last().to_multiset().insert(x));
        assert(b.to_multiset() =~= b.drop_last().to_multiset().insert(x));
        assert(a.drop_last().to_multiset() =~= a.to_multiset().remove(x));
        assert(b.drop_last().to_multiset() =~= b.to_multiset().remove(x));
        inputs_come_in_one_order(a.drop_last(), b.drop_last());
    }
}

} // verus!
