//! "Did you mean ...?": the closest known name to a misspelt one.

use vstd::prelude::*;
use crate::text::{chars_of, comes_before, text_lt, text_lt_asymmetric, text_lt_total};

verus! {

/// The edit distance between two texts: the fewest insertions, deletions
/// and replacements of one character that turn one into the other.
pub open spec fn edit_distance(a: Seq<char>, b: Seq<char>) -> nat
    decreases a.len() + b.len(),
{
    if a.len() == 0 {
        b.len()
    } else if b.len() == 0 {
        a.len()
    } else if a.last() == b.last() {
        edit_distance(a.drop_last(), b.drop_last())
    } else {
        let replace = edit_distance(a.drop_last(), b.drop_last());
        let delete = edit_distance(a.drop_last(), b);
        let insert = edit_distance(a, b.drop_last());
        1 + least(least(replace, delete), insert)
    }
}

pub open spec fn least(a: nat, b: nat) -> nat {
    if a <= b {
        a
    } else {
        b
    }
}

pub open spec fn longer(a: Seq<char>, b: Seq<char>) -> nat {
    if a.len() >= b.len() {
        a.len()
    } else {
        b.len()
    }
}

/// The distance never exceeds the length of the longer text.
pub proof fn edit_distance_bounded(a: Seq<char>, b: Seq<char>)
    ensures
        edit_distance(a, b) <= longer(a, b),
    decreases a.len() + b.len(),
{
    if a.len() > 0 && b.len() > 0 {
        edit_distance_bounded(a.drop_last(), b.drop_last());
    }
}

/// A text is at distance zero from itself.
pub proof fn edit_distance_to_itself(a: Seq<char>)
    ensures
        edit_distance(a, a) == 0,
    decreases a.len(),
{
    if a.len() > 0 {
        edit_distance_to_itself(a.drop_last());
    }
}

/// The distance is the same in both directions.
pub proof fn edit_distance_symmetric(a: Seq<char>, b: Seq<char>)
    ensures
        edit_distance(a, b) == edit_distance(b, a),
    decreases a.len() + b.len(),
{
    if a.len() > 0 && b.len() > 0 {
        edit_distance_symmetric(a.drop_last(), b.drop_last());
        edit_distance_symmetric(a.drop_last(), b);
        edit_distance_symmetric(a, b.drop_last());
    }
}

/// Texts at distance zero are the same text.
pub proof fn edit_distance_zero(a: Seq<char>, b: Seq<char>)
    requires
        edit_distance(a, b) == 0,
    ensures
        a == b,
    decreases a.len() + b.len(),
{
    if a.len() > 0 && b.len() > 0 {
        if a.last() == b.last() {
            edit_distance_zero(a.drop_last(), b.drop_last());
            assert(a == a.drop_last().push(a.last()));
            assert(b == b.drop_last().push(b.last()));
        }
    } else {
        assert(a =~= b);
    }
}

/// The edit distance between `a` and `b`.
pub fn levenshtein(a: &str, b: &str) -> (r: usize)
    ensures
        r == edit_distance(a@, b@),
{
    let x = chars_of(a);
    let y = chars_of(b);
    let mut row: Vec<usize> = Vec::new();
    let mut k: usize = 0;
    while k < y.len()
        invariant
            k <= y.len(),
            row@.len() == k,
            forall|j: int| 0 <= j < k ==> row@[j] == j,
        decreases y.len() - k,
    {
        row.push(k);
        k += 1;
    }
    row.push(k);
    let mut i: usize = 0;
    assert forall|j: int| 0 <= j <= y@.len() implies #[trigger] row@[j] == edit_distance(
        x@.take(0),
        y@.take(j),
    ) by {}
    while i < x.len()
        invariant
            i <= x.len(),
            row@.len() == y@.len() + 1,
            forall|j: int|
                0 <= j <= y@.len() ==> #[trigger] row@[j] == edit_distance(
                    x@.take(i as int),
                    y@.take(j),
                ),
        decreases x.len() - i,
    {
        let ghost above = row@;
        let mut prev_diag: usize = row[0];
        row.set(0, i + 1);
        let mut j: usize = 0;
        assert(edit_distance(x@.take(i + 1), y@.take(0)) == i + 1);
        while j < y.len()
            invariant
                i < x.len(),
                j <= y.len(),
                row@.len() == y@.len() + 1,
                above.len() == row@.len(),
                prev_diag == above[j as int],
                forall|t: int|
                    0 <= t <= y@.len() ==> #[trigger] above[t] == edit_distance(
                        x@.take(i as int),
                        y@.take(t),
                    ),
                forall|t: int| j < t <= y@.len() ==> row@[t] == above[t],
                forall|t: int|
                    0 <= t <= j ==> #[trigger] row@[t] == edit_distance(
                        x@.take(i + 1),
                        y@.take(t),
                    ),
            decreases y.len() - j,
        {
            let up: usize = row[j + 1];
            let left: usize = row[j];
            proof {
                let p = x@.take(i + 1);
                let q = y@.take(j + 1);
                assert(p.drop_last() == x@.take(i as int));
                assert(q.drop_last() == y@.take(j as int));
                edit_distance_bounded(p, q);
                assert(above[j + 1] == edit_distance(x@.take(i as int), q));
            }
            let cell: usize = if x[i] == y[j] {
                prev_diag
            } else {
                let a1: usize = if prev_diag <= up { prev_diag } else { up };
                let a2: usize = if a1 <= left { a1 } else { left };
                1 + a2
            };
            row.set(j + 1, cell);
            prev_diag = up;
            j += 1;
        }
        i += 1;
    }
    assert(x@.take(x@.len() as int) == a@);
    assert(y@.take(y@.len() as int) == b@);
    row[y.len()]
}

/// How far apart a misspelling and the name meant may be.
pub const SUGGESTION_DISTANCE: usize = 2;

/// `c` is closer to `name` than `d`, or as close and earlier in the alphabet.
pub open spec fn closer(name: Seq<char>, c: Seq<char>, d: Seq<char>) -> bool {
    ||| edit_distance(name, c) < edit_distance(name, d)
    ||| edit_distance(name, c) == edit_distance(name, d) && text_lt(c, d)
}

/// `c` is a candidate within reach of `name`, and no other candidate is
/// closer.
pub open spec fn is_closest(name: Seq<char>, candidates: Set<Seq<char>>, c: Seq<char>) -> bool {
    &&& candidates.contains(c)
    &&& edit_distance(name, c) <= SUGGESTION_DISTANCE
    &&& forall|d: Seq<char>| #[trigger] candidates.contains(d) ==> d == c || closer(name, c, d)
}

/// What is suggested for `name`: the closest candidate within reach, the
/// alphabetically first of several equally close ones, or nothing.
pub open spec fn suggestion(name: Seq<char>, candidates: Set<Seq<char>>) -> Option<Seq<char>> {
    if exists|c: Seq<char>| is_closest(name, candidates, c) {
        Some(choose|c: Seq<char>| is_closest(name, candidates, c))
    } else {
        None
    }
}

/// At most one candidate is the closest.
pub proof fn closest_is_unique(
    name: Seq<char>,
    candidates: Set<Seq<char>>,
    c: Seq<char>,
    d: Seq<char>,
)
    requires
        is_closest(name, candidates, c),
        is_closest(name, candidates, d),
    ensures
        c == d,
{
    if c != d {
        if text_lt(c, d) {
            text_lt_asymmetric(c, d);
        }
    }
}

/// The texts of a list, as a set: their order plays no part.
pub open spec fn names_of(candidates: Seq<&str>) -> Set<Seq<char>> {
    Set::new(|c: Seq<char>| exists|i: int| 0 <= i < candidates.len() && (#[trigger] candidates[i])@ == c)
}

/// The closest name to `name` among `candidates`, if one is within reach.
pub fn suggest<'a>(name: &str, candidates: &[&'a str]) -> (r: Option<&'a str>)
    ensures
        match r {
            Some(c) => suggestion(name@, names_of(candidates@)) == Some(c@),
            None => suggestion(name@, names_of(candidates@)) is None,
        },
{
    let ghost all = names_of(candidates@);
    let mut best: Option<(&'a str, usize)> = None;
    let mut i: usize = 0;
    while i < candidates.len()
        invariant
            i <= candidates.len(),
            match best {
                None => forall|k: int|
                    0 <= k < i ==> edit_distance(name@, (#[trigger] candidates@[k])@)
                        > SUGGESTION_DISTANCE,
                Some((c, d)) => {
                    &&& d == edit_distance(name@, c@)
                    &&& d <= SUGGESTION_DISTANCE
                    &&& exists|k: int| 0 <= k < i && (#[trigger] candidates@[k])@ == c@
                    &&& forall|k: int|
                        0 <= k < i ==> (#[trigger] candidates@[k])@ == c@ || closer(
                            name@,
                            c@,
                            candidates@[k]@,
                        )
                },
            },
        decreases candidates.len() - i,
    {
        let candidate = candidates[i];
        let distance: usize = levenshtein(name, candidate);
        if distance <= SUGGESTION_DISTANCE {
            let better = match best {
                None => true,
                Some((c, d)) => {
                    distance < d || (distance == d && comes_before(candidate, c))
                },
            };
            if better {
                proof {
                    if let Some((c, d)) = best {
                        assert forall|k: int| 0 <= k < i implies (#[trigger] candidates@[k])@
                            == candidate@ || closer(name@, candidate@, candidates@[k]@) by {
                            if candidates@[k]@ != c@ && text_lt(c@, candidates@[k]@) && text_lt(
                                candidate@,
                                c@,
                            ) {
                                crate::text::text_lt_transitive(
                                    candidate@,
                                    c@,
                                    candidates@[k]@,
                                );
                            }
                        }
                    }
                }
                best = Some((candidate, distance));
            } else {
                proof {
                    if let Some((c, d)) = best {
                        text_lt_total(candidate@, c@);
                    }
                }
            }
        }
        i += 1;
    }
    match best {
        None => {
            proof {
                assert forall|c: Seq<char>| !is_closest(name@, all, c) by {
                    if is_closest(name@, all, c) {
                        assert(all.contains(c));
                    }
                }
            }
            None
        },
        Some((c, d)) => {
            proof {
                assert(is_closest(name@, all, c@));
                let chosen = choose|x: Seq<char>| is_closest(name@, all, x);
                closest_is_unique(name@, all, c@, chosen);
            }
            Some(c)
        },
    }
}

} // verus!
