//! What the edit distance is: the least number of edits that lead from one
//! text to another.

use vstd::prelude::*;
use crate::suggest::{
    edit_distance, edit_distance_bounded, edit_distance_symmetric, edit_distance_to_itself,
};

verus! {

/// `b` is `a` with one character inserted.
pub open spec fn inserted(a: Seq<char>, b: Seq<char>) -> bool {
    exists|i: int, c: char| 0 <= i <= a.len() && b == #[trigger] a.insert(i, c)
}

/// `b` is `a` with one character removed.
pub open spec fn removed(a: Seq<char>, b: Seq<char>) -> bool {
    exists|i: int| 0 <= i < a.len() && b == #[trigger] a.remove(i)
}

/// `b` is `a` with one character replaced.
pub open spec fn replaced(a: Seq<char>, b: Seq<char>) -> bool {
    exists|i: int, c: char| 0 <= i < a.len() && b == #[trigger] a.update(i, c)
}

/// One edit leads from `a` to `b`.
pub open spec fn one_edit(a: Seq<char>, b: Seq<char>) -> bool {
    inserted(a, b) || removed(a, b) || replaced(a, b)
}

/// One edit leads from each text to the next, from `a` to `b`.
pub open spec fn edits(w: Seq<Seq<char>>, a: Seq<char>, b: Seq<char>) -> bool {
    &&& w.len() > 0
    &&& w[0] == a
    &&& w.last() == b
    &&& forall|k: int| 0 <= k < w.len() - 1 ==> one_edit(#[trigger] w[k], w[k + 1])
}

/// One more character on the right makes a difference of at most one.
proof fn one_more_on_the_right(p: Seq<char>, q: Seq<char>, y: char)
    ensures
        edit_distance(p, q) <= edit_distance(p, q.push(y)) + 1,
    decreases p.len() + q.len(),
{
    assert(q.push(y).drop_last() =~= q);
    if p.len() > 0 {
        let front = p.drop_last();
        assert(p =~= front.push(p.last()));
        one_more_on_the_left(front, p.last(), q);
        one_more_on_the_right(front, q, y);
    }
}

/// One more character on the left costs at most one.
proof fn one_more_on_the_left(p: Seq<char>, x: char, q: Seq<char>)
    ensures
        edit_distance(p.push(x), q) <= edit_distance(p, q) + 1,
    decreases p.len() + q.len(),
{
    assert(p.push(x).drop_last() =~= p);
    if q.len() > 0 {
        assert(q =~= q.drop_last().push(q.last()));
        if x == q.last() {
            one_more_on_the_right(p, q.drop_last(), q.last());
        }
    }
}

/// The distance is no more than what follows the last step costs, whichever
/// that step is.
proof fn no_more_than_a_step(a: Seq<char>, b: Seq<char>)
    requires
        a.len() > 0,
        b.len() > 0,
    ensures
        edit_distance(a, b) <= edit_distance(a.drop_last(), b) + 1,
        edit_distance(a, b) <= edit_distance(a, b.drop_last()) + 1,
        edit_distance(a, b) <= edit_distance(a.drop_last(), b.drop_last()) + 1,
        a.last() == b.last() ==> edit_distance(a, b) == edit_distance(
            a.drop_last(),
            b.drop_last(),
        ),
{
    let p = a.drop_last();
    let q = b.drop_last();
    assert(a =~= p.push(a.last()));
    assert(b =~= q.push(b.last()));
    one_more_on_the_left(p, a.last(), b);
    edit_distance_symmetric(a, b);
    edit_distance_symmetric(a, q);
    one_more_on_the_left(q, b.last(), a);
}

/// The distance is no less than the difference in length.
proof fn no_less_than_the_lengths(a: Seq<char>, b: Seq<char>)
    ensures
        edit_distance(a, b) >= a.len() - b.len(),
        edit_distance(a, b) >= b.len() - a.len(),
    decreases a.len() + b.len(),
{
    if a.len() > 0 && b.len() > 0 {
        no_less_than_the_lengths(a.drop_last(), b.drop_last());
        no_less_than_the_lengths(a.drop_last(), b);
        no_less_than_the_lengths(a, b.drop_last());
    }
}

/// A detour is no shorter: the distance from `a` to `c` is at most that from
/// `a` to `b` and from there to `c`.
pub proof fn a_detour_is_no_shorter(a: Seq<char>, b: Seq<char>, c: Seq<char>)
    ensures
        edit_distance(a, c) <= edit_distance(a, b) + edit_distance(b, c),
    decreases a.len() + b.len() + c.len(),
{
    no_less_than_the_lengths(a, b);
    no_less_than_the_lengths(b, c);
    if a.len() == 0 || c.len() == 0 {
    } else if b.len() == 0 {
        edit_distance_bounded(a, c);
    } else {
        let p = a.drop_last();
        let q = b.drop_last();
        let r = c.drop_last();
        no_more_than_a_step(a, b);
        no_more_than_a_step(b, c);
        no_more_than_a_step(a, c);
        a_detour_is_no_shorter(p, b, c);
        a_detour_is_no_shorter(a, b, r);
        a_detour_is_no_shorter(a, q, c);
        a_detour_is_no_shorter(a, q, r);
        a_detour_is_no_shorter(p, q, c);
        a_detour_is_no_shorter(p, q, r);
    }
}

/// What two texts end with alike adds nothing.
proof fn the_same_end(a: Seq<char>, b: Seq<char>, end: Seq<char>)
    ensures
        edit_distance(a + end, b + end) == edit_distance(a, b),
    decreases end.len(),
{
    if end.len() == 0 {
        assert(a + end =~= a);
        assert(b + end =~= b);
    } else {
        assert((a + end).drop_last() =~= a + end.drop_last());
        assert((b + end).drop_last() =~= b + end.drop_last());
        the_same_end(a, b, end.drop_last());
    }
}

/// One edit is a distance of at most one.
proof fn an_edit_is_a_distance_of_one(a: Seq<char>, b: Seq<char>)
    requires
        one_edit(a, b),
    ensures
        edit_distance(a, b) <= 1,
{
    if inserted(a, b) {
        let (i, c) = choose|i: int, c: char| 0 <= i <= a.len() && b == #[trigger] a.insert(i, c);
        one_insertion(a, i, c);
    } else if removed(a, b) {
        let i = choose|i: int| 0 <= i < a.len() && b == #[trigger] a.remove(i);
        assert(b.insert(i, a[i]) =~= a);
        one_insertion(b, i, a[i]);
        edit_distance_symmetric(a, b);
    } else {
        let (i, c) = choose|i: int, c: char| 0 <= i < a.len() && b == #[trigger] a.update(i, c);
        let start = a.take(i);
        let end = a.skip(i + 1);
        assert(a =~= start.push(a[i]) + end);
        assert(b =~= start.push(c) + end);
        the_same_end(start.push(a[i]), start.push(c), end);
        no_more_than_a_step(start.push(a[i]), start.push(c));
        assert(start.push(a[i]).drop_last() =~= start);
        assert(start.push(c).drop_last() =~= start);
        edit_distance_to_itself(start);
    }
}

proof fn one_insertion(a: Seq<char>, i: int, c: char)
    requires
        0 <= i <= a.len(),
    ensures
        edit_distance(a, a.insert(i, c)) <= 1,
{
    let b = a.insert(i, c);
    let start = a.take(i);
    let end = a.skip(i);
    assert(a =~= start + end);
    assert(b =~= start.push(c) + end);
    the_same_end(start, start.push(c), end);
    one_more_on_the_left(start, c, start);
    edit_distance_symmetric(start, start.push(c));
    edit_distance_to_itself(start);
}

/// No fewer edits than the distance lead from one text to another.
pub proof fn no_fewer_edits_do(w: Seq<Seq<char>>, a: Seq<char>, b: Seq<char>)
    requires
        edits(w, a, b),
    ensures
        edit_distance(a, b) <= w.len() - 1,
    decreases w.len(),
{
    if w.len() == 1 {
        edit_distance_to_itself(a);
    } else {
        let before = w.drop_last();
        let c = before.last();
        assert forall|k: int| 0 <= k < before.len() - 1 implies one_edit(
            #[trigger] before[k],
            before[k + 1],
        ) by {
            assert(one_edit(w[k], w[k + 1]));
        }
        no_fewer_edits_do(before, a, c);
        assert(one_edit(w[w.len() - 2], w[w.len() - 2 + 1]));
        an_edit_is_a_distance_of_one(c, b);
        a_detour_is_no_shorter(a, c, b);
    }
}

/// An edit can be made in front of one more character.
proof fn an_edit_before_a_character(a: Seq<char>, b: Seq<char>, x: char)
    requires
        one_edit(a, b),
    ensures
        one_edit(a.push(x), b.push(x)),
{
    if inserted(a, b) {
        let (i, c) = choose|i: int, c: char| 0 <= i <= a.len() && b == #[trigger] a.insert(i, c);
        assert(b.push(x) =~= a.push(x).insert(i, c));
    } else if removed(a, b) {
        let i = choose|i: int| 0 <= i < a.len() && b == #[trigger] a.remove(i);
        assert(b.push(x) =~= a.push(x).remove(i));
    } else {
        let (i, c) = choose|i: int, c: char| 0 <= i < a.len() && b == #[trigger] a.update(i, c);
        assert(b.push(x) =~= a.push(x).update(i, c));
    }
}

/// Edits, each made in front of one more character.
proof fn edits_before_a_character(w: Seq<Seq<char>>, a: Seq<char>, b: Seq<char>, x: char) -> (r:
    Seq<Seq<char>>)
    requires
        edits(w, a, b),
    ensures
        edits(r, a.push(x), b.push(x)),
        r.len() == w.len(),
{
    let r = Seq::new(w.len(), |k: int| w[k].push(x));
    assert forall|k: int| 0 <= k < r.len() - 1 implies one_edit(#[trigger] r[k], r[k + 1]) by {
        assert(one_edit(w[k], w[k + 1]));
        an_edit_before_a_character(w[k], w[k + 1], x);
    }
    r
}

proof fn edits_and_one_more(w: Seq<Seq<char>>, a: Seq<char>, b: Seq<char>, c: Seq<char>) -> (r: Seq<
    Seq<char>,
>)
    requires
        edits(w, a, b),
        one_edit(b, c),
    ensures
        edits(r, a, c),
        r.len() == w.len() + 1,
{
    let r = w.push(c);
    assert forall|k: int| 0 <= k < r.len() - 1 implies one_edit(#[trigger] r[k], r[k + 1]) by {
        if k < w.len() - 1 {
            assert(one_edit(w[k], w[k + 1]));
        }
    }
    r
}

/// As many edits as the distance lead from one text to another.
pub proof fn so_many_edits_do(a: Seq<char>, b: Seq<char>) -> (w: Seq<Seq<char>>)
    ensures
        edits(w, a, b),
        w.len() == edit_distance(a, b) + 1,
    decreases a.len() + b.len(),
{
    if a.len() == 0 && b.len() == 0 {
        assert(a =~= b);
        seq![a]
    } else if a.len() == 0 {
        let w = so_many_edits_do(a, b.drop_last());
        assert(b =~= b.drop_last().insert(b.len() - 1, b.last()));
        edits_and_one_more(w, a, b.drop_last(), b)
    } else if b.len() == 0 {
        so_many_edits_do_after_one(a, b)
    } else {
        let p = a.drop_last();
        let q = b.drop_last();
        assert(a =~= p.push(a.last()));
        assert(b =~= q.push(b.last()));
        if a.last() == b.last() {
            let w = so_many_edits_do(p, q);
            edits_before_a_character(w, p, q, a.last())
        } else if edit_distance(a, b) == 1 + edit_distance(p, q) {
            let shorter = so_many_edits_do(p, q);
            let w = edits_before_a_character(shorter, p, q, a.last());
            assert(b =~= q.push(a.last()).update(q.len() as int, b.last()));
            edits_and_one_more(w, a, q.push(a.last()), b)
        } else if edit_distance(a, b) == 1 + edit_distance(a, q) {
            let w = so_many_edits_do(a, q);
            assert(b =~= q.insert(q.len() as int, b.last()));
            edits_and_one_more(w, a, q, b)
        } else {
            so_many_edits_do_after_one(a, b)
        }
    }
}

/// The last character is removed first.
proof fn so_many_edits_do_after_one(a: Seq<char>, b: Seq<char>) -> (w: Seq<Seq<char>>)
    requires
        a.len() > 0,
        edit_distance(a, b) == 1 + edit_distance(a.drop_last(), b),
    ensures
        edits(w, a, b),
        w.len() == edit_distance(a, b) + 1,
    decreases a.len() + b.len(), 0int,
{
    let rest = so_many_edits_do(a.drop_last(), b);
    let w = seq![a] + rest;
    assert(a.drop_last() =~= a.remove(a.len() - 1));
    assert forall|k: int| 0 <= k < w.len() - 1 implies one_edit(#[trigger] w[k], w[k + 1]) by {
        if k > 0 {
            assert(w[k] == rest[k - 1]);
            assert(w[k + 1] == rest[k - 1 + 1]);
        } else {
            assert(w[1] == rest[0]);
        }
    }
    assert(w.last() == rest.last());
    w
}

/// The distance to the empty text is the number of characters.
pub proof fn as_far_from_nothing_as_long(a: Seq<char>)
    ensures
        edit_distance(a, Seq::empty()) == a.len(),
{
}

/// Swapping two neighbours that differ costs two edits.
pub proof fn a_swap_costs_two(start: Seq<char>, x: char, y: char, end: Seq<char>)
    requires
        x != y,
    ensures
        edit_distance(start.push(x).push(y) + end, start.push(y).push(x) + end) == 2,
{
    let a = start.push(x).push(y);
    let b = start.push(y).push(x);
    the_same_end(a, b, end);
    let middle = start.push(x).push(x);
    assert(middle =~= a.update(1int + start.len(), x));
    assert(b =~= middle.update(start.len() as int, y));
    let w = seq![a, middle, b];
    assert(edits(w, a, b));
    no_fewer_edits_do(w, a, b);
    let least = so_many_edits_do(a, b);
    assert(a[start.len() as int] == x && b[start.len() as int] == y);
    assert(a[1int + start.len()] == y && b[1int + start.len()] == x);
    if least.len() <= 2 {
        if least.len() == 2 {
            assert(one_edit(least[0], least[1]));
            assert(a.len() == b.len());
            if replaced(a, b) {
                let (i, c) = choose|i: int, c: char|
                    0 <= i < a.len() && b == #[trigger] a.update(i, c);
            }
        }
    }
}

} // verus!
