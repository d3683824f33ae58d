//! Sorting, by merging.

use vstd::prelude::*;
use crate::text::{
    comes_before, same_text, text_lt, text_lt_irreflexive, text_lt_total, text_lt_transitive, views,
};

verus! {

/// Values in a strict order, those of which neither comes first being alike.
pub trait Ordered: Sized {
    spec fn before(&self, other: &Self) -> bool;

    proof fn before_irreflexive(&self)
        ensures
            !self.before(self),
    ;

    proof fn before_transitive(&self, b: &Self, c: &Self)
        requires
            self.before(b),
            b.before(c),
        ensures
            self.before(c),
    ;

    /// What is not before `b` is not before anything that comes before it.
    proof fn not_before_transitive(&self, b: &Self, c: &Self)
        requires
            !self.before(b),
            !b.before(c),
        ensures
            !self.before(c),
    ;

    fn is_before(&self, other: &Self) -> (r: bool)
        ensures
            r == self.before(other),
    ;
}

/// Nothing comes after something that it should come before.
pub open spec fn sorted<T: Ordered>(s: Seq<T>) -> bool {
    forall|i: int, j: int| #![trigger s[i], s[j]] 0 <= i < j < s.len() ==> !s[j].before(&s[i])
}

impl Ordered for String {
    open spec fn before(&self, other: &Self) -> bool {
        text_lt(self@, other@)
    }

    proof fn before_irreflexive(&self) {
        text_lt_irreflexive(self@);
    }

    proof fn before_transitive(&self, b: &Self, c: &Self) {
        text_lt_transitive(self@, b@, c@);
    }

    proof fn not_before_transitive(&self, b: &Self, c: &Self) {
        text_lt_total(self@, b@);
        text_lt_total(b@, c@);
        if text_lt(self@, c@) {
            if text_lt(b@, self@) {
                text_lt_transitive(b@, self@, c@);
            }
        }
    }

    fn is_before(&self, other: &Self) -> (r: bool) {
        comes_before(self.as_str(), other.as_str())
    }
}

/// The kind of a path component: the root comes before `.`, that before
/// `..`, and that before names.
pub open spec fn component_rank(c: Seq<char>) -> int {
    if c == "/"@ {
        0
    } else if c == "."@ {
        1
    } else if c == ".."@ {
        2
    } else {
        3
    }
}

/// Components are ordered by kind, names among themselves as texts.
pub open spec fn component_lt(a: Seq<char>, b: Seq<char>) -> bool {
    component_rank(a) < component_rank(b) || (component_rank(a) == component_rank(b) && text_lt(
        a,
        b,
    ))
}

/// Paths are ordered component by component.
pub open spec fn path_lt(a: Seq<Seq<char>>, b: Seq<Seq<char>>) -> bool
    decreases a.len(),
{
    if b.len() == 0 {
        false
    } else if a.len() == 0 {
        true
    } else if a[0] == b[0] {
        path_lt(a.drop_first(), b.drop_first())
    } else {
        component_lt(a[0], b[0])
    }
}

proof fn component_lt_total(a: Seq<char>, b: Seq<char>)
    ensures
        a == b || component_lt(a, b) || component_lt(b, a),
        !component_lt(a, a),
{
    text_lt_total(a, b);
    text_lt_irreflexive(a);
}

proof fn component_lt_transitive(a: Seq<char>, b: Seq<char>, c: Seq<char>)
    requires
        component_lt(a, b),
        component_lt(b, c),
    ensures
        component_lt(a, c),
        a != c,
{
    if text_lt(a, b) && text_lt(b, c) {
        text_lt_transitive(a, b, c);
    }
    text_lt_irreflexive(a);
}

/// No path comes before itself.
pub proof fn path_lt_irreflexive(a: Seq<Seq<char>>)
    ensures
        !path_lt(a, a),
    decreases a.len(),
{
    if a.len() > 0 {
        path_lt_irreflexive(a.drop_first());
    }
}

/// Of two different paths one comes first.
pub proof fn path_lt_total(a: Seq<Seq<char>>, b: Seq<Seq<char>>)
    ensures
        a == b || path_lt(a, b) || path_lt(b, a),
    decreases a.len(),
{
    if a.len() > 0 && b.len() > 0 {
        component_lt_total(a[0], b[0]);
        if a[0] == b[0] {
            path_lt_total(a.drop_first(), b.drop_first());
            if a.drop_first() == b.drop_first() {
                assert(a == seq![a[0]] + a.drop_first());
                assert(b == seq![b[0]] + b.drop_first());
            }
        }
    } else if a.len() == 0 && b.len() == 0 {
        assert(a =~= b);
    }
}

pub proof fn path_lt_transitive(a: Seq<Seq<char>>, b: Seq<Seq<char>>, c: Seq<Seq<char>>)
    requires
        path_lt(a, b),
        path_lt(b, c),
    ensures
        path_lt(a, c),
    decreases a.len(),
{
    if a.len() > 0 {
        if a[0] == b[0] && b[0] == c[0] {
            path_lt_transitive(a.drop_first(), b.drop_first(), c.drop_first());
        } else if a[0] != b[0] && b[0] != c[0] {
            component_lt_transitive(a[0], b[0], c[0]);
        }
    }
}

fn rank_of(c: &str) -> (r: u8)
    ensures
        r == component_rank(c@),
{
    if same_text(c, "/") {
        0
    } else if same_text(c, ".") {
        1
    } else if same_text(c, "..") {
        2
    } else {
        3
    }
}

fn component_before(a: &str, b: &str) -> (r: bool)
    ensures
        r == component_lt(a@, b@),
{
    let x: u8 = rank_of(a);
    let y: u8 = rank_of(b);
    x < y || (x == y && comes_before(a, b))
}

/// Whether the path with the components `a` comes before that with `b`.
pub fn path_before(a: &Vec<String>, b: &Vec<String>) -> (r: bool)
    ensures
        r == path_lt(views(a@), views(b@)),
{
    let ghost x = views(a@);
    let ghost y = views(b@);
    let mut i: usize = 0;
    assert(x.skip(0) == x && y.skip(0) == y);
    while i < a.len() && i < b.len()
        invariant
            i <= a@.len(),
            i <= b@.len(),
            x == views(a@),
            y == views(b@),
            path_lt(x, y) == path_lt(x.skip(i as int), y.skip(i as int)),
        decreases a.len() - i,
    {
        if !same_text(a[i].as_str(), b[i].as_str()) {
            return component_before(a[i].as_str(), b[i].as_str());
        }
        assert(x.skip(i as int).drop_first() == x.skip(i + 1));
        assert(y.skip(i as int).drop_first() == y.skip(i + 1));
        i += 1;
    }
    i < b.len()
}

/// A path listed under a name: ordered by name, then by the path.
pub struct Listed {
    pub name: String,
    pub path: String,
    pub parts: Vec<String>,
}

impl Ordered for Listed {
    open spec fn before(&self, other: &Self) -> bool {
        text_lt(self.name@, other.name@) || (self.name@ == other.name@ && path_lt(
            views(self.parts@),
            views(other.parts@),
        ))
    }

    proof fn before_irreflexive(&self) {
        text_lt_irreflexive(self.name@);
        path_lt_irreflexive(views(self.parts@));
    }

    proof fn before_transitive(&self, b: &Self, c: &Self) {
        if text_lt(self.name@, b.name@) && text_lt(b.name@, c.name@) {
            text_lt_transitive(self.name@, b.name@, c.name@);
        }
        if path_lt(views(self.parts@), views(b.parts@)) && path_lt(
            views(b.parts@),
            views(c.parts@),
        ) {
            path_lt_transitive(views(self.parts@), views(b.parts@), views(c.parts@));
        }
    }

    proof fn not_before_transitive(&self, b: &Self, c: &Self) {
        text_lt_total(self.name@, b.name@);
        text_lt_total(b.name@, c.name@);
        path_lt_total(views(self.parts@), views(b.parts@));
        path_lt_total(views(b.parts@), views(c.parts@));
        if self.before(c) {
            if b.before(self) {
                b.before_transitive(self, c);
            }
        }
    }

    fn is_before(&self, other: &Self) -> (r: bool) {
        comes_before(self.name.as_str(), other.name.as_str()) || (same_text(
            self.name.as_str(),
            other.name.as_str(),
        ) && path_before(&self.parts, &other.parts))
    }
}

/// The largest last.
spec fn all_before<T: Ordered>(s: Seq<T>, out: Seq<T>) -> bool {
    forall|i: int, j: int|
        #![trigger out[j], s[i]]
        0 <= i < s.len() && 0 <= j < out.len() ==> !out[j].before(&s[i])
}

/// In descending order.
spec fn descending<T: Ordered>(s: Seq<T>) -> bool {
    forall|i: int, j: int| #![trigger s[i], s[j]] 0 <= i < j < s.len() ==> !s[i].before(&s[j])
}

proof fn popped<T>(s: Seq<T>)
    requires
        s.len() > 0,
    ensures
        s.to_multiset() =~= s.drop_last().to_multiset().insert(s.last()),
{
    broadcast use vstd::seq_lib::group_to_multiset_ensures;
    assert(s =~= s.drop_last().push(s.last()));
}

fn merge<T: Ordered>(a: Vec<T>, b: Vec<T>) -> (r: Vec<T>)
    requires
        sorted(a@),
        sorted(b@),
    ensures
        sorted(r@),
        r@.to_multiset() == a@.to_multiset().add(b@.to_multiset()),
{
    broadcast use vstd::seq_lib::group_to_multiset_ensures;

    let ghost whole = a@.to_multiset().add(b@.to_multiset());
    let mut a = a;
    let mut b = b;
    let mut down: Vec<T> = Vec::new();
    assert(a@.to_multiset().add(b@.to_multiset()).add(down@.to_multiset()) =~= whole);
    while a.len() > 0 || b.len() > 0
        invariant
            sorted(a@),
            sorted(b@),
            descending(down@),
            all_before(a@, down@),
            all_before(b@, down@),
            a@.to_multiset().add(b@.to_multiset()).add(down@.to_multiset()) == whole,
        decreases a.len() + b.len(),
    {
        let from_a = if a.len() == 0 {
            false
        } else if b.len() == 0 {
            true
        } else {
            b[b.len() - 1].is_before(&a[a.len() - 1])
        };
        let ghost before = down@;
        let ghost a0 = a@;
        let ghost b0 = b@;
        if from_a {
            proof {
                popped(a@);
                assert forall|i: int| 0 <= i < b0.len() implies !(a0.last()).before(&b0[i]) by {
                    if a0.last().before(&b0[i]) {
                        let top = b0[b0.len() - 1];
                        top.before_transitive(&a0.last(), &b0[i]);
                        if i < b0.len() - 1 {
                            assert(!b0[b0.len() - 1].before(&b0[i]));
                        } else {
                            top.before_irreflexive();
                        }
                    }
                }
            }
            let x = a.pop().unwrap();
            down.push(x);
            proof {
                assert(a@ =~= a0.drop_last());
                assert(down@ =~= before.push(a0.last()));
                assert(a0[a0.len() - 1] == a0.last());
                vstd::seq_lib::to_multiset_build(before, down@.last());
                assert(a@.to_multiset().add(b@.to_multiset()).add(down@.to_multiset()) =~= whole);
            }
        } else {
            proof {
                popped(b@);
                assert forall|i: int| 0 <= i < a0.len() implies !(b0.last()).before(&a0[i]) by {
                    if i < a0.len() - 1 {
                        assert(!a0[a0.len() - 1].before(&a0[i]));
                        b0.last().not_before_transitive(&a0[a0.len() - 1], &a0[i]);
                    }
                }
            }
            let x = b.pop().unwrap();
            down.push(x);
            proof {
                assert(b@ =~= b0.drop_last());
                assert(down@ =~= before.push(b0.last()));
                assert(b0[b0.len() - 1] == b0.last());
                vstd::seq_lib::to_multiset_build(before, down@.last());
                assert(a@.to_multiset().add(b@.to_multiset()).add(down@.to_multiset()) =~= whole);
            }
        }
    }
    assert(a@ =~= Seq::<T>::empty() && b@ =~= Seq::<T>::empty());
    assert(down@.to_multiset() =~= whole);
    let mut out: Vec<T> = Vec::new();
    let ghost falling = down@;
    assert(down@.to_multiset().add(out@.to_multiset()) =~= whole);
    while down.len() > 0
        invariant
            descending(falling),
            down@.len() + out@.len() == falling.len(),
            forall|i: int| 0 <= i < down@.len() ==> down@[i] == falling[i],
            forall|i: int| 0 <= i < out@.len() ==> out@[i] == falling[falling.len() - 1 - i],
            down@.to_multiset().add(out@.to_multiset()) == whole,
        decreases down.len(),
    {
        let ghost d0 = down@;
        proof {
            popped(down@);
        }
        let ghost o0 = out@;
        let x = down.pop().unwrap();
        out.push(x);
        assert(down@ =~= d0.drop_last());
        proof {
            vstd::seq_lib::to_multiset_build(o0, out@.last());
        }
        assert(down@.to_multiset().add(out@.to_multiset()) =~= whole);
    }
    assert(down@ =~= Seq::<T>::empty());
    assert(out@.to_multiset() =~= whole);
    out
}

/// The same values, sorted.
pub fn sort<T: Ordered>(v: Vec<T>) -> (r: Vec<T>)
    ensures
        sorted(r@),
        r@.to_multiset() == v@.to_multiset(),
        r@.len() == v@.len(),
    decreases v@.len(),
{
    broadcast use vstd::seq_lib::group_to_multiset_ensures;

    if v.len() <= 1 {
        return v;
    }
    let ghost all = v@;
    let mut left = v;
    let mid: usize = left.len() / 2;
    let right = left.split_off(mid);
    proof {
        assert(all =~= left@ + right@);
        vstd::seq_lib::lemma_multiset_commutative(left@, right@);
    }
    let l = sort(left);
    let r = sort(right);
    let merged = merge(l, r);
    assert(merged@.to_multiset().len() == all.to_multiset().len());
    merged
}

/// Rearranging a sequence rearranges what it is mapped to.
pub proof fn rearranged_images<T, U>(a: Seq<T>, b: Seq<T>, f: spec_fn(T) -> U)
    requires
        a.to_multiset() == b.to_multiset(),
    ensures
        a.map_values(f).to_multiset() == b.map_values(f).to_multiset(),
    decreases a.len(),
{
    broadcast use vstd::seq_lib::group_to_multiset_ensures;

    a.to_multiset_ensures();
    b.to_multiset_ensures();
    if a.len() == 0 {
        assert(a.map_values(f) =~= b.map_values(f));
    } else {
        let x = a.last();
        assert(a.contains(x));
        assert(b.to_multiset().count(x) > 0);
        let i = choose|i: int| 0 <= i < b.len() && b[i] == x;
        let rest = b.remove(i);
        popped(a);
        assert(a.drop_last().to_multiset() =~= rest.to_multiset()) by {
            assert(a.to_multiset().remove(x) =~= a.drop_last().to_multiset());
        }
        rearranged_images(a.drop_last(), rest, f);
        let fa = a.map_values(f);
        let fb = b.map_values(f);
        assert(fa.drop_last() =~= a.drop_last().map_values(f));
        popped(fa);
        assert(fb.remove(i) =~= rest.map_values(f));
        assert(fb.to_multiset() =~= fb.remove(i).to_multiset().insert(fb[i])) by {
            assert(fb.contains(fb[i]));
            assert(fb.remove(i).to_multiset() =~= fb.to_multiset().remove(fb[i]));
        }
    }
}

/// Texts in order, equal ones next to each other.
pub open spec fn text_sorted(s: Seq<Seq<char>>) -> bool {
    forall|i: int, j: int| #![trigger s[i], s[j]] 0 <= i < j < s.len() ==> !text_lt(s[j], s[i])
}

/// There is one way to sort texts.
pub proof fn sorted_texts_are_one(a: Seq<Seq<char>>, b: Seq<Seq<char>>)
    requires
        text_sorted(a),
        text_sorted(b),
        a.to_multiset() == b.to_multiset(),
    ensures
        a == b,
    decreases a.len(),
{
    broadcast use vstd::seq_lib::group_to_multiset_ensures;

    a.to_multiset_ensures();
    b.to_multiset_ensures();
    if a.len() > 0 {
        let x = a.last();
        let y = b.last();
        assert(a.contains(x) && b.contains(y));
        assert(b.to_multiset().count(x) > 0);
        assert(a.to_multiset().count(y) > 0);
        let i = choose|i: int| 0 <= i < b.len() && b[i] == x;
        let j = choose|j: int| 0 <= j < a.len() && a[j] == y;
        text_lt_total(x, y);
        assert(i == b.len() - 1 || !text_lt(b[b.len() - 1], b[i]));
        assert(j == a.len() - 1 || !text_lt(a[a.len() - 1], a[j]));
        assert(x == y);
        popped(a);
        popped(b);
        assert(a.drop_last().to_multiset() =~= b.drop_last().to_multiset()) by {
            assert(a.to_multiset().remove(x) =~= a.drop_last().to_multiset());
            assert(b.to_multiset().remove(x) =~= b.drop_last().to_multiset());
        }
        assert(text_sorted(a.drop_last()));
        assert(text_sorted(b.drop_last()));
        sorted_texts_are_one(a.drop_last(), b.drop_last());
        assert(a =~= a.drop_last().push(x));
        assert(b =~= b.drop_last().push(x));
    } else {
        assert(a =~= b);
    }
}

/// A text put in its place among sorted ones.
pub open spec fn text_inserted(s: Seq<Seq<char>>, x: Seq<char>) -> Seq<Seq<char>>
    decreases s.len(),
{
    if s.len() > 0 && text_lt(x, s.last()) {
        text_inserted(s.drop_last(), x).push(s.last())
    } else {
        s.push(x)
    }
}

/// The same texts, sorted.
pub open spec fn texts_sorted(s: Seq<Seq<char>>) -> Seq<Seq<char>>
    decreases s.len(),
{
    if s.len() == 0 {
        s
    } else {
        text_inserted(texts_sorted(s.drop_last()), s.last())
    }
}

proof fn text_inserted_sorts(s: Seq<Seq<char>>, x: Seq<char>)
    requires
        text_sorted(s),
    ensures
        text_sorted(text_inserted(s, x)),
        text_inserted(s, x).to_multiset() == s.to_multiset().insert(x),
        forall|y: Seq<char>|
            (forall|k: int| 0 <= k < s.len() ==> !text_lt(y, #[trigger] s[k])) && !text_lt(y, x)
                ==> forall|k: int|
                0 <= k < text_inserted(s, x).len() ==> !text_lt(y, #[trigger] text_inserted(s, x)[k]),
    decreases s.len(),
{
    s.to_multiset_ensures();
    let r = text_inserted(s, x);
    if s.len() > 0 && text_lt(x, s.last()) {
        let front = s.drop_last();
        text_inserted_sorts(front, x);
        let inner = text_inserted(front, x);
        inner.to_multiset_ensures();
        text_lt_irreflexive(s.last());
        if text_lt(s.last(), x) {
            text_lt_transitive(s.last(), x, s.last());
        }
        assert forall|k: int| 0 <= k < front.len() implies !text_lt(s.last(), #[trigger] front[k]) by {
            assert(!text_lt(s[s.len() - 1], s[k]));
        }
        assert(r.to_multiset() =~= s.to_multiset().insert(x)) by {
            popped(s);
            front.to_multiset_ensures();
            assert(s =~= front.push(s.last()));
        }
        assert forall|y: Seq<char>|
            (forall|k: int| 0 <= k < s.len() ==> !text_lt(y, #[trigger] s[k])) && !text_lt(
                y,
                x,
            ) implies forall|k: int| 0 <= k < r.len() ==> !text_lt(y, #[trigger] r[k]) by {
            assert forall|k: int| 0 <= k < front.len() implies !text_lt(y, #[trigger] front[k]) by {
                assert(!text_lt(y, s[k]));
            }
            assert(!text_lt(y, s[s.len() - 1]));
            assert forall|k: int| 0 <= k < r.len() implies !text_lt(y, #[trigger] r[k]) by {
                if k < inner.len() {
                    assert(!text_lt(y, inner[k]));
                }
            }
        }
    } else {
        assert forall|i: int, j: int|
            #![trigger r[i], r[j]]
            0 <= i < j < r.len() implies !text_lt(r[j], r[i]) by {
            if j == s.len() {
                if text_lt(x, s[i]) {
                    text_lt_total(s.last(), s[i]);
                    if i < s.len() - 1 {
                        assert(!text_lt(s[s.len() - 1], s[i]));
                        if text_lt(s[i], s.last()) {
                            text_lt_transitive(x, s[i], s.last());
                        }
                    }
                }
            }
        }
    }
}

/// Sorting texts keeps them and orders them.
pub proof fn texts_sorted_sorts(s: Seq<Seq<char>>)
    ensures
        text_sorted(texts_sorted(s)),
        texts_sorted(s).to_multiset() == s.to_multiset(),
    decreases s.len(),
{
    s.to_multiset_ensures();
    if s.len() > 0 {
        let front = s.drop_last();
        texts_sorted_sorts(front);
        text_inserted_sorts(texts_sorted(front), s.last());
        front.to_multiset_ensures();
        assert(s =~= front.push(s.last()));
    }
}

/// The same strings, sorted.
pub fn sort_strings(v: Vec<String>) -> (r: Vec<String>)
    ensures
        views(r@) == texts_sorted(views(v@)),
        text_sorted(views(r@)),
        views(r@).to_multiset() == views(v@).to_multiset(),
{
    let ghost before = v@;
    let r = sort(v);
    proof {
        let f = |s: String| s@;
        rearranged_images(r@, before, f);
        assert(r@.map_values(f) =~= views(r@));
        assert(before.map_values(f) =~= views(before));
        assert forall|i: int, j: int| #![trigger views(r@)[i], views(r@)[j]] 0 <= i < j < views(r@).len() implies !text_lt(
            views(r@)[j],
            views(r@)[i],
        ) by {
            assert(!r@[j].before(&r@[i]));
        }
        texts_sorted_sorts(views(before));
        sorted_texts_are_one(views(r@), texts_sorted(views(before)));
    }
    r
}

} // verus!
