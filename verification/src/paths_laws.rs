//! What joining paths and looking at them from a directory have to do with
//! each other.

use vstd::prelude::*;
use crate::paths::{
    contains_path, has_component, is_same_path, same_path, strip_prefix,
    a_piece_is_at_its_start, absolute_path, below, components, counting, counting_spans, counts,
    is_absolute, joined_all, joined_path, parent_of, piece_start, pieces, pieces_have_no_separator,
    pieces_not_empty, plain_names, spans, start_of, starts_agree,
};
use crate::text::{joined, views};

verus! {

/// The pieces round a separator are those before it and those after it.
pub proof fn pieces_of_both(a: Seq<char>, b: Seq<char>, separator: char)
    ensures
        pieces(a.push(separator) + b, separator) == pieces(a, separator) + pieces(b, separator),
    decreases b.len(),
{
    let s = a.push(separator) + b;
    let p = pieces(a, separator);
    let q = pieces(b, separator);
    if b.len() == 0 {
        assert(s =~= a.push(separator));
        assert(s.drop_last() =~= a);
        assert(p.push(Seq::empty()) =~= p + q);
    } else {
        pieces_of_both(a, b.drop_last(), separator);
        pieces_not_empty(b.drop_last(), separator);
        let r = pieces(b.drop_last(), separator);
        assert(s.drop_last() =~= a.push(separator) + b.drop_last());
        assert(s.last() == b.last());
        if s.last() == separator {
            assert((p + r).push(Seq::empty()) =~= p + r.push(Seq::empty()));
        } else {
            let last = r.last().push(b.last());
            assert((p + r).last() == r.last());
            assert((p + r).update((p + r).len() - 1, last) =~= p + r.update(r.len() - 1, last));
        }
    }
}

/// The names among the first `n` pieces, none of them being the first of its
/// path.
spec fn later(p: Seq<Seq<char>>, n: int) -> Seq<Seq<char>>
    decreases n,
{
    if n <= 0 {
        Seq::empty()
    } else if counts(p[n - 1], false) {
        later(p, n - 1).push(p[n - 1])
    } else {
        later(p, n - 1)
    }
}

proof fn counting_ignores_rest(p: Seq<Seq<char>>, q: Seq<Seq<char>>, n: int)
    requires
        0 <= n <= p.len(),
    ensures
        counting(p + q, n) == counting(p, n),
    decreases n,
{
    if n > 0 {
        counting_ignores_rest(p, q, n - 1);
        assert((p + q)[n - 1] == p[n - 1]);
    }
}

proof fn counting_both(p: Seq<Seq<char>>, q: Seq<Seq<char>>, m: int)
    requires
        p.len() >= 1,
        0 <= m <= q.len(),
    ensures
        counting(p + q, p.len() + m) == counting(p, p.len() as int) + later(q, m),
    decreases m,
{
    let front = counting(p, p.len() as int);
    if m == 0 {
        counting_ignores_rest(p, q, p.len() as int);
        assert(front + later(q, 0) =~= front);
    } else {
        counting_both(p, q, m - 1);
        let k = p.len() + m;
        assert((p + q)[k - 1] == q[m - 1]);
        if counts(q[m - 1], false) {
            assert((front + later(q, m - 1)).push(q[m - 1]) =~= front + later(q, m));
        }
    }
}

/// The components that a relative path adds where it follows another: its
/// names, `.` left aside.
pub closed spec fn names_of(path: Seq<char>) -> Seq<Seq<char>> {
    later(pieces(path, '/'), pieces(path, '/').len() as int)
}

/// A relative path that does not begin with `.` adds its components.
pub proof fn names_are_components(path: Seq<char>)
    requires
        !is_absolute(path),
        components(path).len() == 0 || components(path)[0] != "."@,
    ensures
        names_of(path) == components(path),
{
    pieces_not_empty(path, '/');
    later_is_counting(pieces(path, '/'), pieces(path, '/').len() as int);
}

proof fn later_is_counting(p: Seq<Seq<char>>, n: int)
    requires
        0 <= n <= p.len(),
        counting(p, n).len() == 0 || counting(p, n)[0] != "."@,
    ensures
        later(p, n) == counting(p, n),
    decreases n,
{
    if n > 0 {
        let before = counting(p, n - 1);
        assert(before.len() > 0 ==> counting(p, n)[0] == before[0]);
        later_is_counting(p, n - 1);
        if n == 1 {
            assert(before =~= Seq::<Seq<char>>::empty());
            if counts(p[0], true) {
                assert(counting(p, 1)[0] == p[0]);
            }
        }
    }
}

/// A path joined to a directory has the directory's components, then its own.
pub proof fn joining_adds_components(base: Seq<char>, path: Seq<char>)
    requires
        base.len() > 0,
        !is_absolute(path),
    ensures
        components(joined_path(base, path)) == components(base) + names_of(path),
{
    reveal_strlit("/");
    assert("/"@ =~= seq!['/']);
    let all = joined_path(base, path);
    let q = pieces(path, '/');
    assert(is_absolute(all) == is_absolute(base));
    if base.last() == '/' {
        let front = base.drop_last();
        let p = pieces(front, '/');
        pieces_not_empty(front, '/');
        assert(base =~= front.push('/'));
        pieces_of_both(front, path, '/');
        assert(front.push('/') + path =~= all);
        counting_both(p, q, q.len() as int);
        assert(pieces(base, '/') =~= p.push(Seq::empty()));
        let e = seq![Seq::<char>::empty()];
        assert(p.push(Seq::empty()) =~= p + e);
        counting_both(p, e, 1);
        assert(later(e, 1) =~= Seq::<Seq<char>>::empty()) by {
            assert(later(e, 0) =~= Seq::<Seq<char>>::empty());
        }
        let names = counting(p, p.len() as int);
        assert(names + later(e, 1) =~= names);
        assert(components(all) =~= components(base) + names_of(path));
    } else {
        let p = pieces(base, '/');
        pieces_not_empty(base, '/');
        pieces_of_both(base, path, '/');
        assert(base.push('/') + path =~= all);
        counting_both(p, q, q.len() as int);
        assert(components(all) =~= components(base) + names_of(path));
    }
}

/// A separator stands before every piece but the first.
proof fn a_separator_before(s: Seq<char>, separator: char, k: int)
    requires
        1 <= k < pieces(s, separator).len(),
    ensures
        1 <= piece_start(pieces(s, separator), k) <= s.len(),
        s[piece_start(pieces(s, separator), k) - 1] == separator,
    decreases s.len(),
{
    let p = pieces(s, separator);
    a_piece_is_at_its_start(s, separator, k);
    a_piece_is_at_its_start(s, separator, k - 1);
    let front = s.drop_last();
    let before = pieces(front, separator);
    let n = before.len() as int;
    pieces_not_empty(front, separator);
    if s.last() == separator && k == n {
        a_piece_is_at_its_start(front, separator, n - 1);
        starts_agree(before, p, n);
    } else {
        a_separator_before(front, separator, k);
        starts_agree(before, p, k);
        assert(front[piece_start(before, k) - 1] == s[piece_start(p, k) - 1]);
    }
}

/// The pieces up to the end of one of them.
proof fn pieces_up_to(s: Seq<char>, separator: char, k: int)
    requires
        0 <= k < pieces(s, separator).len(),
    ensures
        ({
            let p = pieces(s, separator);
            pieces(s.take(piece_start(p, k) + p[k].len()), separator) == p.take(k + 1)
        }),
    decreases s.len(),
{
    let p = pieces(s, separator);
    a_piece_is_at_its_start(s, separator, k);
    let end = piece_start(p, k) + p[k].len();
    if k == p.len() - 1 {
        assert(s.take(end) =~= s);
        assert(p.take(k + 1) =~= p);
    } else {
        let front = s.drop_last();
        let before = pieces(front, separator);
        let n = before.len() as int;
        pieces_not_empty(front, separator);
        assert(k < n && before[k] == p[k]);
        assert forall|i: int| 0 <= i < k implies #[trigger] before[i] == p[i] by {}
        starts_agree(before, p, k);
        pieces_up_to(front, separator, k);
        a_piece_is_at_its_start(front, separator, k);
        assert(front.take(end) =~= s.take(end));
        assert(before.take(k + 1) =~= p.take(k + 1));
    }
}

/// The pieces from the start of one of them on.
proof fn pieces_from(s: Seq<char>, separator: char, k: int)
    requires
        0 <= k < pieces(s, separator).len(),
    ensures
        ({
            let p = pieces(s, separator);
            pieces(s.skip(piece_start(p, k)), separator) == p.skip(k)
        }),
{
    let p = pieces(s, separator);
    let start = piece_start(p, k);
    a_piece_is_at_its_start(s, separator, k);
    if k == 0 {
        assert(s.skip(0) =~= s);
        assert(p.skip(0) =~= p);
    } else {
        a_separator_before(s, separator, k);
        pieces_up_to(s, separator, k - 1);
        let left = s.take(start - 1);
        let right = s.skip(start);
        assert(s =~= left.push(separator) + right);
        pieces_of_both(left, right, separator);
        assert(p =~= p.take(k) + pieces(right, separator));
        assert(p.skip(k) =~= pieces(right, separator));
    }
}

/// The pieces between the start of one and the end of another.
proof fn pieces_between(s: Seq<char>, separator: char, a: int, b: int)
    requires
        0 <= a <= b < pieces(s, separator).len(),
    ensures
        ({
            let p = pieces(s, separator);
            let part = s.subrange(piece_start(p, a), piece_start(p, b) + p[b].len());
            pieces(part, separator) == p.subrange(a, b + 1)
        }),
{
    let p = pieces(s, separator);
    let start = piece_start(p, a);
    let end = piece_start(p, b) + p[b].len();
    a_piece_is_at_its_start(s, separator, a);
    a_piece_is_at_its_start(s, separator, b);
    pieces_up_to(s, separator, b);
    let up_to = s.take(end);
    let q = pieces(up_to, separator);
    assert(q =~= p.take(b + 1));
    starts_agree(q, p, a);
    pieces_from(up_to, separator, a);
    starts_in_order(p, a, b);
    assert(up_to.skip(start) =~= s.subrange(start, end));
    assert(q.skip(a) =~= p.subrange(a, b + 1));
}

proof fn starts_in_order(p: Seq<Seq<char>>, a: int, b: int)
    requires
        0 <= a <= b,
    ensures
        piece_start(p, a) <= piece_start(p, b),
        a < b ==> piece_start(p, a) + p[a].len() < piece_start(p, b),
    decreases b,
{
    if a < b {
        starts_in_order(p, a, b - 1);
    }
}

/// The names among the first pieces begin those among more of them.
proof fn counting_grows(p: Seq<Seq<char>>, m: int, n: int)
    requires
        0 <= m <= n,
    ensures
        counting(p, m).len() <= counting(p, n).len(),
        counting(p, n).take(counting(p, m).len() as int) == counting(p, m),
    decreases n,
{
    if m < n {
        counting_grows(p, m, n - 1);
        assert(counting(p, n).take(counting(p, m).len() as int) =~= counting(p, m));
    } else {
        assert(counting(p, n).take(counting(p, m).len() as int) =~= counting(p, m));
    }
}

/// The piece that name `k` is.
proof fn piece_of_name(p: Seq<Seq<char>>, n: int, k: int) -> (j: int)
    requires
        0 <= k < counting(p, n).len(),
        0 <= n <= p.len(),
    ensures
        counting_spans(p, n).len() == counting(p, n).len(),
        0 <= j < n,
        counts(p[j], j == 0),
        counting(p, n)[k] == p[j],
        counting(p, j).len() == k,
        counting_spans(p, n)[k] == (piece_start(p, j), piece_start(p, j) + p[j].len()),
    decreases n,
{
    let before = counting(p, n - 1);
    as_many_spans(p, n);
    as_many_spans(p, n - 1);
    if k < before.len() {
        piece_of_name(p, n - 1, k)
    } else {
        n - 1
    }
}

proof fn as_many_spans(p: Seq<Seq<char>>, n: int)
    ensures
        counting_spans(p, n).len() == counting(p, n).len(),
    decreases n,
{
    if n > 0 {
        as_many_spans(p, n - 1);
    }
}

/// Each component is the text at its span.
pub proof fn a_component_is_the_text_at_its_span(path: Seq<char>, k: int)
    requires
        0 <= k < components(path).len(),
    ensures
        spans(path).len() == components(path).len(),
        0 <= spans(path)[k].0 < spans(path)[k].1 <= path.len(),
        components(path)[k] == path.subrange(spans(path)[k].0, spans(path)[k].1),
{
    let p = pieces(path, '/');
    let n = p.len() as int;
    as_many_spans(p, n);
    if is_absolute(path) && k == 0 {
        reveal_strlit("/");
        assert(path.subrange(0, 1) =~= "/"@);
    } else {
        let m = if is_absolute(path) {
            k - 1
        } else {
            k
        };
        let j = piece_of_name(p, n, m);
        a_piece_is_at_its_start(path, '/', j);
    }
}

/// The text up to the end of a component has the components up to it.
pub proof fn the_beginning_of_a_path(path: Seq<char>, k: int)
    requires
        0 <= k < components(path).len(),
    ensures
        components(path.take(spans(path)[k].1)) == components(path).take(k + 1),
{
    let p = pieces(path, '/');
    let n = p.len() as int;
    as_many_spans(p, n);
    a_component_is_the_text_at_its_span(path, k);
    let part = path.take(spans(path)[k].1);
    assert(is_absolute(part) == is_absolute(path));
    if is_absolute(path) && k == 0 {
        reveal_with_fuel(pieces, 3);
        reveal_with_fuel(counting, 3);
        assert(part.drop_last() =~= Seq::<char>::empty());
        assert(pieces(part, '/') =~= seq![Seq::<char>::empty(), Seq::<char>::empty()]);
        assert(counting(pieces(part, '/'), 2) =~= Seq::<Seq<char>>::empty());
        assert(components(part) =~= components(path).take(1));
    } else {
        let m = if is_absolute(path) {
            k - 1
        } else {
            k
        };
        let j = piece_of_name(p, n, m);
        pieces_up_to(path, '/', j);
        let q = pieces(part, '/');
        assert(q =~= p.take(j + 1));
        assert(p =~= q + p.skip(j + 1));
        counting_ignores_rest(q, p.skip(j + 1), j + 1);
        counting_grows(p, j + 1, n);
        assert(counting(p, j + 1) == counting(p, j).push(p[j]));
        assert(components(part) =~= components(path).take(k + 1));
    }
}

/// A path's parent has the path's components but for the last.
pub proof fn a_parent_lacks_the_last_component(path: Seq<char>)
    requires
        parent_of(path) is Some,
    ensures
        components(parent_of(path)->Some_0) == components(path).drop_last(),
{
    let p = components(path);
    if p.len() == 1 {
        reveal_with_fuel(pieces, 2);
        reveal_with_fuel(counting, 2);
        let none = Seq::<char>::empty();
        assert(pieces(none, '/') =~= seq![Seq::<char>::empty()]);
        assert(components(none) =~= p.drop_last());
    } else {
        the_beginning_of_a_path(path, p.len() - 2);
        assert(p.take(p.len() - 1) =~= p.drop_last());
    }
}

/// The names between two pieces, the first of which is a name.
proof fn counting_between(p: Seq<Seq<char>>, a: int, b: int, m: int)
    requires
        0 <= a <= b < p.len(),
        counts(p[a], a == 0),
        1 <= m <= b + 1 - a,
    ensures
        counting(p, a + m) == counting(p, a) + counting(p.subrange(a, b + 1), m),
    decreases m,
{
    let q = p.subrange(a, b + 1);
    assert(q[m - 1] == p[a + m - 1]);
    if m == 1 {
        reveal_with_fuel(counting, 2);
        assert(counting(q, 0) =~= Seq::<Seq<char>>::empty());
        assert(counting(q, 1) =~= seq![p[a]]);
        assert(counting(p, a + 1) =~= counting(p, a) + seq![p[a]]);
    } else {
        counting_between(p, a, b, m - 1);
        assert(counting(p, a + m) =~= counting(p, a) + counting(q, m));
    }
}

/// What is left below a directory has the components that are not the
/// directory's.
pub proof fn what_is_below_has_the_other_components(path: Seq<char>, base: Seq<char>)
    requires
        below(path, base) is Some,
    ensures
        components(base) + components(below(path, base)->Some_0) == components(path),
{
    let all = components(path);
    let b = components(base);
    let n = b.len() as int;
    let r = below(path, base)->Some_0;
    if n == all.len() {
        reveal_with_fuel(pieces, 2);
        reveal_with_fuel(counting, 2);
        assert(pieces(r, '/') =~= seq![Seq::<char>::empty()]);
        assert(components(r) =~= Seq::<Seq<char>>::empty());
        assert(b + components(r) =~= all);
    } else if is_absolute(path) && n == 0 {
        a_component_is_the_text_at_its_span(path, 0);
        the_beginning_of_a_path(path, all.len() - 1);
        assert(r =~= path.take(spans(path).last().1));
        assert(b + components(r) =~= all);
    } else {
        let p = pieces(path, '/');
        let count = p.len() as int;
        let names = counting(p, count);
        let skipped = if is_absolute(path) {
            1int
        } else {
            0int
        };
        as_many_spans(p, count);
        let i = piece_of_name(p, count, n - skipped);
        let j = piece_of_name(p, count, names.len() - 1);
        assert(counting(p, j + 1) == counting(p, j).push(p[j]));
        if j < i {
            counting_grows(p, j + 1, i);
        }
        counting_grows(p, i, count);
        counting_grows(p, j + 1, count);
        pieces_between(path, '/', i, j);
        let q = pieces(r, '/');
        assert(q =~= p.subrange(i, j + 1));
        counting_between(p, i, j, j + 1 - i);
        assert(counting(p, j + 1) =~= names);
        assert(!is_absolute(r)) by {
            a_piece_is_at_its_start(path, '/', i);
            pieces_have_no_separator(path, '/', i);
            a_piece_is_at_its_start(path, '/', j);
            starts_in_order(p, i, j);
            assert(r[0] == p[i][0]);
            assert(p[i].contains(p[i][0]));
        }
        assert(names.take(n - skipped) =~= counting(p, i));
        assert(b + components(r) =~= all) by {
            assert(b =~= all.take(n));
            if skipped == 1 {
                assert(all.take(n) =~= seq!["/"@] + names.take(n - 1));
            }
        }
    }
}

/// What is joined to a directory is below it, and looking at it from there
/// gives back the components that were joined.
pub proof fn looking_from_a_directory_undoes_joining(base: Seq<char>, path: Seq<char>)
    requires
        base.len() > 0,
        !is_absolute(path),
    ensures
        below(joined_path(base, path), base) matches Some(r) && components(r) == names_of(path),
{
    joining_adds_components(base, path);
    let all = joined_path(base, path);
    let b = components(base);
    let n = names_of(path);
    assert((b + n).take(b.len() as int) =~= b);
    what_is_below_has_the_other_components(all, base);
    let r = components(below(all, base)->Some_0);
    assert((b + r).skip(b.len() as int) =~= r);
    assert((b + n).skip(b.len() as int) =~= n);
}

proof fn counted_pieces_are_names(p: Seq<Seq<char>>, n: int, k: int)
    requires
        0 <= n <= p.len(),
        0 <= k < counting(p, n).len(),
    ensures
        counting(p, n)[k].len() > 0,
        exists|i: int| 0 <= i < n && p[i] == counting(p, n)[k],
    decreases n,
{
    let before = counting(p, n - 1);
    if k < before.len() {
        counted_pieces_are_names(p, n - 1, k);
        let i = choose|i: int| 0 <= i < n - 1 && p[i] == before[k];
        assert(p[i] == counting(p, n)[k]);
    } else {
        assert(p[n - 1] == counting(p, n)[k]);
    }
}

/// A component is the root of an absolute path, or a name: a text that is not
/// empty and holds no separator.
pub proof fn a_component_is_the_root_or_a_name(path: Seq<char>, k: int)
    requires
        0 <= k < components(path).len(),
    ensures
        is_absolute(path) && k == 0 ==> components(path)[k] == "/"@,
        !(is_absolute(path) && k == 0) ==> components(path)[k].len() > 0 && !components(
            path,
        )[k].contains('/'),
{
    let p = pieces(path, '/');
    let n = p.len() as int;
    let at = if is_absolute(path) {
        k - 1
    } else {
        k
    };
    if at >= 0 {
        counted_pieces_are_names(p, n, at);
        let i = choose|i: int| 0 <= i < n && p[i] == counting(p, n)[at];
        pieces_have_no_separator(path, '/', i);
    }
}

/// A name by itself is a path of one component.
pub proof fn a_name_is_a_path(name: Seq<char>)
    requires
        name.len() > 0,
        !name.contains('/'),
    ensures
        !is_absolute(name),
        components(name) == seq![name],
{
    assert(name[0] != '/') by {
        if name[0] == '/' {
            assert(name.contains('/'));
        }
    }
    one_piece(name);
    reveal_with_fuel(counting, 2);
    assert(counting(seq![name], 1) =~= seq![name]);
}

proof fn one_piece(name: Seq<char>)
    requires
        !name.contains('/'),
    ensures
        pieces(name, '/') == seq![name],
    decreases name.len(),
{
    if name.len() > 0 {
        let front = name.drop_last();
        assert(!front.contains('/')) by {
            if front.contains('/') {
                let i = choose|i: int| 0 <= i < front.len() && front[i] == '/';
                assert(name[i] == '/');
            }
        }
        one_piece(front);
        assert(name[name.len() - 1] != '/') by {
            if name[name.len() - 1] == '/' {
                assert(name.contains('/'));
            }
        }
        assert(front.push(name.last()) =~= name);
        assert(pieces(name, '/') =~= seq![name]);
    } else {
        assert(name =~= Seq::<char>::empty());
        assert(pieces(name, '/') =~= seq![name]);
    }
}

/// Only the first of the names that count can be `.`, and only where the path
/// begins with it.
proof fn a_dot_comes_first(p: Seq<Seq<char>>, n: int, k: int)
    requires
        0 <= n <= p.len(),
        0 <= k < counting(p, n).len(),
        counting(p, n)[k] == "."@,
    ensures
        k == 0,
        p[0] == "."@,
    decreases n,
{
    let before = counting(p, n - 1);
    if k < before.len() {
        a_dot_comes_first(p, n - 1, k);
    } else {
        assert(counts(p[n - 1], n == 1));
        assert(n == 1);
        assert(before =~= Seq::<Seq<char>>::empty());
    }
}

/// The names that are joined are no roots and no `.`.
spec fn are_names(names: Seq<Seq<char>>) -> bool {
    forall|k: int|
        0 <= k < names.len() ==> (#[trigger] names[k]).len() > 0 && !names[k].contains('/')
            && names[k] != "."@
}

proof fn joining_all_adds_each(base: Seq<char>, names: Seq<Seq<char>>)
    requires
        base.len() > 0,
        are_names(names),
    ensures
        components(joined_all(base, names)) == components(base) + names,
        joined_all(base, names).len() > 0,
        is_absolute(joined_all(base, names)) == is_absolute(base),
    decreases names.len(),
{
    if names.len() == 0 {
        assert(components(base) + names =~= components(base));
    } else {
        let front = names.drop_last();
        assert(are_names(front)) by {
            assert forall|k: int| 0 <= k < front.len() implies (#[trigger] front[k]).len() > 0
                && !front[k].contains('/') && front[k] != "."@ by {
                assert(front[k] == names[k]);
            }
        }
        joining_all_adds_each(base, front);
        let name = names[names.len() - 1];
        a_name_is_a_path(name);
        names_are_components(name);
        joining_adds_components(joined_all(base, front), name);
        assert((components(base) + front) + seq![name] =~= components(base) + names);
        reveal_strlit("/");
    }
}

proof fn plain_names_are_names(path: Seq<char>)
    ensures
        are_names(plain_names(path)),
        !is_absolute(path) ==> plain_names(path) == names_of(path),
        is_absolute(path) ==> components(path) == seq!["/"@] + plain_names(path),
{
    reveal_strlit("/");
    reveal_strlit(".");
    let p = pieces(path, '/');
    let n = p.len() as int;
    let all = components(path);
    pieces_not_empty(path, '/');
    if is_absolute(path) {
        assert(all[0] == "/"@);
        assert(all =~= seq!["/"@] + all.drop_first());
        assert(p[0].len() == 0) by {
            a_piece_is_at_its_start(path, '/', 0);
            pieces_have_no_separator(path, '/', 0);
            if p[0].len() > 0 {
                assert(p[0][0] == path[0]);
                assert(p[0].contains('/'));
            }
        }
    } else {
        if all.len() > 0 && all[0] == "/"@ {
            a_component_is_the_root_or_a_name(path, 0);
            assert("/"@[0] == '/');
            assert(all[0].contains('/'));
        }
        plain_is_later(path);
    }
    let names = plain_names(path);
    assert forall|k: int| 0 <= k < names.len() implies (#[trigger] names[k]).len() > 0
        && !names[k].contains('/') && names[k] != "."@ by {
        let shift: int = all.len() - names.len();
        assert(names[k] == all[k + shift]);
        a_component_is_the_root_or_a_name(path, k + shift);
        if names[k] == "."@ {
            if is_absolute(path) {
                assert(shift == 1);
                a_dot_comes_first(p, n, k);
            } else {
                a_dot_comes_first(p, n, k + shift);
            }
        }
    }
}

proof fn plain_is_later(path: Seq<char>)
    requires
        !is_absolute(path),
        components(path).len() > 0 ==> components(path)[0] != "/"@,
    ensures
        plain_names(path) == names_of(path),
{
    let p = pieces(path, '/');
    let n = p.len() as int;
    pieces_not_empty(path, '/');
    if components(path).len() > 0 && components(path)[0] == "."@ {
        a_dot_comes_first(p, n, 0);
        later_lacks_the_dot(p, n);
        assert(plain_names(path) =~= names_of(path));
    } else {
        names_are_components(path);
    }
}

proof fn later_lacks_the_dot(p: Seq<Seq<char>>, n: int)
    requires
        1 <= n <= p.len(),
        p[0] == "."@,
    ensures
        counting(p, n) == seq!["."@] + later(p, n),
    decreases n,
{
    reveal_strlit(".");
    if n == 1 {
        reveal_with_fuel(counting, 2);
        reveal_with_fuel(later, 2);
        assert(counting(p, 1) =~= seq!["."@]);
        assert(later(p, 1) =~= Seq::<Seq<char>>::empty());
    } else {
        later_lacks_the_dot(p, n - 1);
        assert(counting(p, n) =~= seq!["."@] + later(p, n));
    }
}

/// A path made absolute is the path as seen from the directory: its
/// components are its own where it is absolute, and else the directory's
/// followed by its names.
pub proof fn an_absolute_path_is_seen_from_the_directory(path: Seq<char>, cwd: Seq<char>)
    requires
        is_absolute(path) || cwd.len() > 0,
    ensures
        is_absolute(path) ==> components(absolute_path(path, cwd)) == components(path),
        !is_absolute(path) ==> components(absolute_path(path, cwd)) == components(cwd) + names_of(
            path,
        ),
        is_absolute(absolute_path(path, cwd)) == (is_absolute(path) || is_absolute(cwd)),
{
    reveal_strlit("/");
    reveal_strlit("//");
    reveal_strlit("");
    let start = start_of(path, cwd);
    let names = plain_names(path);
    plain_names_are_names(path);
    joining_all_adds_each(start, names);
    let all = joined_all(start, names);
    roots_have_one_component();
    if path.len() > 0 && path.last() == '/' {
        assert(""@ =~= Seq::<char>::empty());
        joining_adds_components(all, ""@);
        reveal_with_fuel(pieces, 2);
        reveal_with_fuel(later, 2);
        assert(pieces(""@, '/') =~= seq![Seq::<char>::empty()]);
        assert(names_of(""@) =~= Seq::<Seq<char>>::empty());
        assert(components(all) + names_of(""@) =~= components(all));
    }
}

proof fn roots_have_one_component()
    ensures
        components("/"@) == seq!["/"@],
        components("//"@) == seq!["/"@],
{
    reveal_strlit("/");
    reveal_strlit("//");
    reveal_with_fuel(pieces, 3);
    reveal_with_fuel(counting, 4);
    let e = Seq::<char>::empty();
    assert("/"@.drop_last() =~= e);
    assert(pieces("/"@, '/') =~= seq![e, e]);
    assert("//"@.drop_last() =~= "/"@);
    assert(pieces("//"@, '/') =~= seq![e, e, e]);
    assert(counting(seq![e, e], 2) =~= Seq::<Seq<char>>::empty());
    assert(counting(seq![e, e, e], 3) =~= Seq::<Seq<char>>::empty());
    assert(components("/"@) =~= seq!["/"@]);
    assert(components("//"@) =~= seq!["/"@]);
}

/// A text is its pieces with the separator between each two.
pub proof fn pieces_make_up_the_text(s: Seq<char>, separator: char)
    ensures
        joined(pieces(s, separator), seq![separator]) == s,
    decreases s.len(),
{
    let p = pieces(s, separator);
    let one = seq![separator];
    if s.len() == 0 {
        assert(joined(p, one) =~= s);
    } else {
        let front = s.drop_last();
        pieces_make_up_the_text(front, separator);
        pieces_not_empty(front, separator);
        let before = pieces(front, separator);
        if s.last() == separator {
            assert(p.drop_last() =~= before);
            assert(joined(p, one) =~= front + one + Seq::<char>::empty());
            assert(s =~= front + one);
        } else {
            let n = before.len() - 1;
            assert(p.drop_last() =~= before.drop_last());
            assert(p.last() == before.last().push(s.last()));
            if n == 0 {
                assert(joined(before, one) == before[0]);
                assert(joined(p, one) =~= front.push(s.last()));
            } else {
                assert(joined(before, one) == joined(before.drop_last(), one) + one
                    + before.last());
                assert(joined(p, one) =~= front.push(s.last()));
            }
            assert(s =~= front.push(s.last()));
        }
    }
}

/// A path's components are its pieces that are names, in order: what is empty
/// is left out, and so is `.` but at the beginning.
pub proof fn components_are_the_pieces_that_count(path: Seq<char>, i: int)
    requires
        0 <= i < pieces(path, '/').len(),
    ensures
        ({
            let piece = pieces(path, '/')[i];
            piece.len() > 0 && (i == 0 || piece != "."@) ==> components(path).contains(piece)
        }),
{
    let p = pieces(path, '/');
    let n = p.len() as int;
    if p[i].len() > 0 && (i == 0 || p[i] != "."@) {
        counted_is_kept(p, n, i);
        let c = counting(p, n);
        let k = choose|k: int| 0 <= k < c.len() && c[k] == p[i];
        if is_absolute(path) {
            assert(components(path)[k + 1] == p[i]);
        } else {
            assert(components(path)[k] == p[i]);
        }
    }
}

proof fn counted_is_kept(p: Seq<Seq<char>>, n: int, i: int)
    requires
        0 <= i < n <= p.len(),
        p[i].len() > 0,
        i == 0 || p[i] != "."@,
    ensures
        counting(p, n).contains(p[i]),
    decreases n,
{
    let before = counting(p, n - 1);
    if i < n - 1 {
        counted_is_kept(p, n - 1, i);
        let k = choose|k: int| 0 <= k < before.len() && before[k] == p[i];
        assert(counting(p, n)[k] == p[i]);
    } else {
        assert(counting(p, n)[before.len() as int] == p[i]);
    }
}

/// A path is below another exactly where it begins with all of that one's
/// components, and the rest is what is left.
pub proof fn below_is_to_begin_with_all_components(path: &str, base: &str, r: Option<String>)
    requires
        call_ensures(strip_prefix, (path, base), r),
    ensures
        r is Some <==> exists|rest: Seq<Seq<char>>|
            components(path@) == #[trigger] (components(base@) + rest),
        r matches Some(rest) ==> components(path@) == components(base@) + components(rest@),
{
    let p = components(path@);
    let b = components(base@);
    if r is Some {
        what_is_below_has_the_other_components(path@, base@);
        assert(p == b + components(r->Some_0@));
    }
    if exists|rest: Seq<Seq<char>>| p == #[trigger] (b + rest) {
        let rest = choose|rest: Seq<Seq<char>>| p == #[trigger] (b + rest);
        assert(p.take(b.len() as int) =~= b);
    }
}

/// Two texts spell one path exactly where they have the same components; a
/// list holds a path where one of its entries spells it; and a path has a
/// component where one of its own is that.
pub proof fn paths_are_compared_by_their_components(
    a: &str,
    b: &str,
    same: bool,
    list: &Vec<String>,
    held: bool,
    has: bool,
)
    requires
        call_ensures(is_same_path, (a, b), same),
        call_ensures(contains_path, (list, a), held),
        call_ensures(has_component, (a, b), has),
    ensures
        same <==> components(a@) == components(b@),
        held <==> exists|i: int|
            0 <= i < list@.len() && components((#[trigger] list@[i])@) == components(a@),
        has <==> exists|k: int| 0 <= k < components(a@).len() && components(a@)[k] == b@,
{
    let v = views(list@);
    assert(v.len() == list@.len());
    if held {
        let i = choose|i: int| 0 <= i < v.len() && same_path(#[trigger] v[i], a@);
        assert(components(list@[i]@) == components(a@));
    }
    if exists|i: int| 0 <= i < list@.len() && components((#[trigger] list@[i])@) == components(a@) {
        let i = choose|i: int|
            0 <= i < list@.len() && components((#[trigger] list@[i])@) == components(a@);
        assert(same_path(v[i], a@));
    }
}

} // verus!
