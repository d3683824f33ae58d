//! Paths as `/`-separated text.
//!
//! A path is compared by its components: repeated and trailing separators do
//! not count, nor does `.` anywhere but at the start of a relative path.

use vstd::prelude::*;
use vstd::string::*;
use crate::text::{chars_of, opt_view, same_text, text2, text3, views};

verus! {

/// The pieces of `s` between separators: one more than there are separators.
pub open spec fn pieces(s: Seq<char>, separator: char) -> Seq<Seq<char>>
    decreases s.len(),
{
    if s.len() == 0 {
        seq![Seq::empty()]
    } else {
        let before = pieces(s.drop_last(), separator);
        if s.last() == separator {
            before.push(Seq::empty())
        } else {
            before.update(before.len() - 1, before.last().push(s.last()))
        }
    }
}

pub proof fn pieces_not_empty(s: Seq<char>, separator: char)
    ensures
        pieces(s, separator).len() >= 1,
    decreases s.len(),
{
    if s.len() > 0 {
        pieces_not_empty(s.drop_last(), separator);
    }
}

/// The pieces of `s` between separators.
pub fn split(s: &str, separator: char) -> (r: Vec<String>)
    ensures
        views(r@) == pieces(s@, separator),
{
    let chars = chars_of(s);
    let mut out: Vec<String> = Vec::new();
    let mut piece = String::new();
    let mut i: usize = 0;
    assert(views(out@).push(piece@) =~= pieces(s@.take(0), separator));
    while i < chars.len()
        invariant
            i <= chars@.len(),
            chars@ == s@,
            views(out@).push(piece@) == pieces(s@.take(i as int), separator),
        decreases chars.len() - i,
    {
        let c = chars[i];
        let ghost before = views(out@);
        let ghost last = piece@;
        assert(s@.take(i + 1).drop_last() == s@.take(i as int));
        assert(s@.take(i + 1).last() == c);
        if c == separator {
            out.push(piece);
            piece = String::new();
            assert(views(out@) =~= before.push(last));
        } else {
            piece.push(c);
            assert(before.push(last).update(before.len() as int, last.push(c)) =~= before.push(
                piece@,
            ));
        }
        i += 1;
    }
    let ghost before = views(out@);
    let ghost last = piece@;
    out.push(piece);
    assert(views(out@) =~= before.push(last));
    assert(s@.take(s@.len() as int) == s@);
    out
}

/// Whether a piece counts as a component: it is not empty, and not `.`
/// unless it comes first.
pub open spec fn counts(piece: Seq<char>, first: bool) -> bool {
    piece.len() > 0 && (first || piece != "."@)
}

/// The names among the first `n` pieces.
pub open spec fn counting(p: Seq<Seq<char>>, n: int) -> Seq<Seq<char>>
    decreases n,
{
    if n <= 0 {
        Seq::empty()
    } else if counts(p[n - 1], n == 1) {
        counting(p, n - 1).push(p[n - 1])
    } else {
        counting(p, n - 1)
    }
}

pub open spec fn is_absolute(path: Seq<char>) -> bool {
    path.len() > 0 && path[0] == '/'
}

/// A path's components: the root, where the path is absolute, and the names.
pub open spec fn components(path: Seq<char>) -> Seq<Seq<char>> {
    let names = counting(pieces(path, '/'), pieces(path, '/').len() as int);
    if is_absolute(path) {
        seq!["/"@] + names
    } else {
        names
    }
}

/// Where piece `k` begins.
pub open spec fn piece_start(p: Seq<Seq<char>>, k: int) -> int
    decreases k,
{
    if k <= 0 {
        0
    } else {
        piece_start(p, k - 1) + p[k - 1].len() + 1
    }
}

/// Where the names among the first `n` pieces begin and end.
pub open spec fn counting_spans(p: Seq<Seq<char>>, n: int) -> Seq<(int, int)>
    decreases n,
{
    if n <= 0 {
        Seq::empty()
    } else if counts(p[n - 1], n == 1) {
        let start = piece_start(p, n - 1);
        counting_spans(p, n - 1).push((start, start + p[n - 1].len()))
    } else {
        counting_spans(p, n - 1)
    }
}

/// Where each of a path's components begins and ends in its text.
pub open spec fn spans(path: Seq<char>) -> Seq<(int, int)> {
    let names = counting_spans(pieces(path, '/'), pieces(path, '/').len() as int);
    if is_absolute(path) {
        seq![(0int, 1int)] + names
    } else {
        names
    }
}

/// Two texts spell one path.
pub open spec fn same_path(a: Seq<char>, b: Seq<char>) -> bool {
    components(a) == components(b)
}

/// What is left of `path` below `base`, where it is below it: its text from
/// the first component that is not of `base` to the end of the last one.
pub open spec fn below(path: Seq<char>, base: Seq<char>) -> Option<Seq<char>> {
    let p = components(path);
    let b = components(base);
    if b.len() <= p.len() && p.take(b.len() as int) == b {
        Some(
            if b.len() == p.len() {
                Seq::empty()
            } else {
                path.subrange(spans(path)[b.len() as int].0, spans(path).last().1)
            },
        )
    } else {
        None
    }
}

/// `path` without its last component; nothing for the root and for no path.
/// It is the text up to the end of the component before that one.
pub open spec fn parent_of(path: Seq<char>) -> Option<Seq<char>> {
    let p = components(path);
    if p.len() == 0 || p.last() == "/"@ {
        None
    } else if p.len() == 1 {
        Some(Seq::empty())
    } else {
        Some(path.take(spans(path)[p.len() - 2].1))
    }
}

/// `path` as seen from `base`: itself where it is absolute.
pub open spec fn joined_path(base: Seq<char>, path: Seq<char>) -> Seq<char> {
    if is_absolute(path) || base.len() == 0 {
        path
    } else if base.last() == '/' {
        base + path
    } else {
        base + "/"@ + path
    }
}

/// `names` joined to `base`, one after the other.
pub open spec fn joined_all(base: Seq<char>, names: Seq<Seq<char>>) -> Seq<char>
    decreases names.len(),
{
    if names.len() == 0 {
        base
    } else {
        joined_path(joined_all(base, names.drop_last()), names.last())
    }
}

/// A path's components but for the root and a leading `.`.
pub open spec fn plain_names(path: Seq<char>) -> Seq<Seq<char>> {
    let p = components(path);
    if p.len() > 0 && (p[0] == "/"@ || p[0] == "."@) {
        p.drop_first()
    } else {
        p
    }
}

/// Exactly two separators at the start of a path are kept.
pub open spec fn has_two_roots(path: Seq<char>) -> bool {
    &&& path.len() >= 2
    &&& path[0] == '/'
    &&& path[1] == '/'
    &&& path.len() == 2 || path[2] != '/'
}

/// Where a path starts from: the root that it names, or `cwd`.
pub open spec fn start_of(path: Seq<char>, cwd: Seq<char>) -> Seq<char> {
    if !is_absolute(path) {
        cwd
    } else if has_two_roots(path) {
        "//"@
    } else {
        "/"@
    }
}

/// `path` made absolute from the directory `cwd`, without `.` components and
/// repeated separators; a separator at the end stays.
pub open spec fn absolute_path(path: Seq<char>, cwd: Seq<char>) -> Seq<char> {
    let all = joined_all(start_of(path, cwd), plain_names(path));
    if path.len() > 0 && path.last() == '/' {
        joined_path(all, ""@)
    } else {
        all
    }
}

/// Whether `path` is absolute.
pub fn path_is_absolute(path: &str) -> (r: bool)
    ensures
        r == is_absolute(path@),
{
    path.unicode_len() > 0 && path.get_char(0) == '/'
}

/// The components of `path`.
pub fn components_of(path: &str) -> (r: Vec<String>)
    ensures
        views(r@) == components(path@),
{
    let parts = split(path, '/');
    let ghost all = pieces(path@, '/');
    let mut out: Vec<String> = Vec::new();
    let rooted = path_is_absolute(path);
    if rooted {
        out.push("/".to_owned());
    }
    let ghost start = views(out@);
    assert(start =~= if rooted {
        seq!["/"@]
    } else {
        Seq::<Seq<char>>::empty()
    });
    let mut i: usize = 0;
    assert(views(out@) =~= start + counting(all, 0));
    while i < parts.len()
        invariant
            i <= parts@.len(),
            views(parts@) == all,
            views(out@) == start + counting(all, i as int),
        decreases parts.len() - i,
    {
        let piece = &parts[i];
        assert(all[i as int] == piece@);
        if !piece.as_str().is_empty() && (i == 0 || !same_text(piece.as_str(), ".")) {
            let ghost before = views(out@);
            out.push(piece.clone());
            assert(views(out@) =~= before.push(piece@));
            assert(counts(all[i as int], i == 0));
            assert(views(out@) =~= start + counting(all, i + 1));
        }
        i += 1;
    }
    assert(all.len() == parts@.len());
    assert(start + counting(all, all.len() as int) =~= components(path@));
    out
}

/// A piece of a text is where its start says.
pub proof fn a_piece_is_at_its_start(s: Seq<char>, separator: char, k: int)
    requires
        0 <= k < pieces(s, separator).len(),
    ensures
        0 <= piece_start(pieces(s, separator), k),
        piece_start(pieces(s, separator), k) + pieces(s, separator)[k].len() <= s.len(),
        k == pieces(s, separator).len() - 1 ==> piece_start(pieces(s, separator), k) + pieces(
            s,
            separator,
        )[k].len() == s.len(),
        pieces(s, separator)[k] == s.subrange(
            piece_start(pieces(s, separator), k),
            piece_start(pieces(s, separator), k) + pieces(s, separator)[k].len(),
        ),
    decreases s.len(),
{
    let p = pieces(s, separator);
    if s.len() == 0 {
        assert(p[0] =~= s.subrange(0, 0));
    } else {
        let front = s.drop_last();
        let before = pieces(front, separator);
        let n = before.len() as int;
        pieces_not_empty(front, separator);
        a_piece_is_at_its_start(front, separator, n - 1);
        if s.last() == separator {
            starts_agree(before, p, n);
            if k < n {
                a_piece_is_at_its_start(front, separator, k);
                starts_agree(before, p, k);
                assert(p[k] =~= s.subrange(piece_start(p, k), piece_start(p, k) + p[k].len()));
            } else {
                assert(p[k] =~= s.subrange(piece_start(p, k), piece_start(p, k)));
            }
        } else {
            starts_agree(before, p, n - 1);
            if k < n - 1 {
                a_piece_is_at_its_start(front, separator, k);
                starts_agree(before, p, k);
                assert(p[k] =~= s.subrange(piece_start(p, k), piece_start(p, k) + p[k].len()));
            } else {
                assert(p[k] =~= s.subrange(piece_start(p, k), piece_start(p, k) + p[k].len()));
            }
        }
    }
}

/// Where a piece begins depends on the pieces before it alone.
pub proof fn starts_agree(p: Seq<Seq<char>>, q: Seq<Seq<char>>, k: int)
    requires
        0 <= k <= p.len(),
        k <= q.len(),
        forall|i: int| 0 <= i < k ==> #[trigger] p[i] == q[i],
    ensures
        piece_start(p, k) == piece_start(q, k),
    decreases k,
{
    if k > 0 {
        starts_agree(p, q, k - 1);
        assert(p[k - 1] == q[k - 1]);
    }
}

/// A span as it is counted.
pub open spec fn span_views(spans: Seq<(usize, usize)>) -> Seq<(int, int)> {
    Seq::new(spans.len(), |i: int| (spans[i].0 as int, spans[i].1 as int))
}

/// Where each of a path's components begins and ends in its text.
fn spans_of(path: &str) -> (r: Vec<(usize, usize)>)
    ensures
        span_views(r@) == spans(path@),
        r@.len() == components(path@).len(),
        forall|i: int| 0 <= i < r@.len() ==> (#[trigger] r@[i]).0 <= r@[i].1 <= path@.len(),
{
    let parts = split(path, '/');
    let n: usize = path.unicode_len();
    let ghost all = pieces(path@, '/');
    let mut out: Vec<(usize, usize)> = Vec::new();
    let rooted = path_is_absolute(path);
    if rooted {
        out.push((0, 1));
    }
    let ghost start = span_views(out@);
    let ghost first = if rooted {
        seq!["/"@]
    } else {
        Seq::<Seq<char>>::empty()
    };
    assert(start =~= if rooted {
        seq![(0int, 1int)]
    } else {
        Seq::<(int, int)>::empty()
    });
    let mut i: usize = 0;
    let mut at: usize = 0;
    assert(span_views(out@) =~= start + counting_spans(all, 0));
    assert(views(parts@).len() == parts@.len());
    while i < parts.len()
        invariant
            i <= parts@.len(),
            parts@.len() == all.len(),
            n == path@.len(),
            all == pieces(path@, '/'),
            views(parts@) == all,
            i < parts@.len() ==> at == piece_start(all, i as int),
            span_views(out@) == start + counting_spans(all, i as int),
            out@.len() == first.len() + counting(all, i as int).len(),
            forall|k: int| 0 <= k < out@.len() ==> (#[trigger] out@[k]).0 <= out@[k].1 <= n,
        decreases parts.len() - i,
    {
        let piece = &parts[i];
        let len: usize = piece.as_str().unicode_len();
        proof {
            assert(all[i as int] == piece@);
            a_piece_is_at_its_start(path@, '/', i as int);
        }
        if !piece.as_str().is_empty() && (i == 0 || !same_text(piece.as_str(), ".")) {
            let ghost before = span_views(out@);
            out.push((at, at + len));
            proof {
                assert(span_views(out@) =~= before.push((at as int, at + len)));
                assert(counts(all[i as int], i == 0));
                assert(span_views(out@) =~= start + counting_spans(all, i + 1));
            }
        }
        if i + 1 < parts.len() {
            proof {
                a_piece_is_at_its_start(path@, '/', i + 1);
            }
            at = at + len + 1;
        }
        i += 1;
    }
    assert(start + counting_spans(all, all.len() as int) =~= spans(path@));
    out
}

/// The characters of `s` from one place to another.
fn slice(s: &str, from: usize, to: usize) -> (r: String)
    requires
        from <= to <= s@.len(),
    ensures
        r@ == s@.subrange(from as int, to as int),
{
    let chars = chars_of(s);
    let mut out = String::new();
    let mut i: usize = from;
    assert(out@ =~= s@.subrange(from as int, from as int));
    while i < to
        invariant
            from <= i <= to <= s@.len(),
            chars@ == s@,
            out@ == s@.subrange(from as int, i as int),
        decreases to - i,
    {
        out.push(chars[i]);
        assert(s@.subrange(from as int, i + 1) =~= s@.subrange(from as int, i as int).push(
            s@[i as int],
        ));
        i += 1;
    }
    out
}

/// Whether two lists hold the same strings up to place `n`.
fn same_prefix(a: &Vec<String>, b: &Vec<String>, n: usize) -> (r: bool)
    requires
        n <= a@.len(),
        n <= b@.len(),
    ensures
        r == (views(a@).take(n as int) == views(b@).take(n as int)),
{
    let mut i: usize = 0;
    while i < n
        invariant
            i <= n,
            n <= a@.len(),
            n <= b@.len(),
            forall|k: int| 0 <= k < i ==> views(a@)[k] == views(b@)[k],
        decreases n - i,
    {
        if !same_text(a[i].as_str(), b[i].as_str()) {
            proof {
                assert(views(a@).take(n as int)[i as int] == a@[i as int]@);
                assert(views(b@).take(n as int)[i as int] == b@[i as int]@);
            }
            return false;
        }
        i += 1;
    }
    assert(views(a@).take(n as int) =~= views(b@).take(n as int));
    true
}

/// Whether two texts spell one path.
pub fn is_same_path(a: &str, b: &str) -> (r: bool)
    ensures
        r == same_path(a@, b@),
{
    let x = components_of(a);
    let y = components_of(b);
    if x.len() != y.len() {
        assert(views(x@).len() != views(y@).len());
        return false;
    }
    let n = x.len();
    proof {
        assert(views(x@).take(n as int) =~= views(x@));
        assert(views(y@).take(n as int) =~= views(y@));
    }
    same_prefix(&x, &y, n)
}

/// Components come one after the other in a path's text.
proof fn spans_are_in_order(path: Seq<char>, i: int, j: int)
    requires
        0 <= i <= j < spans(path).len(),
    ensures
        0 <= spans(path)[i].0 <= spans(path)[i].1 <= path.len(),
        0 <= spans(path)[j].0 <= spans(path)[j].1 <= path.len(),
        i < j ==> spans(path)[i].1 <= spans(path)[j].0,
{
    let p = pieces(path, '/');
    let n = p.len() as int;
    if is_absolute(path) {
        if i > 0 {
            names_are_in_order(path, n, i - 1, j - 1);
        } else if j > 0 {
            names_are_in_order(path, n, j - 1, j - 1);
            no_name_at_the_root(path, n, j - 1);
        }
    } else {
        names_are_in_order(path, n, i, j);
    }
}

proof fn names_are_in_order(path: Seq<char>, n: int, i: int, j: int)
    requires
        0 <= n <= pieces(path, '/').len(),
        0 <= i <= j < counting_spans(pieces(path, '/'), n).len(),
    ensures
        ({
            let at = counting_spans(pieces(path, '/'), n);
            &&& 0 <= at[i].0 < at[i].1 <= path.len()
            &&& 0 <= at[j].0 < at[j].1 <= path.len()
            &&& i < j ==> at[i].1 < at[j].0
            &&& n < pieces(path, '/').len() ==> at[j].1 < piece_start(pieces(path, '/'), n)
        }),
    decreases n,
{
    let p = pieces(path, '/');
    let before = counting_spans(p, n - 1);
    a_piece_is_at_its_start(path, '/', n - 1);
    if n < p.len() {
        a_piece_is_at_its_start(path, '/', n);
    }
    if i < before.len() {
        names_are_in_order(path, n - 1, i, i);
    }
    if j < before.len() {
        names_are_in_order(path, n - 1, i, j);
    }
}

proof fn no_name_at_the_root(path: Seq<char>, n: int, j: int)
    requires
        is_absolute(path),
        0 <= n <= pieces(path, '/').len(),
        0 <= j < counting_spans(pieces(path, '/'), n).len(),
    ensures
        counting_spans(pieces(path, '/'), n)[j].0 >= 1,
    decreases n,
{
    let p = pieces(path, '/');
    let before = counting_spans(p, n - 1);
    if j < before.len() {
        no_name_at_the_root(path, n - 1, j);
    } else {
        a_piece_is_at_its_start(path, '/', n - 1);
        if n == 1 {
            pieces_have_no_separator(path, '/', 0);
            assert(p[0][0] == path[0]);
        } else {
            a_piece_is_at_its_start(path, '/', n - 2);
        }
    }
}

/// No piece holds a separator.
pub proof fn pieces_have_no_separator(s: Seq<char>, separator: char, k: int)
    requires
        0 <= k < pieces(s, separator).len(),
    ensures
        !pieces(s, separator)[k].contains(separator),
    decreases s.len(),
{
    if s.len() > 0 {
        let before = pieces(s.drop_last(), separator);
        pieces_not_empty(s.drop_last(), separator);
        if k < before.len() {
            pieces_have_no_separator(s.drop_last(), separator, k);
        }
    }
}

/// What is left of `path` below `base`.
pub fn strip_prefix(path: &str, base: &str) -> (r: Option<String>)
    ensures
        opt_view(r) == below(path@, base@),
{
    let p = components_of(path);
    let b = components_of(base);
    let n: usize = b.len();
    assert(views(p@).len() == p@.len());
    assert(views(b@).len() == b@.len());
    if n > p.len() {
        return None;
    }
    assert(views(b@).take(n as int) =~= views(b@));
    if !same_prefix(&p, &b, n) {
        return None;
    }
    if n == p.len() {
        let r = String::new();
        assert(r@ =~= Seq::<char>::empty());
        return Some(r);
    }
    let at = spans_of(path);
    let from: usize = at[n].0;
    let to: usize = at[at.len() - 1].1;
    proof {
        let all = spans(path@);
        assert(all[n as int] == (at@[n as int].0 as int, at@[n as int].1 as int));
        assert(all.last() == (at@.last().0 as int, at@.last().1 as int));
        spans_are_in_order(path@, n as int, all.len() - 1);
    }
    Some(slice(path, from, to))
}

/// `path` without its last component.
pub fn parent(path: &str) -> (r: Option<String>)
    ensures
        opt_view(r) == parent_of(path@),
{
    let p = components_of(path);
    let n: usize = p.len();
    assert(views(p@).len() == p@.len());
    if n == 0 {
        return None;
    }
    assert(views(p@).last() == p@[n - 1]@);
    if same_text(p[n - 1].as_str(), "/") {
        return None;
    }
    if n == 1 {
        let r = String::new();
        assert(r@ =~= Seq::<char>::empty());
        return Some(r);
    }
    let at = spans_of(path);
    let to: usize = at[n - 2].1;
    proof {
        assert(spans(path@)[n - 2] == (at@[n - 2].0 as int, at@[n - 2].1 as int));
        assert(path@.take(to as int) =~= path@.subrange(0, to as int));
    }
    Some(slice(path, 0, to))
}

/// `path` as seen from `base`.
pub fn join_path(base: &str, path: &str) -> (r: String)
    ensures
        r@ == joined_path(base@, path@),
{
    if path_is_absolute(path) || base.is_empty() {
        path.to_owned()
    } else {
        let n: usize = base.unicode_len();
        if base.get_char(n - 1) == '/' {
            text2(base, path)
        } else {
            text3(base, "/", path)
        }
    }
}

/// `path` made absolute from the directory `cwd`.
pub fn absolute(path: &str, cwd: &str) -> (r: String)
    ensures
        r@ == absolute_path(path@, cwd@),
{
    let parts = components_of(path);
    let n: usize = path.unicode_len();
    let ghost names = plain_names(path@);
    assert(views(parts@) == components(path@));
    assert(parts@.len() == components(path@).len());
    let mut out = if !path_is_absolute(path) {
        cwd.to_owned()
    } else if n >= 2 && path.get_char(1) == '/' && (n == 2 || path.get_char(2) != '/') {
        "//".to_owned()
    } else {
        "/".to_owned()
    };
    let ghost start = out@;
    assert(start == start_of(path@, cwd@));
    let skipped: usize = if parts.len() > 0 && (same_text(parts[0].as_str(), "/") || same_text(
        parts[0].as_str(),
        ".",
    )) {
        1
    } else {
        0
    };
    proof {
        if parts@.len() > 0 {
            assert(components(path@)[0] == parts@[0]@);
        }
        assert(names =~= components(path@).skip(skipped as int));
        assert(names.take(0) =~= Seq::<Seq<char>>::empty());
    }
    let mut i: usize = skipped;
    while i < parts.len()
        invariant
            skipped <= i <= parts@.len(),
            names == views(parts@).skip(skipped as int),
            out@ == joined_all(start, names.take(i - skipped)),
        decreases parts.len() - i,
    {
        proof {
            let part = names.take(i - skipped + 1);
            assert(part.drop_last() =~= names.take(i - skipped));
            assert(part.last() == parts@[i as int]@);
        }
        out = join_path(out.as_str(), parts[i].as_str());
        i += 1;
    }
    assert(names.take(names.len() as int) =~= names);
    if n > 0 && path.get_char(n - 1) == '/' {
        join_path(out.as_str(), "")
    } else {
        out
    }
}

/// The last component of `path`, where it is a name.
pub open spec fn file_name_of(path: Seq<char>) -> Option<Seq<char>> {
    let p = components(path);
    if p.len() == 0 || p.last() == "/"@ || p.last() == "."@ || p.last() == ".."@ {
        None
    } else {
        Some(p.last())
    }
}

/// The last component of `path`, where it is a name.
pub fn file_name(path: &str) -> (r: Option<String>)
    ensures
        opt_view(r) == file_name_of(path@),
{
    let p = components_of(path);
    if p.len() == 0 {
        return None;
    }
    let n: usize = p.len();
    let last = p[n - 1].as_str();
    assert(views(p@).last() == last@);
    if same_text(last, "/") || same_text(last, ".") || same_text(last, "..") {
        None
    } else {
        Some(p[n - 1].clone())
    }
}

/// One of `list` spells the path.
pub open spec fn holds_path(list: Seq<Seq<char>>, path: Seq<char>) -> bool {
    exists|i: int| 0 <= i < list.len() && same_path(#[trigger] list[i], path)
}

/// Whether one of `list` spells the path.
pub fn contains_path(list: &Vec<String>, path: &str) -> (r: bool)
    ensures
        r == holds_path(views(list@), path@),
{
    let mut i: usize = 0;
    while i < list.len()
        invariant
            i <= list@.len(),
            forall|k: int| 0 <= k < i ==> !same_path(#[trigger] views(list@)[k], path@),
        decreases list.len() - i,
    {
        if is_same_path(list[i].as_str(), path) {
            assert(same_path(views(list@)[i as int], path@));
            return true;
        }
        i += 1;
    }
    false
}

/// Whether a path has a component called `name`.
pub fn has_component(path: &str, name: &str) -> (r: bool)
    ensures
        r == components(path@).contains(name@),
{
    let parts = components_of(path);
    crate::check::is_param(&parts, name)
}

} // verus!
