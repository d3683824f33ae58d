//! What is written to the cache can be told from anything else that could
//! have been written, so reading it leaves no doubt.

use vstd::prelude::*;
use crate::event::OutputLine;
use crate::git::{lines_of, without_return};
use crate::json::{hex_digit, json_char, json_chars, json_string, json_strings, stream_word};
use crate::json_laws::{a_json_string_is_one_line, one_line, one_line_concat};
use crate::paths::pieces;
use crate::paths_laws::pieces_of_both;
use crate::store::{
    a_stored_line_keeps_its_stream, decimal_tells_numbers_apart, indented_array, log_file,
    log_line, manifest_file, output_views, Manifest,
};
use crate::text::{decimal, joined, views};

verus! {

/// A text's JSON characters from the front.
proof fn json_chars_from_front(s: Seq<char>)
    requires
        s.len() > 0,
    ensures
        json_chars(s) == json_char(s[0]) + json_chars(s.drop_first()),
    decreases s.len(),
{
    if s.len() == 1 {
        assert(s.drop_last() =~= Seq::<char>::empty());
        assert(s.drop_first() =~= Seq::<char>::empty());
        assert(json_chars(s) =~= json_char(s[0]) + json_chars(s.drop_first()));
    } else {
        json_chars_from_front(s.drop_last());
        assert(s.drop_last().drop_first() =~= s.drop_first().drop_last());
        let middle = json_chars(s.drop_first().drop_last());
        assert(json_chars(s.drop_first()) == middle + json_char(s.last()));
        assert(json_char(s[0]) + middle + json_char(s.last()) =~= json_char(s[0]) + (middle
            + json_char(s.last())));
    }
}

proof fn hex_digits_differ(a: nat, b: nat)
    requires
        a < 16,
        b < 16,
        hex_digit(a) == hex_digit(b),
    ensures
        a == b,
{
}

/// A character's JSON form is never the beginning of another's.
proof fn json_char_ends(c: char, x: Seq<char>, d: char, y: Seq<char>)
    requires
        json_char(c) + x == json_char(d) + y,
    ensures
        c == d,
        x == y,
{
    let s = json_char(c) + x;
    let t = json_char(d) + y;
    assert(s[0] == json_char(c)[0] && t[0] == json_char(d)[0]);
    if json_char(c).len() > 1 && json_char(d).len() > 1 {
        assert(s[1] == json_char(c)[1] && t[1] == json_char(d)[1]);
        if json_char(c).len() == 6 && json_char(d).len() == 6 {
            assert(s[4] == json_char(c)[4] && t[4] == json_char(d)[4]);
            assert(s[5] == json_char(c)[5] && t[5] == json_char(d)[5]);
            hex_digits_differ((c as u32 / 16) as nat, (d as u32 / 16) as nat);
            hex_digits_differ((c as u32 % 16) as nat, (d as u32 % 16) as nat);
            assert(c as u32 == d as u32);
            vstd::utf8::char_u32_cast(c, c as u32);
            vstd::utf8::char_u32_cast(d, d as u32);
        }
    }
    assert(c == d);
    assert(x =~= s.skip(json_char(c).len() as int));
    assert(y =~= t.skip(json_char(d).len() as int));
}

proof fn json_chars_end(a: Seq<char>, x: Seq<char>, b: Seq<char>, y: Seq<char>)
    requires
        json_chars(a) + (seq!['"'] + x) == json_chars(b) + (seq!['"'] + y),
    ensures
        a == b,
        x == y,
    decreases a.len(),
{
    let s = json_chars(a) + (seq!['"'] + x);
    let t = json_chars(b) + (seq!['"'] + y);
    if a.len() > 0 {
        json_chars_from_front(a);
        assert(s[0] == json_char(a[0])[0]);
    } else {
        assert(s =~= seq!['"'] + x);
        assert(s[0] == '"');
    }
    if b.len() > 0 {
        json_chars_from_front(b);
        assert(t[0] == json_char(b[0])[0]);
    } else {
        assert(t =~= seq!['"'] + y);
        assert(t[0] == '"');
    }
    if a.len() == 0 || b.len() == 0 {
        assert(a.len() == 0 && b.len() == 0);
        assert(a =~= b);
        assert(x =~= s.drop_first());
        assert(y =~= t.drop_first());
    } else {
        let u = json_chars(a.drop_first()) + (seq!['"'] + x);
        let v = json_chars(b.drop_first()) + (seq!['"'] + y);
        assert(s =~= json_char(a[0]) + u);
        assert(t =~= json_char(b[0]) + v);
        json_char_ends(a[0], u, b[0], v);
        json_chars_end(a.drop_first(), x, b.drop_first(), y);
        assert(a =~= seq![a[0]] + a.drop_first());
        assert(b =~= seq![b[0]] + b.drop_first());
    }
}

/// A JSON string ends where it ends: nothing else begins with it.
pub proof fn a_json_string_is_never_the_beginning_of_another(
    a: Seq<char>,
    x: Seq<char>,
    b: Seq<char>,
    y: Seq<char>,
)
    requires
        json_string(a) + x == json_string(b) + y,
    ensures
        a == b,
        x == y,
{
    let s = json_string(a) + x;
    let t = json_string(b) + y;
    let u = json_chars(a) + (seq!['"'] + x);
    let v = json_chars(b) + (seq!['"'] + y);
    assert(u =~= s.drop_first());
    assert(v =~= t.drop_first());
    json_chars_end(a, x, b, y);
}

pub(crate) proof fn prefix_cut(p: Seq<char>, x: Seq<char>, y: Seq<char>)
    requires
        p + x == p + y,
    ensures
        x == y,
{
    assert(x =~= (p + x).skip(p.len() as int));
    assert(y =~= (p + y).skip(p.len() as int));
}

/// Lines of a log file are told apart by what they hold.
proof fn log_lines_differ(s: Seq<char>, t: Seq<char>, u: Seq<char>, v: Seq<char>)
    requires
        log_line(s, t) == log_line(u, v),
    ensures
        s == u,
        t == v,
{
    let p = "{\"stream\":"@;
    let m = ",\"text\":"@;
    let e = "}"@;
    assert(log_line(s, t) =~= p + (json_string(s) + (m + (json_string(t) + e))));
    assert(log_line(u, v) =~= p + (json_string(u) + (m + (json_string(v) + e))));
    prefix_cut(
        p,
        json_string(s) + (m + (json_string(t) + e)),
        json_string(u) + (m + (json_string(v) + e)),
    );
    a_json_string_is_never_the_beginning_of_another(
        s,
        m + (json_string(t) + e),
        u,
        m + (json_string(v) + e),
    );
    prefix_cut(m, json_string(t) + e, json_string(v) + e);
    a_json_string_is_never_the_beginning_of_another(t, e, v, e);
}

proof fn log_line_is_one_line(s: Seq<char>, t: Seq<char>)
    ensures
        one_line(log_line(s, t)),
        log_line(s, t).len() > 0,
        log_line(s, t).last() == '}',
{
    reveal_strlit("{\"stream\":");
    reveal_strlit(",\"text\":");
    reveal_strlit("}");
    a_json_string_is_one_line(s);
    a_json_string_is_one_line(t);
    assert(one_line("{\"stream\":"@));
    assert(one_line(",\"text\":"@));
    assert(one_line("}"@));
    one_line_concat("{\"stream\":"@, json_string(s));
    one_line_concat("{\"stream\":"@ + json_string(s), ",\"text\":"@);
    one_line_concat("{\"stream\":"@ + json_string(s) + ",\"text\":"@, json_string(t));
    one_line_concat("{\"stream\":"@ + json_string(s) + ",\"text\":"@ + json_string(t), "}"@);
}

proof fn one_piece(s: Seq<char>)
    requires
        one_line(s),
    ensures
        pieces(s, '\n') == seq![s],
    decreases s.len(),
{
    if s.len() == 0 {
        assert(s =~= Seq::<char>::empty());
        assert(pieces(s, '\n') =~= seq![s]);
    } else {
        let front = s.drop_last();
        assert(one_line(front)) by {
            if front.contains('\n') {
                let i = choose|i: int| 0 <= i < front.len() && front[i] == '\n';
                assert(s[i] == '\n');
            }
        }
        assert(s[s.len() - 1] != '\n');
        one_piece(front);
        assert(front.push(s.last()) =~= s);
        assert(pieces(s, '\n') =~= seq![s]);
    }
}

spec fn stored_lines(lines: Seq<OutputLine>) -> Seq<Seq<char>> {
    Seq::new(lines.len(), |i: int| log_line(stream_word(lines[i].stream), lines[i].text@))
}

proof fn log_pieces(lines: Seq<OutputLine>)
    ensures
        pieces(log_file(lines), '\n') == stored_lines(lines).push(Seq::empty()),
    decreases lines.len(),
{
    if lines.len() == 0 {
        assert(pieces(log_file(lines), '\n') =~= stored_lines(lines).push(Seq::empty()));
    } else {
        reveal_strlit("\n");
        let last = log_line(stream_word(lines.last().stream), lines.last().text@);
        let front = log_file(lines.drop_last());
        log_pieces(lines.drop_last());
        log_line_is_one_line(stream_word(lines.last().stream), lines.last().text@);
        one_piece(last);
        let all = front + last;
        assert(log_file(lines) =~= all.push('\n') + Seq::<char>::empty());
        pieces_of_both(all, Seq::empty(), '\n');
        if lines.len() == 1 {
            assert(front =~= Seq::<char>::empty());
            assert(all =~= last);
            assert(pieces(log_file(lines), '\n') =~= stored_lines(lines).push(Seq::empty()));
        } else {
            let shorter = front.drop_last();
            assert(front.last() == '\n');
            assert(front =~= shorter.push('\n') + Seq::<char>::empty());
            pieces_of_both(shorter, Seq::empty(), '\n');
            pieces_of_both(shorter, last, '\n');
            assert(all =~= shorter.push('\n') + last);
            let p = pieces(shorter, '\n');
            let none = seq![Seq::<char>::empty()];
            assert(pieces(Seq::<char>::empty(), '\n') =~= none);
            assert(p + none =~= stored_lines(lines.drop_last()).push(Seq::empty()));
            assert(p =~= (p + none).drop_last());
            assert(p =~= stored_lines(lines.drop_last()));
            assert(pieces(log_file(lines), '\n') =~= stored_lines(lines).push(Seq::empty()));
        }
    }
}

/// A log file has one line for each line of output, in order, whatever the
/// output holds.
pub proof fn a_log_has_a_line_for_each_line(lines: Seq<OutputLine>)
    ensures
        lines_of(log_file(lines)) == Seq::new(
            lines.len(),
            |i: int| log_line(stream_word(lines[i].stream), lines[i].text@),
        ),
{
    log_pieces(lines);
    let p = pieces(log_file(lines), '\n');
    let all = stored_lines(lines);
    assert forall|i: int| 0 <= i < all.len() implies without_return(p[i]) == all[i] by {
        log_line_is_one_line(stream_word(lines[i].stream), lines[i].text@);
        assert(p[i] == all[i]);
    }
    assert(lines_of(log_file(lines)) =~= all);
}

/// Output can be told from its log file: two that leave the same file are
/// the same, line by line and stream by stream.
pub proof fn output_is_told_by_its_log(a: Seq<OutputLine>, b: Seq<OutputLine>)
    requires
        log_file(a) == log_file(b),
    ensures
        output_views(a) == output_views(b),
{
    a_log_has_a_line_for_each_line(a);
    a_log_has_a_line_for_each_line(b);
    let x = lines_of(log_file(a));
    let y = lines_of(log_file(b));
    assert(a.len() == x.len() && b.len() == y.len());
    assert forall|i: int| 0 <= i < a.len() implies a[i].stream == b[i].stream && a[i].text@
        == b[i].text@ by {
        assert(x[i] == y[i]);
        log_lines_differ(
            stream_word(a[i].stream),
            a[i].text@,
            stream_word(b[i].stream),
            b[i].text@,
        );
        a_stored_line_keeps_its_stream(a[i].stream);
        a_stored_line_keeps_its_stream(b[i].stream);
    }
    assert(output_views(a) =~= output_views(b));
}

proof fn decimal_digits(n: nat)
    ensures
        decimal(n).len() >= 1,
        forall|i: int| 0 <= i < decimal(n).len() ==> '0' <= #[trigger] decimal(n)[i] <= '9',
    decreases n,
{
    if n >= 10 {
        decimal_digits(n / 10);
    }
}

/// A number ends where something else than a digit comes.
proof fn number_ends(a: nat, x: Seq<char>, b: nat, y: Seq<char>)
    requires
        decimal(a) + x == decimal(b) + y,
        x.len() > 0,
        y.len() > 0,
        !('0' <= x[0] <= '9'),
        !('0' <= y[0] <= '9'),
    ensures
        a == b,
        x == y,
{
    decimal_digits(a);
    decimal_digits(b);
    let s = decimal(a) + x;
    let t = decimal(b) + y;
    let m = decimal(a).len() as int;
    let n = decimal(b).len() as int;
    assert(s[m] == x[0] && t[n] == y[0]);
    if m < n {
        assert(t[m] == decimal(b)[m]);
    }
    if n < m {
        assert(s[n] == decimal(a)[n]);
    }
    assert(decimal(a) =~= s.take(m));
    assert(decimal(b) =~= t.take(n));
    decimal_tells_numbers_apart(a, b);
    assert(x =~= s.skip(m));
    assert(y =~= t.skip(n));
}

/// What follows an item of an indented array: the other items and its end.
spec fn rest_of_array(texts: Seq<Seq<char>>, end: Seq<char>) -> Seq<char>
    decreases texts.len(),
{
    if texts.len() == 0 {
        end
    } else {
        ",\n    "@ + (json_string(texts[0]) + rest_of_array(texts.drop_first(), end))
    }
}

proof fn joined_from_front(texts: Seq<Seq<char>>, end: Seq<char>)
    requires
        texts.len() > 0,
    ensures
        joined(json_strings(texts), ",\n    "@) + end == json_string(texts[0]) + rest_of_array(
            texts.drop_first(),
            end,
        ),
    decreases texts.len(),
{
    let sep = ",\n    "@;
    let all = json_strings(texts);
    if texts.len() == 1 {
        assert(texts.drop_first() =~= Seq::<Seq<char>>::empty());
        assert(rest_of_array(texts.drop_first(), end) == end);
    } else {
        let front = texts.drop_last();
        let tail = sep + (json_string(texts.last()) + end);
        joined_from_front(front, tail);
        assert(all.drop_last() =~= json_strings(front));
        assert(joined(all, sep) + end =~= joined(json_strings(front), sep) + tail);
        rest_grows(front.drop_first(), texts.last(), end);
        assert(front.drop_first().push(texts.last()) =~= texts.drop_first());
    }
}

proof fn rest_grows(texts: Seq<Seq<char>>, last: Seq<char>, end: Seq<char>)
    ensures
        rest_of_array(texts, ",\n    "@ + (json_string(last) + end)) == rest_of_array(
            texts.push(last),
            end,
        ),
    decreases texts.len(),
{
    if texts.len() == 0 {
        assert(texts.push(last).drop_first() =~= Seq::<Seq<char>>::empty());
        assert(rest_of_array(texts.push(last).drop_first(), end) == end);
    } else {
        rest_grows(texts.drop_first(), last, end);
        assert(texts.push(last).drop_first() =~= texts.drop_first().push(last));
    }
}

proof fn rest_ends(a: Seq<Seq<char>>, x: Seq<char>, b: Seq<Seq<char>>, y: Seq<char>)
    requires
        rest_of_array(a, x) == rest_of_array(b, y),
        x.len() > 0,
        y.len() > 0,
        x[0] == '\n',
        y[0] == '\n',
    ensures
        a == b,
        x == y,
    decreases a.len(),
{
    reveal_strlit(",\n    ");
    let sep = ",\n    "@;
    assert(sep[0] == ',');
    let s = rest_of_array(a, x);
    let t = rest_of_array(b, y);
    if a.len() > 0 {
        assert(s[0] == ',');
    }
    if b.len() > 0 {
        assert(t[0] == ',');
    }
    if a.len() == 0 || b.len() == 0 {
        assert(a.len() == 0 && b.len() == 0);
        assert(a =~= b);
    } else {
        let u = rest_of_array(a.drop_first(), x);
        let v = rest_of_array(b.drop_first(), y);
        prefix_cut(sep, json_string(a[0]) + u, json_string(b[0]) + v);
        a_json_string_is_never_the_beginning_of_another(a[0], u, b[0], v);
        rest_ends(a.drop_first(), x, b.drop_first(), y);
        assert(a =~= seq![a[0]] + a.drop_first());
        assert(b =~= seq![b[0]] + b.drop_first());
    }
}

/// A list of texts ends where it ends.
proof fn array_ends(a: Seq<Seq<char>>, x: Seq<char>, b: Seq<Seq<char>>, y: Seq<char>)
    requires
        indented_array(a) + x == indented_array(b) + y,
    ensures
        a == b,
        x == y,
{
    reveal_strlit("[]");
    reveal_strlit("[\n    ");
    reveal_strlit("\n  ]");
    let open = "[\n    "@;
    let close = "\n  ]"@;
    let s = indented_array(a) + x;
    let t = indented_array(b) + y;
    assert("[]"@[1] == ']' && open[1] == '\n' && close[0] == '\n');
    assert(s[1] == indented_array(a)[1] && t[1] == indented_array(b)[1]);
    if a.len() == 0 {
        assert(b.len() == 0);
        assert(a =~= b);
        prefix_cut("[]"@, x, y);
    } else {
        assert(b.len() > 0);
        let p = joined(json_strings(a), ",\n    "@);
        let q = joined(json_strings(b), ",\n    "@);
        assert(s =~= open + (p + (close + x)));
        assert(t =~= open + (q + (close + y)));
        prefix_cut(open, p + (close + x), q + (close + y));
        joined_from_front(a, close + x);
        joined_from_front(b, close + y);
        let u = rest_of_array(a.drop_first(), close + x);
        let v = rest_of_array(b.drop_first(), close + y);
        a_json_string_is_never_the_beginning_of_another(a[0], u, b[0], v);
        assert((close + x)[0] == '\n' && (close + y)[0] == '\n');
        rest_ends(a.drop_first(), close + x, b.drop_first(), close + y);
        prefix_cut(close, x, y);
        assert(a =~= seq![a[0]] + a.drop_first());
        assert(b =~= seq![b[0]] + b.drop_first());
    }
}

proof fn regroup(a: Seq<char>, b: Seq<char>, c: Seq<char>)
    ensures
        a + b + c == a + (b + c),
{
    assert(a + b + c =~= a + (b + c));
}

/// Nine texts put one after the other, from the front.
proof fn from_front(
    p0: Seq<char>,
    d0: Seq<char>,
    p1: Seq<char>,
    d1: Seq<char>,
    p2: Seq<char>,
    d2: Seq<char>,
    p3: Seq<char>,
    d3: Seq<char>,
    p4: Seq<char>,
)
    ensures
        p0 + d0 + p1 + d1 + p2 + d2 + p3 + d3 + p4 == p0 + (d0 + (p1 + (d1 + (p2 + (d2 + (p3 + (d3
            + p4))))))),
{
    regroup(p0 + d0 + p1 + d1 + p2 + d2 + p3, d3, p4);
    regroup(p0 + d0 + p1 + d1 + p2 + d2, p3, d3 + p4);
    regroup(p0 + d0 + p1 + d1 + p2, d2, p3 + (d3 + p4));
    regroup(p0 + d0 + p1 + d1, p2, d2 + (p3 + (d3 + p4)));
    regroup(p0 + d0 + p1, d1, p2 + (d2 + (p3 + (d3 + p4))));
    regroup(p0 + d0, p1, d1 + (p2 + (d2 + (p3 + (d3 + p4)))));
    regroup(p0, d0, p1 + (d1 + (p2 + (d2 + (p3 + (d3 + p4))))));
}

/// The same prefix before a number that something else than a digit follows.
proof fn numbers_cut(
    p: Seq<char>,
    a: nat,
    x: Seq<char>,
    b: nat,
    y: Seq<char>,
)
    requires
        p + (decimal(a) + x) == p + (decimal(b) + y),
        x.len() > 0,
        y.len() > 0,
        !('0' <= x[0] <= '9'),
        !('0' <= y[0] <= '9'),
    ensures
        a == b,
        x == y,
{
    prefix_cut(p, decimal(a) + x, decimal(b) + y);
    number_ends(a, x, b, y);
}

proof fn strings_cut(p: Seq<char>, a: Seq<char>, x: Seq<char>, b: Seq<char>, y: Seq<char>)
    requires
        p + (json_string(a) + x) == p + (json_string(b) + y),
    ensures
        a == b,
        x == y,
{
    prefix_cut(p, json_string(a) + x, json_string(b) + y);
    a_json_string_is_never_the_beginning_of_another(a, x, b, y);
}

proof fn arrays_cut(
    p: Seq<char>,
    a: Seq<Seq<char>>,
    x: Seq<char>,
    b: Seq<Seq<char>>,
    y: Seq<char>,
)
    requires
        p + (indented_array(a) + x) == p + (indented_array(b) + y),
    ensures
        a == b,
        x == y,
{
    prefix_cut(p, indented_array(a) + x, indented_array(b) + y);
    array_ends(a, x, b, y);
}

proof fn begins_with_comma(x: Seq<char>)
    ensures
        (",\n  \"fingerprint\": "@ + x).len() > 0,
        (",\n  \"fingerprint\": "@ + x)[0] == ',',
{
    reveal_strlit(",\n  \"fingerprint\": ");
}

proof fn ends_with_line_feed()
    ensures
        "\n}"@.len() > 0,
        "\n}"@[0] == '\n',
{
    reveal_strlit("\n}");
}

/// A manifest can be told from its file: two that leave the same file are
/// the same in every field.
pub proof fn a_manifest_is_told_by_its_file(a: Manifest, b: Manifest)
    requires
        manifest_file(a) == manifest_file(b),
    ensures
        a.version == b.version,
        a.fingerprint@ == b.fingerprint@,
        views(a.outputs@) == views(b.outputs@),
        a.duration_ms == b.duration_ms,
{
    let p0 = "{\n  \"version\": "@;
    let p1 = ",\n  \"fingerprint\": "@;
    let p2 = ",\n  \"outputs\": "@;
    let p3 = ",\n  \"duration_ms\": "@;
    let p4 = "\n}"@;
    let (av, af, ao, ad) = (
        a.version as nat,
        a.fingerprint@,
        views(a.outputs@),
        a.duration_ms as nat,
    );
    let (bv, bf, bo, bd) = (
        b.version as nat,
        b.fingerprint@,
        views(b.outputs@),
        b.duration_ms as nat,
    );
    from_front(p0, decimal(av), p1, json_string(af), p2, indented_array(ao), p3, decimal(ad), p4);
    from_front(p0, decimal(bv), p1, json_string(bf), p2, indented_array(bo), p3, decimal(bd), p4);
    let a3 = p3 + (decimal(ad) + p4);
    let b3 = p3 + (decimal(bd) + p4);
    let a2 = p2 + (indented_array(ao) + a3);
    let b2 = p2 + (indented_array(bo) + b3);
    let a1 = p1 + (json_string(af) + a2);
    let b1 = p1 + (json_string(bf) + b2);
    begins_with_comma(json_string(af) + a2);
    begins_with_comma(json_string(bf) + b2);
    ends_with_line_feed();
    numbers_cut(p0, av, a1, bv, b1);
    strings_cut(p1, af, a2, bf, b2);
    arrays_cut(p2, ao, a3, bo, b3);
    numbers_cut(p3, ad, p4, bd, p4);
}

} // verus!
