//! An event can be told from its line of JSON: every field is in it.

use vstd::prelude::*;
use crate::event::{BeamStatus, OutputLine, RunEvent, RunSummary};
use crate::graph::id_views;
use crate::json::{
    bool_word, code_word, edge_views, json_array, json_edges, json_line, json_pairs, json_string,
    json_strings, status_code, status_word, stream_word, summary_line,
};
use crate::model::BeamId;
use crate::numbers::is_digit;
use crate::store::{a_stored_line_keeps_its_stream, decimal_tells_numbers_apart};
use crate::store_laws::{a_json_string_is_never_the_beginning_of_another, prefix_cut};
use crate::text::{decimal, joined, signed_decimal, views};
use crate::text_laws::{a_number_reads_as_itself, joining_goes_part_by_part};

verus! {

proof fn regroup3(
    a: Seq<char>,
    b: Seq<char>,
    c: Seq<char>,
)
    ensures
        a + b + c == a + (b + (c)),
{
    assert(a + b + c =~= a + (b + c));
}

proof fn regroup4(
    a: Seq<char>,
    b: Seq<char>,
    c: Seq<char>,
    d: Seq<char>,
)
    ensures
        a + b + c + d == a + (b + (c + (d))),
{
    let front = a + b;
    regroup3(front, c, d);
    regroup3(a, b, c + d);
}

proof fn regroup5(
    a: Seq<char>,
    b: Seq<char>,
    c: Seq<char>,
    d: Seq<char>,
    e: Seq<char>,
)
    ensures
        a + b + c + d + e == a + (b + (c + (d + (e)))),
{
    let front = a + b + c;
    regroup3(front, d, e);
    regroup4(a, b, c, d + e);
}

proof fn regroup6(
    a: Seq<char>,
    b: Seq<char>,
    c: Seq<char>,
    d: Seq<char>,
    e: Seq<char>,
    f: Seq<char>,
)
    ensures
        a + b + c + d + e + f == a + (b + (c + (d + (e + (f))))),
{
    let front = a + b + c + d;
    regroup3(front, e, f);
    regroup5(a, b, c, d, e + f);
}

proof fn regroup7(
    a: Seq<char>,
    b: Seq<char>,
    c: Seq<char>,
    d: Seq<char>,
    e: Seq<char>,
    f: Seq<char>,
    g: Seq<char>,
)
    ensures
        a + b + c + d + e + f + g == a + (b + (c + (d + (e + (f + (g)))))),
{
    let front = a + b + c + d + e;
    regroup3(front, f, g);
    regroup6(a, b, c, d, e, f + g);
}

proof fn regroup8(
    a: Seq<char>,
    b: Seq<char>,
    c: Seq<char>,
    d: Seq<char>,
    e: Seq<char>,
    f: Seq<char>,
    g: Seq<char>,
    h: Seq<char>,
)
    ensures
        a + b + c + d + e + f + g + h == a + (b + (c + (d + (e + (f + (g + (h))))))),
{
    let front = a + b + c + d + e + f;
    regroup3(front, g, h);
    regroup7(a, b, c, d, e, f, g + h);
}

proof fn regroup9(
    a: Seq<char>,
    b: Seq<char>,
    c: Seq<char>,
    d: Seq<char>,
    e: Seq<char>,
    f: Seq<char>,
    g: Seq<char>,
    h: Seq<char>,
    i: Seq<char>,
)
    ensures
        a + b + c + d + e + f + g + h + i == a + (b + (c + (d + (e + (f + (g + (h + (i)))))))),
{
    let front = a + b + c + d + e + f + g;
    regroup3(front, h, i);
    regroup8(a, b, c, d, e, f, g, h + i);
}

/// What follows the bracket that opens an array.
spec fn body(texts: Seq<Seq<char>>) -> Seq<char> {
    joined(json_strings(texts), ","@) + "]"@
}

proof fn body_from_front(texts: Seq<Seq<char>>)
    requires
        texts.len() > 0,
    ensures
        body(texts) == json_string(texts[0]) + (if texts.len() == 1 {
            "]"@
        } else {
            ","@ + body(texts.drop_first())
        }),
        body(texts)[0] == '"',
{
    let all = json_strings(texts);
    let one = seq![all[0]];
    let rest = json_strings(texts.drop_first());
    assert(all =~= one + rest);
    joining_goes_part_by_part(one, rest, all[0], ","@);
    if texts.len() == 1 {
        assert(rest =~= Seq::<Seq<char>>::empty());
        assert(all =~= one);
    } else {
        assert(body(texts) =~= json_string(texts[0]) + (","@ + body(texts.drop_first())));
    }
}

proof fn body_ends(a: Seq<Seq<char>>, x: Seq<char>, b: Seq<Seq<char>>, y: Seq<char>)
    requires
        body(a) + x == body(b) + y,
    ensures
        a == b,
        x == y,
    decreases a.len(),
{
    reveal_strlit("]");
    reveal_strlit(",");
    let s = body(a) + x;
    let t = body(b) + y;
    let none = Seq::<Seq<char>>::empty();
    joining_goes_part_by_part(none, none, x, ","@);
    if a.len() == 0 {
        assert(json_strings(a) =~= none);
        assert(body(a) =~= "]"@);
        assert(s[0] == ']');
    }
    if b.len() == 0 {
        assert(json_strings(b) =~= none);
        assert(body(b) =~= "]"@);
        assert(t[0] == ']');
    }
    if a.len() > 0 {
        body_from_front(a);
        assert(s[0] == body(a)[0]);
    }
    if b.len() > 0 {
        body_from_front(b);
        assert(t[0] == body(b)[0]);
    }
    if a.len() == 0 && b.len() == 0 {
        prefix_cut("]"@, x, y);
        assert(a =~= b);
    } else {
        let ra = if a.len() == 1 {
            "]"@
        } else {
            ","@ + body(a.drop_first())
        };
        let rb = if b.len() == 1 {
            "]"@
        } else {
            ","@ + body(b.drop_first())
        };
        assert(s =~= json_string(a[0]) + (ra + x));
        assert(t =~= json_string(b[0]) + (rb + y));
        a_json_string_is_never_the_beginning_of_another(a[0], ra + x, b[0], rb + y);
        assert((ra + x)[0] == ra[0] && (rb + y)[0] == rb[0]);
        if a.len() == 1 {
            assert(b.len() == 1);
            prefix_cut("]"@, x, y);
        } else {
            assert(b.len() > 1);
            let pa = body(a.drop_first());
            let pb = body(b.drop_first());
            assert(ra + x =~= ","@ + (pa + x));
            assert(rb + y =~= ","@ + (pb + y));
            prefix_cut(","@, pa + x, pb + y);
            body_ends(a.drop_first(), x, b.drop_first(), y);
        }
        assert(a =~= seq![a[0]] + a.drop_first());
        assert(b =~= seq![b[0]] + b.drop_first());
        if a.len() == 1 {
            assert(a.drop_first() =~= b.drop_first());
        }
    }
}

/// An array of texts is never the beginning of another.
pub(crate) proof fn array_ends(a: Seq<Seq<char>>, x: Seq<char>, b: Seq<Seq<char>>, y: Seq<char>)
    requires
        json_array(a) + x == json_array(b) + y,
    ensures
        a == b,
        x == y,
{
    assert(json_array(a) + x =~= "["@ + (body(a) + x));
    assert(json_array(b) + y =~= "["@ + (body(b) + y));
    prefix_cut("["@, body(a) + x, body(b) + y);
    body_ends(a, x, b, y);
}

spec fn pair_text(p: (Seq<char>, Seq<char>)) -> Seq<char> {
    "["@ + json_string(p.0) + ","@ + json_string(p.1) + "]"@
}

proof fn pair_ends(
    p: (Seq<char>, Seq<char>),
    x: Seq<char>,
    q: (Seq<char>, Seq<char>),
    y: Seq<char>,
)
    requires
        pair_text(p) + x == pair_text(q) + y,
    ensures
        p == q,
        x == y,
{
    let tail = |r: (Seq<char>, Seq<char>), z: Seq<char>| ","@ + (json_string(r.1) + ("]"@ + z));
    assert(pair_text(p) + x =~= "["@ + (json_string(p.0) + tail(p, x)));
    assert(pair_text(q) + y =~= "["@ + (json_string(q.0) + tail(q, y)));
    prefix_cut("["@, json_string(p.0) + tail(p, x), json_string(q.0) + tail(q, y));
    a_json_string_is_never_the_beginning_of_another(p.0, tail(p, x), q.0, tail(q, y));
    prefix_cut(","@, json_string(p.1) + ("]"@ + x), json_string(q.1) + ("]"@ + y));
    a_json_string_is_never_the_beginning_of_another(p.1, "]"@ + x, q.1, "]"@ + y);
    prefix_cut("]"@, x, y);
}

spec fn pairs_body(pairs: Seq<(Seq<char>, Seq<char>)>) -> Seq<char> {
    joined(json_pairs(pairs), ","@) + "]"@
}

proof fn pairs_from_front(pairs: Seq<(Seq<char>, Seq<char>)>)
    requires
        pairs.len() > 0,
    ensures
        pairs_body(pairs) == pair_text(pairs[0]) + (if pairs.len() == 1 {
            "]"@
        } else {
            ","@ + pairs_body(pairs.drop_first())
        }),
        pairs_body(pairs)[0] == '[',
{
    reveal_strlit("[");
    let all = json_pairs(pairs);
    let one = seq![all[0]];
    let rest = json_pairs(pairs.drop_first());
    assert(all =~= one + rest);
    joining_goes_part_by_part(one, rest, all[0], ","@);
    if pairs.len() == 1 {
        assert(rest =~= Seq::<Seq<char>>::empty());
        assert(all =~= one);
    } else {
        assert(pairs_body(pairs) =~= pair_text(pairs[0]) + (","@ + pairs_body(
            pairs.drop_first(),
        )));
    }
}

proof fn pairs_body_ends(
    a: Seq<(Seq<char>, Seq<char>)>,
    x: Seq<char>,
    b: Seq<(Seq<char>, Seq<char>)>,
    y: Seq<char>,
)
    requires
        pairs_body(a) + x == pairs_body(b) + y,
    ensures
        a == b,
        x == y,
    decreases a.len(),
{
    reveal_strlit("]");
    reveal_strlit("[");
    reveal_strlit(",");
    let s = pairs_body(a) + x;
    let t = pairs_body(b) + y;
    let none = Seq::<Seq<char>>::empty();
    joining_goes_part_by_part(none, none, x, ","@);
    if a.len() == 0 {
        assert(json_pairs(a) =~= none);
        assert(pairs_body(a) =~= "]"@);
        assert(s[0] == ']');
    }
    if b.len() == 0 {
        assert(json_pairs(b) =~= none);
        assert(pairs_body(b) =~= "]"@);
        assert(t[0] == ']');
    }
    if a.len() > 0 {
        pairs_from_front(a);
        assert(s[0] == pairs_body(a)[0]);
    }
    if b.len() > 0 {
        pairs_from_front(b);
        assert(t[0] == pairs_body(b)[0]);
    }
    if a.len() == 0 && b.len() == 0 {
        prefix_cut("]"@, x, y);
        assert(a =~= b);
    } else {
        let ra = if a.len() == 1 {
            "]"@
        } else {
            ","@ + pairs_body(a.drop_first())
        };
        let rb = if b.len() == 1 {
            "]"@
        } else {
            ","@ + pairs_body(b.drop_first())
        };
        assert(s =~= pair_text(a[0]) + (ra + x));
        assert(t =~= pair_text(b[0]) + (rb + y));
        pair_ends(a[0], ra + x, b[0], rb + y);
        assert((ra + x)[0] == ra[0] && (rb + y)[0] == rb[0]);
        if a.len() == 1 {
            assert(b.len() == 1);
            prefix_cut("]"@, x, y);
        } else {
            assert(b.len() > 1);
            let pa = pairs_body(a.drop_first());
            let pb = pairs_body(b.drop_first());
            assert(ra + x =~= ","@ + (pa + x));
            assert(rb + y =~= ","@ + (pb + y));
            prefix_cut(","@, pa + x, pb + y);
            pairs_body_ends(a.drop_first(), x, b.drop_first(), y);
        }
        assert(a =~= seq![a[0]] + a.drop_first());
        assert(b =~= seq![b[0]] + b.drop_first());
        if a.len() == 1 {
            assert(a.drop_first() =~= b.drop_first());
        }
    }
}

proof fn edges_end(
    a: Seq<(Seq<char>, Seq<char>)>,
    x: Seq<char>,
    b: Seq<(Seq<char>, Seq<char>)>,
    y: Seq<char>,
)
    requires
        json_edges(a) + x == json_edges(b) + y,
    ensures
        a == b,
        x == y,
{
    assert(json_edges(a) + x =~= "["@ + (pairs_body(a) + x));
    assert(json_edges(b) + y =~= "["@ + (pairs_body(b) + y));
    prefix_cut("["@, pairs_body(a) + x, pairs_body(b) + y);
    pairs_body_ends(a, x, b, y);
}

/// A text without commas ends at the first one.
proof fn comma_ends(a: Seq<char>, x: Seq<char>, b: Seq<char>, y: Seq<char>)
    requires
        !a.contains(','),
        !b.contains(','),
        x.len() > 0 && x[0] == ',',
        y.len() > 0 && y[0] == ',',
        a + x == b + y,
    ensures
        a == b,
        x == y,
{
    let s = a + x;
    let t = b + y;
    assert(s[a.len() as int] == ',');
    assert(t[b.len() as int] == ',');
    if a.len() < b.len() {
        assert(b[a.len() as int] == t[a.len() as int]);
        assert(b.contains(','));
    }
    if b.len() < a.len() {
        assert(a[b.len() as int] == s[b.len() as int]);
        assert(a.contains(','));
    }
    assert(s.take(a.len() as int) =~= a);
    assert(t.take(b.len() as int) =~= b);
    assert(s.skip(a.len() as int) =~= x);
    assert(t.skip(b.len() as int) =~= y);
}

proof fn numbers_have_no_comma(n: nat)
    ensures
        !decimal(n).contains(','),
{
    a_number_reads_as_itself(n);
    if decimal(n).contains(',') {
        let i = choose|i: int| 0 <= i < decimal(n).len() && decimal(n)[i] == ',';
        assert(is_digit(decimal(n)[i]));
    }
}

proof fn codes_have_no_comma(code: Option<i32>)
    ensures
        !code_word(code).contains(','),
{
    reveal_strlit("null");
    reveal_strlit("-");
    let w = code_word(code);
    if w.contains(',') {
        let i = choose|i: int| 0 <= i < w.len() && w[i] == ',';
        match code {
            Some(c) => {
                if c < 0 {
                    let m = (-(c as int)) as nat;
                    numbers_have_no_comma(m);
                    assert(w == "-"@ + decimal(m));
                    if i > 0 {
                        assert(decimal(m)[i - 1] == ',');
                    }
                } else {
                    numbers_have_no_comma(c as nat);
                }
            },
            None => {
                assert(i == 0 || i == 1 || i == 2 || i == 3);
            },
        }
    }
}

proof fn codes_differ(a: Option<i32>, b: Option<i32>)
    requires
        code_word(a) == code_word(b),
    ensures
        a == b,
{
    reveal_strlit("null");
    reveal_strlit("-");
    code_begins(a);
    code_begins(b);
    if let (Some(c), Some(d)) = (a, b) {
        if c < 0 && d < 0 {
            let m = (-(c as int)) as nat;
            let n = (-(d as int)) as nat;
            prefix_cut("-"@, decimal(m), decimal(n));
            decimal_tells_numbers_apart(m, n);
        } else if c >= 0 && d >= 0 {
            decimal_tells_numbers_apart(c as nat, d as nat);
        }
    }
}

proof fn code_begins(a: Option<i32>)
    ensures
        code_word(a).len() > 0,
        a is None ==> code_word(a)[0] == 'n',
        a matches Some(c) ==> (if c < 0 {
            code_word(a)[0] == '-'
        } else {
            is_digit(code_word(a)[0])
        }),
{
    reveal_strlit("null");
    reveal_strlit("-");
    if let Some(c) = a {
        if c < 0 {
            a_number_reads_as_itself((-(c as int)) as nat);
        } else {
            a_number_reads_as_itself(c as nat);
        }
    }
}

proof fn statuses_differ(a: BeamStatus, b: BeamStatus)
    requires
        status_word(a) == status_word(b),
        status_code(a) == status_code(b),
    ensures
        a == b,
{
    reveal_strlit("succeeded");
    reveal_strlit("cached");
    reveal_strlit("failed");
    reveal_strlit("failed_allowed");
    reveal_strlit("cancelled");
    assert("succeeded"@.len() == 9 && "cached"@.len() == 6 && "failed"@.len() == 6
        && "failed_allowed"@.len() == 14 && "cancelled"@.len() == 9);
    assert("succeeded"@[0] == 's' && "cancelled"@[0] == 'c');
    assert("cached"@[0] == 'c' && "failed"@[0] == 'f');
}

/// Two ends of beams with one line are one end: of one beam, with one status
/// and exit code, after one time.
pub proof fn an_end_is_told_by_its_line(
    id: BeamId,
    status: BeamStatus,
    duration_ms: u64,
    r: String,
    other: BeamId,
    other_status: BeamStatus,
    other_ms: u64,
    s: String,
)
    requires
        call_ensures(json_line, (&RunEvent::BeamFinished { id, status, duration_ms },), r),
        call_ensures(
            json_line,
            (
                &RunEvent::BeamFinished {
                    id: other,
                    status: other_status,
                    duration_ms: other_ms,
                },
            ),
            s,
        ),
        r@ == s@,
    ensures
        id@ == other@,
        status == other_status,
        duration_ms == other_ms,
{
    reveal_strlit(",\"duration_ms\":");
    let p = "{\"event\":\"beam_finished\",\"beam\":"@;
    let q = ",\"status\":"@;
    let c = ",\"exit_code\":"@;
    let d = ",\"duration_ms\":"@;
    let tail_a = d + (decimal(duration_ms as nat) + "}"@);
    let tail_b = d + (decimal(other_ms as nat) + "}"@);
    let (wa, wb) = (code_word(status_code(status)), code_word(status_code(other_status)));
    let code_a = c + (wa + tail_a);
    let code_b = c + (wb + tail_b);
    let stat_a = q + (json_string(status_word(status)) + code_a);
    let stat_b = q + (json_string(status_word(other_status)) + code_b);
    regroup9(
        p,
        json_string(id@),
        q,
        json_string(status_word(status)),
        c,
        wa,
        d,
        decimal(duration_ms as nat),
        "}"@,
    );
    regroup9(
        p,
        json_string(other@),
        q,
        json_string(status_word(other_status)),
        c,
        wb,
        d,
        decimal(other_ms as nat),
        "}"@,
    );
    assert(r@ == p + (json_string(id@) + stat_a));
    assert(s@ == p + (json_string(other@) + stat_b));
    prefix_cut(p, json_string(id@) + stat_a, json_string(other@) + stat_b);
    a_json_string_is_never_the_beginning_of_another(id@, stat_a, other@, stat_b);
    prefix_cut(
        q,
        json_string(status_word(status)) + code_a,
        json_string(status_word(other_status)) + code_b,
    );
    a_json_string_is_never_the_beginning_of_another(
        status_word(status),
        code_a,
        status_word(other_status),
        code_b,
    );
    prefix_cut(c, wa + tail_a, wb + tail_b);
    codes_have_no_comma(status_code(status));
    codes_have_no_comma(status_code(other_status));
    comma_ends(wa, tail_a, wb, tail_b);
    codes_differ(status_code(status), status_code(other_status));
    statuses_differ(status, other_status);
    let (na, nb) = (decimal(duration_ms as nat), decimal(other_ms as nat));
    prefix_cut(d, na + "}"@, nb + "}"@);
    reveal_strlit("}");
    assert((na + "}"@).drop_last() =~= na);
    assert((nb + "}"@).drop_last() =~= nb);
    decimal_tells_numbers_apart(duration_ms as nat, other_ms as nat);
}

/// Two lines of output with one line of JSON are one line: of one beam, on
/// one stream, with one text, and replayed or not.
pub proof fn output_is_told_by_its_line(
    id: BeamId,
    line: OutputLine,
    replayed: bool,
    r: String,
    other: BeamId,
    other_line: OutputLine,
    other_replayed: bool,
    s: String,
)
    requires
        call_ensures(json_line, (&RunEvent::BeamOutput { id, line, replayed },), r),
        call_ensures(
            json_line,
            (
                &RunEvent::BeamOutput {
                    id: other,
                    line: other_line,
                    replayed: other_replayed,
                },
            ),
            s,
        ),
        r@ == s@,
    ensures
        id@ == other@,
        line.stream == other_line.stream,
        line.text@ == other_line.text@,
        replayed == other_replayed,
{
    let p = "{\"event\":\"beam_output\",\"beam\":"@;
    let q = ",\"stream\":"@;
    let c = ",\"text\":"@;
    let d = ",\"replayed\":"@;
    let tail_a = d + (bool_word(replayed) + "}"@);
    let tail_b = d + (bool_word(other_replayed) + "}"@);
    let text_a = c + (json_string(line.text@) + tail_a);
    let text_b = c + (json_string(other_line.text@) + tail_b);
    let stream_a = q + (json_string(stream_word(line.stream)) + text_a);
    let stream_b = q + (json_string(stream_word(other_line.stream)) + text_b);
    regroup9(
        p,
        json_string(id@),
        q,
        json_string(stream_word(line.stream)),
        c,
        json_string(line.text@),
        d,
        bool_word(replayed),
        "}"@,
    );
    regroup9(
        p,
        json_string(other@),
        q,
        json_string(stream_word(other_line.stream)),
        c,
        json_string(other_line.text@),
        d,
        bool_word(other_replayed),
        "}"@,
    );
    assert(r@ == p + (json_string(id@) + stream_a));
    assert(s@ == p + (json_string(other@) + stream_b));
    prefix_cut(p, json_string(id@) + stream_a, json_string(other@) + stream_b);
    a_json_string_is_never_the_beginning_of_another(id@, stream_a, other@, stream_b);
    prefix_cut(
        q,
        json_string(stream_word(line.stream)) + text_a,
        json_string(stream_word(other_line.stream)) + text_b,
    );
    a_json_string_is_never_the_beginning_of_another(
        stream_word(line.stream),
        text_a,
        stream_word(other_line.stream),
        text_b,
    );
    a_stored_line_keeps_its_stream(line.stream);
    a_stored_line_keeps_its_stream(other_line.stream);
    prefix_cut(c, json_string(line.text@) + tail_a, json_string(other_line.text@) + tail_b);
    a_json_string_is_never_the_beginning_of_another(
        line.text@,
        tail_a,
        other_line.text@,
        tail_b,
    );
    prefix_cut(d, bool_word(replayed) + "}"@, bool_word(other_replayed) + "}"@);
    reveal_strlit("true");
    reveal_strlit("false");
    assert((bool_word(replayed) + "}"@)[0] == bool_word(replayed)[0]);
    assert((bool_word(other_replayed) + "}"@)[0] == bool_word(other_replayed)[0]);
}

/// Two runs with one line are one: of one target, with one list of beams and
/// one list of what they need.
pub proof fn a_run_is_told_by_its_line(
    target: BeamId,
    beams: Vec<BeamId>,
    edges: Vec<(BeamId, BeamId)>,
    r: String,
    other: BeamId,
    other_beams: Vec<BeamId>,
    other_edges: Vec<(BeamId, BeamId)>,
    s: String,
)
    requires
        call_ensures(json_line, (&RunEvent::RunStarted { target, beams, edges },), r),
        call_ensures(
            json_line,
            (
                &RunEvent::RunStarted {
                    target: other,
                    beams: other_beams,
                    edges: other_edges,
                },
            ),
            s,
        ),
        r@ == s@,
    ensures
        target@ == other@,
        id_views(beams@) == id_views(other_beams@),
        edge_views(edges@) == edge_views(other_edges@),
{
    let p = "{\"event\":\"run_started\",\"target\":"@;
    let q = ",\"beams\":"@;
    let c = ",\"edges\":"@;
    let e = "}"@;
    let (ba, bb) = (id_views(beams@), id_views(other_beams@));
    let (ea, eb) = (edge_views(edges@), edge_views(other_edges@));
    let tail_a = c + (json_edges(ea) + e);
    let tail_b = c + (json_edges(eb) + e);
    let mid_a = q + (json_array(ba) + tail_a);
    let mid_b = q + (json_array(bb) + tail_b);
    regroup7(p, json_string(target@), q, json_array(ba), c, json_edges(ea), e);
    regroup7(p, json_string(other@), q, json_array(bb), c, json_edges(eb), e);
    assert(r@ == p + (json_string(target@) + mid_a));
    assert(s@ == p + (json_string(other@) + mid_b));
    prefix_cut(p, json_string(target@) + mid_a, json_string(other@) + mid_b);
    a_json_string_is_never_the_beginning_of_another(target@, mid_a, other@, mid_b);
    prefix_cut(q, json_array(ba) + tail_a, json_array(bb) + tail_b);
    array_ends(ba, tail_a, bb, tail_b);
    prefix_cut(c, json_edges(ea) + e, json_edges(eb) + e);
    edges_end(ea, e, eb, e);
}

/// Two runs of what a reference affects with one line are one.
pub proof fn an_affected_run_is_told_by_its_line(
    reference: String,
    targets: Vec<BeamId>,
    beams: Vec<BeamId>,
    edges: Vec<(BeamId, BeamId)>,
    r: String,
    other: String,
    other_targets: Vec<BeamId>,
    other_beams: Vec<BeamId>,
    other_edges: Vec<(BeamId, BeamId)>,
    s: String,
)
    requires
        call_ensures(
            json_line,
            (&RunEvent::AffectedStarted { reference, targets, beams, edges },),
            r,
        ),
        call_ensures(
            json_line,
            (
                &RunEvent::AffectedStarted {
                    reference: other,
                    targets: other_targets,
                    beams: other_beams,
                    edges: other_edges,
                },
            ),
            s,
        ),
        r@ == s@,
    ensures
        reference@ == other@,
        id_views(targets@) == id_views(other_targets@),
        id_views(beams@) == id_views(other_beams@),
        edge_views(edges@) == edge_views(other_edges@),
{
    let p = "{\"event\":\"run_started\",\"affected_by\":"@;
    let t = ",\"targets\":"@;
    let q = ",\"beams\":"@;
    let c = ",\"edges\":"@;
    let e = "}"@;
    let (ta, tb) = (id_views(targets@), id_views(other_targets@));
    let (ba, bb) = (id_views(beams@), id_views(other_beams@));
    let (ea, eb) = (edge_views(edges@), edge_views(other_edges@));
    let tail_a = c + (json_edges(ea) + e);
    let tail_b = c + (json_edges(eb) + e);
    let mid_a = q + (json_array(ba) + tail_a);
    let mid_b = q + (json_array(bb) + tail_b);
    let first_a = t + (json_array(ta) + mid_a);
    let first_b = t + (json_array(tb) + mid_b);
    regroup9(
        p,
        json_string(reference@),
        t,
        json_array(ta),
        q,
        json_array(ba),
        c,
        json_edges(ea),
        e,
    );
    regroup9(p, json_string(other@), t, json_array(tb), q, json_array(bb), c, json_edges(eb), e);
    assert(r@ == p + (json_string(reference@) + first_a));
    assert(s@ == p + (json_string(other@) + first_b));
    prefix_cut(p, json_string(reference@) + first_a, json_string(other@) + first_b);
    a_json_string_is_never_the_beginning_of_another(reference@, first_a, other@, first_b);
    prefix_cut(t, json_array(ta) + mid_a, json_array(tb) + mid_b);
    array_ends(ta, mid_a, tb, mid_b);
    prefix_cut(q, json_array(ba) + tail_a, json_array(bb) + tail_b);
    array_ends(ba, tail_a, bb, tail_b);
    prefix_cut(c, json_edges(ea) + e, json_edges(eb) + e);
    edges_end(ea, e, eb, e);
}

/// Two ends of runs with one line are one: each list of the summary is the
/// same, and so is the time. The exit code is 0 exactly where no beam failed.
pub proof fn a_summary_is_told_by_its_line(
    summary: RunSummary,
    r: String,
    other: RunSummary,
    s: String,
)
    requires
        call_ensures(json_line, (&RunEvent::RunFinished { summary },), r),
        call_ensures(json_line, (&RunEvent::RunFinished { summary: other },), s),
        r@ == s@,
    ensures
        id_views(summary.succeeded@) == id_views(other.succeeded@),
        id_views(summary.cached@) == id_views(other.cached@),
        id_views(summary.failed@) == id_views(other.failed@),
        id_views(summary.failed_allowed@) == id_views(other.failed_allowed@),
        id_views(summary.cancelled@) == id_views(other.cancelled@),
        summary.duration_ms == other.duration_ms,
{
    let a = id_views(summary.succeeded@);
    let b = id_views(other.succeeded@);
    let x = after_succeeded(summary);
    let y = after_succeeded(other);
    let p = "{\"event\":\"run_finished\",\"succeeded\":"@;
    summary_from_front(summary);
    summary_from_front(other);
    prefix_cut(p, json_array(a) + x, json_array(b) + y);
    array_ends(a, x, b, y);
    let p = ",\"cached\":"@;
    let (x, y) = (after_cached(summary), after_cached(other));
    let (a, b) = (id_views(summary.cached@), id_views(other.cached@));
    prefix_cut(p, json_array(a) + x, json_array(b) + y);
    array_ends(a, x, b, y);
    let p = ",\"failed\":"@;
    let (x, y) = (after_failed(summary), after_failed(other));
    let (a, b) = (id_views(summary.failed@), id_views(other.failed@));
    prefix_cut(p, json_array(a) + x, json_array(b) + y);
    array_ends(a, x, b, y);
    let p = ",\"failed_allowed\":"@;
    let (x, y) = (after_allowed(summary), after_allowed(other));
    let (a, b) = (id_views(summary.failed_allowed@), id_views(other.failed_allowed@));
    prefix_cut(p, json_array(a) + x, json_array(b) + y);
    array_ends(a, x, b, y);
    let p = ",\"cancelled\":"@;
    let (x, y) = (after_cancelled(summary), after_cancelled(other));
    let (a, b) = (id_views(summary.cancelled@), id_views(other.cancelled@));
    prefix_cut(p, json_array(a) + x, json_array(b) + y);
    array_ends(a, x, b, y);
    reveal_strlit(",\"exit_code\":");
    let (ca, cb) = (code_part(summary), code_part(other));
    prefix_cut(
        ",\"duration_ms\":"@,
        decimal(summary.duration_ms as nat) + ca,
        decimal(other.duration_ms as nat) + cb,
    );
    numbers_have_no_comma(summary.duration_ms as nat);
    numbers_have_no_comma(other.duration_ms as nat);
    comma_ends(
        decimal(summary.duration_ms as nat),
        ca,
        decimal(other.duration_ms as nat),
        cb,
    );
    decimal_tells_numbers_apart(summary.duration_ms as nat, other.duration_ms as nat);
}

spec fn code_part(s: RunSummary) -> Seq<char> {
    ",\"exit_code\":"@ + (signed_decimal(
        if s.failed@.len() == 0 {
            0
        } else {
            1
        },
    ) + "}"@)
}

spec fn after_cancelled(s: RunSummary) -> Seq<char> {
    ",\"duration_ms\":"@ + (decimal(s.duration_ms as nat) + code_part(s))
}

spec fn after_allowed(s: RunSummary) -> Seq<char> {
    ",\"cancelled\":"@ + (json_array(id_views(s.cancelled@)) + after_cancelled(s))
}

spec fn after_failed(s: RunSummary) -> Seq<char> {
    ",\"failed_allowed\":"@ + (json_array(id_views(s.failed_allowed@)) + after_allowed(s))
}

spec fn after_cached(s: RunSummary) -> Seq<char> {
    ",\"failed\":"@ + (json_array(id_views(s.failed@)) + after_failed(s))
}

spec fn after_succeeded(s: RunSummary) -> Seq<char> {
    ",\"cached\":"@ + (json_array(id_views(s.cached@)) + after_cached(s))
}

proof fn summary_from_front(s: RunSummary)
    ensures
        summary_line(s) == "{\"event\":\"run_finished\",\"succeeded\":"@ + (json_array(
            id_views(s.succeeded@),
        ) + after_succeeded(s)),
{
    let p0 = "{\"event\":\"run_finished\",\"succeeded\":"@;
    let p1 = ",\"cached\":"@;
    let p2 = ",\"failed\":"@;
    let p3 = ",\"failed_allowed\":"@;
    let p4 = ",\"cancelled\":"@;
    let p5 = ",\"duration_ms\":"@;
    let p6 = ",\"exit_code\":"@;
    let e = "}"@;
    let a = json_array(id_views(s.succeeded@));
    let b = json_array(id_views(s.cached@));
    let c = json_array(id_views(s.failed@));
    let d = json_array(id_views(s.failed_allowed@));
    let f = json_array(id_views(s.cancelled@));
    let n = decimal(s.duration_ms as nat);
    let x = signed_decimal(
        if s.failed@.len() == 0 {
            0
        } else {
            1
        },
    );
    let head = p0 + a + p1 + b + p2 + c + p3;
    regroup9(head, d, p4, f, p5, n, p6, x, e);
    let rest = d + after_allowed(s);
    regroup8(p0, a, p1, b, p2, c, p3, rest);
}

/// Starts and replays are told by the beam that they are of, a triggered run
/// by the paths that triggered it, a wait by the number of files, and a
/// broken project by what is wrong with it.
pub proof fn short_events_are_told_by_their_lines(
    a: BeamId,
    b: BeamId,
    started_a: String,
    started_b: String,
    cached_a: String,
    cached_b: String,
    paths: Vec<String>,
    other_paths: Vec<String>,
    triggered: String,
    other_triggered: String,
)
    requires
        call_ensures(json_line, (&RunEvent::BeamStarted { id: a },), started_a),
        call_ensures(json_line, (&RunEvent::BeamStarted { id: b },), started_b),
        call_ensures(json_line, (&RunEvent::BeamCached { id: a },), cached_a),
        call_ensures(json_line, (&RunEvent::BeamCached { id: b },), cached_b),
        call_ensures(json_line, (&RunEvent::WatchTriggered { paths },), triggered),
        call_ensures(
            json_line,
            (&RunEvent::WatchTriggered { paths: other_paths },),
            other_triggered,
        ),
    ensures
        started_a@ == started_b@ ==> a@ == b@,
        cached_a@ == cached_b@ ==> a@ == b@,
        triggered@ == other_triggered@ ==> views(paths@) == views(other_paths@),
{
    let e = "}"@;
    if started_a@ == started_b@ {
        let p = "{\"event\":\"beam_started\",\"beam\":"@;
        assert(started_a@ =~= p + (json_string(a@) + e));
        assert(started_b@ =~= p + (json_string(b@) + e));
        prefix_cut(p, json_string(a@) + e, json_string(b@) + e);
        a_json_string_is_never_the_beginning_of_another(a@, e, b@, e);
    }
    if cached_a@ == cached_b@ {
        let p = "{\"event\":\"beam_cached\",\"beam\":"@;
        assert(cached_a@ =~= p + (json_string(a@) + e));
        assert(cached_b@ =~= p + (json_string(b@) + e));
        prefix_cut(p, json_string(a@) + e, json_string(b@) + e);
        a_json_string_is_never_the_beginning_of_another(a@, e, b@, e);
    }
    if triggered@ == other_triggered@ {
        let p = "{\"event\":\"watch_triggered\",\"paths\":"@;
        let (x, y) = (views(paths@), views(other_paths@));
        assert(triggered@ =~= p + (json_array(x) + e));
        assert(other_triggered@ =~= p + (json_array(y) + e));
        prefix_cut(p, json_array(x) + e, json_array(y) + e);
        array_ends(x, e, y, e);
    }
}

} // verus!
