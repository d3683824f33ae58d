//! What the JSON form of events promises: one event is one line.

use vstd::prelude::*;
use crate::event::{RunEvent, RunSummary};
use crate::graph::id_views;
use crate::json::{
    bool_word, code_word, edge_views, json_array, json_char, json_chars, json_edges, json_pairs,
    json_string, json_strings, status_code, status_word, stream_word, summary_line, wire_line,
};
use crate::text::{decimal, digit, joined, signed_decimal, views};

verus! {

/// A text that holds no line break.
pub open spec fn one_line(s: Seq<char>) -> bool {
    !s.contains('\n')
}

pub proof fn one_line_concat(a: Seq<char>, b: Seq<char>)
    requires
        one_line(a),
        one_line(b),
    ensures
        one_line(a + b),
{
    if (a + b).contains('\n') {
        let i = choose|i: int| 0 <= i < (a + b).len() && (a + b)[i] == '\n';
        if i < a.len() {
            assert(a[i] == '\n');
        } else {
            assert(b[i - a.len()] == '\n');
        }
    }
}

proof fn one_line_push(a: Seq<char>, c: char)
    requires
        one_line(a),
        c != '\n',
    ensures
        one_line(a.push(c)),
{
    if a.push(c).contains('\n') {
        let i = choose|i: int| 0 <= i < a.push(c).len() && a.push(c)[i] == '\n';
        assert(a[i] == '\n');
    }
}

proof fn decimal_is_one_line(n: nat)
    ensures
        one_line(decimal(n)),
    decreases n,
{
    if n < 10 {
        one_line_push(Seq::empty(), digit(n));
        assert(decimal(n) =~= Seq::<char>::empty().push(digit(n)));
    } else {
        decimal_is_one_line(n / 10);
        one_line_push(decimal(n / 10), digit(n % 10));
    }
}

proof fn signed_is_one_line(n: int)
    ensures
        one_line(signed_decimal(n)),
{
    reveal_strlit("-");
    if n < 0 {
        decimal_is_one_line((-n) as nat);
        one_line_concat("-"@, decimal((-n) as nat));
    } else {
        decimal_is_one_line(n as nat);
    }
}

proof fn json_chars_are_one_line(s: Seq<char>)
    ensures
        one_line(json_chars(s)),
    decreases s.len(),
{
    if s.len() > 0 {
        json_chars_are_one_line(s.drop_last());
        let c = s.last();
        assert(one_line(json_char(c)));
        one_line_concat(json_chars(s.drop_last()), json_char(c));
    }
}

/// The JSON form of any text is one line.
pub proof fn a_json_string_is_one_line(s: Seq<char>)
    ensures
        one_line(json_string(s)),
{
    json_chars_are_one_line(s);
    one_line_concat(seq!['"'], json_chars(s));
    one_line_concat(seq!['"'] + json_chars(s), seq!['"']);
}

proof fn joined_is_one_line(parts: Seq<Seq<char>>, separator: Seq<char>)
    requires
        one_line(separator),
        forall|i: int| 0 <= i < parts.len() ==> one_line(#[trigger] parts[i]),
    ensures
        one_line(joined(parts, separator)),
    decreases parts.len(),
{
    if parts.len() > 1 {
        assert forall|i: int| 0 <= i < parts.drop_last().len() implies one_line(
            #[trigger] parts.drop_last()[i],
        ) by {
            assert(parts.drop_last()[i] == parts[i]);
        }
        joined_is_one_line(parts.drop_last(), separator);
        one_line_concat(joined(parts.drop_last(), separator), separator);
        one_line_concat(joined(parts.drop_last(), separator) + separator, parts.last());
    }
}

proof fn array_is_one_line(texts: Seq<Seq<char>>)
    ensures
        one_line(json_array(texts)),
{
    reveal_strlit("[");
    reveal_strlit(",");
    reveal_strlit("]");
    assert forall|i: int| 0 <= i < json_strings(texts).len() implies one_line(
        #[trigger] json_strings(texts)[i],
    ) by {
        a_json_string_is_one_line(texts[i]);
    }
    joined_is_one_line(json_strings(texts), ","@);
    one_line_concat("["@, joined(json_strings(texts), ","@));
    one_line_concat("["@ + joined(json_strings(texts), ","@), "]"@);
}

proof fn edges_are_one_line(pairs: Seq<(Seq<char>, Seq<char>)>)
    ensures
        one_line(json_edges(pairs)),
{
    reveal_strlit("[");
    reveal_strlit(",");
    reveal_strlit("]");
    assert forall|i: int| 0 <= i < json_pairs(pairs).len() implies one_line(
        #[trigger] json_pairs(pairs)[i],
    ) by {
        let a = json_string(pairs[i].0);
        let b = json_string(pairs[i].1);
        a_json_string_is_one_line(pairs[i].0);
        a_json_string_is_one_line(pairs[i].1);
        one_line_concat("["@, a);
        one_line_concat("["@ + a, ","@);
        one_line_concat("["@ + a + ","@, b);
        one_line_concat("["@ + a + ","@ + b, "]"@);
    }
    joined_is_one_line(json_pairs(pairs), ","@);
    one_line_concat("["@, joined(json_pairs(pairs), ","@));
    one_line_concat("["@ + joined(json_pairs(pairs), ","@), "]"@);
}

proof fn summary_is_one_line(s: RunSummary)
    ensures
        one_line(summary_line(s)),
{
    reveal_strlit("{\"event\":\"run_finished\",\"succeeded\":");
    reveal_strlit(",\"cached\":");
    reveal_strlit(",\"failed\":");
    reveal_strlit(",\"failed_allowed\":");
    reveal_strlit(",\"cancelled\":");
    reveal_strlit(",\"duration_ms\":");
    reveal_strlit(",\"exit_code\":");
    reveal_strlit("}");
    let p0 = "{\"event\":\"run_finished\",\"succeeded\":"@;
    array_is_one_line(id_views(s.succeeded@));
    array_is_one_line(id_views(s.cached@));
    array_is_one_line(id_views(s.failed@));
    array_is_one_line(id_views(s.failed_allowed@));
    array_is_one_line(id_views(s.cancelled@));
    decimal_is_one_line(s.duration_ms as nat);
    let code = if s.failed@.len() == 0 {
        0int
    } else {
        1
    };
    signed_is_one_line(code);
    let p1 = p0 + json_array(id_views(s.succeeded@));
    one_line_concat(p0, json_array(id_views(s.succeeded@)));
    let p2 = p1 + ",\"cached\":"@;
    one_line_concat(p1, ",\"cached\":"@);
    let p3 = p2 + json_array(id_views(s.cached@));
    one_line_concat(p2, json_array(id_views(s.cached@)));
    let p4 = p3 + ",\"failed\":"@;
    one_line_concat(p3, ",\"failed\":"@);
    let p5 = p4 + json_array(id_views(s.failed@));
    one_line_concat(p4, json_array(id_views(s.failed@)));
    let p6 = p5 + ",\"failed_allowed\":"@;
    one_line_concat(p5, ",\"failed_allowed\":"@);
    let p7 = p6 + json_array(id_views(s.failed_allowed@));
    one_line_concat(p6, json_array(id_views(s.failed_allowed@)));
    let p8 = p7 + ",\"cancelled\":"@;
    one_line_concat(p7, ",\"cancelled\":"@);
    let p9 = p8 + json_array(id_views(s.cancelled@));
    one_line_concat(p8, json_array(id_views(s.cancelled@)));
    let p10 = p9 + ",\"duration_ms\":"@;
    one_line_concat(p9, ",\"duration_ms\":"@);
    let p11 = p10 + decimal(s.duration_ms as nat);
    one_line_concat(p10, decimal(s.duration_ms as nat));
    let p12 = p11 + ",\"exit_code\":"@;
    one_line_concat(p11, ",\"exit_code\":"@);
    let p13 = p12 + signed_decimal(code);
    one_line_concat(p12, signed_decimal(code));
    one_line_concat(p13, "}"@);
}

/// Every event is one line of JSON, whatever its texts hold.
pub proof fn an_event_is_one_line(event: RunEvent)
    ensures
        one_line(wire_line(event)),
{
    reveal_strlit("}");
    match event {
        RunEvent::RunStarted { target, beams, edges } => {
            reveal_strlit("{\"event\":\"run_started\",\"target\":");
            reveal_strlit(",\"beams\":");
            reveal_strlit(",\"edges\":");
            a_json_string_is_one_line(target@);
            array_is_one_line(id_views(beams@));
            edges_are_one_line(edge_views(edges@));
            let p0 = "{\"event\":\"run_started\",\"target\":"@;
            let p1 = p0 + json_string(target@);
            one_line_concat(p0, json_string(target@));
            let p2 = p1 + ",\"beams\":"@;
            one_line_concat(p1, ",\"beams\":"@);
            let p3 = p2 + json_array(id_views(beams@));
            one_line_concat(p2, json_array(id_views(beams@)));
            let p4 = p3 + ",\"edges\":"@;
            one_line_concat(p3, ",\"edges\":"@);
            let p5 = p4 + json_edges(edge_views(edges@));
            one_line_concat(p4, json_edges(edge_views(edges@)));
            one_line_concat(p5, "}"@);
        },
        RunEvent::AffectedStarted { reference, targets, beams, edges } => {
            reveal_strlit("{\"event\":\"run_started\",\"affected_by\":");
            reveal_strlit(",\"targets\":");
            reveal_strlit(",\"beams\":");
            reveal_strlit(",\"edges\":");
            a_json_string_is_one_line(reference@);
            array_is_one_line(id_views(targets@));
            array_is_one_line(id_views(beams@));
            edges_are_one_line(edge_views(edges@));
            let p0 = "{\"event\":\"run_started\",\"affected_by\":"@;
            let p1 = p0 + json_string(reference@);
            one_line_concat(p0, json_string(reference@));
            let p2 = p1 + ",\"targets\":"@;
            one_line_concat(p1, ",\"targets\":"@);
            let p3 = p2 + json_array(id_views(targets@));
            one_line_concat(p2, json_array(id_views(targets@)));
            let p4 = p3 + ",\"beams\":"@;
            one_line_concat(p3, ",\"beams\":"@);
            let p5 = p4 + json_array(id_views(beams@));
            one_line_concat(p4, json_array(id_views(beams@)));
            let p6 = p5 + ",\"edges\":"@;
            one_line_concat(p5, ",\"edges\":"@);
            let p7 = p6 + json_edges(edge_views(edges@));
            one_line_concat(p6, json_edges(edge_views(edges@)));
            one_line_concat(p7, "}"@);
        },
        RunEvent::BeamStarted { id } => {
            reveal_strlit("{\"event\":\"beam_started\",\"beam\":");
            a_json_string_is_one_line(id@);
            let p0 = "{\"event\":\"beam_started\",\"beam\":"@;
            one_line_concat(p0, json_string(id@));
            one_line_concat(p0 + json_string(id@), "}"@);
        },
        RunEvent::BeamCached { id } => {
            reveal_strlit("{\"event\":\"beam_cached\",\"beam\":");
            a_json_string_is_one_line(id@);
            let p0 = "{\"event\":\"beam_cached\",\"beam\":"@;
            one_line_concat(p0, json_string(id@));
            one_line_concat(p0 + json_string(id@), "}"@);
        },
        RunEvent::BeamOutput { id, line, replayed } => {
            reveal_strlit("{\"event\":\"beam_output\",\"beam\":");
            reveal_strlit(",\"stream\":");
            reveal_strlit(",\"text\":");
            reveal_strlit(",\"replayed\":");
            reveal_strlit("true");
            reveal_strlit("false");
            let stream = json_string(stream_word(line.stream));
            a_json_string_is_one_line(id@);
            a_json_string_is_one_line(stream_word(line.stream));
            a_json_string_is_one_line(line.text@);
            let p0 = "{\"event\":\"beam_output\",\"beam\":"@;
            let p1 = p0 + json_string(id@);
            one_line_concat(p0, json_string(id@));
            let p2 = p1 + ",\"stream\":"@;
            one_line_concat(p1, ",\"stream\":"@);
            let p3 = p2 + stream;
            one_line_concat(p2, stream);
            let p4 = p3 + ",\"text\":"@;
            one_line_concat(p3, ",\"text\":"@);
            let p5 = p4 + json_string(line.text@);
            one_line_concat(p4, json_string(line.text@));
            let p6 = p5 + ",\"replayed\":"@;
            one_line_concat(p5, ",\"replayed\":"@);
            let p7 = p6 + bool_word(replayed);
            one_line_concat(p6, bool_word(replayed));
            one_line_concat(p7, "}"@);
        },
        RunEvent::BeamFinished { id, status, duration_ms } => {
            reveal_strlit("{\"event\":\"beam_finished\",\"beam\":");
            reveal_strlit(",\"status\":");
            reveal_strlit(",\"exit_code\":");
            reveal_strlit(",\"duration_ms\":");
            reveal_strlit("null");
            let word = json_string(status_word(status));
            let code = code_word(status_code(status));
            a_json_string_is_one_line(id@);
            a_json_string_is_one_line(status_word(status));
            decimal_is_one_line(duration_ms as nat);
            if let Some(c) = status_code(status) {
                signed_is_one_line(c as int);
            }
            let p0 = "{\"event\":\"beam_finished\",\"beam\":"@;
            let p1 = p0 + json_string(id@);
            one_line_concat(p0, json_string(id@));
            let p2 = p1 + ",\"status\":"@;
            one_line_concat(p1, ",\"status\":"@);
            let p3 = p2 + word;
            one_line_concat(p2, word);
            let p4 = p3 + ",\"exit_code\":"@;
            one_line_concat(p3, ",\"exit_code\":"@);
            let p5 = p4 + code;
            one_line_concat(p4, code);
            let p6 = p5 + ",\"duration_ms\":"@;
            one_line_concat(p5, ",\"duration_ms\":"@);
            let p7 = p6 + decimal(duration_ms as nat);
            one_line_concat(p6, decimal(duration_ms as nat));
            one_line_concat(p7, "}"@);
        },
        RunEvent::RunFinished { summary } => {
            summary_is_one_line(summary);
        },
        RunEvent::WatchWaiting { files } => {
            reveal_strlit("{\"event\":\"watch_waiting\",\"files\":");
            decimal_is_one_line(files as nat);
            let p0 = "{\"event\":\"watch_waiting\",\"files\":"@;
            one_line_concat(p0, decimal(files as nat));
            one_line_concat(p0 + decimal(files as nat), "}"@);
        },
        RunEvent::WatchTriggered { paths } => {
            reveal_strlit("{\"event\":\"watch_triggered\",\"paths\":");
            array_is_one_line(views(paths@));
            let p0 = "{\"event\":\"watch_triggered\",\"paths\":"@;
            one_line_concat(p0, json_array(views(paths@)));
            one_line_concat(p0 + json_array(views(paths@)), "}"@);
        },
        RunEvent::ProjectBroken { diagnostic } => {
            reveal_strlit("{\"event\":\"project_broken\",\"diagnostic\":");
            a_json_string_is_one_line(diagnostic@);
            let p0 = "{\"event\":\"project_broken\",\"diagnostic\":"@;
            one_line_concat(p0, json_string(diagnostic@));
            one_line_concat(p0 + json_string(diagnostic@), "}"@);
        },
    }
}

} // verus!
