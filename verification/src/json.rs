//! The JSON form of a run's events, one object per line: the format that
//! other programs read.

use vstd::prelude::*;
use vstd::string::*;
use crate::event::{BeamStatus, RunEvent, RunSummary, Stream};
use crate::model::BeamId;
use crate::graph::id_views;
use crate::text::{
    decimal, decimal_text, digit, joined, join, signed_decimal, signed_text, text3, views,
};

verus! {

/// A hexadecimal digit below sixteen, in lowercase.
pub open spec fn hex_digit(d: nat) -> char {
    if d == 10 {
        'a'
    } else if d == 11 {
        'b'
    } else if d == 12 {
        'c'
    } else if d == 13 {
        'd'
    } else if d == 14 {
        'e'
    } else if d == 15 {
        'f'
    } else {
        digit(d)
    }
}

/// A character inside a JSON string.
pub open spec fn json_char(c: char) -> Seq<char> {
    if c == '"' {
        seq!['\\', '"']
    } else if c == '\\' {
        seq!['\\', '\\']
    } else if c == '\u{8}' {
        seq!['\\', 'b']
    } else if c == '\t' {
        seq!['\\', 't']
    } else if c == '\n' {
        seq!['\\', 'n']
    } else if c == '\u{c}' {
        seq!['\\', 'f']
    } else if c == '\r' {
        seq!['\\', 'r']
    } else if (c as u32) < 0x20 {
        seq!['\\', 'u', '0', '0', hex_digit((c as u32 / 16) as nat), hex_digit((c as u32 % 16) as nat)]
    } else {
        seq![c]
    }
}

pub open spec fn json_chars(s: Seq<char>) -> Seq<char>
    decreases s.len(),
{
    if s.len() == 0 {
        Seq::empty()
    } else {
        json_chars(s.drop_last()) + json_char(s.last())
    }
}

/// A text as a JSON string.
pub open spec fn json_string(s: Seq<char>) -> Seq<char> {
    seq!['"'] + json_chars(s) + seq!['"']
}

/// `serde_json::to_string` of a string: quotes round its characters, `"`, `\`
/// and the control characters below a space escaped, all others as they are.
/// It does not fail on a string.
#[verifier::external_body]
fn to_json(text: &str) -> (r: String)
    ensures
        r@ == json_string(text@),
{
    serde_json::to_string(text).unwrap()
}

/// A text as a JSON string.
pub fn json_text(text: &str) -> (r: String)
    ensures
        r@ == json_string(text@),
{
    to_json(text)
}

pub open spec fn json_strings(texts: Seq<Seq<char>>) -> Seq<Seq<char>> {
    Seq::new(texts.len(), |i: int| json_string(texts[i]))
}

/// Texts as a JSON array.
pub open spec fn json_array(texts: Seq<Seq<char>>) -> Seq<char> {
    "["@ + joined(json_strings(texts), ","@) + "]"@
}

/// Texts as a JSON array.
pub fn json_array_text(texts: &Vec<String>) -> (r: String)
    ensures
        r@ == json_array(views(texts@)),
{
    let mut parts: Vec<String> = Vec::new();
    let mut i: usize = 0;
    while i < texts.len()
        invariant
            i <= texts@.len(),
            parts@.len() == i,
            forall|k: int| 0 <= k < i ==> (#[trigger] parts@[k])@ == json_string(texts@[k]@),
        decreases texts.len() - i,
    {
        parts.push(to_json(texts[i].as_str()));
        i += 1;
    }
    assert(views(parts@) =~= json_strings(views(texts@)));
    text3("[", join(&parts, ",").as_str(), "]")
}

/// Ids as a JSON array.
pub fn json_ids(ids: &Vec<BeamId>) -> (r: String)
    ensures
        r@ == json_array(id_views(ids@)),
{
    let mut parts: Vec<String> = Vec::new();
    let mut i: usize = 0;
    while i < ids.len()
        invariant
            i <= ids@.len(),
            parts@.len() == i,
            forall|k: int| 0 <= k < i ==> (#[trigger] parts@[k])@ == json_string(ids@[k]@),
        decreases ids.len() - i,
    {
        parts.push(to_json(ids[i].0.as_str()));
        i += 1;
    }
    assert(views(parts@) =~= json_strings(id_views(ids@)));
    text3("[", join(&parts, ",").as_str(), "]")
}

pub open spec fn edge_views(edges: Seq<(BeamId, BeamId)>) -> Seq<(Seq<char>, Seq<char>)> {
    Seq::new(edges.len(), |i: int| (edges[i].0@, edges[i].1@))
}

pub open spec fn json_pairs(pairs: Seq<(Seq<char>, Seq<char>)>) -> Seq<Seq<char>> {
    Seq::new(
        pairs.len(),
        |i: int| "["@ + json_string(pairs[i].0) + ","@ + json_string(pairs[i].1) + "]"@,
    )
}

/// Pairs of texts as a JSON array of arrays.
pub open spec fn json_edges(pairs: Seq<(Seq<char>, Seq<char>)>) -> Seq<char> {
    "["@ + joined(json_pairs(pairs), ","@) + "]"@
}

fn json_edges_text(edges: &Vec<(BeamId, BeamId)>) -> (r: String)
    ensures
        r@ == json_edges(edge_views(edges@)),
{
    let mut parts: Vec<String> = Vec::new();
    let mut i: usize = 0;
    while i < edges.len()
        invariant
            i <= edges@.len(),
            parts@.len() == i,
            forall|k: int|
                0 <= k < i ==> (#[trigger] parts@[k])@ == "["@ + json_string(edges@[k].0@) + ","@
                    + json_string(edges@[k].1@) + "]"@,
        decreases edges.len() - i,
    {
        let (from, to) = &edges[i];
        parts.push(
            crate::text::text5(
                "[",
                to_json(from.0.as_str()).as_str(),
                ",",
                to_json(to.0.as_str()).as_str(),
                "]",
            ),
        );
        i += 1;
    }
    assert(views(parts@) =~= json_pairs(edge_views(edges@)));
    text3("[", join(&parts, ",").as_str(), "]")
}

/// A status by its name on the wire.
pub open spec fn status_word(status: BeamStatus) -> Seq<char> {
    match status {
        BeamStatus::Succeeded => "succeeded"@,
        BeamStatus::Cached => "cached"@,
        BeamStatus::Failed { .. } => "failed"@,
        BeamStatus::FailedAllowed { .. } => "failed_allowed"@,
        BeamStatus::Cancelled => "cancelled"@,
    }
}

/// A status by its name on the wire.
pub fn status_name(status: &BeamStatus) -> (r: &'static str)
    ensures
        r@ == status_word(*status),
{
    match status {
        BeamStatus::Succeeded => "succeeded",
        BeamStatus::Cached => "cached",
        BeamStatus::Failed { .. } => "failed",
        BeamStatus::FailedAllowed { .. } => "failed_allowed",
        BeamStatus::Cancelled => "cancelled",
    }
}

/// The exit code that a status has, if it has one.
pub open spec fn status_code(status: BeamStatus) -> Option<i32> {
    match status {
        BeamStatus::Failed { exit_code } => Some(exit_code),
        BeamStatus::FailedAllowed { exit_code } => Some(exit_code),
        _ => None,
    }
}

/// The exit code that a status has: only a beam that ran and failed has one.
pub fn exit_code(status: &BeamStatus) -> (r: Option<i32>)
    ensures
        r == status_code(*status),
{
    match status {
        BeamStatus::Failed { exit_code } => Some(*exit_code),
        BeamStatus::FailedAllowed { exit_code } => Some(*exit_code),
        BeamStatus::Succeeded | BeamStatus::Cached | BeamStatus::Cancelled => None,
    }
}

/// A duration in whole milliseconds; what does not fit counts as the longest
/// that does.
pub fn millis(duration: u128) -> (r: u64)
    ensures
        r == if duration <= u64::MAX {
            duration as u64
        } else {
            u64::MAX
        },
{
    if duration <= u64::MAX as u128 {
        duration as u64
    } else {
        u64::MAX
    }
}

pub open spec fn stream_word(stream: Stream) -> Seq<char> {
    match stream {
        Stream::Stdout => "stdout"@,
        Stream::Stderr => "stderr"@,
    }
}

/// A stream by its name.
pub fn stream_name(stream: Stream) -> (r: &'static str)
    ensures
        r@ == stream_word(stream),
{
    match stream {
        Stream::Stdout => "stdout",
        Stream::Stderr => "stderr",
    }
}

pub open spec fn bool_word(b: bool) -> Seq<char> {
    if b {
        "true"@
    } else {
        "false"@
    }
}

fn bool_name(b: bool) -> (r: &'static str)
    ensures
        r@ == bool_word(b),
{
    if b {
        "true"
    } else {
        "false"
    }
}

/// An exit code, or `null` where there is none.
pub open spec fn code_word(code: Option<i32>) -> Seq<char> {
    match code {
        Some(c) => signed_decimal(c as int),
        None => "null"@,
    }
}

fn code_text(code: Option<i32>) -> (r: String)
    ensures
        r@ == code_word(code),
{
    match code {
        Some(c) => signed_text(c),
        None => "null".to_owned(),
    }
}

/// A summary on the wire.
pub open spec fn summary_line(s: RunSummary) -> Seq<char> {
    "{\"event\":\"run_finished\",\"succeeded\":"@ + json_array(id_views(s.succeeded@))
        + ",\"cached\":"@ + json_array(id_views(s.cached@)) + ",\"failed\":"@ + json_array(
        id_views(s.failed@),
    ) + ",\"failed_allowed\":"@ + json_array(id_views(s.failed_allowed@)) + ",\"cancelled\":"@
        + json_array(id_views(s.cancelled@)) + ",\"duration_ms\":"@ + decimal(s.duration_ms as nat)
        + ",\"exit_code\":"@ + signed_decimal(
        if s.failed@.len() == 0 {
            0
        } else {
            1
        },
    ) + "}"@
}

/// The line that an event is on the wire.
pub open spec fn wire_line(event: RunEvent) -> Seq<char> {
    match event {
        RunEvent::RunStarted { target, beams, edges } => "{\"event\":\"run_started\",\"target\":"@
            + json_string(target@) + ",\"beams\":"@ + json_array(id_views(beams@)) + ",\"edges\":"@
            + json_edges(edge_views(edges@)) + "}"@,
        RunEvent::AffectedStarted { reference, targets, beams, edges } =>
            "{\"event\":\"run_started\",\"affected_by\":"@ + json_string(reference@)
            + ",\"targets\":"@ + json_array(id_views(targets@)) + ",\"beams\":"@ + json_array(
            id_views(beams@),
        ) + ",\"edges\":"@ + json_edges(edge_views(edges@)) + "}"@,
        RunEvent::BeamStarted { id } => "{\"event\":\"beam_started\",\"beam\":"@ + json_string(id@)
            + "}"@,
        RunEvent::BeamCached { id } => "{\"event\":\"beam_cached\",\"beam\":"@ + json_string(id@)
            + "}"@,
        RunEvent::BeamOutput { id, line, replayed } => "{\"event\":\"beam_output\",\"beam\":"@
            + json_string(id@) + ",\"stream\":"@ + json_string(stream_word(line.stream))
            + ",\"text\":"@ + json_string(line.text@) + ",\"replayed\":"@ + bool_word(replayed)
            + "}"@,
        RunEvent::BeamFinished { id, status, duration_ms } =>
            "{\"event\":\"beam_finished\",\"beam\":"@ + json_string(id@) + ",\"status\":"@
            + json_string(status_word(status)) + ",\"exit_code\":"@ + code_word(status_code(status))
            + ",\"duration_ms\":"@ + decimal(duration_ms as nat) + "}"@,
        RunEvent::RunFinished { summary } => summary_line(summary),
        RunEvent::WatchWaiting { files } => "{\"event\":\"watch_waiting\",\"files\":"@ + decimal(
            files as nat,
        ) + "}"@,
        RunEvent::WatchTriggered { paths } => "{\"event\":\"watch_triggered\",\"paths\":"@
            + json_array(views(paths@)) + "}"@,
        RunEvent::ProjectBroken { diagnostic } =>
            "{\"event\":\"project_broken\",\"diagnostic\":"@ + json_string(diagnostic@) + "}"@,
    }
}

fn summary_text(summary: &RunSummary) -> (r: String)
    ensures
        r@ == summary_line(*summary),
{
    let mut out = "{\"event\":\"run_finished\",\"succeeded\":".to_owned();
    out.append(json_ids(&summary.succeeded).as_str());
    out.append(",\"cached\":");
    out.append(json_ids(&summary.cached).as_str());
    out.append(",\"failed\":");
    out.append(json_ids(&summary.failed).as_str());
    out.append(",\"failed_allowed\":");
    out.append(json_ids(&summary.failed_allowed).as_str());
    out.append(",\"cancelled\":");
    out.append(json_ids(&summary.cancelled).as_str());
    out.append(",\"duration_ms\":");
    out.append(decimal_text(summary.duration_ms).as_str());
    out.append(",\"exit_code\":");
    out.append(signed_text(summary.exit_code()).as_str());
    out.append("}");
    out
}

/// The JSON object, on one line, that an event is to other programs.
pub fn json_line(event: &RunEvent) -> (r: String)
    ensures
        r@ == wire_line(*event),
{
    match event {
        RunEvent::RunStarted { target, beams, edges } => {
            let mut out = "{\"event\":\"run_started\",\"target\":".to_owned();
            out.append(to_json(target.0.as_str()).as_str());
            out.append(",\"beams\":");
            out.append(json_ids(beams).as_str());
            out.append(",\"edges\":");
            out.append(json_edges_text(edges).as_str());
            out.append("}");
            out
        },
        RunEvent::AffectedStarted { reference, targets, beams, edges } => {
            let mut out = "{\"event\":\"run_started\",\"affected_by\":".to_owned();
            out.append(to_json(reference.as_str()).as_str());
            out.append(",\"targets\":");
            out.append(json_ids(targets).as_str());
            out.append(",\"beams\":");
            out.append(json_ids(beams).as_str());
            out.append(",\"edges\":");
            out.append(json_edges_text(edges).as_str());
            out.append("}");
            out
        },
        RunEvent::BeamStarted { id } => text3(
            "{\"event\":\"beam_started\",\"beam\":",
            to_json(id.0.as_str()).as_str(),
            "}",
        ),
        RunEvent::BeamCached { id } => text3(
            "{\"event\":\"beam_cached\",\"beam\":",
            to_json(id.0.as_str()).as_str(),
            "}",
        ),
        RunEvent::BeamOutput { id, line, replayed } => {
            let mut out = "{\"event\":\"beam_output\",\"beam\":".to_owned();
            out.append(to_json(id.0.as_str()).as_str());
            out.append(",\"stream\":");
            out.append(to_json(stream_name(line.stream)).as_str());
            out.append(",\"text\":");
            out.append(to_json(line.text.as_str()).as_str());
            out.append(",\"replayed\":");
            out.append(bool_name(*replayed));
            out.append("}");
            out
        },
        RunEvent::BeamFinished { id, status, duration_ms } => {
            let mut out = "{\"event\":\"beam_finished\",\"beam\":".to_owned();
            out.append(to_json(id.0.as_str()).as_str());
            out.append(",\"status\":");
            out.append(to_json(status_name(status)).as_str());
            out.append(",\"exit_code\":");
            out.append(code_text(exit_code(status)).as_str());
            out.append(",\"duration_ms\":");
            out.append(decimal_text(*duration_ms).as_str());
            out.append("}");
            out
        },
        RunEvent::RunFinished { summary } => summary_text(summary),
        RunEvent::WatchWaiting { files } => text3(
            "{\"event\":\"watch_waiting\",\"files\":",
            decimal_text(*files as u64).as_str(),
            "}",
        ),
        RunEvent::WatchTriggered { paths } => text3(
            "{\"event\":\"watch_triggered\",\"paths\":",
            json_array_text(paths).as_str(),
            "}",
        ),
        RunEvent::ProjectBroken { diagnostic } => text3(
            "{\"event\":\"project_broken\",\"diagnostic\":",
            to_json(diagnostic.as_str()).as_str(),
            "}",
        ),
    }
}

} // verus!
