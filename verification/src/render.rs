//! How a run is shown as text: the words for its parts, and the colours.

use vstd::prelude::*;
use vstd::string::*;
use crate::event::{BeamStatus, RunSummary};
use crate::text::{
    decimal, decimal_text, join, joined, opt_view, signed_decimal, signed_text, text2, text3, text5,
    views,
};
use owo_colors::{AnsiColors, OwoColorize};

verus! {

/// What a renderer has to be written out for it, in order.
#[derive(Debug, PartialEq, Eq)]
pub enum Print {
    /// Clear the screen.
    Clear,
    /// A line on stdout.
    Stdout(String),
    /// A line on stderr.
    Stderr(String),
}

pub enum PrintView {
    Clear,
    Stdout(Seq<char>),
    Stderr(Seq<char>),
}

impl View for Print {
    type V = PrintView;

    open spec fn view(&self) -> PrintView {
        match self {
            Print::Clear => PrintView::Clear,
            Print::Stdout(line) => PrintView::Stdout(line@),
            Print::Stderr(line) => PrintView::Stderr(line@),
        }
    }
}

pub open spec fn print_views(prints: Seq<Print>) -> Seq<PrintView> {
    Seq::new(prints.len(), |i: int| prints[i]@)
}

/// How a beam ended, in words. An allowed failure goes without its exit code.
pub open spec fn status_text(status: BeamStatus) -> Seq<char> {
    match status {
        BeamStatus::Succeeded => "ok"@,
        BeamStatus::Cached => "cached"@,
        BeamStatus::Failed { exit_code } => "failed (exit "@ + signed_decimal(exit_code as int)
            + ")"@,
        BeamStatus::FailedAllowed { .. } => "failed (allowed)"@,
        BeamStatus::Cancelled => "cancelled"@,
    }
}

/// How a beam ended, in words.
pub fn status_label(status: &BeamStatus) -> (r: String)
    ensures
        r@ == status_text(*status),
{
    match status {
        BeamStatus::Succeeded => "ok".to_owned(),
        BeamStatus::Cached => "cached".to_owned(),
        BeamStatus::Failed { exit_code } => text3(
            "failed (exit ",
            signed_text(*exit_code).as_str(),
            ")",
        ),
        BeamStatus::FailedAllowed { .. } => "failed (allowed)".to_owned(),
        BeamStatus::Cancelled => "cancelled".to_owned(),
    }
}

/// A count with its mark and its word, left out where it is 0.
pub open spec fn counted(mark: Seq<char>, count: nat, word: Seq<char>) -> Seq<Seq<char>> {
    if count == 0 {
        Seq::empty()
    } else {
        seq![mark + " "@ + decimal(count) + " "@ + word]
    }
}

fn push_count(parts: &mut Vec<String>, mark: &str, count: usize, word: &str)
    ensures
        views(final(parts)@) == views(old(parts)@) + counted(mark@, count as nat, word@),
{
    let ghost before = views(parts@);
    if count > 0 {
        let part = text5(mark, " ", decimal_text(count as u64).as_str(), " ", word);
        parts.push(part);
        assert(views(parts@) =~= before + seq![part@]);
    } else {
        assert(before =~= before + Seq::<Seq<char>>::empty());
    }
}

/// No beam was part of the run.
pub open spec fn is_empty_run(s: RunSummary) -> bool {
    s.succeeded@.len() == 0 && s.cached@.len() == 0 && s.failed@.len() == 0
        && s.failed_allowed@.len() == 0 && s.cancelled@.len() == 0
}

/// A summary's parts: how many beams ended in which way, and the duration.
pub open spec fn summary_parts(s: RunSummary, duration: Seq<char>) -> Seq<Seq<char>> {
    (counted("\u{2713}"@, s.succeeded@.len(), "succeeded"@) + counted(
        "\u{26a1}"@,
        s.cached@.len(),
        "cached"@,
    ) + counted("\u{2717}"@, s.failed@.len(), "failed"@) + counted(
        "\u{26a0}"@,
        s.failed_allowed@.len(),
        "failed (allowed)"@,
    ) + counted("\u{2298}"@, s.cancelled@.len(), "cancelled"@)).push(duration)
}

/// The line that sums a run up. Where the run was of what changed since a
/// reference and nothing did, it says so.
pub open spec fn summary_words(
    s: RunSummary,
    affected_by: Option<Seq<char>>,
    duration: Seq<char>,
) -> Seq<char> {
    if affected_by is Some && is_empty_run(s) {
        "\u{2713} nothing affected by "@ + affected_by->Some_0
    } else {
        joined(summary_parts(s, duration), " \u{b7} "@)
    }
}

/// The line that sums a run up, `duration` being how long it took.
pub fn summary_label(summary: &RunSummary, affected_by: &Option<String>, duration: &str) -> (r:
    String)
    ensures
        r@ == summary_words(*summary, opt_view(*affected_by), duration@),
{
    let empty = summary.succeeded.len() == 0 && summary.cached.len() == 0 && summary.failed.len()
        == 0 && summary.failed_allowed.len() == 0 && summary.cancelled.len() == 0;
    if empty {
        if let Some(reference) = affected_by {
            return text2("\u{2713} nothing affected by ", reference.as_str());
        }
    }
    let mut parts: Vec<String> = Vec::new();
    assert(views(parts@) =~= Seq::<Seq<char>>::empty());
    push_count(&mut parts, "\u{2713}", summary.succeeded.len(), "succeeded");
    assert(views(parts@) =~= counted("\u{2713}"@, summary.succeeded@.len(), "succeeded"@));
    push_count(&mut parts, "\u{26a1}", summary.cached.len(), "cached");
    push_count(&mut parts, "\u{2717}", summary.failed.len(), "failed");
    push_count(&mut parts, "\u{26a0}", summary.failed_allowed.len(), "failed (allowed)");
    push_count(&mut parts, "\u{2298}", summary.cancelled.len(), "cancelled");
    let ghost before = views(parts@);
    parts.push(duration.to_owned());
    assert(views(parts@) =~= before.push(duration@));
    join(&parts, " \u{b7} ")
}

/// A colour that a beam's name is drawn in. Red is none of them: it reads as
/// a failure.
#[derive(Debug, Clone, Copy, PartialEq, Eq, Structural, Hash)]
pub enum Hue {
    Cyan,
    Green,
    Yellow,
    Blue,
    Magenta,
    BrightCyan,
}

/// What starts a colour on a terminal.
pub open spec fn hue_escape(hue: Hue) -> Seq<char> {
    match hue {
        Hue::Cyan => "\u{1b}[36m"@,
        Hue::Green => "\u{1b}[32m"@,
        Hue::Yellow => "\u{1b}[33m"@,
        Hue::Blue => "\u{1b}[34m"@,
        Hue::Magenta => "\u{1b}[35m"@,
        Hue::BrightCyan => "\u{1b}[96m"@,
    }
}

/// A text between what starts a colour and what ends it.
pub open spec fn coloured(text: Seq<char>, hue: Hue) -> Seq<char> {
    hue_escape(hue) + text + "\u{1b}[39m"@
}

/// A text between what dims it and what ends that.
pub open spec fn dim_text(text: Seq<char>) -> Seq<char> {
    "\u{1b}[2m"@ + text + "\u{1b}[0m"@
}

/// `OwoColorize::color` with one of `AnsiColors`, displayed: the colour's
/// escape sequence, the text, and the one that resets the foreground.
#[verifier::external_body]
fn colour(text: &str, hue: Hue) -> (r: String)
    ensures
        r@ == coloured(text@, hue),
{
    let ansi = match hue {
        Hue::Cyan => AnsiColors::Cyan,
        Hue::Green => AnsiColors::Green,
        Hue::Yellow => AnsiColors::Yellow,
        Hue::Blue => AnsiColors::Blue,
        Hue::Magenta => AnsiColors::Magenta,
        Hue::BrightCyan => AnsiColors::BrightCyan,
    };
    text.color(ansi).to_string()
}

/// `OwoColorize::dimmed`, displayed: the escape sequence for dim text, the
/// text, and the one that resets everything.
#[verifier::external_body]
fn dim(text: &str) -> (r: String)
    ensures
        r@ == dim_text(text@),
{
    text.dimmed().to_string()
}

/// A text in a colour.
pub fn paint(text: &str, hue: Hue) -> (r: String)
    ensures
        r@ == coloured(text@, hue),
{
    colour(text, hue)
}

/// A text dimmed where colour is wanted, else as it is.
pub fn dimmed(text: &str, color: bool) -> (r: String)
    ensures
        r@ == if color {
            dim_text(text@)
        } else {
            text@
        },
{
    if color {
        dim(text)
    } else {
        text.to_owned()
    }
}

pub const FNV_OFFSET_BASIS: u64 = 0xcbf2_9ce4_8422_2325;

pub const FNV_PRIME: u64 = 0x0000_0100_0000_01b3;

/// The 64-bit FNV-1a hash of bytes: each is mixed into the hash by exclusive
/// or, and the hash then multiplied by the prime, modulo 2^64.
pub open spec fn fnv(bytes: Seq<u8>) -> u64
    decreases bytes.len(),
{
    if bytes.len() == 0 {
        FNV_OFFSET_BASIS
    } else {
        (((fnv(bytes.drop_last()) ^ (bytes.last() as u64)) * FNV_PRIME) % 0x1_0000_0000_0000_0000)
            as u64
    }
}

/// The 64-bit FNV-1a hash of a text's bytes, the same on every machine and in
/// every version.
pub fn fnv1a(text: &str) -> (r: u64)
    ensures
        r == fnv(vstd::utf8::encode_utf8(text@)),
{
    let bytes = text.as_bytes();
    let mut hash: u64 = FNV_OFFSET_BASIS;
    let mut i: usize = 0;
    while i < bytes.len()
        invariant
            i <= bytes@.len(),
            hash == fnv(bytes@.take(i as int)),
        decreases bytes.len() - i,
    {
        assert(bytes@.take(i + 1).drop_last() =~= bytes@.take(i as int));
        hash = (hash ^ (bytes[i] as u64)).wrapping_mul(FNV_PRIME);
        i += 1;
    }
    assert(bytes@.take(bytes@.len() as int) =~= bytes@);
    hash
}

/// The colours, in the order that hashes count them.
pub open spec fn hue_at(place: int) -> Hue {
    if place == 0 {
        Hue::Cyan
    } else if place == 1 {
        Hue::Green
    } else if place == 2 {
        Hue::Yellow
    } else if place == 3 {
        Hue::Blue
    } else if place == 4 {
        Hue::Magenta
    } else {
        Hue::BrightCyan
    }
}

/// The colour that a beam is always drawn in, by its id alone.
pub open spec fn hue_of(id: Seq<char>) -> Hue {
    hue_at(fnv(vstd::utf8::encode_utf8(id)) as int % 6)
}

/// The colour that a beam is always drawn in: a matter of its id alone, never
/// of the order in which beams are met.
pub fn color_for(id: &str) -> (r: Hue)
    ensures
        r == hue_of(id@),
{
    match fnv1a(id) % 6 {
        0 => Hue::Cyan,
        1 => Hue::Green,
        2 => Hue::Yellow,
        3 => Hue::Blue,
        4 => Hue::Magenta,
        _ => Hue::BrightCyan,
    }
}

} // verus!
