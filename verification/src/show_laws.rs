//! What is shown of a run.

use vstd::prelude::*;
use crate::event::{BeamStatus, RunEvent, RunSummary};
use crate::json::json_line;
use crate::render::{
    color_for, counted, dimmed, fnv, print_views, status_label, summary_label, summary_parts, Hue,
    PrintView, Print,
};
use crate::renderers::{
    group_place, lines_held, with_group, with_line, GroupView, InterleavedRenderer, JsonRenderer,
};
use crate::text::{decimal, joined, signed_decimal, trimmed_end};


verus! {

/// `part` stands somewhere in `text`.
pub open spec fn has_part(text: Seq<char>, part: Seq<char>) -> bool {
    exists|before: Seq<char>, after: Seq<char>| text == #[trigger] (before + part + after)
}

pub proof fn a_joined_part_is_there(parts: Seq<Seq<char>>, separator: Seq<char>, k: int)
    requires
        0 <= k < parts.len(),
    ensures
        has_part(joined(parts, separator), parts[k]),
    decreases parts.len(),
{
    let none = Seq::<char>::empty();
    let text = joined(parts, separator);
    if parts.len() == 1 {
        assert(text =~= none + parts[k] + none);
    } else {
        let front = parts.drop_last();
        let start = joined(front, separator);
        assert(text == start + separator + parts.last());
        if k < front.len() {
            a_joined_part_is_there(front, separator, k);
            assert(front[k] == parts[k]);
            let (before, after) = choose|before: Seq<char>, after: Seq<char>|
                start == #[trigger] (before + parts[k] + after);
            assert(text =~= before + parts[k] + (after + separator + parts.last()));
        } else {
            assert(text =~= (start + separator) + parts[k] + none);
        }
    }
}

/// How many beams ended how stands in a run's summary, with the word for it,
/// wherever there are any; and it ends with how long the run took.
pub proof fn a_summary_tells_every_count(
    summary: &RunSummary,
    affected_by: &Option<String>,
    duration: &str,
    r: String,
)
    requires
        call_ensures(summary_label, (summary, affected_by, duration), r),
    ensures
        summary.succeeded@.len() > 0 ==> has_part(
            r@,
            " "@ + decimal(summary.succeeded@.len()) + " "@ + "succeeded"@,
        ),
        summary.cached@.len() > 0 ==> has_part(
            r@,
            " "@ + decimal(summary.cached@.len()) + " "@ + "cached"@,
        ),
        summary.failed@.len() > 0 ==> has_part(
            r@,
            " "@ + decimal(summary.failed@.len()) + " "@ + "failed"@,
        ),
        summary.failed_allowed@.len() > 0 ==> has_part(
            r@,
            " "@ + decimal(summary.failed_allowed@.len()) + " "@ + "failed (allowed)"@,
        ),
        summary.cancelled@.len() > 0 ==> has_part(
            r@,
            " "@ + decimal(summary.cancelled@.len()) + " "@ + "cancelled"@,
        ),
        *affected_by is None || summary.succeeded@.len() > 0 || summary.cached@.len() > 0
            || summary.failed@.len() > 0 || summary.failed_allowed@.len() > 0
            || summary.cancelled@.len() > 0 ==> exists|before: Seq<char>|
            r@ == #[trigger] (before + duration@),
        *affected_by matches Some(reference) ==> (summary.succeeded@.len() == 0
            && summary.cached@.len() == 0 && summary.failed@.len() == 0
            && summary.failed_allowed@.len() == 0 && summary.cancelled@.len() == 0 ==> r@
            == "\u{2713} nothing affected by "@ + reference@),
{
    let s = *summary;
    let parts = summary_parts(s, duration@);
    let sep = " \u{b7} "@;
    let a = counted("\u{2713}"@, s.succeeded@.len(), "succeeded"@);
    let b = counted("\u{26a1}"@, s.cached@.len(), "cached"@);
    let c = counted("\u{2717}"@, s.failed@.len(), "failed"@);
    let d = counted("\u{26a0}"@, s.failed_allowed@.len(), "failed (allowed)"@);
    let e = counted("\u{2298}"@, s.cancelled@.len(), "cancelled"@);
    assert(parts == (a + b + c + d + e).push(duration@));
    let ka = 0int;
    let kb = a.len() as int;
    let kc = (a + b).len() as int;
    let kd = (a + b + c).len() as int;
    let ke = (a + b + c + d).len() as int;
    if s.succeeded@.len() > 0 {
        assert(parts[ka] == a[0]);
        counted_is_there(parts, sep, ka, "\u{2713}"@, s.succeeded@.len(), "succeeded"@);
    }
    if s.cached@.len() > 0 {
        assert(parts[kb] == b[0]);
        counted_is_there(parts, sep, kb, "\u{26a1}"@, s.cached@.len(), "cached"@);
    }
    if s.failed@.len() > 0 {
        assert(parts[kc] == c[0]);
        counted_is_there(parts, sep, kc, "\u{2717}"@, s.failed@.len(), "failed"@);
    }
    if s.failed_allowed@.len() > 0 {
        assert(parts[kd] == d[0]);
        counted_is_there(
            parts,
            sep,
            kd,
            "\u{26a0}"@,
            s.failed_allowed@.len(),
            "failed (allowed)"@,
        );
    }
    if s.cancelled@.len() > 0 {
        assert(parts[ke] == e[0]);
        counted_is_there(parts, sep, ke, "\u{2298}"@, s.cancelled@.len(), "cancelled"@);
    }
    let none = Seq::<char>::empty();
    if parts.len() == 1 {
        assert(joined(parts, sep) =~= none + duration@);
    } else {
        assert(parts.last() == duration@);
        assert(joined(parts, sep) == (joined(parts.drop_last(), sep) + sep) + duration@);
    }
}

proof fn counted_is_there(
    parts: Seq<Seq<char>>,
    separator: Seq<char>,
    k: int,
    mark: Seq<char>,
    count: nat,
    word: Seq<char>,
)
    requires
        0 <= k < parts.len(),
        count > 0,
        parts[k] == counted(mark, count, word)[0],
    ensures
        has_part(joined(parts, separator), " "@ + decimal(count) + " "@ + word),
{
    a_joined_part_is_there(parts, separator, k);
    let text = joined(parts, separator);
    let part = " "@ + decimal(count) + " "@ + word;
    let (before, after) = choose|before: Seq<char>, after: Seq<char>|
        text == #[trigger] (before + parts[k] + after);
    assert(parts[k] =~= mark + part);
    assert(text =~= (before + mark) + part + after);
}

/// How a beam ended is told in words: a failure with its exit code, an
/// allowed failure as one, and each other end by its own word.
pub proof fn an_end_is_told_in_words(status: &BeamStatus, r: String)
    requires
        call_ensures(status_label, (status,), r),
    ensures
        match *status {
            BeamStatus::Succeeded => r@ == "ok"@,
            BeamStatus::Cached => r@ == "cached"@,
            BeamStatus::Failed { exit_code } => r@ == "failed (exit "@ + signed_decimal(
                exit_code as int,
            ) + ")"@,
            BeamStatus::FailedAllowed { .. } => r@ == "failed (allowed)"@,
            BeamStatus::Cancelled => r@ == "cancelled"@,
        },
{
}

/// A beam is always drawn in one colour, whatever else is drawn.
pub proof fn a_beam_has_one_colour(a: &str, b: &str, x: Hue, y: Hue)
    requires
        call_ensures(color_for, (a,), x),
        call_ensures(color_for, (b,), y),
        a@ == b@,
    ensures
        x == y,
{
}

/// Without colour a text is as it is, and with it it stands between what
/// starts and what ends the colour.
pub proof fn dimming_keeps_the_text(text: &str, plain: String, dim: String)
    requires
        call_ensures(dimmed, (text, false), plain),
        call_ensures(dimmed, (text, true), dim),
    ensures
        plain@ == text@,
        has_part(dim@, text@),
{
    assert(dim@ == "\u{1b}[2m"@ + text@ + "\u{1b}[0m"@);
}

/// Every line is shown as it happens, on stdout, with the beam that it came
/// from before it; so are a beam's start and its end, with how it ended and
/// how long it took. The summary goes to stderr. Nothing is held back.
pub proof fn lines_are_shown_as_they_happen(
    renderer: &InterleavedRenderer,
    event: &RunEvent,
    duration: &str,
    r: Vec<Print>,
    label: String,
)
    requires
        call_ensures(InterleavedRenderer::handle, (renderer, event, duration), r),
        !renderer.color,
        *event matches RunEvent::BeamFinished { status, .. } ==> call_ensures(
            status_label,
            (&status,),
            label,
        ),
        *event matches RunEvent::RunFinished { summary } ==> call_ensures(
            summary_label,
            (&summary, &renderer.affected_by, duration),
            label,
        ),
    ensures
        *event matches RunEvent::BeamOutput { id, line, .. } ==> print_views(r@) == seq![
            PrintView::Stdout(id@ + " \u{2502} "@ + line.text@),
        ],
        *event matches RunEvent::BeamStarted { id } ==> print_views(r@) == seq![
            PrintView::Stdout(id@ + " \u{2502} "@ + "started"@),
        ],
        *event matches RunEvent::BeamFinished { id, status, .. } ==> print_views(r@) == seq![
            PrintView::Stdout(id@ + " \u{2502} "@ + (label@ + " in "@ + duration@)),
        ],
        *event matches RunEvent::RunFinished { summary } ==> print_views(r@) == seq![
            PrintView::Stderr(label@),
        ],
        *event matches RunEvent::ProjectBroken { diagnostic } ==> print_views(r@) == seq![
            PrintView::Stderr(trimmed_end(diagnostic@)),
        ],
        *event is WatchTriggered ==> print_views(r@) == if renderer.clear {
            seq![PrintView::Clear]
        } else {
            Seq::<PrintView>::empty()
        },
        *event is RunStarted || *event is AffectedStarted || *event is BeamCached
            || *event is WatchWaiting ==> r@.len() == 0,
{
    assert(print_views(r@).len() == r@.len());
}

/// In colour a line has the beam's name, a bar and the text, all the same.
pub proof fn colour_keeps_name_and_text(
    renderer: &InterleavedRenderer,
    id: &str,
    text: &str,
    r: Print,
)
    requires
        call_ensures(InterleavedRenderer::line, (renderer, id, text), r),
    ensures
        r@ matches PrintView::Stdout(line) && has_part(line, id@) && exists|before: Seq<char>|
            line == #[trigger] (before + (" \u{2502} "@ + text@)),
{
    let line = r@->Stdout_0;
    let none = Seq::<char>::empty();
    let end = " \u{2502} "@ + text@;
    if renderer.color {
        let hue = crate::render::hue_of(id@);
        let open = crate::render::hue_escape(hue);
        let close = "\u{1b}[39m"@;
        assert(line =~= open + id@ + (close + end));
        assert(line =~= (open + id@ + close) + end);
    } else {
        assert(line =~= none + id@ + end);
        assert(line =~= id@ + end);
    }
}

/// In JSON every event is one line on stdout, which is the event's; a broken
/// project is told on stderr too.
pub proof fn every_event_is_one_line_of_json(
    renderer: &JsonRenderer,
    event: &RunEvent,
    r: Vec<Print>,
    line: String,
)
    requires
        call_ensures(JsonRenderer::handle, (renderer, event), r),
        call_ensures(json_line, (event,), line),
    ensures
        r@.len() > 0,
        r@.last()@ == PrintView::Stdout(line@),
        !(*event is ProjectBroken) ==> r@.len() == 1,
        *event matches RunEvent::ProjectBroken { diagnostic } ==> r@.len() == 2 && r@[0]@
            == PrintView::Stderr(trimmed_end(diagnostic@)),
{
    let v = print_views(r@);
    assert(v.len() == r@.len());
    assert(v.last() == r@.last()@);
    assert(v[0] == r@[0]@);
}

proof fn a_group_is_first(groups: Seq<GroupView>, id: Seq<char>)
    ensures
        0 <= group_place(groups, id) <= groups.len(),
        group_place(groups, id) < groups.len() ==> groups[group_place(groups, id)].id == id,
        forall|k: int| 0 <= k < group_place(groups, id) ==> (#[trigger] groups[k]).id != id,
    decreases groups.len(),
{
    if groups.len() > 0 && groups[0].id != id {
        let rest = groups.drop_first();
        a_group_is_first(rest, id);
        assert forall|k: int| 0 <= k < group_place(groups, id) implies (#[trigger] groups[k]).id
            != id by {
            if k > 0 {
                assert(rest[k - 1] == groups[k]);
            }
        }
        if group_place(groups, id) < groups.len() {
            assert(rest[group_place(rest, id)] == groups[group_place(groups, id)]);
        }
    }
}

/// A line that is held back is held for its own beam, after those held
/// before; every other beam's lines stay as they are.
pub proof fn a_line_is_held_for_its_beam(
    groups: Seq<GroupView>,
    id: Seq<char>,
    line: Seq<char>,
    other: Seq<char>,
)
    ensures
        lines_held(with_line(groups, id, line), id) == lines_held(groups, id).push(line),
        other != id ==> lines_held(with_line(groups, id, line), other) == lines_held(groups, other),
        lines_held(with_group(groups, id), other) == lines_held(groups, other),
{
    a_group_is_first(groups, id);
    a_group_is_first(groups, other);
    let after = with_line(groups, id, line);
    let opened = with_group(groups, id);
    a_group_is_first(after, id);
    a_group_is_first(after, other);
    a_group_is_first(opened, other);
    let p = group_place(groups, id);
    assert forall|k: int| 0 <= k < after.len() implies (#[trigger] after[k]).id == opened[k].id by {}
    assert forall|k: int| 0 <= k < groups.len() implies opened[k] == #[trigger] groups[k] by {}
    assert(after[p].id == id);
    if group_place(after, id) < p {
        assert(after[group_place(after, id)].id == groups[group_place(after, id)].id);
    }
    if p < group_place(after, id) {
        assert(after[p].id != id);
    }
    assert(group_place(after, id) == p);
    let q = group_place(groups, other);
    if q < groups.len() {
        let t = group_place(opened, other);
        if t < q {
            assert(opened[t].id == groups[t].id);
        }
        if q < t {
            assert(opened[q].id != other);
        }
        let u = group_place(after, other);
        if u < q {
            assert(after[u].id == groups[u].id);
        }
        if q < u {
            assert(after[q].id != other);
        }
    } else {
        let t = group_place(opened, other);
        if t < opened.len() {
            if t < groups.len() {
                assert(opened[t] == groups[t]);
                assert(groups[t].id != other);
            } else {
                assert(opened[t].lines =~= Seq::<Seq<char>>::empty());
            }
        }
        let u = group_place(after, other);
        if other != id && u < after.len() {
            if u < groups.len() {
                assert(after[u].id == groups[u].id);
                assert(groups[u].id != other);
            }
        }
    }
}

/// The colours that beams are drawn in, in order.
pub open spec fn palette() -> Seq<Hue> {
    seq![Hue::Cyan, Hue::Green, Hue::Yellow, Hue::Blue, Hue::Magenta, Hue::BrightCyan]
}

/// A beam's colour is one of the six, picked by the hash of its name.
pub proof fn a_colour_is_picked_by_the_hash(id: &str, r: Hue)
    requires
        call_ensures(color_for, (id,), r),
    ensures
        palette().contains(r),
        r == palette()[fnv(vstd::utf8::encode_utf8(id@)) as int % palette().len() as int],
{
    let k = fnv(vstd::utf8::encode_utf8(id@)) as int % 6;
    assert(palette()[k] == r);
}

/// The hash starts from the 64-bit offset basis, and a byte changes it by
/// exclusive or and then by the prime, modulo 2^64.
pub proof fn the_hash_takes_byte_after_byte(bytes: Seq<u8>, b: u8)
    ensures
        fnv(Seq::empty()) == 0xcbf2_9ce4_8422_2325u64,
        fnv(bytes.push(b)) as int == ((fnv(bytes) ^ (b as u64)) as int * 0x0000_0100_0000_01b3)
            % 0x1_0000_0000_0000_0000,
{
    assert(bytes.push(b).drop_last() =~= bytes);
}

} // verus!
