//! The three ways a run's events are presented: each beam's output as one
//! block when it ends, every line as it happens, and one JSON object a line.
//!
//! The run's own output goes to stdout and what is said about the run to
//! stderr. Durations come as text.

use vstd::prelude::*;
use vstd::string::*;
use crate::event::{BeamStatus, RunEvent};
use crate::json::{json_line, wire_line};
use crate::render::{
    color_for, coloured, hue_of, paint, print_views, status_label, status_text, summary_label,
    summary_words, Print, PrintView,
};
use crate::sort::{sort_strings, texts_sorted};
use crate::text::{opt_view, same_text, text3, text7, trim_end, trimmed_end, views};

verus! {

/// The lines held back for a beam.
pub struct Group {
    pub id: String,
    pub lines: Vec<String>,
}

pub struct GroupView {
    pub id: Seq<char>,
    pub lines: Seq<Seq<char>>,
}

impl View for Group {
    type V = GroupView;

    open spec fn view(&self) -> GroupView {
        GroupView { id: self.id@, lines: views(self.lines@) }
    }
}

pub open spec fn group_views(groups: Seq<Group>) -> Seq<GroupView> {
    Seq::new(groups.len(), |i: int| groups[i]@)
}

/// The place of a beam's group, or their number where it has none.
pub open spec fn group_place(groups: Seq<GroupView>, id: Seq<char>) -> int
    decreases groups.len(),
{
    if groups.len() == 0 {
        0
    } else if groups[0].id == id {
        0
    } else {
        1 + group_place(groups.drop_first(), id)
    }
}

/// The lines held back for a beam.
pub open spec fn lines_held(groups: Seq<GroupView>, id: Seq<char>) -> Seq<Seq<char>> {
    let p = group_place(groups, id);
    if p < groups.len() {
        groups[p].lines
    } else {
        Seq::empty()
    }
}

/// The groups with one for the beam.
pub open spec fn with_group(groups: Seq<GroupView>, id: Seq<char>) -> Seq<GroupView> {
    if group_place(groups, id) < groups.len() {
        groups
    } else {
        groups.push(GroupView { id, lines: Seq::empty() })
    }
}

/// The groups with one more line held back for the beam.
pub open spec fn with_line(groups: Seq<GroupView>, id: Seq<char>, line: Seq<char>) -> Seq<
    GroupView,
> {
    let p = group_place(groups, id);
    let all = with_group(groups, id);
    all.update(p, GroupView { id: all[p].id, lines: all[p].lines.push(line) })
}

/// The groups without the beam's.
pub open spec fn without_group(groups: Seq<GroupView>, id: Seq<char>) -> Seq<GroupView> {
    let p = group_place(groups, id);
    if p < groups.len() {
        groups.remove(p)
    } else {
        groups
    }
}

/// Lines on stdout.
pub open spec fn on_stdout(lines: Seq<Seq<char>>) -> Seq<PrintView> {
    Seq::new(lines.len(), |i: int| PrintView::Stdout(lines[i]))
}

pub open spec fn group_ids(groups: Seq<GroupView>) -> Seq<Seq<char>> {
    Seq::new(groups.len(), |i: int| groups[i].id)
}

pub open spec fn finished_header(id: Seq<char>, duration: Seq<char>, status: BeamStatus) -> Seq<
    char,
> {
    "\u{2500}\u{2500} "@ + id + " ("@ + duration + ", "@ + status_text(status)
        + ") \u{2500}\u{2500}"@
}

pub open spec fn unfinished_header(id: Seq<char>) -> Seq<char> {
    "\u{2500}\u{2500} "@ + id + " (unfinished) \u{2500}\u{2500}"@
}

/// What a group is shown as.
pub open spec fn shown(groups: Seq<GroupView>, id: Seq<char>, header: Seq<char>) -> Seq<PrintView> {
    seq![PrintView::Stdout(header)] + on_stdout(lines_held(groups, id))
}

/// What the groups of `ids` are shown as, none of them having ended.
pub open spec fn all_unfinished(groups: Seq<GroupView>, ids: Seq<Seq<char>>) -> Seq<PrintView>
    decreases ids.len(),
{
    if ids.len() == 0 {
        Seq::empty()
    } else {
        all_unfinished(groups, ids.drop_last()) + shown(
            groups,
            ids.last(),
            unfinished_header(ids.last()),
        )
    }
}

/// What an event does to the groups, and what is shown for it.
pub open spec fn grouped_step(
    groups: Seq<GroupView>,
    clear: bool,
    affected_by: Option<Seq<char>>,
    event: RunEvent,
    duration: Seq<char>,
) -> (Seq<GroupView>, Seq<PrintView>) {
    match event {
        RunEvent::RunStarted { .. } | RunEvent::AffectedStarted { .. } => (groups, Seq::empty()),
        RunEvent::BeamStarted { id } => (with_group(groups, id@), Seq::empty()),
        RunEvent::BeamCached { id } => (with_group(groups, id@), Seq::empty()),
        RunEvent::BeamOutput { id, line, .. } => (with_line(groups, id@, line.text@), Seq::empty()),
        RunEvent::BeamFinished { id, status, .. } => (
            without_group(groups, id@),
            shown(groups, id@, finished_header(id@, duration, status)),
        ),
        RunEvent::RunFinished { summary } => (
            Seq::empty(),
            all_unfinished(groups, texts_sorted(group_ids(groups))).push(
                PrintView::Stderr(summary_words(summary, affected_by, duration)),
            ),
        ),
        RunEvent::WatchWaiting { .. } => (groups, Seq::empty()),
        RunEvent::WatchTriggered { .. } => (groups, cleared(clear)),
        RunEvent::ProjectBroken { diagnostic } => (
            groups,
            seq![PrintView::Stderr(trimmed_end(diagnostic@))],
        ),
    }
}

/// A triggered run starts on a clean page where the screen may be cleared.
pub open spec fn cleared(clear: bool) -> Seq<PrintView> {
    if clear {
        seq![PrintView::Clear]
    } else {
        Seq::empty()
    }
}

/// Shows each beam's output as one block, under a header, when it ends.
pub struct GroupedRenderer {
    /// The lines of the beams that have not ended.
    pub buffers: Vec<Group>,
    /// Whether a triggered run clears the screen.
    pub clear: bool,
    /// What the run's beams were affected by, where they were chosen by that.
    pub affected_by: Option<String>,
}

fn place(groups: &Vec<Group>, id: &str) -> (r: usize)
    ensures
        r == group_place(group_views(groups@), id@),
        r <= groups@.len(),
        r < groups@.len() ==> groups@[r as int].id@ == id@,
{
    let ghost all = group_views(groups@);
    let mut i: usize = 0;
    assert(all.skip(0) =~= all);
    while i < groups.len()
        invariant
            i <= groups@.len(),
            all == group_views(groups@),
            group_place(all, id@) == i + group_place(all.skip(i as int), id@),
        decreases groups.len() - i,
    {
        assert(all.skip(i as int)[0] == groups@[i as int]@);
        if same_text(groups[i].id.as_str(), id) {
            return i;
        }
        assert(all.skip(i as int).drop_first() =~= all.skip(i + 1));
        i += 1;
    }
    i
}

/// One line on each, in order.
fn print_lines(lines: &Vec<String>, out: &mut Vec<Print>)
    ensures
        print_views(final(out)@) == print_views(old(out)@) + on_stdout(views(lines@)),
{
    let ghost start = print_views(out@);
    let ghost all = on_stdout(views(lines@));
    let mut i: usize = 0;
    assert(print_views(out@) =~= start + all.take(0));
    while i < lines.len()
        invariant
            i <= lines@.len(),
            all == on_stdout(views(lines@)),
            print_views(out@) == start + all.take(i as int),
        decreases lines.len() - i,
    {
        let ghost before = print_views(out@);
        out.push(Print::Stdout(lines[i].clone()));
        assert(print_views(out@) =~= before.push(all[i as int]));
        assert(all.take(i + 1) =~= all.take(i as int).push(all[i as int]));
        assert(print_views(out@) =~= start + all.take(i + 1));
        i += 1;
    }
    assert(all.take(all.len() as int) =~= all);
}

/// A line on stdout and the lines held back for a beam.
fn print_group(groups: &Vec<Group>, id: &str, header: String, out: &mut Vec<Print>)
    ensures
        print_views(final(out)@) == print_views(old(out)@) + shown(
            group_views(groups@),
            id@,
            header@,
        ),
{
    let ghost start = print_views(out@);
    let ghost held = lines_held(group_views(groups@), id@);
    out.push(Print::Stdout(header));
    assert(print_views(out@) =~= start.push(PrintView::Stdout(header@)));
    let p = place(groups, id);
    if p < groups.len() {
        assert(group_views(groups@)[p as int] == groups@[p as int]@);
        print_lines(&groups[p].lines, out);
    }
    assert(print_views(out@) =~= start + (seq![PrintView::Stdout(header@)] + on_stdout(held)));
}

impl GroupedRenderer {
    /// A renderer with nothing held back.
    pub fn new(clear: bool) -> (r: GroupedRenderer)
        ensures
            r.buffers@.len() == 0,
            r.clear == clear,
            r.affected_by is None,
    {
        GroupedRenderer { buffers: Vec::new(), clear, affected_by: None }
    }

    /// The same for a run of what changed since `reference`.
    pub fn with_reference(self, reference: Option<String>) -> (r: GroupedRenderer)
        ensures
            r.buffers@ == self.buffers@,
            r.clear == self.clear,
            opt_view(r.affected_by) == opt_view(reference),
    {
        GroupedRenderer { buffers: self.buffers, clear: self.clear, affected_by: reference }
    }

    /// What to write for an event, `duration` being how long what ended took.
    pub fn handle(&mut self, event: &RunEvent, duration: &str) -> (r: Vec<Print>)
        ensures
            (group_views(final(self).buffers@), print_views(r@)) == grouped_step(
                group_views(old(self).buffers@),
                old(self).clear,
                opt_view(old(self).affected_by),
                *event,
                duration@,
            ),
            final(self).clear == old(self).clear,
            final(self).affected_by == old(self).affected_by,
    {
        let mut out: Vec<Print> = Vec::new();
        assert(print_views(out@) =~= Seq::<PrintView>::empty());
        match event {
            RunEvent::RunStarted { .. } | RunEvent::AffectedStarted { .. } => {},
            RunEvent::BeamStarted { id } => {
                self.open(id.0.as_str());
            },
            RunEvent::BeamCached { id } => {
                self.open(id.0.as_str());
            },
            RunEvent::BeamOutput { id, line, .. } => {
                self.hold(id.0.as_str(), line.text.clone());
            },
            RunEvent::BeamFinished { id, status, .. } => {
                let header = text7(
                    "\u{2500}\u{2500} ",
                    id.0.as_str(),
                    " (",
                    duration,
                    ", ",
                    status_label(status).as_str(),
                    ") \u{2500}\u{2500}",
                );
                print_group(&self.buffers, id.0.as_str(), header, &mut out);
                let ghost all = group_views(self.buffers@);
                assert(print_views(out@) =~= shown(all, id@, header@));
                self.close(id.0.as_str());
            },
            RunEvent::RunFinished { summary } => {
                self.drain(&mut out);
                let ghost before = print_views(out@);
                out.push(
                    Print::Stderr(summary_label(summary, &self.affected_by, duration)),
                );
                assert(print_views(out@) =~= before.push(out@.last()@));
            },
            RunEvent::WatchWaiting { .. } => {},
            RunEvent::WatchTriggered { .. } => {
                if self.clear {
                    out.push(Print::Clear);
                }
                assert(print_views(out@) =~= cleared(self.clear));
            },
            RunEvent::ProjectBroken { diagnostic } => {
                out.push(Print::Stderr(trim_end(diagnostic.as_str())));
                assert(print_views(out@) =~= seq![PrintView::Stderr(trimmed_end(diagnostic@))]);
            },
        }
        out
    }

    fn open(&mut self, id: &str)
        ensures
            group_views(final(self).buffers@) == with_group(group_views(old(self).buffers@), id@),
            final(self).clear == old(self).clear,
            final(self).affected_by == old(self).affected_by,
    {
        let p = place(&self.buffers, id);
        if p == self.buffers.len() {
            let ghost before = group_views(self.buffers@);
            let group = Group { id: id.to_owned(), lines: Vec::new() };
            assert(group@.lines =~= Seq::<Seq<char>>::empty());
            self.buffers.push(group);
            assert(group_views(self.buffers@) =~= before.push(group@));
        }
    }

    fn hold(&mut self, id: &str, line: String)
        ensures
            group_views(final(self).buffers@) == with_line(
                group_views(old(self).buffers@),
                id@,
                line@,
            ),
            final(self).clear == old(self).clear,
            final(self).affected_by == old(self).affected_by,
    {
        let p = place(&self.buffers, id);
        self.open(id);
        let ghost all = group_views(self.buffers@);
        assert(all.len() == self.buffers@.len());
        let mut group = self.buffers.remove(p);
        assert(all[p as int] == group@);
        let ghost held = views(group.lines@);
        group.lines.push(line);
        assert(views(group.lines@) =~= held.push(line@));
        self.buffers.insert(p, group);
        assert(group_views(self.buffers@) =~= all.update(p as int, group@));
    }

    fn close(&mut self, id: &str)
        ensures
            group_views(final(self).buffers@) == without_group(
                group_views(old(self).buffers@),
                id@,
            ),
            final(self).clear == old(self).clear,
            final(self).affected_by == old(self).affected_by,
    {
        let ghost all = group_views(self.buffers@);
        let p = place(&self.buffers, id);
        if p < self.buffers.len() {
            self.buffers.remove(p);
            assert(group_views(self.buffers@) =~= all.remove(p as int));
        }
    }

    /// Shows every group, in the order of their ids, and forgets them.
    fn drain(&mut self, out: &mut Vec<Print>)
        requires
            old(out)@.len() == 0,
        ensures
            group_views(final(self).buffers@) == Seq::<GroupView>::empty(),
            print_views(final(out)@) == all_unfinished(
                group_views(old(self).buffers@),
                texts_sorted(group_ids(group_views(old(self).buffers@))),
            ),
            final(self).clear == old(self).clear,
            final(self).affected_by == old(self).affected_by,
    {
        let ghost all = group_views(self.buffers@);
        let mut ids: Vec<String> = Vec::new();
        let mut i: usize = 0;
        while i < self.buffers.len()
            invariant
                i <= self.buffers@.len(),
                all == group_views(self.buffers@),
                views(ids@) == group_ids(all).take(i as int),
            decreases self.buffers.len() - i,
        {
            let ghost before = views(ids@);
            ids.push(self.buffers[i].id.clone());
            assert(all[i as int] == self.buffers@[i as int]@);
            assert(views(ids@) =~= before.push(group_ids(all)[i as int]));
            assert(group_ids(all).take(i + 1) =~= before.push(group_ids(all)[i as int]));
            i += 1;
        }
        assert(group_ids(all).take(all.len() as int) =~= group_ids(all));
        let ids = sort_strings(ids);
        let ghost order = views(ids@);
        let mut i: usize = 0;
        assert(print_views(out@) =~= all_unfinished(all, order.take(0)));
        while i < ids.len()
            invariant
                i <= ids@.len(),
                order == views(ids@),
                all == group_views(self.buffers@),
                print_views(out@) == all_unfinished(all, order.take(i as int)),
            decreases ids.len() - i,
        {
            let id = ids[i].as_str();
            assert(order.take(i + 1).drop_last() =~= order.take(i as int));
            assert(order.take(i + 1).last() == id@);
            let header = text3(
                "\u{2500}\u{2500} ",
                id,
                " (unfinished) \u{2500}\u{2500}",
            );
            print_group(&self.buffers, id, header, out);
            i += 1;
        }
        assert(order.take(order.len() as int) =~= order);
        self.buffers.clear();
        assert(group_views(self.buffers@) =~= Seq::<GroupView>::empty());
    }
}

/// A beam's name before a line, in its colour where colour is wanted.
pub open spec fn prefixed(id: Seq<char>, color: bool, text: Seq<char>) -> Seq<char> {
    (if color {
        coloured(id, hue_of(id))
    } else {
        id
    }) + " \u{2502} "@ + text
}

/// What is shown for an event as it happens.
pub open spec fn interleaved_step(
    color: bool,
    clear: bool,
    affected_by: Option<Seq<char>>,
    event: RunEvent,
    duration: Seq<char>,
) -> Seq<PrintView> {
    match event {
        RunEvent::BeamStarted { id } => seq![PrintView::Stdout(prefixed(id@, color, "started"@))],
        RunEvent::BeamOutput { id, line, .. } => seq![
            PrintView::Stdout(prefixed(id@, color, line.text@)),
        ],
        RunEvent::BeamFinished { id, status, .. } => seq![
            PrintView::Stdout(
                prefixed(id@, color, status_text(status) + " in "@ + duration),
            ),
        ],
        RunEvent::RunFinished { summary } => seq![
            PrintView::Stderr(summary_words(summary, affected_by, duration)),
        ],
        RunEvent::WatchTriggered { .. } => cleared(clear),
        RunEvent::ProjectBroken { diagnostic } => seq![
            PrintView::Stderr(trimmed_end(diagnostic@)),
        ],
        RunEvent::RunStarted { .. } | RunEvent::AffectedStarted { .. } | RunEvent::BeamCached {
            ..
        } | RunEvent::WatchWaiting { .. } => Seq::empty(),
    }
}

/// Shows every line as it happens, with the beam it came from before it.
pub struct InterleavedRenderer {
    pub color: bool,
    /// Whether a triggered run clears the screen.
    pub clear: bool,
    /// What the run's beams were affected by, where they were chosen by that.
    pub affected_by: Option<String>,
}

impl InterleavedRenderer {
    /// A renderer that draws names in colour or not.
    pub fn new(color: bool, clear: bool) -> (r: InterleavedRenderer)
        ensures
            r.color == color,
            r.clear == clear,
            r.affected_by is None,
    {
        InterleavedRenderer { color, clear, affected_by: None }
    }

    /// The same for a run of what changed since `reference`.
    pub fn with_reference(self, reference: Option<String>) -> (r: InterleavedRenderer)
        ensures
            r.color == self.color,
            r.clear == self.clear,
            opt_view(r.affected_by) == opt_view(reference),
    {
        InterleavedRenderer { color: self.color, clear: self.clear, affected_by: reference }
    }

    /// A line with the beam's name before it.
    pub fn line(&self, id: &str, text: &str) -> (r: Print)
        ensures
            r@ == PrintView::Stdout(prefixed(id@, self.color, text@)),
    {
        if self.color {
            Print::Stdout(text3(paint(id, color_for(id)).as_str(), " \u{2502} ", text))
        } else {
            Print::Stdout(text3(id, " \u{2502} ", text))
        }
    }

    /// What to write for an event, `duration` being how long what ended took.
    pub fn handle(&self, event: &RunEvent, duration: &str) -> (r: Vec<Print>)
        ensures
            print_views(r@) == interleaved_step(
                self.color,
                self.clear,
                opt_view(self.affected_by),
                *event,
                duration@,
            ),
    {
        let mut out: Vec<Print> = Vec::new();
        match event {
            RunEvent::BeamStarted { id } => out.push(self.line(id.0.as_str(), "started")),
            RunEvent::BeamOutput { id, line, .. } => out.push(
                self.line(id.0.as_str(), line.text.as_str()),
            ),
            RunEvent::BeamFinished { id, status, .. } => {
                let text = text3(status_label(status).as_str(), " in ", duration);
                out.push(self.line(id.0.as_str(), text.as_str()));
            },
            RunEvent::RunFinished { summary } => out.push(
                Print::Stderr(summary_label(summary, &self.affected_by, duration)),
            ),
            RunEvent::WatchTriggered { .. } => {
                if self.clear {
                    out.push(Print::Clear);
                }
            },
            RunEvent::ProjectBroken { diagnostic } => out.push(
                Print::Stderr(trim_end(diagnostic.as_str())),
            ),
            RunEvent::RunStarted { .. } | RunEvent::AffectedStarted { .. } | RunEvent::BeamCached {
                ..
            } | RunEvent::WatchWaiting { .. } => {},
        }
        assert(print_views(out@) =~= interleaved_step(
            self.color,
            self.clear,
            opt_view(self.affected_by),
            *event,
            duration@,
        ));
        out
    }
}

/// What a program that reads JSON gets for an event: a line on stdout, and
/// the diagnostic of a project that no longer loads on stderr as well.
pub open spec fn json_step(event: RunEvent) -> Seq<PrintView> {
    match event {
        RunEvent::ProjectBroken { diagnostic } => seq![
            PrintView::Stderr(trimmed_end(diagnostic@)),
            PrintView::Stdout(wire_line(event)),
        ],
        _ => seq![PrintView::Stdout(wire_line(event))],
    }
}

/// Shows every event as one JSON object a line.
pub struct JsonRenderer {

}

impl JsonRenderer {
    pub fn new() -> (r: JsonRenderer)
        ensures
            r == (JsonRenderer {  }),
    {
        JsonRenderer {  }
    }

    /// What to write for an event.
    pub fn handle(&self, event: &RunEvent) -> (r: Vec<Print>)
        ensures
            print_views(r@) == json_step(*event),
    {
        let mut out: Vec<Print> = Vec::new();
        if let RunEvent::ProjectBroken { diagnostic } = event {
            out.push(Print::Stderr(trim_end(diagnostic.as_str())));
        }
        out.push(Print::Stdout(json_line(event)));
        assert(print_views(out@) =~= json_step(*event));
        out
    }
}

} // verus!
