//! What holds of a grouped presentation from its first event to its last.

use vstd::prelude::*;
use crate::event::RunEvent;
use crate::render::PrintView;
use crate::renderers::{
    all_unfinished, group_ids, group_place, grouped_step, lines_held, on_stdout, shown,
    unfinished_header, with_group, with_line, without_group, GroupView,
};
use crate::sort::{texts_sorted, texts_sorted_sorts};

verus! {

/// The groups after `events`, each with its duration, and all that was shown.
pub open spec fn grouped_run(
    clear: bool,
    affected_by: Option<Seq<char>>,
    events: Seq<(RunEvent, Seq<char>)>,
) -> (Seq<GroupView>, Seq<PrintView>)
    decreases events.len(),
{
    if events.len() == 0 {
        (Seq::empty(), Seq::empty())
    } else {
        let before = grouped_run(clear, affected_by, events.drop_last());
        let step = grouped_step(
            before.0,
            clear,
            affected_by,
            events.last().0,
            events.last().1,
        );
        (step.0, before.1 + step.1)
    }
}

/// What a beam wrote since it last ended, or since a run last ended.
pub open spec fn written_since(events: Seq<(RunEvent, Seq<char>)>, id: Seq<char>) -> Seq<Seq<char>>
    decreases events.len(),
{
    if events.len() == 0 {
        Seq::empty()
    } else {
        let before = written_since(events.drop_last(), id);
        match events.last().0 {
            RunEvent::BeamOutput { id: beam, line, .. } => if beam@ == id {
                before.push(line.text@)
            } else {
                before
            },
            RunEvent::BeamFinished { id: beam, .. } => if beam@ == id {
                Seq::empty()
            } else {
                before
            },
            RunEvent::RunFinished { .. } => Seq::empty(),
            _ => before,
        }
    }
}

/// No two groups are of one beam.
pub(crate) open spec fn apart(groups: Seq<GroupView>) -> bool {
    forall|i: int, j: int|
        #![trigger groups[i], groups[j]]
        0 <= i < j < groups.len() ==> groups[i].id != groups[j].id
}

pub(crate) proof fn place_fits(groups: Seq<GroupView>, id: Seq<char>)
    ensures
        0 <= group_place(groups, id) <= groups.len(),
        group_place(groups, id) < groups.len() ==> groups[group_place(groups, id)].id == id,
        forall|k: int| 0 <= k < group_place(groups, id) ==> (#[trigger] groups[k]).id != id,
    decreases groups.len(),
{
    if groups.len() > 0 && groups[0].id != id {
        let rest = groups.drop_first();
        place_fits(rest, id);
        assert forall|k: int| 0 <= k < group_place(groups, id) implies (#[trigger] groups[k]).id
            != id by {
            if k > 0 {
                assert(rest[k - 1] == groups[k]);
            }
        }
    }
}

/// Where no two groups are of one beam, a beam's group is where it is found.
proof fn place_is(groups: Seq<GroupView>, id: Seq<char>, p: int)
    requires
        apart(groups),
        0 <= p < groups.len(),
        groups[p].id == id,
    ensures
        group_place(groups, id) == p,
{
    place_fits(groups, id);
}

proof fn absent(groups: Seq<GroupView>, id: Seq<char>)
    requires
        forall|k: int| 0 <= k < groups.len() ==> (#[trigger] groups[k]).id != id,
    ensures
        group_place(groups, id) == groups.len(),
{
    place_fits(groups, id);
}

pub(crate) proof fn held_with_group(groups: Seq<GroupView>, id: Seq<char>, other: Seq<char>)
    requires
        apart(groups),
    ensures
        apart(with_group(groups, id)),
        lines_held(with_group(groups, id), other) == lines_held(groups, other),
{
    place_fits(groups, id);
    place_fits(groups, other);
    let all = with_group(groups, id);
    place_fits(all, other);
    let p = group_place(groups, other);
    let q = group_place(all, other);
    if p < groups.len() {
        place_is(all, other, p);
    } else if q < all.len() {
        if q < groups.len() {
            place_is(groups, other, q);
        }
    }
}

pub(crate) proof fn held_with_line(groups: Seq<GroupView>, id: Seq<char>, line: Seq<char>, other: Seq<char>)
    requires
        apart(groups),
    ensures
        apart(with_line(groups, id, line)),
        lines_held(with_line(groups, id, line), other) == if other == id {
            lines_held(groups, id).push(line)
        } else {
            lines_held(groups, other)
        },
{
    held_with_group(groups, id, other);
    place_fits(groups, id);
    let all = with_group(groups, id);
    let p = group_place(groups, id);
    assert(all[p].id == id);
    place_is(all, id, p);
    let r = with_line(groups, id, line);
    assert forall|i: int, j: int|
        #![trigger r[i], r[j]]
        0 <= i < j < r.len() implies r[i].id != r[j].id by {
        assert(all[i].id != all[j].id);
    }
    if other == id {
        place_is(r, id, p);
        assert(lines_held(all, id) == lines_held(groups, id));
    } else {
        place_fits(all, other);
        let q = group_place(all, other);
        if q < all.len() {
            place_is(r, other, q);
        } else {
            assert forall|k: int| 0 <= k < r.len() implies (#[trigger] r[k]).id != other by {
                assert(all[k].id != other);
            }
            absent(r, other);
        }
    }
}

pub(crate) proof fn held_without_group(groups: Seq<GroupView>, id: Seq<char>, other: Seq<char>)
    requires
        apart(groups),
    ensures
        apart(without_group(groups, id)),
        lines_held(without_group(groups, id), other) == if other == id {
            Seq::empty()
        } else {
            lines_held(groups, other)
        },
{
    place_fits(groups, id);
    place_fits(groups, other);
    let p = group_place(groups, id);
    let r = without_group(groups, id);
    if p < groups.len() {
        assert forall|i: int, j: int|
            #![trigger r[i], r[j]]
            0 <= i < j < r.len() implies r[i].id != r[j].id by {
            let a = if i < p {
                i
            } else {
                i + 1
            };
            let b = if j < p {
                j
            } else {
                j + 1
            };
            assert(groups[a].id != groups[b].id);
        }
        let q = group_place(groups, other);
        if other == id || q == groups.len() {
            assert forall|k: int| 0 <= k < r.len() implies (#[trigger] r[k]).id != other by {
                let a = if k < p {
                    k
                } else {
                    k + 1
                };
                assert(r[k] == groups[a]);
                if other == id {
                    if a < p {
                        assert(groups[a].id != groups[p].id);
                    } else {
                        assert(groups[p].id != groups[a].id);
                    }
                }
            }
            absent(r, other);
        } else if q < p {
            place_is(r, other, q);
        } else {
            assert(r[q - 1] == groups[q]);
            place_is(r, other, q - 1);
        }
    }
}

/// What is held back for a beam is what it wrote since it last ended, in
/// order: a block shows that and nothing else.
pub proof fn a_block_is_what_the_beam_wrote(
    clear: bool,
    affected_by: Option<Seq<char>>,
    events: Seq<(RunEvent, Seq<char>)>,
    id: Seq<char>,
)
    ensures
        lines_held(grouped_run(clear, affected_by, events).0, id) == written_since(events, id),
{
    held_is_written(clear, affected_by, events, id);
}

pub(crate) proof fn held_is_written(
    clear: bool,
    affected_by: Option<Seq<char>>,
    events: Seq<(RunEvent, Seq<char>)>,
    id: Seq<char>,
)
    ensures
        apart(grouped_run(clear, affected_by, events).0),
        lines_held(grouped_run(clear, affected_by, events).0, id) == written_since(events, id),
    decreases events.len(),
{
    if events.len() > 0 {
        held_is_written(clear, affected_by, events.drop_last(), id);
        let groups = grouped_run(clear, affected_by, events.drop_last()).0;
        match events.last().0 {
            RunEvent::BeamStarted { id: beam } => {
                held_with_group(groups, beam@, id);
            },
            RunEvent::BeamCached { id: beam } => {
                held_with_group(groups, beam@, id);
            },
            RunEvent::BeamOutput { id: beam, line, .. } => {
                held_with_line(groups, beam@, line.text@, id);
            },
            RunEvent::BeamFinished { id: beam, .. } => {
                held_without_group(groups, beam@, id);
            },
            _ => {},
        }
    }
}

/// Every line of a block is shown.
proof fn block_shown(groups: Seq<GroupView>, id: Seq<char>, header: Seq<char>, line: Seq<char>)
    requires
        lines_held(groups, id).contains(line),
    ensures
        shown(groups, id, header).contains(PrintView::Stdout(line)),
{
    let held = lines_held(groups, id);
    let k = choose|k: int| 0 <= k < held.len() && held[k] == line;
    assert(shown(groups, id, header)[k + 1] == on_stdout(held)[k]);
}

proof fn unfinished_shown(
    groups: Seq<GroupView>,
    ids: Seq<Seq<char>>,
    id: Seq<char>,
    line: Seq<char>,
)
    requires
        ids.contains(id),
        lines_held(groups, id).contains(line),
    ensures
        all_unfinished(groups, ids).contains(PrintView::Stdout(line)),
    decreases ids.len(),
{
    let last = ids.last();
    let block = shown(groups, last, unfinished_header(last));
    let front = all_unfinished(groups, ids.drop_last());
    if last == id {
        block_shown(groups, id, unfinished_header(id), line);
        let k = choose|k: int| 0 <= k < block.len() && block[k] == PrintView::Stdout(line);
        assert((front + block)[front.len() + k] == block[k]);
    } else {
        let k = choose|k: int| 0 <= k < ids.len() && ids[k] == id;
        assert(ids.drop_last()[k] == id);
        unfinished_shown(groups, ids.drop_last(), id, line);
        let m = choose|m: int| 0 <= m < front.len() && front[m] == PrintView::Stdout(line);
        assert((front + block)[m] == front[m]);
    }
}

/// A line was shown, or is held back still.
spec fn safe(state: (Seq<GroupView>, Seq<PrintView>), id: Seq<char>, line: Seq<char>) -> bool {
    state.1.contains(PrintView::Stdout(line)) || lines_held(state.0, id).contains(line)
}

proof fn stays_safe(
    clear: bool,
    affected_by: Option<Seq<char>>,
    events: Seq<(RunEvent, Seq<char>)>,
    id: Seq<char>,
    line: Seq<char>,
)
    requires
        events.len() > 0,
        safe(grouped_run(clear, affected_by, events.drop_last()), id, line) || (
        events.last().0 matches RunEvent::BeamOutput { id: beam, line: written, .. } && beam@ == id
            && written.text@ == line),
    ensures
        safe(grouped_run(clear, affected_by, events), id, line),
        events.last().0 is RunFinished ==> grouped_run(clear, affected_by, events).1.contains(
            PrintView::Stdout(line),
        ),
{
    let before = grouped_run(clear, affected_by, events.drop_last());
    let after = grouped_run(clear, affected_by, events);
    let step = grouped_step(
        before.0,
        clear,
        affected_by,
        events.last().0,
        events.last().1,
    );
    held_is_written(clear, affected_by, events.drop_last(), id);
    let target = PrintView::Stdout(line);
    if before.1.contains(target) {
        let k = choose|k: int| 0 <= k < before.1.len() && before.1[k] == target;
        assert(after.1[k] == target);
    } else {
        let groups = before.0;
        match events.last().0 {
            RunEvent::BeamStarted { id: beam } => {
                held_with_group(groups, beam@, id);
            },
            RunEvent::BeamCached { id: beam } => {
                held_with_group(groups, beam@, id);
            },
            RunEvent::BeamOutput { id: beam, line: written, .. } => {
                held_with_line(groups, beam@, written.text@, id);
                let held = lines_held(groups, id);
                if beam@ == id {
                    if held.contains(line) {
                        let k = choose|k: int| 0 <= k < held.len() && held[k] == line;
                        assert(held.push(written.text@)[k] == line);
                    } else {
                        assert(held.push(written.text@)[held.len() as int] == line);
                    }
                }
            },
            RunEvent::BeamFinished { id: beam, status, .. } => {
                held_without_group(groups, beam@, id);
                if beam@ == id {
                    let header = crate::renderers::finished_header(id, events.last().1, status);
                    block_shown(groups, id, header, line);
                    let k = choose|k: int| 0 <= k < step.1.len() && step.1[k] == target;
                    assert(after.1[before.1.len() + k] == target);
                }
            },
            RunEvent::RunFinished { .. } => {
                let ids = group_ids(groups);
                place_fits(groups, id);
                assert(ids[group_place(groups, id)] == id);
                texts_sorted_sorts(ids);
                ids.to_multiset_ensures();
                texts_sorted(ids).to_multiset_ensures();
                assert(ids.contains(id));
                assert(texts_sorted(ids).to_multiset().count(id) > 0);
                assert(texts_sorted(ids).contains(id));
                unfinished_shown(groups, texts_sorted(ids), id, line);
                let block = all_unfinished(groups, texts_sorted(ids));
                let k = choose|k: int| 0 <= k < block.len() && block[k] == target;
                assert(step.1[k] == target);
                assert(after.1[before.1.len() + k] == target);
            },
            _ => {},
        }
    }
}

/// Holding output back never loses any: once a run has ended, every line that
/// a beam wrote during it was shown, whether or not the beam is known to have
/// ended.
pub proof fn no_line_is_lost(
    clear: bool,
    affected_by: Option<Seq<char>>,
    events: Seq<(RunEvent, Seq<char>)>,
    written: int,
    ended: int,
)
    requires
        0 <= written < ended < events.len(),
        events[written].0 is BeamOutput,
        events[ended].0 is RunFinished,
    ensures
        grouped_run(clear, affected_by, events.take(ended + 1)).1.contains(
            PrintView::Stdout(events[written].0->BeamOutput_line.text@),
        ),
{
    let id = events[written].0->BeamOutput_id@;
    let line = events[written].0->BeamOutput_line.text@;
    safe_until(clear, affected_by, events, written, ended);
    assert(events.take(ended + 1).drop_last() =~= events.take(ended));
    stays_safe(clear, affected_by, events.take(ended + 1), id, line);
}

proof fn safe_until(
    clear: bool,
    affected_by: Option<Seq<char>>,
    events: Seq<(RunEvent, Seq<char>)>,
    written: int,
    n: int,
)
    requires
        0 <= written < n <= events.len(),
        events[written].0 is BeamOutput,
    ensures
        safe(
            grouped_run(clear, affected_by, events.take(n)),
            events[written].0->BeamOutput_id@,
            events[written].0->BeamOutput_line.text@,
        ),
    decreases n,
{
    let id = events[written].0->BeamOutput_id@;
    let line = events[written].0->BeamOutput_line.text@;
    if n > written + 1 {
        safe_until(clear, affected_by, events, written, n - 1);
    }
    assert(events.take(n).drop_last() =~= events.take(n - 1));
    stays_safe(clear, affected_by, events.take(n), id, line);
}

} // verus!
