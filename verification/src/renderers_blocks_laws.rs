//! A grouped presentation is its blocks: each line that a beam writes is in
//! one of them, once.

use vstd::prelude::*;
use crate::event::RunEvent;
use crate::render::PrintView;
use crate::renderers::{
    all_unfinished, finished_header, group_ids, group_place, grouped_step, lines_held, on_stdout,
    shown, unfinished_header, GroupView,
};
use crate::renderers_laws::{
    apart, grouped_run, held_is_written, held_with_group, held_with_line, held_without_group,
    place_fits,
};
use crate::sort::{text_sorted, texts_sorted, texts_sorted_sorts};

verus! {

/// A header and the lines under it, all of one beam.
pub struct Block {
    pub id: Seq<char>,
    pub header: Seq<char>,
    pub lines: Seq<Seq<char>>,
}

pub open spec fn block_of(groups: Seq<GroupView>, id: Seq<char>, header: Seq<char>) -> Block {
    Block { id, header, lines: lines_held(groups, id) }
}

/// The blocks of beams that have not ended.
pub open spec fn unfinished_blocks(groups: Seq<GroupView>, ids: Seq<Seq<char>>) -> Seq<Block> {
    Seq::new(ids.len(), |i: int| block_of(groups, ids[i], unfinished_header(ids[i])))
}

/// The blocks that an event shows: the one of a beam that ends, and at the
/// end of a run those of the beams that have not ended.
pub open spec fn step_blocks(
    groups: Seq<GroupView>,
    event: RunEvent,
    duration: Seq<char>,
) -> Seq<Block> {
    match event {
        RunEvent::BeamFinished { id, status, .. } => seq![
            block_of(groups, id@, finished_header(id@, duration, status)),
        ],
        RunEvent::RunFinished { .. } => unfinished_blocks(
            groups,
            texts_sorted(group_ids(groups)),
        ),
        _ => Seq::empty(),
    }
}

/// All blocks that `events` show.
pub open spec fn blocks(
    clear: bool,
    affected_by: Option<Seq<char>>,
    events: Seq<(RunEvent, Seq<char>)>,
) -> Seq<Block>
    decreases events.len(),
{
    if events.len() == 0 {
        Seq::empty()
    } else {
        let before = events.drop_last();
        blocks(clear, affected_by, before) + step_blocks(
            grouped_run(clear, affected_by, before).0,
            events.last().0,
            events.last().1,
        )
    }
}

/// The blocks' lines, each block under its header.
pub open spec fn laid_out(all: Seq<Block>) -> Seq<Seq<char>>
    decreases all.len(),
{
    if all.len() == 0 {
        Seq::empty()
    } else {
        laid_out(all.drop_last()) + (seq![all.last().header] + all.last().lines)
    }
}

/// What goes to stdout.
pub open spec fn stdout_of(prints: Seq<PrintView>) -> Seq<Seq<char>>
    decreases prints.len(),
{
    if prints.len() == 0 {
        Seq::empty()
    } else {
        let before = stdout_of(prints.drop_last());
        match prints.last() {
            PrintView::Stdout(line) => before.push(line),
            _ => before,
        }
    }
}

/// The lines of a beam's blocks, in order.
pub open spec fn lines_from(all: Seq<Block>, id: Seq<char>) -> Seq<Seq<char>>
    decreases all.len(),
{
    if all.len() == 0 {
        Seq::empty()
    } else if all.last().id == id {
        lines_from(all.drop_last(), id) + all.last().lines
    } else {
        lines_from(all.drop_last(), id)
    }
}

/// Every line that a beam wrote, in order.
pub open spec fn all_written(events: Seq<(RunEvent, Seq<char>)>, id: Seq<char>) -> Seq<Seq<char>>
    decreases events.len(),
{
    if events.len() == 0 {
        Seq::empty()
    } else {
        let before = all_written(events.drop_last(), id);
        match events.last().0 {
            RunEvent::BeamOutput { id: beam, line, .. } => if beam@ == id {
                before.push(line.text@)
            } else {
                before
            },
            _ => before,
        }
    }
}

proof fn stdout_of_both(a: Seq<PrintView>, b: Seq<PrintView>)
    ensures
        stdout_of(a + b) == stdout_of(a) + stdout_of(b),
    decreases b.len(),
{
    if b.len() == 0 {
        assert(a + b =~= a);
        assert(stdout_of(a) + stdout_of(b) =~= stdout_of(a));
    } else {
        assert((a + b).drop_last() =~= a + b.drop_last());
        stdout_of_both(a, b.drop_last());
        assert(stdout_of(a + b) =~= stdout_of(a) + stdout_of(b));
    }
}

proof fn stdout_of_lines(lines: Seq<Seq<char>>)
    ensures
        stdout_of(on_stdout(lines)) == lines,
    decreases lines.len(),
{
    if lines.len() > 0 {
        assert(on_stdout(lines).drop_last() =~= on_stdout(lines.drop_last()));
        stdout_of_lines(lines.drop_last());
        assert(lines =~= lines.drop_last().push(lines.last()));
    } else {
        assert(stdout_of(on_stdout(lines)) =~= lines);
    }
}

proof fn laid_out_both(a: Seq<Block>, b: Seq<Block>)
    ensures
        laid_out(a + b) == laid_out(a) + laid_out(b),
    decreases b.len(),
{
    if b.len() == 0 {
        assert(a + b =~= a);
        assert(laid_out(a) + laid_out(b) =~= laid_out(a));
    } else {
        assert((a + b).drop_last() =~= a + b.drop_last());
        laid_out_both(a, b.drop_last());
        assert(laid_out(a + b) =~= laid_out(a) + laid_out(b));
    }
}

proof fn lines_from_both(a: Seq<Block>, b: Seq<Block>, id: Seq<char>)
    ensures
        lines_from(a + b, id) == lines_from(a, id) + lines_from(b, id),
    decreases b.len(),
{
    if b.len() == 0 {
        assert(a + b =~= a);
        assert(lines_from(a, id) + lines_from(b, id) =~= lines_from(a, id));
    } else {
        assert((a + b).drop_last() =~= a + b.drop_last());
        lines_from_both(a, b.drop_last(), id);
        assert(lines_from(a + b, id) =~= lines_from(a, id) + lines_from(b, id));
    }
}

/// A group is shown as its block.
proof fn shown_is_a_block(groups: Seq<GroupView>, id: Seq<char>, header: Seq<char>)
    ensures
        stdout_of(shown(groups, id, header)) == laid_out(seq![block_of(groups, id, header)]),
{
    let held = lines_held(groups, id);
    let first = seq![PrintView::Stdout(header)];
    stdout_of_both(first, on_stdout(held));
    stdout_of_lines(held);
    reveal_with_fuel(stdout_of, 2);
    assert(first.drop_last() =~= Seq::<PrintView>::empty());
    assert(stdout_of(first) =~= seq![header]);
    let one = seq![block_of(groups, id, header)];
    assert(one.drop_last() =~= Seq::<Block>::empty());
    assert(laid_out(one.drop_last()) =~= Seq::<Seq<char>>::empty());
    assert(laid_out(one) =~= seq![header] + held);
}

proof fn unfinished_are_blocks(groups: Seq<GroupView>, ids: Seq<Seq<char>>)
    ensures
        stdout_of(all_unfinished(groups, ids)) == laid_out(unfinished_blocks(groups, ids)),
    decreases ids.len(),
{
    let all = unfinished_blocks(groups, ids);
    if ids.len() == 0 {
        assert(all =~= Seq::<Block>::empty());
    } else {
        let front = ids.drop_last();
        let header = unfinished_header(ids.last());
        unfinished_are_blocks(groups, front);
        shown_is_a_block(groups, ids.last(), header);
        stdout_of_both(all_unfinished(groups, front), shown(groups, ids.last(), header));
        assert(all =~= unfinished_blocks(groups, front) + seq![
            block_of(groups, ids.last(), header),
        ]);
        laid_out_both(
            unfinished_blocks(groups, front),
            seq![block_of(groups, ids.last(), header)],
        );
    }
}

/// What an event shows on stdout is its blocks.
proof fn a_step_is_its_blocks(
    groups: Seq<GroupView>,
    clear: bool,
    affected_by: Option<Seq<char>>,
    event: RunEvent,
    duration: Seq<char>,
)
    ensures
        stdout_of(grouped_step(groups, clear, affected_by, event, duration).1) == laid_out(
            step_blocks(groups, event, duration),
        ),
{
    let prints = grouped_step(groups, clear, affected_by, event, duration).1;
    match event {
        RunEvent::BeamFinished { id, status, .. } => {
            shown_is_a_block(groups, id@, finished_header(id@, duration, status));
        },
        RunEvent::RunFinished { summary } => {
            let ids = texts_sorted(group_ids(groups));
            unfinished_are_blocks(groups, ids);
            assert(prints.drop_last() =~= all_unfinished(groups, ids));
        },
        _ => {
            reveal_with_fuel(stdout_of, 2);
            if prints.len() > 0 {
                assert(prints.len() == 1);
                assert(prints.drop_last() =~= Seq::<PrintView>::empty());
            }
            assert(stdout_of(prints) =~= Seq::<Seq<char>>::empty());
        },
    }
}

/// Where no id is there twice, a beam's lines are in one of the blocks.
proof fn one_block_each(groups: Seq<GroupView>, ids: Seq<Seq<char>>, id: Seq<char>)
    requires
        ids.no_duplicates(),
    ensures
        lines_from(unfinished_blocks(groups, ids), id) == if ids.contains(id) {
            lines_held(groups, id)
        } else {
            Seq::empty()
        },
    decreases ids.len(),
{
    let all = unfinished_blocks(groups, ids);
    if ids.len() > 0 {
        let front = ids.drop_last();
        assert(all.drop_last() =~= unfinished_blocks(groups, front));
        one_block_each(groups, front, id);
        if ids.last() == id {
            assert(!front.contains(id)) by {
                if front.contains(id) {
                    let k = choose|k: int| 0 <= k < front.len() && front[k] == id;
                    assert(ids[k] == ids[ids.len() - 1]);
                }
            }
            assert(ids[ids.len() - 1] == id);
            assert(lines_from(all, id) =~= lines_held(groups, id));
        } else if ids.contains(id) {
            let k = choose|k: int| 0 <= k < ids.len() && ids[k] == id;
            assert(front[k] == id);
        } else if front.contains(id) {
            let k = choose|k: int| 0 <= k < front.len() && front[k] == id;
            assert(ids[k] == id);
        }
    } else {
        assert(lines_from(all, id) =~= Seq::<Seq<char>>::empty());
    }
}

/// At the end of a run every line held back is in one block.
proof fn the_end_shows_what_is_held(groups: Seq<GroupView>, id: Seq<char>)
    requires
        apart(groups),
    ensures
        lines_from(unfinished_blocks(groups, texts_sorted(group_ids(groups))), id) == lines_held(
            groups,
            id,
        ),
{
    let ids = group_ids(groups);
    let sorted = texts_sorted(ids);
    assert(ids.no_duplicates()) by {
        assert forall|a: int, b: int| 0 <= a < ids.len() && 0 <= b < ids.len() && a != b implies ids[a]
            != ids[b] by {
            if a < b {
                assert(groups[a].id != groups[b].id);
            } else {
                assert(groups[b].id != groups[a].id);
            }
        }
    }
    texts_sorted_sorts(ids);
    ids.to_multiset_ensures();
    sorted.to_multiset_ensures();
    ids.lemma_multiset_has_no_duplicates();
    sorted.lemma_multiset_has_no_duplicates_conv();
    one_block_each(groups, sorted, id);
    place_fits(groups, id);
    let p = group_place(groups, id);
    if p < groups.len() {
        assert(ids[p] == id);
        assert(ids.contains(id));
        assert(sorted.to_multiset().count(id) > 0);
    } else if sorted.contains(id) {
        assert(ids.to_multiset().count(id) > 0);
        let k = choose|k: int| 0 <= k < ids.len() && ids[k] == id;
        assert(groups[k].id == id);
    }
}

/// What a beam wrote is in its blocks, then held back.
proof fn shown_then_held(
    clear: bool,
    affected_by: Option<Seq<char>>,
    events: Seq<(RunEvent, Seq<char>)>,
    id: Seq<char>,
)
    ensures
        lines_from(blocks(clear, affected_by, events), id) + lines_held(
            grouped_run(clear, affected_by, events).0,
            id,
        ) == all_written(events, id),
    decreases events.len(),
{
    if events.len() == 0 {
        assert(lines_from(blocks(clear, affected_by, events), id) + lines_held(
            grouped_run(clear, affected_by, events).0,
            id,
        ) =~= all_written(events, id));
    } else {
        let before = events.drop_last();
        shown_then_held(clear, affected_by, before, id);
        held_is_written(clear, affected_by, before, id);
        let groups = grouped_run(clear, affected_by, before).0;
        let after = grouped_run(clear, affected_by, events).0;
        let old_blocks = blocks(clear, affected_by, before);
        let new = step_blocks(groups, events.last().0, events.last().1);
        lines_from_both(old_blocks, new, id);
        let earlier = lines_from(old_blocks, id);
        match events.last().0 {
            RunEvent::BeamStarted { id: beam } => {
                held_with_group(groups, beam@, id);
            },
            RunEvent::BeamCached { id: beam } => {
                held_with_group(groups, beam@, id);
            },
            RunEvent::BeamOutput { id: beam, line, .. } => {
                held_with_line(groups, beam@, line.text@, id);
            },
            RunEvent::BeamFinished { id: beam, .. } => {
                held_without_group(groups, beam@, id);
                reveal_with_fuel(lines_from, 2);
                assert(new.drop_last() =~= Seq::<Block>::empty());
                if beam@ == id {
                    assert(lines_from(new, id) =~= lines_held(groups, id));
                }
            },
            RunEvent::RunFinished { .. } => {
                the_end_shows_what_is_held(groups, id);
            },
            _ => {},
        }
        assert(lines_from(blocks(clear, affected_by, events), id) + lines_held(after, id)
            =~= all_written(events, id));
    }
}

/// What is shown on stdout is the blocks, one after the other, each under its
/// beam's header, and nothing else.
pub proof fn stdout_is_the_blocks(
    clear: bool,
    affected_by: Option<Seq<char>>,
    events: Seq<(RunEvent, Seq<char>)>,
)
    ensures
        stdout_of(grouped_run(clear, affected_by, events).1) == laid_out(
            blocks(clear, affected_by, events),
        ),
    decreases events.len(),
{
    if events.len() > 0 {
        let before = events.drop_last();
        let (groups, prints) = grouped_run(clear, affected_by, before);
        let event = events.last().0;
        let duration = events.last().1;
        stdout_is_the_blocks(clear, affected_by, before);
        a_step_is_its_blocks(groups, clear, affected_by, event, duration);
        stdout_of_both(prints, grouped_step(groups, clear, affected_by, event, duration).1);
        laid_out_both(
            blocks(clear, affected_by, before),
            step_blocks(groups, event, duration),
        );
    }
}

/// Once a run has ended, the lines that a beam wrote are in its blocks, each
/// exactly once and in the order in which they were written; nothing is held
/// back; and the beams that had not ended were shown in the order of their
/// ids.
pub proof fn every_line_is_shown_once(
    clear: bool,
    affected_by: Option<Seq<char>>,
    events: Seq<(RunEvent, Seq<char>)>,
    id: Seq<char>,
)
    requires
        events.len() > 0,
        events.last().0 is RunFinished,
    ensures
        lines_from(blocks(clear, affected_by, events), id) == all_written(events, id),
        grouped_run(clear, affected_by, events).0.len() == 0,
        ({
            let groups = grouped_run(clear, affected_by, events.drop_last()).0;
            let last = step_blocks(groups, events.last().0, events.last().1);
            text_sorted(Seq::new(last.len(), |i: int| last[i].id))
        }),
{
    shown_then_held(clear, affected_by, events, id);
    let after = grouped_run(clear, affected_by, events).0;
    assert(lines_held(after, id) =~= Seq::<Seq<char>>::empty());
    assert(lines_from(blocks(clear, affected_by, events), id) + lines_held(after, id)
        =~= lines_from(blocks(clear, affected_by, events), id));
    let groups = grouped_run(clear, affected_by, events.drop_last()).0;
    let ids = texts_sorted(group_ids(groups));
    texts_sorted_sorts(group_ids(groups));
    let last = step_blocks(groups, events.last().0, events.last().1);
    assert(Seq::new(last.len(), |i: int| last[i].id) =~= ids);
}

} // verus!
