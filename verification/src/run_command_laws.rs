//! How a run is driven, and how the process ends.

use vstd::prelude::*;
use crate::affected::Selection;
use crate::args::RunFlags;
use crate::event::RunSummary;
use crate::exit::Ending;
use crate::graph::{place_of, reaches};
use crate::loader::pair_views;
use crate::model::Project;
use crate::plan::RunOptions;
use crate::project_root::cache_dir;
use crate::run_command::{
    advance, color_enabled, execute_ending, front_end, interrupted, renderer, replay, replay_block,
    replay_blocks, resolve_jobs, run_options, tui_ending, watch_ending, watch_renderer,
    watch_warning, FrontEnd, Happened, Interruption, Next, RendererChoice, ReplayLine, RunRequest,
    SessionPanicked, TuiOutcome, WatchExit,
};
use crate::text::{trimmed_end, views};

verus! {

/// A run gets the interface exactly where stdout is a terminal and nothing
/// turns it off: neither the flag, nor JSON, nor a layout that was asked for.
/// Asking for it is refused where there is no terminal and nothing turns it
/// off. Every other run is headless, and watches where that was asked for.
pub proof fn the_interface_is_for_terminals(
    flags: &RunFlags,
    stdout_is_tty: bool,
    r: Result<FrontEnd, Ending>,
)
    requires
        call_ensures(front_end, (flags, stdout_is_tty), r),
    ensures
        ({
            let off = flags.no_ui || flags.log_format is Json || flags.output is Some;
            &&& (r matches Ok(FrontEnd::Interface)) <==> stdout_is_tty && !off
            &&& r is Err <==> flags.ui && !stdout_is_tty && !off
            &&& r matches Err(e) ==> e.code == 2
            &&& (r matches Ok(FrontEnd::Watch)) <==> flags.watch && (off || (!stdout_is_tty
                && !flags.ui))
            &&& (r matches Ok(FrontEnd::Once)) <==> !flags.watch && (off || (!stdout_is_tty
                && !flags.ui))
        }),
{
}

/// As many beams run at once as were asked for, else as the machine can, else
/// one. Colour is for terminals, unless it was turned off.
pub proof fn jobs_and_colour_are_as_asked(
    requested: Option<u64>,
    available: Option<usize>,
    r: usize,
    stdout_is_tty: bool,
    no_color: bool,
    c: bool,
)
    requires
        call_ensures(resolve_jobs, (requested, available), r),
        call_ensures(color_enabled, (stdout_is_tty, no_color), c),
    ensures
        requested matches Some(n) ==> (n <= usize::MAX ==> r == n),
        requested is None ==> (available matches Some(n) ==> r == n),
        requested is None && available is None ==> r == 1,
        c <==> stdout_is_tty && !no_color,
{
}

/// What a run shows: JSON where that was asked for; else the layout that was
/// asked for, and without one every line as it happens on a terminal and
/// whole blocks elsewhere. Only a watch session on a terminal clears the
/// screen.
pub proof fn a_layout_is_as_asked(
    flags: &RunFlags,
    stdout_is_tty: bool,
    color: bool,
    r: RendererChoice,
    w: RendererChoice,
)
    requires
        call_ensures(renderer, (flags, stdout_is_tty, color), r),
        call_ensures(watch_renderer, (flags, stdout_is_tty, color), w),
    ensures
        r is Json <==> flags.log_format is Json,
        w is Json <==> flags.log_format is Json,
        !(flags.log_format is Json) ==> {
            let interleaved = match flags.output {
                Some(style) => style is Interleaved,
                None => stdout_is_tty,
            };
            &&& r == if interleaved {
                RendererChoice::Interleaved { color, clear: false }
            } else {
                RendererChoice::Grouped { clear: false }
            }
            &&& w == if interleaved {
                RendererChoice::Interleaved { color, clear: stdout_is_tty }
            } else {
                RendererChoice::Grouped { clear: stdout_is_tty }
            }
        },
{
}

/// A run's options are what was asked for: its flags, its arguments, and the
/// cache next to the Beamfile, which is not read where the run is forced.
/// Only commands whose output the interface shows in colour are told to use
/// it.
pub proof fn a_run_is_as_asked(
    request: &RunRequest,
    front: FrontEnd,
    r: RunOptions,
    dir: String,
    beamfile: &str,
)
    requires
        call_ensures(run_options, (request, front), r),
        beamfile@ == request.beamfile@,
        call_ensures(cache_dir, (beamfile,), dir),
    ensures
        r.keep_going == request.flags.keep_going,
        views(r.params@) == views(request.params@),
        r.cache matches Some(c) && c.dir@ == dir@ && c.force == request.flags.force,
        request.flags.jobs matches Some(n) ==> (n <= usize::MAX ==> r.jobs == n),
        request.flags.jobs is None ==> (request.parallelism matches Some(n) ==> r.jobs == n),
        r.extra_env@.len() > 0 <==> front is Interface && request.colour,
{
    assert(pair_views(r.extra_env@).len() == r.extra_env@.len());
}

/// How a single run ends: with 0 where it was carried out and no beam failed,
/// with 1 where a beam failed, with 130 where it was interrupted, and with 2
/// where it could not be carried out or was not reported to its end. An error
/// is told.
pub proof fn a_run_ends_with_what_it_earned(
    result: &Result<RunSummary, String>,
    was_interrupted: bool,
    renderer_panicked: bool,
    r: Ending,
)
    requires
        call_ensures(execute_ending, (result, was_interrupted, renderer_panicked), r),
    ensures
        renderer_panicked || *result is Err <==> r.code == 2,
        *result matches Ok(summary) ==> (!renderer_panicked ==> r.code == if was_interrupted {
            130i32
        } else if summary.failed@.len() == 0 {
            0i32
        } else {
            1i32
        }),
        *result matches Err(error) ==> views(r.lines@).contains(trimmed_end(error@)),
        *result is Ok && !renderer_panicked ==> r.lines@.len() == 0,
{
    assert(r@.lines == views(r.lines@));
    assert(views(r.lines@).len() == r.lines@.len());
    if let Err(error) = *result {
        assert(r@.lines[r@.lines.len() - 1] == trimmed_end(error@));
    }
}

/// A watch session that the user ends is a success; one whose watcher stopped
/// or whose report is not complete is an error, and says so.
pub proof fn a_session_ends_well_where_the_user_ends_it(
    exit: WatchExit,
    renderer_panicked: bool,
    r: Ending,
)
    requires
        call_ensures(watch_ending, (exit, renderer_panicked), r),
    ensures
        r.code == 0 <==> exit is Interrupted && !renderer_panicked,
        r.code != 0 ==> r.code == 2 && r.lines@.len() == 1,
        r.code == 0 ==> r.lines@.len() == 0,
{
    assert(r@.lines.len() == r.lines@.len());
}

proof fn blocks_hold(
    logs: Seq<(String, Vec<ReplayLine>)>,
    max_lines: nat,
    colour: bool,
    b: int,
    k: int,
)
    requires
        0 <= b < logs.len(),
        0 <= k < logs[b].1@.len(),
    ensures
        replay_blocks(logs, max_lines, colour).contains(
            if colour {
                logs[b].1@[k].raw@
            } else {
                logs[b].1@[k].text@
            },
        ),
        replay_blocks(logs, max_lines, colour).contains(
            "\u{2500}\u{2500} "@ + logs[b].0@ + " \u{2500}\u{2500}"@,
        ),
    decreases logs.len(),
{
    let front = logs.drop_last();
    let before = replay_blocks(front, max_lines, colour);
    let own = replay_block(logs.last(), max_lines, colour);
    let all = replay_blocks(logs, max_lines, colour);
    assert(all == before + own);
    let text = if colour {
        logs[b].1@[k].raw@
    } else {
        logs[b].1@[k].text@
    };
    let header = "\u{2500}\u{2500} "@ + logs[b].0@ + " \u{2500}\u{2500}"@;
    if b < front.len() {
        assert(front[b] == logs[b]);
        blocks_hold(front, max_lines, colour, b, k);
        let i = choose|i: int| 0 <= i < before.len() && before[i] == text;
        let j = choose|j: int| 0 <= j < before.len() && before[j] == header;
        assert(all[i] == text);
        assert(all[j] == header);
    } else {
        let n = if logs[b].1@.len() >= max_lines {
            2int
        } else {
            1int
        };
        assert(own[0] == header);
        assert(own[n + k] == text);
        assert(all[before.len() as int] == header);
        assert(all[before.len() + n + k] == text);
    }
}

/// What quitting the interface leaves behind: the output of every failed
/// beam, under its name, line by line, in colour where there is colour; and
/// the last run's summary first.
pub proof fn failed_output_is_left_behind(
    outcome: &TuiOutcome,
    affected_by: &Option<String>,
    duration: &str,
    max_lines: usize,
    colour: bool,
    r: Vec<String>,
    b: int,
    k: int,
)
    requires
        call_ensures(replay, (outcome, affected_by, duration, max_lines, colour), r),
        0 <= b < outcome.failed_logs@.len(),
        0 <= k < outcome.failed_logs@[b].1@.len(),
    ensures
        views(r@).contains(
            if colour {
                outcome.failed_logs@[b].1@[k].raw@
            } else {
                outcome.failed_logs@[b].1@[k].text@
            },
        ),
        views(r@).contains(
            "\u{2500}\u{2500} "@ + outcome.failed_logs@[b].0@ + " \u{2500}\u{2500}"@,
        ),
{
    let logs = outcome.failed_logs@;
    let blocks = replay_blocks(logs, max_lines as nat, colour);
    blocks_hold(logs, max_lines as nat, colour, b, k);
    let all = views(r@);
    let shift: int = if outcome.last_summary is Some {
        1
    } else {
        0
    };
    assert forall|x: Seq<char>| #[trigger] blocks.contains(x) implies all.contains(x) by {
        let i = choose|i: int| 0 <= i < blocks.len() && blocks[i] == x;
        assert(all[i + shift] == x);
    }
}

/// The interface ends with the last run's code where one came to its end and
/// the user ended the session, with 130 where none did, and with 2 where the
/// interface or the session failed.
pub proof fn the_interface_ends_with_the_last_run(
    session: Result<WatchExit, SessionPanicked>,
    outcome: &Result<TuiOutcome, String>,
    affected_by: &Option<String>,
    duration: &str,
    max_lines: usize,
    colour: bool,
    r: Ending,
)
    requires
        call_ensures(
            tui_ending,
            (session, outcome, affected_by, duration, max_lines, colour),
            r,
        ),
    ensures
        *outcome is Err || !(session matches Ok(WatchExit::Interrupted)) ==> r.code == 2,
        *outcome matches Ok(left) ==> ((session matches Ok(WatchExit::Interrupted)) ==> r.code
            == match left.last_run_code {
            Some(code) => code,
            None => 130i32,
        }),
{
}

/// How a run goes on: once its beams are chosen it is run, or a watcher is
/// started where the front end can watch; once that runs the session goes on.
/// Whatever goes wrong before that ends the process with 2.
pub proof fn a_run_goes_on_as_its_front_end_does(
    front: FrontEnd,
    project: &Project,
    selection: &Selection,
    colour: bool,
    chosen: Result<(), String>,
    a: Next,
    started: Result<(), String>,
    b: Next,
)
    requires
        call_ensures(
            advance,
            (front, project, selection, colour, &Happened::Selected(chosen)),
            a,
        ),
        call_ensures(
            advance,
            (front, project, selection, colour, &Happened::WatcherStarted(started)),
            b,
        ),
    ensures
        chosen is Err ==> (a matches Next::End(e) && e.code == 2),
        chosen is Ok ==> match front {
            FrontEnd::Once => a is Run,
            FrontEnd::Watch => a is StartWatcher,
            FrontEnd::Interface => a matches Next::StartWatcher { warning } && warning is None,
        },
        started is Err ==> (b matches Next::End(e) && e.code == 2),
        started is Ok ==> match front {
            FrontEnd::Once => b is Run,
            FrontEnd::Watch => b is Watch,
            FrontEnd::Interface => b is OpenInterface,
        },
{
}

/// Whichever way a run is driven, it ends as its end says.
pub proof fn a_driven_run_ends_as_its_end_says(
    front: FrontEnd,
    project: &Project,
    selection: &Selection,
    colour: bool,
    result: Result<RunSummary, String>,
    was_interrupted: bool,
    renderer_panicked: bool,
    a: Next,
    once: Ending,
    exit: WatchExit,
    b: Next,
    watched: Ending,
)
    requires
        call_ensures(
            advance,
            (
                front,
                project,
                selection,
                colour,
                &Happened::RunEnded { result, interrupted: was_interrupted, renderer_panicked },
            ),
            a,
        ),
        call_ensures(execute_ending, (&result, was_interrupted, renderer_panicked), once),
        call_ensures(
            advance,
            (
                front,
                project,
                selection,
                colour,
                &Happened::SessionEnded { exit, renderer_panicked },
            ),
            b,
        ),
        call_ensures(watch_ending, (exit, renderer_panicked), watched),
    ensures
        a matches Next::End(e) && e@ == once@,
        b matches Next::End(e) && e@ == watched@,
{
}

/// A watch session warns exactly where it is for one beam and nothing that
/// the beam needs declares inputs.
pub proof fn a_watch_without_inputs_warns(project: &Project, selection: &Selection, r: Option<String>)
    requires
        call_ensures(watch_warning, (project, selection), r),
    ensures
        ({
            let target = match *selection {
                Selection::Beam(id) => Some(id@),
                Selection::Affected { within: Some(id), .. } => Some(id@),
                Selection::Affected { within: None, .. } => None::<Seq<char>>,
            };
            r is Some <==> (target matches Some(name) && place_of(project@.beams, name) is Some
                && forall|i: int|
                0 <= i < project@.beams.len() && reaches(
                    project@,
                    name,
                    (#[trigger] project@.beams[i]).id,
                ) ==> project@.beams[i].inputs.len() == 0)
        }),
{
    let p = project@;
    if let Some(name) = crate::run_command::watched_name(*selection) {
        if crate::run_command::needs_inputs(p, name) {
            let i = choose|i: int|
                0 <= i < p.beams.len() && reaches(p, name, #[trigger] p.beams[i].id)
                    && p.beams[i].inputs.len() > 0;
            assert(reaches(p, name, p.beams[i].id));
        } else {
            assert forall|i: int|
                0 <= i < p.beams.len() && reaches(p, name, (#[trigger] p.beams[i]).id) implies p.beams[i].inputs.len()
                == 0 by {
                assert(!(reaches(p, name, p.beams[i].id) && p.beams[i].inputs.len() > 0));
            }
        }
    }
}

/// The first interrupt cancels the run, and the next gives up on it with 130.
pub proof fn the_second_interrupt_gives_up(first: Interruption, second: Interruption)
    requires
        call_ensures(interrupted, (false,), first),
        call_ensures(interrupted, (true,), second),
    ensures
        first is Cancel,
        second matches Interruption::Abort { code } && code == 130,
{
}

} // verus!
