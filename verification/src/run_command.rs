//! `alba run`: which front end a run gets, how it is set up, and what its
//! end means for the process.
//!
//! Starting the engine, the watcher and the interface is the caller's part:
//! it performs what [`advance`] says is next and hands back what happened.

use vstd::prelude::*;
use vstd::string::*;
use crate::affected::Selection;
use crate::args::{LogFormat, OutputStyle, RunFlags};
use crate::event::RunSummary;
use crate::exit::{Ending, EndingView, EXIT_ALBA_ERROR, EXIT_INTERRUPTED};
use crate::graph::{execution_subgraph, holds_id, id_views, place_of, place_of_is_last, reaches};
use crate::loader::pair_views;
use crate::model::{copy_strings, BeamId, Project, ProjectView};
use crate::plan::RunOptions;
use crate::project_root::{cache_dir, cache_directory};
use crate::render::{summary_label, summary_words};
use crate::store::CacheOptions;
use crate::text::{
    decimal, decimal_text, opt_view, text2, text3, trim_end, trimmed_end, views,
};

verus! {

/// Which of the two front ends a run gets.
#[derive(Debug, Clone, Copy, PartialEq, Eq, Structural)]
pub enum UiDecision {
    /// The interactive interface.
    Tui,
    /// A renderer on stdout and stderr.
    Headless,
    /// The interface was asked for and there is no terminal to draw it on.
    RefusedNoTty,
}

/// The interface is for terminals, and gives way to JSON, to a layout that
/// was asked for, and to being turned off; asking for it where there is no
/// terminal is refused.
pub open spec fn ui_choice(flags: RunFlags, stdout_is_tty: bool) -> UiDecision {
    if flags.no_ui || flags.log_format == LogFormat::Json || flags.output is Some {
        UiDecision::Headless
    } else if stdout_is_tty {
        UiDecision::Tui
    } else if flags.ui {
        UiDecision::RefusedNoTty
    } else {
        UiDecision::Headless
    }
}

/// Which of the two front ends a run gets.
pub fn ui_enabled(flags: &RunFlags, stdout_is_tty: bool) -> (r: UiDecision)
    ensures
        r == ui_choice(*flags, stdout_is_tty),
{
    if flags.no_ui || flags.log_format == LogFormat::Json || flags.output.is_some() {
        return UiDecision::Headless;
    }
    match (flags.ui, stdout_is_tty) {
        (_, true) => UiDecision::Tui,
        (true, false) => UiDecision::RefusedNoTty,
        (false, false) => UiDecision::Headless,
    }
}

/// How a run is driven.
#[derive(Debug, Clone, Copy, PartialEq, Eq, Structural)]
pub enum FrontEnd {
    /// By the interface, which can watch as well.
    Interface,
    /// Again and again, as files change.
    Watch,
    /// Once.
    Once,
}

pub open spec fn front_end_of(flags: RunFlags, stdout_is_tty: bool) -> Result<FrontEnd, EndingView> {
    match ui_choice(flags, stdout_is_tty) {
        UiDecision::Tui => Ok(FrontEnd::Interface),
        UiDecision::RefusedNoTty => Err(
            EndingView {
                lines: seq!["--ui needs a terminal; stdout is not one"@],
                code: EXIT_ALBA_ERROR,
            },
        ),
        UiDecision::Headless => Ok(
            if flags.watch {
                FrontEnd::Watch
            } else {
                FrontEnd::Once
            },
        ),
    }
}

/// How a run is driven, or why it is not.
pub fn front_end(flags: &RunFlags, stdout_is_tty: bool) -> (r: Result<FrontEnd, Ending>)
    ensures
        match r {
            Ok(front) => front_end_of(*flags, stdout_is_tty) == Ok::<FrontEnd, EndingView>(front),
            Err(ending) => front_end_of(*flags, stdout_is_tty) == Err::<FrontEnd, EndingView>(
                ending@,
            ),
        },
{
    match ui_enabled(flags, stdout_is_tty) {
        UiDecision::Tui => Ok(FrontEnd::Interface),
        UiDecision::RefusedNoTty => Err(
            crate::exit::with_line(
                "--ui needs a terminal; stdout is not one".to_owned(),
                EXIT_ALBA_ERROR,
            ),
        ),
        UiDecision::Headless => if flags.watch {
            Ok(FrontEnd::Watch)
        } else {
            Ok(FrontEnd::Once)
        },
    }
}

/// How many beams may run at once: what was asked for, as far as a machine
/// word goes, else what the machine can, else one.
pub fn resolve_jobs(requested: Option<u64>, available: Option<usize>) -> (r: usize)
    ensures
        match requested {
            Some(n) => r == if n <= usize::MAX {
                n as usize
            } else {
                usize::MAX
            },
            None => r == match available {
                Some(n) => n,
                None => 1,
            },
        },
{
    match requested {
        Some(n) => if n <= usize::MAX as u64 {
            n as usize
        } else {
            usize::MAX
        },
        None => match available {
            Some(n) => n,
            None => 1,
        },
    }
}

/// Colour is for terminals whose user did not turn it off.
pub fn color_enabled(stdout_is_tty: bool, no_color: bool) -> (r: bool)
    ensures
        r == (stdout_is_tty && !no_color),
{
    stdout_is_tty && !no_color
}

/// Every line as it happens on a terminal, whole blocks elsewhere.
pub fn default_output(stdout_is_tty: bool) -> (r: OutputStyle)
    ensures
        r == if stdout_is_tty {
            OutputStyle::Interleaved
        } else {
            OutputStyle::Grouped
        },
{
    if stdout_is_tty {
        OutputStyle::Interleaved
    } else {
        OutputStyle::Grouped
    }
}

/// The renderer that a run without the interface gets.
#[derive(Debug, Clone, Copy, PartialEq, Eq, Structural)]
pub enum RendererChoice {
    Json,
    Interleaved { color: bool, clear: bool },
    Grouped { clear: bool },
}

pub open spec fn renderer_of(flags: RunFlags, stdout_is_tty: bool, color: bool, clear: bool) ->
    RendererChoice {
    if flags.log_format == LogFormat::Json {
        RendererChoice::Json
    } else if flags.output == Some(OutputStyle::Interleaved) || (flags.output is None
        && stdout_is_tty) {
        RendererChoice::Interleaved { color, clear }
    } else {
        RendererChoice::Grouped { clear }
    }
}

fn choose_renderer(flags: &RunFlags, stdout_is_tty: bool, color: bool, clear: bool) -> (r:
    RendererChoice)
    ensures
        r == renderer_of(*flags, stdout_is_tty, color, clear),
{
    match flags.log_format {
        LogFormat::Json => RendererChoice::Json,
        LogFormat::Text => {
            let style = match flags.output {
                Some(style) => style,
                None => default_output(stdout_is_tty),
            };
            match style {
                OutputStyle::Interleaved => RendererChoice::Interleaved { color, clear },
                OutputStyle::Grouped => RendererChoice::Grouped { clear },
            }
        },
    }
}

/// The renderer for a single run. A layout counts for text only.
pub fn renderer(flags: &RunFlags, stdout_is_tty: bool, color: bool) -> (r: RendererChoice)
    ensures
        r == renderer_of(*flags, stdout_is_tty, color, false),
{
    choose_renderer(flags, stdout_is_tty, color, false)
}

/// The renderer for a watch session: each run starts on a clean page, where
/// there is a screen to clear.
pub fn watch_renderer(flags: &RunFlags, stdout_is_tty: bool, color: bool) -> (r: RendererChoice)
    ensures
        r == renderer_of(*flags, stdout_is_tty, color, stdout_is_tty),
{
    choose_renderer(flags, stdout_is_tty, color, stdout_is_tty)
}

pub open spec fn label_of(selection: Selection) -> Seq<char> {
    match selection {
        Selection::Beam(id) => id@,
        Selection::Affected { reference, within } => match within {
            Some(id) => id@,
            None => "affected by "@ + reference@,
        },
    }
}

/// What the interface calls a session before its first run.
pub fn selection_label(selection: &Selection) -> (r: String)
    ensures
        r@ == label_of(*selection),
{
    match selection {
        Selection::Beam(id) => id.0.clone(),
        Selection::Affected { reference, within } => match within {
            Some(id) => id.0.clone(),
            None => text2("affected by ", reference.as_str()),
        },
    }
}

/// What a selection's beams are affected by, where it asks for that.
pub fn reference_of(selection: &Selection) -> (r: Option<String>)
    ensures
        opt_view(r) == match *selection {
            Selection::Beam(_) => None::<Seq<char>>,
            Selection::Affected { reference, .. } => Some(reference@),
        },
{
    match selection {
        Selection::Beam(_) => None,
        Selection::Affected { reference, .. } => Some(reference.clone()),
    }
}

/// One delivery of a file watcher.
#[derive(Debug, PartialEq, Eq)]
pub enum WatchBatch {
    /// The paths that changed.
    Paths(Vec<String>),
    /// Something changed, and the watcher cannot say what.
    Rescan,
}

/// Why a watch session ended.
#[derive(Debug, Clone, Copy, PartialEq, Eq, Structural)]
pub enum WatchExit {
    /// The user is done.
    Interrupted,
    /// The watcher is gone.
    WatcherClosed,
}

/// A session that fell over instead of ending.
#[derive(Debug, Clone, Copy, PartialEq, Eq, Structural)]
pub struct SessionPanicked;

pub open spec fn failure_line(exit: Result<WatchExit, SessionPanicked>) -> Option<Seq<char>> {
    match exit {
        Ok(WatchExit::Interrupted) => None,
        Ok(WatchExit::WatcherClosed) => Some("the file watcher stopped; ending the session"@),
        Err(_) => Some("the session ended unexpectedly; this session's report is incomplete"@),
    }
}

/// What is to be said of a session that did not end at the user's request.
pub fn session_failure(exit: Result<WatchExit, SessionPanicked>) -> (r: Option<&'static str>)
    ensures
        match r {
            Some(line) => failure_line(exit) == Some(line@),
            None => failure_line(exit) is None,
        },
{
    match exit {
        Ok(WatchExit::Interrupted) => None,
        Ok(WatchExit::WatcherClosed) => Some("the file watcher stopped; ending the session"),
        Err(_) => Some("the session ended unexpectedly; this session's report is incomplete"),
    }
}

/// A beam among `subgraph` declares inputs.
pub open spec fn declares_inputs(project: ProjectView, subgraph: Seq<Seq<char>>) -> bool {
    exists|i: int|
        0 <= i < project.beams.len() && subgraph.contains(#[trigger] project.beams[i].id)
            && project.beams[i].inputs.len() > 0
}

pub open spec fn no_inputs_line(target: Seq<char>) -> Seq<char> {
    "warning: no beam in `"@ + target
        + "`'s graph declares inputs; watching the Beamfile only"@
}

/// The warning for a watch that can only react to Beamfile edits: no beam of
/// what `target` needs declares inputs.
pub fn no_inputs_warning(project: &Project, target: &BeamId, subgraph: &Vec<BeamId>) -> (r: Option<
    String,
>)
    ensures
        opt_view(r) == if declares_inputs(project@, id_views(subgraph@)) {
            None::<Seq<char>>
        } else {
            Some(no_inputs_line(target@))
        },
{
    let mut i: usize = 0;
    while i < project.beams.len()
        invariant
            i <= project.beams@.len(),
            forall|k: int|
                0 <= k < i ==> !(id_views(subgraph@).contains(#[trigger] project@.beams[k].id)
                    && project@.beams[k].inputs.len() > 0),
        decreases project.beams.len() - i,
    {
        let beam = &project.beams[i];
        assert(project@.beams[i as int] == beam@);
        assert(beam@.inputs.len() == beam.inputs@.len());
        if holds_id(subgraph, beam.id.0.as_str()) && beam.inputs.len() > 0 {
            assert(id_views(subgraph@).contains(project@.beams[i as int].id));
            return None;
        }
        i += 1;
    }
    Some(
        text3(
            "warning: no beam in `",
            target.0.as_str(),
            "`'s graph declares inputs; watching the Beamfile only",
        ),
    )
}

/// What a run's end means for the process: an interrupted run was abandoned,
/// whatever its beams earned.
pub fn run_exit_code(summary: &RunSummary, interrupted: bool) -> (r: i32)
    ensures
        r == if interrupted {
            EXIT_INTERRUPTED
        } else if summary.failed@.len() == 0 {
            0i32
        } else {
            1i32
        },
{
    if interrupted {
        EXIT_INTERRUPTED
    } else {
        summary.exit_code()
    }
}

/// What a run is made of, as it was asked for.
pub struct RunRequest {
    pub beamfile: String,
    pub params: Vec<String>,
    pub flags: RunFlags,
    /// How many beams the machine can run at once, where it says.
    pub parallelism: Option<usize>,
    /// Whether the interface draws in colour.
    pub colour: bool,
}

/// What tells commands that write to a pipe to use colour after all.
pub open spec fn colour_env() -> Seq<(Seq<char>, Seq<char>)> {
    seq![("FORCE_COLOR"@, "1"@), ("CLICOLOR_FORCE"@, "1"@)]
}

/// A run's options are those that were asked for.
pub open spec fn options_of(request: RunRequest, front: FrontEnd, options: RunOptions) -> bool {
    &&& options.keep_going == request.flags.keep_going
    &&& views(options.params@) == views(request.params@)
    &&& options.cache is Some
    &&& options.cache->Some_0.dir@ == cache_directory(request.beamfile@)
    &&& options.cache->Some_0.force == request.flags.force
    &&& pair_views(options.extra_env@) == if front is Interface && request.colour {
        colour_env()
    } else {
        Seq::empty()
    }
    &&& match request.flags.jobs {
        Some(n) => options.jobs == if n <= usize::MAX {
            n as usize
        } else {
            usize::MAX
        },
        None => options.jobs == match request.parallelism {
            Some(n) => n,
            None => 1,
        },
    }
}

/// The options of a run. The interface shows colours, and commands on a pipe
/// use none unless told to.
pub fn run_options(request: &RunRequest, front: FrontEnd) -> (r: RunOptions)
    ensures
        options_of(*request, front, r),
{
    let mut extra_env: Vec<(String, String)> = Vec::new();
    if request.colour && front == FrontEnd::Interface {
        extra_env.push(("FORCE_COLOR".to_owned(), "1".to_owned()));
        extra_env.push(("CLICOLOR_FORCE".to_owned(), "1".to_owned()));
        assert(pair_views(extra_env@) =~= colour_env());
    } else {
        assert(pair_views(extra_env@) =~= Seq::<(Seq<char>, Seq<char>)>::empty());
    }
    RunOptions {
        jobs: resolve_jobs(request.flags.jobs, request.parallelism),
        keep_going: request.flags.keep_going,
        params: copy_strings(&request.params),
        cache: Some(
            CacheOptions {
                dir: cache_dir(request.beamfile.as_str()),
                force: request.flags.force,
            },
        ),
        extra_env,
    }
}

/// A line of a beam's output, as it came and without its escape sequences.
#[derive(Debug, PartialEq, Eq)]
pub struct ReplayLine {
    pub raw: String,
    pub text: String,
}

/// What the interface leaves behind.
#[derive(Debug, PartialEq, Eq)]
pub struct TuiOutcome {
    /// What the last run that came to its end earned.
    pub last_run_code: Option<i32>,
    pub last_summary: Option<RunSummary>,
    /// The last lines of each beam that failed.
    pub failed_logs: Vec<(String, Vec<ReplayLine>)>,
}

pub open spec fn replay_texts(lines: Seq<ReplayLine>, colour: bool) -> Seq<Seq<char>> {
    Seq::new(
        lines.len(),
        |i: int|
            if colour {
                lines[i].raw@
            } else {
                lines[i].text@
            },
    )
}

pub open spec fn kept_line(max_lines: nat) -> Seq<char> {
    "(the interface keeps at most "@ + decimal(max_lines)
        + " lines per beam; anything earlier is not replayed)"@
}

/// A failed beam's lines under its header, with a note where the interface
/// may have dropped some.
pub open spec fn replay_block(
    log: (String, Vec<ReplayLine>),
    max_lines: nat,
    colour: bool,
) -> Seq<Seq<char>> {
    seq!["\u{2500}\u{2500} "@ + log.0@ + " \u{2500}\u{2500}"@] + (if log.1@.len() >= max_lines {
        seq![kept_line(max_lines)]
    } else {
        Seq::empty()
    }) + replay_texts(log.1@, colour)
}

pub open spec fn replay_blocks(
    logs: Seq<(String, Vec<ReplayLine>)>,
    max_lines: nat,
    colour: bool,
) -> Seq<Seq<char>>
    decreases logs.len(),
{
    if logs.len() == 0 {
        Seq::empty()
    } else {
        replay_blocks(logs.drop_last(), max_lines, colour) + replay_block(
            logs.last(),
            max_lines,
            colour,
        )
    }
}

/// What quitting the interface leaves on the terminal.
pub open spec fn replayed(
    outcome: TuiOutcome,
    affected_by: Option<Seq<char>>,
    duration: Seq<char>,
    max_lines: nat,
    colour: bool,
) -> Seq<Seq<char>> {
    (match outcome.last_summary {
        Some(summary) => seq![summary_words(summary, affected_by, duration)],
        None => Seq::empty(),
    }) + replay_blocks(outcome.failed_logs@, max_lines, colour)
}

fn push_block(
    log: &(String, Vec<ReplayLine>),
    max_lines: usize,
    colour: bool,
    out: &mut Vec<String>,
)
    ensures
        views(final(out)@) == views(old(out)@) + replay_block(*log, max_lines as nat, colour),
{
    let ghost start = views(out@);
    let (beam, lines) = log;
    let ghost block = replay_block(*log, max_lines as nat, colour);
    let ghost texts = replay_texts(lines@, colour);
    out.push(text3("\u{2500}\u{2500} ", beam.as_str(), " \u{2500}\u{2500}"));
    if lines.len() >= max_lines {
        out.push(
            text3(
                "(the interface keeps at most ",
                decimal_text(max_lines as u64).as_str(),
                " lines per beam; anything earlier is not replayed)",
            ),
        );
    }
    let ghost head = views(out@);
    assert(head + texts =~= start + block);
    let mut i: usize = 0;
    assert(views(out@) =~= head + texts.take(0));
    while i < lines.len()
        invariant
            i <= lines@.len(),
            texts == replay_texts(lines@, colour),
            views(out@) == head + texts.take(i as int),
        decreases lines.len() - i,
    {
        let ghost before = views(out@);
        if colour {
            out.push(lines[i].raw.clone());
        } else {
            out.push(lines[i].text.clone());
        }
        assert(views(out@) =~= before.push(texts[i as int]));
        assert(texts.take(i + 1) =~= texts.take(i as int).push(texts[i as int]));
        assert(views(out@) =~= head + texts.take(i + 1));
        i += 1;
    }
    assert(texts.take(texts.len() as int) =~= texts);
}

/// What quitting the interface leaves on stderr: the last run's summary, and
/// each failed beam's output under its header. `max_lines` is how many lines
/// the interface keeps for a beam.
pub fn replay(
    outcome: &TuiOutcome,
    affected_by: &Option<String>,
    duration: &str,
    max_lines: usize,
    colour: bool,
) -> (r: Vec<String>)
    ensures
        views(r@) == replayed(
            *outcome,
            opt_view(*affected_by),
            duration@,
            max_lines as nat,
            colour,
        ),
{
    let mut out: Vec<String> = Vec::new();
    if let Some(summary) = &outcome.last_summary {
        out.push(summary_label(summary, affected_by, duration));
    }
    let ghost head = views(out@);
    let ghost logs = outcome.failed_logs@;
    assert(head =~= match outcome.last_summary {
        Some(summary) => seq![summary_words(summary, opt_view(*affected_by), duration@)],
        None => Seq::empty(),
    });
    let mut i: usize = 0;
    assert(views(out@) =~= head + replay_blocks(logs.take(0), max_lines as nat, colour));
    while i < outcome.failed_logs.len()
        invariant
            i <= outcome.failed_logs@.len(),
            logs == outcome.failed_logs@,
            views(out@) == head + replay_blocks(logs.take(i as int), max_lines as nat, colour),
        decreases outcome.failed_logs.len() - i,
    {
        assert(logs.take(i + 1).drop_last() =~= logs.take(i as int));
        let ghost before = replay_blocks(logs.take(i as int), max_lines as nat, colour);
        push_block(&outcome.failed_logs[i], max_lines, colour, &mut out);
        assert(views(out@) =~= head + (before + replay_block(
            logs[i as int],
            max_lines as nat,
            colour,
        )));
        i += 1;
    }
    assert(logs.take(logs.len() as int) =~= logs);
    out
}

/// A beam that `target` needs, directly or through others, or `target`
/// itself, declares inputs.
pub open spec fn needs_inputs(project: ProjectView, target: Seq<char>) -> bool {
    exists|i: int|
        0 <= i < project.beams.len() && reaches(project, target, #[trigger] project.beams[i].id)
            && project.beams[i].inputs.len() > 0
}

pub open spec fn watched_name(selection: Selection) -> Option<Seq<char>> {
    match selection {
        Selection::Beam(id) => Some(id@),
        Selection::Affected { reference: _, within } => match within {
            Some(id) => Some(id@),
            None => None,
        },
    }
}

/// The warning that a watch session starts with, where it has one.
pub open spec fn start_warning(project: ProjectView, selection: Selection) -> Option<Seq<char>> {
    match watched_name(selection) {
        Some(target) => if place_of(project.beams, target) is Some && !needs_inputs(
            project,
            target,
        ) {
            Some(no_inputs_line(target))
        } else {
            None
        },
        None => None,
    }
}

/// The warning that a watch session starts with, where nothing that the
/// watched beam needs declares inputs.
pub fn watch_warning(project: &Project, selection: &Selection) -> (r: Option<String>)
    ensures
        opt_view(r) == start_warning(project@, *selection),
{
    match selection.watched_target() {
        Some(target) => {
            assert(watched_name(*selection) == Some(target@));
            match execution_subgraph(project, target) {
                Ok(ids) => {
                    proof {
                        let names = id_views(ids@);
                        if declares_inputs(project@, names) {
                            let i = choose|i: int|
                                0 <= i < project@.beams.len() && names.contains(
                                    #[trigger] project@.beams[i].id,
                                ) && project@.beams[i].inputs.len() > 0;
                            assert(reaches(project@, target@, project@.beams[i].id));
                        }
                        if needs_inputs(project@, target@) {
                            let i = choose|i: int|
                                0 <= i < project@.beams.len() && reaches(
                                    project@,
                                    target@,
                                    #[trigger] project@.beams[i].id,
                                ) && project@.beams[i].inputs.len() > 0;
                            place_of_is_last(project@.beams, project@.beams[i].id);
                            assert(names.contains(project@.beams[i].id));
                        }
                    }
                    no_inputs_warning(project, target, &ids)
                },
                Err(_) => None,
            }
        },
        None => None,
    }
}

/// What happened to a run that is being driven.
pub enum Happened {
    /// Its beams were chosen, or could not be, for the reason given.
    Selected(Result<(), String>),
    /// The file watcher was started, or could not be.
    WatcherStarted(Result<(), String>),
    /// A single run came to its end, or could not be carried out.
    RunEnded {
        result: Result<RunSummary, String>,
        interrupted: bool,
        renderer_panicked: bool,
    },
    /// A watch session came to its end.
    SessionEnded { exit: WatchExit, renderer_panicked: bool },
    /// The interface was closed, and with it its session.
    InterfaceClosed {
        session: Result<WatchExit, SessionPanicked>,
        outcome: Result<TuiOutcome, String>,
        /// How long the last run took.
        duration: String,
        /// How many lines the interface keeps for a beam.
        max_lines: usize,
    },
}

/// What to do next with a run that is being driven.
pub enum Next {
    /// Start the file watcher, after saying this.
    StartWatcher { warning: Option<String> },
    /// Run the beams once.
    Run,
    /// Run a watch session.
    Watch,
    /// Open the interface.
    OpenInterface,
    /// Say what is left to say, and leave.
    End(Ending),
}

pub enum NextView {
    StartWatcher { warning: Option<Seq<char>> },
    Run,
    Watch,
    OpenInterface,
    End(EndingView),
}

impl View for Next {
    type V = NextView;

    open spec fn view(&self) -> NextView {
        match self {
            Next::StartWatcher { warning } => NextView::StartWatcher { warning: opt_view(*warning) },
            Next::Run => NextView::Run,
            Next::Watch => NextView::Watch,
            Next::OpenInterface => NextView::OpenInterface,
            Next::End(ending) => NextView::End(ending@),
        }
    }
}

/// The end of a single run. A report that is not complete is an error,
/// whatever the run did.
pub open spec fn run_ending(
    result: Result<RunSummary, String>,
    interrupted: bool,
    renderer_panicked: bool,
) -> EndingView {
    EndingView {
        lines: (if renderer_panicked {
            seq!["the output renderer panicked; this run's report is incomplete"@]
        } else {
            Seq::empty()
        }) + (match result {
            Ok(_) => Seq::empty(),
            Err(error) => seq![trimmed_end(error@)],
        }),
        code: if renderer_panicked || result is Err {
            EXIT_ALBA_ERROR
        } else if interrupted {
            EXIT_INTERRUPTED
        } else if result->Ok_0.failed@.len() == 0 {
            0
        } else {
            1
        },
    }
}

/// The end of a watch session: every run in it has reported itself, so an
/// orderly end is a success.
pub open spec fn session_ending(exit: WatchExit, renderer_panicked: bool) -> EndingView {
    if renderer_panicked {
        EndingView {
            lines: seq!["the output renderer panicked; this session's report is incomplete"@],
            code: EXIT_ALBA_ERROR,
        }
    } else if exit is Interrupted {
        EndingView { lines: Seq::empty(), code: 0 }
    } else {
        EndingView {
            lines: seq!["the file watcher stopped; ending the session"@],
            code: EXIT_ALBA_ERROR,
        }
    }
}

/// The end of the interface: the last run's code, where one came to its end
/// and the session did too.
pub open spec fn interface_ending(
    session: Result<WatchExit, SessionPanicked>,
    outcome: Result<TuiOutcome, String>,
    affected_by: Option<Seq<char>>,
    duration: Seq<char>,
    max_lines: nat,
    colour: bool,
) -> EndingView {
    let said = match failure_line(session) {
        Some(line) => seq![line],
        None => Seq::empty(),
    };
    match outcome {
        Err(error) => EndingView {
            lines: said.push("the interface failed: "@ + error@),
            code: EXIT_ALBA_ERROR,
        },
        Ok(left) => EndingView {
            lines: said + replayed(left, affected_by, duration, max_lines, colour),
            code: if failure_line(session) is Some {
                EXIT_ALBA_ERROR
            } else {
                match left.last_run_code {
                    Some(code) => code,
                    None => EXIT_INTERRUPTED,
                }
            },
        },
    }
}

pub open spec fn affecting(selection: Selection) -> Option<Seq<char>> {
    match selection {
        Selection::Beam(_) => None,
        Selection::Affected { reference, .. } => Some(reference@),
    }
}

/// What comes next when a run is driven: its beams are chosen, a watcher is
/// started where the front end can watch, the run or the session goes on, and
/// what it came to decides how the process ends.
pub open spec fn next_step(
    front: FrontEnd,
    project: ProjectView,
    selection: Selection,
    colour: bool,
    what: Happened,
) -> NextView {
    match what {
        Happened::Selected(result) => match result {
            Err(error) => NextView::End(
                EndingView { lines: seq![trimmed_end(error@)], code: EXIT_ALBA_ERROR },
            ),
            Ok(_) => match front {
                FrontEnd::Once => NextView::Run,
                FrontEnd::Watch => NextView::StartWatcher {
                    warning: start_warning(project, selection),
                },
                FrontEnd::Interface => NextView::StartWatcher { warning: None },
            },
        },
        Happened::WatcherStarted(result) => match result {
            Err(error) => NextView::End(
                EndingView {
                    lines: seq!["cannot start the file watcher: "@ + error@],
                    code: EXIT_ALBA_ERROR,
                },
            ),
            Ok(_) => match front {
                FrontEnd::Once => NextView::Run,
                FrontEnd::Watch => NextView::Watch,
                FrontEnd::Interface => NextView::OpenInterface,
            },
        },
        Happened::RunEnded { result, interrupted, renderer_panicked } => NextView::End(
            run_ending(result, interrupted, renderer_panicked),
        ),
        Happened::SessionEnded { exit, renderer_panicked } => NextView::End(
            session_ending(exit, renderer_panicked),
        ),
        Happened::InterfaceClosed { session, outcome, duration, max_lines } => NextView::End(
            interface_ending(
                session,
                outcome,
                affecting(selection),
                duration@,
                max_lines as nat,
                colour,
            ),
        ),
    }
}

/// The end of a single run.
pub fn execute_ending(
    result: &Result<RunSummary, String>,
    interrupted: bool,
    renderer_panicked: bool,
) -> (r: Ending)
    ensures
        r@ == run_ending(*result, interrupted, renderer_panicked),
{
    let mut lines: Vec<String> = Vec::new();
    if renderer_panicked {
        lines.push("the output renderer panicked; this run's report is incomplete".to_owned());
    }
    let earned = match result {
        Ok(summary) => run_exit_code(summary, interrupted),
        Err(error) => {
            lines.push(trim_end(error.as_str()));
            EXIT_ALBA_ERROR
        },
    };
    assert(views(lines@) =~= run_ending(*result, interrupted, renderer_panicked).lines);
    let code = if renderer_panicked {
        EXIT_ALBA_ERROR
    } else {
        earned
    };
    Ending { lines, code }
}

/// The end of a watch session.
pub fn watch_ending(exit: WatchExit, renderer_panicked: bool) -> (r: Ending)
    ensures
        r@ == session_ending(exit, renderer_panicked),
{
    if renderer_panicked {
        return crate::exit::with_line(
            "the output renderer panicked; this session's report is incomplete".to_owned(),
            EXIT_ALBA_ERROR,
        );
    }
    match exit {
        WatchExit::Interrupted => crate::exit::silent(0),
        WatchExit::WatcherClosed => crate::exit::with_line(
            "the file watcher stopped; ending the session".to_owned(),
            EXIT_ALBA_ERROR,
        ),
    }
}

/// The end of the interface.
pub fn tui_ending(
    session: Result<WatchExit, SessionPanicked>,
    outcome: &Result<TuiOutcome, String>,
    affected_by: &Option<String>,
    duration: &str,
    max_lines: usize,
    colour: bool,
) -> (r: Ending)
    ensures
        r@ == interface_ending(
            session,
            *outcome,
            opt_view(*affected_by),
            duration@,
            max_lines as nat,
            colour,
        ),
{
    let mut lines: Vec<String> = Vec::new();
    let failure = session_failure(session);
    if let Some(line) = failure {
        lines.push(line.to_owned());
    }
    let ghost said = views(lines@);
    assert(said =~= match failure_line(session) {
        Some(line) => seq![line],
        None => Seq::<Seq<char>>::empty(),
    });
    match outcome {
        Err(error) => {
            lines.push(text2("the interface failed: ", error.as_str()));
            assert(views(lines@) =~= said.push("the interface failed: "@ + error@));
            Ending { lines, code: EXIT_ALBA_ERROR }
        },
        Ok(left) => {
            let mut more = replay(left, affected_by, duration, max_lines, colour);
            let ghost rest = views(more@);
            lines.append(&mut more);
            assert(views(lines@) =~= said + rest);
            let code = if failure.is_some() {
                EXIT_ALBA_ERROR
            } else {
                match left.last_run_code {
                    Some(code) => code,
                    None => EXIT_INTERRUPTED,
                }
            };
            Ending { lines, code }
        },
    }
}

/// What comes next when a run is driven by `front`, after what happened.
pub fn advance(
    front: FrontEnd,
    project: &Project,
    selection: &Selection,
    colour: bool,
    what: &Happened,
) -> (r: Next)
    ensures
        r@ == next_step(front, project@, *selection, colour, *what),
{
    match what {
        Happened::Selected(result) => match result {
            Err(error) => Next::End(
                crate::exit::with_line(trim_end(error.as_str()), EXIT_ALBA_ERROR),
            ),
            Ok(_) => match front {
                FrontEnd::Once => Next::Run,
                FrontEnd::Watch => Next::StartWatcher {
                    warning: watch_warning(project, selection),
                },
                FrontEnd::Interface => Next::StartWatcher { warning: None },
            },
        },
        Happened::WatcherStarted(result) => match result {
            Err(error) => Next::End(
                crate::exit::with_line(
                    text2("cannot start the file watcher: ", error.as_str()),
                    EXIT_ALBA_ERROR,
                ),
            ),
            Ok(_) => match front {
                FrontEnd::Once => Next::Run,
                FrontEnd::Watch => Next::Watch,
                FrontEnd::Interface => Next::OpenInterface,
            },
        },
        Happened::RunEnded { result, interrupted, renderer_panicked } => Next::End(
            execute_ending(result, *interrupted, *renderer_panicked),
        ),
        Happened::SessionEnded { exit, renderer_panicked } => Next::End(
            watch_ending(*exit, *renderer_panicked),
        ),
        Happened::InterfaceClosed { session, outcome, duration, max_lines } => Next::End(
            tui_ending(
                *session,
                outcome,
                &reference_of(selection),
                duration.as_str(),
                *max_lines,
                colour,
            ),
        ),
    }
}

/// An interrupted run never passes for one that came to its end.
pub proof fn an_interrupted_run_is_no_success(
    result: Result<RunSummary, String>,
    renderer_panicked: bool,
)
    ensures
        ({
            let code = run_ending(result, true, renderer_panicked).code;
            code == EXIT_INTERRUPTED || code == EXIT_ALBA_ERROR
        }),
{
}

/// A single run ends with success exactly where it was carried out and
/// reported to its end, nobody interrupted it, and no beam failed.
pub proof fn success_means_nothing_went_wrong(
    result: Result<RunSummary, String>,
    interrupted: bool,
    renderer_panicked: bool,
)
    ensures
        run_ending(result, interrupted, renderer_panicked).code == 0 <==> (result is Ok
            && result->Ok_0.failed@.len() == 0 && !interrupted && !renderer_panicked),
{
}

/// The first cancellation is announced, and no other.
pub struct Announcer {
    pub announced: bool,
}

impl Announcer {
    pub fn new() -> (r: Announcer)
        ensures
            !r.announced,
    {
        Announcer { announced: false }
    }

    /// The line for a cancellation that is yet to be announced.
    pub fn cancelled(&mut self) -> (r: Option<&'static str>)
        ensures
            final(self).announced,
            match r {
                Some(line) => !old(self).announced && line@ == "cancelling..."@,
                None => old(self).announced,
            },
    {
        if self.announced {
            None
        } else {
            self.announced = true;
            Some("cancelling...")
        }
    }
}

/// What an interrupt does.
#[derive(Debug, Clone, Copy, PartialEq, Eq, Structural)]
pub enum Interruption {
    /// Stop the run in an orderly way.
    Cancel,
    /// Leave at once.
    Abort { code: i32 },
}

/// What an interrupt does: the first cancels the run, one after that gives up
/// on waiting for it.
pub fn interrupted(before: bool) -> (r: Interruption)
    ensures
        r == if before {
            Interruption::Abort { code: EXIT_INTERRUPTED }
        } else {
            Interruption::Cancel
        },
{
    if before {
        Interruption::Abort { code: EXIT_INTERRUPTED }
    } else {
        Interruption::Cancel
    }
}

} // verus!
