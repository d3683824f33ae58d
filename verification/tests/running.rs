//! Running: the command line's decisions, what a run shows, and how it ends.

use alba::affected::Selection;
use alba::args::{
    CacheCommand, Command, HooksCommand, LogFormat, OutputStyle, PluginCommand, RunFlags,
};
use alba::commands::{
    may_lack_a_beamfile, nothing_to_run, opening, resolve_beamfile, run, task, Opening, Removal,
    Task,
};
use alba::event::{BeamStatus, OutputLine, RunEvent, RunSummary, Stream};
use alba::exit::{EXIT_ALBA_ERROR, EXIT_INTERRUPTED};
use alba::git::GitError;
use alba::hooks::{hook_script, hooks_dir, install, uninstall, HooksStep};
use alba::json::{exit_code, json_line, json_text, millis, status_name};
use alba::model::{BeamId, Hook, Project};
use alba::plan::{executor_label, summarize, EngineError, Executors};
use alba::project_root::{
    beamfile_dir, cache_dir, display_paths, relative_to, roots_of, Reported,
};
use alba::render::{color_for, fnv1a, paint, status_label, summary_label, Hue, Print};
use alba::renderers::{GroupedRenderer, InterleavedRenderer, JsonRenderer};
use alba::run_command::{
    advance, color_enabled, default_output, front_end, interrupted, reference_of, renderer,
    replay, resolve_jobs, run_exit_code, run_options, selection_label, session_failure,
    ui_enabled, watch_renderer, Announcer, FrontEnd, Happened, Interruption, Next,
    RendererChoice, ReplayLine, RunRequest, SessionPanicked, TuiOutcome, UiDecision, WatchExit,
};
use alba::syntax::{Span, Spanned};

fn id(name: &str) -> BeamId {
    BeamId(name.to_string())
}

fn strings(list: &[&str]) -> Vec<String> {
    list.iter().map(|s| s.to_string()).collect()
}

fn here() -> Result<String, String> {
    Ok("/work".to_string())
}

fn outs(lines: &[&str]) -> Vec<Print> {
    lines.iter().map(|line| Print::Stdout(line.to_string())).collect()
}

#[test]
fn a_bare_beamfile_watches_the_current_directory() {
    assert_eq!(roots_of("Beamfile", &strings(&["Beamfile"]), &here()), ["/work"]);
}

#[test]
fn beamfiles_under_the_root_add_no_roots() {
    let loaded = strings(&["/work/project/Beamfile", "/work/project/modules/api/Beamfile"]);
    assert_eq!(roots_of("/work/project/Beamfile", &loaded, &here()), ["/work/project"]);
}

#[test]
fn a_beamfile_outside_the_root_adds_its_directory_once() {
    let loaded =
        strings(&["/work/project/Beamfile", "/work/shared/A.beam", "/work/shared/B.beam"]);
    assert_eq!(
        roots_of("/work/project/Beamfile", &loaded, &here()),
        ["/work/project", "/work/shared"]
    );
}

#[test]
fn a_root_without_a_current_directory_stays_as_it_is() {
    let gone = Err("gone".to_string());
    assert_eq!(beamfile_dir("Beamfile", &gone), ".");
    assert_eq!(beamfile_dir("sub/Beamfile", &gone), "sub");
    assert_eq!(beamfile_dir("/a/./b//Beamfile", &gone), "/a/b");
    assert_eq!(beamfile_dir("sub/Beamfile", &here()), "/work/sub");
}

#[test]
fn an_explicit_jobs_value_wins_over_the_platform_default() {
    assert_eq!(resolve_jobs(Some(3), Some(8)), 3);
}

#[test]
fn an_omitted_jobs_value_follows_the_platform() {
    assert_eq!(resolve_jobs(None, Some(8)), 8);
}

#[test]
fn an_unknown_platform_parallelism_falls_back_to_one() {
    assert_eq!(resolve_jobs(None, None), 1);
}

#[test]
fn the_tui_is_the_default_on_a_terminal_only() {
    let flags = RunFlags::default();
    assert_eq!(ui_enabled(&flags, true), UiDecision::Tui);
    assert_eq!(ui_enabled(&flags, false), UiDecision::Headless);
}

#[test]
fn asking_for_a_text_layout_or_json_means_headless() {
    let json = RunFlags { log_format: LogFormat::Json, ..RunFlags::default() };
    let text = RunFlags { output: Some(OutputStyle::Grouped), ..RunFlags::default() };
    let off = RunFlags { no_ui: true, ..RunFlags::default() };
    for flags in [json, text, off] {
        assert_eq!(ui_enabled(&flags, true), UiDecision::Headless);
    }
}

#[test]
fn forcing_the_ui_off_a_terminal_is_refused_not_garbled() {
    let flags = RunFlags { ui: true, ..RunFlags::default() };
    assert_eq!(ui_enabled(&flags, false), UiDecision::RefusedNoTty);
    assert_eq!(ui_enabled(&flags, true), UiDecision::Tui);
    let ending = front_end(&flags, false).unwrap_err();
    assert_eq!(ending.lines, ["--ui needs a terminal; stdout is not one"]);
    assert_eq!(ending.code, EXIT_ALBA_ERROR);
}

#[test]
fn turning_the_ui_off_wins_over_forcing_it_on() {
    let flags = RunFlags { ui: true, no_ui: true, ..RunFlags::default() };
    assert_eq!(ui_enabled(&flags, true), UiDecision::Headless);
    assert_eq!(ui_enabled(&flags, false), UiDecision::Headless);
}

#[test]
fn the_watch_flag_splits_only_the_headless_runs() {
    let watch = RunFlags { watch: true, ..RunFlags::default() };
    assert_eq!(front_end(&watch, true), Ok(FrontEnd::Interface));
    assert_eq!(front_end(&watch, false), Ok(FrontEnd::Watch));
    assert_eq!(front_end(&RunFlags::default(), false), Ok(FrontEnd::Once));
}

#[test]
fn a_renderer_follows_the_format_the_layout_and_the_terminal() {
    let plain = RunFlags::default();
    let json = RunFlags {
        log_format: LogFormat::Json,
        output: Some(OutputStyle::Grouped),
        ..RunFlags::default()
    };
    let lines = RunFlags { output: Some(OutputStyle::Interleaved), ..RunFlags::default() };
    assert_eq!(
        renderer(&plain, true, true),
        RendererChoice::Interleaved { color: true, clear: false }
    );
    assert_eq!(renderer(&plain, false, false), RendererChoice::Grouped { clear: false });
    assert_eq!(renderer(&json, true, true), RendererChoice::Json);
    assert_eq!(
        renderer(&lines, false, false),
        RendererChoice::Interleaved { color: false, clear: false }
    );
    assert_eq!(
        watch_renderer(&plain, true, false),
        RendererChoice::Interleaved { color: false, clear: true }
    );
    assert_eq!(watch_renderer(&plain, false, false), RendererChoice::Grouped { clear: false });
    assert_eq!(default_output(true), OutputStyle::Interleaved);
    assert_eq!(default_output(false), OutputStyle::Grouped);
    assert!(color_enabled(true, false));
    assert!(!color_enabled(true, true));
    assert!(!color_enabled(false, false));
}

#[test]
fn a_session_is_called_by_what_was_selected() {
    let affected = |within: Option<&str>| Selection::Affected {
        reference: "HEAD".to_string(),
        within: within.map(id),
    };
    assert_eq!(selection_label(&Selection::Beam(id("build"))), "build");
    assert_eq!(selection_label(&affected(Some("test"))), "test");
    assert_eq!(selection_label(&affected(None)), "affected by HEAD");
    assert_eq!(reference_of(&Selection::Beam(id("build"))), None);
    assert_eq!(reference_of(&affected(None)).as_deref(), Some("HEAD"));
}

fn replayed_with(outcome: &TuiOutcome, affected_by: Option<&str>, colour: bool) -> Vec<String> {
    replay(outcome, &affected_by.map(str::to_string), "0.0s", 5000, colour)
}

fn replayed(outcome: &TuiOutcome, affected_by: Option<&str>) -> Vec<String> {
    replayed_with(outcome, affected_by, false)
}

fn plain_lines(lines: Vec<String>) -> Vec<ReplayLine> {
    lines.into_iter().map(|line| ReplayLine { raw: line.clone(), text: line }).collect()
}

fn outcome(
    summary: Option<RunSummary>,
    failed_logs: Vec<(String, Vec<ReplayLine>)>,
) -> TuiOutcome {
    TuiOutcome {
        last_run_code: summary.as_ref().map(RunSummary::exit_code),
        last_summary: summary,
        failed_logs,
    }
}

#[test]
fn the_replay_of_a_green_run_is_its_summary() {
    let summary = RunSummary { succeeded: vec![id("ok")], ..RunSummary::new() };
    let lines = replayed(&outcome(Some(summary), Vec::new()), None);
    assert_eq!(lines.len(), 1, "got: {lines:?}");
    assert!(
        lines[0].contains("1 succeeded"),
        "the summary the text renderers print, got: {lines:?}"
    );
}

#[test]
fn the_replay_of_a_failing_beam_carries_its_buffered_output() {
    let summary = RunSummary { failed: vec![id("bad")], ..RunSummary::new() };
    let logs = vec![(
        "bad".to_string(),
        plain_lines(vec!["boom 1".to_string(), "boom 2".to_string()]),
    )];
    let lines = replayed(&outcome(Some(summary), logs), None);
    assert!(lines[0].contains("1 failed"), "got: {lines:?}");
    assert_eq!(
        &lines[1..],
        ["\u{2500}\u{2500} bad \u{2500}\u{2500}", "boom 1", "boom 2"],
        "the beam's header, then every line it printed"
    );
}

#[test]
fn a_truncated_beams_replay_discloses_what_is_missing() {
    let max_lines = 5000;
    let summary = RunSummary { failed: vec![id("chatty")], ..RunSummary::new() };
    let logs = vec![(
        "chatty".to_string(),
        plain_lines((0..max_lines).map(|index| format!("line {index}")).collect::<Vec<_>>()),
    )];
    let lines = replayed(&outcome(Some(summary), logs), None);
    assert_eq!(lines[1], "\u{2500}\u{2500} chatty \u{2500}\u{2500}");
    assert!(
        lines[2].contains(&format!("at most {max_lines} lines")),
        "the disclosure comes before the lines themselves, got: {:?}",
        lines[2]
    );
    assert_eq!(lines[3], "line 0");
    assert_eq!(lines.len(), 3 + max_lines);
}

#[test]
fn a_session_with_no_finished_run_replays_nothing() {
    assert!(replayed(&outcome(None, Vec::new()), None).is_empty());
}

#[test]
fn the_replay_of_an_empty_affected_run_says_nothing_was_affected() {
    let lines = replayed(&outcome(Some(RunSummary::new()), Vec::new()), Some("HEAD"));
    assert_eq!(lines, ["\u{2713} nothing affected by HEAD"]);
}

#[test]
fn the_replay_prints_raw_lines_with_colour_and_plain_lines_without() {
    let summary = RunSummary { failed: vec![id("red")], ..RunSummary::new() };
    let line =
        ReplayLine { raw: "\u{1b}[31mred\u{1b}[0m".to_string(), text: "red".to_string() };
    let outcome = outcome(Some(summary), vec![("red".to_string(), vec![line])]);
    let coloured = replayed_with(&outcome, None, true);
    assert!(coloured.iter().any(|l| l == "\u{1b}[31mred\u{1b}[0m"), "{coloured:?}");
    let plain = replayed_with(&outcome, None, false);
    assert!(plain.iter().any(|l| l == "red"), "{plain:?}");
    assert!(plain.iter().all(|l| !l.contains('\u{1b}')), "{plain:?}");
}

#[test]
fn an_interrupted_session_is_not_a_failure() {
    assert_eq!(session_failure(Ok(WatchExit::Interrupted)), None);
}

#[test]
fn a_dead_watcher_is_reported_the_way_the_headless_session_reports_it() {
    let message = session_failure(Ok(WatchExit::WatcherClosed))
        .expect("a session whose watcher died must say so");
    assert!(message.contains("file watcher"), "got: {message}");
}

#[test]
fn a_session_that_panicked_is_a_failure() {
    assert!(session_failure(Err(SessionPanicked)).is_some());
}

#[test]
fn an_uninterrupted_run_reports_the_summarys_code() {
    let failed = RunSummary { failed: vec![id("bad")], ..RunSummary::new() };
    assert_eq!(run_exit_code(&RunSummary::new(), false), 0);
    assert_eq!(run_exit_code(&failed, false), 1);
}

#[test]
fn an_interrupted_run_reports_130_even_though_nothing_failed() {
    let cancelled = RunSummary { cancelled: vec![id("slow")], ..RunSummary::new() };
    assert_eq!(cancelled.exit_code(), 0, "precondition");
    assert_eq!(run_exit_code(&cancelled, true), EXIT_INTERRUPTED);
}

fn request(flags: RunFlags, colour: bool) -> RunRequest {
    RunRequest {
        beamfile: "sub/Beamfile".to_string(),
        params: strings(&["staging"]),
        flags,
        parallelism: Some(4),
        colour,
    }
}

#[test]
fn a_runs_options_come_from_the_flags_and_the_beamfile() {
    let flags = RunFlags { keep_going: true, force: true, ..RunFlags::default() };
    let options = run_options(&request(flags, true), FrontEnd::Once);
    assert_eq!(options.jobs, 4);
    assert!(options.keep_going);
    assert_eq!(options.params, ["staging"]);
    assert!(options.extra_env.is_empty());
    let cache = options.cache.unwrap();
    assert_eq!(cache.dir, "sub/.alba/cache");
    assert!(cache.force);

    let shown = run_options(&request(flags, true), FrontEnd::Interface);
    assert_eq!(
        shown.extra_env,
        [
            ("FORCE_COLOR".to_string(), "1".to_string()),
            ("CLICOLOR_FORCE".to_string(), "1".to_string()),
        ]
    );
    assert!(run_options(&request(flags, false), FrontEnd::Interface).extra_env.is_empty());
    assert_eq!(cache_dir("Beamfile"), "./.alba/cache");
}

fn empty() -> Project {
    Project { beams: Vec::new(), default: None, hooks: Vec::new() }
}

fn next(front: FrontEnd, what: Happened) -> Next {
    advance(front, &empty(), &Selection::Beam(id("build")), false, &what)
}

fn ending(front: FrontEnd, what: Happened) -> (Vec<String>, i32) {
    match next(front, what) {
        Next::End(ending) => (ending.lines, ending.code),
        _ => panic!("the run must end"),
    }
}

#[test]
fn a_run_is_driven_from_its_selection_to_its_end() {
    let selected = || Happened::Selected(Ok(()));
    let watching = || Happened::WatcherStarted(Ok(()));
    assert!(matches!(next(FrontEnd::Once, selected()), Next::Run));
    assert!(matches!(
        next(FrontEnd::Watch, selected()),
        Next::StartWatcher { warning: None }
    ));
    assert!(matches!(
        next(FrontEnd::Interface, selected()),
        Next::StartWatcher { warning: None }
    ));
    assert!(matches!(next(FrontEnd::Watch, watching()), Next::Watch));
    assert!(matches!(next(FrontEnd::Interface, watching()), Next::OpenInterface));
    assert_eq!(
        ending(FrontEnd::Once, Happened::Selected(Err("unknown beam\n\n".to_string()))),
        (strings(&["unknown beam"]), 2)
    );
    assert_eq!(
        ending(FrontEnd::Watch, Happened::WatcherStarted(Err("no inotify".to_string()))),
        (strings(&["cannot start the file watcher: no inotify"]), 2)
    );
}

#[test]
fn the_end_of_a_single_run_decides_the_exit_code() {
    let failed = || RunSummary { failed: vec![id("bad")], ..RunSummary::new() };
    let ended = |result, interrupted, renderer_panicked| {
        ending(
            FrontEnd::Once,
            Happened::RunEnded { result, interrupted, renderer_panicked },
        )
    };
    assert_eq!(ended(Ok(RunSummary::new()), false, false), (Vec::new(), 0));
    assert_eq!(ended(Ok(failed()), false, false), (Vec::new(), 1));
    assert_eq!(ended(Ok(RunSummary::new()), true, false), (Vec::new(), 130));
    assert_eq!(
        ended(Err("no executor\n".to_string()), true, false),
        (strings(&["no executor"]), 2)
    );
    assert_eq!(
        ended(Ok(RunSummary::new()), false, true),
        (strings(&["the output renderer panicked; this run's report is incomplete"]), 2)
    );
}

#[test]
fn the_end_of_a_watch_session_is_a_success_unless_something_died() {
    let ended = |exit, renderer_panicked| {
        ending(FrontEnd::Watch, Happened::SessionEnded { exit, renderer_panicked })
    };
    assert_eq!(ended(WatchExit::Interrupted, false), (Vec::new(), 0));
    assert_eq!(
        ended(WatchExit::WatcherClosed, false),
        (strings(&["the file watcher stopped; ending the session"]), 2)
    );
    assert_eq!(
        ended(WatchExit::Interrupted, true),
        (strings(&["the output renderer panicked; this session's report is incomplete"]), 2)
    );
}

#[test]
fn the_end_of_the_interface_is_the_last_runs_code() {
    let closed = |session, outcome: Result<TuiOutcome, String>| {
        ending(
            FrontEnd::Interface,
            Happened::InterfaceClosed {
                session,
                outcome,
                duration: "1.0s".to_string(),
                max_lines: 10,
            },
        )
    };
    let done = || {
        outcome(Some(RunSummary { failed: vec![id("bad")], ..RunSummary::new() }), Vec::new())
    };
    assert_eq!(
        closed(Ok(WatchExit::Interrupted), Ok(done())),
        (strings(&["\u{2717} 1 failed \u{b7} 1.0s"]), 1)
    );
    assert_eq!(
        closed(Ok(WatchExit::Interrupted), Ok(outcome(None, Vec::new()))),
        (Vec::new(), 130)
    );
    assert_eq!(
        closed(Ok(WatchExit::WatcherClosed), Ok(done())),
        (
            strings(&[
                "the file watcher stopped; ending the session",
                "\u{2717} 1 failed \u{b7} 1.0s"
            ]),
            2
        )
    );
    assert_eq!(
        closed(Ok(WatchExit::Interrupted), Err("no screen".to_string())),
        (strings(&["the interface failed: no screen"]), 2)
    );
}

#[test]
fn only_the_first_cancellation_is_announced() {
    let mut announcer = Announcer::new();
    assert_eq!(announcer.cancelled(), Some("cancelling..."));
    assert_eq!(announcer.cancelled(), None);
    assert_eq!(interrupted(false), Interruption::Cancel);
    assert_eq!(interrupted(true), Interruption::Abort { code: 130 });
}

#[test]
fn labels_a_failure_with_its_exit_code_but_an_allowed_one_without() {
    assert_eq!(status_label(&BeamStatus::Failed { exit_code: 7 }), "failed (exit 7)");
    assert_eq!(status_label(&BeamStatus::FailedAllowed { exit_code: 1 }), "failed (allowed)");
    assert_eq!(status_label(&BeamStatus::Failed { exit_code: -1 }), "failed (exit -1)");
    assert_eq!(status_label(&BeamStatus::Succeeded), "ok");
    assert_eq!(status_label(&BeamStatus::Cached), "cached");
    assert_eq!(status_label(&BeamStatus::Cancelled), "cancelled");
}

#[test]
fn a_summary_counts_only_what_happened() {
    let summary = RunSummary {
        succeeded: vec![id("a"), id("b"), id("c")],
        cached: vec![id("g")],
        failed: vec![id("d")],
        failed_allowed: vec![id("h")],
        cancelled: vec![id("e"), id("f")],
        duration_ms: 4100,
    };
    assert_eq!(
        summary_label(&summary, &None, "4.1s"),
        "✓ 3 succeeded · ⚡ 1 cached · ✗ 1 failed · ⚠ 1 failed (allowed) · ⊘ 2 cancelled · 4.1s"
    );
    assert_eq!(summary_label(&RunSummary::new(), &None, "0.0s"), "0.0s");
    assert_eq!(
        summary_label(&summary, &Some("HEAD".to_string()), "4.1s"),
        summary_label(&summary, &None, "4.1s")
    );
}

fn output(name: &str, text: &str) -> RunEvent {
    RunEvent::BeamOutput {
        id: id(name),
        line: OutputLine { stream: Stream::Stdout, text: text.to_string() },
        replayed: false,
    }
}

fn finished(name: &str, status: BeamStatus) -> RunEvent {
    RunEvent::BeamFinished { id: id(name), status, duration_ms: 0 }
}

#[test]
fn the_final_event_drains_any_beam_left_unfinished() {
    let mut renderer = GroupedRenderer::new(false);
    renderer.handle(&output("orphan", "would be lost"), "0.0s");
    assert!(renderer.buffers.iter().any(|group| group.id == "orphan"));
    let shown = renderer.handle(&RunEvent::RunFinished { summary: RunSummary::new() }, "0.0s");
    assert!(
        renderer.buffers.is_empty(),
        "a beam left unfinished must still be flushed, not dropped"
    );
    assert_eq!(
        shown,
        [
            Print::Stdout("── orphan (unfinished) ──".to_string()),
            Print::Stdout("would be lost".to_string()),
            Print::Stderr("0.0s".to_string()),
        ]
    );
}

#[test]
fn a_group_is_shown_whole_when_its_beam_ends() {
    let mut renderer = GroupedRenderer::new(false);
    assert!(renderer.handle(&RunEvent::BeamStarted { id: id("b") }, "").is_empty());
    assert!(renderer.handle(&RunEvent::BeamStarted { id: id("a") }, "").is_empty());
    assert!(renderer.handle(&output("b", "one"), "").is_empty());
    assert!(renderer.handle(&output("a", "other"), "").is_empty());
    assert!(renderer.handle(&output("b", "two"), "").is_empty());
    assert_eq!(
        renderer.handle(&finished("b", BeamStatus::Succeeded), "1.5s"),
        outs(&["── b (1.5s, ok) ──", "one", "two"])
    );
    assert_eq!(
        renderer.handle(&finished("quiet", BeamStatus::Cancelled), "0.0s"),
        outs(&["── quiet (0.0s, cancelled) ──"])
    );
    assert_eq!(
        renderer.handle(&finished("a", BeamStatus::Failed { exit_code: 3 }), "2.0s"),
        outs(&["── a (2.0s, failed (exit 3)) ──", "other"])
    );
}

#[test]
fn beams_left_unfinished_are_shown_by_name() {
    let mut renderer = GroupedRenderer::new(false);
    renderer.handle(&output("zeta", "z"), "");
    renderer.handle(&output("alpha", "a"), "");
    let shown = renderer.handle(&RunEvent::RunFinished { summary: RunSummary::new() }, "0.1s");
    assert_eq!(
        &shown[..4],
        outs(&["── alpha (unfinished) ──", "a", "── zeta (unfinished) ──", "z"])
    );
}

#[test]
fn a_triggered_run_clears_the_screen_where_it_may() {
    let triggered = RunEvent::WatchTriggered { paths: strings(&["src/lib.rs"]) };
    assert_eq!(GroupedRenderer::new(true).handle(&triggered, ""), [Print::Clear]);
    assert!(GroupedRenderer::new(false).handle(&triggered, "").is_empty());
    assert_eq!(InterleavedRenderer::new(false, true).handle(&triggered, ""), [Print::Clear]);
    assert!(InterleavedRenderer::new(false, false).handle(&triggered, "").is_empty());
}

#[test]
fn every_line_is_shown_with_its_beam() {
    let renderer = InterleavedRenderer::new(false, false);
    assert_eq!(
        renderer.handle(&RunEvent::BeamStarted { id: id("build") }, ""),
        outs(&["build │ started"])
    );
    assert_eq!(
        renderer.handle(&output("build", "Compiling alba v0.1.0"), ""),
        outs(&["build │ Compiling alba v0.1.0"])
    );
    assert_eq!(
        renderer.handle(&finished("build", BeamStatus::Failed { exit_code: 7 }), "1.2s"),
        outs(&["build │ failed (exit 7) in 1.2s"])
    );
    let coloured = InterleavedRenderer::new(true, false);
    let expected = format!("{} │ started", paint("build", color_for("build")));
    assert_eq!(
        coloured.handle(&RunEvent::BeamStarted { id: id("build") }, ""),
        outs(&[expected.as_str()])
    );
}

#[test]
fn a_run_of_nothing_affected_says_so_in_every_layout() {
    let ended = RunEvent::RunFinished { summary: RunSummary::new() };
    let said = [Print::Stderr("✓ nothing affected by HEAD".to_string())];
    let reference = Some("HEAD".to_string());
    let mut grouped = GroupedRenderer::new(false).with_reference(reference.clone());
    assert_eq!(grouped.handle(&ended, "0.0s"), said);
    let lines = InterleavedRenderer::new(false, false).with_reference(reference);
    assert_eq!(lines.handle(&ended, "0.0s"), said);
}

#[test]
fn a_broken_project_is_told_on_stderr_in_every_layout() {
    let broken = RunEvent::ProjectBroken { diagnostic: "error: oh no\n\n".to_string() };
    let said = Print::Stderr("error: oh no".to_string());
    assert_eq!(GroupedRenderer::new(false).handle(&broken, ""), [said]);
    let said = Print::Stderr("error: oh no".to_string());
    assert_eq!(InterleavedRenderer::new(false, false).handle(&broken, ""), [said]);
    let shown = JsonRenderer::new().handle(&broken);
    assert_eq!(
        shown,
        [
            Print::Stderr("error: oh no".to_string()),
            Print::Stdout(
                r#"{"event":"project_broken","diagnostic":"error: oh no\n\n"}"#.to_string()
            ),
        ]
    );
}

#[test]
fn a_beam_id_always_gets_the_same_color() {
    assert_eq!(color_for("build"), color_for("build"));
    assert_eq!(color_for("api:test"), color_for("api:test"));
}

#[test]
fn different_ids_spread_across_the_palette() {
    let ids = ["build", "test", "lint", "deploy", "docs", "bench"];
    let used: std::collections::HashSet<Hue> = ids.iter().map(|id| color_for(id)).collect();
    assert!(used.len() > 1, "a palette that collapses every id to one colour is useless");
}

#[test]
fn a_hash_is_the_same_everywhere() {
    assert_eq!(fnv1a(""), 0xcbf2_9ce4_8422_2325);
    assert_eq!(fnv1a("a"), 0xaf63_dc4c_8601_ec8c);
    assert_eq!(fnv1a("foobar"), 0x85944171f73967e8);
}

#[test]
fn a_painted_text_is_reset_after_it() {
    assert_eq!(paint("x", Hue::Cyan), "\u{1b}[36mx\u{1b}[39m");
    assert_eq!(paint("x", Hue::Green), "\u{1b}[32mx\u{1b}[39m");
    assert_eq!(paint("x", Hue::Yellow), "\u{1b}[33mx\u{1b}[39m");
    assert_eq!(paint("x", Hue::Blue), "\u{1b}[34mx\u{1b}[39m");
    assert_eq!(paint("x", Hue::Magenta), "\u{1b}[35mx\u{1b}[39m");
    assert_eq!(paint("x", Hue::BrightCyan), "\u{1b}[96mx\u{1b}[39m");
}

fn json(event: &RunEvent) -> serde_json::Value {
    serde_json::from_str(&json_line(event)).unwrap()
}

#[test]
fn output_carries_the_stream_it_came_from() {
    let value = json(&RunEvent::BeamOutput {
        id: id("build"),
        line: OutputLine { stream: Stream::Stderr, text: "warning".to_string() },
        replayed: false,
    });
    assert_eq!(value["event"], "beam_output");
    assert_eq!(value["beam"], "build");
    assert_eq!(value["stream"], "stderr");
    assert_eq!(value["text"], "warning");
}

#[test]
fn a_failure_reports_its_exit_code_and_a_success_reports_none() {
    let finished =
        |status| RunEvent::BeamFinished { id: id("build"), status, duration_ms: 1500 };
    let failed = json(&finished(BeamStatus::Failed { exit_code: 7 }));
    assert_eq!(failed["status"], "failed");
    assert_eq!(failed["exit_code"], 7);
    assert_eq!(failed["duration_ms"], 1500);
    let succeeded = json(&finished(BeamStatus::Succeeded));
    assert_eq!(succeeded["status"], "succeeded");
    assert!(succeeded["exit_code"].is_null());
}

#[test]
fn a_cached_beam_emits_its_own_event_and_status() {
    let cached = json(&RunEvent::BeamCached { id: id("gen") });
    assert_eq!(cached["event"], "beam_cached");
    assert_eq!(cached["beam"], "gen");
    let finished = json(&RunEvent::BeamFinished {
        id: id("gen"),
        status: BeamStatus::Cached,
        duration_ms: 2100,
    });
    assert_eq!(finished["status"], "cached");
    assert!(finished["exit_code"].is_null());
}

#[test]
fn output_lines_carry_the_replayed_marker() {
    let event = |replayed| RunEvent::BeamOutput {
        id: id("gen"),
        line: OutputLine { stream: Stream::Stdout, text: "generated".to_string() },
        replayed,
    };
    assert_eq!(json(&event(true))["replayed"], true);
    assert_eq!(json(&event(false))["replayed"], false);
}

#[test]
fn the_final_event_carries_the_cached_bucket() {
    let event = RunEvent::RunFinished {
        summary: RunSummary { cached: vec![id("gen")], ..RunSummary::new() },
    };
    assert_eq!(json(&event)["cached"][0], "gen");
}

#[test]
fn the_final_event_carries_every_bucket_and_the_exit_code() {
    let event = RunEvent::RunFinished {
        summary: RunSummary {
            succeeded: vec![id("a")],
            failed: vec![id("b")],
            ..RunSummary::new()
        },
    };
    let value = json(&event);
    assert_eq!(value["event"], "run_finished");
    assert_eq!(value["succeeded"][0], "a");
    assert_eq!(value["failed"][0], "b");
    assert_eq!(value["exit_code"], 1);
}

#[test]
fn run_started_is_emitted_on_the_wire() {
    let event = RunEvent::RunStarted {
        target: id("build"),
        beams: vec![id("codegen"), id("build")],
        edges: vec![(id("build"), id("codegen"))],
    };
    assert_eq!(
        json_line(&event),
        r#"{"event":"run_started","target":"build","beams":["codegen","build"],"edges":[["build","codegen"]]}"#
    );
}

#[test]
fn watch_events_serialize_with_their_own_tags() {
    let waiting = RunEvent::WatchWaiting { files: 42 };
    let triggered = RunEvent::WatchTriggered { paths: vec!["src/lib.rs".to_string()] };
    assert_eq!(json_line(&waiting), r#"{"event":"watch_waiting","files":42}"#);
    assert_eq!(
        json_line(&triggered),
        r#"{"event":"watch_triggered","paths":["src/lib.rs"]}"#
    );
}

#[test]
fn project_broken_is_emitted_on_the_wire() {
    let event = RunEvent::ProjectBroken { diagnostic: "error: oh no\n".to_string() };
    assert_eq!(
        json_line(&event),
        r#"{"event":"project_broken","diagnostic":"error: oh no\n"}"#
    );
}

#[test]
fn a_json_string_escapes_what_json_does_not_take() {
    assert_eq!(json_text("a\"b\\c\n\t\r\u{8}\u{c}\u{1}\u{1f}é\u{7f}"),
        "\"a\\\"b\\\\c\\n\\t\\r\\b\\f\\u0001\\u001fé\u{7f}\"");
    let back: String = serde_json::from_str(&json_text("\u{0}\u{10}x")).unwrap();
    assert_eq!(back, "\u{0}\u{10}x");
}

#[test]
fn statuses_have_names_and_codes_on_the_wire() {
    assert_eq!(status_name(&BeamStatus::FailedAllowed { exit_code: 2 }), "failed_allowed");
    assert_eq!(status_name(&BeamStatus::Cancelled), "cancelled");
    assert_eq!(exit_code(&BeamStatus::FailedAllowed { exit_code: 2 }), Some(2));
    assert_eq!(exit_code(&BeamStatus::Cached), None);
    assert_eq!(millis(1500), 1500);
    assert_eq!(millis(u128::MAX), u64::MAX);
}

#[test]
fn an_empty_root_shortens_nothing() {
    assert_eq!(relative_to("", &None, "/project/src/input.txt", &None), "/project/src/input.txt");
}

#[test]
fn a_relative_root_shortens_a_path_spelled_from_it() {
    assert_eq!(relative_to("project", &None, "project/src/input.txt", &None), "src/input.txt");
}

#[test]
fn a_path_outside_the_root_is_left_as_it_came() {
    let path = "/elsewhere/shared/input.txt";
    assert_eq!(
        relative_to("/root", &Some("/root".to_string()), path, &Some(path.to_string())),
        path
    );
}

#[test]
fn a_path_that_no_longer_exists_is_still_shortened() {
    assert_eq!(
        relative_to("/root", &Some("/root".to_string()), "/root/src/deleted.txt", &None),
        "src/deleted.txt"
    );
}

#[test]
fn a_root_spelled_through_a_symlink_still_shortens_what_the_watcher_reports() {
    let canonical = Some("/private/var/p".to_string());
    assert_eq!(
        relative_to("/var/p", &canonical, "/private/var/p/src/input.txt", &None),
        "src/input.txt"
    );
    assert_eq!(
        relative_to(
            "/var/p",
            &canonical,
            "/link/src/input.txt",
            &Some("/private/var/p/src/input.txt".to_string())
        ),
        "src/input.txt"
    );
}

fn reported(path: &str) -> Reported {
    Reported { path: path.to_string(), canonical: None }
}

#[test]
fn a_bare_beamfile_roots_the_session_at_the_current_directory() {
    let root = beamfile_dir("Beamfile", &here());
    assert_eq!(
        display_paths(&root, &None, &vec![reported("/work/src/input.txt")]),
        ["src/input.txt"]
    );
}

#[test]
fn a_named_beamfile_roots_the_session_at_its_own_directory() {
    let root = beamfile_dir("/elsewhere/Beamfile", &here());
    assert_eq!(
        display_paths(&root, &None, &vec![reported("/elsewhere/src/input.txt")]),
        ["src/input.txt"]
    );
}

#[test]
fn shown_paths_are_sorted_and_shown_once() {
    let paths = vec![
        reported("/work/src/b.rs"),
        reported("/work/a\\c.txt"),
        reported("/work/src/b.rs"),
        reported("/work/src//b.rs"),
        reported("/other/x"),
    ];
    assert_eq!(
        display_paths("/work", &None, &paths),
        ["/other/x", "a/c.txt", "src//b.rs", "src/b.rs"]
    );
}

#[test]
fn missing_beamfile_is_exit_2() {
    assert_eq!(
        resolve_beamfile(&None, false, &here()),
        Err("no Beamfile found in /work (searched Beamfile)".to_string())
    );
    assert_eq!(resolve_beamfile(&None, true, &here()), Ok("Beamfile".to_string()));
}

#[test]
fn file_flag_missing_target_is_exit_2() {
    let file = Some("some/where/Other.beam".to_string());
    assert_eq!(
        resolve_beamfile(&file, false, &here()),
        Err("no Beamfile found in /work/some/where (searched Other.beam)".to_string())
    );
    assert_eq!(
        resolve_beamfile(&file, true, &here()),
        Ok("some/where/Other.beam".to_string())
    );
    assert_eq!(
        resolve_beamfile(&Some("/".to_string()), false, &here()),
        Err("no Beamfile found in /work (searched /)".to_string())
    );
}

#[test]
fn a_cache_that_is_not_there_is_as_good_as_removed() {
    let ended = |removal| run("sub/Beamfile", &CacheCommand::Clean, &removal);
    assert_eq!(ended(Removal::Removed).code, 0);
    assert_eq!(ended(Removal::Missing).code, 0);
    let failed = ended(Removal::Failed("denied".to_string()));
    assert_eq!(failed.code, EXIT_ALBA_ERROR);
    assert_eq!(failed.lines, ["cannot clean the cache at sub/.alba/cache: denied"]);
}

fn with_default(name: &str) -> Project {
    let mut project = empty();
    project.default = Some(Spanned::new(id(name), Span::new(0, 0)));
    project
}

fn runs(beam: &str, params: &[&str], flags: RunFlags) -> Task {
    Task::Run { selection: Selection::Beam(id(beam)), params: strings(params), flags }
}

#[test]
fn without_a_command_the_default_beam_runs_or_all_are_listed() {
    assert_eq!(task(&None, &with_default("build")), runs("build", &[], RunFlags::default()));
    assert_eq!(task(&None, &empty()), Task::List);
}

#[test]
fn a_command_sets_its_task() {
    let run = |beam: Option<&str>, affected: Option<&str>| {
        Some(Command::Run {
            beam: beam.map(str::to_string),
            params: strings(&["x"]),
            affected: affected.map(str::to_string),
            flags: RunFlags { force: true, ..RunFlags::default() },
        })
    };
    let flags = RunFlags { force: true, ..RunFlags::default() };
    let project = with_default("build");
    assert_eq!(task(&run(Some("test"), None), &project), runs("test", &["x"], flags));
    assert_eq!(task(&run(None, None), &project), runs("build", &["x"], flags));
    assert_eq!(task(&run(None, None), &empty()), Task::NothingToRun);
    let ending = nothing_to_run();
    assert_eq!(ending.lines, ["no beam to run: name one, or declare a `default`"]);
    assert_eq!(ending.code, 2);
    assert_eq!(
        task(&run(None, Some("HEAD")), &project),
        Task::Run {
            selection: Selection::Affected { reference: "HEAD".to_string(), within: None },
            params: strings(&["x"]),
            flags,
        }
    );
    assert_eq!(
        task(&run(Some("test"), Some("HEAD")), &project),
        Task::Run {
            selection: Selection::Affected {
                reference: "HEAD".to_string(),
                within: Some(id("test")),
            },
            params: strings(&["x"]),
            flags,
        }
    );
    assert_eq!(task(&Some(Command::Check), &project), Task::Check);
    let affected =
        Command::Affected { reference: "main".to_string(), log_format: LogFormat::Json };
    assert_eq!(
        task(&Some(affected), &project),
        Task::Affected { reference: "main".to_string(), log_format: LogFormat::Json }
    );
    let cache = Some(Command::Cache(CacheCommand::Clean));
    let plugin = Some(Command::Plugin(PluginCommand::Check {
        binary: "p".to_string(),
        command: "echo".to_string(),
        cancel_command: "sleep".to_string(),
    }));
    let hooks = Some(Command::Hooks(HooksCommand::Install));
    assert_eq!(task(&cache, &empty()), Task::Elsewhere);
    assert_eq!(task(&hooks, &empty()), Task::Elsewhere);
    assert_eq!(opening(&cache), Opening::Cache(CacheCommand::Clean));
    assert_eq!(opening(&plugin), Opening::CheckPlugin);
    assert_eq!(opening(&hooks), Opening::Hooks(HooksCommand::Install));
    assert_eq!(opening(&None), Opening::Load);
    assert_eq!(opening(&run(None, None)), Opening::Load);
}

fn hook(name: &str, args: &[&str]) -> Option<Command> {
    Some(Command::Hook { name: name.to_string(), args: strings(args) })
}

#[test]
fn the_first_hook_of_a_name_runs_its_beam() {
    let mut project = empty();
    for (name, beam) in [("commit-msg", "lint"), ("pre-commit", "check"), ("commit-msg", "other")] {
        project.hooks.push(Hook {
            name: Spanned::new(name.to_string(), Span::new(0, 0)),
            beam: Spanned::new(id(beam), Span::new(0, 0)),
        });
    }
    let quiet = RunFlags { no_ui: true, ..RunFlags::default() };
    assert_eq!(
        task(&hook("commit-msg", &[".git/COMMIT_EDITMSG"]), &project),
        runs("lint", &[".git/COMMIT_EDITMSG"], quiet)
    );
    assert_eq!(task(&hook("pre-commit", &[]), &project), runs("check", &[], quiet));
}

#[test]
fn an_undeclared_hook_is_silent_and_succeeds() {
    assert_eq!(task(&hook("pre-push", &["origin", "url"]), &empty()), Task::Undeclared);
    assert!(may_lack_a_beamfile(&hook("pre-commit", &[]), &None));
    assert!(!may_lack_a_beamfile(&Some(Command::Check), &None));
    assert!(!may_lack_a_beamfile(&None, &None));
}

#[test]
fn an_explicit_missing_file_fails_the_hook_loudly() {
    let file = Some("no-such-Beamfile".to_string());
    assert!(!may_lack_a_beamfile(&hook("pre-commit", &[]), &file));
    assert!(resolve_beamfile(&file, false, &here()).unwrap_err().contains("no-such-Beamfile"));
}

fn refusal(step: HooksStep) -> Option<(Vec<String>, i32)> {
    match step {
        HooksStep::Go => None,
        HooksStep::End(ending) => Some((ending.lines, ending.code)),
    }
}

#[test]
fn install_refuses_a_foreign_hooks_path_and_uninstall_restores() {
    let foreign = Ok(Some(".husky".to_string()));
    assert_eq!(
        refusal(install(&foreign)),
        Some((strings(&["core.hooksPath already points to `.husky`"]), 2))
    );
    assert_eq!(refusal(uninstall(&foreign)).unwrap().1, 2);
    assert_eq!(refusal(install(&Ok(None))), None);
    assert_eq!(refusal(install(&Ok(Some(hooks_dir())))), None);
    assert_eq!(refusal(uninstall(&Ok(Some(hooks_dir())))), None);
    assert_eq!(refusal(uninstall(&Ok(None))), Some((Vec::new(), 0)));
    let failed = Err(GitError("git config failed: x".to_string()));
    assert_eq!(refusal(install(&failed)), Some((strings(&["git config failed: x"]), 2)));
    assert_eq!(refusal(uninstall(&failed)), Some((strings(&["git config failed: x"]), 2)));
    assert_eq!(hook_script("pre-push"), "#!/bin/sh\nexec alba hook pre-push \"$@\"\n");
}

#[test]
fn an_engine_error_is_told_in_words() {
    assert_eq!(EngineError::Unschedulable("no".to_string()).message(), "no");
    assert_eq!(
        EngineError::Executor { beam: id("b"), source: "no shell".to_string() }.message(),
        "beam `b`: no shell"
    );
    assert_eq!(
        EngineError::Panicked { beam: id("b") }.message(),
        "beam `b` panicked while running"
    );
    assert_eq!(EngineError::Git(GitError("bad".to_string())).message(), "bad");
}

#[test]
fn a_summary_is_in_the_order_of_the_beams() {
    let ids = vec![id("a"), id("b"), id("c")];
    let statuses = vec![
        Some(BeamStatus::Succeeded),
        Some(BeamStatus::Failed { exit_code: 1 }),
        Some(BeamStatus::Succeeded),
    ];
    let summary = summarize(&ids, &statuses, 12).unwrap();
    assert_eq!(summary.succeeded, [id("a"), id("c")]);
    assert_eq!(summary.failed, [id("b")]);
    assert_eq!(summary.duration_ms, 12);
    assert_eq!(summary.exit_code(), 1);
    let died = vec![Some(BeamStatus::Succeeded), None, None];
    assert_eq!(
        summarize(&ids, &died, 12),
        Err(EngineError::Panicked { beam: id("b") })
    );
}

#[test]
fn an_executor_is_chosen_and_labelled_by_its_kind() {
    let executors = Executors { embedded: "embedded", system: "host" };
    assert_eq!(*executors.for_beam(&alba::model::ExecutorKind::Shell), "embedded");
    assert_eq!(*executors.for_beam(&alba::model::ExecutorKind::SystemShell), "host");
    assert_eq!(Executors::uniform(7u8), Executors { embedded: 7u8, system: 7u8 });
    assert_eq!(executor_label(&alba::model::ExecutorKind::Shell), "embedded");
    assert_eq!(executor_label(&alba::model::ExecutorKind::SystemShell), "system");
    let plugin = |key: &str| {
        executor_label(&alba::model::ExecutorKind::Plugin {
            name: "p".to_string(),
            options: vec![(
                key.to_string(),
                alba::model::OptionValue::Str("v".to_string()),
            )],
        })
    };
    assert_eq!(plugin("k"), "plugin 1:p1:k1:s1:v");
    assert_ne!(plugin("k"), plugin("ks"));
}
