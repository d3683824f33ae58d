//! The life of beams in a run, and of plugins in a session.

use alba::beam_task::{
    announce, failure_status, gather_contributions, output_events, reported_duration, step,
    BeamOutcome, BeamTask, Effect, Happening, Phase,
    NO_EXIT_CODE,
};
use alba::cache::Assessment;
use alba::event::{BeamStatus, OutputLine, RunEvent, Stream};
use alba::example_plugin::{
    execute, read_message, reply_text, respond, HostMessage, PluginEvent, PluginStage, Reply,
};
use alba::model::BeamId;
use alba::numbers::{parse_signed, parse_unsigned};
use alba::plugin_check::{check, CheckEvent, CheckStage};
use alba::schedule::{verdict_on, Run};
use alba::store::{Manifest, FORMAT_VERSION};

fn strings(list: &[&str]) -> Vec<String> {
    list.iter().map(|s| s.to_string()).collect()
}

fn task(commands: usize) -> BeamTask {
    BeamTask {
        allow_failure: false,
        keep_going: false,
        commands: Ok(commands),
        static_contribution: Some("static".to_string()),
    }
}

fn uncached() -> Happening {
    Happening::Assessed { assessment: None, notice: None }
}

/// Drives a run to its end: every command exits with what `exit` says of its
/// beam. Gives back what happened, in order, and the most beams in slots.
fn drive(run: &mut Run, exit: impl Fn(usize) -> i32) -> (Vec<(usize, Effect)>, usize) {
    let mut log = Vec::new();
    let mut outside: Vec<(usize, Happening)> = Vec::new();
    let mut most = 0;
    loop {
        let (beam, what) = match run.next() {
            Some(inside) => inside,
            None => {
                most = most.max(outside.len());
                if outside.is_empty() {
                    return (log, most);
                }
                outside.remove(0)
            }
        };
        let inside = !matches!(what, Happening::Assessed { .. } | Happening::Exited(_));
        assert!(inside || run.awaits(beam, &what));
        for effect in run.deliver(beam, what) {
            match &effect {
                Effect::Assess => outside.push((beam, uncached())),
                Effect::Run(_) => outside.push((beam, Happening::Exited(Ok(exit(beam))))),
                _ => {}
            }
            log.push((beam, effect));
        }
    }
}

fn place(log: &[(usize, Effect)], beam: usize, wanted: &Effect) -> usize {
    log.iter().position(|(b, effect)| *b == beam && effect == wanted).unwrap()
}

fn finished(status: BeamStatus) -> Effect {
    Effect::Finished(status)
}

#[test]
fn a_diamond_runs_in_order_within_two_slots() {
    // A diamond, and six beams beside it, with two slots.
    let mut needs = vec![vec![], vec![0], vec![0], vec![1, 2]];
    needs.extend((0..6).map(|_| Vec::new()));
    let tasks: Vec<BeamTask> = needs.iter().map(|_| task(2)).collect();
    let mut run = Run::new(tasks, needs.clone(), 2);
    let (log, most) = drive(&mut run, |_| 0);
    assert_eq!(most, 2);
    for (beam, list) in needs.iter().enumerate() {
        for need in list {
            assert!(
                place(&log, *need, &finished(BeamStatus::Succeeded))
                    < place(&log, beam, &Effect::Started)
            );
        }
    }
    assert!(run.statuses().iter().all(|s| *s == Some(BeamStatus::Succeeded)));
}

#[test]
fn a_failure_cancels_what_has_not_started() {
    let mut run = Run::new(vec![task(1), task(1), task(1), task(1)], vec![vec![], vec![], vec![0], vec![]], 2);
    let (_, _) = drive(&mut run, |beam| if beam == 0 { 7 } else { 0 });
    assert_eq!(
        run.statuses(),
        [
            Some(BeamStatus::Failed { exit_code: 7 }),
            Some(BeamStatus::Succeeded),
            Some(BeamStatus::Cancelled),
            Some(BeamStatus::Cancelled),
        ]
    );
}

#[test]
fn keeping_going_runs_what_can_run() {
    let going = || BeamTask { keep_going: true, ..task(1) };
    let mut run = Run::new(vec![going(), going(), going()], vec![vec![], vec![0], vec![]], 1);
    drive(&mut run, |beam| if beam == 0 { 1 } else { 0 });
    assert_eq!(
        run.statuses(),
        [
            Some(BeamStatus::Failed { exit_code: 1 }),
            Some(BeamStatus::Cancelled),
            Some(BeamStatus::Succeeded),
        ]
    );
}

#[test]
fn an_allowed_failure_satisfies_its_dependents() {
    let lint = BeamTask { allow_failure: true, ..task(1) };
    let mut run = Run::new(vec![lint, task(1)], vec![vec![], vec![0]], 4);
    drive(&mut run, |beam| if beam == 0 { 1 } else { 0 });
    assert_eq!(
        run.statuses(),
        [Some(BeamStatus::FailedAllowed { exit_code: 1 }), Some(BeamStatus::Succeeded)]
    );
}

#[test]
fn cancelling_a_run_cancels_all_of_it() {
    let mut run = Run::new(vec![task(1), task(1)], vec![vec![], vec![0]], 1);
    for _ in 0..2 {
        let (beam, what) = run.next().unwrap();
        run.deliver(beam, what);
    }
    run.deliver(0, uncached());
    run.cancel();
    run.deliver(0, Happening::Exited(Ok(143)));
    while let Some((beam, what)) = run.next() {
        run.deliver(beam, what);
    }
    assert_eq!(run.statuses(), [Some(BeamStatus::Cancelled), Some(BeamStatus::Cancelled)]);
}

#[test]
fn what_a_beam_needs_contributes_in_order() {
    let plain = |text: &str| BeamTask { static_contribution: Some(text.to_string()), ..task(0) };
    let mut run =
        Run::new(vec![plain("a"), plain("b"), task(0)], vec![vec![], vec![], vec![1, 0]], 3);
    assert_eq!(run.contributions(2), None);
    drive(&mut run, |_| 0);
    assert_eq!(
        run.contributions(2),
        Some(vec![Some("b".to_string()), Some("a".to_string())])
    );
}

#[test]
fn needs_are_looked_at_in_order() {
    let ended = |status| Some(BeamOutcome { status, contribution: None });
    let outcomes = vec![
        ended(BeamStatus::Cancelled),
        None,
        ended(BeamStatus::FailedAllowed { exit_code: 1 }),
    ];
    assert_eq!(verdict_on(&vec![], &outcomes), Some(true));
    assert_eq!(verdict_on(&vec![2, 2], &outcomes), Some(true));
    assert_eq!(verdict_on(&vec![2, 0, 1], &outcomes), Some(false));
    assert_eq!(verdict_on(&vec![2, 1, 0], &outcomes), None);
}

#[test]
fn no_slots_count_as_one() {
    let mut run = Run::new(vec![task(1), task(1)], vec![vec![], vec![]], 0);
    let (_, most) = drive(&mut run, |_| 0);
    assert_eq!(most, 1);
}

/// The life of one beam with the answers given, after its needs ended well.
fn life(task: &BeamTask, assessed: Happening, exits: Vec<Result<i32, String>>) -> Vec<Effect> {
    let mut all = Vec::new();
    let mut phase = Phase::Waiting;
    let mut happenings =
        vec![Happening::NeedsEnded { satisfied: true }, Happening::Slot { granted: true }, assessed];
    happenings.extend(exits.into_iter().map(Happening::Exited));
    for what in happenings {
        let (next, effects) = step(task, phase, what, false, false);
        phase = next;
        all.extend(effects);
    }
    assert_eq!(phase, Phase::Done);
    all
}

fn publish(status: BeamStatus, contribution: Option<&str>) -> Effect {
    Effect::Publish(BeamOutcome { status, contribution: contribution.map(str::to_string) })
}

#[test]
fn a_life_of_two_commands_is_in_order() {
    assert_eq!(
        life(&task(2), uncached(), vec![Ok(0), Ok(0)]),
        [
            Effect::AcquireSlot,
            Effect::Assess,
            Effect::Started,
            Effect::Run(0),
            Effect::Run(1),
            finished(BeamStatus::Succeeded),
            publish(BeamStatus::Succeeded, Some("static")),
        ]
    );
}

#[test]
fn a_success_is_remembered_and_a_failure_is_not() {
    let assessed = || Happening::Assessed {
        assessment: Some(Assessment { fingerprint: "fp".to_string(), hit: None }),
        notice: None,
    };
    assert!(life(&task(1), assessed(), vec![Ok(0)])
        .contains(&Effect::Remember("fp".to_string())));
    let failed = life(&task(1), assessed(), vec![Ok(3)]);
    assert_eq!(
        &failed[4..],
        [
            Effect::StopRun,
            finished(BeamStatus::Failed { exit_code: 3 }),
            publish(BeamStatus::Failed { exit_code: 3 }, Some("fp")),
        ]
    );
}

#[test]
fn a_failed_life_is_not_remembered() {
    let assessed = Happening::Assessed {
        assessment: Some(Assessment { fingerprint: "fp".to_string(), hit: None }),
        notice: None,
    };
    let effects = life(&BeamTask { allow_failure: true, ..task(1) }, assessed, vec![Ok(3)]);
    assert!(!effects.iter().any(|effect| matches!(effect, Effect::Remember(_))));
}

#[test]
fn a_hit_releases_its_slot_and_replays() {
    let hit = Happening::Assessed {
        assessment: Some(Assessment {
            fingerprint: "fp".to_string(),
            hit: Some(Manifest {
                version: FORMAT_VERSION,
                fingerprint: "fp".to_string(),
                outputs: Vec::new(),
                duration_ms: 1,
            }),
        }),
        notice: None,
    };
    assert_eq!(
        life(&task(1), hit, vec![]),
        [
            Effect::AcquireSlot,
            Effect::Assess,
            Effect::ReleaseSlot,
            Effect::Replay,
            finished(BeamStatus::Cached),
            publish(BeamStatus::Cached, Some("fp")),
        ]
    );
}

#[test]
fn a_hit_of_a_stopping_run_is_cancelled() {
    let hit = Happening::Assessed {
        assessment: Some(Assessment {
            fingerprint: "fp".to_string(),
            hit: Some(Manifest {
                version: FORMAT_VERSION,
                fingerprint: "fp".to_string(),
                outputs: Vec::new(),
                duration_ms: 1,
            }),
        }),
        notice: None,
    };
    let (phase, effects) = step(&task(1), Phase::Assessing, hit, true, false);
    assert_eq!(phase, Phase::Done);
    assert_eq!(
        effects,
        [finished(BeamStatus::Cancelled), publish(BeamStatus::Cancelled, None)]
    );
}

#[test]
fn a_command_that_cannot_be_run_is_its_beams_failure() {
    let effects = life(&task(2), uncached(), vec![Err("no shell".to_string())]);
    assert!(effects.contains(&Effect::Line("no shell".to_string())));
    assert!(effects.contains(&finished(BeamStatus::Failed { exit_code: NO_EXIT_CODE })));
    assert_eq!(
        failure_status(&BeamTask { allow_failure: true, ..task(1) }, 4),
        BeamStatus::FailedAllowed { exit_code: 4 }
    );
}

#[test]
fn a_template_that_does_not_render_fails_its_beam_with_its_message() {
    let broken = BeamTask {
        commands: Err("environment variable `X` is not set".to_string()),
        static_contribution: None,
        ..task(0)
    };
    let notice = Happening::Assessed { assessment: None, notice: Some("cache: no".to_string()) };
    assert_eq!(
        &life(&broken, notice, vec![])[2..6],
        [
            Effect::Started,
            Effect::Line("cache: no".to_string()),
            Effect::Line("environment variable `X` is not set".to_string()),
            Effect::StopRun,
        ]
    );
}

#[test]
fn a_dependency_that_did_not_end_well_keeps_a_beam_from_running() {
    let ended = |status, text: &str| BeamOutcome { status, contribution: Some(text.to_string()) };
    assert_eq!(
        gather_contributions(&vec![
            ended(BeamStatus::Succeeded, "a"),
            ended(BeamStatus::Cached, "b")
        ]),
        Some(vec![Some("a".to_string()), Some("b".to_string())])
    );
    assert_eq!(
        gather_contributions(&vec![ended(BeamStatus::Failed { exit_code: 1 }, "a")]),
        None
    );
    let (_, effects) = step(
        &task(1),
        Phase::Waiting,
        Happening::NeedsEnded { satisfied: false },
        false,
        false,
    );
    assert_eq!(effects[0], finished(BeamStatus::Cancelled));
}

/// Drives a plugin check and gives back its lines and its exit code.
fn checked(events: Vec<CheckEvent>) -> (Vec<String>, Option<i32>) {
    let mut stage = CheckStage::Looking;
    let mut lines = Vec::new();
    for event in events {
        let step = check(stage, &event, "bin/p");
        stage = step.stage;
        lines.extend(step.lines);
    }
    match stage {
        CheckStage::Ended { code } => (lines, Some(code)),
        _ => (lines, None),
    }
}

fn found() -> CheckEvent {
    CheckEvent::Looked { found: true }
}

fn opened() -> CheckEvent {
    CheckEvent::Opened(Ok(()))
}

fn answered(duration: &str) -> CheckEvent {
    CheckEvent::Answered(Ok(duration.to_string()))
}

fn exited(code: i32, lines: u64) -> CheckEvent {
    CheckEvent::Executed(Ok((code, lines)))
}

#[test]
fn a_plugin_that_passes_every_check_conforms() {
    assert_eq!(
        checked(vec![
            found(),
            opened(),
            exited(3, 1),
            opened(),
            answered("32.682583ms"),
            CheckEvent::Closed(Ok(()))
        ]),
        (
            strings(&[
                "✓ handshake",
                "✓ execute: exit code 3, 1 output line",
                "✓ cancel (answered in 32.682583ms)",
                "✓ close",
                "conformant: protocol v1",
            ]),
            Some(0)
        )
    );
}

#[test]
fn a_plugin_that_is_not_there_is_not_checked() {
    assert_eq!(
        checked(vec![CheckEvent::Looked { found: false }]),
        (strings(&["cannot check `bin/p`: no such file"]), Some(2))
    );
}

#[test]
fn a_failed_handshake_skips_the_other_checks() {
    assert_eq!(
        checked(vec![found(), CheckEvent::Opened(Err("timed out".to_string()))]),
        (strings(&["✗ handshake: timed out", "not conformant"]), Some(1))
    );
}

#[test]
fn a_failed_command_is_told_and_the_other_checks_go_on() {
    let (lines, code) = checked(vec![
        found(),
        opened(),
        CheckEvent::Elapsed,
        opened(),
        answered("1ms"),
        CheckEvent::Closed(Ok(())),
    ]);
    assert_eq!(lines[1], "✗ execute: no `exit` message within 30s");
    assert_eq!(lines.last().unwrap(), "not conformant");
    assert_eq!(code, Some(1));
    let (lines, _) =
        checked(vec![found(), opened(), CheckEvent::Executed(Err("broken pipe".to_string()))]);
    assert_eq!(lines[1], "✗ execute: broken pipe");
    let (lines, _) = checked(vec![found(), opened(), exited(0, 2)]);
    assert_eq!(lines[1], "✓ execute: exit code 0, 2 output lines");
}

#[test]
fn a_plugin_that_does_not_stop_is_given_up_on() {
    let (lines, code) =
        checked(vec![found(), opened(), exited(0, 0), opened(), CheckEvent::Elapsed]);
    assert_eq!(
        &lines[2..],
        [
            "✗ cancel: no response within 6s of asking it to stop",
            "✗ close: skipped — the cancel check did not return",
            "not conformant",
        ]
    );
    assert_eq!(code, Some(1));
    let (lines, code) = checked(vec![
        found(),
        opened(),
        exited(0, 0),
        CheckEvent::Opened(Err("gone".to_string())),
    ]);
    assert_eq!(
        &lines[2..],
        [
            "✗ cancel: cannot open a fresh session — gone",
            "✗ close: skipped — no session to close",
            "not conformant",
        ]
    );
    assert_eq!(code, Some(1));
}

#[test]
fn a_plugin_that_does_not_close_does_not_conform() {
    let (lines, code) = checked(vec![
        found(),
        opened(),
        exited(0, 0),
        opened(),
        CheckEvent::Answered(Err("gone".to_string())),
        CheckEvent::Closed(Err("stuck".to_string())),
    ]);
    assert_eq!(&lines[2..], ["✗ cancel: gone", "✗ close: stuck", "not conformant"]);
    assert_eq!(code, Some(1));
}

/// What a plugin sends for some lines of the host, with the time of a command
/// that waits running out where the line is `...`.
fn session(lines: &[&str]) -> (Vec<String>, PluginStage) {
    let mut stage = PluginStage::Opening;
    let mut sent = Vec::new();
    for line in lines {
        let event = if *line == "..." {
            PluginEvent::TimeUp
        } else {
            match read_message(line) {
                Some(message) => PluginEvent::Message(message),
                None => continue,
            }
        };
        let step = respond(stage, &event);
        stage = step.stage;
        sent.extend(step.replies.iter().map(reply_text));
    }
    (sent, stage)
}

const OPEN: &str = r#"{"type":"open","protocol":1,"beam":"b","dir":"/","options":null}"#;

#[test]
fn a_plugin_answers_the_handshake_it_knows() {
    assert_eq!(session(&[OPEN]), (strings(&[r#"{"type":"ready"}"#]), PluginStage::Idle));
    assert_eq!(
        session(&[r#"{"type":"open","protocol":2}"#]),
        (
            strings(&[r#"{"message":"protocol 2 not supported","type":"error"}"#]),
            PluginStage::Ended
        )
    );
    assert_eq!(
        session(&[r#"{"type":"open","protocol":"1"}"#]).0,
        [r#"{"message":"protocol missing not supported","type":"error"}"#]
    );
}

#[test]
fn a_plugin_runs_what_it_knows() {
    let run = |command: &str| {
        let line = format!("{{\"type\":\"execute\",\"command\":\"{command}\"}}");
        session(&[OPEN, &line]).0[1..].to_vec()
    };
    assert_eq!(
        run("echo a  b"),
        [
            r#"{"stream":"stdout","text":"a  b","type":"output"}"#,
            r#"{"code":0,"type":"exit"}"#
        ]
    );
    assert_eq!(run("fail 3"), [r#"{"code":3,"type":"exit"}"#]);
    assert_eq!(run("fail  -7 "), [r#"{"code":-7,"type":"exit"}"#]);
    assert_eq!(run("fail"), [r#"{"code":1,"type":"exit"}"#]);
    assert_eq!(run("fail 99999999999"), [r#"{"code":1,"type":"exit"}"#]);
    assert_eq!(run("sleep 0"), [r#"{"code":0,"type":"exit"}"#]);
    assert_eq!(
        run("dance"),
        [
            r#"{"stream":"stderr","text":"unknown command","type":"output"}"#,
            r#"{"code":127,"type":"exit"}"#
        ]
    );
}

#[test]
fn a_sleeping_plugin_answers_the_clock_or_a_cancel() {
    let sleep = r#"{"type":"execute","command":"sleep 5000"}"#;
    let cancel = r#"{"type":"cancel"}"#;
    assert_eq!(
        session(&[OPEN, sleep, "not json", r#"{"type":"execute"}"#, cancel]),
        (
            strings(&[r#"{"type":"ready"}"#, r#"{"code":-1,"type":"exit"}"#]),
            PluginStage::Idle
        )
    );
    assert_eq!(session(&[OPEN, sleep, "..."]).0[1], r#"{"code":0,"type":"exit"}"#);
    assert_eq!(session(&[OPEN, sleep]), (strings(&[r#"{"type":"ready"}"#]), PluginStage::Sleeping));
    assert_eq!(session(&[OPEN, cancel, r#"{"type":"close"}"#]).1, PluginStage::Ended);
    assert_eq!(execute("sleep 5000").wait, Some(5000));
    let gone = respond(PluginStage::Sleeping, &PluginEvent::Gone);
    assert_eq!(gone.stage, PluginStage::Ended);
    assert!(gone.replies.is_empty());
}

#[test]
fn a_reply_is_json_whatever_it_holds() {
    let reply = Reply::Output { stream: Stream::Stdout, text: "a\"\n".to_string() };
    let value: serde_json::Value = serde_json::from_str(&reply_text(&reply)).unwrap();
    assert_eq!(value["text"], "a\"\n");
    assert_eq!(value["type"], "output");
}

#[test]
fn a_message_holds_what_the_line_says() {
    assert_eq!(read_message("nonsense"), None);
    assert_eq!(
        read_message(r#"{"type":"execute","command":"a b","protocol":-1}"#),
        Some(HostMessage {
            kind: Some("execute".to_string()),
            protocol: None,
            command: Some("a b".to_string()),
        })
    );
    assert_eq!(
        read_message("[1]"),
        Some(HostMessage { kind: None, protocol: None, command: None })
    );
}

#[test]
fn numbers_are_read_as_they_are_written() {
    let samples = [
        "", "0", "7", "-7", "+7", "--7", "+", "-", "007", "2147483647", "2147483648",
        "-2147483648", "-2147483649", "18446744073709551615", "18446744073709551616", "1_0",
        " 1", "99999999999999999999999999", "-0", "٣",
    ];
    for text in samples {
        let signed = parse_signed(text, i32::MIN as i64, i32::MAX as i64);
        assert_eq!(signed, text.parse::<i32>().ok().map(i64::from), "{text}");
        assert_eq!(parse_unsigned(text, u64::MAX), text.parse::<u64>().ok(), "{text}");
    }
}

#[test]
fn what_a_beam_does_is_announced() {
    let id = BeamId("b".to_string());
    assert_eq!(
        announce(&id, &Effect::Started, 7),
        Some(RunEvent::BeamStarted { id: id.clone() }),
    );
    assert_eq!(
        announce(&id, &Effect::Line("cannot run".to_string()), 7),
        Some(RunEvent::BeamOutput {
            id: id.clone(),
            line: OutputLine { stream: Stream::Stderr, text: "cannot run".to_string() },
            replayed: false,
        }),
    );
    assert_eq!(
        announce(&id, &Effect::Replay, 7),
        Some(RunEvent::BeamCached { id: id.clone() }),
    );
    assert_eq!(
        announce(&id, &finished(BeamStatus::Failed { exit_code: 3 }), 7),
        Some(RunEvent::BeamFinished {
            id: id.clone(),
            status: BeamStatus::Failed { exit_code: 3 },
            duration_ms: 7,
        }),
    );
    assert_eq!(announce(&id, &Effect::AcquireSlot, 7), None);
    assert_eq!(announce(&id, &Effect::Run(0), 7), None);
}

#[test]
fn output_is_announced_line_by_line_and_told_apart_from_a_replay() {
    let id = BeamId("b".to_string());
    let line = |text: &str| OutputLine { stream: Stream::Stdout, text: text.to_string() };
    let event = |text: &str, replayed| RunEvent::BeamOutput {
        id: id.clone(),
        line: line(text),
        replayed,
    };
    let lines = vec![line("one"), line("two")];
    assert_eq!(output_events(&id, &lines, true), vec![event("one", true), event("two", true)]);
    assert_eq!(output_events(&id, &lines, false), vec![event("one", false), event("two", false)]);
}

#[test]
fn a_hit_took_as_long_as_what_it_replays() {
    let manifest = Manifest::new("f".to_string(), strings(&["out"]), 1200);
    assert_eq!(manifest.version, FORMAT_VERSION);
    assert_eq!(manifest.fingerprint, "f");
    assert_eq!(manifest.outputs, ["out"]);
    let hit = Some(manifest);
    assert_eq!(reported_duration(BeamStatus::Cached, &hit, None), 1200);
    assert_eq!(reported_duration(BeamStatus::Cancelled, &hit, None), 0);
    assert_eq!(reported_duration(BeamStatus::Cancelled, &None, Some(5)), 5);
    assert_eq!(reported_duration(BeamStatus::Succeeded, &None, Some(5)), 5);
    assert_eq!(reported_duration(BeamStatus::Failed { exit_code: 1 }, &None, Some(7)), 7);
    assert_eq!(reported_duration(BeamStatus::Cancelled, &None, None), 0);
}
