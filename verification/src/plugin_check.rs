//! `alba plugin check`: whether a plugin conforms to the protocol.
//!
//! Four checks run in order: the handshake, a command, a command that is
//! cancelled, and closing the session. The last two share a session of their
//! own, since one that answered a cancellation is not to be used again. Where
//! the handshake fails, the others are not tried.
//!
//! Driving the plugin is the caller's part: it performs what [`check`] says
//! is next and hands back what came of it.

use vstd::prelude::*;
use vstd::string::*;
use crate::exit::EXIT_ALBA_ERROR;
use crate::text::{decimal, decimal_text, signed_decimal, signed_text, text2, text3, views};

verus! {

/// The version of the protocol that is checked.
pub const PROTOCOL_VERSION: u64 = 1;

/// How long a plugin may take to answer the handshake, in seconds.
pub const HANDSHAKE_TIMEOUT_SECS: u64 = 10;

/// How long a plugin may take to stop a command, in seconds.
pub const GRACE_SECS: u64 = 5;

/// What is added to that before the check itself gives up, in seconds.
pub const CANCEL_TOLERANCE_SECS: u64 = 1;

/// How long after its start a command is cancelled, in milliseconds.
pub const CANCEL_AFTER_MILLIS: u64 = 100;

/// How long a command may take to end, in seconds.
pub const EXECUTE_TIMEOUT_SECS: u64 = 30;

/// Where a check stands.
#[derive(Debug, Clone, Copy, PartialEq, Eq, Structural)]
pub enum CheckStage {
    /// Looking for the binary.
    Looking,
    /// Opening the first session.
    Opening,
    /// Running a command in it.
    Executing,
    /// Opening the second session, the first command having passed or not.
    Reopening { passed: bool },
    /// Running a command in it and cancelling that.
    Cancelling { passed: bool },
    /// Closing it.
    Closing { passed: bool },
    Ended { code: i32 },
}

/// What came of the last step.
#[derive(Debug, PartialEq, Eq)]
pub enum CheckEvent {
    /// Whether the binary is there.
    Looked { found: bool },
    /// A session was opened, or not.
    Opened(Result<(), String>),
    /// A command ended, with so many lines of output, or failed.
    Executed(Result<(i32, u64), String>),
    /// A cancelled command ended, so long after it was asked to stop, or
    /// failed.
    Answered(Result<String, String>),
    /// A session was closed, or not.
    Closed(Result<(), String>),
    /// Nothing came in time.
    Elapsed,
}

pub struct CheckView {
    pub stage: CheckStage,
    pub lines: Seq<Seq<char>>,
}

/// Where a check stands, and the lines to print.
pub struct CheckStep {
    pub stage: CheckStage,
    pub lines: Vec<String>,
}

impl View for CheckStep {
    type V = CheckView;

    open spec fn view(&self) -> CheckView {
        CheckView { stage: self.stage, lines: views(self.lines@) }
    }
}

/// A step that says one thing.
pub open spec fn saying(stage: CheckStage, line: Seq<char>) -> CheckView {
    CheckView { stage, lines: seq![line] }
}

pub open spec fn saying_two(stage: CheckStage, first: Seq<char>, second: Seq<char>) -> CheckView {
    CheckView { stage, lines: seq![first, second] }
}

pub open spec fn verdict_line(conformant: bool) -> Seq<char> {
    if conformant {
        "conformant: protocol v"@ + decimal(PROTOCOL_VERSION as nat)
    } else {
        "not conformant"@
    }
}

pub open spec fn verdict_stage(conformant: bool) -> CheckStage {
    CheckStage::Ended {
        code: if conformant {
            0
        } else {
            1
        },
    }
}

pub open spec fn plural(count: nat) -> Seq<char> {
    if count == 1 {
        ""@
    } else {
        "s"@
    }
}

pub open spec fn executed_line(exit_code: i32, lines: nat) -> Seq<char> {
    "\u{2713} execute: exit code "@ + signed_decimal(exit_code as int) + ", "@ + decimal(lines)
        + " output line"@ + plural(lines)
}

/// What a check does with what came of its last step. `binary` is how the
/// plugin was named. An event that the stage does not wait for changes
/// nothing.
pub open spec fn checked(stage: CheckStage, event: CheckEvent, binary: Seq<char>) -> CheckView {
    match (stage, event) {
        (CheckStage::Looking, CheckEvent::Looked { found }) => if found {
            CheckView { stage: CheckStage::Opening, lines: Seq::empty() }
        } else {
            saying(
                CheckStage::Ended { code: EXIT_ALBA_ERROR },
                "cannot check `"@ + binary + "`: no such file"@,
            )
        },
        (CheckStage::Opening, CheckEvent::Opened(result)) => match result {
            Ok(_) => saying(CheckStage::Executing, "\u{2713} handshake"@),
            Err(message) => saying_two(
                verdict_stage(false),
                "\u{2717} handshake: "@ + message@,
                verdict_line(false),
            ),
        },
        (CheckStage::Executing, CheckEvent::Executed(result)) => match result {
            Ok((exit_code, lines)) => saying(
                CheckStage::Reopening { passed: true },
                executed_line(exit_code, lines as nat),
            ),
            Err(message) => saying(
                CheckStage::Reopening { passed: false },
                "\u{2717} execute: "@ + message@,
            ),
        },
        (CheckStage::Executing, CheckEvent::Elapsed) => saying(
            CheckStage::Reopening { passed: false },
            "\u{2717} execute: no `exit` message within "@ + decimal(EXECUTE_TIMEOUT_SECS as nat)
                + "s"@,
        ),
        (CheckStage::Reopening { passed }, CheckEvent::Opened(result)) => match result {
            Ok(_) => CheckView { stage: CheckStage::Cancelling { passed }, lines: Seq::empty() },
            Err(message) => CheckView {
                stage: verdict_stage(false),
                lines: seq![
                    "\u{2717} cancel: cannot open a fresh session \u{2014} "@ + message@,
                    "\u{2717} close: skipped \u{2014} no session to close"@,
                    verdict_line(false),
                ],
            },
        },
        (CheckStage::Cancelling { passed }, CheckEvent::Answered(result)) => match result {
            Ok(duration) => saying(
                CheckStage::Closing { passed },
                "\u{2713} cancel (answered in "@ + duration@ + ")"@,
            ),
            Err(message) => saying(
                CheckStage::Closing { passed: false },
                "\u{2717} cancel: "@ + message@,
            ),
        },
        (CheckStage::Cancelling { passed: _ }, CheckEvent::Elapsed) => CheckView {
            stage: verdict_stage(false),
            lines: seq![
                "\u{2717} cancel: no response within "@ + decimal(
                    (GRACE_SECS + CANCEL_TOLERANCE_SECS) as nat,
                ) + "s of asking it to stop"@,
                "\u{2717} close: skipped \u{2014} the cancel check did not return"@,
                verdict_line(false),
            ],
        },
        (CheckStage::Closing { passed }, CheckEvent::Closed(result)) => match result {
            Ok(_) => saying_two(verdict_stage(passed), "\u{2713} close"@, verdict_line(passed)),
            Err(message) => saying_two(
                verdict_stage(false),
                "\u{2717} close: "@ + message@,
                verdict_line(false),
            ),
        },
        _ => CheckView { stage, lines: Seq::empty() },
    }
}

fn silently(stage: CheckStage) -> (r: CheckStep)
    ensures
        r@ == (CheckView { stage, lines: Seq::empty() }),
{
    let lines: Vec<String> = Vec::new();
    assert(views(lines@) =~= Seq::<Seq<char>>::empty());
    CheckStep { stage, lines }
}

fn say(stage: CheckStage, line: String) -> (r: CheckStep)
    ensures
        r@ == saying(stage, line@),
{
    let mut lines: Vec<String> = Vec::new();
    lines.push(line);
    assert(views(lines@) =~= seq![line@]);
    CheckStep { stage, lines }
}

/// Says the first line and the verdict.
fn conclude(conformant: bool, line: String) -> (r: CheckStep)
    ensures
        r@ == saying_two(verdict_stage(conformant), line@, verdict_line(conformant)),
{
    let mut lines: Vec<String> = Vec::new();
    lines.push(line);
    lines.push(verdict(conformant));
    assert(views(lines@) =~= seq![line@, verdict_line(conformant)]);
    CheckStep { stage: ended(conformant), lines }
}

fn ended(conformant: bool) -> (r: CheckStage)
    ensures
        r == verdict_stage(conformant),
{
    if conformant {
        CheckStage::Ended { code: 0 }
    } else {
        CheckStage::Ended { code: 1 }
    }
}

fn verdict(conformant: bool) -> (r: String)
    ensures
        r@ == verdict_line(conformant),
{
    if conformant {
        text2("conformant: protocol v", decimal_text(PROTOCOL_VERSION).as_str())
    } else {
        "not conformant".to_owned()
    }
}

/// Skips closing for want of a session that answers.
fn give_up(cancel: String, close: &str) -> (r: CheckStep)
    ensures
        r@ == (CheckView {
            stage: verdict_stage(false),
            lines: seq![cancel@, close@, verdict_line(false)],
        }),
{
    let mut lines: Vec<String> = Vec::new();
    lines.push(cancel);
    lines.push(close.to_owned());
    lines.push(verdict(false));
    assert(views(lines@) =~= seq![cancel@, close@, verdict_line(false)]);
    CheckStep { stage: ended(false), lines }
}

/// What running a command came to: any exit code conforms, as long as one
/// arrived.
fn execute_check(event: &CheckEvent) -> (r: CheckStep)
    requires
        event is Executed || event is Elapsed,
    ensures
        forall|binary: Seq<char>|
            r@ == #[trigger] checked(CheckStage::Executing, *event, binary),
{
    match event {
        CheckEvent::Executed(Ok((exit_code, lines))) => {
            let mut line = text3(
                "\u{2713} execute: exit code ",
                signed_text(*exit_code).as_str(),
                ", ",
            );
            line.append(decimal_text(*lines).as_str());
            line.append(" output line");
            line.append(
                if *lines == 1 {
                    ""
                } else {
                    "s"
                },
            );
            say(CheckStage::Reopening { passed: true }, line)
        },
        CheckEvent::Executed(Err(message)) => say(
            CheckStage::Reopening { passed: false },
            text2("\u{2717} execute: ", message.as_str()),
        ),
        _ => say(
            CheckStage::Reopening { passed: false },
            text3(
                "\u{2717} execute: no `exit` message within ",
                decimal_text(EXECUTE_TIMEOUT_SECS).as_str(),
                "s",
            ),
        ),
    }
}

/// What cancelling a command and closing its session came to.
fn cancel_and_close_check(stage: CheckStage, event: &CheckEvent) -> (r: CheckStep)
    requires
        stage is Reopening || stage is Cancelling || stage is Closing,
    ensures
        forall|binary: Seq<char>| r@ == #[trigger] checked(stage, *event, binary),
{
    match (stage, event) {
        (CheckStage::Reopening { passed }, CheckEvent::Opened(Ok(_))) => silently(
            CheckStage::Cancelling { passed },
        ),
        (CheckStage::Reopening { .. }, CheckEvent::Opened(Err(message))) => give_up(
            text2(
                "\u{2717} cancel: cannot open a fresh session \u{2014} ",
                message.as_str(),
            ),
            "\u{2717} close: skipped \u{2014} no session to close",
        ),
        (CheckStage::Cancelling { passed }, CheckEvent::Answered(Ok(duration))) => say(
            CheckStage::Closing { passed },
            text3("\u{2713} cancel (answered in ", duration.as_str(), ")"),
        ),
        (CheckStage::Cancelling { .. }, CheckEvent::Answered(Err(message))) => say(
            CheckStage::Closing { passed: false },
            text2("\u{2717} cancel: ", message.as_str()),
        ),
        (CheckStage::Cancelling { .. }, CheckEvent::Elapsed) => give_up(
            text3(
                "\u{2717} cancel: no response within ",
                decimal_text(GRACE_SECS + CANCEL_TOLERANCE_SECS).as_str(),
                "s of asking it to stop",
            ),
            "\u{2717} close: skipped \u{2014} the cancel check did not return",
        ),
        (CheckStage::Closing { passed }, CheckEvent::Closed(Ok(_))) => conclude(
            passed,
            "\u{2713} close".to_owned(),
        ),
        (CheckStage::Closing { .. }, CheckEvent::Closed(Err(message))) => conclude(
            false,
            text2("\u{2717} close: ", message.as_str()),
        ),
        _ => silently(stage),
    }
}

/// What a check does with what came of its last step.
pub fn check(stage: CheckStage, event: &CheckEvent, binary: &str) -> (r: CheckStep)
    ensures
        r@ == checked(stage, *event, binary@),
{
    match stage {
        CheckStage::Looking => match event {
            CheckEvent::Looked { found: true } => silently(CheckStage::Opening),
            CheckEvent::Looked { found: false } => say(
                CheckStage::Ended { code: EXIT_ALBA_ERROR },
                text3("cannot check `", binary, "`: no such file"),
            ),
            _ => silently(stage),
        },
        CheckStage::Opening => match event {
            CheckEvent::Opened(Ok(_)) => say(
                CheckStage::Executing,
                "\u{2713} handshake".to_owned(),
            ),
            CheckEvent::Opened(Err(message)) => conclude(
                false,
                text2("\u{2717} handshake: ", message.as_str()),
            ),
            _ => silently(stage),
        },
        CheckStage::Executing => match event {
            CheckEvent::Executed(_) | CheckEvent::Elapsed => execute_check(event),
            _ => silently(stage),
        },
        CheckStage::Ended { .. } => silently(stage),
        _ => cancel_and_close_check(stage, event),
    }
}

/// Where a check stands after `events`.
pub open spec fn check_stage(events: Seq<CheckEvent>, binary: Seq<char>) -> CheckStage
    decreases events.len(),
{
    if events.len() == 0 {
        CheckStage::Looking
    } else {
        checked(check_stage(events.drop_last(), binary), events.last(), binary).stage
    }
}

/// All that a check says during `events`.
pub open spec fn check_lines(events: Seq<CheckEvent>, binary: Seq<char>) -> Seq<Seq<char>>
    decreases events.len(),
{
    if events.len() == 0 {
        Seq::empty()
    } else {
        check_lines(events.drop_last(), binary) + checked(
            check_stage(events.drop_last(), binary),
            events.last(),
            binary,
        ).lines
    }
}

/// What each step of a check that is passed comes to: the binary is there,
/// the session opens, the command ends, the fresh session opens, the
/// cancelled command ends, and that session closes.
pub open spec fn passes(step: int, event: CheckEvent) -> bool {
    if step == 0 {
        event == (CheckEvent::Looked { found: true })
    } else if step == 1 || step == 3 {
        event matches CheckEvent::Opened(Ok(_))
    } else if step == 2 {
        event matches CheckEvent::Executed(Ok(_))
    } else if step == 4 {
        event matches CheckEvent::Answered(Ok(_))
    } else {
        event matches CheckEvent::Closed(Ok(_))
    }
}

/// The first `n` steps were passed, in order, `at` being their places among
/// the events.
pub open spec fn passed_at(events: Seq<CheckEvent>, at: Seq<int>, n: int) -> bool {
    &&& at.len() == n
    &&& forall|k: int| 0 <= k < n ==> 0 <= #[trigger] at[k] < events.len() && passes(k, events[at[k]])
    &&& forall|j: int, k: int| #![trigger at[j], at[k]] 0 <= j < k < n ==> at[j] < at[k]
}

/// How many steps were passed, as long as none was not.
spec fn steps_passed(stage: CheckStage) -> Option<int> {
    match stage {
        CheckStage::Looking => Some(0),
        CheckStage::Opening => Some(1),
        CheckStage::Executing => Some(2),
        CheckStage::Reopening { passed } => if passed {
            Some(3)
        } else {
            None
        },
        CheckStage::Cancelling { passed } => if passed {
            Some(4)
        } else {
            None
        },
        CheckStage::Closing { passed } => if passed {
            Some(5)
        } else {
            None
        },
        CheckStage::Ended { code } => if code == 0 {
            Some(6)
        } else {
            None
        },
    }
}

spec fn has_passed(events: Seq<CheckEvent>, n: int) -> bool {
    exists|at: Seq<int>| passed_at(events, at, n)
}

proof fn stages_are_earned(events: Seq<CheckEvent>, binary: Seq<char>)
    ensures
        steps_passed(check_stage(events, binary)) matches Some(n) ==> has_passed(events, n),
    decreases events.len(),
{
    if events.len() == 0 {
        assert(passed_at(events, Seq::empty(), 0));
    } else {
        let before = check_stage(events.drop_last(), binary);
        let after = check_stage(events, binary);
        stages_are_earned(events.drop_last(), binary);
        if let Some(n) = steps_passed(after) {
            let had = steps_passed(before);
            assert(had == Some(n) || (had == Some(n - 1) && passes(n - 1, events.last())));
            let m = had->Some_0;
            let at = choose|at: Seq<int>| passed_at(events.drop_last(), at, m);
            let now = if m == n {
                at
            } else {
                at.push(events.len() - 1)
            };
            assert forall|k: int| 0 <= k < n implies 0 <= #[trigger] now[k] < events.len()
                && passes(k, events[now[k]]) by {
                if k < m {
                    assert(now[k] == at[k]);
                    assert(events.drop_last()[at[k]] == events[at[k]]);
                }
            }
            assert forall|j: int, k: int| #![trigger now[j], now[k]] 0 <= j < k < n implies now[j]
                < now[k] by {
                assert(now[j] == at[j]);
                if k < m {
                    assert(now[k] == at[k]);
                }
            }
            assert(passed_at(events, now, n));
        }
    }
}

/// A plugin is called conformant only where every check was passed, in order.
pub proof fn conformant_means_every_check_passed(events: Seq<CheckEvent>, binary: Seq<char>)
    requires
        check_stage(events, binary) == (CheckStage::Ended { code: 0 }),
    ensures
        exists|at: Seq<int>| passed_at(events, at, 6),
{
    stages_are_earned(events, binary);
}

/// A plugin that passes one check after the other is called conformant, and
/// the last line says so.
pub proof fn passing_every_check_is_conformant(events: Seq<CheckEvent>, binary: Seq<char>)
    requires
        events.len() == 6,
        forall|k: int| 0 <= k < 6 ==> passes(k, #[trigger] events[k]),
    ensures
        check_stage(events, binary) == (CheckStage::Ended { code: 0 }),
        check_lines(events, binary).last() == verdict_line(true),
{
    let e1 = events.drop_last();
    let e2 = e1.drop_last();
    let e3 = e2.drop_last();
    let e4 = e3.drop_last();
    let e5 = e4.drop_last();
    assert(e5.drop_last() =~= Seq::<CheckEvent>::empty());
    assert(passes(0, e5.last()) && passes(1, e4.last()) && passes(2, e3.last()) && passes(
        3,
        e2.last(),
    ) && passes(4, e1.last()) && passes(5, events.last()));
    assert(check_stage(e5.drop_last(), binary) == CheckStage::Looking);
    assert(check_stage(e5, binary) == CheckStage::Opening);
    assert(check_stage(e4, binary) == CheckStage::Executing);
    assert(check_stage(e3, binary) == (CheckStage::Reopening { passed: true }));
    assert(check_stage(e2, binary) == (CheckStage::Cancelling { passed: true }));
    assert(check_stage(e1, binary) == (CheckStage::Closing { passed: true }));
    let last = checked(check_stage(e1, binary), events.last(), binary).lines;
    assert(last.last() == verdict_line(true));
    assert((check_lines(e1, binary) + last).last() == last.last());
}

} // verus!
