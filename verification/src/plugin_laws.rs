//! Both ends of the plugin protocol: what a check asks of a plugin, and what
//! the example plugin answers.

use vstd::prelude::*;
use crate::event::Stream;
use crate::example_plugin::{
    reply_text, reply_views, respond, rest_of, verb_of, HostMessage, PluginEvent, PluginStage,
    PluginStep, Reply, ReplyView,
};
use crate::json::json_string;
use crate::numbers::{signed_value, unsigned_value};
use crate::plugin_check::{check, CheckEvent, CheckStage, CheckStep};
use crate::show_laws::has_part;
use crate::store::a_stored_line_keeps_its_stream;
use crate::store_laws::{a_json_string_is_never_the_beginning_of_another, prefix_cut};
use crate::text::{decimal, opt_view, signed_decimal, trimmed};

verus! {

/// `text` ends with `end`.
pub open spec fn ends_in(text: Seq<char>, end: Seq<char>) -> bool {
    exists|before: Seq<char>| text == #[trigger] (before + end)
}

/// A check goes from one step to the next: the binary has to be there, and
/// the handshake has to succeed; a command may end with any code, and where
/// it does not end the check goes on but is failed; then a fresh session is
/// opened, a command cancelled in it, and the session closed. The plugin
/// conforms exactly where all of that went well.
pub proof fn a_check_goes_step_by_step(
    stage: CheckStage,
    event: &CheckEvent,
    binary: &str,
    r: CheckStep,
)
    requires
        call_ensures(check, (stage, event, binary), r),
    ensures
        (stage is Looking && (*event matches CheckEvent::Looked { found } && found)) ==> r.stage
            is Opening,
        (stage is Looking && (*event matches CheckEvent::Looked { found } && !found)) ==> r.stage
            == (CheckStage::Ended { code: 2 }),
        (stage is Opening && (*event matches CheckEvent::Opened(o) && o is Ok)) ==> r.stage
            is Executing,
        (stage is Opening && (*event matches CheckEvent::Opened(o) && o is Err)) ==> r.stage
            == (CheckStage::Ended { code: 1 }),
        (stage is Executing && (*event matches CheckEvent::Executed(o))) ==> r.stage
            == (CheckStage::Reopening { passed: event->Executed_0 is Ok }),
        (stage is Executing && *event is Elapsed) ==> r.stage == (CheckStage::Reopening {
            passed: false,
        }),
        stage matches CheckStage::Reopening { passed } ==> (*event matches CheckEvent::Opened(o)
            ==> r.stage == if o is Ok {
            CheckStage::Cancelling { passed }
        } else {
            CheckStage::Ended { code: 1 }
        }),
        stage matches CheckStage::Cancelling { passed } ==> (*event matches CheckEvent::Answered(o)
            ==> r.stage == (CheckStage::Closing { passed: passed && o is Ok })),
        (stage is Cancelling && *event is Elapsed) ==> r.stage == (CheckStage::Ended { code: 1 }),
        stage matches CheckStage::Closing { passed } ==> (*event matches CheckEvent::Closed(o)
            ==> r.stage == (CheckStage::Ended {
            code: if passed && o is Ok {
                0
            } else {
                1
            },
        })),
        stage is Ended ==> r.stage == stage && r.lines@.len() == 0,
{
    assert(r@.lines.len() == r.lines@.len());
}

/// What a check found is told: a step that failed with why, an executed
/// command with its exit code and how many lines it wrote, and a cancelled
/// one with how long it took to answer. Where a check ends its verdict is
/// told last.
pub proof fn what_a_check_found_is_told(
    stage: CheckStage,
    event: &CheckEvent,
    binary: &str,
    r: CheckStep,
)
    requires
        call_ensures(check, (stage, event, binary), r),
    ensures
        stage is Opening ==> (*event matches CheckEvent::Opened(Err(why)) ==> ends_in(
            r.lines@[0]@,
            why@,
        )),
        stage is Executing ==> (*event matches CheckEvent::Executed(Err(why)) ==> ends_in(
            r.lines@[0]@,
            why@,
        )),
        stage is Executing ==> (*event matches CheckEvent::Executed(Ok((code, lines))) ==> has_part(
            r.lines@[0]@,
            "exit code "@ + signed_decimal(code as int) + ", "@ + decimal(lines as nat)
                + " output line"@,
        )),
        stage is Reopening ==> (*event matches CheckEvent::Opened(Err(why)) ==> ends_in(
            r.lines@[0]@,
            why@,
        )),
        stage is Cancelling ==> (*event matches CheckEvent::Answered(Ok(took)) ==> has_part(
            r.lines@[0]@,
            took@,
        )),
        stage is Cancelling ==> (*event matches CheckEvent::Answered(Err(why)) ==> ends_in(
            r.lines@[0]@,
            why@,
        )),
        stage is Closing ==> (*event matches CheckEvent::Closed(Err(why)) ==> ends_in(
            r.lines@[0]@,
            why@,
        )),
        stage is Looking ==> (r.stage is Ended ==> has_part(r.lines@[0]@, binary@)),
        !(stage is Ended) && !(stage is Looking) ==> (r.stage matches CheckStage::Ended { code }
            ==> r.lines@.last()@ == if code == 0 {
            "conformant: protocol v"@ + decimal(1)
        } else {
            "not conformant"@
        }),
{
    let v = r@.lines;
    assert(v.len() == r.lines@.len());
    if v.len() > 0 {
        assert(v[0] == r.lines@[0]@);
        assert(v.last() == r.lines@.last()@);
    }
    match (stage, *event) {
        (CheckStage::Opening, CheckEvent::Opened(Err(why))) => {
            assert(v[0] == "\u{2717} handshake: "@ + why@);
        },
        (CheckStage::Executing, CheckEvent::Executed(Err(why))) => {
            assert(v[0] == "\u{2717} execute: "@ + why@);
        },
        (CheckStage::Executing, CheckEvent::Executed(Ok((code, lines)))) => {
            reveal_strlit("\u{2713} execute: exit code ");
            reveal_strlit("\u{2713} execute: ");
            reveal_strlit("exit code ");
            let mark = "\u{2713} execute: "@;
            assert("\u{2713} execute: exit code "@ =~= mark + "exit code "@);
            let part = "exit code "@ + signed_decimal(code as int) + ", "@ + decimal(lines as nat)
                + " output line"@;
            let end = crate::plugin_check::plural(lines as nat);
            assert(v[0] =~= mark + part + end);
        },
        (CheckStage::Reopening { .. }, CheckEvent::Opened(Err(why))) => {
            assert(v[0] == "\u{2717} cancel: cannot open a fresh session \u{2014} "@ + why@);
        },
        (CheckStage::Cancelling { .. }, CheckEvent::Answered(Ok(took))) => {
            assert(v[0] == "\u{2713} cancel (answered in "@ + took@ + ")"@);
        },
        (CheckStage::Cancelling { .. }, CheckEvent::Answered(Err(why))) => {
            assert(v[0] == "\u{2717} cancel: "@ + why@);
        },
        (CheckStage::Closing { .. }, CheckEvent::Closed(Err(why))) => {
            assert(v[0] == "\u{2717} close: "@ + why@);
        },
        (CheckStage::Looking, CheckEvent::Looked { found: false }) => {
            assert(v[0] == "cannot check `"@ + binary@ + "`: no such file"@);
        },
        _ => {},
    }
}

/// A command's first word ends at its first space, and the rest is what
/// follows that.
pub proof fn a_command_is_cut_at_its_first_space(verb: Seq<char>, rest: Seq<char>)
    requires
        !verb.contains(' '),
    ensures
        verb_of(verb.push(' ') + rest) == verb,
        rest_of(verb.push(' ') + rest) == rest,
        verb_of(verb) == verb,
        rest_of(verb) == Seq::<char>::empty(),
    decreases verb.len(),
{
    let command = verb.push(' ') + rest;
    if verb.len() == 0 {
        assert(command[0] == ' ');
        assert(command.drop_first() =~= rest);
        assert(verb_of(command) =~= verb);
        assert(verb_of(verb) =~= verb);
    } else {
        let tail = verb.drop_first();
        assert(verb[0] != ' ') by {
            if verb[0] == ' ' {
                assert(verb.contains(' '));
            }
        }
        assert(!tail.contains(' ')) by {
            if tail.contains(' ') {
                let i = choose|i: int| 0 <= i < tail.len() && tail[i] == ' ';
                assert(verb[i + 1] == ' ');
            }
        }
        a_command_is_cut_at_its_first_space(tail, rest);
        assert(command.drop_first() =~= tail.push(' ') + rest);
        assert(seq![verb[0]] + tail =~= verb);
    }
}

/// What the example plugin answers to a command: `echo` is answered with its
/// text and 0, `fail` with its code, `sleep` with 0 once the time is up, and
/// anything else with a complaint and 127.
pub proof fn a_command_is_answered(
    message: HostMessage,
    command: String,
    r: PluginStep,
)
    requires
        call_ensures(respond, (PluginStage::Idle, &PluginEvent::Message(message)), r),
        opt_view(message.kind) == Some("execute"@),
        message.command == Some(command),
    ensures
        ({
            let verb = verb_of(command@);
            let rest = rest_of(command@);
            let sent = reply_views(r.replies@);
            &&& verb == "echo"@ ==> r.stage is Idle && sent == seq![
                ReplyView::Output { stream: Stream::Stdout, text: rest },
                ReplyView::Exit { code: 0 },
            ]
            &&& verb == "fail"@ ==> r.stage is Idle && sent == seq![
                ReplyView::Exit {
                    code: match signed_value(trimmed(rest)) {
                        Some(n) if i32::MIN <= n <= i32::MAX => n as i32,
                        _ => 1,
                    },
                },
            ]
            &&& verb == "sleep"@ ==> match unsigned_value(trimmed(rest)) {
                Some(n) if 0 < n <= u64::MAX => r.stage is Sleeping && sent.len() == 0 && r.wait
                    == Some(n as u64),
                _ => r.stage is Idle && sent == seq![ReplyView::Exit { code: 0 }],
            }
            &&& verb != "echo"@ && verb != "fail"@ && verb != "sleep"@ ==> r.stage is Idle && sent
                == seq![
                ReplyView::Output { stream: Stream::Stderr, text: "unknown command"@ },
                ReplyView::Exit { code: 127 },
            ]
        }),
{
    reveal_strlit("echo");
    reveal_strlit("fail");
    reveal_strlit("sleep");
    assert("echo"@[0] == 'e' && "fail"@[0] == 'f' && "sleep"@[0] == 's');
}

/// The example plugin opens a session for its own version of the protocol
/// alone; a command that waits ends with 0 when its time is up and with -1
/// when it is cancelled; and a session ends when it is closed or the host is
/// gone.
pub proof fn a_session_is_answered(
    open: HostMessage,
    opened: PluginStep,
    other: HostMessage,
    waiting: PluginStep,
    up: PluginStep,
    idle: PluginStep,
    stage: PluginStage,
    gone: PluginStep,
)
    requires
        call_ensures(respond, (PluginStage::Opening, &PluginEvent::Message(open)), opened),
        call_ensures(respond, (PluginStage::Sleeping, &PluginEvent::Message(other)), waiting),
        call_ensures(respond, (PluginStage::Sleeping, &PluginEvent::TimeUp), up),
        call_ensures(respond, (PluginStage::Idle, &PluginEvent::Message(other)), idle),
        call_ensures(respond, (stage, &PluginEvent::Gone), gone),
    ensures
        open.protocol == Some(1u64) ==> opened.stage is Idle && reply_views(opened.replies@)
            == seq![ReplyView::Ready],
        open.protocol != Some(1u64) ==> opened.stage is Ended && opened.replies@.len() == 1
            && opened.replies@[0]@ is Refused,
        opt_view(other.kind) == Some("cancel"@) ==> waiting.stage is Idle && reply_views(
            waiting.replies@,
        ) == seq![ReplyView::Exit { code: (-1) as i32 }],
        opt_view(other.kind) != Some("cancel"@) ==> waiting.stage is Sleeping
            && waiting.replies@.len() == 0,
        up.stage is Idle && reply_views(up.replies@) == seq![ReplyView::Exit { code: 0 }],
        opt_view(other.kind) == Some("close"@) ==> idle.stage is Ended && idle.replies@.len() == 0,
        opt_view(other.kind) != Some("close"@) && opt_view(other.kind) != Some("execute"@)
            ==> idle.stage is Idle && idle.replies@.len() == 0,
        gone.stage is Ended && gone.replies@.len() == 0,
{
    reveal_strlit("execute");
    reveal_strlit("close");
    assert("execute"@.len() != "close"@.len());
    assert(reply_views(opened.replies@).len() == opened.replies@.len());
    assert(reply_views(waiting.replies@).len() == waiting.replies@.len());
    assert(reply_views(idle.replies@).len() == idle.replies@.len());
    assert(reply_views(gone.replies@).len() == gone.replies@.len());
    if opened.replies@.len() > 0 {
        assert(reply_views(opened.replies@)[0] == opened.replies@[0]@);
    }
}

/// A line of output is told by what is sent of it: its stream and its text.
pub proof fn sent_output_is_told(
    stream: Stream,
    text: String,
    r: String,
    other_stream: Stream,
    other_text: String,
    s: String,
)
    requires
        call_ensures(reply_text, (&Reply::Output { stream, text },), r),
        call_ensures(
            reply_text,
            (&Reply::Output { stream: other_stream, text: other_text },),
            s,
        ),
        r@ == s@,
    ensures
        stream == other_stream,
        text@ == other_text@,
{
    let p = "{\"stream\":"@;
    let q = ",\"text\":"@;
    let e = ",\"type\":\"output\"}"@;
    let wa = crate::json::stream_word(stream);
    let wb = crate::json::stream_word(other_stream);
    let x = q + (json_string(text@) + e);
    let y = q + (json_string(other_text@) + e);
    assert(r@ =~= p + (json_string(wa) + x));
    assert(s@ =~= p + (json_string(wb) + y));
    prefix_cut(p, json_string(wa) + x, json_string(wb) + y);
    a_json_string_is_never_the_beginning_of_another(wa, x, wb, y);
    a_stored_line_keeps_its_stream(stream);
    a_stored_line_keeps_its_stream(other_stream);
    prefix_cut(q, json_string(text@) + e, json_string(other_text@) + e);
    a_json_string_is_never_the_beginning_of_another(text@, e, other_text@, e);
}

} // verus!
