//! A plugin that speaks the executor protocol: one JSON object a line, in
//! both directions.
//!
//! The host opens a session, has commands executed one at a time, may cancel
//! the one that runs, and closes the session. Each command gets its output,
//! if any, and exactly one `exit`. Four kinds of command are known: `echo
//! <text>`, `fail <code>`, `sleep <ms>`, and anything else, which fails.
//!
//! Reading lines and keeping time is the caller's part.

use vstd::prelude::*;
use vstd::string::*;
use crate::event::Stream;
use crate::json::{json_string, json_text, stream_name, stream_word};
use crate::numbers::{parse_signed, parse_unsigned, signed_value, unsigned_value};
use crate::text::{
    chars_of, decimal, decimal_text, opt_view, same_text, signed_decimal, signed_text, string_of,
    text3, text5, trim, trimmed,
};

verus! {

/// Whether `serde_json::from_str` reads a line as a `serde_json::Value`.
pub uninterp spec fn is_json(line: Seq<char>) -> bool;

/// The string under `key` in the object that `serde_json::from_str` reads a
/// line as, where it is an object with such a string.
pub uninterp spec fn json_text_at(line: Seq<char>, key: Seq<char>) -> Option<Seq<char>>;

/// The number under `key` in the object that `serde_json::from_str` reads a
/// line as, where it is an object with such a number and that is a `u64`.
pub uninterp spec fn json_number_at(line: Seq<char>, key: Seq<char>) -> Option<u64>;

/// `serde_json::from_str` into a `Value`: whether the line is JSON.
#[verifier::external_body]
fn parses(line: &str) -> (r: bool)
    ensures
        r == is_json(line@),
{
    serde_json::from_str::<serde_json::Value>(line).is_ok()
}

/// `Value::get` and `Value::as_str` on what `serde_json::from_str` reads.
#[verifier::external_body]
fn text_at(line: &str, key: &str) -> (r: Option<String>)
    ensures
        opt_view(r) == json_text_at(line@, key@),
{
    let value = serde_json::from_str::<serde_json::Value>(line).ok()?;
    value.get(key)?.as_str().map(str::to_owned)
}

/// `Value::get` and `Value::as_u64` on what `serde_json::from_str` reads.
#[verifier::external_body]
fn number_at(line: &str, key: &str) -> (r: Option<u64>)
    ensures
        r == json_number_at(line@, key@),
{
    let value = serde_json::from_str::<serde_json::Value>(line).ok()?;
    value.get(key)?.as_u64()
}

/// What the host sends, as far as a plugin looks at it.
#[derive(Debug, PartialEq, Eq)]
pub struct HostMessage {
    pub kind: Option<String>,
    pub protocol: Option<u64>,
    pub command: Option<String>,
}

pub struct MessageView {
    pub kind: Option<Seq<char>>,
    pub protocol: Option<u64>,
    pub command: Option<Seq<char>>,
}

impl View for HostMessage {
    type V = MessageView;

    open spec fn view(&self) -> MessageView {
        MessageView {
            kind: opt_view(self.kind),
            protocol: self.protocol,
            command: opt_view(self.command),
        }
    }
}

/// The message on a line; none where the line is not JSON.
pub open spec fn message_on(line: Seq<char>) -> Option<MessageView> {
    if is_json(line) {
        Some(
            MessageView {
                kind: json_text_at(line, "type"@),
                protocol: json_number_at(line, "protocol"@),
                command: json_text_at(line, "command"@),
            },
        )
    } else {
        None
    }
}

/// The message on a line. A line that is not JSON is skipped.
pub fn read_message(line: &str) -> (r: Option<HostMessage>)
    ensures
        match r {
            Some(message) => message_on(line@) == Some(message@),
            None => message_on(line@) is None,
        },
{
    if parses(line) {
        Some(
            HostMessage {
                kind: text_at(line, "type"),
                protocol: number_at(line, "protocol"),
                command: text_at(line, "command"),
            },
        )
    } else {
        None
    }
}

/// What a plugin sends.
#[derive(Debug, PartialEq, Eq)]
pub enum Reply {
    Ready,
    Refused(String),
    Output { stream: Stream, text: String },
    Exit { code: i32 },
}

pub enum ReplyView {
    Ready,
    Refused(Seq<char>),
    Output { stream: Stream, text: Seq<char> },
    Exit { code: i32 },
}

impl View for Reply {
    type V = ReplyView;

    open spec fn view(&self) -> ReplyView {
        match self {
            Reply::Ready => ReplyView::Ready,
            Reply::Refused(message) => ReplyView::Refused(message@),
            Reply::Output { stream, text } => ReplyView::Output { stream: *stream, text: text@ },
            Reply::Exit { code } => ReplyView::Exit { code: *code },
        }
    }
}

pub open spec fn reply_views(replies: Seq<Reply>) -> Seq<ReplyView> {
    Seq::new(replies.len(), |i: int| replies[i]@)
}

/// A reply on the wire.
pub open spec fn reply_line(reply: ReplyView) -> Seq<char> {
    match reply {
        ReplyView::Ready => "{\"type\":\"ready\"}"@,
        ReplyView::Refused(message) => "{\"message\":"@ + json_string(message)
            + ",\"type\":\"error\"}"@,
        ReplyView::Output { stream, text } => "{\"stream\":"@ + json_string(stream_word(stream))
            + ",\"text\":"@ + json_string(text) + ",\"type\":\"output\"}"@,
        ReplyView::Exit { code } => "{\"code\":"@ + signed_decimal(code as int)
            + ",\"type\":\"exit\"}"@,
    }
}

/// A reply on the wire: one JSON object on one line.
pub fn reply_text(reply: &Reply) -> (r: String)
    ensures
        r@ == reply_line(reply@),
{
    match reply {
        Reply::Ready => "{\"type\":\"ready\"}".to_owned(),
        Reply::Refused(message) => text3(
            "{\"message\":",
            json_text(message.as_str()).as_str(),
            ",\"type\":\"error\"}",
        ),
        Reply::Output { stream, text } => text5(
            "{\"stream\":",
            json_text(stream_name(*stream)).as_str(),
            ",\"text\":",
            json_text(text.as_str()).as_str(),
            ",\"type\":\"output\"}",
        ),
        Reply::Exit { code } => text3(
            "{\"code\":",
            signed_text(*code).as_str(),
            ",\"type\":\"exit\"}",
        ),
    }
}

/// The exit code of a command that was cancelled.
pub const CANCELLED: i32 = -1;

/// Where a session stands.
#[derive(Debug, Clone, Copy, PartialEq, Eq, Structural)]
pub enum PluginStage {
    /// Waiting for the host to open it.
    Opening,
    /// Waiting for a command.
    Idle,
    /// In a command that waits.
    Sleeping,
    Ended,
}

/// What a plugin waits for.
#[derive(Debug, PartialEq, Eq)]
pub enum PluginEvent {
    Message(HostMessage),
    /// The time that a command waits for is up.
    TimeUp,
    /// The host is gone.
    Gone,
}

/// Where a session stands, what is to be sent, and how long to wait where a
/// command does.
pub struct PluginStep {
    pub stage: PluginStage,
    pub replies: Vec<Reply>,
    /// In milliseconds.
    pub wait: Option<u64>,
}

pub struct PluginView {
    pub stage: PluginStage,
    pub replies: Seq<ReplyView>,
    pub wait: Option<u64>,
}

impl View for PluginStep {
    type V = PluginView;

    open spec fn view(&self) -> PluginView {
        PluginView { stage: self.stage, replies: reply_views(self.replies@), wait: self.wait }
    }
}

pub open spec fn sending(stage: PluginStage, replies: Seq<ReplyView>) -> PluginView {
    PluginView { stage, replies, wait: None }
}

/// A command's first word: what comes before its first space.
pub open spec fn verb_of(command: Seq<char>) -> Seq<char>
    decreases command.len(),
{
    if command.len() == 0 || command[0] == ' ' {
        Seq::empty()
    } else {
        seq![command[0]] + verb_of(command.drop_first())
    }
}

/// What comes after a command's first space.
pub open spec fn rest_of(command: Seq<char>) -> Seq<char>
    decreases command.len(),
{
    if command.len() == 0 {
        Seq::empty()
    } else if command[0] == ' ' {
        command.drop_first()
    } else {
        rest_of(command.drop_first())
    }
}

/// The exit code that `fail` is given, 1 where it is none.
pub open spec fn failing_code(rest: Seq<char>) -> i32 {
    match signed_value(trimmed(rest)) {
        Some(n) => if i32::MIN <= n <= i32::MAX {
            n as i32
        } else {
            1
        },
        None => 1,
    }
}

/// The time that `sleep` is given, 0 where it is none.
pub open spec fn sleeping_millis(rest: Seq<char>) -> u64 {
    match unsigned_value(trimmed(rest)) {
        Some(n) => if n <= u64::MAX {
            n as u64
        } else {
            0
        },
        None => 0,
    }
}

/// What a command does.
pub open spec fn executing(command: Seq<char>) -> PluginView {
    let rest = rest_of(command);
    if verb_of(command) == "echo"@ {
        sending(
            PluginStage::Idle,
            seq![
                ReplyView::Output { stream: Stream::Stdout, text: rest },
                ReplyView::Exit { code: 0 },
            ],
        )
    } else if verb_of(command) == "fail"@ {
        sending(PluginStage::Idle, seq![ReplyView::Exit { code: failing_code(rest) }])
    } else if verb_of(command) == "sleep"@ {
        if sleeping_millis(rest) == 0 {
            sending(PluginStage::Idle, seq![ReplyView::Exit { code: 0 }])
        } else {
            PluginView {
                stage: PluginStage::Sleeping,
                replies: Seq::empty(),
                wait: Some(sleeping_millis(rest)),
            }
        }
    } else {
        sending(
            PluginStage::Idle,
            seq![
                ReplyView::Output { stream: Stream::Stderr, text: "unknown command"@ },
                ReplyView::Exit { code: 127 },
            ],
        )
    }
}

/// The answer to the host's opening.
pub open spec fn opening(message: MessageView) -> PluginView {
    match message.protocol {
        Some(version) => if version == 1 {
            sending(PluginStage::Idle, seq![ReplyView::Ready])
        } else {
            sending(
                PluginStage::Ended,
                seq![
                    ReplyView::Refused(
                        "protocol "@ + decimal(version as nat) + " not supported"@,
                    ),
                ],
            )
        },
        None => sending(
            PluginStage::Ended,
            seq![ReplyView::Refused("protocol missing not supported"@)],
        ),
    }
}

/// What a plugin does about what happened.
pub open spec fn responded(stage: PluginStage, event: PluginEvent) -> PluginView {
    match event {
        PluginEvent::Message(message) => match stage {
            PluginStage::Opening => opening(message@),
            PluginStage::Idle => if message@.kind == Some("execute"@) {
                executing(
                    match message@.command {
                        Some(command) => command,
                        None => Seq::empty(),
                    },
                )
            } else if message@.kind == Some("close"@) {
                sending(PluginStage::Ended, Seq::empty())
            } else {
                sending(PluginStage::Idle, Seq::empty())
            },
            PluginStage::Sleeping => if message@.kind == Some("cancel"@) {
                sending(PluginStage::Idle, seq![ReplyView::Exit { code: CANCELLED }])
            } else {
                sending(PluginStage::Sleeping, Seq::empty())
            },
            PluginStage::Ended => sending(PluginStage::Ended, Seq::empty()),
        },
        PluginEvent::TimeUp => match stage {
            PluginStage::Sleeping => sending(
                PluginStage::Idle,
                seq![ReplyView::Exit { code: 0 }],
            ),
            _ => sending(stage, Seq::empty()),
        },
        PluginEvent::Gone => sending(PluginStage::Ended, Seq::empty()),
    }
}

fn send(stage: PluginStage, reply: Option<Reply>) -> (r: PluginStep)
    ensures
        r@ == sending(
            stage,
            match reply {
                Some(x) => seq![x@],
                None => Seq::empty(),
            },
        ),
{
    let mut replies: Vec<Reply> = Vec::new();
    assert(reply_views(replies@) =~= Seq::<ReplyView>::empty());
    if let Some(x) = reply {
        replies.push(x);
        assert(reply_views(replies@) =~= seq![x@]);
    }
    PluginStep { stage, replies, wait: None }
}

/// A line of output and the end of the command.
fn send_output(stream: Stream, text: String, code: i32) -> (r: PluginStep)
    ensures
        r@ == sending(
            PluginStage::Idle,
            seq![ReplyView::Output { stream, text: text@ }, ReplyView::Exit { code }],
        ),
{
    let mut replies: Vec<Reply> = Vec::new();
    replies.push(Reply::Output { stream, text });
    replies.push(Reply::Exit { code });
    assert(reply_views(replies@) =~= seq![
        ReplyView::Output { stream, text: text@ },
        ReplyView::Exit { code },
    ]);
    PluginStep { stage: PluginStage::Idle, replies, wait: None }
}

/// A command's first word and what comes after the space behind it.
fn split_command(command: &str) -> (r: (String, String))
    ensures
        r.0@ == verb_of(command@),
        r.1@ == rest_of(command@),
{
    let chars = chars_of(command);
    let mut verb: Vec<char> = Vec::new();
    let mut i: usize = 0;
    assert(command@.skip(0) =~= command@);
    assert(verb_of(command@) =~= verb@ + verb_of(command@.skip(0)));
    while i < chars.len() && chars[i] != ' '
        invariant
            i <= chars@.len(),
            chars@ == command@,
            verb_of(command@) == verb@ + verb_of(command@.skip(i as int)),
            rest_of(command@) == rest_of(command@.skip(i as int)),
        decreases chars.len() - i,
    {
        let ghost left = command@.skip(i as int);
        assert(left.drop_first() =~= command@.skip(i + 1));
        let ghost before = verb@;
        verb.push(chars[i]);
        assert(verb@ + verb_of(command@.skip(i + 1)) =~= before + (seq![left[0]] + verb_of(
            left.drop_first(),
        )));
        i += 1;
    }
    assert(verb_of(command@.skip(i as int)) =~= Seq::<char>::empty());
    assert(verb@ + Seq::<char>::empty() =~= verb@);
    let mut rest: Vec<char> = Vec::new();
    let ghost left = command@.skip(i as int);
    if i < chars.len() {
        i += 1;
        assert(left.drop_first() =~= command@.skip(i as int));
    }
    let start: usize = i;
    while i < chars.len()
        invariant
            start <= i <= chars@.len(),
            chars@ == command@,
            rest@ == command@.subrange(start as int, i as int),
        decreases chars.len() - i,
    {
        rest.push(chars[i]);
        i += 1;
    }
    assert(rest@ =~= command@.skip(start as int));
    assert(rest@ =~= rest_of(left));
    (string_of(&verb), string_of(&rest))
}

/// Runs a command, or starts to wait where it does.
pub fn execute(command: &str) -> (r: PluginStep)
    ensures
        r@ == executing(command@),
{
    let (verb, rest) = split_command(command);
    if same_text(verb.as_str(), "echo") {
        send_output(Stream::Stdout, rest, 0)
    } else if same_text(verb.as_str(), "fail") {
        let code: i32 = match parse_signed(
            trim(rest.as_str()).as_str(),
            i32::MIN as i64,
            i32::MAX as i64,
        ) {
            Some(n) => n as i32,
            None => 1,
        };
        send(PluginStage::Idle, Some(Reply::Exit { code }))
    } else if same_text(verb.as_str(), "sleep") {
        let millis: u64 = match parse_unsigned(trim(rest.as_str()).as_str(), u64::MAX) {
            Some(n) => n,
            None => 0,
        };
        if millis == 0 {
            send(PluginStage::Idle, Some(Reply::Exit { code: 0 }))
        } else {
            let replies: Vec<Reply> = Vec::new();
            assert(reply_views(replies@) =~= Seq::<ReplyView>::empty());
            PluginStep { stage: PluginStage::Sleeping, replies, wait: Some(millis) }
        }
    } else {
        send_output(Stream::Stderr, "unknown command".to_owned(), 127)
    }
}

/// The answer to the host's opening: only the first version of the protocol
/// is spoken.
pub fn handshake(message: &HostMessage) -> (r: PluginStep)
    ensures
        r@ == opening(message@),
{
    match message.protocol {
        Some(1) => send(PluginStage::Idle, Some(Reply::Ready)),
        Some(version) => send(
            PluginStage::Ended,
            Some(
                Reply::Refused(
                    text3("protocol ", decimal_text(version).as_str(), " not supported"),
                ),
            ),
        ),
        None => send(
            PluginStage::Ended,
            Some(Reply::Refused("protocol missing not supported".to_owned())),
        ),
    }
}

fn is_kind(message: &HostMessage, kind: &str) -> (r: bool)
    ensures
        r == (message@.kind == Some(kind@)),
{
    match &message.kind {
        Some(k) => same_text(k.as_str(), kind),
        None => false,
    }
}

/// What a plugin does about what happened.
pub fn respond(stage: PluginStage, event: &PluginEvent) -> (r: PluginStep)
    ensures
        r@ == responded(stage, *event),
{
    match event {
        PluginEvent::Message(message) => match stage {
            PluginStage::Opening => handshake(message),
            PluginStage::Idle => if is_kind(message, "execute") {
                match &message.command {
                    Some(command) => execute(command.as_str()),
                    None => {
                        proof {
                            reveal_strlit("");
                            assert(""@ =~= Seq::<char>::empty());
                        }
                        execute("")
                    },
                }
            } else if is_kind(message, "close") {
                send(PluginStage::Ended, None)
            } else {
                send(PluginStage::Idle, None)
            },
            PluginStage::Sleeping => if is_kind(message, "cancel") {
                send(PluginStage::Idle, Some(Reply::Exit { code: CANCELLED }))
            } else {
                send(PluginStage::Sleeping, None)
            },
            PluginStage::Ended => send(PluginStage::Ended, None),
        },
        PluginEvent::TimeUp => match stage {
            PluginStage::Sleeping => send(PluginStage::Idle, Some(Reply::Exit { code: 0 })),
            _ => send(stage, None),
        },
        PluginEvent::Gone => send(PluginStage::Ended, None),
    }
}

/// Where a session stands after `events`.
pub open spec fn plugin_stage(events: Seq<PluginEvent>) -> PluginStage
    decreases events.len(),
{
    if events.len() == 0 {
        PluginStage::Opening
    } else {
        responded(plugin_stage(events.drop_last()), events.last()).stage
    }
}

/// All that was sent during `events`.
pub open spec fn sent(events: Seq<PluginEvent>) -> Seq<ReplyView>
    decreases events.len(),
{
    if events.len() == 0 {
        Seq::empty()
    } else {
        sent(events.drop_last()) + responded(
            plugin_stage(events.drop_last()),
            events.last(),
        ).replies
    }
}

/// How many commands ended.
pub open spec fn exits(replies: Seq<ReplyView>) -> nat
    decreases replies.len(),
{
    if replies.len() == 0 {
        0
    } else {
        exits(replies.drop_last()) + if replies.last() is Exit {
            1nat
        } else {
            0
        }
    }
}

/// How many commands the host had executed.
pub open spec fn commands_taken(events: Seq<PluginEvent>) -> nat
    decreases events.len(),
{
    if events.len() == 0 {
        0
    } else {
        commands_taken(events.drop_last()) + if plugin_stage(events.drop_last()) is Idle && (
        events.last() matches PluginEvent::Message(m) && m@.kind == Some("execute"@)) {
            1nat
        } else {
            0
        }
    }
}

/// The host went away while a command was waiting.
pub open spec fn left_waiting(events: Seq<PluginEvent>) -> bool
    decreases events.len(),
{
    events.len() > 0 && (left_waiting(events.drop_last()) || (plugin_stage(
        events.drop_last(),
    ) is Sleeping && events.last() is Gone))
}

proof fn exits_add(a: Seq<ReplyView>, b: Seq<ReplyView>)
    ensures
        exits(a + b) == exits(a) + exits(b),
    decreases b.len(),
{
    if b.len() == 0 {
        assert(a + b =~= a);
    } else {
        exits_add(a, b.drop_last());
        assert((a + b).drop_last() =~= a + b.drop_last());
    }
}

proof fn step_exits(stage: PluginStage, event: PluginEvent)
    ensures
        exits(responded(stage, event).replies) <= 1,
        exits(responded(stage, event).replies) == 1 <==> responded(
            stage,
            event,
        ).replies.len() > 0 && responded(stage, event).replies.last() is Exit,
{
    let replies = responded(stage, event).replies;
    reveal_with_fuel(exits, 3);
    if replies.len() == 2 {
        assert(replies.drop_last().drop_last() =~= Seq::<ReplyView>::empty());
        assert(replies.drop_last().last() == replies[0]);
    } else if replies.len() == 1 {
        assert(replies.drop_last() =~= Seq::<ReplyView>::empty());
    }
}

/// Every command that the host has executed ends exactly once: the `exit`s
/// sent so far are as many as the commands taken, but for one that still
/// waits or that the host did not stay for.
pub proof fn every_command_ends_once(events: Seq<PluginEvent>)
    ensures
        commands_taken(events) == exits(sent(events)) + (if plugin_stage(events) is Sleeping
            || left_waiting(events) {
            1nat
        } else {
            0
        }),
        left_waiting(events) ==> plugin_stage(events) is Ended,
    decreases events.len(),
{
    if events.len() > 0 {
        let before = events.drop_last();
        every_command_ends_once(before);
        let stage = plugin_stage(before);
        step_exits(stage, events.last());
        exits_add(sent(before), responded(stage, events.last()).replies);
        if let PluginEvent::Message(m) = events.last() {
            if stage is Idle && m@.kind == Some("execute"@) {
                let command = match m@.command {
                    Some(command) => command,
                    None => Seq::<char>::empty(),
                };
                assert(responded(stage, events.last()) == executing(command));
            }
            if stage is Idle && m@.kind == Some("close"@) {
                reveal_strlit("execute");
                reveal_strlit("close");
                assert("execute"@.len() != "close"@.len());
            }
        }
    }
}

} // verus!
