//! What is remembered of a beam's last success: a manifest and its output,
//! under names made from a hash of the beam's id.

use vstd::prelude::*;
use vstd::string::*;
use vstd::utf8::encode_utf8;
use crate::event::{OutputLine, Stream};
use crate::fingerprint::{blake3_hex, hash_bytes, is_hash};
use crate::git::{lines, lines_of};
use crate::json::{json_string, json_strings, json_text, stream_name, stream_word};
use crate::model::BeamId;
use crate::paths::{join_path, joined_path};
use crate::text::{decimal, decimal_text, join, joined, opt_view, same_text, text3, text5, views};

verus! {

/// The format of manifests, fingerprints included. What was written in
/// another is not read.
pub const FORMAT_VERSION: u32 = 2;

/// What the last success of a beam left behind.
#[derive(Debug, PartialEq)]
pub struct Manifest {
    pub version: u32,
    pub fingerprint: String,
    pub outputs: Vec<String>,
    /// How long the beam took, in milliseconds.
    pub duration_ms: u64,
}

impl Manifest {
    /// What is remembered of a success, in the format of this version.
    pub fn new(fingerprint: String, outputs: Vec<String>, duration_ms: u64) -> (r: Manifest)
        ensures
            r == (Manifest { version: FORMAT_VERSION, fingerprint, outputs, duration_ms }),
    {
        Manifest { version: FORMAT_VERSION, fingerprint, outputs, duration_ms }
    }
}

/// A line of output as it is stored.
#[derive(Debug, PartialEq, Eq)]
pub struct StoredLine {
    pub stream: String,
    pub text: String,
}

/// Where entries are kept.
#[derive(Debug, PartialEq, Eq)]
pub struct CacheStore {
    pub dir: String,
}

/// Caller-facing configuration: where entries are kept, and whether a run
/// reads them. A run that does not still writes them.
#[derive(Debug, PartialEq, Eq)]
pub struct CacheOptions {
    pub dir: String,
    pub force: bool,
}

/// What a beam's entries are named by: the hash of its id.
pub open spec fn entry_hash(id: Seq<char>) -> Seq<char> {
    blake3_hex(encode_utf8(id))
}

/// The path of a beam's entry: the first half of the hash of its id, and the
/// extension.
pub open spec fn entry_path(dir: Seq<char>, id: Seq<char>, extension: Seq<char>) -> Seq<char> {
    joined_path(dir, entry_hash(id).take(32) + "."@ + extension)
}

impl CacheStore {
    pub fn new(dir: String) -> (r: CacheStore)
        ensures
            r.dir == dir,
    {
        CacheStore { dir }
    }

    /// The path of the entry of `id` with this extension. Ids hold `:` and
    /// what users type; a hash is safe in a file name.
    pub fn entry(&self, id: &BeamId, extension: &str) -> (r: String)
        ensures
            r@ == entry_path(self.dir@, id@, extension@),
            is_hash(entry_hash(id@)),
    {
        let name = hash_bytes(id.0.as_str().as_bytes());
        let half = name.as_str().substring_char(0, 32);
        join_path(self.dir.as_str(), text3(half, ".", extension).as_str())
    }
}

/// A manifest that could be parsed, where it is of this format; what cannot
/// be trusted is as good as nothing.
pub fn accept_manifest(parsed: Option<Manifest>) -> (r: Option<Manifest>)
    ensures
        r == match parsed {
            Some(m) => if m.version == FORMAT_VERSION {
                Some(m)
            } else {
                None
            },
            None => None,
        },
{
    match parsed {
        Some(manifest) => if manifest.version == FORMAT_VERSION {
            Some(manifest)
        } else {
            None
        },
        None => None,
    }
}

/// The stream that a stored name stands for.
pub open spec fn stream_of(name: Seq<char>) -> Stream {
    if name == "stderr"@ {
        Stream::Stderr
    } else {
        Stream::Stdout
    }
}

/// A stored line as the output it was.
pub fn restore_line(line: StoredLine) -> (r: OutputLine)
    ensures
        r.stream == stream_of(line.stream@),
        r.text == line.text,
{
    let stream = if same_text(line.stream.as_str(), "stderr") {
        Stream::Stderr
    } else {
        Stream::Stdout
    };
    OutputLine { stream, text: line.text }
}

/// A line of output as it is stored.
pub fn stored_line(line: &OutputLine) -> (r: StoredLine)
    ensures
        r.stream@ == stream_word(line.stream),
        r.text == line.text,
{
    StoredLine { stream: stream_name(line.stream).to_owned(), text: line.text.clone() }
}

/// A stored line comes back on the stream it was written on.
pub proof fn a_stored_line_keeps_its_stream(stream: Stream)
    ensures
        stream_of(stream_word(stream)) == stream,
{
    reveal_strlit("stderr");
    reveal_strlit("stdout");
    assert("stdout"@[3] != "stderr"@[3]);
}

/// A line of the log file, without its line break.
pub open spec fn log_line(stream: Seq<char>, text: Seq<char>) -> Seq<char> {
    "{\"stream\":"@ + json_string(stream) + ",\"text\":"@ + json_string(text) + "}"@
}

/// A log file: one line of JSON for each line of output.
pub open spec fn log_file(lines: Seq<OutputLine>) -> Seq<char>
    decreases lines.len(),
{
    if lines.len() == 0 {
        Seq::empty()
    } else {
        log_file(lines.drop_last()) + log_line(
            stream_word(lines.last().stream),
            lines.last().text@,
        ) + "\n"@
    }
}

/// The log file for some output.
pub fn log_text(lines: &Vec<OutputLine>) -> (r: String)
    ensures
        r@ == log_file(lines@),
{
    let mut out = String::new();
    let mut i: usize = 0;
    while i < lines.len()
        invariant
            i <= lines@.len(),
            out@ == log_file(lines@.take(i as int)),
        decreases lines.len() - i,
    {
        let stored = stored_line(&lines[i]);
        assert(lines@.take(i + 1).drop_last() == lines@.take(i as int));
        let line = text5(
            "{\"stream\":",
            json_text(stored.stream.as_str()).as_str(),
            ",\"text\":",
            json_text(stored.text.as_str()).as_str(),
            "}",
        );
        out.append(line.as_str());
        out.append("\n");
        i += 1;
    }
    assert(lines@.take(lines@.len() as int) == lines@);
    out
}

/// A list of texts in an indented JSON document.
pub open spec fn indented_array(texts: Seq<Seq<char>>) -> Seq<char> {
    if texts.len() == 0 {
        "[]"@
    } else {
        "[\n    "@ + joined(json_strings(texts), ",\n    "@) + "\n  ]"@
    }
}

/// A manifest file: an indented JSON document.
pub open spec fn manifest_file(m: Manifest) -> Seq<char> {
    "{\n  \"version\": "@ + decimal(m.version as nat) + ",\n  \"fingerprint\": "@ + json_string(
        m.fingerprint@,
    ) + ",\n  \"outputs\": "@ + indented_array(views(m.outputs@)) + ",\n  \"duration_ms\": "@
        + decimal(m.duration_ms as nat) + "\n}"@
}

fn indented_array_text(texts: &Vec<String>) -> (r: String)
    ensures
        r@ == indented_array(views(texts@)),
{
    if texts.len() == 0 {
        return "[]".to_owned();
    }
    let mut parts: Vec<String> = Vec::new();
    let mut i: usize = 0;
    while i < texts.len()
        invariant
            i <= texts@.len(),
            parts@.len() == i,
            forall|k: int| 0 <= k < i ==> (#[trigger] parts@[k])@ == json_string(texts@[k]@),
        decreases texts.len() - i,
    {
        parts.push(json_text(texts[i].as_str()));
        i += 1;
    }
    assert(views(parts@) =~= json_strings(views(texts@)));
    text3("[\n    ", join(&parts, ",\n    ").as_str(), "\n  ]")
}

/// The manifest file for a manifest.
pub fn manifest_text(manifest: &Manifest) -> (r: String)
    ensures
        r@ == manifest_file(*manifest),
{
    let mut out = "{\n  \"version\": ".to_owned();
    out.append(decimal_text(manifest.version as u64).as_str());
    out.append(",\n  \"fingerprint\": ");
    out.append(json_text(manifest.fingerprint.as_str()).as_str());
    out.append(",\n  \"outputs\": ");
    out.append(indented_array_text(&manifest.outputs).as_str());
    out.append(",\n  \"duration_ms\": ");
    out.append(decimal_text(manifest.duration_ms).as_str());
    out.append("\n}");
    out
}

/// A sibling of `path` that an entry is written to before it is renamed: the
/// process id and a count keep two writers apart.
pub open spec fn temporary_name(path: Seq<char>, process: nat, count: nat) -> Seq<char> {
    path + "."@ + decimal(process) + "."@ + decimal(count) + ".tmp"@
}

/// The file that `path` is written to before it is renamed.
pub fn temporary_path(path: &str, process: u32, count: u64) -> (r: String)
    ensures
        r@ == temporary_name(path@, process as nat, count as nat),
{
    let mut out = text5(
        path,
        ".",
        decimal_text(process as u64).as_str(),
        ".",
        decimal_text(count).as_str(),
    );
    out.append(".tmp");
    out
}

/// Different numbers are written differently.
pub proof fn decimal_tells_numbers_apart(a: nat, b: nat)
    requires
        decimal(a) == decimal(b),
    ensures
        a == b,
    decreases a,
{
    if a < 10 && b < 10 {
        assert(decimal(a)[0] == crate::text::digit(a));
        assert(decimal(b)[0] == crate::text::digit(b));
        digits_differ(a, b);
    } else if a < 10 {
        decimal_has_digits(b / 10);
        assert(decimal(b).len() >= 2);
    } else if b < 10 {
        decimal_has_digits(a / 10);
        assert(decimal(a).len() >= 2);
    } else {
        let x = decimal(a);
        let y = decimal(b);
        assert(x.last() == y.last());
        assert(x.last() == crate::text::digit(a % 10));
        assert(y.last() == crate::text::digit(b % 10));
        digits_differ(a % 10, b % 10);
        assert(x.drop_last() =~= decimal(a / 10));
        assert(y.drop_last() =~= decimal(b / 10));
        decimal_tells_numbers_apart(a / 10, b / 10);
    }
}

proof fn digits_differ(a: nat, b: nat)
    requires
        a < 10,
        b < 10,
        crate::text::digit(a) == crate::text::digit(b),
    ensures
        a == b,
{
}

proof fn decimal_has_digits(n: nat)
    ensures
        decimal(n).len() >= 1,
    decreases n,
{
    if n >= 10 {
        decimal_has_digits(n / 10);
    }
}

/// Two writes of one process to one entry use different files.
pub proof fn two_writes_use_different_files(path: Seq<char>, process: nat, a: nat, b: nat)
    requires
        a != b,
    ensures
        temporary_name(path, process, a) != temporary_name(path, process, b),
{
    let x = temporary_name(path, process, a);
    let y = temporary_name(path, process, b);
    if x == y {
        let before = path + "."@ + decimal(process) + "."@;
        assert(x =~= before + decimal(a) + ".tmp"@);
        assert(y =~= before + decimal(b) + ".tmp"@);
        let n = before.len() as int;
        assert(decimal(a).len() == decimal(b).len());
        assert(decimal(a) =~= x.subrange(n, n + decimal(a).len()));
        assert(decimal(b) =~= y.subrange(n, n + decimal(b).len()));
        decimal_tells_numbers_apart(a, b);
    }
}

/// The lines of a log file, where there is one.
pub open spec fn log_lines_in(content: Option<Seq<char>>) -> Seq<Seq<char>> {
    match content {
        Some(text) => lines_of(text),
        None => Seq::empty(),
    }
}

/// The lines of a log file, each of which stands for a line of output. Where
/// there is no file there are none.
pub fn log_lines(content: &Option<String>) -> (r: Vec<String>)
    ensures
        views(r@) == log_lines_in(opt_view(*content)),
{
    match content {
        Some(text) => lines(text.as_str()),
        None => {
            let none: Vec<String> = Vec::new();
            assert(views(none@) =~= Seq::<Seq<char>>::empty());
            none
        },
    }
}

/// The stored lines that could be read, as the output they were.
pub open spec fn restored(parsed: Seq<Option<StoredLine>>) -> Seq<(Stream, Seq<char>)>
    decreases parsed.len(),
{
    if parsed.len() == 0 {
        Seq::empty()
    } else {
        let before = restored(parsed.drop_last());
        match parsed.last() {
            Some(line) => before.push((stream_of(line.stream@), line.text@)),
            None => before,
        }
    }
}

pub open spec fn output_views(lines: Seq<OutputLine>) -> Seq<(Stream, Seq<char>)> {
    Seq::new(lines.len(), |i: int| (lines[i].stream, lines[i].text@))
}

/// The output that a log file holds, from what each of its lines reads as. A
/// line that cannot be read is left out.
pub fn restore_logs(parsed: Vec<Option<StoredLine>>) -> (r: Vec<OutputLine>)
    ensures
        output_views(r@) == restored(parsed@),
{
    let mut out: Vec<OutputLine> = Vec::new();
    let mut i: usize = 0;
    assert(output_views(out@) =~= restored(parsed@.take(0)));
    while i < parsed.len()
        invariant
            i <= parsed@.len(),
            output_views(out@) == restored(parsed@.take(i as int)),
        decreases parsed.len() - i,
    {
        assert(parsed@.take(i + 1).drop_last() =~= parsed@.take(i as int));
        assert(parsed@.take(i + 1).last() == parsed@[i as int]);
        if let Some(line) = &parsed[i] {
            let ghost before = output_views(out@);
            let copy = StoredLine { stream: line.stream.clone(), text: line.text.clone() };
            let output = restore_line(copy);
            out.push(output);
            assert(output_views(out@) =~= before.push((output.stream, output.text@)));
        }
        i += 1;
    }
    assert(parsed@.take(parsed@.len() as int) =~= parsed@);
    out
}

/// Lines read as they were stored are the output that was stored, each on its
/// stream.
pub proof fn what_is_stored_comes_back(lines: Seq<OutputLine>, parsed: Seq<Option<StoredLine>>)
    requires
        parsed.len() == lines.len(),
        forall|i: int|
            0 <= i < lines.len() ==> (#[trigger] parsed[i] matches Some(s) && s.stream@
                == stream_word(lines[i].stream) && s.text@ == lines[i].text@),
    ensures
        restored(parsed) == output_views(lines),
    decreases lines.len(),
{
    if lines.len() == 0 {
        assert(restored(parsed) =~= output_views(lines));
    } else {
        assert forall|i: int| 0 <= i < lines.drop_last().len() implies (
        #[trigger] parsed.drop_last()[i] matches Some(s) && s.stream@ == stream_word(
            lines.drop_last()[i].stream,
        ) && s.text@ == lines.drop_last()[i].text@) by {
            assert(parsed.drop_last()[i] == parsed[i]);
        }
        what_is_stored_comes_back(lines.drop_last(), parsed.drop_last());
        a_stored_line_keeps_its_stream(lines.last().stream);
        assert(parsed[lines.len() - 1] is Some);
        assert(restored(parsed) =~= output_views(lines));
    }
}

} // verus!
