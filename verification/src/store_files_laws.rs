//! What is stored of a beam is what is found of it, whatever is stored of
//! other beams.

use vstd::prelude::*;
use crate::event::OutputLine;
use crate::fingerprint::{is_hash, is_hex_digit};
use crate::json::stream_word;
use crate::paths::joined_path;
use crate::store::{
    entry_hash, entry_path, log_file, log_line, log_lines_in, manifest_file, Manifest,
};
use crate::store_laws::a_log_has_a_line_for_each_line;

verus! {

/// What was stored of one beam: its id, manifest and output.
pub type Entry = (Seq<char>, Manifest, Seq<OutputLine>);

/// The files of a cache, path and text, once something was stored in it.
pub open spec fn with_entry(
    files: Map<Seq<char>, Seq<char>>,
    dir: Seq<char>,
    entry: Entry,
) -> Map<Seq<char>, Seq<char>> {
    files.insert(entry_path(dir, entry.0, "log"@), log_file(entry.2)).insert(
        entry_path(dir, entry.0, "json"@),
        manifest_file(entry.1),
    )
}

/// The files of a cache once several entries were stored, one after the
/// other.
pub open spec fn with_entries(
    files: Map<Seq<char>, Seq<char>>,
    dir: Seq<char>,
    entries: Seq<Entry>,
) -> Map<Seq<char>, Seq<char>>
    decreases entries.len(),
{
    if entries.len() == 0 {
        files
    } else {
        with_entry(with_entries(files, dir, entries.drop_last()), dir, entries.last())
    }
}

/// The text of a file, where there is one.
pub open spec fn text_at(files: Map<Seq<char>, Seq<char>>, path: Seq<char>) -> Option<Seq<char>> {
    if files.contains_key(path) {
        Some(files[path])
    } else {
        None
    }
}

/// What is found of a beam: its log and its manifest.
pub open spec fn found(files: Map<Seq<char>, Seq<char>>, dir: Seq<char>, id: Seq<char>) -> (
    Option<Seq<char>>,
    Option<Seq<char>>,
) {
    (
        text_at(files, entry_path(dir, id, "log"@)),
        text_at(files, entry_path(dir, id, "json"@)),
    )
}

/// The hashes of two ids, which are hashes, differ in the half that names
/// their entries.
pub open spec fn named_apart(a: Seq<char>, b: Seq<char>) -> bool {
    is_hash(entry_hash(a)) && is_hash(entry_hash(b)) && entry_hash(a).take(32) != entry_hash(
        b,
    ).take(32)
}

/// A log and a manifest are never the same file.
proof fn a_log_is_no_manifest(dir: Seq<char>, a: Seq<char>, b: Seq<char>)
    ensures
        entry_path(dir, a, "log"@) != entry_path(dir, b, "json"@),
{
    reveal_strlit("log");
    reveal_strlit("json");
    assert(entry_path(dir, a, "log"@).last() == 'g');
    assert(entry_path(dir, b, "json"@).last() == 'n');
}

proof fn joining_keeps_apart(dir: Seq<char>, a: Seq<char>, b: Seq<char>)
    requires
        a.len() > 0 && a[0] != '/',
        b.len() > 0 && b[0] != '/',
        joined_path(dir, a) == joined_path(dir, b),
    ensures
        a == b,
{
    let x = joined_path(dir, a);
    let y = joined_path(dir, b);
    let n = x.len() - a.len();
    assert(a.len() == b.len());
    assert(x.skip(n) =~= a);
    assert(y.skip(n) =~= b);
}

/// Entries of different names are different files.
proof fn entries_are_apart(dir: Seq<char>, a: Seq<char>, b: Seq<char>, extension: Seq<char>)
    requires
        named_apart(a, b),
    ensures
        entry_path(dir, a, extension) != entry_path(dir, b, extension),
{
    let x = entry_hash(a).take(32);
    let y = entry_hash(b).take(32);
    let m = x + "."@ + extension;
    let n = y + "."@ + extension;
    if entry_path(dir, a, extension) == entry_path(dir, b, extension) {
        assert(m[0] == entry_hash(a)[0] && is_hex_digit(entry_hash(a)[0]));
        assert(n[0] == entry_hash(b)[0] && is_hex_digit(entry_hash(b)[0]));
        joining_keeps_apart(dir, m, n);
        assert(m.take(32) =~= x);
        assert(n.take(32) =~= y);
    }
}

/// What was stored of a beam is found: a manifest file that tells the
/// manifest, and a log with a line for each line of output, in order, with
/// its stream and its text.
pub proof fn what_was_stored_is_found(
    files: Map<Seq<char>, Seq<char>>,
    dir: Seq<char>,
    entry: Entry,
)
    ensures
        ({
            let (log, manifest) = found(with_entry(files, dir, entry), dir, entry.0);
            &&& manifest == Some(manifest_file(entry.1))
            &&& log == Some(log_file(entry.2))
            &&& log_lines_in(log) == Seq::new(
                entry.2.len(),
                |i: int| log_line(stream_word(entry.2[i].stream), entry.2[i].text@),
            )
        }),
{
    a_log_is_no_manifest(dir, entry.0, entry.0);
    a_log_has_a_line_for_each_line(entry.2);
}

/// What is stored of other beams changes nothing of what is found of a beam:
/// not of one that was stored before, nor of one that never was.
pub proof fn others_change_nothing(
    files: Map<Seq<char>, Seq<char>>,
    dir: Seq<char>,
    id: Seq<char>,
    others: Seq<Entry>,
)
    ensures
        (forall|k: int| 0 <= k < others.len() ==> named_apart(id, (#[trigger] others[k]).0))
            ==> found(with_entries(files, dir, others), dir, id) == found(files, dir, id),
    decreases others.len(),
{
    if others.len() > 0 && forall|k: int|
        0 <= k < others.len() ==> named_apart(id, (#[trigger] others[k]).0) {
        let front = others.drop_last();
        assert forall|k: int| 0 <= k < front.len() implies named_apart(
            id,
            (#[trigger] front[k]).0,
        ) by {
            assert(front[k] == others[k]);
        }
        others_change_nothing(files, dir, id, front);
        let other = others.last().0;
        assert(named_apart(id, others[others.len() - 1].0));
        a_log_is_no_manifest(dir, id, other);
        a_log_is_no_manifest(dir, other, id);
        entries_are_apart(dir, id, other, "log"@);
        entries_are_apart(dir, id, other, "json"@);
    }
}

/// Where nothing was stored nothing is found, and there is no output.
pub proof fn nothing_is_found_of_what_was_never_stored(
    dir: Seq<char>,
    id: Seq<char>,
    others: Seq<Entry>,
)
    ensures
        (forall|k: int| 0 <= k < others.len() ==> named_apart(id, (#[trigger] others[k]).0)) ==> {
            let (log, manifest) = found(with_entries(Map::empty(), dir, others), dir, id);
            log is None && manifest is None && log_lines_in(log).len() == 0
        },
{
    others_change_nothing(Map::empty(), dir, id, others);
}

} // verus!
