//! Where a project is rooted, and how its paths are shown.

use vstd::prelude::*;
use vstd::string::*;
use crate::affected::source_path;
use crate::files::{unified, unify};
use crate::loader::cwd_view;
use crate::paths::{
    absolute, below, components, contains_path, holds_path, join_path, joined_path, parent,
    parent_of, path_is_absolute, same_path, strip_prefix,
};
use crate::sort::{sort_strings, text_sorted};
use crate::text::{opt_view, same_text, text_lt, text_lt_total, views};

verus! {

/// The directory part of a path, an empty one being the current directory.
pub open spec fn dir_part(path: Seq<char>) -> Seq<char> {
    match parent_of(path) {
        Some(dir) => if dir.len() == 0 {
            "."@
        } else {
            dir
        },
        None => "."@,
    }
}

/// The directory part of a path, an empty one being the current directory.
pub fn dir_of(path: &str) -> (r: String)
    ensures
        r@ == dir_part(path@),
{
    match parent(path) {
        Some(dir) => if dir.as_str().is_empty() {
            ".".to_owned()
        } else {
            dir
        },
        None => ".".to_owned(),
    }
}

/// A path made absolute; the path itself where it is relative and there is no
/// current directory.
pub fn absolute_or(path: String, cwd: &Result<String, String>) -> (r: String)
    ensures
        r@ == source_path(path@, cwd_view(*cwd)),
{
    if path.as_str().is_empty() {
        return path;
    }
    match cwd {
        Ok(dir) => absolute(path.as_str(), dir.as_str()),
        Err(_) => if path_is_absolute(path.as_str()) {
            proof {
                reveal_strlit("");
                assert(""@ =~= Seq::<char>::empty());
            }
            absolute(path.as_str(), "")
        } else {
            path
        },
    }
}

/// The absolute directory that holds a Beamfile.
pub open spec fn beamfile_root(beamfile: Seq<char>, cwd: Result<Seq<char>, Seq<char>>) -> Seq<char> {
    source_path(dir_part(beamfile), cwd)
}

/// The absolute directory that holds a Beamfile: what is watched, and what
/// paths are shown from. A bare file name is in the current directory.
pub fn beamfile_dir(beamfile: &str, cwd: &Result<String, String>) -> (r: String)
    ensures
        r@ == beamfile_root(beamfile@, cwd_view(*cwd)),
{
    absolute_or(dir_of(beamfile), cwd)
}

/// The directory that a project's results are remembered in.
pub open spec fn cache_directory(beamfile: Seq<char>) -> Seq<char> {
    joined_path(joined_path(dir_part(beamfile), ".alba"@), "cache"@)
}

/// The directory that a project's results are remembered in: `.alba/cache`
/// next to the Beamfile.
pub fn cache_dir(beamfile: &str) -> (r: String)
    ensures
        r@ == cache_directory(beamfile@),
{
    join_path(join_path(dir_of(beamfile).as_str(), ".alba").as_str(), "cache")
}

/// The roots to watch for the root Beamfile and the loaded ones: its
/// directory, and every other one that is not below it, each once.
pub open spec fn watched_roots(
    root: Seq<char>,
    loaded: Seq<Seq<char>>,
    cwd: Result<Seq<char>, Seq<char>>,
) -> Seq<Seq<char>>
    decreases loaded.len(),
{
    if loaded.len() == 0 {
        seq![root]
    } else {
        let before = watched_roots(root, loaded.drop_last(), cwd);
        let dir = beamfile_root(loaded.last(), cwd);
        if below(dir, root) is None && !holds_path(before, dir) {
            before.push(dir)
        } else {
            before
        }
    }
}

/// The directories to watch: the project's root, and the directory of every
/// Beamfile loaded from outside it.
pub fn roots_of(beamfile: &str, loaded: &Vec<String>, cwd: &Result<String, String>) -> (r: Vec<
    String,
>)
    ensures
        views(r@) == watched_roots(
            beamfile_root(beamfile@, cwd_view(*cwd)),
            views(loaded@),
            cwd_view(*cwd),
        ),
{
    let root = beamfile_dir(beamfile, cwd);
    let ghost all = views(loaded@);
    let ghost here = cwd_view(*cwd);
    let mut roots: Vec<String> = Vec::new();
    roots.push(root.clone());
    let mut i: usize = 0;
    assert(views(roots@) =~= watched_roots(root@, all.take(0), here));
    while i < loaded.len()
        invariant
            i <= loaded@.len(),
            all == views(loaded@),
            here == cwd_view(*cwd),
            views(roots@) == watched_roots(root@, all.take(i as int), here),
        decreases loaded.len() - i,
    {
        assert(all.take(i + 1).drop_last() =~= all.take(i as int));
        assert(all.take(i + 1).last() == loaded@[i as int]@);
        let dir = beamfile_dir(loaded[i].as_str(), cwd);
        if strip_prefix(dir.as_str(), root.as_str()).is_none() && !contains_path(
            &roots,
            dir.as_str(),
        ) {
            let ghost before = views(roots@);
            roots.push(dir);
            assert(views(roots@) =~= before.push(dir@));
        }
        i += 1;
    }
    assert(all.take(all.len() as int) =~= all);
    roots
}

/// A directory is one of `roots`, or below one.
pub open spec fn is_watched(roots: Seq<Seq<char>>, dir: Seq<char>) -> bool {
    exists|k: int| 0 <= k < roots.len() && below(dir, #[trigger] roots[k]) is Some
}

proof fn below_itself(dir: Seq<char>)
    ensures
        below(dir, dir) is Some,
{
    assert(components(dir).take(components(dir).len() as int) =~= components(dir));
}

/// Every loaded Beamfile's directory is watched, the root's first of all.
pub proof fn every_beamfile_is_watched(
    root: Seq<char>,
    loaded: Seq<Seq<char>>,
    cwd: Result<Seq<char>, Seq<char>>,
    i: int,
)
    requires
        0 <= i < loaded.len(),
    ensures
        watched_roots(root, loaded, cwd).len() > 0,
        watched_roots(root, loaded, cwd)[0] == root,
        is_watched(watched_roots(root, loaded, cwd), beamfile_root(loaded[i], cwd)),
    decreases loaded.len(),
{
    let before = watched_roots(root, loaded.drop_last(), cwd);
    let roots = watched_roots(root, loaded, cwd);
    let dir = beamfile_root(loaded[i], cwd);
    root_is_first(root, loaded, cwd);
    root_is_first(root, loaded.drop_last(), cwd);
    if i < loaded.len() - 1 {
        every_beamfile_is_watched(root, loaded.drop_last(), cwd, i);
        assert(loaded.drop_last()[i] == loaded[i]);
        let k = choose|k: int| 0 <= k < before.len() && below(dir, #[trigger] before[k]) is Some;
        assert(roots[k] == before[k]);
    } else if below(dir, root) is Some {
        assert(below(dir, roots[0]) is Some);
    } else if holds_path(before, dir) {
        let k = choose|k: int| 0 <= k < before.len() && same_path(#[trigger] before[k], dir);
        below_itself(dir);
        assert(below(dir, roots[k]) is Some);
    } else {
        below_itself(dir);
        assert(below(dir, roots[roots.len() - 1]) is Some);
    }
}

proof fn root_is_first(root: Seq<char>, loaded: Seq<Seq<char>>, cwd: Result<Seq<char>, Seq<char>>)
    ensures
        watched_roots(root, loaded, cwd).len() > 0,
        watched_roots(root, loaded, cwd)[0] == root,
    decreases loaded.len(),
{
    if loaded.len() > 0 {
        root_is_first(root, loaded.drop_last(), cwd);
    }
}

/// No directory is watched twice.
pub proof fn no_root_is_watched_twice(
    root: Seq<char>,
    loaded: Seq<Seq<char>>,
    cwd: Result<Seq<char>, Seq<char>>,
)
    ensures
        forall|i: int, j: int|
            #![trigger watched_roots(root, loaded, cwd)[i], watched_roots(root, loaded, cwd)[j]]
            0 <= i < j < watched_roots(root, loaded, cwd).len() ==> !same_path(
                watched_roots(root, loaded, cwd)[i],
                watched_roots(root, loaded, cwd)[j],
            ),
    decreases loaded.len(),
{
    if loaded.len() > 0 {
        no_root_is_watched_twice(root, loaded.drop_last(), cwd);
        let before = watched_roots(root, loaded.drop_last(), cwd);
        let roots = watched_roots(root, loaded, cwd);
        assert forall|i: int, j: int|
            #![trigger roots[i], roots[j]]
            0 <= i < j < roots.len() implies !same_path(roots[i], roots[j]) by {
            assert(roots[i] == before[i]);
            if j < before.len() {
                assert(roots[j] == before[j]);
            } else {
                assert(!holds_path(before, roots[j]));
            }
        }
    }
}

/// A path seen from the root: as it is spelled, from the root's canonical
/// form, or both canonical; as it came where none of these is below the root.
pub open spec fn seen_from(
    root: Seq<char>,
    canonical_root: Option<Seq<char>>,
    path: Seq<char>,
    canonical: Option<Seq<char>>,
) -> Seq<char> {
    if below(path, root) is Some {
        below(path, root)->Some_0
    } else if canonical_root is Some && below(path, canonical_root->Some_0) is Some {
        below(path, canonical_root->Some_0)->Some_0
    } else if canonical_root is Some && canonical is Some && below(
        canonical->Some_0,
        canonical_root->Some_0,
    ) is Some {
        below(canonical->Some_0, canonical_root->Some_0)->Some_0
    } else {
        path
    }
}

/// A path seen from the project's root. The canonical forms come last: a path
/// that no longer exists has none.
pub fn relative_to(
    root: &str,
    canonical_root: &Option<String>,
    path: &str,
    canonical: &Option<String>,
) -> (r: String)
    ensures
        r@ == seen_from(root@, opt_view(*canonical_root), path@, opt_view(*canonical)),
{
    if let Some(relative) = strip_prefix(path, root) {
        return relative;
    }
    if let Some(base) = canonical_root {
        if let Some(relative) = strip_prefix(path, base.as_str()) {
            return relative;
        }
        if let Some(resolved) = canonical {
            if let Some(relative) = strip_prefix(resolved.as_str(), base.as_str()) {
                return relative;
            }
        }
    }
    path.to_owned()
}

/// A path that a watcher reported, with its canonical form where it has one.
pub struct Reported {
    pub path: String,
    pub canonical: Option<String>,
}

/// How a reported path is shown.
pub open spec fn display_path(
    root: Seq<char>,
    canonical_root: Option<Seq<char>>,
    reported: Reported,
) -> Seq<char> {
    unified(seen_from(root, canonical_root, reported.path@, opt_view(reported.canonical)))
}

/// `r` holds how each of `paths` is shown, in order and each once.
pub open spec fn displayed(
    root: Seq<char>,
    canonical_root: Option<Seq<char>>,
    paths: Seq<Reported>,
    r: Seq<Seq<char>>,
) -> bool {
    &&& forall|i: int, j: int|
        #![trigger r[i], r[j]]
        0 <= i < j < r.len() ==> text_lt(r[i], r[j])
    &&& forall|i: int|
        0 <= i < paths.len() ==> r.contains(
            display_path(root, canonical_root, #[trigger] paths[i]),
        )
    &&& forall|k: int| 0 <= k < r.len() ==> is_shown(root, canonical_root, paths, #[trigger] r[k])
}

/// One of `paths` is shown as `text`.
pub open spec fn is_shown(
    root: Seq<char>,
    canonical_root: Option<Seq<char>>,
    paths: Seq<Reported>,
    text: Seq<char>,
) -> bool {
    exists|i: int|
        0 <= i < paths.len() && display_path(root, canonical_root, #[trigger] paths[i]) == text
}

/// Sorted texts without the repeats.
fn dedup(list: Vec<String>) -> (r: Vec<String>)
    requires
        text_sorted(views(list@)),
    ensures
        forall|i: int, j: int|
            #![trigger views(r@)[i], views(r@)[j]]
            0 <= i < j < r@.len() ==> text_lt(views(r@)[i], views(r@)[j]),
        forall|t: Seq<char>| views(r@).contains(t) <==> views(list@).contains(t),
{
    let ghost all = views(list@);
    let mut out: Vec<String> = Vec::new();
    let mut i: usize = 0;
    while i < list.len()
        invariant
            i <= list@.len(),
            all == views(list@),
            text_sorted(all),
            i == 0 ==> out@.len() == 0,
            i > 0 ==> out@.len() > 0 && out@.last()@ == all[i - 1],
            forall|a: int, b: int|
                #![trigger out@[a], out@[b]]
                0 <= a < b < out@.len() ==> text_lt(out@[a]@, out@[b]@),
            forall|t: Seq<char>| views(out@).contains(t) <==> all.take(i as int).contains(t),
        decreases list.len() - i,
    {
        let n: usize = out.len();
        let ghost before = out@;
        assert(all[i as int] == list@[i as int]@);
        if n == 0 || !same_text(out[n - 1].as_str(), list[i].as_str()) {
            out.push(list[i].clone());
            proof {
                if i > 0 {
                    text_lt_total(all[i - 1], all[i as int]);
                    assert(!text_lt(all[i as int], all[i - 1]));
                    assert forall|a: int, b: int|
                        #![trigger out@[a], out@[b]]
                        0 <= a < b < out@.len() implies text_lt(out@[a]@, out@[b]@) by {
                        if b == before.len() && a < before.len() - 1 {
                            assert(text_lt(before[a]@, before[before.len() - 1]@));
                            crate::text::text_lt_transitive(
                                before[a]@,
                                before[before.len() - 1]@,
                                out@[b]@,
                            );
                        }
                    }
                }
            }
        }
        proof {
            let had = all.take(i as int);
            let has = all.take(i + 1);
            assert forall|t: Seq<char>| views(out@).contains(t) <==> has.contains(t) by {
                if views(out@).contains(t) {
                    let k = choose|k: int| 0 <= k < views(out@).len() && views(out@)[k] == t;
                    if k < before.len() {
                        assert(views(before)[k] == t);
                        assert(views(before).contains(t));
                        assert(had.contains(t));
                        let m = choose|m: int| 0 <= m < had.len() && had[m] == t;
                        assert(has[m] == t);
                    } else {
                        assert(has[i as int] == t);
                    }
                }
                if has.contains(t) {
                    let m = choose|m: int| 0 <= m < has.len() && has[m] == t;
                    if m < i {
                        assert(had[m] == t);
                        assert(views(before).contains(t));
                        let k = choose|k: int| 0 <= k < views(before).len() && views(before)[k]
                            == t;
                        assert(views(out@)[k] == t);
                    } else {
                        assert(views(out@)[out@.len() - 1] == t);
                    }
                }
            }
        }
        i += 1;
    }
    assert(all.take(all.len() as int) =~= all);
    proof {
        assert forall|i: int, j: int|
            #![trigger views(out@)[i], views(out@)[j]]
            0 <= i < j < out@.len() implies text_lt(views(out@)[i], views(out@)[j]) by {
            assert(text_lt(out@[i]@, out@[j]@));
        }
    }
    out
}

/// Reported paths as they are shown, from the root and with `/` separators,
/// in order and each once.
pub fn display_paths(root: &str, canonical_root: &Option<String>, paths: &Vec<Reported>) -> (r: Vec<
    String,
>)
    ensures
        displayed(root@, opt_view(*canonical_root), paths@, views(r@)),
{
    let ghost base = opt_view(*canonical_root);
    let mut texts: Vec<String> = Vec::new();
    let mut i: usize = 0;
    while i < paths.len()
        invariant
            i <= paths@.len(),
            base == opt_view(*canonical_root),
            texts@.len() == i,
            forall|k: int|
                0 <= k < i ==> (#[trigger] texts@[k])@ == display_path(root@, base, paths@[k]),
        decreases paths.len() - i,
    {
        let seen = relative_to(
            root,
            canonical_root,
            paths[i].path.as_str(),
            &paths[i].canonical,
        );
        texts.push(unify(seen.as_str()));
        i += 1;
    }
    let ghost unsorted = views(texts@);
    let ordered = sort_strings(texts);
    let ghost sorted = views(ordered@);
    let r = dedup(ordered);
    proof {
        unsorted.to_multiset_ensures();
        sorted.to_multiset_ensures();
        assert forall|t: Seq<char>| sorted.contains(t) <==> unsorted.contains(t) by {
            assert(sorted.to_multiset().count(t) == unsorted.to_multiset().count(t));
        }
        assert forall|i: int| 0 <= i < paths@.len() implies views(r@).contains(
            display_path(root@, base, #[trigger] paths@[i]),
        ) by {
            assert(unsorted[i] == display_path(root@, base, paths@[i]));
        }
        assert forall|k: int| 0 <= k < views(r@).len() implies is_shown(
            root@,
            base,
            paths@,
            #[trigger] views(r@)[k],
        ) by {
            let t = views(r@)[k];
            assert(views(r@).contains(t));
            assert(unsorted.contains(t));
            let i = choose|i: int| 0 <= i < unsorted.len() && unsorted[i] == t;
            assert(display_path(root@, base, paths@[i]) == t);
        }
    }
    r
}

} // verus!
