//! What is asked of git, and what its answers mean.

use vstd::prelude::*;
use crate::git::{
    answer, asked, changed_commands, changed_files, command_views, distinct_paths, git, head,
    head_command_list, head_commands, hooks_path, is_first, is_first_spelling, lines_of, nonempty, set_hooks_path,
    set_hooks_path_args, unset_hooks_path, unset_hooks_path_args, without_return, AskingView,
    ChangedStep, GitError, GitReply, HeadStep,
};
use crate::paths::{components, pieces, pieces_not_empty};
use crate::paths_laws::pieces_of_both;
use crate::sort::path_lt;
use crate::text::{joined, trimmed, views, without_newlines};

verus! {

/// What changed is asked of git by a diff against the given reference and a
/// list of the untracked files. For two references the commands differ in the
/// diff's last argument, which is the reference, and in nothing else.
pub proof fn the_diff_is_against_the_reference(
    reference: &str,
    r: Vec<Vec<String>>,
    other: &str,
    s: Vec<Vec<String>>,
)
    requires
        call_ensures(changed_commands, (reference,), r),
        call_ensures(changed_commands, (other,), s),
    ensures
        r@.len() == 2 && s@.len() == 2,
        r@[0]@.len() == 4 && s@[0]@.len() == 4,
        r@[0]@[0]@ == "diff"@,
        r@[0]@[1]@ == "--name-only"@,
        r@[0]@[2]@ == "--relative"@,
        r@[0]@[3]@ == reference@,
        s@[0]@[3]@ == other@,
        views(r@[0]@).take(3) == views(s@[0]@).take(3),
        views(r@[1]@) == views(s@[1]@),
        views(r@[1]@) == seq!["ls-files"@, "--others"@, "--exclude-standard"@],
{
    let a = command_views(r@);
    let b = command_views(s@);
    assert(a.len() == r@.len() && b.len() == s@.len());
    assert(a[0] == views(r@[0]@) && a[1] == views(r@[1]@));
    assert(b[0] == views(s@[0]@) && b[1] == views(s@[1]@));
    assert(views(r@[0]@).len() == r@[0]@.len() && views(s@[0]@).len() == s@[0]@.len());
    assert(views(r@[0]@)[0] == r@[0]@[0]@);
    assert(views(r@[0]@)[1] == r@[0]@[1]@);
    assert(views(r@[0]@)[2] == r@[0]@[2]@);
    assert(views(r@[0]@)[3] == r@[0]@[3]@);
    assert(views(s@[0]@)[3] == s@[0]@[3]@);
    assert(views(r@[0]@).take(3) =~= views(s@[0]@).take(3));
}

/// Git answers exactly where it ended with code 0: what it wrote, without the
/// newlines at its end. Of what went wrong the error says the command and
/// what git wrote to stderr.
pub proof fn git_answers_where_it_succeeds(
    args: &Vec<String>,
    reply: &GitReply,
    r: Result<String, GitError>,
)
    requires
        call_ensures(git, (args, reply), r),
    ensures
        r is Ok <==> (*reply matches GitReply::Ended { code, .. } && code == Some(0i32)),
        r matches Ok(text) ==> text@ == without_newlines(reply->stdout@),
        *reply matches GitReply::Ended { code, stderr, .. } && code != Some(0i32)
            ==> r->Err_0@ == "git "@ + joined(views(args@), " "@) + " failed: "@ + trimmed(
            reply->stderr@,
        ),
{
}

/// The text that a successful reply holds.
pub open spec fn said(reply: GitReply) -> Seq<char> {
    without_newlines(reply->stdout@)
}

pub open spec fn succeeded(reply: GitReply) -> bool {
    reply matches GitReply::Ended { code, .. } && code == Some(0i32)
}

/// What `HEAD` looks like is what four commands say, in order: its branch, its
/// hash, its short hash, and, as soon as the status is not empty, that the
/// working tree is dirty. Each is asked once those before it answered, and
/// the first that fails decides.
pub proof fn head_is_what_git_says(replies: &Vec<GitReply>, r: HeadStep, commands: Vec<Vec<String>>)
    requires
        call_ensures(head, (replies,), r),
        call_ensures(head_commands, (), commands),
    ensures
        commands@.len() == 4,
        replies@.len() >= 4 && (forall|i: int| 0 <= i < 4 ==> succeeded(#[trigger] replies@[i]))
            ==> (r matches HeadStep::Done(Ok(h)) && h.branch@ == said(replies@[0]) && h.sha@ == said(
            replies@[1],
        ) && h.short_sha@ == said(replies@[2]) && (h.dirty <==> said(replies@[3]).len() > 0)),
        forall|k: int|
            0 <= k < 4 && replies@.len() == k && (forall|i: int|
                0 <= i < k ==> succeeded(#[trigger] replies@[i])) ==> (r matches HeadStep::Ask(args)
                && views(args@) == views(#[trigger] commands@[k]@)),
        forall|k: int|
            0 <= k < 4 && k < replies@.len() && (forall|i: int|
                0 <= i < k ==> succeeded(#[trigger] replies@[i])) && !succeeded(
                #[trigger] replies@[k],
            ) ==> (r matches HeadStep::Done(Err(_))),
{
    let list = command_views(commands@);
    assert(list.len() == 4 && commands@.len() == 4);
    assert forall|k: int| 0 <= k < 4 implies list[k] == views(#[trigger] commands@[k]@) by {}
    reveal_with_fuel(asked, 6);
    let none = Seq::<Seq<char>>::empty();
    assert(asked(list, replies@, 0, none) == asked(list, replies@, 0nat, none));
}

/// A path is among the lines that are not empty.
pub open spec fn is_line(text: Seq<char>, path: Seq<char>) -> bool {
    path.len() > 0 && exists|i: int| 0 <= i < lines_of(text).len() && lines_of(text)[i] == path
}

/// What changed since a reference are the paths that the diff names and those
/// that are untracked: every one of them, and no other; in the order of paths
/// and each once. Both commands have to succeed, in order.
pub proof fn what_changed_is_what_git_names(
    reference: &str,
    replies: &Vec<GitReply>,
    r: ChangedStep,
    commands: Vec<Vec<String>>,
)
    requires
        call_ensures(changed_files, (reference, replies), r),
        call_ensures(changed_commands, (reference,), commands),
    ensures
        replies@.len() == 0 ==> (r matches ChangedStep::Ask(args) && views(args@) == views(
            commands@[0]@,
        )),
        replies@.len() == 1 && succeeded(replies@[0]) ==> (r matches ChangedStep::Ask(args)
            && views(args@) == views(commands@[1]@)),
        replies@.len() >= 1 && !succeeded(replies@[0]) ==> (r matches ChangedStep::Done(Err(_))),
        replies@.len() >= 2 && succeeded(replies@[0]) && !succeeded(replies@[1])
            ==> (r matches ChangedStep::Done(Err(_))),
        replies@.len() >= 2 && succeeded(replies@[0]) && succeeded(replies@[1])
            ==> (r matches ChangedStep::Done(Ok(paths)) && {
            &&& forall|k: int|
                0 <= k < paths@.len() ==> is_line(said(replies@[0]), (#[trigger] paths@[k])@)
                    || is_line(said(replies@[1]), paths@[k]@)
            &&& forall|path: Seq<char>| #[trigger]
                is_line(said(replies@[0]), path) ==> exists|k: int|
                    0 <= k < paths@.len() && components((#[trigger] paths@[k])@) == components(path)
            &&& forall|path: Seq<char>| #[trigger]
                is_line(said(replies@[1]), path) ==> exists|k: int|
                    0 <= k < paths@.len() && components((#[trigger] paths@[k])@) == components(path)
            &&& forall|a: int, b: int|
                0 <= a < b < paths@.len() ==> path_lt(
                    components((#[trigger] paths@[a])@),
                    components((#[trigger] paths@[b])@),
                )
        }),
{
    let list = command_views(commands@);
    assert(list.len() == 2 && commands@.len() == 2);
    assert(list[0] == views(commands@[0]@) && list[1] == views(commands@[1]@));
    two_are_asked(list, replies@);
    if replies@.len() >= 2 && succeeded(replies@[0]) && succeeded(replies@[1]) {
        let paths = r->Done_0->Ok_0;
        let v = views(paths@);
        assert(v.len() == paths@.len());
        assert forall|k: int| 0 <= k < paths@.len() implies v[k] == (#[trigger] paths@[k])@ by {}
        paths_are_the_lines(said(replies@[0]), said(replies@[1]), v);
        assert forall|path: Seq<char>| is_path(v, path) implies exists|k: int|
            0 <= k < paths@.len() && components((#[trigger] paths@[k])@) == components(path) by {
            let k = choose|k: int|
                0 <= k < v.len() && components(#[trigger] v[k]) == components(path);
            assert(components(paths@[k]@) == components(path));
        }
    }
}

proof fn two_are_asked(list: Seq<Seq<Seq<char>>>, replies: Seq<GitReply>)
    requires
        list.len() == 2,
    ensures
        asked(list, replies, 0, Seq::empty()) == if replies.len() == 0 {
            AskingView::Ask(0)
        } else {
            match answer(list[0], replies[0]) {
                Err(error) => AskingView::Failed(error),
                Ok(first) => if replies.len() == 1 {
                    AskingView::Ask(1)
                } else {
                    match answer(list[1], replies[1]) {
                        Err(error) => AskingView::Failed(error),
                        Ok(second) => AskingView::Answered(seq![first, second]),
                    }
                },
            }
        },
{
    reveal_with_fuel(asked, 4);
    if let (Ok(first), Ok(second)) = (answer(list[0], replies[0]), answer(list[1], replies[1])) {
        assert(Seq::<Seq<char>>::empty().push(first).push(second) =~= seq![first, second]);
    }
}

spec fn is_path(paths: Seq<Seq<char>>, path: Seq<char>) -> bool {
    exists|k: int| 0 <= k < paths.len() && components(#[trigger] paths[k]) == components(path)
}

proof fn a_first_spelling(all: Seq<Seq<char>>, i: int) -> (j: int)
    requires
        0 <= i < all.len(),
    ensures
        is_first(all, j),
        components(all[j]) == components(all[i]),
    decreases i,
{
    if is_first(all, i) {
        i
    } else {
        let k = choose|k: int| 0 <= k < i && components(#[trigger] all[k]) == components(all[i]);
        a_first_spelling(all, k)
    }
}

proof fn every_line_is_a_path(all: Seq<Seq<char>>, v: Seq<Seq<char>>, i: int)
    requires
        distinct_paths(all, v),
        0 <= i < all.len(),
    ensures
        is_path(v, all[i]),
{
    let j = a_first_spelling(all, i);
    assert(v.contains(all[j]));
    let k = choose|k: int| 0 <= k < v.len() && v[k] == all[j];
    assert(components(v[k]) == components(all[i]));
}

proof fn paths_are_the_lines(a: Seq<char>, b: Seq<char>, v: Seq<Seq<char>>)
    requires
        distinct_paths(nonempty(lines_of(a)) + nonempty(lines_of(b)), v),
    ensures
        forall|k: int| 0 <= k < v.len() ==> is_line(a, #[trigger] v[k]) || is_line(b, v[k]),
        forall|path: Seq<char>| #[trigger] is_line(a, path) ==> is_path(v, path),
        forall|path: Seq<char>| #[trigger] is_line(b, path) ==> is_path(v, path),
        forall|i: int, j: int|
            0 <= i < j < v.len() ==> path_lt(
                components(#[trigger] v[i]),
                components(#[trigger] v[j]),
            ),
{
    let x = nonempty(lines_of(a));
    let y = nonempty(lines_of(b));
    let all = x + y;
    assert forall|k: int| 0 <= k < v.len() implies is_line(a, #[trigger] v[k]) || is_line(
        b,
        v[k],
    ) by {
        assert(is_first_spelling(all, v[k]));
        let i = choose|i: int| is_first(all, i) && #[trigger] all[i] == v[k];
        nonempty_holds(lines_of(a), v[k]);
        nonempty_holds(lines_of(b), v[k]);
        if i < x.len() {
            assert(x[i] == v[k]);
        } else {
            assert(y[i - x.len()] == v[k]);
        }
    }
    assert forall|path: Seq<char>| #[trigger] is_line(a, path) implies is_path(v, path) by {
        nonempty_holds(lines_of(a), path);
        let i = choose|i: int| 0 <= i < x.len() && x[i] == path;
        assert(all[i] == path);
        every_line_is_a_path(all, v, i);
    }
    assert forall|path: Seq<char>| #[trigger] is_line(b, path) implies is_path(v, path) by {
        nonempty_holds(lines_of(b), path);
        let i = choose|i: int| 0 <= i < y.len() && y[i] == path;
        assert(all[x.len() + i] == path);
        every_line_is_a_path(all, v, x.len() + i);
    }
}

proof fn nonempty_holds(texts: Seq<Seq<char>>, x: Seq<char>)
    ensures
        nonempty(texts).contains(x) <==> texts.contains(x) && x.len() > 0,
    decreases texts.len(),
{
    reveal(Seq::filter);
    if texts.len() > 0 {
        let front = texts.drop_last();
        nonempty_holds(front, x);
        let kept = nonempty(front);
        if front.contains(x) {
            let i = choose|i: int| 0 <= i < front.len() && front[i] == x;
            assert(texts[i] == x);
        }
        if texts.contains(x) && texts.last() != x {
            let i = choose|i: int| 0 <= i < texts.len() && texts[i] == x;
            assert(front[i] == x);
        }
        if texts.last() == x {
            assert(texts[texts.len() - 1] == x);
        }
        if kept.contains(x) {
            let i = choose|i: int| 0 <= i < kept.len() && kept[i] == x;
            assert(kept.push(texts.last())[i] == x);
        }
        assert(kept.push(texts.last())[kept.len() as int] == texts.last());
    }
}

/// Lines are what stands between line feeds: a text whose lines end is read
/// line by line, with or without a carriage return before the line feed, and
/// the last line need not end.
pub proof fn lines_stand_between_line_feeds(line: Seq<char>, rest: Seq<char>)
    requires
        !line.contains('\n'),
    ensures
        lines_of(line.push('\n') + rest) == seq![without_return(line)] + lines_of(rest),
        line.len() > 0 ==> lines_of(line) == seq![line],
        lines_of(Seq::<char>::empty()).len() == 0,
        without_return(line.push('\r')) == line,
        line.len() == 0 || line.last() != '\r' ==> without_return(line) == line,
{
    let none = Seq::<char>::empty();
    pieces_of_both(line, rest, '\n');
    one_piece(line);
    one_piece(none);
    pieces_not_empty(rest, '\n');
    let p = pieces(line.push('\n') + rest, '\n');
    let q = pieces(rest, '\n');
    assert(p =~= seq![line] + q);
    assert(p.last() == q.last());
    assert(lines_of(line.push('\n') + rest) =~= seq![without_return(line)] + lines_of(rest));
    assert(lines_of(line) =~= if line.len() > 0 {
        seq![line]
    } else {
        Seq::<Seq<char>>::empty()
    });
    assert(lines_of(none) =~= Seq::<Seq<char>>::empty());
    assert(line.push('\r').drop_last() =~= line);
}

proof fn one_piece(line: Seq<char>)
    requires
        !line.contains('\n'),
    ensures
        pieces(line, '\n') == seq![line],
    decreases line.len(),
{
    if line.len() > 0 {
        let front = line.drop_last();
        assert(!front.contains('\n')) by {
            if front.contains('\n') {
                let i = choose|i: int| 0 <= i < front.len() && front[i] == '\n';
                assert(line[i] == '\n');
            }
        }
        one_piece(front);
        assert(line[line.len() - 1] != '\n') by {
            if line[line.len() - 1] == '\n' {
                assert(line.contains('\n'));
            }
        }
        assert(front.push(line.last()) =~= line);
    } else {
        assert(line =~= Seq::<char>::empty());
    }
    assert(pieces(line, '\n') =~= seq![line]);
}

/// The hooks path is asked and set in the repository's own configuration: the
/// value that is set is the last argument, and unsetting names no value.
pub proof fn the_hooks_path_is_set_to_the_value(value: &str, r: Vec<String>, u: Vec<String>)
    requires
        call_ensures(set_hooks_path_args, (value,), r),
        call_ensures(unset_hooks_path_args, (), u),
    ensures
        views(r@) == seq!["config"@, "--local"@, "core.hooksPath"@, value@],
        views(u@) == seq!["config"@, "--local"@, "--unset"@, "core.hooksPath"@],
{
}

/// Setting and unsetting work exactly where git succeeds.
pub proof fn setting_works_where_git_succeeds(
    value: &str,
    reply: &GitReply,
    r: Result<(), GitError>,
    u: Result<(), GitError>,
)
    requires
        call_ensures(set_hooks_path, (value, reply), r),
        call_ensures(unset_hooks_path, (reply,), u),
    ensures
        r is Ok <==> succeeded(*reply),
        u is Ok <==> succeeded(*reply),
{
}

/// There is a hooks path exactly where git prints one, none exactly where git
/// exits with 1, and anything else is an error.
pub proof fn the_hooks_path_is_what_git_prints(
    reply: &GitReply,
    r: Result<Option<String>, GitError>,
)
    requires
        call_ensures(hooks_path, (reply,), r),
    ensures
        succeeded(*reply) <==> (r matches Ok(Some(_))),
        succeeded(*reply) ==> r->Ok_0->Some_0@ == trimmed(reply->stdout@),
        (*reply matches GitReply::Ended { code, .. } && code == Some(1i32)) <==> (r matches Ok(None)),
{
}

/// `HEAD` is asked about by name, by hash and by short hash, and untracked
/// files count towards whether the working tree is dirty.
pub proof fn head_is_asked_about(commands: Vec<Vec<String>>)
    requires
        call_ensures(head_commands, (), commands),
    ensures
        commands@.len() == 4,
        views(commands@[0]@) == seq!["rev-parse"@, "--abbrev-ref"@, "HEAD"@],
        views(commands@[1]@) == seq!["rev-parse"@, "HEAD"@],
        views(commands@[2]@) == seq!["rev-parse"@, "--short"@, "HEAD"@],
        views(commands@[3]@) == seq!["status"@, "--porcelain"@, "--untracked-files=all"@],
{
    let list = command_views(commands@);
    assert(list == head_command_list());
    assert(list.len() == 4);
    assert(commands@.len() == 4);
    assert forall|k: int| 0 <= k < 4 implies list[k] == views(#[trigger] commands@[k]@) by {}
}

} // verus!
