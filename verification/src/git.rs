//! What git answers: the decisions made from the outcome of a git command.

use vstd::prelude::*;
use vstd::string::*;
use crate::paths::{components, components_of, pieces, pieces_not_empty, split};
use crate::sort::{path_before, path_lt, path_lt_irreflexive, path_lt_total, path_lt_transitive};
use crate::sort::{sort, sorted, Ordered};
use crate::text::{
    chars_of, join, joined, same_text, string_of, text2, trim, trim_newlines, trimmed, views,
    without_newlines,
};

verus! {

/// A git invocation that could not answer, in git's own words.
#[derive(Debug, PartialEq, Eq)]
pub struct GitError(pub String);

impl View for GitError {
    type V = Seq<char>;

    open spec fn view(&self) -> Seq<char> {
        self.0@
    }
}

impl Clone for GitError {
    fn clone(&self) -> (r: GitError)
        ensures
            r == *self,
    {
        GitError(self.0.clone())
    }
}

/// What `HEAD` looks like.
#[derive(Debug, PartialEq, Eq)]
pub struct GitHead {
    /// The branch name, or `HEAD` when detached.
    pub branch: String,
    pub sha: String,
    pub short_sha: String,
    /// Whether the index or the working tree differs from `HEAD`, untracked
    /// files included.
    pub dirty: bool,
}

pub struct GitHeadView {
    pub branch: Seq<char>,
    pub sha: Seq<char>,
    pub short_sha: Seq<char>,
    pub dirty: bool,
}

impl View for GitHead {
    type V = GitHeadView;

    open spec fn view(&self) -> GitHeadView {
        GitHeadView {
            branch: self.branch@,
            sha: self.sha@,
            short_sha: self.short_sha@,
            dirty: self.dirty,
        }
    }
}

impl Clone for GitHead {
    fn clone(&self) -> (r: GitHead)
        ensures
            r == *self,
    {
        GitHead {
            branch: self.branch.clone(),
            sha: self.sha.clone(),
            short_sha: self.short_sha.clone(),
            dirty: self.dirty,
        }
    }
}

/// A hook that git knows, with the number of arguments it is sure to pass.
#[derive(Debug, Clone, Copy, PartialEq, Eq)]
pub struct KnownHook {
    pub name: &'static str,
    pub arity: usize,
}

/// The hooks that git fires in a developer's clone, each with the number of
/// arguments it is sure to pass.
pub open spec fn known_hooks() -> Seq<(Seq<char>, nat)> {
    seq![
        ("applypatch-msg"@, 1),
        ("pre-applypatch"@, 0),
        ("post-applypatch"@, 0),
        ("pre-commit"@, 0),
        ("pre-merge-commit"@, 0),
        ("prepare-commit-msg"@, 1),
        ("commit-msg"@, 1),
        ("post-commit"@, 0),
        ("pre-rebase"@, 1),
        ("post-checkout"@, 3),
        ("post-merge"@, 1),
        ("pre-push"@, 2),
        ("pre-auto-gc"@, 0),
        ("post-rewrite"@, 1),
        ("sendemail-validate"@, 1),
        ("post-index-change"@, 2),
    ]
}

pub open spec fn hook_view(hook: KnownHook) -> (Seq<char>, nat) {
    (hook.name@, hook.arity as nat)
}

fn hook(name: &'static str, arity: usize) -> (r: KnownHook)
    ensures
        hook_view(r) == (name@, arity as nat),
{
    KnownHook { name, arity }
}

/// The hooks that git fires in a developer's clone.
pub fn all_known_hooks() -> (r: Vec<KnownHook>)
    ensures
        r@.map_values(|h: KnownHook| hook_view(h)) == known_hooks(),
{
    let mut r: Vec<KnownHook> = Vec::new();
    r.push(hook("applypatch-msg", 1));
    r.push(hook("pre-applypatch", 0));
    r.push(hook("post-applypatch", 0));
    r.push(hook("pre-commit", 0));
    r.push(hook("pre-merge-commit", 0));
    r.push(hook("prepare-commit-msg", 1));
    r.push(hook("commit-msg", 1));
    r.push(hook("post-commit", 0));
    r.push(hook("pre-rebase", 1));
    r.push(hook("post-checkout", 3));
    r.push(hook("post-merge", 1));
    r.push(hook("pre-push", 2));
    r.push(hook("pre-auto-gc", 0));
    r.push(hook("post-rewrite", 1));
    r.push(hook("sendemail-validate", 1));
    r.push(hook("post-index-change", 2));
    assert(r@.map_values(|h: KnownHook| hook_view(h)) =~= known_hooks());
    r
}

/// The hook called `name`, where git knows one.
pub fn known_hook(name: &str) -> (r: Option<KnownHook>)
    ensures
        match r {
            Some(hook) => hook.name@ == name@ && known_hooks().contains(hook_view(hook)),
            None => forall|i: int|
                0 <= i < known_hooks().len() ==> (#[trigger] known_hooks()[i]).0 != name@,
        },
{
    let hooks = all_known_hooks();
    let ghost all = hooks@.map_values(|h: KnownHook| hook_view(h));
    let mut i: usize = 0;
    while i < hooks.len()
        invariant
            i <= hooks@.len(),
            all == hooks@.map_values(|h: KnownHook| hook_view(h)),
            all == known_hooks(),
            forall|k: int| 0 <= k < i ==> (#[trigger] known_hooks()[k]).0 != name@,
        decreases hooks.len() - i,
    {
        assert(all[i as int] == hook_view(hooks@[i as int]));
        if same_text(hooks[i].name, name) {
            assert(known_hooks().contains(all[i as int]));
            return Some(hooks[i]);
        }
        i += 1;
    }
    None
}

/// How running a git command went.
#[derive(Debug, PartialEq, Eq)]
pub enum GitReply {
    /// It could not be started: whether git is missing, and what the system
    /// said.
    Unstarted { missing: bool, error: String },
    /// It ended, with its exit code where it has one.
    Ended { code: Option<i32>, stdout: String, stderr: String },
}

/// What a command's output says, or why it could not answer.
pub open spec fn answer(args: Seq<Seq<char>>, reply: GitReply) -> Result<Seq<char>, Seq<char>> {
    match reply {
        GitReply::Unstarted { missing, error } => Err(
            if missing {
                "git not found on PATH"@
            } else {
                "cannot run git: "@ + error@
            },
        ),
        GitReply::Ended { code, stdout, stderr } => if code == Some(0i32) {
            Ok(without_newlines(stdout@))
        } else {
            Err("git "@ + joined(args, " "@) + " failed: "@ + trimmed(stderr@))
        },
    }
}

pub open spec fn text_result(r: Result<String, GitError>) -> Result<Seq<char>, Seq<char>> {
    match r {
        Ok(text) => Ok(text@),
        Err(error) => Err(error@),
    }
}

/// What the output of `git <args>` says, without the newlines it ends with.
/// An exit code other than 0 is an error with what git wrote to stderr.
pub fn git(args: &Vec<String>, reply: &GitReply) -> (r: Result<String, GitError>)
    ensures
        text_result(r) == answer(views(args@), *reply),
{
    match reply {
        GitReply::Unstarted { missing, error } => {
            if *missing {
                Err(GitError("git not found on PATH".to_owned()))
            } else {
                Err(GitError(text2("cannot run git: ", error.as_str())))
            }
        },
        GitReply::Ended { code, stdout, stderr } => {
            let done = match code {
                Some(c) => *c == 0,
                None => false,
            };
            if done {
                Ok(trim_newlines(stdout.as_str()))
            } else {
                let mut message = text2("git ", join(args, " ").as_str());
                message.append(" failed: ");
                message.append(trim(stderr.as_str()).as_str());
                Err(GitError(message))
            }
        },
    }
}

fn words3(a: &str, b: &str, c: &str) -> (r: Vec<String>)
    ensures
        views(r@) == seq![a@, b@, c@],
{
    let mut r: Vec<String> = Vec::new();
    r.push(a.to_owned());
    r.push(b.to_owned());
    r.push(c.to_owned());
    assert(views(r@) =~= seq![a@, b@, c@]);
    r
}

fn words4(a: &str, b: &str, c: &str, d: &str) -> (r: Vec<String>)
    ensures
        views(r@) == seq![a@, b@, c@, d@],
{
    let mut r = words3(a, b, c);
    let ghost before = views(r@);
    r.push(d.to_owned());
    assert(views(r@) =~= before.push(d@));
    assert(views(r@) =~= seq![a@, b@, c@, d@]);
    r
}

pub open spec fn root_command() -> Seq<Seq<char>> {
    seq!["rev-parse"@, "--show-toplevel"@]
}

/// The command that asks for the repository's top-level directory.
pub fn repository_root_args() -> (r: Vec<String>)
    ensures
        views(r@) == root_command(),
{
    let mut r: Vec<String> = Vec::new();
    r.push("rev-parse".to_owned());
    r.push("--show-toplevel".to_owned());
    assert(views(r@) =~= root_command());
    r
}

/// The repository's top-level directory as git spells it.
pub fn repository_root(reply: &GitReply) -> (r: Result<String, GitError>)
    ensures
        text_result(r) == answer(root_command(), *reply),
{
    git(&repository_root_args(), reply)
}

/// The repository's top-level directory, from what making it canonical gave.
pub fn canonical_root(canonical: Result<String, String>) -> (r: Result<String, GitError>)
    ensures
        match canonical {
            Ok(path) => r is Ok && r->Ok_0@ == path@,
            Err(error) => r is Err && r->Err_0@ == "cannot canonicalize repository root: "@
                + error@,
        },
{
    match canonical {
        Ok(path) => Ok(path),
        Err(error) => Err(
            GitError(text2("cannot canonicalize repository root: ", error.as_str())),
        ),
    }
}

/// How far a question that takes several commands has come.
pub enum Asking {
    /// The command to run next, by its place.
    Ask(usize),
    Failed(GitError),
    /// Every command's answer.
    Answered(Vec<String>),
}

pub enum AskingView {
    Ask(nat),
    Failed(Seq<char>),
    Answered(Seq<Seq<char>>),
}

impl View for Asking {
    type V = AskingView;

    open spec fn view(&self) -> AskingView {
        match self {
            Asking::Ask(i) => AskingView::Ask(*i as nat),
            Asking::Failed(error) => AskingView::Failed(error@),
            Asking::Answered(texts) => AskingView::Answered(views(texts@)),
        }
    }
}

/// What `commands` answer from the replies that came so far, from place `i`
/// on: the first failure, the command that is next, or every answer.
pub open spec fn asked(
    commands: Seq<Seq<Seq<char>>>,
    replies: Seq<GitReply>,
    i: nat,
    answers: Seq<Seq<char>>,
) -> AskingView
    decreases commands.len() - i,
{
    if i >= commands.len() {
        AskingView::Answered(answers)
    } else if i >= replies.len() {
        AskingView::Ask(i)
    } else {
        match answer(commands[i as int], replies[i as int]) {
            Err(error) => AskingView::Failed(error),
            Ok(text) => asked(commands, replies, i + 1, answers.push(text)),
        }
    }
}

pub open spec fn command_views(commands: Seq<Vec<String>>) -> Seq<Seq<Seq<char>>> {
    Seq::new(commands.len(), |i: int| views(commands[i]@))
}

/// What `commands` answer from the replies that came so far.
fn ask(commands: &Vec<Vec<String>>, replies: &Vec<GitReply>) -> (r: Asking)
    ensures
        r@ == asked(command_views(commands@), replies@, 0, Seq::empty()),
{
    let ghost all = command_views(commands@);
    let mut answers: Vec<String> = Vec::new();
    let mut i: usize = 0;
    assert(views(answers@) =~= Seq::<Seq<char>>::empty());
    while i < commands.len()
        invariant
            i <= commands@.len(),
            all == command_views(commands@),
            asked(all, replies@, 0, Seq::empty()) == asked(
                all,
                replies@,
                i as nat,
                views(answers@),
            ),
        decreases commands.len() - i,
    {
        if i >= replies.len() {
            return Asking::Ask(i);
        }
        assert(all[i as int] == views(commands@[i as int]@));
        match git(&commands[i], &replies[i]) {
            Err(error) => {
                return Asking::Failed(error);
            },
            Ok(text) => {
                let ghost before = views(answers@);
                answers.push(text);
                assert(views(answers@) =~= before.push(text@));
            },
        }
        i += 1;
    }
    Asking::Answered(answers)
}

pub open spec fn head_command_list() -> Seq<Seq<Seq<char>>> {
    seq![
        seq!["rev-parse"@, "--abbrev-ref"@, "HEAD"@],
        seq!["rev-parse"@, "HEAD"@],
        seq!["rev-parse"@, "--short"@, "HEAD"@],
        seq!["status"@, "--porcelain"@, "--untracked-files=all"@],
    ]
}

/// The commands that ask what `HEAD` looks like, in order.
pub fn head_commands() -> (r: Vec<Vec<String>>)
    ensures
        command_views(r@) == head_command_list(),
{
    let mut second: Vec<String> = Vec::new();
    second.push("rev-parse".to_owned());
    second.push("HEAD".to_owned());
    assert(views(second@) =~= seq!["rev-parse"@, "HEAD"@]);
    let mut r: Vec<Vec<String>> = Vec::new();
    r.push(words3("rev-parse", "--abbrev-ref", "HEAD"));
    r.push(second);
    r.push(words3("rev-parse", "--short", "HEAD"));
    r.push(words3("status", "--porcelain", "--untracked-files=all"));
    assert(command_views(r@) =~= head_command_list());
    r
}

/// What to do next to learn what `HEAD` looks like.
#[derive(Debug, PartialEq, Eq)]
pub enum HeadStep {
    /// Run this command.
    Ask(Vec<String>),
    Done(Result<GitHead, GitError>),
}

/// What `HEAD` looks like, or the next command to run, from the replies to
/// the commands so far.
pub fn head(replies: &Vec<GitReply>) -> (r: HeadStep)
    ensures
        match asked(head_command_list(), replies@, 0, Seq::empty()) {
            AskingView::Ask(i) => r is Ask && views(r->Ask_0@) == head_command_list()[i as int],
            AskingView::Failed(error) => r is Done && r->Done_0 is Err && r->Done_0->Err_0@
                == error,
            AskingView::Answered(texts) => r is Done && r->Done_0 is Ok && r->Done_0->Ok_0@ == (
            GitHeadView {
                branch: texts[0],
                sha: texts[1],
                short_sha: texts[2],
                dirty: texts[3].len() > 0,
            }),
        },
{
    let mut commands = head_commands();
    proof {
        answered_all(head_command_list(), replies@, 0, Seq::empty());
        asks_in_range(head_command_list(), replies@, 0, Seq::empty());
    }
    match ask(&commands, replies) {
        Asking::Ask(i) => {
            assert(command_views(commands@)[i as int] == views(commands@[i as int]@));
            HeadStep::Ask(commands.swap_remove(i))
        },
        Asking::Failed(error) => HeadStep::Done(Err(error)),
        Asking::Answered(texts) => {
            assert(views(texts@).len() == 4);
            let ghost all = views(texts@);
            assert(all[0] == texts@[0]@ && all[1] == texts@[1]@ && all[2] == texts@[2]@ && all[3]
                == texts@[3]@);
            HeadStep::Done(
                Ok(
                    GitHead {
                        branch: texts[0].clone(),
                        sha: texts[1].clone(),
                        short_sha: texts[2].clone(),
                        dirty: !texts[3].as_str().is_empty(),
                    },
                ),
            )
        },
    }
}

proof fn answered_all(
    commands: Seq<Seq<Seq<char>>>,
    replies: Seq<GitReply>,
    i: nat,
    answers: Seq<Seq<char>>,
)
    requires
        answers.len() == i <= commands.len(),
    ensures
        asked(commands, replies, i, answers) matches AskingView::Answered(texts) ==> texts.len()
            == commands.len(),
    decreases commands.len() - i,
{
    if i < commands.len() && i < replies.len() {
        if let Ok(text) = answer(commands[i as int], replies[i as int]) {
            answered_all(commands, replies, i + 1, answers.push(text));
        }
    }
}

proof fn asks_in_range(
    commands: Seq<Seq<Seq<char>>>,
    replies: Seq<GitReply>,
    i: nat,
    answers: Seq<Seq<char>>,
)
    ensures
        asked(commands, replies, i, answers) matches AskingView::Ask(k) ==> k < commands.len(),
    decreases commands.len() - i,
{
    if i < commands.len() && i < replies.len() {
        if let Ok(text) = answer(commands[i as int], replies[i as int]) {
            asks_in_range(commands, replies, i + 1, answers.push(text));
        }
    }
}

/// A line without the carriage return that its line ending began with.
pub open spec fn without_return(s: Seq<char>) -> Seq<char> {
    if s.len() > 0 && s.last() == '\r' {
        s.drop_last()
    } else {
        s
    }
}

/// The lines of a text: each ends with a line feed, or a carriage return and
/// a line feed, the last one's ending being optional.
pub open spec fn lines_of(s: Seq<char>) -> Seq<Seq<char>> {
    let p = pieces(s, '\n');
    let ended = Seq::new((p.len() - 1) as nat, |i: int| without_return(p[i]));
    if p.last().len() == 0 {
        ended
    } else {
        ended.push(p.last())
    }
}

fn strip_return(s: &str) -> (r: String)
    ensures
        r@ == without_return(s@),
{
    let mut chars = chars_of(s);
    let n: usize = chars.len();
    if n > 0 && chars[n - 1] == '\r' {
        chars.truncate(n - 1);
        assert(chars@ =~= s@.drop_last());
    }
    string_of(&chars)
}

/// The lines of a text.
pub fn lines(s: &str) -> (r: Vec<String>)
    ensures
        views(r@) == lines_of(s@),
{
    let parts = split(s, '\n');
    let ghost p = pieces(s@, '\n');
    proof {
        pieces_not_empty(s@, '\n');
    }
    assert(views(parts@).len() == parts@.len());
    let mut out: Vec<String> = Vec::new();
    let n: usize = parts.len();
    let mut i: usize = 0;
    while i < n - 1
        invariant
            i <= n - 1,
            n == parts@.len(),
            views(parts@) == p,
            out@.len() == i,
            forall|k: int| 0 <= k < i ==> (#[trigger] out@[k])@ == without_return(p[k]),
        decreases n - i,
    {
        assert(p[i as int] == parts@[i as int]@);
        out.push(strip_return(parts[i].as_str()));
        i += 1;
    }
    let ghost ended = Seq::new((p.len() - 1) as nat, |i: int| without_return(p[i]));
    assert(views(out@) =~= ended);
    assert(p.last() == parts@[n - 1]@);
    if !parts[n - 1].as_str().is_empty() {
        out.push(parts[n - 1].clone());
        assert(views(out@) =~= ended.push(p.last()));
    }
    out
}

/// A path with the place where it was read.
struct Placed {
    parts: Vec<String>,
    text: String,
    place: usize,
}

impl Ordered for Placed {
    closed spec fn before(&self, other: &Self) -> bool {
        path_lt(views(self.parts@), views(other.parts@)) || (views(self.parts@) == views(
            other.parts@,
        ) && self.place < other.place)
    }

    proof fn before_irreflexive(&self) {
        path_lt_irreflexive(views(self.parts@));
    }

    proof fn before_transitive(&self, b: &Self, c: &Self) {
        if path_lt(views(self.parts@), views(b.parts@)) && path_lt(
            views(b.parts@),
            views(c.parts@),
        ) {
            path_lt_transitive(views(self.parts@), views(b.parts@), views(c.parts@));
        }
    }

    proof fn not_before_transitive(&self, b: &Self, c: &Self) {
        path_lt_total(views(self.parts@), views(b.parts@));
        path_lt_total(views(b.parts@), views(c.parts@));
        if self.before(c) {
            if b.before(self) {
                b.before_transitive(self, c);
            }
        }
    }

    fn is_before(&self, other: &Self) -> (r: bool) {
        if path_before(&self.parts, &other.parts) {
            true
        } else if path_before(&other.parts, &self.parts) {
            proof {
                path_lt_irreflexive(views(self.parts@));
            }
            false
        } else {
            proof {
                path_lt_total(views(self.parts@), views(other.parts@));
                path_lt_irreflexive(views(self.parts@));
            }
            self.place < other.place
        }
    }
}

/// No line before place `i` spells the path that is there.
pub open spec fn is_first(lines: Seq<Seq<char>>, i: int) -> bool {
    0 <= i < lines.len() && forall|j: int|
        0 <= j < i ==> components(#[trigger] lines[j]) != components(lines[i])
}

/// A path is one of `lines`, as the first line that spells it has it.
pub open spec fn is_first_spelling(lines: Seq<Seq<char>>, path: Seq<char>) -> bool {
    exists|i: int| is_first(lines, i) && #[trigger] lines[i] == path
}

/// `paths` are the paths that `lines` spell, in the order of paths and each
/// once, as the first line that spells it has it.
pub open spec fn distinct_paths(lines: Seq<Seq<char>>, paths: Seq<Seq<char>>) -> bool {
    &&& forall|i: int, j: int|
        #![trigger paths[i], paths[j]]
        0 <= i < j < paths.len() ==> path_lt(components(paths[i]), components(paths[j]))
    &&& forall|k: int| 0 <= k < paths.len() ==> is_first_spelling(lines, #[trigger] paths[k])
    &&& forall|i: int| is_first(lines, i) ==> paths.contains(#[trigger] lines[i])
}

spec fn placed(lines: Seq<Seq<char>>, p: Placed) -> bool {
    p.place < lines.len() && p.text@ == lines[p.place as int] && views(p.parts@) == components(
        p.text@,
    )
}

/// Every line has its place among the first `n`.
spec fn covers(s: Seq<Placed>, n: int) -> bool {
    forall|i: int| 0 <= i < n ==> has_place(s, i)
}

spec fn has_place(s: Seq<Placed>, i: int) -> bool {
    exists|k: int| 0 <= k < s.len() && (#[trigger] s[k]).place == i
}

/// The paths that lines spell, sorted and without duplicates.
fn sorted_paths(list: &Vec<String>) -> (r: Vec<String>)
    ensures
        distinct_paths(views(list@), views(r@)),
{
    let ghost all = views(list@);
    let mut found: Vec<Placed> = Vec::new();
    let mut i: usize = 0;
    while i < list.len()
        invariant
            i <= list@.len(),
            all == views(list@),
            found@.len() == i,
            forall|k: int| 0 <= k < i ==> placed(all, #[trigger] found@[k]),
            forall|k: int| 0 <= k < i ==> (#[trigger] found@[k]).place == k,
        decreases list.len() - i,
    {
        let text = list[i].clone();
        let parts = components_of(text.as_str());
        found.push(Placed { parts, text, place: i });
        i += 1;
    }
    let ghost unsorted = found@;
    let found = sort(found);
    proof {
        sorted_keeps(all, unsorted, found@);
    }
    let mut out: Vec<String> = Vec::new();
    let mut last: usize = 0;
    let mut i: usize = 0;
    while i < found.len()
        invariant
            i <= found@.len(),
            sorted(found@),
            covers(found@, all.len() as int),
            forall|k: int| 0 <= k < found@.len() ==> placed(all, #[trigger] found@[k]),
            i == 0 ==> out@.len() == 0,
            i > 0 ==> last < i && out@.len() > 0 && found@[last as int].text@ == out@.last()@
                && views(found@[i - 1].parts@) == views(found@[last as int].parts@),
            forall|a: int, b: int|
                #![trigger out@[a], out@[b]]
                0 <= a < b < out@.len() ==> path_lt(components(out@[a]@), components(out@[b]@)),
            forall|k: int| 0 <= k < out@.len() ==> is_first_spelling(all, (#[trigger] out@[k])@),
            forall|k: int|
                0 <= k < i && is_first(all, (#[trigger] found@[k]).place as int) ==> views(
                    out@,
                ).contains(found@[k].text@),
        decreases found.len() - i,
    {
        let fresh = i == 0 || path_before(&found[last].parts, &found[i].parts);
        let ghost before = out@;
        if fresh {
            proof {
                leads_its_path(all, found@, i as int);
            }
            assert(all[found@[i as int].place as int] == found@[i as int].text@);
            out.push(found[i].text.clone());
            last = i;
            proof {
                assert forall|a: int, b: int|
                    #![trigger out@[a], out@[b]]
                    0 <= a < b < out@.len() implies path_lt(
                    components(out@[a]@),
                    components(out@[b]@),
                ) by {
                    if b == out@.len() - 1 && a < before.len() - 1 {
                        assert(path_lt(components(before[a]@), components(before.last()@)));
                        path_lt_transitive(
                            components(before[a]@),
                            components(before.last()@),
                            components(out@[b]@),
                        );
                    }
                }
                assert(views(out@)[out@.len() - 1] == found@[i as int].text@);
            }
        } else {
            proof {
                let p = found@[last as int];
                let q = found@[i as int];
                assert(!q.before(&p));
                path_lt_total(views(p.parts@), views(q.parts@));
                assert(views(p.parts@) == views(q.parts@));
                if is_first(all, q.place as int) {
                    not_leading(all, found@, last as int, i as int);
                    assert(views(out@)[out@.len() - 1] == q.text@);
                }
            }
        }
        proof {
            assert forall|k: int|
                0 <= k < i + 1 && is_first(all, (#[trigger] found@[k]).place as int) implies views(
                out@,
            ).contains(found@[k].text@) by {
                if k < i {
                    let m = choose|m: int| 0 <= m < views(before).len() && views(before)[m]
                        == found@[k].text@;
                    assert(views(out@)[m] == found@[k].text@);
                }
            }
        }
        i += 1;
    }
    proof {
        let paths = views(out@);
        assert forall|i: int, j: int|
            #![trigger paths[i], paths[j]]
            0 <= i < j < paths.len() implies path_lt(components(paths[i]), components(paths[j])) by {
            assert(path_lt(components(out@[i]@), components(out@[j]@)));
        }
        assert forall|k: int| 0 <= k < paths.len() implies is_first_spelling(
            all,
            #[trigger] paths[k],
        ) by {
            assert(is_first_spelling(all, out@[k]@));
        }
        assert forall|i: int| is_first(all, i) implies paths.contains(#[trigger] all[i]) by {
            assert(has_place(found@, i));
            let k = choose|k: int| 0 <= k < found@.len() && (#[trigger] found@[k]).place == i;
            assert(placed(all, found@[k]));
        }
    }
    out
}

proof fn sorted_keeps(all: Seq<Seq<char>>, unsorted: Seq<Placed>, found: Seq<Placed>)
    requires
        unsorted.len() == all.len(),
        found.to_multiset() == unsorted.to_multiset(),
        forall|k: int| 0 <= k < unsorted.len() ==> placed(all, #[trigger] unsorted[k]),
        forall|k: int| 0 <= k < unsorted.len() ==> (#[trigger] unsorted[k]).place == k,
    ensures
        covers(found, all.len() as int),
        forall|k: int| 0 <= k < found.len() ==> placed(all, #[trigger] found[k]),
{
    found.to_multiset_ensures();
    unsorted.to_multiset_ensures();
    assert forall|k: int| 0 <= k < found.len() implies placed(all, #[trigger] found[k]) by {
        assert(found.contains(found[k]));
        assert(unsorted.to_multiset().count(found[k]) > 0);
        assert(unsorted.contains(found[k]));
        let m = choose|m: int| 0 <= m < unsorted.len() && unsorted[m] == found[k];
    }
    assert forall|i: int| 0 <= i < all.len() implies has_place(found, i) by {
        assert(unsorted.contains(unsorted[i]));
        assert(found.to_multiset().count(unsorted[i]) > 0);
        assert(found.contains(unsorted[i]));
        let k = choose|k: int| 0 <= k < found.len() && found[k] == unsorted[i];
        assert(found[k].place == i);
    }
}

/// Where a path is not the one before it, no line spells it earlier.
proof fn leads_its_path(all: Seq<Seq<char>>, found: Seq<Placed>, i: int)
    requires
        0 <= i < found.len(),
        sorted(found),
        covers(found, all.len() as int),
        forall|k: int| 0 <= k < found.len() ==> placed(all, #[trigger] found[k]),
        i > 0 ==> path_lt(views(found[i - 1].parts@), views(found[i].parts@)),
    ensures
        is_first(all, found[i].place as int),
{
    assert(placed(all, found[i]));
    assert forall|j: int| 0 <= j < found[i].place implies components(#[trigger] all[j])
        != components(all[found[i].place as int]) by {
        if components(all[j]) == components(all[found[i].place as int]) {
            assert(has_place(found, j));
            let k = choose|k: int| 0 <= k < found.len() && (#[trigger] found[k]).place == j;
            assert(placed(all, found[k]));
            assert(found[k].before(&found[i]));
            if k > i {
                assert(!found[k].before(&found[i]));
            }
            if k < i - 1 {
                assert(!found[i - 1].before(&found[k]));
                path_lt_irreflexive(views(found[i].parts@));
            }
            path_lt_irreflexive(views(found[i].parts@));
            assert(k < i);
            assert(views(found[k].parts@) == views(found[i].parts@));
            assert(found[i - 1].before(&found[k]) || k == i - 1);
        }
    }
}

/// A path that came before is not first in its second place.
proof fn not_leading(all: Seq<Seq<char>>, found: Seq<Placed>, last: int, i: int)
    requires
        0 <= last < i < found.len(),
        sorted(found),
        placed(all, found[last]),
        placed(all, found[i]),
        views(found[last].parts@) == views(found[i].parts@),
        is_first(all, found[i].place as int),
    ensures
        found[last].text@ == found[i].text@,
{
    let p = found[last];
    let q = found[i];
    assert(!q.before(&p));
    assert(p.place <= q.place);
    if p.place < q.place {
        assert(components(all[p.place as int]) != components(all[q.place as int]));
    }
}

/// The texts that are not empty, in order.
pub open spec fn nonempty(texts: Seq<Seq<char>>) -> Seq<Seq<char>> {
    texts.filter(|t: Seq<char>| t.len() > 0)
}

pub open spec fn changed_command_list(reference: Seq<char>) -> Seq<Seq<Seq<char>>> {
    seq![
        seq!["diff"@, "--name-only"@, "--relative"@, reference],
        seq!["ls-files"@, "--others"@, "--exclude-standard"@],
    ]
}

/// The commands that ask which files changed, in order.
pub fn changed_commands(reference: &str) -> (r: Vec<Vec<String>>)
    ensures
        command_views(r@) == changed_command_list(reference@),
{
    let mut r: Vec<Vec<String>> = Vec::new();
    r.push(words4("diff", "--name-only", "--relative", reference));
    r.push(words3("ls-files", "--others", "--exclude-standard"));
    assert(command_views(r@) =~= changed_command_list(reference@));
    r
}

/// What to do next to learn which files changed.
#[derive(Debug, PartialEq, Eq)]
pub enum ChangedStep {
    /// Run this command.
    Ask(Vec<String>),
    Done(Result<Vec<String>, GitError>),
}

fn keep_nonempty(list: &Vec<String>, out: &mut Vec<String>)
    ensures
        views(final(out)@) == views(old(out)@) + nonempty(views(list@)),
{
    let ghost all = views(list@);
    let ghost start = views(out@);
    let ghost full = |t: Seq<char>| t.len() > 0;
    reveal_with_fuel(Seq::filter, 2);
    let mut i: usize = 0;
    assert(views(out@) =~= start + all.take(0).filter(full));
    while i < list.len()
        invariant
            i <= list@.len(),
            all == views(list@),
            full == (|t: Seq<char>| t.len() > 0),
            views(out@) == start + all.take(i as int).filter(full),
        decreases list.len() - i,
    {
        reveal(Seq::filter);
        assert(all.take(i + 1).drop_last() =~= all.take(i as int));
        assert(all.take(i + 1).last() == list@[i as int]@);
        let ghost before = views(out@);
        if !list[i].as_str().is_empty() {
            out.push(list[i].clone());
            assert(views(out@) =~= before.push(list@[i as int]@));
            assert(before.push(list@[i as int]@) =~= start + all.take(i as int).filter(full).push(
                list@[i as int]@,
            ));
        }
        i += 1;
    }
    assert(all.take(all.len() as int) =~= all);
}

/// The files that differ between `reference` and the working tree, untracked
/// ones among them, as paths in order and each once; or the next command to
/// run, from the replies to the commands so far.
pub fn changed_files(reference: &str, replies: &Vec<GitReply>) -> (r: ChangedStep)
    ensures
        match asked(changed_command_list(reference@), replies@, 0, Seq::empty()) {
            AskingView::Ask(i) => r is Ask && views(r->Ask_0@) == changed_command_list(
                reference@,
            )[i as int],
            AskingView::Failed(error) => r is Done && r->Done_0 is Err && r->Done_0->Err_0@
                == error,
            AskingView::Answered(texts) => r is Done && r->Done_0 is Ok && distinct_paths(
                nonempty(lines_of(texts[0])) + nonempty(lines_of(texts[1])),
                views(r->Done_0->Ok_0@),
            ),
        },
{
    let mut commands = changed_commands(reference);
    proof {
        answered_all(changed_command_list(reference@), replies@, 0, Seq::empty());
        asks_in_range(changed_command_list(reference@), replies@, 0, Seq::empty());
    }
    match ask(&commands, replies) {
        Asking::Ask(i) => {
            assert(command_views(commands@)[i as int] == views(commands@[i as int]@));
            ChangedStep::Ask(commands.swap_remove(i))
        },
        Asking::Failed(error) => ChangedStep::Done(Err(error)),
        Asking::Answered(texts) => {
            assert(views(texts@).len() == 2);
            assert(views(texts@)[0] == texts@[0]@ && views(texts@)[1] == texts@[1]@);
            let mut paths: Vec<String> = Vec::new();
            assert(views(paths@) =~= Seq::<Seq<char>>::empty());
            keep_nonempty(&lines(texts[0].as_str()), &mut paths);
            assert(views(paths@) =~= nonempty(lines_of(texts@[0]@)));
            keep_nonempty(&lines(texts[1].as_str()), &mut paths);
            ChangedStep::Done(Ok(sorted_paths(&paths)))
        },
    }
}

pub open spec fn hooks_command() -> Seq<Seq<char>> {
    seq!["config"@, "--local"@, "--get"@, "core.hooksPath"@]
}

/// The command that asks for the repository's `core.hooksPath`.
pub fn hooks_path_args() -> (r: Vec<String>)
    ensures
        views(r@) == hooks_command(),
{
    words4("config", "--local", "--get", "core.hooksPath")
}

/// The repository's `core.hooksPath`, if it is set: git exits with 1 where it
/// is not.
pub fn hooks_path(reply: &GitReply) -> (r: Result<Option<String>, GitError>)
    ensures
        match *reply {
            GitReply::Unstarted { missing: _, error } => r is Err && r->Err_0@
                == "cannot run git: "@ + error@,
            GitReply::Ended { code, stdout, stderr } => if code == Some(0i32) {
                r is Ok && r->Ok_0 is Some && r->Ok_0->Some_0@ == trimmed(stdout@)
            } else if code == Some(1i32) {
                r == Ok::<Option<String>, GitError>(None)
            } else {
                r is Err && r->Err_0@ == "git config failed: "@ + trimmed(stderr@)
            },
        },
{
    match reply {
        GitReply::Unstarted { missing: _, error } => Err(
            GitError(text2("cannot run git: ", error.as_str())),
        ),
        GitReply::Ended { code, stdout, stderr } => match code {
            Some(0) => Ok(Some(trim(stdout.as_str()))),
            Some(1) => Ok(None),
            _ => Err(GitError(text2("git config failed: ", trim(stderr.as_str()).as_str()))),
        },
    }
}

pub open spec fn set_hooks_command(value: Seq<char>) -> Seq<Seq<char>> {
    seq!["config"@, "--local"@, "core.hooksPath"@, value]
}

/// The command that sets the repository's `core.hooksPath`.
pub fn set_hooks_path_args(value: &str) -> (r: Vec<String>)
    ensures
        views(r@) == set_hooks_command(value@),
{
    words4("config", "--local", "core.hooksPath", value)
}

/// Whether a command that only changes something did it.
pub open spec fn done(args: Seq<Seq<char>>, reply: GitReply, r: Result<(), GitError>) -> bool {
    match answer(args, reply) {
        Ok(_) => r is Ok,
        Err(error) => r is Err && r->Err_0@ == error,
    }
}

/// Whether setting `core.hooksPath` to `value` worked.
pub fn set_hooks_path(value: &str, reply: &GitReply) -> (r: Result<(), GitError>)
    ensures
        done(set_hooks_command(value@), *reply, r),
{
    match git(&set_hooks_path_args(value), reply) {
        Ok(_) => Ok(()),
        Err(error) => Err(error),
    }
}

pub open spec fn unset_hooks_command() -> Seq<Seq<char>> {
    seq!["config"@, "--local"@, "--unset"@, "core.hooksPath"@]
}

/// The command that unsets the repository's `core.hooksPath`.
pub fn unset_hooks_path_args() -> (r: Vec<String>)
    ensures
        views(r@) == unset_hooks_command(),
{
    words4("config", "--local", "--unset", "core.hooksPath")
}

/// Whether unsetting `core.hooksPath` worked.
pub fn unset_hooks_path(reply: &GitReply) -> (r: Result<(), GitError>)
    ensures
        done(unset_hooks_command(), *reply, r),
{
    match git(&unset_hooks_path_args(), reply) {
        Ok(_) => Ok(()),
        Err(error) => Err(error),
    }
}

} // verus!
