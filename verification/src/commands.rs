//! The commands other than `run`: what they decide and what they say.

use vstd::prelude::*;
use vstd::string::*;
use crate::affected::{source_path, Selection};
use crate::args::{CacheCommand, Command, HooksCommand, LogFormat, RunFlags};
use crate::eval::{render_template, text_of};
use crate::exit::{Ending, EndingView, EXIT_ALBA_ERROR};
use crate::git::{lines, lines_of, GitError};
use crate::graph::{id_views, index_of, place_of};
use crate::hooks::{are_installed, hooks_installed};
use crate::json::{json_array, json_ids};
use crate::loader::{cwd_view, pair_views};
use crate::model::{copy_strings, BeamId, BeamView, ExecutorKind, HookView, Project, ProjectView};
use crate::paths::{file_name, file_name_of};
use crate::project_root::{absolute_or, cache_dir, cache_directory, dir_of, dir_part};
use crate::render::{dim_text, dimmed, print_views, Print, PrintView};
use crate::scope::Environment;
use crate::sort::{sort, Ordered};
use crate::text::{
    comes_before, decimal, decimal_text, opt_view, same_text, text2, text3, text5, text_lt,
    text_lt_irreflexive, text_lt_total, text_lt_transitive, views,
};

verus! {

/// Where the Beamfile is looked for, and under which name.
pub open spec fn searched(file: Option<Seq<char>>) -> (Seq<char>, Seq<char>) {
    match file {
        Some(path) => (
            dir_part(path),
            match file_name_of(path) {
                Some(name) => name,
                None => path,
            },
        ),
        None => ("."@, "Beamfile"@),
    }
}

/// The Beamfile that was asked for, or the one in the current directory.
pub fn beamfile_path(file: &Option<String>) -> (r: String)
    ensures
        r@ == match *file {
            Some(path) => path@,
            None => "Beamfile"@,
        },
{
    match file {
        Some(path) => path.clone(),
        None => "Beamfile".to_owned(),
    }
}

/// The Beamfile to load, where `found` says that there is a file. Else where
/// it was looked for, and under which name.
pub fn resolve_beamfile(
    file: &Option<String>,
    found: bool,
    cwd: &Result<String, String>,
) -> (r: Result<String, String>)
    ensures
        match r {
            Ok(path) => found && path@ == match *file {
                Some(path) => path@,
                None => "Beamfile"@,
            },
            Err(message) => !found && message@ == "no Beamfile found in "@ + source_path(
                searched(opt_view(*file)).0,
                cwd_view(*cwd),
            ) + " (searched "@ + searched(opt_view(*file)).1 + ")"@,
        },
{
    if found {
        return Ok(beamfile_path(file));
    }
    let (dir, name) = match file {
        Some(path) => (
            dir_of(path.as_str()),
            match file_name(path.as_str()) {
                Some(name) => name,
                None => path.clone(),
            },
        ),
        None => (".".to_owned(), "Beamfile".to_owned()),
    };
    Err(
        text5(
            "no Beamfile found in ",
            absolute_or(dir, cwd).as_str(),
            " (searched ",
            name.as_str(),
            ")",
        ),
    )
}

/// What to do before anything is loaded.
#[derive(Debug, PartialEq, Eq)]
pub enum Opening {
    /// Drive a plugin, which takes no Beamfile.
    CheckPlugin,
    /// Manage the cache, which takes the Beamfile's place and not its content.
    Cache(CacheCommand),
    /// Manage the repository's hooks, which takes no Beamfile either.
    Hooks(HooksCommand),
    /// Load the Beamfile.
    Load,
}

/// What to do before anything is loaded: a Beamfile that does not even load
/// must not stand in the way of cleaning the cache next to it.
pub fn opening(command: &Option<Command>) -> (r: Opening)
    ensures
        match *command {
            Some(Command::Plugin(_)) => r == Opening::CheckPlugin,
            Some(Command::Cache(c)) => r == Opening::Cache(c),
            Some(Command::Hooks(c)) => r == Opening::Hooks(c),
            _ => r == Opening::Load,
        },
{
    match command {
        Some(Command::Plugin(_)) => Opening::CheckPlugin,
        Some(Command::Cache(c)) => Opening::Cache(*c),
        Some(Command::Hooks(c)) => Opening::Hooks(*c),
        _ => Opening::Load,
    }
}

/// What to do with a loaded project.
#[derive(Debug, PartialEq, Eq)]
pub enum Task {
    Check,
    List,
    Run { selection: Selection, params: Vec<String>, flags: RunFlags },
    Affected { reference: String, log_format: LogFormat },
    /// The hook is not declared: there is nothing to do and nothing to say.
    Undeclared,
    /// There is no beam to run: none was named, and there is no default.
    NothingToRun,
    /// Nothing that takes a project.
    Elsewhere,
}

/// A run of one beam.
pub open spec fn runs_beam(
    task: Task,
    name: Seq<char>,
    params: Seq<Seq<char>>,
    flags: RunFlags,
) -> bool {
    task matches Task::Run { selection, params: p, flags: f } && (selection matches Selection::Beam(
        b,
    ) && b@ == name) && views(p@) == params && f == flags
}

/// The flags of a run that was asked for without any.
pub open spec fn plain_flags() -> RunFlags {
    RunFlags {
        jobs: None,
        keep_going: false,
        force: false,
        output: None,
        log_format: LogFormat::Text,
        watch: false,
        ui: false,
        no_ui: false,
    }
}

/// The first hook called `name`.
pub open spec fn hook_place(hooks: Seq<HookView>, name: Seq<char>) -> Option<int>
    decreases hooks.len(),
{
    if hooks.len() == 0 {
        None
    } else {
        match hook_place(hooks.drop_last(), name) {
            Some(i) => Some(i),
            None => if hooks.last().name.0 == name {
                Some(hooks.len() - 1)
            } else {
                None
            },
        }
    }
}

/// The task that a command line sets for a project. A run of what changed is
/// not narrowed to the default beam. A hook runs its beam with what git hands
/// it as arguments, and never takes over the terminal.
pub open spec fn is_task(command: Option<Command>, project: ProjectView, task: Task) -> bool {
    let default = match project.default {
        Some(d) => Some(d.0),
        None => None,
    };
    match command {
        Some(Command::Check) => task is Check,
        Some(Command::Run { beam, params, affected, flags }) => match affected {
            Some(since) => task matches Task::Run { selection, params: p, flags: f } && (
            selection matches Selection::Affected { reference, within } && reference@ == since@ && (
            match within {
                Some(id) => opt_view(beam) == Some(id@),
                None => beam is None,
            })) && views(p@) == views(params@) && f == flags,
            None => {
                let target = match beam {
                    Some(name) => Some(name@),
                    None => default,
                };
                match target {
                    Some(name) => runs_beam(task, name, views(params@), flags),
                    None => task is NothingToRun,
                }
            },
        },
        Some(Command::Affected { reference, log_format }) => task matches Task::Affected {
            reference: r,
            log_format: f,
        } && r@ == reference@ && f == log_format,
        Some(Command::Hook { name, args }) => match hook_place(project.hooks, name@) {
            Some(i) => runs_beam(
                task,
                project.hooks[i].beam.0,
                views(args@),
                RunFlags { no_ui: true, ..plain_flags() },
            ),
            None => task is Undeclared,
        },
        None => match default {
            Some(name) => runs_beam(task, name, Seq::empty(), plain_flags()),
            None => task is List,
        },
        Some(Command::Cache(_)) | Some(Command::Plugin(_)) | Some(Command::Hooks(_)) =>
            task is Elsewhere,
    }
}

proof fn hook_place_early(hooks: Seq<HookView>, name: Seq<char>, n: int)
    requires
        0 <= n <= hooks.len(),
        hook_place(hooks.take(n), name) is Some,
    ensures
        hook_place(hooks, name) == hook_place(hooks.take(n), name),
    decreases hooks.len() - n,
{
    if n == hooks.len() {
        assert(hooks.take(n) == hooks);
    } else {
        assert(hooks.take(n + 1).drop_last() == hooks.take(n));
        hook_place_early(hooks, name, n + 1);
    }
}

fn find_hook(project: &Project, name: &str) -> (r: Option<usize>)
    ensures
        match r {
            Some(i) => i < project.hooks@.len() && hook_place(project@.hooks, name@) == Some(
                i as int,
            ),
            None => hook_place(project@.hooks, name@) is None,
        },
{
    let ghost all = project@.hooks;
    let mut i: usize = 0;
    assert(hook_place(all.take(0), name@) is None);
    while i < project.hooks.len()
        invariant
            all == project@.hooks,
            all.len() == project.hooks@.len(),
            i <= project.hooks@.len(),
            hook_place(all.take(i as int), name@) is None,
        decreases project.hooks.len() - i,
    {
        proof {
            assert(all.take(i + 1).drop_last() =~= all.take(i as int));
            assert(all.take(i + 1).last() == project.hooks@[i as int]@);
        }
        if same_text(project.hooks[i].name.value.as_str(), name) {
            proof {
                hook_place_early(all, name@, i + 1);
            }
            return Some(i);
        }
        i += 1;
    }
    assert(all.take(all.len() as int) =~= all);
    None
}

/// What is said where there is no beam to run.
pub open spec fn no_beam_to_run() -> EndingView {
    EndingView {
        lines: seq!["no beam to run: name one, or declare a `default`"@],
        code: EXIT_ALBA_ERROR,
    }
}

/// How a run ends that has no beam to run.
pub fn nothing_to_run() -> (r: Ending)
    ensures
        r@ == no_beam_to_run(),
{
    let mut lines: Vec<String> = Vec::new();
    lines.push("no beam to run: name one, or declare a `default`".to_owned());
    assert(views(lines@) =~= no_beam_to_run().lines);
    Ending { lines, code: EXIT_ALBA_ERROR }
}

/// What to do with a loaded project. Without a command its default beam is
/// run, or its beams listed.
pub fn task(command: &Option<Command>, project: &Project) -> (r: Task)
    ensures
        is_task(*command, project@, r),
{
    match command {
        Some(Command::Check) => Task::Check,
        Some(Command::Run { beam, params, affected, flags }) => match affected {
            Some(since) => Task::Run {
                selection: Selection::Affected {
                    reference: since.clone(),
                    within: match beam {
                        Some(name) => Some(BeamId(name.clone())),
                        None => None,
                    },
                },
                params: copy_strings(params),
                flags: *flags,
            },
            None => match beam {
                Some(name) => Task::Run {
                    selection: Selection::Beam(BeamId(name.clone())),
                    params: copy_strings(params),
                    flags: *flags,
                },
                None => match &project.default {
                    Some(id) => Task::Run {
                        selection: Selection::Beam(id.value.clone()),
                        params: copy_strings(params),
                        flags: *flags,
                    },
                    None => Task::NothingToRun,
                },
            },
        },
        Some(Command::Affected { reference, log_format }) => Task::Affected {
            reference: reference.clone(),
            log_format: *log_format,
        },
        Some(Command::Hook { name, args }) => match find_hook(project, name.as_str()) {
            Some(i) => {
                assert(project@.hooks[i as int] == project.hooks@[i as int]@);
                let plain = RunFlags::default();
                Task::Run {
                    selection: Selection::Beam(project.hooks[i].beam.value.clone()),
                    params: copy_strings(args),
                    flags: RunFlags { no_ui: true, ..plain },
                }
            },
            None => Task::Undeclared,
        },
        None => match &project.default {
            Some(id) => {
                let params: Vec<String> = Vec::new();
                assert(views(params@) =~= Seq::<Seq<char>>::empty());
                Task::Run {
                    selection: Selection::Beam(id.value.clone()),
                    params,
                    flags: RunFlags::default(),
                }
            },
            None => Task::List,
        },
        Some(Command::Cache(_)) | Some(Command::Plugin(_)) | Some(Command::Hooks(_)) =>
            Task::Elsewhere,
    }
}

/// Whether a command has nothing to do, and nothing to say, where there is no
/// Beamfile: git runs every hook that is installed, whatever it finds. A
/// Beamfile that was asked for by its path has to be there.
pub fn may_lack_a_beamfile(command: &Option<Command>, file: &Option<String>) -> (r: bool)
    ensures
        r == (*command matches Some(Command::Hook { .. }) && *file is None),
{
    match command {
        Some(Command::Hook { .. }) => file.is_none(),
        _ => false,
    }
}

/// How removing a directory went.
#[derive(Debug, PartialEq, Eq)]
pub enum Removal {
    Removed,
    /// There was none.
    Missing,
    Failed(String),
}

/// What a cache command says and ends with: a cache that is not there is as
/// good as one that was removed.
pub open spec fn cache_ending(beamfile: Seq<char>, removal: Removal) -> EndingView {
    match removal {
        Removal::Removed | Removal::Missing => EndingView { lines: Seq::empty(), code: 0 },
        Removal::Failed(error) => EndingView {
            lines: seq![
                "cannot clean the cache at "@ + cache_directory(beamfile) + ": "@ + error@,
            ],
            code: EXIT_ALBA_ERROR,
        },
    }
}

/// Ends a cache command, from how removing the project's cache directory went.
pub fn run(beamfile: &str, command: &CacheCommand, removal: &Removal) -> (r: Ending)
    ensures
        r@ == cache_ending(beamfile@, *removal),
{
    match command {
        CacheCommand::Clean => clean(beamfile, removal),
    }
}

fn clean(beamfile: &str, removal: &Removal) -> (r: Ending)
    ensures
        r@ == cache_ending(beamfile@, *removal),
{
    match removal {
        Removal::Removed | Removal::Missing => crate::exit::silent(0),
        Removal::Failed(error) => {
            let mut line = text3("cannot clean the cache at ", cache_dir(beamfile).as_str(), ": ");
            line.append(error.as_str());
            crate::exit::with_line(line, EXIT_ALBA_ERROR)
        },
    }
}

/// What is printed, and the code to exit with.
pub struct Report {
    pub prints: Vec<Print>,
    pub code: i32,
}

pub struct ReportView {
    pub prints: Seq<PrintView>,
    pub code: i32,
}

impl View for Report {
    type V = ReportView;

    open spec fn view(&self) -> ReportView {
        ReportView { prints: print_views(self.prints@), code: self.code }
    }
}

/// The commands among a beam's first `n` that render without arguments.
pub open spec fn rendering(beam: BeamView, n: int, env: Environment) -> Seq<(Seq<char>, Seq<char>)>
    decreases n,
{
    if n <= 0 {
        Seq::empty()
    } else {
        let before = rendering(beam, n - 1, env);
        let template = beam.run[n - 1];
        match text_of(template.parts@, template.span, beam.scope, env) {
            Ok(command) => before.push((beam.id, command)),
            Err(_) => before,
        }
    }
}

/// The commands of the first `n` beams that the embedded shell is to run and
/// that are known without arguments, each with its beam.
pub open spec fn embedded(beams: Seq<BeamView>, n: int, env: Environment) -> Seq<
    (Seq<char>, Seq<char>),
>
    decreases n,
{
    if n <= 0 {
        Seq::empty()
    } else {
        let before = embedded(beams, n - 1, env);
        let beam = beams[n - 1];
        if beam.executor is Shell && beam.params.len() == 0 {
            before + rendering(beam, beam.run.len() as int, env)
        } else {
            before
        }
    }
}

/// The commands that can be checked before a run: those of beams without
/// parameters on the embedded shell, as far as they render. Each comes with
/// its beam.
pub fn embedded_commands(project: &Project, env: &Environment) -> (r: Vec<(String, String)>)
    ensures
        pair_views(r@) == embedded(project@.beams, project@.beams.len() as int, *env),
{
    let mut out: Vec<(String, String)> = Vec::new();
    let mut i: usize = 0;
    assert(pair_views(out@) =~= Seq::<(Seq<char>, Seq<char>)>::empty());
    while i < project.beams.len()
        invariant
            i <= project.beams@.len(),
            pair_views(out@) == embedded(project@.beams, i as int, *env),
        decreases project.beams.len() - i,
    {
        let beam = &project.beams[i];
        assert(project@.beams[i as int] == beam@);
        assert(beam@.params.len() == beam.params@.len());
        let shell = match beam.executor {
            ExecutorKind::Shell => true,
            _ => false,
        };
        if shell && beam.params.len() == 0 {
            let ghost before = pair_views(out@);
            let mut j: usize = 0;
            assert(pair_views(out@) =~= before + rendering(beam@, 0, *env));
            while j < beam.run.len()
                invariant
                    j <= beam.run@.len(),
                    pair_views(out@) == before + rendering(beam@, j as int, *env),
                decreases beam.run.len() - j,
            {
                assert(beam@.run[j as int] == beam.run@[j as int]);
                match render_template(&beam.run[j], &beam.scope, env) {
                    Ok(command) => {
                        let ghost so_far = pair_views(out@);
                        out.push((beam.id.0.clone(), command));
                        assert(pair_views(out@) =~= so_far.push((beam@.id, command@)));
                        assert(pair_views(out@) =~= before + rendering(beam@, j + 1, *env));
                    },
                    Err(_) => {},
                }
                j += 1;
            }
        }
        i += 1;
    }
    out
}

/// What is said of a command that the embedded shell cannot read.
pub open spec fn problem_prints(problem: (Seq<char>, Seq<char>)) -> Seq<PrintView> {
    let said = lines_of(problem.1);
    seq![PrintView::Stderr("beam `"@ + problem.0 + "`: invalid embedded shell command"@)]
        + Seq::new(said.len(), |i: int| PrintView::Stderr(said[i]))
}

pub open spec fn all_problems(problems: Seq<(Seq<char>, Seq<char>)>) -> Seq<PrintView>
    decreases problems.len(),
{
    if problems.len() == 0 {
        Seq::empty()
    } else {
        all_problems(problems.drop_last()) + problem_prints(problems.last())
    }
}

pub open spec fn beams_noun(count: nat) -> Seq<char> {
    if count == 1 {
        "beam"@
    } else {
        "beams"@
    }
}

pub open spec fn hooks_counted(count: nat) -> Seq<char> {
    decimal(count) + (if count == 1 {
        " hook"@
    } else {
        " hooks"@
    })
}

/// What a checked project holds: its beams, and its hooks where it declares
/// any.
pub open spec fn checked_line(beams: nat, hooks: nat) -> Seq<char> {
    let counted = "\u{2713} Beamfile: "@ + decimal(beams) + " "@ + beams_noun(beams);
    if hooks == 0 {
        counted
    } else {
        counted + ", "@ + hooks_counted(hooks)
    }
}

/// What checking a project says. Hooks that are declared and that git does
/// not run are warned about.
pub open spec fn check_view(
    project: ProjectView,
    problems: Seq<(Seq<char>, Seq<char>)>,
    installed: bool,
) -> ReportView {
    let beams = project.beams.len();
    let hooks = project.hooks.len();
    if problems.len() == 0 {
        ReportView {
            prints: seq![PrintView::Stdout(checked_line(beams, hooks))] + (if hooks > 0
                && !installed {
                seq![
                    PrintView::Stderr(hooks_counted(hooks) + " declared, run 'alba hooks install'"@),
                ]
            } else {
                Seq::empty()
            }),
            code: 0,
        }
    } else {
        ReportView { prints: all_problems(problems), code: EXIT_ALBA_ERROR }
    }
}

fn count_hooks(count: usize) -> (r: String)
    ensures
        r@ == hooks_counted(count as nat),
{
    text2(
        decimal_text(count as u64).as_str(),
        if count == 1 {
            " hook"
        } else {
            " hooks"
        },
    )
}

/// What checking a loaded project says. `problems` holds, for each command
/// that the embedded shell cannot read, its beam and the diagnostic;
/// `hooks_path` is what git answered about the repository's hooks path.
pub fn check_report(
    project: &Project,
    problems: &Vec<(String, String)>,
    hooks_path: &Result<Option<String>, GitError>,
) -> (r: Report)
    ensures
        r@ == check_view(project@, pair_views(problems@), hooks_installed(*hooks_path)),
{
    let ghost all = pair_views(problems@);
    let mut prints: Vec<Print> = Vec::new();
    if problems.len() == 0 {
        let count: usize = project.beams.len();
        let noun = if count == 1 {
            "beam"
        } else {
            "beams"
        };
        let mut line = text3("\u{2713} Beamfile: ", decimal_text(count as u64).as_str(), " ");
        line.append(noun);
        let hooks: usize = project.hooks.len();
        if hooks > 0 {
            line.append(", ");
            line.append(count_hooks(hooks).as_str());
        }
        assert(line@ =~= checked_line(project@.beams.len(), project@.hooks.len()));
        prints.push(Print::Stdout(line));
        if hooks > 0 && !are_installed(hooks_path) {
            prints.push(
                Print::Stderr(
                    text2(count_hooks(hooks).as_str(), " declared, run 'alba hooks install'"),
                ),
            );
        }
        assert(print_views(prints@) =~= check_view(
            project@,
            all,
            hooks_installed(*hooks_path),
        ).prints);
        return Report { prints, code: 0 };
    }
    let mut i: usize = 0;
    assert(print_views(prints@) =~= all_problems(all.take(0)));
    while i < problems.len()
        invariant
            i <= problems@.len(),
            all == pair_views(problems@),
            print_views(prints@) == all_problems(all.take(i as int)),
        decreases problems.len() - i,
    {
        assert(all.take(i + 1).drop_last() =~= all.take(i as int));
        assert(all.take(i + 1).last() == (problems@[i as int].0@, problems@[i as int].1@));
        let (beam, diagnostic) = &problems[i];
        let ghost start = print_views(prints@);
        prints.push(
            Print::Stderr(text3("beam `", beam.as_str(), "`: invalid embedded shell command")),
        );
        let ghost head = print_views(prints@);
        let said = lines(diagnostic.as_str());
        let ghost rest = Seq::new(
            lines_of(diagnostic@).len(),
            |i: int| PrintView::Stderr(lines_of(diagnostic@)[i]),
        );
        assert(head + rest =~= start + problem_prints(all[i as int]));
        assert(said@.len() == views(said@).len());
        let mut j: usize = 0;
        assert(print_views(prints@) =~= head + rest.take(0));
        while j < said.len()
            invariant
                j <= said@.len(),
                said@.len() == rest.len(),
                forall|k: int|
                    0 <= k < rest.len() ==> #[trigger] rest[k] == PrintView::Stderr(said@[k]@),
                print_views(prints@) == head + rest.take(j as int),
            decreases said.len() - j,
        {
            let ghost before = print_views(prints@);
            prints.push(Print::Stderr(said[j].clone()));
            assert(print_views(prints@) =~= before.push(rest[j as int]));
            assert(rest.take(j + 1) =~= rest.take(j as int).push(rest[j as int]));
            assert(print_views(prints@) =~= head + rest.take(j + 1));
            j += 1;
        }
        assert(rest.take(rest.len() as int) =~= rest);
        i += 1;
    }
    assert(all.take(all.len() as int) =~= all);
    Report { prints, code: EXIT_ALBA_ERROR }
}

/// A beam's line in the list: its id and its description, or that it has
/// none.
pub open spec fn list_line(beam: BeamView, color: bool) -> Seq<char> {
    beam.id + "    "@ + (match beam.description {
        Some(description) => description,
        None => if color {
            dim_text("(no description)"@)
        } else {
            "(no description)"@
        },
    })
}

/// A beam's line with what it is ordered by.
struct Entry {
    id: String,
    place: usize,
    line: String,
}

impl Ordered for Entry {
    closed spec fn before(&self, other: &Self) -> bool {
        text_lt(self.id@, other.id@) || (self.id@ == other.id@ && self.place < other.place)
    }

    proof fn before_irreflexive(&self) {
        text_lt_irreflexive(self.id@);
    }

    proof fn before_transitive(&self, b: &Self, c: &Self) {
        if text_lt(self.id@, b.id@) && text_lt(b.id@, c.id@) {
            text_lt_transitive(self.id@, b.id@, c.id@);
        }
    }

    proof fn not_before_transitive(&self, b: &Self, c: &Self) {
        text_lt_total(self.id@, b.id@);
        text_lt_total(b.id@, c.id@);
        if self.before(c) {
            if b.before(self) {
                b.before_transitive(self, c);
            }
        }
    }

    fn is_before(&self, other: &Self) -> (r: bool) {
        comes_before(self.id.as_str(), other.id.as_str()) || (same_text(
            self.id.as_str(),
            other.id.as_str(),
        ) && self.place < other.place)
    }
}

/// `order` holds every place below `n` once.
pub open spec fn is_order(order: Seq<int>, n: nat) -> bool {
    &&& order.len() == n
    &&& order.no_duplicates()
    &&& forall|k: int| 0 <= k < n ==> 0 <= #[trigger] order[k] < n
}

/// `order` takes beams by their ids, those of one id as they come.
pub open spec fn by_id(beams: Seq<BeamView>, order: Seq<int>) -> bool {
    forall|a: int, b: int|
        #![trigger order[a], order[b]]
        0 <= a < b < order.len() ==> text_lt(beams[order[a]].id, beams[order[b]].id) || (
        beams[order[a]].id == beams[order[b]].id && order[a] < order[b])
}

/// `lines` are those of the beams in the order of their ids.
pub open spec fn is_list(beams: Seq<BeamView>, color: bool, lines: Seq<Seq<char>>) -> bool {
    exists|order: Seq<int>|
        {
            &&& #[trigger] is_order(order, beams.len())
            &&& by_id(beams, order)
            &&& lines == Seq::new(order.len(), |k: int| list_line(beams[order[k]], color))
        }
}

spec fn entered(beams: Seq<BeamView>, color: bool, e: Entry) -> bool {
    e.place < beams.len() && e.id@ == beams[e.place as int].id && e.line@ == list_line(
        beams[e.place as int],
        color,
    )
}

/// The beams of a project, one a line, in the order of their ids.
pub fn list(project: &Project, color: bool) -> (r: Vec<String>)
    ensures
        is_list(project@.beams, color, views(r@)),
{
    let ghost beams = project@.beams;
    let mut entries: Vec<Entry> = Vec::new();
    let mut i: usize = 0;
    while i < project.beams.len()
        invariant
            i <= project.beams@.len(),
            beams == project@.beams,
            entries@.len() == i,
            forall|k: int| 0 <= k < i ==> entered(beams, color, #[trigger] entries@[k]),
            forall|k: int| 0 <= k < i ==> (#[trigger] entries@[k]).place == k,
        decreases project.beams.len() - i,
    {
        let beam = &project.beams[i];
        assert(beams[i as int] == beam@);
        let line = match &beam.description {
            Some(description) => text3(beam.id.0.as_str(), "    ", description.as_str()),
            None => text3(beam.id.0.as_str(), "    ", dimmed("(no description)", color).as_str()),
        };
        entries.push(Entry { id: beam.id.0.clone(), place: i, line });
        i += 1;
    }
    let ghost unsorted = entries@;
    let entries = sort(entries);
    let ghost order = Seq::new(entries@.len(), |k: int| entries@[k].place as int);
    proof {
        ordered(beams, color, unsorted, entries@);
        assert forall|a: int, b: int|
            #![trigger order[a], order[b]]
            0 <= a < b < order.len() implies text_lt(beams[order[a]].id, beams[order[b]].id) || (
        beams[order[a]].id == beams[order[b]].id && order[a] < order[b]) by {
            let x = entries@[a];
            let y = entries@[b];
            assert(entered(beams, color, x) && entered(beams, color, y));
            assert(!y.before(&x));
            text_lt_total(x.id@, y.id@);
            assert(x.place != y.place);
        }
        assert(order.no_duplicates()) by {
            assert forall|a: int, b: int|
                0 <= a < order.len() && 0 <= b < order.len() && a != b implies order[a]
                != order[b] by {
                assert(entries@[a].place != entries@[b].place);
            }
        }
        assert(is_order(order, beams.len())) by {
            assert forall|k: int| 0 <= k < order.len() implies 0 <= #[trigger] order[k]
                < beams.len() by {
                assert(entered(beams, color, entries@[k]));
            }
        }
    }
    let mut out: Vec<String> = Vec::new();
    let mut i: usize = 0;
    while i < entries.len()
        invariant
            i <= entries@.len(),
            out@.len() == i,
            forall|k: int| 0 <= k < i ==> (#[trigger] out@[k])@ == entries@[k].line@,
        decreases entries.len() - i,
    {
        out.push(entries[i].line.clone());
        i += 1;
    }
    proof {
        let lines = Seq::new(order.len(), |k: int| list_line(beams[order[k]], color));
        assert(views(out@) =~= lines) by {
            assert forall|k: int| 0 <= k < lines.len() implies views(out@)[k] == lines[k] by {
                assert(entered(beams, color, entries@[k]));
            }
        }
    }
    out
}

proof fn ordered(beams: Seq<BeamView>, color: bool, unsorted: Seq<Entry>, entries: Seq<Entry>)
    requires
        unsorted.len() == beams.len(),
        entries.len() == unsorted.len(),
        entries.to_multiset() == unsorted.to_multiset(),
        forall|k: int| 0 <= k < unsorted.len() ==> entered(beams, color, #[trigger] unsorted[k]),
        forall|k: int| 0 <= k < unsorted.len() ==> (#[trigger] unsorted[k]).place == k,
    ensures
        forall|k: int| 0 <= k < entries.len() ==> entered(beams, color, #[trigger] entries[k]),
        forall|a: int, b: int|
            #![trigger entries[a], entries[b]]
            0 <= a < entries.len() && 0 <= b < entries.len() && a != b ==> entries[a].place
                != entries[b].place,
{
    entries.to_multiset_ensures();
    unsorted.to_multiset_ensures();
    assert forall|k: int| 0 <= k < entries.len() implies entered(beams, color, #[trigger] entries[k])
        && entries[k] == unsorted[entries[k].place as int] by {
        assert(entries.contains(entries[k]));
        assert(unsorted.to_multiset().count(entries[k]) > 0);
        assert(unsorted.contains(entries[k]));
        let m = choose|m: int| 0 <= m < unsorted.len() && unsorted[m] == entries[k];
    }
    assert forall|a: int, b: int|
        #![trigger entries[a], entries[b]]
        0 <= a < entries.len() && 0 <= b < entries.len() && a != b implies entries[a].place
        != entries[b].place by {
        if entries[a].place == entries[b].place {
            assert(entries[a] == entries[b]);
            once(unsorted);
            unsorted.lemma_multiset_has_no_duplicates();
            assert(entries.to_multiset().count(entries[a]) <= 1);
            entries.lemma_multiset_has_no_duplicates_conv();
            assert(entries.no_duplicates());
        }
    }
}

proof fn once(unsorted: Seq<Entry>)
    requires
        forall|k: int| 0 <= k < unsorted.len() ==> (#[trigger] unsorted[k]).place == k,
    ensures
        unsorted.no_duplicates(),
{
    assert forall|a: int, b: int|
        0 <= a < unsorted.len() && 0 <= b < unsorted.len() && a != b implies unsorted[a]
        != unsorted[b] by {
        assert(unsorted[a].place == a && unsorted[b].place == b);
    }
}

/// An affected beam's line: its id, marked where it cannot run without
/// arguments.
pub open spec fn affected_line(p: ProjectView, id: Seq<char>) -> Seq<char> {
    match place_of(p.beams, id) {
        Some(i) => if p.beams[i].params.len() > 0 {
            id + " (takes parameters)"@
        } else {
            id
        },
        None => id,
    }
}

/// The affected beams, one a line.
pub fn affected_listing(project: &Project, ids: &Vec<BeamId>) -> (r: Vec<String>)
    ensures
        views(r@) == Seq::new(ids@.len(), |i: int| affected_line(project@, ids@[i]@)),
{
    let mut out: Vec<String> = Vec::new();
    let mut i: usize = 0;
    while i < ids.len()
        invariant
            i <= ids@.len(),
            out@.len() == i,
            forall|k: int|
                0 <= k < i ==> (#[trigger] out@[k])@ == affected_line(project@, ids@[k]@),
        decreases ids.len() - i,
    {
        let name = ids[i].0.as_str();
        let line = match index_of(project, name) {
            Some(place) => {
                proof {
                    crate::graph::place_of_is_last(project@.beams, name@);
                }
                assert(project@.beams[place as int] == project.beams@[place as int]@);
                if project.beams[place].params.len() > 0 {
                    text2(name, " (takes parameters)")
                } else {
                    name.to_owned()
                }
            },
            None => name.to_owned(),
        };
        out.push(line);
        i += 1;
    }
    assert(views(out@) =~= Seq::new(ids@.len(), |i: int| affected_line(project@, ids@[i]@)));
    out
}

/// The affected beams for other programs to read.
pub fn affected_json(ids: &Vec<BeamId>) -> (r: String)
    ensures
        r@ == "{\"beams\":"@ + json_array(id_views(ids@)) + "}"@,
{
    text3("{\"beams\":", json_ids(ids).as_str(), "}")
}

/// What listing the affected beams says.
pub open spec fn affected_view(
    project: ProjectView,
    affected: Result<Vec<BeamId>, GitError>,
    log_format: LogFormat,
) -> ReportView {
    match affected {
        Ok(ids) => ReportView {
            prints: match log_format {
                LogFormat::Text => Seq::new(
                    ids@.len(),
                    |i: int| PrintView::Stdout(affected_line(project, ids@[i]@)),
                ),
                LogFormat::Json => seq![
                    PrintView::Stdout("{\"beams\":"@ + json_array(id_views(ids@)) + "}"@),
                ],
            },
            code: 0,
        },
        Err(error) => ReportView { prints: seq![PrintView::Stderr(error@)], code: EXIT_ALBA_ERROR },
    }
}

/// Lists the affected beams, or says why git could not tell what changed.
pub fn affected_report(
    project: &Project,
    affected: &Result<Vec<BeamId>, GitError>,
    log_format: LogFormat,
) -> (r: Report)
    ensures
        r@ == affected_view(project@, *affected, log_format),
{
    let mut prints: Vec<Print> = Vec::new();
    match affected {
        Ok(ids) => {
            match log_format {
                LogFormat::Text => {
                    let said = affected_listing(project, ids);
                    let ghost all = affected_view(project@, *affected, log_format).prints;
                    let mut i: usize = 0;
                    assert(views(said@).len() == said@.len());
                    while i < said.len()
                        invariant
                            i <= said@.len(),
                            said@.len() == all.len(),
                            prints@.len() == i,
                            views(said@) == Seq::new(
                                ids@.len(),
                                |i: int| affected_line(project@, ids@[i]@),
                            ),
                            all == Seq::new(
                                ids@.len(),
                                |i: int| PrintView::Stdout(affected_line(project@, ids@[i]@)),
                            ),
                            forall|k: int| 0 <= k < i ==> (#[trigger] prints@[k])@ == all[k],
                        decreases said.len() - i,
                    {
                        assert(views(said@)[i as int] == said@[i as int]@);
                        prints.push(Print::Stdout(said[i].clone()));
                        i += 1;
                    }
                    assert(print_views(prints@) =~= all);
                },
                LogFormat::Json => {
                    prints.push(Print::Stdout(affected_json(ids)));
                    assert(print_views(prints@) =~= affected_view(
                        project@,
                        *affected,
                        log_format,
                    ).prints);
                },
            }
            Report { prints, code: 0 }
        },
        Err(error) => {
            prints.push(Print::Stderr(error.0.clone()));
            assert(print_views(prints@) =~= seq![PrintView::Stderr(error@)]);
            Report { prints, code: EXIT_ALBA_ERROR }
        },
    }
}

} // verus!
