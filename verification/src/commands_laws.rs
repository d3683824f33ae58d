//! What a command line does and says.

use vstd::prelude::*;
use crate::affected::Selection;
use crate::args::{Command, LogFormat, RunFlags};
use crate::commands::{
    affected_report, all_problems, beamfile_path, by_id, check_report, embedded, embedded_commands,
    hook_place, is_list, is_order, list, list_line, may_lack_a_beamfile, problem_prints, rendering,
    resolve_beamfile, run, task, Removal, Report, Task,
};
use crate::args::CacheCommand;
use crate::error::ErrorView;
use crate::eval::text_of;
use crate::exit::Ending;
use crate::git::{lines_of, GitError};
use crate::graph::place_of;
use crate::hooks::{are_installed, hook_script, hooks_dir, install, uninstall, HooksStep};
use crate::loader::pair_views;
use crate::model::{BeamId, BeamView, HookView, Project};
use crate::paths::{components, is_absolute, joined_path, parent_of};
use crate::paths_laws::{
    a_parent_lacks_the_last_component, an_absolute_path_is_seen_from_the_directory,
    a_name_is_a_path, joining_adds_components, names_are_components, names_of,
};
use crate::project_root::{beamfile_dir, cache_dir, dir_part};
use crate::render::{print_views, PrintView};
use crate::scope::Environment;
use crate::text::{text_lt_asymmetric, text_lt_irreflexive, decimal, text_lt, views};

verus! {

/// The task is to run the beam called `name`.
pub open spec fn is_run_of(r: Task, name: Seq<char>, params: Seq<Seq<char>>) -> bool {
    r matches Task::Run { selection, params: p, .. } && (selection matches Selection::Beam(id) && id@
        == name) && views(p@) == params
}

/// Without a command the default beam is run, as it is and with plain flags,
/// and where there is none the beams are listed.
pub proof fn no_command_runs_the_default(project: &Project, r: Task)
    requires
        call_ensures(task, (&None::<Command>, project), r),
    ensures
        project.default matches Some(d) ==> is_run_of(r, d.value@, Seq::empty()) && (
        r matches Task::Run { flags, .. } && flags.jobs is None && !flags.keep_going
            && !flags.force && !flags.watch && !flags.ui && !flags.no_ui && flags.output is None),
        project.default is None ==> r is List,
{
}

/// `run` runs the beam that it names, and the default beam where it names
/// none, with the arguments and flags that it was given; where there is
/// neither there is nothing to run. With a reference it runs what that
/// affects, within the beam that it names.
pub proof fn run_runs_what_it_names(
    beam: Option<String>,
    params: Vec<String>,
    affected: Option<String>,
    flags: RunFlags,
    project: &Project,
    r: Task,
)
    requires
        call_ensures(
            task,
            (&Some(Command::Run { beam, params, affected, flags }), project),
            r,
        ),
    ensures
        affected is None ==> (beam matches Some(name) ==> is_run_of(r, name@, views(params@))),
        affected is None && beam is None ==> (project.default matches Some(d) ==> is_run_of(
            r,
            d.value@,
            views(params@),
        )),
        affected is None && beam is None && project.default is None ==> r is NothingToRun,
        affected matches Some(since) ==> (r matches Task::Run { selection, params: p, .. } && (
        selection matches Selection::Affected { reference, within } && reference@ == since@ && (
        within is Some <==> beam is Some) && (within matches Some(id) ==> id@ == beam->Some_0@))
            && views(p@) == views(params@)),
        r matches Task::Run { flags: f, .. } ==> f == flags,
{
}

proof fn a_hook_is_first(hooks: Seq<HookView>, name: Seq<char>)
    ensures
        match hook_place(hooks, name) {
            Some(i) => 0 <= i < hooks.len() && hooks[i].name.0 == name && forall|j: int|
                0 <= j < i ==> (#[trigger] hooks[j]).name.0 != name,
            None => forall|j: int| 0 <= j < hooks.len() ==> (#[trigger] hooks[j]).name.0 != name,
        },
    decreases hooks.len(),
{
    if hooks.len() > 0 {
        let front = hooks.drop_last();
        a_hook_is_first(front, name);
        match hook_place(hooks, name) {
            Some(i) => {
                assert forall|j: int| 0 <= j < i implies (#[trigger] hooks[j]).name.0 != name by {
                    assert(front[j] == hooks[j]);
                }
            },
            None => {
                assert forall|j: int| 0 <= j < hooks.len() implies (#[trigger] hooks[j]).name.0
                    != name by {
                    if j < front.len() {
                        assert(front[j] == hooks[j]);
                    }
                }
            },
        }
    }
}

/// A hook runs the beam that the project declares for it, with what git gave
/// as its arguments and without the interface. A hook that is not declared
/// does nothing.
pub proof fn a_hook_runs_its_beam(name: String, args: Vec<String>, project: &Project, r: Task)
    requires
        call_ensures(task, (&Some(Command::Hook { name, args }), project), r),
    ensures
        forall|i: int|
            0 <= i < project.hooks@.len() && (#[trigger] project.hooks@[i]).name.value@ == name@ && (
            forall|j: int| 0 <= j < i ==> (#[trigger] project.hooks@[j]).name.value@ != name@)
                ==> is_run_of(r, project.hooks@[i].beam.value@, views(args@)) && (
            r matches Task::Run { flags, .. } && flags.no_ui && !flags.watch),
        (forall|i: int|
            0 <= i < project.hooks@.len() ==> (#[trigger] project.hooks@[i]).name.value@ != name@)
            ==> r is Undeclared,
{
    let hooks = project@.hooks;
    a_hook_is_first(hooks, name@);
    assert(hooks.len() == project.hooks@.len());
    assert forall|i: int| 0 <= i < hooks.len() implies hooks[i] == (#[trigger] project.hooks@[i])@ by {}
    if let Some(k) = hook_place(hooks, name@) {
        assert(project.hooks@[k].name.value@ == name@);
        assert forall|i: int|
            0 <= i < project.hooks@.len() && (#[trigger] project.hooks@[i]).name.value@ == name@ && (
            forall|j: int| 0 <= j < i ==> (#[trigger] project.hooks@[j]).name.value@ != name@) implies i
            == k by {
            if i < k {
                assert(hooks[i].name.0 != name@);
            }
        }
    } else {
        assert forall|i: int| 0 <= i < project.hooks@.len() implies (
        #[trigger] project.hooks@[i]).name.value@ != name@ by {
            assert(hooks[i].name.0 != name@);
        }
    }
}

/// The other commands are what they say.
pub proof fn other_commands_are_what_they_say(
    reference: String,
    log_format: LogFormat,
    project: &Project,
    r: Task,
    c: Task,
)
    requires
        call_ensures(task, (&Some(Command::Affected { reference, log_format }), project), r),
        call_ensures(task, (&Some(Command::Check), project), c),
    ensures
        r matches Task::Affected { reference: since, log_format: f } && since@ == reference@ && f
            == log_format,
        c is Check,
{
}

/// The Beamfile that is loaded is the one that was asked for, and
/// `Beamfile` where none was; it has to be there. Only a hook that names no
/// file may lack one.
pub proof fn a_beamfile_has_to_be_there(
    file: &Option<String>,
    found: bool,
    cwd: &Result<String, String>,
    path: String,
    r: Result<String, String>,
    command: &Option<Command>,
    lacks: bool,
)
    requires
        call_ensures(beamfile_path, (file,), path),
        call_ensures(resolve_beamfile, (file, found, cwd), r),
        call_ensures(may_lack_a_beamfile, (command, file), lacks),
    ensures
        r is Ok <==> found,
        r matches Ok(p) ==> p@ == path@,
        *file matches Some(p) ==> path@ == p@,
        *file is None ==> path@ == "Beamfile"@,
        lacks <==> *file is None && (*command matches Some(Command::Hook { .. })),
{
}

proof fn rendered_commands(beam: BeamView, n: int, env: Environment, id: Seq<char>, text: Seq<char>)
    requires
        0 <= n <= beam.run.len(),
    ensures
        rendering(beam, n, env).contains((id, text)) <==> id == beam.id && exists|k: int|
            0 <= k < n && text_of(
                (#[trigger] beam.run[k]).parts@,
                beam.run[k].span,
                beam.scope,
                env,
            ) == Ok::<Seq<char>, ErrorView>(text),
    decreases n,
{
    if n > 0 {
        rendered_commands(beam, n - 1, env, id, text);
        let before = rendering(beam, n - 1, env);
        let all = rendering(beam, n, env);
        if before.contains((id, text)) {
            let i = choose|i: int| 0 <= i < before.len() && before[i] == (id, text);
            assert(all[i] == (id, text));
        }
        if all.contains((id, text)) && !before.contains((id, text)) {
            let i = choose|i: int| 0 <= i < all.len() && all[i] == (id, text);
            if i < before.len() {
                assert(before[i] == (id, text));
            }
            assert(text_of(
                beam.run[n - 1].parts@,
                beam.run[n - 1].span,
                beam.scope,
                env,
            ) == Ok::<Seq<char>, ErrorView>(text));
        }
        if id == beam.id && text_of(
            beam.run[n - 1].parts@,
            beam.run[n - 1].span,
            beam.scope,
            env,
        ) == Ok::<Seq<char>, ErrorView>(text) {
            assert(all[before.len() as int] == (id, text));
        }
    }
}

/// A command of a beam that the embedded shell runs and that takes no
/// parameters.
pub open spec fn is_embedded(
    beams: Seq<BeamView>,
    n: int,
    env: Environment,
    id: Seq<char>,
    text: Seq<char>,
) -> bool {
    exists|i: int, k: int|
        0 <= i < n && (#[trigger] beams[i]).executor is Shell && beams[i].params.len() == 0
            && beams[i].id == id && 0 <= k < beams[i].run.len() && text_of(
            (#[trigger] beams[i].run[k]).parts@,
            beams[i].run[k].span,
            beams[i].scope,
            env,
        ) == Ok::<Seq<char>, ErrorView>(text)
}

proof fn embedded_holds(
    beams: Seq<BeamView>,
    n: int,
    env: Environment,
    id: Seq<char>,
    text: Seq<char>,
)
    requires
        0 <= n <= beams.len(),
    ensures
        embedded(beams, n, env).contains((id, text)) <==> is_embedded(beams, n, env, id, text),
    decreases n,
{
    if n > 0 {
        embedded_holds(beams, n - 1, env, id, text);
        let beam = beams[n - 1];
        let before = embedded(beams, n - 1, env);
        let own = rendering(beam, beam.run.len() as int, env);
        let all = embedded(beams, n, env);
        rendered_commands(beam, beam.run.len() as int, env, id, text);
        if is_embedded(beams, n - 1, env, id, text) {
            let (i, k) = choose|i: int, k: int|
                0 <= i < n - 1 && (#[trigger] beams[i]).executor is Shell && beams[i].params.len()
                    == 0 && beams[i].id == id && 0 <= k < beams[i].run.len() && text_of(
                    (#[trigger] beams[i].run[k]).parts@,
                    beams[i].run[k].span,
                    beams[i].scope,
                    env,
                ) == Ok::<Seq<char>, ErrorView>(text);
            assert(text_of(
                beams[i].run[k].parts@,
                beams[i].run[k].span,
                beams[i].scope,
                env,
            ) == Ok::<Seq<char>, ErrorView>(text));
            assert(is_embedded(beams, n, env, id, text));
        }
        if before.contains((id, text)) {
            let i = choose|i: int| 0 <= i < before.len() && before[i] == (id, text);
            assert(all[i] == (id, text));
        }
        if beam.executor is Shell && beam.params.len() == 0 {
            if own.contains((id, text)) {
                let i = choose|i: int| 0 <= i < own.len() && own[i] == (id, text);
                assert(all[before.len() + i] == (id, text));
                let k = choose|k: int|
                    0 <= k < beam.run.len() && text_of(
                        (#[trigger] beam.run[k]).parts@,
                        beam.run[k].span,
                        beam.scope,
                        env,
                    ) == Ok::<Seq<char>, ErrorView>(text);
                assert(text_of(
                    beams[n - 1].run[k].parts@,
                    beams[n - 1].run[k].span,
                    beams[n - 1].scope,
                    env,
                ) == Ok::<Seq<char>, ErrorView>(text));
                assert(is_embedded(beams, n, env, id, text));
            }
            if all.contains((id, text)) {
                let i = choose|i: int| 0 <= i < all.len() && all[i] == (id, text);
                if i < before.len() {
                    assert(before[i] == (id, text));
                } else {
                    assert(own[i - before.len()] == (id, text));
                }
            }
        }
        if is_embedded(beams, n, env, id, text) && !is_embedded(beams, n - 1, env, id, text) {
            let (i, k) = choose|i: int, k: int|
                0 <= i < n && (#[trigger] beams[i]).executor is Shell && beams[i].params.len() == 0
                    && beams[i].id == id && 0 <= k < beams[i].run.len() && text_of(
                    (#[trigger] beams[i].run[k]).parts@,
                    beams[i].run[k].span,
                    beams[i].scope,
                    env,
                ) == Ok::<Seq<char>, ErrorView>(text);
            if i < n - 1 {
                assert(text_of(
                    beams[i].run[k].parts@,
                    beams[i].run[k].span,
                    beams[i].scope,
                    env,
                ) == Ok::<Seq<char>, ErrorView>(text));
                assert(is_embedded(beams, n - 1, env, id, text));
            }
            assert(text_of(beam.run[k].parts@, beam.run[k].span, beam.scope, env) == Ok::<
                Seq<char>,
                ErrorView,
            >(text));
        }
    }
}

/// The commands that checking parses: every command of every beam that the
/// embedded shell runs and that takes no parameters, as far as it renders,
/// and no other.
pub proof fn every_embedded_command_is_checked(
    project: &Project,
    env: &Environment,
    r: Vec<(String, String)>,
    id: Seq<char>,
    text: Seq<char>,
)
    requires
        call_ensures(embedded_commands, (project, env), r),
    ensures
        pair_views(r@).contains((id, text)) <==> is_embedded(
            project@.beams,
            project@.beams.len() as int,
            *env,
            id,
            text,
        ),
{
    embedded_holds(project@.beams, project@.beams.len() as int, *env, id, text);
}

proof fn problems_are_told(problems: Seq<(Seq<char>, Seq<char>)>, k: int)
    requires
        0 <= k < problems.len(),
    ensures
        all_problems(problems).contains(
            PrintView::Stderr("beam `"@ + problems[k].0 + "`: invalid embedded shell command"@),
        ),
        forall|j: int|
            0 <= j < lines_of(problems[k].1).len() ==> all_problems(problems).contains(
                PrintView::Stderr(#[trigger] lines_of(problems[k].1)[j]),
            ),
    decreases problems.len(),
{
    let front = problems.drop_last();
    let before = all_problems(front);
    let own = problem_prints(problems.last());
    let all = all_problems(problems);
    assert(all == before + own);
    if k < front.len() {
        problems_are_told(front, k);
        assert(front[k] == problems[k]);
        kept_in_front(before, own);
    } else {
        let said = lines_of(problems[k].1);
        assert(all[before.len() as int] == own[0]);
        assert forall|j: int| 0 <= j < said.len() implies all.contains(
            PrintView::Stderr(#[trigger] said[j]),
        ) by {
            assert(own[1 + j] == PrintView::Stderr(said[j]));
            assert(all[before.len() + 1 + j] == own[1 + j]);
        }
    }
}

proof fn kept_in_front(a: Seq<PrintView>, b: Seq<PrintView>)
    ensures
        forall|x: PrintView| #[trigger] a.contains(x) ==> (a + b).contains(x),
{
    assert forall|x: PrintView| #[trigger] a.contains(x) implies (a + b).contains(x) by {
        let i = choose|i: int| 0 <= i < a.len() && a[i] == x;
        assert((a + b)[i] == x);
    }
}

/// A project passes its check exactly where no command is a problem. It is
/// then said how many beams it has, and how many hooks where it has any; and
/// that hooks are not installed where they are declared and git's hooks path
/// is not theirs. A problem is told with its beam and every line of what is
/// wrong.
pub proof fn a_check_tells_what_it_found(
    project: &Project,
    problems: &Vec<(String, String)>,
    hooks_path: &Result<Option<String>, GitError>,
    r: Report,
)
    requires
        call_ensures(check_report, (project, problems, hooks_path), r),
    ensures
        r.code == 0 <==> problems@.len() == 0,
        problems@.len() > 0 ==> r.code == 2,
        problems@.len() == 0 ==> {
            let beams = project@.beams.len();
            let hooks = project@.hooks.len();
            let installed = *hooks_path matches Ok(Some(dir)) && dir@ == ".alba/hooks"@;
            let told = print_views(r.prints@);
            &&& hooks == 0 ==> told[0] == PrintView::Stdout(
                "\u{2713} Beamfile: "@ + decimal(beams) + " "@ + (if beams == 1 {
                    "beam"@
                } else {
                    "beams"@
                }),
            )
            &&& hooks > 0 ==> told[0] == PrintView::Stdout(
                "\u{2713} Beamfile: "@ + decimal(beams) + " "@ + (if beams == 1 {
                    "beam"@
                } else {
                    "beams"@
                }) + ", "@ + (decimal(hooks) + (if hooks == 1 {
                    " hook"@
                } else {
                    " hooks"@
                })),
            )
            &&& told.len() == 1 <==> hooks == 0 || installed
            &&& told.len() <= 2
            &&& hooks > 0 && !installed ==> (told[1] matches PrintView::Stderr(_))
        },
        forall|k: int|
            0 <= k < problems@.len() ==> print_views(r.prints@).contains(
                PrintView::Stderr(
                    "beam `"@ + (#[trigger] problems@[k]).0@ + "`: invalid embedded shell command"@,
                ),
            ) && forall|j: int|
                0 <= j < lines_of(problems@[k].1@).len() ==> print_views(r.prints@).contains(
                    PrintView::Stderr(#[trigger] lines_of(problems@[k].1@)[j]),
                ),
{
    let all = pair_views(problems@);
    assert(all.len() == problems@.len());
    assert(r@.prints == print_views(r.prints@));
    assert forall|k: int| 0 <= k < problems@.len() implies print_views(r.prints@).contains(
        PrintView::Stderr(
            "beam `"@ + (#[trigger] problems@[k]).0@ + "`: invalid embedded shell command"@,
        ),
    ) && forall|j: int|
        0 <= j < lines_of(problems@[k].1@).len() ==> print_views(r.prints@).contains(
            PrintView::Stderr(#[trigger] lines_of(problems@[k].1@)[j]),
        ) by {
        assert(all[k] == (problems@[k].0@, problems@[k].1@));
        problems_are_told(all, k);
        assert(print_views(r.prints@) == all_problems(all));
        assert forall|j: int| 0 <= j < lines_of(problems@[k].1@).len() implies print_views(
            r.prints@,
        ).contains(PrintView::Stderr(#[trigger] lines_of(problems@[k].1@)[j])) by {
            assert(lines_of(all[k].1)[j] == lines_of(problems@[k].1@)[j]);
        }
    }
}

/// The beams are listed one a line, in the order of their names, each beam
/// once: its name, and its description where it has one.
pub proof fn every_beam_is_listed_once(project: &Project, r: Vec<String>) -> (order: Seq<int>)
    requires
        call_ensures(list, (project, false), r),
    ensures
        r@.len() == project@.beams.len(),
        order.len() == r@.len(),
        order.no_duplicates(),
        forall|k: int|
            0 <= k < r@.len() ==> 0 <= #[trigger] order[k] < project@.beams.len() && r@[k]@
                == project@.beams[order[k]].id + "    "@ + (match project@.beams[order[k]].description {
                Some(text) => text,
                None => "(no description)"@,
            }),
        forall|a: int, b: int|
            0 <= a < b < order.len() ==> !text_lt(
                project@.beams[#[trigger] order[b]].id,
                project@.beams[#[trigger] order[a]].id,
            ),
{
    let beams = project@.beams;
    let lines = views(r@);
    let order = choose|order: Seq<int>|
        {
            &&& #[trigger] is_order(order, beams.len())
            &&& by_id(beams, order)
            &&& lines == Seq::new(order.len(), |k: int| list_line(beams[order[k]], false))
        };
    assert(is_list(beams, false, lines));
    assert(lines.len() == r@.len());
    assert forall|k: int| 0 <= k < r@.len() implies 0 <= #[trigger] order[k] < beams.len() && r@[k]@
        == beams[order[k]].id + "    "@ + (match beams[order[k]].description {
        Some(text) => text,
        None => "(no description)"@,
    }) by {
        assert(lines[k] == r@[k]@);
    }
    assert forall|a: int, b: int| 0 <= a < b < order.len() implies !text_lt(
        beams[#[trigger] order[b]].id,
        beams[#[trigger] order[a]].id,
    ) by {
        let x = beams[order[a]].id;
        let y = beams[order[b]].id;
        assert(text_lt(x, y) || (x == y && order[a] < order[b]));
        text_lt_irreflexive(x);
        if text_lt(x, y) {
            text_lt_asymmetric(x, y);
        }
    }
    order
}

/// The affected beams are told in order, one a line, each by its name, with a
/// mark on those that take parameters; in JSON all of them are one line.
/// Where git could not say what changed that is told instead.
pub proof fn affected_beams_are_told(
    project: &Project,
    affected: &Result<Vec<BeamId>, GitError>,
    log_format: LogFormat,
    r: Report,
)
    requires
        call_ensures(affected_report, (project, affected, log_format), r),
    ensures
        r.code == 0 <==> *affected is Ok,
        *affected matches Err(error) ==> r.code == 2 && print_views(r.prints@) == seq![
            PrintView::Stderr(error@),
        ],
        *affected matches Ok(ids) ==> (log_format is Text ==> print_views(r.prints@).len()
            == ids@.len() && forall|k: int|
            0 <= k < ids@.len() ==> print_views(r.prints@)[k] == PrintView::Stdout(
                if place_of(project@.beams, (#[trigger] ids@[k])@) matches Some(i)
                    && project@.beams[i].params.len() > 0 {
                    ids@[k]@ + " (takes parameters)"@
                } else {
                    ids@[k]@
                },
            )),
        *affected is Ok && log_format is Json ==> print_views(r.prints@).len() == 1,
{
    assert(r@.prints == print_views(r.prints@));
}

/// Cleaning the cache fails only where a cache that is there cannot be
/// removed.
pub proof fn cleaning_an_empty_cache_succeeds(
    beamfile: &str,
    command: &CacheCommand,
    removal: &Removal,
    r: Ending,
)
    requires
        call_ensures(run, (beamfile, command, removal), r),
    ensures
        r.code == 0 <==> !(*removal is Failed),
        r.code == 0 ==> r.lines@.len() == 0,
        *removal is Failed ==> r.code == 2 && r.lines@.len() == 1,
{
    assert(r@.lines.len() == r.lines@.len());
}

/// The cache is below the Beamfile's own directory, in `.alba/cache`.
pub proof fn the_cache_is_next_to_the_beamfile(beamfile: &str, r: String)
    requires
        call_ensures(cache_dir, (beamfile,), r),
    ensures
        components(r@) == components(dir_part(beamfile@)) + seq![".alba"@, "cache"@],
{
    let dir = dir_part(beamfile@);
    reveal_strlit(".");
    reveal_strlit(".alba");
    reveal_strlit("cache");
    reveal_strlit("/");
    assert(dir.len() > 0);
    assert(!".alba"@.contains('/')) by {
        if ".alba"@.contains('/') {
            let i = choose|i: int| 0 <= i < ".alba"@.len() && ".alba"@[i] == '/';
            assert(i == 0 || i == 1 || i == 2 || i == 3 || i == 4);
        }
    }
    assert(!"cache"@.contains('/')) by {
        if "cache"@.contains('/') {
            let i = choose|i: int| 0 <= i < "cache"@.len() && "cache"@[i] == '/';
            assert(i == 0 || i == 1 || i == 2 || i == 3 || i == 4);
        }
    }
    a_name_is_a_path(".alba"@);
    a_name_is_a_path("cache"@);
    assert(".alba"@.len() != "."@.len());
    names_are_components(".alba"@);
    names_are_components("cache"@);
    joining_adds_components(dir, ".alba"@);
    let inner = joined_path(dir, ".alba"@);
    joining_adds_components(inner, "cache"@);
    assert((components(dir) + seq![".alba"@]) + seq!["cache"@] =~= components(dir) + seq![
        ".alba"@,
        "cache"@,
    ]);
}

/// A project's root is the Beamfile's directory, as seen from the current
/// one; a Beamfile's directory is what is left without its name.
pub proof fn the_root_is_the_beamfile_s_directory(
    beamfile: &str,
    cwd: String,
    r: String,
)
    requires
        call_ensures(beamfile_dir, (beamfile, &Ok::<String, String>(cwd)), r),
        cwd@.len() > 0,
    ensures
        is_absolute(cwd@) ==> is_absolute(r@),
        is_absolute(dir_part(beamfile@)) ==> components(r@) == components(dir_part(beamfile@)),
        !is_absolute(dir_part(beamfile@)) ==> components(r@) == components(cwd@) + names_of(
            dir_part(beamfile@),
        ),
        parent_of(beamfile@) matches Some(dir) && dir.len() > 0 ==> components(
            dir_part(beamfile@),
        ) == components(beamfile@).drop_last(),
{
    reveal_strlit(".");
    let dir = dir_part(beamfile@);
    assert(dir.len() > 0);
    an_absolute_path_is_seen_from_the_directory(dir, cwd@);
    if parent_of(beamfile@) is Some {
        a_parent_lacks_the_last_component(beamfile@);
    }
}

/// Hooks are installed exactly where git's hooks path is the project's own.
/// They are put there unless the path is someone else's, and taken away only
/// where it is the project's own; where there is none there is nothing to
/// take away.
pub proof fn hooks_are_installed_only_where_nothing_else_is(
    path: &Result<Option<String>, GitError>,
    dir: String,
    there: bool,
    i: HooksStep,
    u: HooksStep,
)
    requires
        call_ensures(hooks_dir, (), dir),
        call_ensures(are_installed, (path,), there),
        call_ensures(install, (path,), i),
        call_ensures(uninstall, (path,), u),
    ensures
        there <==> (*path matches Ok(Some(p)) && p@ == dir@),
        i is Go <==> (*path matches Ok(None)) || there,
        u is Go <==> there,
        i matches HooksStep::End(e) ==> e.code == 2 && e.lines@.len() == 1,
        *path matches Ok(None) ==> (u matches HooksStep::End(e) && e.code == 0 && e.lines@.len()
            == 0),
        !there && !(*path matches Ok(None)) ==> (u matches HooksStep::End(e) && e.code == 2
            && e.lines@.len() == 1),
{
    if let HooksStep::End(e) = i {
        assert(e@.lines.len() == e.lines@.len());
    }
    if let HooksStep::End(e) = u {
        assert(e@.lines.len() == e.lines@.len());
    }
}

/// A hook's script runs that hook: for two names it differs in the name and
/// in nothing else.
pub proof fn a_script_runs_its_own_hook(name: &str, r: String, other: &str, s: String)
    requires
        call_ensures(hook_script, (name,), r),
        call_ensures(hook_script, (other,), s),
    ensures
        r@ == s@ ==> name@ == other@,
        exists|before: Seq<char>, after: Seq<char>|
            r@ == #[trigger] (before + name@ + after) && s@ == before + other@ + after,
{
    let before = "#!/bin/sh\nexec alba hook "@;
    let after = " \"$@\"\n"@;
    assert(r@ == before + name@ + after);
    assert(s@ == before + other@ + after);
    if r@ == s@ {
        let n = before.len() as int;
        assert(name@.len() == other@.len());
        assert(r@.subrange(n, n + name@.len()) =~= name@);
        assert(s@.subrange(n, n + other@.len()) =~= other@);
    }
}

} // verus!
