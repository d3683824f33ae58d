//! What a host of the library asks of it, and what it is given.

use vstd::prelude::*;
use crate::cache::cacheable;
use crate::commands::nothing_to_run;
use crate::exit::Ending;
use crate::event::{BeamStatus, OutputLine, RunEvent};
use crate::example_plugin::{json_number_at, json_text_at, is_json, read_message, HostMessage};
use crate::files::{is_walked, outputs_satisfied};
use crate::git::{
    all_known_hooks, canonical_root, hook_view, hooks_path_args, known_hook, known_hooks,
    repository_root, repository_root_args, GitError, GitHead, GitReply, KnownHook,
};
use crate::git_laws::{said, succeeded};
use crate::json::edge_views;
use crate::graph::id_views;
use crate::model::{BeamId, ExecutorKind, Project};
use crate::plan::{affected_started, as_ints, edges_at, ids_at, Executors};
use crate::beam_task::Happening;
use crate::schedule::Run;
use crate::schedule_plan_laws::{edges_are_needs, needs_among};
use crate::scope::{git_view, Scope};
use crate::show_laws::has_part;
use crate::store::{
    log_lines, output_views, restore_line, restore_logs, restored, stored_line, temporary_path,
    StoredLine,
};
use crate::git::lines;
use crate::text::{decimal, opt_view, views};

verus! {

/// What a beam is cached by: everything it needs has to have contributed, it
/// has to declare inputs, and what it runs has to render. The contributions
/// are taken as they are.
pub proof fn a_beam_is_cacheable_where_all_is_known(
    remembers: bool,
    renders: bool,
    inputs: &Vec<String>,
    contributions: &Vec<Option<String>>,
    r: Option<Vec<String>>,
)
    requires
        call_ensures(cacheable, (remembers, renders, inputs, contributions), r),
    ensures
        r is Some <==> remembers && renders && inputs@.len() > 0 && !contributions@.contains(None),
        r matches Some(needs) ==> contributions@ == needs@.map_values(|s: String| Some(s)),
{
    let none: Option<String> = None;
    if contributions@.contains(none) {
        let i = choose|i: int| 0 <= i < contributions@.len() && contributions@[i] == none;
        assert(contributions@[i] is None);
    } else {
        assert forall|i: int| 0 <= i < contributions@.len() implies #[trigger] contributions@[i] is Some by {
            assert(contributions@.contains(contributions@[i]));
        }
    }
    if let Some(needs) = r {
        assert(contributions@ =~= needs@.map_values(|s: String| Some(s)));
    }
}

/// Outputs are there unless one is missing.
pub proof fn outputs_are_there_unless_one_is_missing(answers: &Vec<bool>, r: bool)
    requires
        call_ensures(outputs_satisfied, (answers,), r),
    ensures
        r <==> !answers@.contains(false),
{
}

/// Every directory is walked but two: git's own, and the cache.
pub proof fn all_but_git_and_the_cache_are_walked(name: &str, r: bool)
    requires
        call_ensures(is_walked, (name,), r),
    ensures
        !r <==> (name@ == ".git"@ || name@ == ".alba"@),
{
}

/// A run that has no beam to run is an error of its own, told in a line.
pub proof fn no_beam_is_an_error(r: Ending)
    requires
        call_ensures(nothing_to_run, (), r),
    ensures
        r.code == 2i32,
        r.lines@.len() == 1,
        has_part(r.lines@[0]@, "no beam to run"@),
{
    reveal_strlit("no beam to run: name one, or declare a `default`");
    reveal_strlit("no beam to run");
    let text = "no beam to run: name one, or declare a `default`"@;
    assert(views(r.lines@).len() == r.lines@.len());
    assert(views(r.lines@)[0] == text);
    let rest = text.subrange(14, text.len() as int);
    assert(text =~= Seq::<char>::empty() + "no beam to run"@ + rest);
}

/// A message is what its line says, field by field; what is not JSON is none.
pub proof fn a_message_is_read_field_by_field(line: &str, r: Option<HostMessage>)
    requires
        call_ensures(read_message, (line,), r),
    ensures
        r is Some <==> is_json(line@),
        r matches Some(m) ==> {
            &&& opt_view(m.kind) == json_text_at(line@, "type"@)
            &&& m.protocol == json_number_at(line@, "protocol"@)
            &&& opt_view(m.command) == json_text_at(line@, "command"@)
        },
{
}

/// A hook is known where the list has it, and as the list has it; it takes at
/// most three arguments.
pub proof fn a_hook_is_known_where_it_is_listed(
    all: Vec<KnownHook>,
    name: &str,
    r: Option<KnownHook>,
)
    requires
        call_ensures(all_known_hooks, (), all),
        call_ensures(known_hook, (name,), r),
    ensures
        r is Some <==> exists|i: int| 0 <= i < all@.len() && (#[trigger] all@[i]).name@ == name@,
        r matches Some(hook) ==> hook.name@ == name@ && hook.arity <= 3 && exists|i: int|
            0 <= i < all@.len() && (#[trigger] all@[i]).name@ == name@ && all@[i].arity == hook.arity,
{
    let known = all@.map_values(|h: KnownHook| hook_view(h));
    assert(known == known_hooks());
    if let Some(hook) = r {
        let i = choose|i: int| 0 <= i < known.len() && known[i] == hook_view(hook);
        assert(hook_view(all@[i]) == hook_view(hook));
        assert(all@[i].name@ == name@);
    }
    if exists|i: int| 0 <= i < all@.len() && (#[trigger] all@[i]).name@ == name@ {
        let i = choose|i: int| 0 <= i < all@.len() && (#[trigger] all@[i]).name@ == name@;
        assert(known_hooks()[i].0 == name@);
    }
}

/// The repository's root is what git says it is, where git succeeds, and
/// then what making that canonical gives.
pub proof fn the_root_is_what_git_says(
    args: Vec<String>,
    reply: &GitReply,
    r: Result<String, GitError>,
    canonical: Result<String, String>,
    c: Result<String, GitError>,
)
    requires
        call_ensures(repository_root_args, (), args),
        call_ensures(repository_root, (reply,), r),
        call_ensures(canonical_root, (canonical,), c),
    ensures
        views(args@) == seq!["rev-parse"@, "--show-toplevel"@],
        r is Ok <==> succeeded(*reply),
        r matches Ok(text) ==> text@ == said(*reply),
        c is Ok <==> canonical is Ok,
        canonical matches Ok(path) ==> c->Ok_0@ == path@,
        canonical matches Err(error) ==> has_part(c->Err_0@, error@),
{
    if let Err(error) = canonical {
        let start = "cannot canonicalize repository root: "@;
        assert(c->Err_0@ =~= start + error@ + Seq::<char>::empty());
    }
}

/// The repository's own setting is asked for, and only read.
pub proof fn the_hooks_path_is_asked_for(args: Vec<String>)
    requires
        call_ensures(hooks_path_args, (), args),
    ensures
        views(args@) == seq!["config"@, "--local"@, "--get"@, "core.hooksPath"@],
{
}

/// A beam runs by the executor of its kind, and where one stands for both
/// kinds it is that one.
pub proof fn a_beam_has_the_executor_of_its_kind<E>(all: &Executors<E>, kind: &ExecutorKind, r: &E)
    requires
        kind@ is Shell || kind@ is SystemShell,
        call_ensures(Executors::<E>::for_beam, (all, kind), r),
    ensures
        *r == if kind@ is Shell {
            all.embedded
        } else {
            all.system
        },
{
}

/// What is announced of a run of what changed: since what, its targets, its
/// beams in order, and a pair for every need of every one of them.
pub proof fn a_run_of_what_changed_is_announced_with_its_graph(
    project: &Project,
    reference: &str,
    targets: &Vec<BeamId>,
    places: &Vec<usize>,
    r: RunEvent,
)
    requires
        forall|k: int| 0 <= k < places@.len() ==> (#[trigger] places@[k]) < project@.beams.len(),
        call_ensures(affected_started, (project, reference, targets, places), r),
    ensures
        r matches RunEvent::AffectedStarted { reference: since, targets: t, beams, edges } && {
            &&& since@ == reference@
            &&& t@.len() == targets@.len()
            &&& forall|k: int| 0 <= k < t@.len() ==> (#[trigger] t@[k])@ == targets@[k]@
            &&& beams@.len() == places@.len()
            &&& forall|k: int|
                0 <= k < places@.len() ==> (#[trigger] beams@[k])@
                    == project@.beams[places@[k] as int].id
            &&& forall|a: Seq<char>, b: Seq<char>|
                edge_views(edges@).contains((a, b)) <==> #[trigger] needs_among(
                    project@,
                    places@,
                    a,
                    b,
                )
        },
{
    let p = project@;
    if let RunEvent::AffectedStarted { reference: since, targets: t, beams, edges } = r {
        let ints = as_ints(places@);
        assert(id_views(t@).len() == t@.len());
        assert(id_views(targets@).len() == targets@.len());
        assert forall|k: int| 0 <= k < t@.len() implies (#[trigger] t@[k])@ == targets@[k]@ by {
            assert(id_views(t@)[k] == id_views(targets@)[k]);
        }
        assert(id_views(beams@).len() == beams@.len());
        assert forall|k: int| 0 <= k < places@.len() implies (#[trigger] beams@[k])@ == p.beams[
        places@[k] as int].id by {
            assert(id_views(beams@)[k] == ids_at(p, ints)[k]);
        }
        assert forall|a: Seq<char>, b: Seq<char>|
            edge_views(edges@).contains((a, b)) <==> #[trigger] needs_among(p, places@, a, b) by {
            edges_are_needs(p, ints, a, b);
            if needs_among(p, places@, a, b) {
                let (k, j) = choose|k: int, j: int|
                    0 <= k < places@.len() && p.beams[#[trigger] places@[k] as int].id == a && 0 <= j
                        < p.beams[places@[k] as int].needs.len() && (
                    #[trigger] p.beams[places@[k] as int].needs[j]).0 == b;
                assert(ints[k] == places@[k] as int);
                assert(p.beams[ints[k]].needs[j].0 == b);
            }
            if edges_at(p, ints).contains((a, b)) {
                let (k, j) = choose|k: int, j: int|
                    0 <= k < ints.len() && p.beams[#[trigger] ints[k]].id == a && 0 <= j
                        < p.beams[ints[k]].needs.len() && (#[trigger] p.beams[ints[k]].needs[j]).0 == b;
                assert(ints[k] == places@[k] as int);
                assert(p.beams[places@[k] as int].needs[j].0 == b);
            }
        }
    }
}

/// A run hears of a beam only what that beam is at: its assessment while it
/// is assessed, how its commands ended while they run.
pub proof fn a_run_awaits_what_its_beams_are_at(run: &Run, i: usize, what: &Happening, r: bool)
    requires
        run@.fits(),
        call_ensures(Run::awaits, (run, i, what), r),
    ensures
        r ==> i < run@.phases.len() && (run@.phases[i as int] is Assessing <==> what is Assessed),
        i < run@.phases.len() && run@.phases[i as int] is Assessing ==> (r <==> what is Assessed),
        i < run@.phases.len() && run@.phases[i as int] is Running ==> (r <==> what is Exited),
{
}

/// The status of a beam that ended is the one it ended with; of another there
/// is none.
pub proof fn statuses_are_those_of_the_outcomes(run: &Run, r: Vec<Option<BeamStatus>>, i: int)
    requires
        call_ensures(Run::statuses, (run,), r),
        0 <= i < run@.outcomes.len(),
    ensures
        r@.len() == run@.outcomes.len(),
        r@[i] is Some <==> run@.outcomes[i] is Some,
        run@.outcomes[i] is Some ==> r@[i] == Some(run@.outcomes[i]->Some_0.status),
{
}

/// A scope made for a repository knows what git said and nothing else.
pub proof fn a_scope_for_a_repository_knows_git_alone(
    head: Result<GitHead, GitError>,
    r: Scope,
    name: Seq<char>,
)
    requires
        call_ensures(Scope::with_git, (head,), r),
    ensures
        !r@.values.contains_key(name),
        r@.git == git_view(Some(head)),
{
}

/// What is written first is written next to where it is to be: in a file with
/// the path's own name and more. No two files of a process are the same.
pub proof fn what_is_written_first_is_next_to_it(
    path: &str,
    process: u32,
    count: u64,
    r: String,
    other: u64,
    s: String,
)
    requires
        call_ensures(temporary_path, (path, process, count), r),
        call_ensures(temporary_path, (path, process, other), s),
    ensures
        r@.len() > path@.len(),
        r@.take(path@.len() as int) == path@,
        r@.skip(r@.len() - 4) == ".tmp"@,
        r@ == s@ ==> count == other,
{
    reveal_strlit(".tmp");
    let tail = ".tmp"@;
    let start = path@ + "."@ + decimal(process as nat) + "."@;
    let a = decimal(count as nat);
    let b = decimal(other as nat);
    assert(r@ == start + a + tail);
    assert(s@ == start + b + tail);
    assert(r@.take(path@.len() as int) =~= path@);
    assert(r@.skip(r@.len() - 4) =~= tail);
    if r@ == s@ {
        assert(a =~= r@.subrange(start.len() as int, r@.len() - 4));
        assert(b =~= s@.subrange(start.len() as int, s@.len() - 4));
        if count != other {
            crate::store::decimal_tells_numbers_apart(count as nat, other as nat);
        }
    }
}

/// A line of output is stored as what it is and restored as what it was.
pub proof fn a_line_is_restored_as_it_was_stored(line: &OutputLine, s: StoredLine, r: OutputLine)
    requires
        call_ensures(stored_line, (line,), s),
        call_ensures(restore_line, (s,), r),
    ensures
        s.text@ == line.text@,
        s.stream@ == "stderr"@ <==> line.stream is Stderr,
        r.stream == line.stream,
        r.text@ == line.text@,
{
    reveal_strlit("stdout");
    reveal_strlit("stderr");
    assert("stdout"@[3] == 'o');
    assert("stderr"@[3] == 'e');
}

/// Of a log, every line that reads is restored, in order, and no other.
pub proof fn every_line_that_reads_is_restored(
    parsed: Vec<Option<StoredLine>>,
    r: Vec<OutputLine>,
    more: Vec<Option<StoredLine>>,
    s: Vec<OutputLine>,
    x: Option<StoredLine>,
)
    requires
        call_ensures(restore_logs, (parsed,), r),
        call_ensures(restore_logs, (more,), s),
        more@ == parsed@.push(x),
    ensures
        parsed@.len() == 0 ==> r@.len() == 0,
        x is None ==> output_views(s@) == output_views(r@),
        x matches Some(line) ==> s@.len() == r@.len() + 1 && s@.last().text@ == line.text@ && (
        s@.last().stream is Stderr <==> line.stream@ == "stderr"@) && forall|i: int|
            0 <= i < r@.len() ==> (#[trigger] s@[i]).text@ == r@[i].text@ && s@[i].stream
                == r@[i].stream,
{
    assert(more@.drop_last() =~= parsed@);
    assert(output_views(s@) == restored(more@));
    assert(output_views(r@) == restored(parsed@));
    assert(output_views(s@).len() == s@.len());
    assert(output_views(r@).len() == r@.len());
    if let Some(line) = x {
        let n = r@.len() as int;
        assert(output_views(s@)[n] == restored(more@)[n]);
        assert forall|i: int| 0 <= i < r@.len() implies (#[trigger] s@[i]).text@ == r@[i].text@
            && s@[i].stream == r@[i].stream by {
            assert(output_views(s@)[i] == output_views(r@)[i]);
        }
    }
}

/// A log has the lines of its text, and none where there is no text.
pub proof fn a_log_has_the_lines_of_its_text(
    content: &Option<String>,
    r: Vec<String>,
    text: &str,
    all: Vec<String>,
)
    requires
        call_ensures(log_lines, (content,), r),
        call_ensures(lines, (text,), all),
        content matches Some(s) ==> s@ == text@,
    ensures
        content is None ==> r@.len() == 0,
        content is Some ==> views(r@) == views(all@),
{
    assert(views(r@).len() == r@.len());
}

} // verus!
