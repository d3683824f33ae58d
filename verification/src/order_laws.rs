//! Inputs, names and orders, told from what goes in and what comes out.

use vstd::prelude::*;
use crate::affected::{Selection, Targets};
use crate::args::Command;
use crate::commands::{affected_json, opening, Opening};
use crate::error::{result_view, CoreError, ErrorView};
use crate::event::{BeamStatus, RunEvent};
use crate::files::{expand_globs, input_lt, inputs_walked, is_input, unified, Walked};
use crate::files_laws::the_inputs_are_what_matches;
use crate::git::{GitError, GitHead};
use crate::globs::{glob_matches, glob_refusal, set_builds};
use crate::graph::{graph_verdict, id_views};
use crate::json::{json_array, json_line, json_string};
use crate::json_told_laws::array_ends;
use crate::loader::pair_views;
use crate::model::{BeamId, OptionView, Project, ProjectView, SourceId};
use crate::paths::{below, components, file_name, parent};
use crate::paths_laws::a_parent_lacks_the_last_component;
use crate::project::{
    collect, collect_gives_each, list_entry_at, load_str, option_of, project_of, rendered, Context,
};
use crate::render_laws::collect_fails_where_one_does;
use crate::render::PrintView;
use crate::renderers::{grouped_step, lines_held, without_group, GroupView};
use crate::run_command::{reference_of, selection_label};
use crate::scope::{git_view, Environment};
use crate::show_laws::has_part;
use crate::sort::{component_lt, path_lt};
use crate::store::decimal_tells_numbers_apart;
use crate::store_laws::{a_json_string_is_never_the_beginning_of_another, prefix_cut};
use crate::syntax::{ExecutorOptionValue, File, ParseError};
use crate::text::{decimal, opt_view, text_lt, views};
use crate::watch_laws::{patterns_match_where_one_does, that_compile};

verus! {

/// A walked file is below the directory, is in no directory of version control
/// or of the cache, and one of the patterns matches what is left of its path.
pub open spec fn is_wanted(base: Seq<char>, patterns: Seq<Seq<char>>, w: Walked) -> bool {
    &&& w.is_file
    &&& below(w.path@, base) matches Some(rest) && {
        &&& !components(rest).contains(".git"@)
        &&& !components(rest).contains(".alba"@)
        &&& exists|t: int|
            0 <= t < patterns.len() && glob_refusal(#[trigger] patterns[t]) is None
                && glob_matches(patterns[t], unified(rest))
    }
}

/// The inputs of a beam are the files that are wanted, each with its path from
/// the directory, with `/` separators, and no other, as long as the patterns
/// can be built into a set; and they come in the order of those paths.
pub proof fn the_inputs_are_the_files_that_are_wanted(
    base: &str,
    patterns: &Vec<String>,
    walked: &Vec<Walked>,
    r: Vec<(String, String)>,
    input: (Seq<char>, Seq<char>),
)
    requires
        call_ensures(expand_globs, (base, patterns, walked), r),
    ensures
        set_builds(that_compile(views(patterns@))) ==> (pair_views(r@).contains(input)
            <==> exists|k: int|
            0 <= k < walked@.len() && is_wanted(base@, views(patterns@), #[trigger] walked@[k])
                && input == (
                unified(below(walked@[k].path@, base@)->Some_0),
                walked@[k].path@,
            )),
        forall|i: int, j: int|
            0 <= i < j < r@.len() ==> !text_lt((#[trigger] r@[j]).0@, (#[trigger] r@[i]).0@),
{
    let p = views(patterns@);
    let all = inputs_walked(base@, p, walked@);
    let v = pair_views(r@);
    v.to_multiset_ensures();
    all.to_multiset_ensures();
    assert(v.contains(input) <==> all.contains(input)) by {
        assert(v.to_multiset().count(input) == all.to_multiset().count(input));
    }
    the_inputs_are_what_matches(base@, p, walked@, input);
    if set_builds(that_compile(p)) {
        assert forall|k: int| 0 <= k < walked@.len() implies (is_input(
            base@,
            p,
            #[trigger] walked@[k],
        ) <==> is_wanted(base@, p, walked@[k])) by {
            if let Some(rest) = below(walked@[k].path@, base@) {
                patterns_match_where_one_does(p, unified(rest));
            }
        }
        if v.contains(input) {
            let k = choose|k: int|
                0 <= k < walked@.len() && is_input(base@, p, #[trigger] walked@[k]) && input == (
                    unified(below(walked@[k].path@, base@)->Some_0),
                    walked@[k].path@,
                );
            assert(is_wanted(base@, p, walked@[k]));
        }
        if exists|k: int|
            0 <= k < walked@.len() && is_wanted(base@, p, #[trigger] walked@[k]) && input == (
                unified(below(walked@[k].path@, base@)->Some_0),
                walked@[k].path@,
            ) {
            let k = choose|k: int|
                0 <= k < walked@.len() && is_wanted(base@, p, #[trigger] walked@[k]) && input == (
                    unified(below(walked@[k].path@, base@)->Some_0),
                    walked@[k].path@,
                );
            assert(is_input(base@, p, walked@[k]));
        }
    }
    assert forall|i: int, j: int| 0 <= i < j < r@.len() implies !text_lt(
        (#[trigger] r@[j]).0@,
        (#[trigger] r@[i]).0@,
    ) by {
        assert(v[i] == (r@[i].0@, r@[i].1@) && v[j] == (r@[j].0@, r@[j].1@));
        assert(!input_lt(v[j], v[i]));
    }
}

/// Paths are ordered by their first different component, and a path comes
/// before what is below it. Names come after `..`, that after `.`, and that
/// after the root; names are ordered as texts.
pub proof fn paths_are_ordered_by_their_components(
    start: Seq<Seq<char>>,
    x: Seq<char>,
    y: Seq<char>,
    a: Seq<Seq<char>>,
    b: Seq<Seq<char>>,
)
    ensures
        a.len() > 0 ==> path_lt(start, start + a),
        !path_lt(start + a, start),
        x != y ==> (path_lt(start.push(x) + a, start.push(y) + b) <==> component_lt(x, y)),
        component_lt("/"@, "."@) && component_lt("."@, ".."@),
        x != "/"@ && x != "."@ && x != ".."@ ==> component_lt(".."@, x) && (y != "/"@ && y != "."@
            && y != ".."@ ==> (component_lt(x, y) <==> text_lt(x, y))),
    decreases start.len(),
{
    reveal_strlit("/");
    reveal_strlit(".");
    reveal_strlit("..");
    assert("/"@[0] == '/' && "."@[0] == '.' && "."@.len() == 1 && ".."@.len() == 2);
    if start.len() > 0 {
        let rest = start.drop_first();
        paths_are_ordered_by_their_components(rest, x, y, a, b);
        assert((start + a).drop_first() =~= rest + a);
        assert((start.push(x) + a).drop_first() =~= rest.push(x) + a);
        assert((start.push(y) + b).drop_first() =~= rest.push(y) + b);
    } else {
        assert(start + a =~= a);
        assert((start.push(x) + a)[0] == x);
        assert((start.push(y) + b)[0] == y);
    }
}

/// A path's name is its last component, where that is a name, and its parent
/// has all the others.
pub proof fn a_path_is_its_parent_and_its_name(
    path: &str,
    name: Option<String>,
    dir: Option<String>,
)
    requires
        call_ensures(file_name, (path,), name),
        call_ensures(parent, (path,), dir),
    ensures
        name matches Some(n) ==> components(path@).len() > 0 && n@ == components(path@).last() && n@
            != "/"@ && n@ != "."@ && n@ != ".."@,
        name is None ==> components(path@).len() == 0 || components(path@).last() == "/"@
            || components(path@).last() == "."@ || components(path@).last() == ".."@,
        dir matches Some(d) ==> components(d@) == components(path@).drop_last(),
        dir is None ==> components(path@).len() == 0 || components(path@).last() == "/"@,
{
    if dir is Some {
        a_parent_lacks_the_last_component(path@);
    }
}

/// An option of an executor has the value that it is given: a string and each
/// entry of a list as they render, a boolean as it is.
pub proof fn an_option_has_its_value(c: Context, value: ExecutorOptionValue)
    ensures
        ({
            let r = option_of(c, value);
            match value {
                ExecutorOptionValue::Bool(b) => r == Ok::<OptionView, ErrorView>(
                    OptionView::Bool(b),
                ),
                ExecutorOptionValue::Str(t) => match rendered(c, "executor options"@, t) {
                    Ok(s) => r == Ok::<OptionView, ErrorView>(OptionView::Str(s)),
                    Err(x) => r == Err::<OptionView, ErrorView>(x),
                },
                ExecutorOptionValue::List(all) => {
                    &&& r matches Ok(v) ==> (v matches OptionView::List(texts) && texts.len()
                        == all@.len() && forall|i: int|
                        0 <= i < all@.len() ==> rendered(
                            c,
                            "executor options"@,
                            #[trigger] all@[i],
                        ) == Ok::<Seq<char>, ErrorView>(texts[i]))
                    &&& r is Err ==> exists|i: int|
                        0 <= i < all@.len() && rendered(
                            c,
                            "executor options"@,
                            #[trigger] all@[i],
                        ) is Err
                },
            }
        }),
{
    if let ExecutorOptionValue::List(all) = value {
        let f = list_entry_at(c, all@);
        collect_fails_where_one_does(all@.len(), f);
        collect_gives_each(all@.len(), f);
        if let Ok(texts) = collect(all@.len(), f) {
            assert forall|i: int| 0 <= i < all@.len() implies rendered(
                c,
                "executor options"@,
                #[trigger] all@[i],
            ) == Ok::<Seq<char>, ErrorView>(texts[i]) by {
                assert(f(i) == Ok::<Seq<char>, ErrorView>(texts[i]));
            }
        } else {
            let i = choose|i: int| 0 <= i < all@.len() && (#[trigger] f(i)) is Err;
            assert(rendered(c, "executor options"@, all@[i]) is Err);
        }
    }
}

/// A text by itself is a project exactly where it parses, imports nothing,
/// describes one and has a valid graph.
pub proof fn a_text_is_a_project_where_it_is_a_valid_one(
    parsed: Result<File, ParseError>,
    git: Option<Result<GitHead, GitError>>,
    env: &Environment,
    r: Result<Project, CoreError>,
)
    requires
        call_ensures(load_str, (parsed, git, env), r),
    ensures
        r is Ok <==> (parsed matches Ok(file) && file.imports@.len() == 0 && (project_of(
            file,
            "."@,
            git_view(git),
            *env,
            SourceId(0),
        ) matches Ok(p) && graph_verdict(p) is Ok)),
        r matches Ok(p) ==> project_of(
            parsed->Ok_0,
            "."@,
            git_view(git),
            *env,
            SourceId(0),
        ) == Ok::<ProjectView, ErrorView>(p@),
{
    let f = |p: Project| p@;
    if let Ok(p) = r {
        assert(result_view(r, f) == Ok::<ProjectView, ErrorView>(p@));
    } else {
        assert(result_view(r, f) is Err);
    }
}

/// Affected beams in JSON are told by their names, all of them and in order;
/// a wait is told by how many files it is for, and a broken project by what is
/// wrong with it.
pub proof fn lists_are_told_by_their_json(
    a: &Vec<BeamId>,
    x: String,
    b: &Vec<BeamId>,
    y: String,
    files: usize,
    waiting: String,
    other_files: usize,
    other_waiting: String,
    why: String,
    broken: String,
    other_why: String,
    other_broken: String,
)
    requires
        call_ensures(affected_json, (a,), x),
        call_ensures(affected_json, (b,), y),
        call_ensures(json_line, (&RunEvent::WatchWaiting { files },), waiting),
        call_ensures(json_line, (&RunEvent::WatchWaiting { files: other_files },), other_waiting),
        call_ensures(json_line, (&RunEvent::ProjectBroken { diagnostic: why },), broken),
        call_ensures(
            json_line,
            (&RunEvent::ProjectBroken { diagnostic: other_why },),
            other_broken,
        ),
    ensures
        x@ == y@ ==> id_views(a@) == id_views(b@),
        waiting@ == other_waiting@ ==> files == other_files,
        broken@ == other_broken@ ==> why@ == other_why@,
{
    let e = "}"@;
    reveal_strlit("}");
    if x@ == y@ {
        let p = "{\"beams\":"@;
        assert(x@ =~= p + (json_array(id_views(a@)) + e));
        assert(y@ =~= p + (json_array(id_views(b@)) + e));
        prefix_cut(p, json_array(id_views(a@)) + e, json_array(id_views(b@)) + e);
        array_ends(id_views(a@), e, id_views(b@), e);
    }
    if waiting@ == other_waiting@ {
        let p = "{\"event\":\"watch_waiting\",\"files\":"@;
        let (m, n) = (decimal(files as nat), decimal(other_files as nat));
        assert(waiting@ =~= p + (m + e));
        assert(other_waiting@ =~= p + (n + e));
        prefix_cut(p, m + e, n + e);
        assert((m + e).drop_last() =~= m);
        assert((n + e).drop_last() =~= n);
        decimal_tells_numbers_apart(files as nat, other_files as nat);
    }
    if broken@ == other_broken@ {
        let p = "{\"event\":\"project_broken\",\"diagnostic\":"@;
        assert(broken@ =~= p + (json_string(why@) + e));
        assert(other_broken@ =~= p + (json_string(other_why@) + e));
        prefix_cut(p, json_string(why@) + e, json_string(other_why@) + e);
        a_json_string_is_never_the_beginning_of_another(why@, e, other_why@, e);
    }
}

/// Where output is shown in blocks nothing of a beam is shown before it ends;
/// it then has a header with its name, how long it took and how it ended, and
/// all its lines, in order.
pub proof fn a_block_is_shown_when_its_beam_ends(
    groups: Seq<GroupView>,
    clear: bool,
    affected_by: Option<Seq<char>>,
    id: BeamId,
    status: BeamStatus,
    duration_ms: u64,
    duration: Seq<char>,
    word: String,
)
    requires
        call_ensures(crate::render::status_label, (&status,), word),
    ensures
        ({
            let held = lines_held(groups, id@);
            let (after, shown) = grouped_step(
                groups,
                clear,
                affected_by,
                RunEvent::BeamFinished { id, status, duration_ms },
                duration,
            );
            &&& shown.len() == 1 + held.len()
            &&& shown[0] matches PrintView::Stdout(header) && has_part(header, id@) && has_part(
                header,
                duration,
            ) && has_part(header, word@)
            &&& forall|k: int|
                0 <= k < held.len() ==> shown[1 + k] == PrintView::Stdout(#[trigger] held[k])
            &&& after == without_group(groups, id@)
        }),
        grouped_step(groups, clear, affected_by, RunEvent::BeamStarted { id }, duration).1.len()
            == 0,
        grouped_step(groups, clear, affected_by, RunEvent::BeamCached { id }, duration).1.len()
            == 0,
{
    let a = "\u{2500}\u{2500} "@;
    let b = " ("@;
    let c = ", "@;
    let d = ") \u{2500}\u{2500}"@;
    let header = a + id@ + b + duration + c + word@ + d;
    assert(header =~= a + id@ + (b + duration + c + word@ + d));
    assert(header =~= (a + id@ + b) + duration + (c + word@ + d));
    assert(header =~= (a + id@ + b + duration + c) + word@ + d);
}

/// A line of output shows nothing yet where output is shown in blocks.
pub proof fn a_line_waits_for_its_block(
    groups: Seq<GroupView>,
    clear: bool,
    affected_by: Option<Seq<char>>,
    id: BeamId,
    line: crate::event::OutputLine,
    replayed: bool,
    duration: Seq<char>,
)
    ensures
        grouped_step(
            groups,
            clear,
            affected_by,
            RunEvent::BeamOutput { id, line, replayed },
            duration,
        ).1.len() == 0,
        lines_held(
            grouped_step(
                groups,
                clear,
                affected_by,
                RunEvent::BeamOutput { id, line, replayed },
                duration,
            ).0,
            id@,
        ) == lines_held(groups, id@).push(line.text@),
{
    crate::show_laws::a_line_is_held_for_its_beam(groups, id@, line.text@, id@);
}

/// What a command line opens with: a plugin, the cache and the hooks need no
/// project, and everything else does.
pub proof fn most_commands_load_the_project(
    command: &Option<Command>,
    r: Opening,
)
    requires
        call_ensures(opening, (command,), r),
    ensures
        r is CheckPlugin <==> (*command matches Some(Command::Plugin(_))),
        r is Cache <==> (*command matches Some(Command::Cache(_))),
        r is Hooks <==> (*command matches Some(Command::Hooks(_))),
        *command matches Some(Command::Hooks(c)) ==> r == Opening::Hooks(c),
        *command matches Some(Command::Cache(c)) ==> r == Opening::Cache(c),
{
}

/// A session watches the beam that is named, and is called after it; without
/// one it is called after the reference, which is what the run is affected
/// by.
pub proof fn a_session_is_named_after_its_selection(
    selection: &Selection,
    target: Option<&BeamId>,
    label: String,
    reference: Option<String>,
    id: BeamId,
    targets: Targets,
)
    requires
        call_ensures(Selection::watched_target, (selection,), target),
        call_ensures(selection_label, (selection,), label),
        call_ensures(reference_of, (selection,), reference),
        call_ensures(Targets::beam, (id,), targets),
    ensures
        match *selection {
            Selection::Beam(b) => (target matches Some(t) && *t == b) && label@ == b@
                && reference is None,
            Selection::Affected { reference: since, within } => {
                &&& opt_view(reference) == Some(since@)
                &&& target is Some <==> within is Some
                &&& within matches Some(b) ==> *target->Some_0 == b && label@ == b@
                &&& within is None ==> has_part(label@, since@)
            },
        },
        targets.beams@ == seq![id],
        targets.affected_by is None,
{
    if let Selection::Affected { reference: since, within: None } = *selection {
        let none = Seq::<char>::empty();
        assert(label@ =~= "affected by "@ + since@ + none);
    }
}

} // verus!
