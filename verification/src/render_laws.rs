//! What a beam runs, where and with what.

use vstd::prelude::*;
use crate::error::{result_view, CoreError, ErrorView};
use crate::eval::text_of;
use crate::loader::pair_views;
use crate::model::{Beam, BeamId};
use crate::paths::{components, is_absolute, joined_path};
use crate::paths_laws::{joining_adds_components, names_are_components, names_of};
use crate::plan::{
    args_among, args_for, bound_scope, command_at, command_env, render, variable_at, RenderedBeam,
    RunOptions,
};
use crate::project::{collect, collect_gives_each};
use crate::scope::{Environment, Scope};
use crate::graph::id_views;
use crate::text::views;

verus! {

/// Where a beam's commands run: in the directory of the Beamfile that
/// declares it, or, where it declares a directory of its own, in that one as
/// seen from the Beamfile's. So it is absolute as soon as the Beamfile's
/// directory is.
pub proof fn a_beam_runs_below_its_beamfile(
    beam: &Beam,
    args: &Vec<String>,
    env: &Environment,
    r: Result<RenderedBeam, CoreError>,
)
    requires
        call_ensures(render, (beam, args, env), r),
    ensures
        r matches Ok(plan) ==> {
            &&& is_absolute(beam.dir@) ==> is_absolute(plan.cwd@)
            &&& beam.cwd is None ==> plan.cwd@ == beam.dir@
            &&& beam.cwd matches Some(cwd) ==> {
                &&& is_absolute(cwd@) ==> plan.cwd@ == cwd@
                &&& !is_absolute(cwd@) && beam.dir@.len() > 0 ==> components(plan.cwd@)
                    == components(beam.dir@) + names_of(cwd@)
                &&& !is_absolute(cwd@) && beam.dir@.len() > 0 && components(cwd@).len() > 0
                    && components(cwd@)[0] != "."@ ==> components(plan.cwd@) == components(
                    beam.dir@,
                ) + components(cwd@)
            }
        },
{
    let f = |b: RenderedBeam| b@;
    if let Ok(plan) = r {
        assert(result_view(r, f) == Ok::<crate::plan::RenderedView, ErrorView>(plan@));
        if let Some(cwd) = beam.cwd {
            if !is_absolute(cwd@) && beam.dir@.len() > 0 {
                joining_adds_components(beam.dir@, cwd@);
                assert(is_absolute(joined_path(beam.dir@, cwd@)) == is_absolute(beam.dir@));
                if components(cwd@).len() > 0 && components(cwd@)[0] != "."@ {
                    names_are_components(cwd@);
                }
            }
        }
    }
}

pub proof fn collect_fails_where_one_does<T>(n: nat, f: spec_fn(int) -> Result<T, ErrorView>)
    ensures
        collect(n, f) is Ok <==> forall|i: int| 0 <= i < n ==> (#[trigger] f(i)) is Ok,
    decreases n,
{
    if n > 0 {
        collect_fails_where_one_does((n - 1) as nat, f);
        if collect(n, f) is Ok {
            collect_gives_each(n, f);
            assert forall|i: int| 0 <= i < n implies (#[trigger] f(i)) is Ok by {}
        }
        if forall|i: int| 0 <= i < n ==> (#[trigger] f(i)) is Ok {
            assert(f(n - 1) is Ok);
        }
    }
}

/// What a beam's commands are: its templates, one for one and in order, each
/// as it renders with the arguments bound to the beam's parameters; and so
/// the values of its variables, under the names it gives them. A beam renders
/// exactly where each of them does.
pub proof fn a_beam_runs_what_its_templates_render_to(
    beam: &Beam,
    args: &Vec<String>,
    env: &Environment,
    r: Result<RenderedBeam, CoreError>,
    bound: Scope,
)
    requires
        call_ensures(render, (beam, args, env), r),
        call_ensures(Scope::with_params, (&beam.scope, &beam.params, args), bound),
    ensures
        r is Ok <==> {
            &&& forall|k: int|
                0 <= k < beam.run@.len() ==> text_of(
                    (#[trigger] beam.run@[k]).parts@,
                    beam.run@[k].span,
                    bound@,
                    *env,
                ) is Ok
            &&& forall|k: int|
                0 <= k < beam.env@.len() ==> text_of(
                    (#[trigger] beam.env@[k]).1.parts@,
                    beam.env@[k].1.span,
                    bound@,
                    *env,
                ) is Ok
        },
        r matches Ok(plan) ==> {
            &&& plan.commands@.len() == beam.run@.len()
            &&& forall|k: int|
                0 <= k < beam.run@.len() ==> text_of(
                    (#[trigger] beam.run@[k]).parts@,
                    beam.run@[k].span,
                    bound@,
                    *env,
                ) == Ok::<Seq<char>, ErrorView>(plan.commands@[k]@)
            &&& plan.env@.len() == beam.env@.len()
            &&& forall|k: int|
                0 <= k < beam.env@.len() ==> plan.env@[k].0@ == (#[trigger] beam.env@[k]).0@
                    && text_of(
                    beam.env@[k].1.parts@,
                    beam.env@[k].1.span,
                    bound@,
                    *env,
                ) == Ok::<Seq<char>, ErrorView>(plan.env@[k].1@)
        },
        r matches Err(error) ==> error@.source_id == beam.source,
{
    let b = beam@;
    let scope = bound_scope(b, views(args@));
    assert(scope == bound@);
    let f = command_at(b.run, scope, *env);
    let g = variable_at(b.env, scope, *env);
    collect_fails_where_one_does(b.run.len(), f);
    collect_fails_where_one_does(b.env.len(), g);
    collect_gives_each(b.run.len(), f);
    collect_gives_each(b.env.len(), g);
    let h = |x: RenderedBeam| x@;
    assert forall|k: int| 0 <= k < beam.run@.len() implies f(k) == text_of(
        (#[trigger] beam.run@[k]).parts@,
        beam.run@[k].span,
        bound@,
        *env,
    ) by {
        assert(b.run[k] == beam.run@[k]);
    }
    assert forall|k: int| 0 <= k < beam.env@.len() implies b.env[k] == (
        (#[trigger] beam.env@[k]).0@,
        beam.env@[k].1,
    ) by {}
    assert(b.run.len() == beam.run@.len());
    assert(b.env.len() == beam.env@.len());
    if let Ok(plan) = r {
        assert(result_view(r, h) == Ok::<crate::plan::RenderedView, ErrorView>(plan@));
        assert(plan@.commands.len() == plan.commands@.len());
        assert(plan@.env.len() == plan.env@.len());
        assert forall|k: int| 0 <= k < beam.run@.len() implies text_of(
            (#[trigger] beam.run@[k]).parts@,
            beam.run@[k].span,
            bound@,
            *env,
        ) == Ok::<Seq<char>, ErrorView>(plan.commands@[k]@) by {
            assert(f(k) == Ok::<Seq<char>, ErrorView>(plan@.commands[k]));
            assert(plan@.commands[k] == plan.commands@[k]@);
        }
        assert forall|k: int| 0 <= k < beam.env@.len() implies plan.env@[k].0@ == (
        #[trigger] beam.env@[k]).0@ && text_of(
            beam.env@[k].1.parts@,
            beam.env@[k].1.span,
            bound@,
            *env,
        ) == Ok::<Seq<char>, ErrorView>(plan.env@[k].1@) by {
            assert(g(k) == Ok::<(Seq<char>, Seq<char>), ErrorView>(plan@.env[k]));
            assert(plan@.env[k] == (plan.env@[k].0@, plan.env@[k].1@));
        }
    } else {
        assert(result_view(r, h) is Err);
        if forall|k: int|
            0 <= k < beam.env@.len() ==> text_of(
                (#[trigger] beam.env@[k]).1.parts@,
                beam.env@[k].1.span,
                bound@,
                *env,
            ) is Ok {
            assert forall|k: int| 0 <= k < b.env.len() implies (#[trigger] g(k)) is Ok by {
                assert(text_of(
                    beam.env@[k].1.parts@,
                    beam.env@[k].1.span,
                    bound@,
                    *env,
                ) is Ok);
            }
        }
        if forall|k: int|
            0 <= k < beam.run@.len() ==> text_of(
                (#[trigger] beam.run@[k]).parts@,
                beam.run@[k].span,
                bound@,
                *env,
            ) is Ok {
            assert forall|k: int| 0 <= k < b.run.len() implies (#[trigger] f(k)) is Ok by {
                assert(text_of(beam.run@[k].parts@, beam.run@[k].span, bound@, *env) is Ok);
            }
        }
    }
}

/// The arguments of a run are the target's; every other beam has none.
pub proof fn only_targets_are_given_arguments(
    id: &BeamId,
    target: &BeamId,
    targets: &Vec<BeamId>,
    params: &Vec<String>,
    r: Vec<String>,
    s: Vec<String>,
)
    requires
        call_ensures(args_for, (id, target, params), r),
        call_ensures(args_among, (id, targets, params), s),
    ensures
        id@ == target@ ==> views(r@) == views(params@),
        id@ != target@ ==> r@.len() == 0,
        id_views(targets@).contains(id@) ==> views(s@) == views(params@),
        !id_views(targets@).contains(id@) ==> s@.len() == 0,
{
    assert(views(r@).len() == r@.len());
    assert(views(s@).len() == s@.len());
}

/// A command is given the run's own variables and then the beam's, so that
/// the beam's come last.
pub proof fn a_beam_s_variables_come_last(
    extra: &Vec<(String, String)>,
    plan: &RenderedBeam,
    r: Vec<(String, String)>,
)
    requires
        call_ensures(command_env, (extra, plan), r),
    ensures
        r@.len() == extra@.len() + plan.env@.len(),
        pair_views(r@).take(extra@.len() as int) == pair_views(extra@),
        pair_views(r@).skip(extra@.len() as int) == pair_views(plan.env@),
{
    assert(pair_views(r@).len() == r@.len());
    assert(pair_views(extra@).len() == extra@.len());
    assert(pair_views(plan.env@).len() == plan.env@.len());
    assert(pair_views(r@).take(extra@.len() as int) =~= pair_views(extra@));
    assert(pair_views(r@).skip(extra@.len() as int) =~= pair_views(plan.env@));
}

/// At least one beam may run at once, and as many as were asked for.
pub proof fn a_run_has_a_slot(options: &RunOptions, r: usize)
    requires
        call_ensures(RunOptions::slots, (options,), r),
    ensures
        r >= 1,
        options.jobs >= 1 ==> r == options.jobs,
{
}

} // verus!
