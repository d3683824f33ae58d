//! A beam is skipped only where nothing that it depends on has changed, and
//! then it is.
//!
//! Whatever is said here of a change holds but for two byte strings that have
//! one hash.

use vstd::prelude::*;
use vstd::utf8::{encode_scalar, encode_utf8};
use crate::beam_task::BeamTask;
use crate::cache::{
    all_known, cacheable_beam, first_unhashed, remember, Assessment, CacheableBeam,
};
use crate::fingerprint::{
    blake3_hex, differ_in_one, every_field_counts, fingerprint, fingerprint_of, flat, framed,
    hash_file, items, lengths_fit, static_contribution, BeamFacts, FactsView,
};
use crate::loader::pair_views;
use crate::model::Beam;
use crate::plan::{executor_word, RenderedBeam};
use crate::plan_laws::an_executor_is_told_by_its_label;
use crate::schedule::prepare;
use crate::scope::Environment;
use crate::store::{accept_manifest, Manifest};
use crate::text::views;

verus! {

/// Two different byte strings have one hash.
pub open spec fn a_hash_is_shared() -> bool {
    exists|x: Seq<u8>, y: Seq<u8>| x != y && #[trigger] blake3_hex(x) == #[trigger] blake3_hex(y)
}

/// A text whose length in bytes fits in eight bytes.
pub open spec fn is_short(text: Seq<char>) -> bool {
    text.len() <= 0x3fff_ffff_ffff_ffff
}

pub open spec fn all_short(texts: Seq<Seq<char>>) -> bool {
    forall|i: int| 0 <= i < texts.len() ==> is_short(#[trigger] texts[i])
}

pub open spec fn pairs_short(pairs: Seq<(Seq<char>, Seq<char>)>) -> bool {
    forall|i: int|
        0 <= i < pairs.len() ==> is_short((#[trigger] pairs[i]).0) && is_short(pairs[i].1)
}

/// Every text among the facts is short.
pub open spec fn facts_short(f: FactsView) -> bool {
    &&& pairs_short(f.files)
    &&& all_short(f.commands)
    &&& is_short(f.cwd)
    &&& pairs_short(f.env)
    &&& all_short(f.args)
    &&& all_short(f.needs)
    &&& is_short(f.executor)
}

proof fn bytes_of_a_short_text(text: Seq<char>)
    ensures
        encode_utf8(text).len() <= 4 * text.len(),
    decreases text.len(),
{
    if text.len() > 0 {
        bytes_of_a_short_text(text.drop_first());
        assert(encode_scalar(text[0] as u32).len() <= 4);
    }
}

proof fn short_lists_fit(texts: Seq<Seq<char>>)
    requires
        all_short(texts),
    ensures
        lengths_fit(texts),
{
    assert forall|i: int| 0 <= i < texts.len() implies encode_utf8(#[trigger] texts[i]).len()
        <= u64::MAX by {
        bytes_of_a_short_text(texts[i]);
    }
}

proof fn short_pairs_are_short(pairs: Seq<(Seq<char>, Seq<char>)>)
    requires
        pairs_short(pairs),
    ensures
        all_short(flat(pairs)),
    decreases pairs.len(),
{
    if pairs.len() > 0 {
        let front = pairs.drop_last();
        assert forall|i: int| 0 <= i < front.len() implies is_short((#[trigger] front[i]).0)
            && is_short(front[i].1) by {
            assert(front[i] == pairs[i]);
        }
        short_pairs_are_short(front);
        assert(is_short(pairs[pairs.len() - 1].0) && is_short(pairs[pairs.len() - 1].1));
    }
}

proof fn short_both(a: Seq<Seq<char>>, b: Seq<Seq<char>>)
    requires
        all_short(a),
        all_short(b),
    ensures
        all_short(a + b),
{
}

proof fn short_facts_fit(f: FactsView)
    requires
        facts_short(f),
    ensures
        lengths_fit(items(f)),
{
    reveal_strlit("files");
    reveal_strlit("commands");
    reveal_strlit("executor");
    reveal_strlit("cwd");
    reveal_strlit("env");
    reveal_strlit("args");
    reveal_strlit("needs");
    short_pairs_are_short(f.files);
    short_pairs_are_short(f.env);
    let a = seq!["files"@] + flat(f.files);
    short_both(seq!["files"@], flat(f.files));
    let b = a + seq!["commands"@];
    short_both(a, seq!["commands"@]);
    let c = b + f.commands;
    short_both(b, f.commands);
    let d = c + seq!["executor"@, f.executor];
    short_both(c, seq!["executor"@, f.executor]);
    let e = d + seq!["cwd"@, f.cwd];
    short_both(d, seq!["cwd"@, f.cwd]);
    let g = e + seq!["env"@];
    short_both(e, seq!["env"@]);
    let h = g + flat(f.env);
    short_both(g, flat(f.env));
    let i = h + seq!["args"@];
    short_both(h, seq!["args"@]);
    let j = i + f.args;
    short_both(i, f.args);
    let k = j + seq!["needs"@];
    short_both(j, seq!["needs"@]);
    short_both(k, f.needs);
    short_lists_fit(items(f));
}

/// Facts that differ in one field have different fingerprints.
proof fn one_difference_shows(f: FactsView, g: FactsView)
    requires
        facts_short(f),
        facts_short(g),
        differ_in_one(f, g),
        fingerprint_of(f) == fingerprint_of(g),
    ensures
        a_hash_is_shared(),
{
    short_facts_fit(f);
    short_facts_fit(g);
    if framed(items(f)) == framed(items(g)) {
        every_field_counts(f, g);
    }
    assert(blake3_hex(framed(items(f))) == blake3_hex(framed(items(g))));
}

/// All that a fingerprint is made of, field by field.
pub open spec fn told(facts: BeamFacts) -> FactsView {
    FactsView {
        files: pair_views(facts.files@),
        commands: views(facts.commands@),
        cwd: facts.cwd@,
        env: pair_views(facts.env@),
        args: views(facts.args@),
        needs: views(facts.needs@),
        executor: facts.executor@,
    }
}

/// A fingerprint changes with any one of the facts, and only with them.
pub proof fn a_fingerprint_tells_every_fact(a: &BeamFacts, b: &BeamFacts, x: String, y: String)
    requires
        call_ensures(fingerprint, (a,), x),
        call_ensures(fingerprint, (b,), y),
        facts_short(told(*a)),
        facts_short(told(*b)),
    ensures
        told(*a) == told(*b) ==> x@ == y@,
        differ_in_one(told(*a), told(*b)) && x@ == y@ ==> a_hash_is_shared(),
{
    if differ_in_one(told(*a), told(*b)) && x@ == y@ {
        one_difference_shows(told(*a), told(*b));
    }
}

/// The hash of a file's content changes with the content, and only with it.
pub proof fn a_file_is_told_by_its_hash(a: Vec<u8>, b: Vec<u8>, x: String, y: String)
    requires
        call_ensures(hash_file, (Ok(a),), Ok::<String, String>(x)),
        call_ensures(hash_file, (Ok(b),), Ok::<String, String>(y)),
    ensures
        a@ == b@ ==> x@ == y@,
        a@ != b@ && x@ == y@ ==> a_hash_is_shared(),
{
    if a@ != b@ && x@ == y@ {
        assert(blake3_hex(a@) == blake3_hex(b@));
    }
}

/// What a beam that is not remembered runs, where and with what.
pub open spec fn runs_what(
    commands: Seq<Seq<char>>,
    cwd: Seq<char>,
    env: Seq<(Seq<char>, Seq<char>)>,
    args: Seq<Seq<char>>,
    executor: Seq<char>,
) -> FactsView {
    FactsView {
        files: Seq::empty(),
        commands,
        cwd,
        env,
        args,
        needs: Seq::empty(),
        executor,
    }
}

/// What a beam contributes that cannot be remembered changes with its
/// commands, its directory, its environment, its arguments and what runs it.
pub proof fn a_contribution_tells_what_runs(
    commands: Vec<String>,
    cwd: String,
    env: Vec<(String, String)>,
    args: Vec<String>,
    executor: String,
    x: String,
    other_commands: Vec<String>,
    other_cwd: String,
    other_env: Vec<(String, String)>,
    other_args: Vec<String>,
    other_executor: String,
    y: String,
)
    requires
        call_ensures(static_contribution, (commands, cwd, env, args, executor), x),
        call_ensures(
            static_contribution,
            (other_commands, other_cwd, other_env, other_args, other_executor),
            y,
        ),
    ensures
        ({
            let f = runs_what(
                views(commands@),
                cwd@,
                pair_views(env@),
                views(args@),
                executor@,
            );
            let g = runs_what(
                views(other_commands@),
                other_cwd@,
                pair_views(other_env@),
                views(other_args@),
                other_executor@,
            );
            &&& f == g ==> x@ == y@
            &&& facts_short(f) && facts_short(g) && differ_in_one(f, g) && x@ == y@
                ==> a_hash_is_shared()
        }),
{
    let f = runs_what(views(commands@), cwd@, pair_views(env@), views(args@), executor@);
    let g = runs_what(
        views(other_commands@),
        other_cwd@,
        pair_views(other_env@),
        views(other_args@),
        other_executor@,
    );
    if facts_short(f) && facts_short(g) && differ_in_one(f, g) && x@ == y@ {
        one_difference_shows(f, g);
    }
}

/// What a rendered beam runs, where and with what.
pub open spec fn plan_of(beam: Beam, plan: RenderedBeam, args: Seq<String>) -> FactsView {
    runs_what(
        views(plan.commands@),
        plan.cwd@,
        pair_views(plan.env@),
        views(args),
        executor_word(beam.executor@),
    )
}

/// What a beam without inputs contributes to what depends on it changes with
/// its rendered commands, directory and environment, its arguments and its
/// executor. One that does not render contributes nothing.
pub proof fn what_a_beam_runs_shows_in_what_it_contributes(
    a: &Beam,
    args: &Vec<String>,
    env: &Environment,
    ra: (BeamTask, Option<RenderedBeam>),
    b: &Beam,
    other_args: &Vec<String>,
    other_env: &Environment,
    rb: (BeamTask, Option<RenderedBeam>),
    keep_going: bool,
)
    requires
        call_ensures(prepare, (a, args, keep_going, env), ra),
        call_ensures(prepare, (b, other_args, keep_going, other_env), rb),
    ensures
        ra.1 is Some <==> ra.0.static_contribution is Some,
        ra.1 matches Some(plan) ==> (rb.1 matches Some(other) ==> {
            let x = ra.0.static_contribution->Some_0@;
            let y = rb.0.static_contribution->Some_0@;
            let f = plan_of(*a, plan, args@);
            let g = plan_of(*b, other, other_args@);
            &&& f == g ==> x == y
            &&& facts_short(f) && facts_short(g) && x == y ==> {
                &&& g == (FactsView { commands: g.commands, ..f }) && f.commands != g.commands
                    ==> a_hash_is_shared()
                &&& g == (FactsView { cwd: g.cwd, ..f }) && f.cwd != g.cwd ==> a_hash_is_shared()
                &&& g == (FactsView { env: g.env, ..f }) && f.env != g.env ==> a_hash_is_shared()
                &&& g == (FactsView { args: g.args, ..f }) && f.args != g.args
                    ==> a_hash_is_shared()
                &&& g == (FactsView { executor: g.executor, ..f }) && a.executor@ != b.executor@
                    ==> a_hash_is_shared()
            }
        }),
{
    if let (Some(plan), Some(other)) = (ra.1, rb.1) {
        let f = plan_of(*a, plan, args@);
        let g = plan_of(*b, other, other_args@);
        let x = ra.0.static_contribution->Some_0@;
        let y = rb.0.static_contribution->Some_0@;
        assert(x == fingerprint_of(f));
        assert(y == fingerprint_of(g));
        if x == y && facts_short(f) && facts_short(g) && differ_in_one(f, g) {
            one_difference_shows(f, g);
        }
        if g == (FactsView { executor: g.executor, ..f }) && a.executor@ != b.executor@
            && f.executor == g.executor {
            an_executor_is_told_by_its_label(a.executor@, b.executor@);
        }
    }
}

/// All that decides whether a beam has to run, field by field.
pub open spec fn looked_at(beam: CacheableBeam, files: Seq<(String, Result<String, String>)>) -> FactsView {
    FactsView {
        files: Seq::new(files.len(), |i: int| (files[i].0@, files[i].1->Ok_0@)),
        commands: views(beam.commands@),
        cwd: beam.cwd@,
        env: pair_views(beam.env@),
        args: views(beam.args@),
        needs: views(beam.needs@),
        executor: beam.executor@,
    }
}

/// Every file could be hashed.
pub open spec fn every_hash_known(files: Seq<(String, Result<String, String>)>) -> bool {
    forall|i: int| 0 <= i < files.len() ==> (#[trigger] files[i]).1 is Ok
}

proof fn all_hashed(files: Seq<(String, Result<String, String>)>)
    ensures
        first_unhashed(files) is None <==> every_hash_known(files),
        first_unhashed(files) matches Some(i) ==> 0 <= i < files.len() && files[i].1 is Err
            && forall|k: int| 0 <= k < i ==> (#[trigger] files[k]).1 is Ok,
    decreases files.len(),
{
    if files.len() > 0 {
        let front = files.drop_last();
        all_hashed(front);
        assert forall|i: int| 0 <= i < front.len() implies front[i] == files[i] by {}
        if every_hash_known(files) {
            assert(every_hash_known(front));
            assert(files[files.len() - 1].1 is Ok);
        }
        if first_unhashed(files) is None {
            assert forall|i: int| 0 <= i < files.len() implies (#[trigger] files[i]).1 is Ok by {
                if i < front.len() {
                    assert(front[i].1 is Ok);
                }
            }
        }
        if let Some(i) = first_unhashed(files) {
            assert forall|k: int| 0 <= k < i implies (#[trigger] files[k]).1 is Ok by {
                assert(front[k].1 is Ok);
            }
        }
    }
}

/// A beam is assessed exactly where its inputs match at least one file and
/// each of them can be hashed; else a notice says why not.
pub proof fn a_beam_is_assessed_where_its_inputs_are_known(
    beam: CacheableBeam,
    files: &Vec<(String, Result<String, String>)>,
    stored: Option<Manifest>,
    outputs: bool,
    r: (Option<Assessment>, Option<String>),
)
    requires
        call_ensures(CacheableBeam::decide, (beam, files, stored, outputs), r),
    ensures
        r.0 is Some <==> files@.len() > 0 && every_hash_known(files@),
        r.0 is Some <==> r.1 is None,
        r.0 matches Some(found) ==> (found.hit is Some ==> found.hit == stored && !beam.force
            && outputs && stored->Some_0.fingerprint@ == found.fingerprint@),
{
    all_hashed(files@);
}

/// What was remembered under a fingerprint is not found again once any one
/// thing changed: a command, the directory, the environment, the arguments,
/// what runs it, a file by name or by content, or what a dependency
/// contributes.
pub proof fn a_change_reruns_a_beam(
    before: CacheableBeam,
    files: &Vec<(String, Result<String, String>)>,
    stored: Option<Manifest>,
    outputs: bool,
    first: (Option<Assessment>, Option<String>),
    now: CacheableBeam,
    files_now: &Vec<(String, Result<String, String>)>,
    remembered: Manifest,
    outputs_now: bool,
    second: (Option<Assessment>, Option<String>),
)
    requires
        call_ensures(CacheableBeam::decide, (before, files, stored, outputs), first),
        call_ensures(
            CacheableBeam::decide,
            (now, files_now, Some(remembered), outputs_now),
            second,
        ),
        first.0 matches Some(found) && remembered.fingerprint@ == found.fingerprint@,
        facts_short(looked_at(before, files@)),
        facts_short(looked_at(now, files_now@)),
        differ_in_one(looked_at(before, files@), looked_at(now, files_now@)),
    ensures
        (second.0 matches Some(found) && found.hit is Some) ==> a_hash_is_shared(),
{
    all_hashed(files@);
    all_hashed(files_now@);
    let f = looked_at(before, files@);
    let g = looked_at(now, files_now@);
    assert(f.files =~= before.facts(files@).files);
    assert(g.files =~= now.facts(files_now@).files);
    if second.0 matches Some(found) && found.hit is Some {
        one_difference_shows(f, g);
    }
}

/// While nothing changed a beam is not run again: what was remembered is
/// found, unless it is not to be read or the outputs are gone.
pub proof fn nothing_changed_nothing_runs(
    before: CacheableBeam,
    files: &Vec<(String, Result<String, String>)>,
    stored: Option<Manifest>,
    outputs: bool,
    first: (Option<Assessment>, Option<String>),
    now: CacheableBeam,
    files_now: &Vec<(String, Result<String, String>)>,
    remembered: Manifest,
    outputs_now: bool,
    second: (Option<Assessment>, Option<String>),
)
    requires
        call_ensures(CacheableBeam::decide, (before, files, stored, outputs), first),
        call_ensures(
            CacheableBeam::decide,
            (now, files_now, Some(remembered), outputs_now),
            second,
        ),
        first.0 matches Some(found) && remembered.fingerprint@ == found.fingerprint@,
        looked_at(before, files@) == looked_at(now, files_now@),
        every_hash_known(files_now@),
    ensures
        second.0 matches Some(found) && found.fingerprint@ == remembered.fingerprint@ && found.hit
            == if outputs_now && !now.force {
            Some(remembered)
        } else {
            None
        },
{
    all_hashed(files@);
    all_hashed(files_now@);
    let f = looked_at(before, files@);
    let g = looked_at(now, files_now@);
    assert(f.files.len() == files@.len() && g.files.len() == files_now@.len());
    assert(f.files =~= before.facts(files@).files);
    assert(g.files =~= now.facts(files_now@).files);
}

/// What a beam is looked up by is what it renders to: its commands, directory
/// and environment, its arguments, what its dependencies contribute, in
/// order, and what runs it.
pub proof fn a_beam_is_looked_up_by_what_it_renders_to(
    beam: &Beam,
    rendered: &Option<RenderedBeam>,
    args: &Vec<String>,
    contributions: &Option<Vec<Option<String>>>,
    remembers: bool,
    force: bool,
    r: Option<CacheableBeam>,
    files: Seq<(String, Result<String, String>)>,
)
    requires
        call_ensures(
            cacheable_beam,
            (beam, rendered, args, contributions, remembers, force),
            r,
        ),
    ensures
        r is Some <==> remembers && beam.inputs@.len() > 0 && rendered is Some
            && contributions is Some && forall|i: int|
            0 <= i < contributions->Some_0@.len() ==> (
            #[trigger] contributions->Some_0@[i]) is Some,
        r matches Some(found) ==> {
            let plan = plan_of(*beam, rendered->Some_0, args@);
            let all = contributions->Some_0@;
            let seen = looked_at(found, files);
            &&& seen.commands == plan.commands
            &&& seen.cwd == plan.cwd
            &&& seen.env == plan.env
            &&& seen.args == plan.args
            &&& seen.executor == plan.executor
            &&& seen.needs == Seq::new(all.len(), |i: int| all[i]->Some_0@)
            &&& found.force == force
        },
{
    if let Some(found) = r {
        let all = contributions->Some_0@;
        assert forall|i: int| 0 <= i < all.len() implies all[i] == Some(
            #[trigger] found.needs@[i],
        ) by {}
        assert(views(found.needs@) =~= Seq::new(all.len(), |i: int| all[i]->Some_0@));
        assert(all_known(all));
    } else if remembers && beam.inputs@.len() > 0 && rendered is Some && contributions is Some {
        let all = contributions->Some_0@;
        assert(!all_known(all));
    }
}

/// A dependent that was remembered under what one of its needs contributed is
/// run again once that need contributes something else.
pub proof fn a_changed_need_reruns_what_depends_on_it(
    before: CacheableBeam,
    files: &Vec<(String, Result<String, String>)>,
    stored: Option<Manifest>,
    outputs: bool,
    first: (Option<Assessment>, Option<String>),
    now: CacheableBeam,
    remembered: Manifest,
    outputs_now: bool,
    second: (Option<Assessment>, Option<String>),
    j: int,
)
    requires
        call_ensures(CacheableBeam::decide, (before, files, stored, outputs), first),
        call_ensures(CacheableBeam::decide, (now, files, Some(remembered), outputs_now), second),
        first.0 matches Some(found) && remembered.fingerprint@ == found.fingerprint@,
        facts_short(looked_at(before, files@)),
        facts_short(looked_at(now, files@)),
        looked_at(now, files@) == (FactsView {
            needs: looked_at(now, files@).needs,
            ..looked_at(before, files@)
        }),
        0 <= j < before.needs@.len(),
        j < now.needs@.len(),
        before.needs@[j]@ != now.needs@[j]@,
    ensures
        (second.0 matches Some(found) && found.hit is Some) ==> a_hash_is_shared(),
{
    assert(views(before.needs@)[j] != views(now.needs@)[j]);
    a_change_reruns_a_beam(
        before,
        files,
        stored,
        outputs,
        first,
        now,
        files,
        remembered,
        outputs_now,
        second,
    );
}

/// What is remembered of a success is accepted when it is read again, and is
/// about that success.
pub proof fn what_is_remembered_is_accepted(
    beam: &Beam,
    fingerprint: String,
    duration_ms: u64,
    m: Manifest,
    r: Option<Manifest>,
)
    requires
        call_ensures(remember, (beam, fingerprint, duration_ms), m),
        call_ensures(accept_manifest, (Some(m),), r),
    ensures
        r == Some(m),
        m.fingerprint@ == fingerprint@,
        m.duration_ms == duration_ms,
        views(m.outputs@) == views(beam.outputs@),
{
}

} // verus!
