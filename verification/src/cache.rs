//! Whether a beam has to run: what is remembered of it is compared with what
//! it depends on now.

use vstd::prelude::*;
use vstd::string::*;
use crate::fingerprint::{
    blake3_hex, differ_in_one, every_field_counts, fingerprint, fingerprint_of, framed, items,
    lengths_fit, BeamFacts, FactsView,
};
use crate::loader::pair_views;
use crate::model::{copy_pairs, copy_strings, Beam};
use crate::plan::{executor_label, executor_word, RenderedBeam};
use crate::store::{Manifest, FORMAT_VERSION};
use crate::text::{opt_view, same_text, text5, views};

verus! {

/// What came of comparing: the beam's fingerprint, which is also what it
/// contributes to what depends on it, and the manifest to replay where the
/// beam need not run.
#[derive(Debug, PartialEq)]
pub struct Assessment {
    pub fingerprint: String,
    pub hit: Option<Manifest>,
}

/// What every dependency contributes, where each contributes something.
pub open spec fn all_known(contributions: Seq<Option<String>>) -> bool {
    forall|i: int| 0 <= i < contributions.len() ==> (#[trigger] contributions[i]) is Some
}

/// Whether a beam can be remembered at all: results are remembered, it
/// declares inputs, it renders, and every dependency contributes something.
/// What the dependencies contribute comes back.
pub fn cacheable(
    remembers: bool,
    renders: bool,
    inputs: &Vec<String>,
    contributions: &Vec<Option<String>>,
) -> (r: Option<Vec<String>>)
    ensures
        r is Some <==> remembers && renders && inputs@.len() > 0 && all_known(contributions@),
        r matches Some(needs) ==> needs@.len() == contributions@.len() && forall|i: int|
            0 <= i < needs@.len() ==> contributions@[i] == Some(#[trigger] needs@[i]),
{
    if !remembers || !renders || inputs.len() == 0 {
        return None;
    }
    let mut needs: Vec<String> = Vec::new();
    let mut i: usize = 0;
    while i < contributions.len()
        invariant
            i <= contributions@.len(),
            needs@.len() == i,
            forall|k: int| 0 <= k < i ==> contributions@[k] == Some(#[trigger] needs@[k]),
        decreases contributions.len() - i,
    {
        match &contributions[i] {
            Some(c) => {
                needs.push(c.clone());
            },
            None => {
                return None;
            },
        }
        i += 1;
    }
    assert forall|k: int| 0 <= k < contributions@.len() implies (#[trigger] contributions@[k]) is Some by {
        assert(contributions@[k] == Some(needs@[k]));
    }
    Some(needs)
}

/// Everything about a beam, but for its inputs, that decides whether it has
/// to run.
#[derive(Debug, PartialEq)]
pub struct CacheableBeam {
    pub commands: Vec<String>,
    pub cwd: String,
    pub env: Vec<(String, String)>,
    pub args: Vec<String>,
    pub needs: Vec<String>,
    pub executor: String,
    /// What is remembered is not read.
    pub force: bool,
}

/// What deciding whether a beam has to run takes, where it can be remembered
/// at all: what it runs and where as `rendered`, its arguments, what its
/// dependencies contribute, and what runs it.
pub fn cacheable_beam(
    beam: &Beam,
    rendered: &Option<RenderedBeam>,
    args: &Vec<String>,
    contributions: &Option<Vec<Option<String>>>,
    remembers: bool,
    force: bool,
) -> (r: Option<CacheableBeam>)
    ensures
        r is Some <==> remembers && beam.inputs@.len() > 0 && *rendered is Some && (
        *contributions matches Some(all) && all_known(all@)),
        r matches Some(facts) ==> {
            let plan = rendered->Some_0@;
            let all = contributions->Some_0@;
            &&& views(facts.commands@) == plan.commands
            &&& facts.cwd@ == plan.cwd
            &&& pair_views(facts.env@) == plan.env
            &&& views(facts.args@) == views(args@)
            &&& facts.needs@.len() == all.len()
            &&& forall|i: int|
                0 <= i < all.len() ==> all[i] == Some(#[trigger] facts.needs@[i])
            &&& facts.executor@ == executor_word(beam.executor@)
            &&& facts.force == force
        },
{
    match (rendered, contributions) {
        (Some(plan), Some(all)) => match cacheable(remembers, true, &beam.inputs, all) {
            Some(needs) => Some(
                CacheableBeam {
                    commands: copy_strings(&plan.commands),
                    cwd: plan.cwd.clone(),
                    env: copy_pairs(&plan.env),
                    args: copy_strings(args),
                    needs,
                    executor: executor_label(&beam.executor),
                    force,
                },
            ),
            None => None,
        },
        _ => None,
    }
}

/// What is remembered of a beam that succeeded: what it depended on, the
/// outputs it declares, and how long it took.
pub fn remember(beam: &Beam, fingerprint: String, duration_ms: u64) -> (r: Manifest)
    ensures
        r.version == FORMAT_VERSION,
        r.fingerprint == fingerprint,
        views(r.outputs@) == views(beam.outputs@),
        r.duration_ms == duration_ms,
{
    Manifest::new(fingerprint, copy_strings(&beam.outputs), duration_ms)
}

/// The first input that could not be hashed.
pub open spec fn first_unhashed(files: Seq<(String, Result<String, String>)>) -> Option<int>
    decreases files.len(),
{
    if files.len() == 0 {
        None
    } else {
        match first_unhashed(files.drop_last()) {
            Some(i) => Some(i),
            None => if files.last().1 is Err {
                Some(files.len() - 1)
            } else {
                None
            },
        }
    }
}

proof fn first_unhashed_early(files: Seq<(String, Result<String, String>)>, n: int)
    requires
        0 <= n <= files.len(),
        first_unhashed(files.take(n)) is Some,
    ensures
        first_unhashed(files) == first_unhashed(files.take(n)),
    decreases files.len() - n,
{
    if n == files.len() {
        assert(files.take(n) == files);
    } else {
        assert(files.take(n + 1).drop_last() == files.take(n));
        first_unhashed_early(files, n + 1);
    }
}

/// The inputs with their hashes.
pub open spec fn hashed(files: Seq<(String, Result<String, String>)>) -> Seq<
    (Seq<char>, Seq<char>),
> {
    Seq::new(files.len(), |i: int| (files[i].0@, files[i].1->Ok_0@))
}

impl CacheableBeam {
    /// What the beam's fingerprint is made of.
    pub open spec fn facts(self, files: Seq<(String, Result<String, String>)>) -> FactsView {
        FactsView {
            files: hashed(files),
            commands: views(self.commands@),
            cwd: self.cwd@,
            env: pair_views(self.env@),
            args: views(self.args@),
            needs: views(self.needs@),
            executor: self.executor@,
        }
    }

    /// The manifest to replay: what is remembered, where it is read, it was
    /// made of the same facts, and the beam's outputs are there.
    pub open spec fn hit(
        self,
        files: Seq<(String, Result<String, String>)>,
        stored: Option<Manifest>,
        outputs: bool,
    ) -> Option<Manifest> {
        match stored {
            Some(manifest) => if !self.force && outputs && manifest.fingerprint@ == fingerprint_of(
                self.facts(files),
            ) {
                Some(manifest)
            } else {
                None
            },
            None => None,
        }
    }

    /// Whether the beam has to run. `files` are its inputs, sorted, each with
    /// its hash or why it has none; `stored` is what is remembered of it;
    /// `outputs` says whether its outputs are there. A beam whose inputs
    /// match no file, or one of whose inputs cannot be hashed, is not
    /// remembered, and a notice says why.
    pub fn decide(
        self,
        files: &Vec<(String, Result<String, String>)>,
        stored: Option<Manifest>,
        outputs: bool,
    ) -> (r: (Option<Assessment>, Option<String>))
        ensures
            files@.len() == 0 ==> r.0 is None && opt_view(r.1) == Some(
                "cache: `inputs` matched no file; running without cache"@,
            ),
            first_unhashed(files@) matches Some(i) ==> 0 <= i < files@.len() && r.0 is None
                && opt_view(r.1) == Some(
                "cache: cannot hash input `"@ + files@[i].0@ + "` ("@ + files@[i].1->Err_0@
                    + "); running without cache"@,
            ),
            files@.len() > 0 && first_unhashed(files@) is None ==> {
                &&& r.1 is None
                &&& r.0 matches Some(a) && a.fingerprint@ == fingerprint_of(self.facts(files@))
                    && a.hit == self.hit(files@, stored, outputs)
            },
    {
        if files.len() == 0 {
            return (
                None,
                Some("cache: `inputs` matched no file; running without cache".to_owned()),
            );
        }
        let mut hashes: Vec<(String, String)> = Vec::new();
        let mut i: usize = 0;
        while i < files.len()
            invariant
                i <= files@.len(),
                files@.len() > 0,
                hashes@.len() == i,
                first_unhashed(files@.take(i as int)) is None,
                forall|k: int|
                    0 <= k < i ==> (#[trigger] hashes@[k]).0@ == files@[k].0@ && hashes@[k].1@
                        == files@[k].1->Ok_0@,
            decreases files.len() - i,
        {
            let (relative, hash) = &files[i];
            assert(files@.take(i + 1).drop_last() == files@.take(i as int));
            match hash {
                Ok(hash) => {
                    hashes.push((relative.clone(), hash.clone()));
                },
                Err(error) => {
                    proof {
                        first_unhashed_early(files@, i + 1);
                    }
                    return (
                        None,
                        Some(
                            text5(
                                "cache: cannot hash input `",
                                relative.as_str(),
                                "` (",
                                error.as_str(),
                                "); running without cache",
                            ),
                        ),
                    );
                },
            }
            i += 1;
        }
        assert(files@.take(files@.len() as int) == files@);
        let CacheableBeam { commands, cwd, env, args, needs, executor, force } = self;
        let facts = BeamFacts { files: hashes, commands, cwd, env, args, needs, executor };
        proof {
            assert(facts@.files =~= hashed(files@));
        }
        let print = fingerprint(&facts);
        let hit = if force || !outputs {
            None
        } else {
            match stored {
                Some(manifest) => if same_text(manifest.fingerprint.as_str(), print.as_str()) {
                    Some(manifest)
                } else {
                    None
                },
                None => None,
            }
        };
        (Some(Assessment { fingerprint: print, hit }), None)
    }
}

/// A beam need not run again while nothing that it depends on changes: what
/// its success was remembered under is what it is looked up by.
pub proof fn an_unchanged_beam_is_not_run_again(
    before: CacheableBeam,
    files: Seq<(String, Result<String, String>)>,
    remembered: Manifest,
    now: CacheableBeam,
    files_now: Seq<(String, Result<String, String>)>,
)
    requires
        remembered.fingerprint@ == fingerprint_of(before.facts(files)),
        now.facts(files_now) == before.facts(files),
        !now.force,
    ensures
        now.hit(files_now, Some(remembered), true) == Some(remembered),
{
}

/// A hit is what was remembered, it is read only where that was not ruled
/// out, and it stands in only for outputs that are still there.
pub proof fn a_hit_is_what_was_remembered(
    beam: CacheableBeam,
    files: Seq<(String, Result<String, String>)>,
    stored: Option<Manifest>,
    outputs: bool,
)
    requires
        beam.hit(files, stored, outputs) is Some,
    ensures
        beam.hit(files, stored, outputs) == stored,
        !beam.force,
        outputs,
{
}

/// A change in any one thing that a beam depends on makes it run again, but
/// for two texts with one hash.
pub proof fn a_change_is_noticed(
    before: CacheableBeam,
    files: Seq<(String, Result<String, String>)>,
    remembered: Manifest,
    now: CacheableBeam,
    files_now: Seq<(String, Result<String, String>)>,
    outputs: bool,
)
    requires
        lengths_fit(items(before.facts(files))),
        lengths_fit(items(now.facts(files_now))),
        remembered.fingerprint@ == fingerprint_of(before.facts(files)),
        differ_in_one(before.facts(files), now.facts(files_now)),
    ensures
        now.hit(files_now, Some(remembered), outputs) is Some ==> {
            let old_bytes = framed(items(before.facts(files)));
            let new_bytes = framed(items(now.facts(files_now)));
            old_bytes != new_bytes && blake3_hex(old_bytes) == blake3_hex(new_bytes)
        },
{
    let f = before.facts(files);
    let g = now.facts(files_now);
    if framed(items(f)) == framed(items(g)) {
        every_field_counts(f, g);
    }
}

} // verus!
