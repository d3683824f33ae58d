//! Which changed paths concern a watch session: the loaded Beamfiles, and
//! the files that the watched beams' `inputs` resolve to.
//!
//! Whether a path is an input is answered by expanding the patterns again,
//! as fingerprinting does. Matching a path against the patterns only keeps
//! that expansion from being done for every change.

use vstd::prelude::*;
use vstd::string::*;
use crate::error::CoreError;
use crate::files::{is_input, unified, unify, Walked};
use crate::globs::{any_matches, build_globset, effective, PatternSet};
use crate::graph::{execution_subgraph, holds_id, id_views, place_of, place_of_is_last, reaches, unknown_beam};
use crate::loader::SourceMap;
use crate::model::{copy_strings, BeamId, Project, ProjectView};
use crate::paths::{
    below, components, contains_path, file_name, file_name_of, has_component, holds_path,
    is_same_path, join_path, joined_path, parent, parent_of, same_path, strip_prefix,
};
use crate::text::{same_text, views};

verus! {

/// A path in the form that paths are compared in: canonical where it exists,
/// else its directory's canonical form and its name, so that a deleted file
/// is still the file it was. The two canonical forms are what the file
/// system answers.
pub open spec fn normal_form(
    path: Seq<char>,
    canonical: Option<Seq<char>>,
    parent_canonical: Option<Seq<char>>,
) -> Seq<char> {
    match canonical {
        Some(c) => c,
        None => match (parent_of(path), file_name_of(path), parent_canonical) {
            (Some(_), Some(name), Some(dir)) => joined_path(dir, name),
            _ => path,
        },
    }
}

/// A path in the form that paths are compared in.
pub fn normalize(path: &str, canonical: Option<String>, parent_canonical: Option<String>) -> (r:
    String)
    ensures
        r@ == normal_form(
            path@,
            crate::text::opt_view(canonical),
            crate::text::opt_view(parent_canonical),
        ),
{
    match canonical {
        Some(c) => c,
        None => match (parent(path), file_name(path), parent_canonical) {
            (Some(_), Some(name), Some(dir)) => join_path(dir.as_str(), name.as_str()),
            _ => path.to_owned(),
        },
    }
}

/// The normal forms of paths, as far as they are known.
#[derive(Debug, PartialEq)]
pub struct NormalForms {
    pub forms: Vec<(String, String)>,
}

/// The first form given for a path, or the path itself.
pub open spec fn form_of(forms: Seq<(String, String)>, path: Seq<char>) -> Seq<char>
    decreases forms.len(),
{
    if forms.len() == 0 {
        path
    } else if forms[0].0@ == path {
        forms[0].1@
    } else {
        form_of(forms.drop_first(), path)
    }
}

impl NormalForms {
    /// The normal form of `path`.
    pub fn of(&self, path: &str) -> (r: String)
        ensures
            r@ == form_of(self.forms@, path@),
    {
        let mut i: usize = 0;
        assert(self.forms@.skip(0) == self.forms@);
        while i < self.forms.len()
            invariant
                i <= self.forms@.len(),
                form_of(self.forms@, path@) == form_of(self.forms@.skip(i as int), path@),
            decreases self.forms.len() - i,
        {
            let (from, to) = &self.forms[i];
            if same_text(from.as_str(), path) {
                return to.clone();
            }
            assert(self.forms@.skip(i as int).drop_first() == self.forms@.skip(i + 1));
            i += 1;
        }
        path.to_owned()
    }
}

/// What a changed path means to a session.
#[derive(Debug, Clone, Copy, PartialEq, Eq, Structural)]
pub enum Relevance {
    /// A loaded Beamfile: the project has to be loaded again.
    Beamfile,
    /// An input of a watched beam: the run has to be repeated.
    Input,
    /// Nothing to the session.
    Irrelevant,
    /// The patterns of this group match a path that is not among its known
    /// files: the group has to be expanded before that can be told.
    Expand(usize),
}

/// The `inputs` of the beams in one directory.
pub struct InputGroup {
    base: String,
    patterns: Vec<String>,
    set: PatternSet,
    /// What the patterns were last expanded to, in normal form, each once.
    files: Vec<String>,
}

pub struct GroupView {
    pub base: Seq<char>,
    pub patterns: Seq<Seq<char>>,
    pub files: Seq<Seq<char>>,
}

impl View for InputGroup {
    type V = GroupView;

    closed spec fn view(&self) -> GroupView {
        GroupView {
            base: self.base@,
            patterns: views(self.patterns@),
            files: views(self.files@),
        }
    }
}

impl InputGroup {
    #[verifier::type_invariant]
    spec fn inv(self) -> bool {
        self.set@ == effective(views(self.patterns@))
    }

    /// The directory.
    pub fn base(&self) -> (r: &str)
        ensures
            r@ == self@.base,
    {
        self.base.as_str()
    }

    /// The patterns.
    pub fn patterns(&self) -> (r: &Vec<String>)
        ensures
            views(r@) == self@.patterns,
    {
        &self.patterns
    }

    /// How many files the patterns were last expanded to.
    pub fn file_count(&self) -> (r: usize)
        ensures
            r == self@.files.len(),
    {
        self.files.len()
    }

    /// Whether the patterns match `path`, which is in normal form.
    pub fn matches(&self, path: &str) -> (r: bool)
        ensures
            r == pattern_concerns(self@, path@),
    {
        proof {
            use_type_invariant(self);
        }
        match strip_prefix(path, self.base.as_str()) {
            None => false,
            Some(relative) => self.set.is_match(unify(relative.as_str()).as_str()),
        }
    }

    /// Whether `path`, which is in normal form, is one of the files known.
    pub fn knows(&self, path: &str) -> (r: bool)
        ensures
            r == holds_path(self@.files, path@),
    {
        contains_path(&self.files, path)
    }
}

/// A path below the group's directory matches one of its patterns.
pub open spec fn pattern_concerns(g: GroupView, path: Seq<char>) -> bool {
    below(path, g.base) is Some && any_matches(
        effective(g.patterns),
        unified(below(path, g.base)->Some_0),
    )
}

/// Paths without those that repeat an earlier one.
pub open spec fn each_once(paths: Seq<Seq<char>>) -> Seq<Seq<char>>
    decreases paths.len(),
{
    if paths.len() == 0 {
        Seq::empty()
    } else if holds_path(each_once(paths.drop_last()), paths.last()) {
        each_once(paths.drop_last())
    } else {
        each_once(paths.drop_last()).push(paths.last())
    }
}

/// `patterns` with those of `more` that it does not have yet.
pub open spec fn with_patterns(patterns: Seq<Seq<char>>, more: Seq<Seq<char>>) -> Seq<Seq<char>>
    decreases more.len(),
{
    if more.len() == 0 {
        patterns
    } else {
        let before = with_patterns(patterns, more.drop_last());
        if before.contains(more.last()) {
            before
        } else {
            before.push(more.last())
        }
    }
}

/// The first group in the directory `base`.
pub open spec fn group_place(groups: Seq<(Seq<char>, Seq<Seq<char>>)>, base: Seq<char>) -> Option<
    int,
>
    decreases groups.len(),
{
    if groups.len() == 0 {
        None
    } else {
        match group_place(groups.drop_last(), base) {
            Some(i) => Some(i),
            None => if same_path(groups.last().0, base) {
                Some(groups.len() - 1)
            } else {
                None
            },
        }
    }
}

/// The groups with a beam's `inputs` added to that of its directory.
pub open spec fn with_beam(
    groups: Seq<(Seq<char>, Seq<Seq<char>>)>,
    base: Seq<char>,
    inputs: Seq<Seq<char>>,
) -> Seq<(Seq<char>, Seq<Seq<char>>)> {
    match group_place(groups, base) {
        Some(i) => groups.update(i, (groups[i].0, with_patterns(groups[i].1, inputs))),
        None => groups.push((base, inputs)),
    }
}

/// A beam that is watched: it has `inputs`, and it is among what the target
/// needs, where there is one.
pub open spec fn is_watched(p: ProjectView, target: Option<Seq<char>>, i: int) -> bool {
    p.beams[i].inputs.len() > 0 && (target is Some ==> reaches(
        p,
        target->Some_0,
        p.beams[i].id,
    ))
}

/// The directories and patterns of the watched beams among the first `n`.
pub open spec fn watched_groups(
    p: ProjectView,
    target: Option<Seq<char>>,
    forms: Seq<(String, String)>,
    n: int,
) -> Seq<(Seq<char>, Seq<Seq<char>>)>
    decreases n,
{
    if n <= 0 {
        Seq::empty()
    } else {
        let before = watched_groups(p, target, forms, n - 1);
        if is_watched(p, target, n - 1) {
            with_beam(before, form_of(forms, p.beams[n - 1].dir), p.beams[n - 1].inputs)
        } else {
            before
        }
    }
}

/// What a session watches.
pub struct WatchSet {
    beamfiles: Vec<String>,
    groups: Vec<InputGroup>,
}

pub struct WatchView {
    pub beamfiles: Seq<Seq<char>>,
    pub groups: Seq<GroupView>,
}

impl View for WatchSet {
    type V = WatchView;

    closed spec fn view(&self) -> WatchView {
        WatchView {
            beamfiles: views(self.beamfiles@),
            groups: Seq::new(self.groups@.len(), |i: int| self.groups@[i]@),
        }
    }
}

spec fn pairs_of(groups: Seq<(String, Vec<String>)>) -> Seq<(Seq<char>, Seq<Seq<char>>)> {
    Seq::new(groups.len(), |i: int| (groups[i].0@, views(groups[i].1@)))
}

proof fn group_place_early(groups: Seq<(Seq<char>, Seq<Seq<char>>)>, base: Seq<char>, n: int)
    requires
        0 <= n <= groups.len(),
        group_place(groups.take(n), base) is Some,
    ensures
        group_place(groups, base) == group_place(groups.take(n), base),
    decreases groups.len() - n,
{
    if n == groups.len() {
        assert(groups.take(n) == groups);
    } else {
        assert(groups.take(n + 1).drop_last() == groups.take(n));
        group_place_early(groups, base, n + 1);
    }
}

fn find_group(groups: &Vec<(String, Vec<String>)>, base: &str) -> (r: Option<usize>)
    ensures
        match r {
            Some(i) => i < groups@.len() && group_place(pairs_of(groups@), base@) == Some(
                i as int,
            ),
            None => group_place(pairs_of(groups@), base@) is None,
        },
{
    let ghost all = pairs_of(groups@);
    let mut i: usize = 0;
    while i < groups.len()
        invariant
            all == pairs_of(groups@),
            i <= groups@.len(),
            group_place(all.take(i as int), base@) is None,
        decreases groups.len() - i,
    {
        assert(all.take(i + 1).drop_last() == all.take(i as int));
        if is_same_path(groups[i].0.as_str(), base) {
            proof {
                group_place_early(all, base@, i + 1);
            }
            return Some(i);
        }
        i += 1;
    }
    assert(all.take(all.len() as int) == all);
    None
}

fn add_patterns(patterns: Vec<String>, more: &Vec<String>) -> (r: Vec<String>)
    ensures
        views(r@) == with_patterns(views(patterns@), views(more@)),
{
    let ghost start = views(patterns@);
    let ghost added = views(more@);
    let mut patterns = patterns;
    let mut i: usize = 0;
    while i < more.len()
        invariant
            i <= more@.len(),
            added == views(more@),
            views(patterns@) == with_patterns(start, added.take(i as int)),
        decreases more.len() - i,
    {
        assert(added.take(i + 1).drop_last() == added.take(i as int));
        assert(added.take(i + 1).last() == more@[i as int]@);
        if !crate::check::is_param(&patterns, more[i].as_str()) {
            let ghost before = views(patterns@);
            patterns.push(more[i].clone());
            assert(views(patterns@) =~= before.push(more@[i as int]@));
        }
        i += 1;
    }
    assert(added.take(added.len() as int) == added);
    patterns
}

/// `subgraph` holds the beams that the target needs, where there is one.
spec fn is_subgraph(
    p: ProjectView,
    target: Option<Seq<char>>,
    subgraph: Option<Vec<BeamId>>,
) -> bool {
    &&& target is Some <==> subgraph is Some
    &&& subgraph matches Some(ids) ==> forall|n: Seq<char>|
        id_views(ids@).contains(n) <==> #[trigger] reaches(p, target->Some_0, n) && place_of(
            p.beams,
            n,
        ) is Some
}

/// Whether beam `i` is watched: all are where there is no subgraph.
fn watches(project: &Project, subgraph: &Option<Vec<BeamId>>, i: usize, Ghost(target): Ghost<Option<Seq<char>>>) -> (r: bool)
    requires
        i < project.beams@.len(),
        is_subgraph(project@, target, *subgraph),
    ensures
        r == is_watched(project@, target, i as int),
{
    let beam = &project.beams[i];
    assert(project@.beams[i as int] == beam@);
    if beam.inputs.len() == 0 {
        return false;
    }
    match subgraph {
        None => true,
        Some(ids) => {
            proof {
                place_of_is_last(project@.beams, beam.id@);
                assert(project@.beams[i as int].id == beam.id@);
            }
            assert(reaches(project@, target->Some_0, beam.id@) == id_views(ids@).contains(
                beam.id@,
            ));
            holds_id(ids, beam.id.0.as_str())
        },
    }
}

/// The view of an optional id.
pub open spec fn target_view(target: Option<&BeamId>) -> Option<Seq<char>> {
    match target {
        Some(id) => Some(id@),
        None => None,
    }
}

impl WatchSet {
    /// What a session for `target`, or for the whole project, watches. No
    /// patterns have been expanded yet.
    pub fn new(
        project: &Project,
        target: Option<&BeamId>,
        sources: &SourceMap,
        forms: &NormalForms,
    ) -> (r: Result<WatchSet, CoreError>)
        ensures
            match r {
                Ok(set) => {
                    &&& target matches Some(id) ==> place_of(project@.beams, id@) is Some
                    &&& set@.beamfiles == Seq::new(
                        sources@.len(),
                        |i: int| form_of(forms.forms@, sources@[i].0),
                    )
                    &&& set@.groups == Seq::new(
                        watched_groups(
                            project@,
                            target_view(target),
                            forms.forms@,
                            project.beams@.len() as int,
                        ).len(),
                        |i: int|
                            GroupView {
                                base: watched_groups(
                                    project@,
                                    target_view(target),
                                    forms.forms@,
                                    project.beams@.len() as int,
                                )[i].0,
                                patterns: watched_groups(
                                    project@,
                                    target_view(target),
                                    forms.forms@,
                                    project.beams@.len() as int,
                                )[i].1,
                                files: Seq::<Seq<char>>::empty(),
                            },
                    )
                },
                Err(error) => target matches Some(id) && place_of(project@.beams, id@) is None
                    && error@ == unknown_beam(project@, id@, None),
            },
    {
        let ghost p = project@;
        let ghost t = target_view(target);
        let subgraph: Option<Vec<BeamId>> = match target {
            None => None,
            Some(id) => match execution_subgraph(project, id) {
                Ok(ids) => Some(ids),
                Err(error) => {
                    return Err(error);
                },
            },
        };
        assert(is_subgraph(p, t, subgraph));
        let mut groups: Vec<(String, Vec<String>)> = Vec::new();
        let mut i: usize = 0;
        assert(pairs_of(groups@) =~= watched_groups(p, t, forms.forms@, 0));
        while i < project.beams.len()
            invariant
                p == project@,
                i <= project.beams@.len(),
                is_subgraph(p, t, subgraph),
                pairs_of(groups@) == watched_groups(p, t, forms.forms@, i as int),
            decreases project.beams.len() - i,
        {
            if watches(project, &subgraph, i, Ghost(t)) {
                let beam = &project.beams[i];
                assert(p.beams[i as int] == beam@);
                let base = forms.of(beam.dir.as_str());
                let ghost before = pairs_of(groups@);
                match find_group(&groups, base.as_str()) {
                    Some(k) => {
                        let (dir, patterns) = groups.remove(k);
                        let patterns = add_patterns(patterns, &beam.inputs);
                        groups.insert(k, (dir, patterns));
                        assert(pairs_of(groups@) =~= with_beam(before, base@, beam@.inputs));
                    },
                    None => {
                        groups.push((base, copy_strings(&beam.inputs)));
                        assert(pairs_of(groups@) =~= with_beam(before, base@, beam@.inputs));
                    },
                }
            }
            i += 1;
        }
        let ghost pairs = pairs_of(groups@);
        let mut compiled: Vec<InputGroup> = Vec::new();
        let mut k: usize = 0;
        while k < groups.len()
            invariant
                pairs == pairs_of(groups@),
                k <= groups@.len(),
                compiled@.len() == k,
                forall|j: int|
                    0 <= j < k ==> (#[trigger] compiled@[j])@ == (GroupView {
                        base: pairs[j].0,
                        patterns: pairs[j].1,
                        files: Seq::<Seq<char>>::empty(),
                    }),
            decreases groups.len() - k,
        {
            let (base, patterns) = &groups[k];
            let set = build_globset(patterns);
            let copy = copy_strings(patterns);
            let group = InputGroup { base: base.clone(), patterns: copy, set, files: Vec::new() };
            assert(group@.files =~= Seq::<Seq<char>>::empty());
            compiled.push(group);
            k += 1;
        }
        let paths = sources.paths();
        let mut beamfiles: Vec<String> = Vec::new();
        let mut n: usize = 0;
        while n < paths.len()
            invariant
                n <= paths@.len(),
                paths@.len() == sources@.len(),
                forall|j: int| 0 <= j < paths@.len() ==> (#[trigger] paths@[j])@ == sources@[j].0,
                beamfiles@.len() == n,
                forall|j: int|
                    0 <= j < n ==> (#[trigger] beamfiles@[j])@ == form_of(
                        forms.forms@,
                        sources@[j].0,
                    ),
            decreases paths.len() - n,
        {
            assert(paths@[n as int]@ == sources@[n as int].0);
            beamfiles.push(forms.of(paths[n]));
            n += 1;
        }
        let set = WatchSet { beamfiles, groups: compiled };
        proof {
            assert(set@.beamfiles =~= Seq::new(
                sources@.len(),
                |i: int| form_of(forms.forms@, sources@[i].0),
            ));
            assert(set@.groups =~= Seq::new(
                pairs.len(),
                |i: int|
                    GroupView {
                        base: pairs[i].0,
                        patterns: pairs[i].1,
                        files: Seq::<Seq<char>>::empty(),
                    },
            ));
        }
        Ok(set)
    }

    /// The groups whose patterns are to be expanded.
    pub fn groups(&self) -> (r: &Vec<InputGroup>)
        ensures
            r@.len() == self@.groups.len(),
            forall|i: int| 0 <= i < r@.len() ==> (#[trigger] r@[i])@ == self@.groups[i],
    {
        &self.groups
    }

    /// Takes what the patterns of group `place` expand to, in normal form.
    pub fn expanded(self, place: usize, files: &Vec<String>) -> (r: WatchSet)
        requires
            place < self@.groups.len(),
        ensures
            r@.beamfiles == self@.beamfiles,
            r@.groups == self@.groups.update(
                place as int,
                GroupView { files: each_once(views(files@)), ..self@.groups[place as int] },
            ),
    {
        let ghost before = self@.groups;
        let ghost all = views(files@);
        let mut kept: Vec<String> = Vec::new();
        let mut i: usize = 0;
        assert(views(kept@) =~= each_once(all.take(0)));
        while i < files.len()
            invariant
                i <= files@.len(),
                all == views(files@),
                views(kept@) == each_once(all.take(i as int)),
            decreases files.len() - i,
        {
            assert(all.take(i + 1).drop_last() == all.take(i as int));
            assert(all.take(i + 1).last() == files@[i as int]@);
            if !contains_path(&kept, files[i].as_str()) {
                let ghost now = views(kept@);
                kept.push(files[i].clone());
                assert(views(kept@) =~= now.push(files@[i as int]@));
            }
            i += 1;
        }
        assert(all.take(all.len() as int) == all);
        let WatchSet { beamfiles, groups } = self;
        let mut groups = groups;
        let group = groups.remove(place);
        proof {
            use_type_invariant(&group);
        }
        let InputGroup { base, patterns, set, files: _ } = group;
        let group = InputGroup { base, patterns, set, files: kept };
        groups.insert(place, group);
        let r = WatchSet { beamfiles, groups };
        assert(r@.groups =~= before.update(
            place as int,
            GroupView { files: each_once(all), ..before[place as int] },
        ));
        r
    }

    /// How many files are watched for their content.
    pub fn file_count(&self) -> (r: u64)
        requires
            total_files(self@.groups) <= u64::MAX,
        ensures
            r == total_files(self@.groups),
    {
        let ghost all = self@.groups;
        let mut count: u64 = 0;
        let mut i: usize = 0;
        while i < self.groups.len()
            invariant
                all == self@.groups,
                i <= self.groups@.len(),
                total_files(all) <= u64::MAX,
                count == total_files(all.take(i as int)),
            decreases self.groups.len() - i,
        {
            proof {
                assert(all.take(i + 1).drop_last() == all.take(i as int));
                assert(all.take(i + 1).last() == self.groups@[i as int]@);
                total_files_grows(all, i + 1);
            }
            count = count + self.groups[i].file_count() as u64;
            i += 1;
        }
        assert(all.take(all.len() as int) == all);
        count
    }

    /// What a changed path, in normal form, means to the session, the first
    /// `from` groups having been ruled out.
    pub fn classify(&self, path: &str, from: usize) -> (r: Relevance)
        ensures
            r == relevance(self@, path@, from as int),
    {
        if has_component(path, ".git") || has_component(path, ".alba") {
            return Relevance::Irrelevant;
        }
        if contains_path(&self.beamfiles, path) {
            return Relevance::Beamfile;
        }
        let mut i: usize = from;
        while i < self.groups.len()
            invariant
                from <= i,
                relevance(self@, path@, from as int) == input_relevance(
                    self@.groups,
                    path@,
                    from as int,
                ),
                input_relevance(self@.groups, path@, from as int) == input_relevance(
                    self@.groups,
                    path@,
                    i as int,
                ),
            decreases self.groups.len() - i,
        {
            assert(self@.groups[i as int] == self.groups@[i as int]@);
            if self.groups[i].matches(path) {
                if self.groups[i].knows(path) {
                    return Relevance::Input;
                }
                return Relevance::Expand(i);
            }
            i += 1;
        }
        Relevance::Irrelevant
    }

    /// What a changed path means once group `place`, which had to be expanded
    /// to tell, has been.
    pub fn classify_expanded(&self, path: &str, place: usize) -> (r: Relevance)
        requires
            place < self@.groups.len(),
        ensures
            r == if holds_path(self@.groups[place as int].files, path@) {
                Relevance::Input
            } else {
                relevance(self@, path@, place + 1)
            },
    {
        assert(self@.groups[place as int] == self.groups@[place as int]@);
        assert(place < self.groups.len());
        if self.groups[place].knows(path) {
            Relevance::Input
        } else {
            self.classify(path, place + 1)
        }
    }
}

pub open spec fn total_files(groups: Seq<GroupView>) -> nat
    decreases groups.len(),
{
    if groups.len() == 0 {
        0
    } else {
        total_files(groups.drop_last()) + groups.last().files.len()
    }
}

proof fn total_files_grows(groups: Seq<GroupView>, n: int)
    requires
        0 <= n <= groups.len(),
    ensures
        total_files(groups.take(n)) <= total_files(groups),
    decreases groups.len() - n,
{
    if n == groups.len() {
        assert(groups.take(n) == groups);
    } else {
        assert(groups.take(n + 1).drop_last() == groups.take(n));
        total_files_grows(groups, n + 1);
    }
}

/// What a path means to the groups from place `from` on: the first whose
/// patterns match it decides.
pub open spec fn input_relevance(groups: Seq<GroupView>, path: Seq<char>, from: int) -> Relevance
    decreases groups.len() - from,
{
    if from < 0 || from >= groups.len() {
        Relevance::Irrelevant
    } else if pattern_concerns(groups[from], path) {
        if holds_path(groups[from].files, path) {
            Relevance::Input
        } else {
            Relevance::Expand(from as usize)
        }
    } else {
        input_relevance(groups, path, from + 1)
    }
}

/// What a changed path means: what lies in version control's directory or
/// the cache's means nothing, a Beamfile comes before an input.
pub open spec fn relevance(w: WatchView, path: Seq<char>, from: int) -> Relevance {
    if components(path).contains(".git"@) || components(path).contains(".alba"@) {
        Relevance::Irrelevant
    } else if holds_path(w.beamfiles, path) {
        Relevance::Beamfile
    } else {
        input_relevance(w.groups, path, from)
    }
}

/// What the cache writes, and what version control does for itself, never
/// wakes a session, whatever it watches.
pub proof fn own_directories_never_matter(w: WatchView, path: Seq<char>, from: int)
    requires
        components(path).contains(".alba"@) || components(path).contains(".git"@),
    ensures
        relevance(w, path, from) == Relevance::Irrelevant,
{
}

/// A path that matches no pattern of any group, and is no Beamfile, never
/// causes an expansion.
pub proof fn an_unmatched_path_costs_nothing(w: WatchView, path: Seq<char>, from: int)
    requires
        !holds_path(w.beamfiles, path),
        forall|i: int| 0 <= i < w.groups.len() ==> !pattern_concerns(#[trigger] w.groups[i], path),
        0 <= from,
    ensures
        relevance(w, path, from) == Relevance::Irrelevant,
    decreases w.groups.len() - from,
{
    if from < w.groups.len() {
        assert(!pattern_concerns(w.groups[from], path));
        an_unmatched_path_costs_nothing(w, path, from + 1);
    }
}

/// A file that the inputs of a group resolve to is never overlooked: what a
/// beam is remembered by is what wakes the session.
pub proof fn an_input_is_never_overlooked(w: WatchView, k: int, entry: Walked)
    requires
        0 <= k < w.groups.len(),
        is_input(w.groups[k].base, w.groups[k].patterns, entry),
        !components(entry.path@).contains(".git"@),
        !components(entry.path@).contains(".alba"@),
    ensures
        relevance(w, entry.path@, 0) != Relevance::Irrelevant,
{
    concerned_from(w.groups, entry.path@, 0, k);
}

proof fn concerned_from(groups: Seq<GroupView>, path: Seq<char>, from: int, k: int)
    requires
        0 <= from <= k < groups.len(),
        pattern_concerns(groups[k], path),
    ensures
        input_relevance(groups, path, from) != Relevance::Irrelevant,
    decreases k - from,
{
    if !pattern_concerns(groups[from], path) {
        concerned_from(groups, path, from + 1, k);
    }
}

} // verus!
