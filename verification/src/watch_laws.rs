//! What a watch session watches, and what wakes it.

use vstd::prelude::*;
use crate::error::CoreError;
use crate::files::unified;
use crate::globs::{any_matches, compiling, effective, glob_matches, glob_refusal, set_builds};
use crate::graph::{place_of, reaches};
use crate::loader::SourceMap;
use crate::model::{BeamId, Project, ProjectView};
use crate::paths::{below, components, file_name_of, holds_path, is_absolute, parent_of, same_path};
use crate::paths_laws::{
    a_component_is_the_root_or_a_name, a_name_is_a_path, joining_adds_components,
    names_are_components, names_of,
};
use crate::text::views;
use crate::watch_set::{
    each_once, form_of, group_place, input_relevance, is_watched, normalize, pattern_concerns,
    relevance, target_view, total_files, watched_groups, with_beam, with_patterns, GroupView, InputGroup, NormalForms,
    Relevance, WatchSet,
};

verus! {

/// The patterns that compile, in order.
pub open spec fn that_compile(patterns: Seq<Seq<char>>) -> Seq<Seq<char>> {
    patterns.filter(|p: Seq<char>| glob_refusal(p) is None)
}

proof fn compiling_filters(patterns: Seq<Seq<char>>)
    ensures
        compiling(patterns) == that_compile(patterns),
    decreases patterns.len(),
{
    reveal(Seq::filter);
    if patterns.len() > 0 {
        compiling_filters(patterns.drop_last());
    } else {
        assert(compiling(patterns) =~= that_compile(patterns));
    }
}

/// Patterns match a path exactly where one of them that compiles does, as
/// long as those that compile can be built into a set.
pub proof fn patterns_match_where_one_does(patterns: Seq<Seq<char>>, path: Seq<char>)
    ensures
        any_matches(effective(patterns), path) <==> set_builds(that_compile(patterns)) && exists|t:
            int|
            0 <= t < patterns.len() && glob_refusal(#[trigger] patterns[t]) is None
                && glob_matches(patterns[t], path),
{
    compiling_filters(patterns);
    let kept = that_compile(patterns);
    if any_matches(effective(patterns), path) {
        let i = choose|i: int| 0 <= i < kept.len() && glob_matches(#[trigger] kept[i], path);
        assert(kept.contains(kept[i]));
        filter_holds(patterns, kept[i]);
        let t = choose|t: int| 0 <= t < patterns.len() && patterns[t] == kept[i];
        assert(glob_refusal(patterns[t]) is None);
    }
    if set_builds(kept) && exists|t: int|
        0 <= t < patterns.len() && glob_refusal(#[trigger] patterns[t]) is None && glob_matches(
            patterns[t],
            path,
        ) {
        let t = choose|t: int|
            0 <= t < patterns.len() && glob_refusal(#[trigger] patterns[t]) is None
                && glob_matches(patterns[t], path);
        assert(patterns.contains(patterns[t]));
        filter_holds(patterns, patterns[t]);
        let i = choose|i: int| 0 <= i < kept.len() && kept[i] == patterns[t];
        assert(glob_matches(kept[i], path));
    }
}

proof fn filter_holds(patterns: Seq<Seq<char>>, x: Seq<char>)
    ensures
        that_compile(patterns).contains(x) <==> patterns.contains(x) && glob_refusal(x) is None,
    decreases patterns.len(),
{
    reveal(Seq::filter);
    if patterns.len() > 0 {
        let front = patterns.drop_last();
        filter_holds(front, x);
        let kept = that_compile(front);
        if front.contains(x) {
            let i = choose|i: int| 0 <= i < front.len() && front[i] == x;
            assert(patterns[i] == x);
        }
        if patterns.contains(x) && patterns.last() != x {
            let i = choose|i: int| 0 <= i < patterns.len() && patterns[i] == x;
            assert(front[i] == x);
        }
        if patterns.last() == x {
            assert(patterns[patterns.len() - 1] == x);
        }
        if kept.contains(x) {
            let i = choose|i: int| 0 <= i < kept.len() && kept[i] == x;
            assert(kept.push(patterns.last())[i] == x);
        }
        assert(kept.push(patterns.last())[kept.len() as int] == patterns.last());
    }
}

/// A path's normal form is the one that was given for it first; a path that
/// none was given for is its own.
pub proof fn a_form_is_what_was_given(forms: &NormalForms, path: &str, r: String)
    requires
        call_ensures(NormalForms::of, (forms, path), r),
    ensures
        forall|i: int|
            0 <= i < forms.forms@.len() && (#[trigger] forms.forms@[i]).0@ == path@ && (forall|j:
                int|
                0 <= j < i ==> (#[trigger] forms.forms@[j]).0@ != path@) ==> r@
                == forms.forms@[i].1@,
        (forall|i: int| 0 <= i < forms.forms@.len() ==> (#[trigger] forms.forms@[i]).0@ != path@)
            ==> r@ == path@,
{
    form_is_first(forms.forms@, path@);
}

proof fn form_is_first(forms: Seq<(String, String)>, path: Seq<char>)
    ensures
        forall|i: int|
            0 <= i < forms.len() && (#[trigger] forms[i]).0@ == path && (forall|j: int|
                0 <= j < i ==> (#[trigger] forms[j]).0@ != path) ==> form_of(forms, path)
                == forms[i].1@,
        (forall|i: int| 0 <= i < forms.len() ==> (#[trigger] forms[i]).0@ != path) ==> form_of(
            forms,
            path,
        ) == path,
    decreases forms.len(),
{
    if forms.len() > 0 {
        let rest = forms.drop_first();
        form_is_first(rest, path);
        assert forall|i: int|
            0 <= i < forms.len() && (#[trigger] forms[i]).0@ == path && (forall|j: int|
                0 <= j < i ==> (#[trigger] forms[j]).0@ != path) implies form_of(forms, path)
            == forms[i].1@ by {
            if i > 0 {
                assert(forms[0].0@ != path);
                assert(rest[i - 1] == forms[i]);
                assert forall|j: int| 0 <= j < i - 1 implies (#[trigger] rest[j]).0@ != path by {
                    assert(rest[j] == forms[j + 1]);
                }
            }
        }
        if forall|i: int| 0 <= i < forms.len() ==> (#[trigger] forms[i]).0@ != path {
            assert(forms[0].0@ != path);
            assert forall|i: int| 0 <= i < rest.len() implies (#[trigger] rest[i]).0@ != path by {
                assert(rest[i] == forms[i + 1]);
            }
        }
    }
}

/// A file that is gone keeps its place: its normal form is its name in its
/// directory's canonical form. What exists is in its canonical form.
pub proof fn a_deleted_file_keeps_its_place(
    path: &str,
    canonical: Option<String>,
    dir: Option<String>,
    r: String,
)
    requires
        call_ensures(normalize, (path, canonical, dir), r),
    ensures
        canonical matches Some(c) ==> r@ == c@,
        canonical is None ==> (dir matches Some(d) && d@.len() > 0 && parent_of(path@) is Some
            && file_name_of(path@) is Some ==> components(r@) == components(dir->Some_0@).push(
            components(path@).last(),
        )),
        canonical is None && dir is None ==> r@ == path@,
{
    if let (None, Some(d)) = (canonical, dir) {
        if d@.len() > 0 && parent_of(path@) is Some && file_name_of(path@) is Some {
            let name = file_name_of(path@)->Some_0;
            a_name_is_one_component(path@);
            joining_adds_components(d@, name);
            assert(components(r@) =~= components(d@).push(name));
        }
    }
}

/// A path's last name, as a path, has itself as its one component.
proof fn a_name_is_one_component(path: Seq<char>)
    requires
        file_name_of(path) is Some,
    ensures
        ({
            let name = file_name_of(path)->Some_0;
            &&& !is_absolute(name)
            &&& components(name) == seq![name]
            &&& names_of(name) == seq![name]
        }),
{
    let name = file_name_of(path)->Some_0;
    a_component_is_the_root_or_a_name(path, components(path).len() - 1);
    a_name_is_a_path(name);
    names_are_components(name);
}

proof fn group_place_is_first(groups: Seq<(Seq<char>, Seq<Seq<char>>)>, base: Seq<char>)
    ensures
        match group_place(groups, base) {
            Some(i) => 0 <= i < groups.len() && same_path(groups[i].0, base),
            None => forall|i: int| 0 <= i < groups.len() ==> !same_path((#[trigger] groups[i]).0, base),
        },
    decreases groups.len(),
{
    if groups.len() > 0 {
        let front = groups.drop_last();
        group_place_is_first(front, base);
        if group_place(groups, base) is None {
            assert forall|i: int| 0 <= i < groups.len() implies !same_path(
                (#[trigger] groups[i]).0,
                base,
            ) by {
                if i < front.len() {
                    assert(front[i] == groups[i]);
                }
            }
        }
    }
}

proof fn with_patterns_holds(patterns: Seq<Seq<char>>, more: Seq<Seq<char>>, x: Seq<char>)
    ensures
        with_patterns(patterns, more).contains(x) <==> patterns.contains(x) || more.contains(x),
    decreases more.len(),
{
    if more.len() == 0 {
        assert(!more.contains(x));
    } else {
        let front = more.drop_last();
        let before = with_patterns(patterns, front);
        with_patterns_holds(patterns, front, x);
        if front.contains(x) {
            let i = choose|i: int| 0 <= i < front.len() && front[i] == x;
            assert(more[i] == x);
        }
        if more.contains(x) && x != more.last() {
            let i = choose|i: int| 0 <= i < more.len() && more[i] == x;
            assert(front[i] == x);
        }
        if more.last() == x {
            assert(more[more.len() - 1] == x);
        }
        if before.contains(x) {
            let i = choose|i: int| 0 <= i < before.len() && before[i] == x;
            assert(before.push(more.last())[i] == x);
        }
        assert(before.push(more.last())[before.len() as int] == more.last());
        if with_patterns(patterns, more).contains(x) && !before.contains(x) {
            let after = before.push(more.last());
            let i = choose|i: int| 0 <= i < after.len() && after[i] == x;
            if i < before.len() {
                assert(before[i] == x);
            }
        }
    }
}

/// Beam `i` declares inputs, and it is needed where there is a target.
pub open spec fn concerns(p: ProjectView, target: Option<Seq<char>>, i: int) -> bool {
    p.beams[i].inputs.len() > 0 && match target {
        Some(name) => reaches(p, name, p.beams[i].id),
        None => true,
    }
}

/// A group in the directory of beam `i` has the pattern.
pub open spec fn has_group(
    groups: Seq<GroupView>,
    dir: Seq<char>,
    pattern: Seq<char>,
) -> bool {
    exists|k: int|
        0 <= k < groups.len() && components((#[trigger] groups[k]).base) == components(dir)
            && groups[k].patterns.contains(pattern)
}

/// The pattern is an input of one of the first `n` beams that concern the
/// session, in the directory `base`.
pub open spec fn has_beam(
    p: ProjectView,
    target: Option<Seq<char>>,
    forms: Seq<(String, String)>,
    n: int,
    base: Seq<char>,
    pattern: Seq<char>,
) -> bool {
    exists|i: int|
        0 <= i < n && concerns(p, target, i) && components(
            form_of(forms, (#[trigger] p.beams[i]).dir),
        ) == components(base) && p.beams[i].inputs.contains(pattern)
}

spec fn pair_has(
    groups: Seq<(Seq<char>, Seq<Seq<char>>)>,
    dir: Seq<char>,
    pattern: Seq<char>,
) -> bool {
    exists|k: int|
        0 <= k < groups.len() && components((#[trigger] groups[k]).0) == components(dir)
            && groups[k].1.contains(pattern)
}

/// A beam's inputs join those of its directory.
proof fn one_more_beam(
    groups: Seq<(Seq<char>, Seq<Seq<char>>)>,
    base: Seq<char>,
    inputs: Seq<Seq<char>>,
    dir: Seq<char>,
    pattern: Seq<char>,
)
    ensures
        pair_has(with_beam(groups, base, inputs), dir, pattern) <==> pair_has(
            groups,
            dir,
            pattern,
        ) || (components(base) == components(dir) && inputs.contains(pattern)),
{
    let after = with_beam(groups, base, inputs);
    group_place_is_first(groups, base);
    match group_place(groups, base) {
        Some(i) => {
            with_patterns_holds(groups[i].1, inputs, pattern);
            assert(after[i].0 == groups[i].0);
            assert(after[i].1 == with_patterns(groups[i].1, inputs));
            if pair_has(groups, dir, pattern) {
                let k = choose|k: int|
                    0 <= k < groups.len() && components((#[trigger] groups[k]).0) == components(dir)
                        && groups[k].1.contains(pattern);
                assert(components(after[k].0) == components(dir) && after[k].1.contains(pattern));
            }
            if components(base) == components(dir) && inputs.contains(pattern) {
                assert(components(after[i].0) == components(dir) && after[i].1.contains(pattern));
            }
            if pair_has(after, dir, pattern) {
                let k = choose|k: int|
                    0 <= k < after.len() && components((#[trigger] after[k]).0) == components(dir)
                        && after[k].1.contains(pattern);
                if k != i || groups[i].1.contains(pattern) {
                    assert(components(groups[k].0) == components(dir) && groups[k].1.contains(
                        pattern,
                    ));
                }
            }
        },
        None => {
            let n = groups.len() as int;
            assert(after[n] == (base, inputs));
            if pair_has(groups, dir, pattern) {
                let k = choose|k: int|
                    0 <= k < groups.len() && components((#[trigger] groups[k]).0) == components(dir)
                        && groups[k].1.contains(pattern);
                assert(components(after[k].0) == components(dir) && after[k].1.contains(pattern));
            }
            if components(base) == components(dir) && inputs.contains(pattern) {
                assert(components(after[n].0) == components(dir) && after[n].1.contains(pattern));
            }
            if pair_has(after, dir, pattern) {
                let k = choose|k: int|
                    0 <= k < after.len() && components((#[trigger] after[k]).0) == components(dir)
                        && after[k].1.contains(pattern);
                if k < n {
                    assert(components(groups[k].0) == components(dir) && groups[k].1.contains(
                        pattern,
                    ));
                }
            }
        },
    }
}

proof fn groups_hold_inputs(
    p: ProjectView,
    target: Option<Seq<char>>,
    forms: Seq<(String, String)>,
    n: int,
    dir: Seq<char>,
    pattern: Seq<char>,
)
    requires
        0 <= n <= p.beams.len(),
    ensures
        pair_has(watched_groups(p, target, forms, n), dir, pattern) <==> has_beam(
            p,
            target,
            forms,
            n,
            dir,
            pattern,
        ),
    decreases n,
{
    if n > 0 {
        groups_hold_inputs(p, target, forms, n - 1, dir, pattern);
        let beam = p.beams[n - 1];
        one_more_beam(
            watched_groups(p, target, forms, n - 1),
            form_of(forms, beam.dir),
            beam.inputs,
            dir,
            pattern,
        );
        assert(is_watched(p, target, n - 1) == concerns(p, target, n - 1));
        if has_beam(p, target, forms, n - 1, dir, pattern) {
            let i = choose|i: int|
                0 <= i < n - 1 && concerns(p, target, i) && components(
                    form_of(forms, (#[trigger] p.beams[i]).dir),
                ) == components(dir) && p.beams[i].inputs.contains(pattern);
            assert(components(form_of(forms, p.beams[i].dir)) == components(dir));
        }
        if concerns(p, target, n - 1) && components(form_of(forms, p.beams[n - 1].dir))
            == components(dir) && p.beams[n - 1].inputs.contains(pattern) {
            assert(has_beam(p, target, forms, n, dir, pattern));
        }
    }
}

proof fn bases_differ(
    p: ProjectView,
    target: Option<Seq<char>>,
    forms: Seq<(String, String)>,
    n: int,
)
    ensures
        forall|a: int, b: int|
            0 <= a < b < watched_groups(p, target, forms, n).len() ==> components(
                (#[trigger] watched_groups(p, target, forms, n)[a]).0,
            ) != components((#[trigger] watched_groups(p, target, forms, n)[b]).0),
    decreases n,
{
    if n > 0 {
        bases_differ(p, target, forms, n - 1);
        group_place_is_first(
            watched_groups(p, target, forms, n - 1),
            form_of(forms, p.beams[n - 1].dir),
        );
    }
}

/// A session watches the inputs of its beams and nothing else: every pattern
/// of every beam that it concerns, in the group of the beam's directory, of
/// which there is one; and the Beamfiles that were loaded. It is refused
/// exactly where its target is no beam.
pub proof fn a_session_watches_the_inputs_of_its_beams(
    project: &Project,
    target: Option<&BeamId>,
    sources: &SourceMap,
    forms: &NormalForms,
    r: Result<WatchSet, CoreError>,
)
    requires
        call_ensures(WatchSet::new, (project, target, sources, forms), r),
    ensures
        r is Ok <==> (target matches Some(id) ==> place_of(project@.beams, id@) is Some),
        r matches Ok(set) ==> {
            let p = project@;
            let name = match target {
                Some(id) => Some(id@),
                None => None,
            };
            &&& forall|i: int, pattern: Seq<char>|
                0 <= i < p.beams.len() && concerns(p, name, i) && #[trigger] p.beams[i].inputs.contains(
                    pattern,
                ) ==> has_group(set@.groups, form_of(forms.forms@, p.beams[i].dir), pattern)
            &&& forall|k: int, pattern: Seq<char>|
                0 <= k < set@.groups.len() && #[trigger] set@.groups[k].patterns.contains(pattern)
                    ==> has_beam(
                    p,
                    name,
                    forms.forms@,
                    p.beams.len() as int,
                    set@.groups[k].base,
                    pattern,
                )
            &&& forall|a: int, b: int|
                0 <= a < b < set@.groups.len() ==> components((#[trigger] set@.groups[a]).base)
                    != components((#[trigger] set@.groups[b]).base)
            &&& forall|k: int|
                0 <= k < set@.groups.len() ==> (#[trigger] set@.groups[k]).files.len() == 0
            &&& set@.beamfiles.len() == sources@.len()
            &&& forall|k: int|
                0 <= k < sources@.len() ==> #[trigger] set@.beamfiles[k] == form_of(
                    forms.forms@,
                    sources@[k].0,
                )
        },
{
    if let Ok(set) = r {
        let p = project@;
        let n = p.beams.len() as int;
        let name = match target {
            Some(id) => Some(id@),
            None => None,
        };
        let groups = watched_groups(p, name, forms.forms@, n);
        assert(name == target_view(target));
        assert(p.beams.len() == project.beams@.len());
        bases_differ(p, name, forms.forms@, n);
        assert forall|i: int, pattern: Seq<char>|
            0 <= i < p.beams.len() && concerns(p, name, i) && #[trigger] p.beams[i].inputs.contains(
                pattern,
            ) implies has_group(set@.groups, form_of(forms.forms@, p.beams[i].dir), pattern) by {
            let dir = form_of(forms.forms@, p.beams[i].dir);
            groups_hold_inputs(p, name, forms.forms@, n, dir, pattern);
            assert(has_beam(p, name, forms.forms@, n, dir, pattern));
            let k = choose|k: int|
                0 <= k < groups.len() && components((#[trigger] groups[k]).0) == components(dir)
                    && groups[k].1.contains(pattern);
            assert(set@.groups[k].base == groups[k].0 && set@.groups[k].patterns == groups[k].1);
        }
        assert forall|k: int, pattern: Seq<char>|
            0 <= k < set@.groups.len() && #[trigger] set@.groups[k].patterns.contains(
                pattern,
            ) implies has_beam(p, name, forms.forms@, n, set@.groups[k].base, pattern) by {
            groups_hold_inputs(p, name, forms.forms@, n, set@.groups[k].base, pattern);
            assert(groups[k].0 == set@.groups[k].base && groups[k].1 == set@.groups[k].patterns);
            assert(pair_has(groups, set@.groups[k].base, pattern));
        }
        assert forall|a: int, b: int| 0 <= a < b < set@.groups.len() implies components(
            (#[trigger] set@.groups[a]).base,
        ) != components((#[trigger] set@.groups[b]).base) by {
            assert(groups[a].0 == set@.groups[a].base && groups[b].0 == set@.groups[b].base);
        }
    }
}

/// Whether a group's patterns match: the path is below its directory, and one
/// of its patterns matches what is left of the path, with `/` separators.
pub proof fn a_group_matches_where_a_pattern_does(g: &InputGroup, path: &str, r: bool)
    requires
        call_ensures(InputGroup::matches, (g, path), r),
    ensures
        r <==> below(path@, g@.base) is Some && set_builds(that_compile(g@.patterns)) && exists|t:
            int|
            0 <= t < g@.patterns.len() && glob_refusal(#[trigger] g@.patterns[t]) is None
                && glob_matches(g@.patterns[t], unified(below(path@, g@.base)->Some_0)),
{
    if below(path@, g@.base) is Some {
        patterns_match_where_one_does(g@.patterns, unified(below(path@, g@.base)->Some_0));
    }
}

/// Group `k` is the first from `from` on that matches the path.
pub open spec fn first_to_match(groups: Seq<GroupView>, path: Seq<char>, from: int, k: int) -> bool {
    &&& from <= k < groups.len()
    &&& pattern_concerns(groups[k], path)
    &&& forall|j: int| from <= j < k ==> !pattern_concerns(#[trigger] groups[j], path)
}

proof fn the_first_decides(groups: Seq<GroupView>, path: Seq<char>, from: int, k: int)
    requires
        0 <= from,
        first_to_match(groups, path, from, k),
    ensures
        input_relevance(groups, path, from) == input_relevance(groups, path, k),
    decreases k - from,
{
    if from < k {
        assert(!pattern_concerns(groups[from], path));
        the_first_decides(groups, path, from + 1, k);
    }
}

proof fn none_decides(groups: Seq<GroupView>, path: Seq<char>, from: int)
    requires
        0 <= from,
        forall|k: int| from <= k < groups.len() ==> !pattern_concerns(#[trigger] groups[k], path),
    ensures
        input_relevance(groups, path, from) == Relevance::Irrelevant,
    decreases groups.len() - from,
{
    if from < groups.len() {
        none_decides(groups, path, from + 1);
    }
}

/// What wakes a session: a path of version control or of the cache never
/// does; a loaded Beamfile always does; of the groups left the first that
/// matches the path decides, at once where it knows the file and after an
/// expansion where it does not; nothing else does.
pub proof fn what_wakes_a_session(set: &WatchSet, path: &str, from: usize, r: Relevance)
    requires
        call_ensures(WatchSet::classify, (set, path, from), r),
        set@.groups.len() <= usize::MAX,
    ensures
        components(path@).contains(".git"@) || components(path@).contains(".alba"@) ==> r
            == Relevance::Irrelevant,
        !components(path@).contains(".git"@) && !components(path@).contains(".alba"@) ==> {
            &&& r == Relevance::Beamfile <==> holds_path(set@.beamfiles, path@)
            &&& !holds_path(set@.beamfiles, path@) ==> {
                &&& forall|k: int| #[trigger]
                    first_to_match(set@.groups, path@, from as int, k) ==> r == if holds_path(
                        set@.groups[k].files,
                        path@,
                    ) {
                        Relevance::Input
                    } else {
                        Relevance::Expand(k as usize)
                    }
                &&& (forall|k: int|
                    from <= k < set@.groups.len() ==> !pattern_concerns(
                        #[trigger] set@.groups[k],
                        path@,
                    )) ==> r == Relevance::Irrelevant
            }
        },
{
    let groups = set@.groups;
    assert forall|k: int| #[trigger] first_to_match(groups, path@, from as int, k) implies input_relevance(
        groups,
        path@,
        from as int,
    ) == if holds_path(groups[k].files, path@) {
        Relevance::Input
    } else {
        Relevance::Expand(k as usize)
    } by {
        the_first_decides(groups, path@, from as int, k);
    }
    if forall|k: int|
        from <= k < groups.len() ==> !pattern_concerns(#[trigger] groups[k], path@) {
        none_decides(groups, path@, from as int);
    }
    never_a_beamfile(groups, path@, from as int);
}

proof fn never_a_beamfile(groups: Seq<GroupView>, path: Seq<char>, from: int)
    ensures
        input_relevance(groups, path, from) != Relevance::Beamfile,
    decreases groups.len() - from,
{
    if 0 <= from < groups.len() {
        never_a_beamfile(groups, path, from + 1);
    }
}

/// A path that is in no directory of version control or of the cache, and
/// that an input of a beam matches that the session concerns, is not passed
/// over, as long as the patterns of the beam's directory can be built into a
/// set.
pub proof fn an_input_wakes_the_session(
    project: &Project,
    target: Option<&BeamId>,
    sources: &SourceMap,
    forms: &NormalForms,
    set: WatchSet,
    path: &str,
    r: Relevance,
    i: int,
    t: int,
)
    requires
        call_ensures(
            WatchSet::new,
            (project, target, sources, forms),
            Ok::<WatchSet, CoreError>(set),
        ),
        call_ensures(WatchSet::classify, (&set, path, 0usize), r),
        0 <= i < project@.beams.len(),
        target matches Some(id) ==> reaches(project@, id@, project@.beams[i].id),
        0 <= t < project@.beams[i].inputs.len(),
        !components(path@).contains(".git"@),
        !components(path@).contains(".alba"@),
    ensures
        ({
            let beam = project@.beams[i];
            let dir = form_of(forms.forms@, beam.dir);
            &&& below(path@, dir) is Some
            &&& glob_refusal(beam.inputs[t]) is None
            &&& glob_matches(beam.inputs[t], unified(below(path@, dir)->Some_0))
            &&& forall|k: int|
                0 <= k < set@.groups.len() ==> set_builds(
                    that_compile((#[trigger] set@.groups[k]).patterns),
                )
        }) ==> r != Relevance::Irrelevant,
{
    let p = project@;
    let beam = p.beams[i];
    let dir = form_of(forms.forms@, beam.dir);
    let name = match target {
        Some(id) => Some(id@),
        None => None,
    };
    a_session_watches_the_inputs_of_its_beams(
        project,
        target,
        sources,
        forms,
        Ok::<WatchSet, CoreError>(set),
    );
    assert(concerns(p, name, i));
    assert(p.beams[i].inputs.contains(beam.inputs[t]));
    if below(path@, dir) is Some && glob_refusal(beam.inputs[t]) is None && glob_matches(
        beam.inputs[t],
        unified(below(path@, dir)->Some_0),
    ) && forall|k: int|
        0 <= k < set@.groups.len() ==> set_builds(
            that_compile((#[trigger] set@.groups[k]).patterns),
        ) {
        assert(has_group(set@.groups, dir, beam.inputs[t]));
        let k = choose|k: int|
            0 <= k < set@.groups.len() && components((#[trigger] set@.groups[k]).base)
                == components(dir) && set@.groups[k].patterns.contains(beam.inputs[t]);
        let g = set@.groups[k];
        let u = choose|u: int| 0 <= u < g.patterns.len() && g.patterns[u] == beam.inputs[t];
        assert(below(path@, g.base) == below(path@, dir));
        assert(glob_refusal(g.patterns[u]) is None);
        patterns_match_where_one_does(g.patterns, unified(below(path@, dir)->Some_0));
        assert(pattern_concerns(g, path@));
        one_matches(set@.groups, path@, 0, k);
    }
}

proof fn one_matches(groups: Seq<GroupView>, path: Seq<char>, from: int, k: int)
    requires
        0 <= from <= k < groups.len(),
        pattern_concerns(groups[k], path),
    ensures
        input_relevance(groups, path, from) != Relevance::Irrelevant,
    decreases k - from,
{
    if !pattern_concerns(groups[from], path) {
        one_matches(groups, path, from + 1, k);
    }
}

/// Once a group has been expanded it knows the files that came back, each
/// once, and no others; nothing else of the session changes.
pub proof fn an_expansion_is_taken(set: WatchSet, place: usize, files: &Vec<String>, r: WatchSet)
    requires
        place < set@.groups.len(),
        call_ensures(WatchSet::expanded, (set, place, files), r),
    ensures
        r@.beamfiles == set@.beamfiles,
        r@.groups.len() == set@.groups.len(),
        forall|k: int|
            0 <= k < set@.groups.len() && k != place ==> #[trigger] r@.groups[k] == set@.groups[k],
        r@.groups[place as int].base == set@.groups[place as int].base,
        r@.groups[place as int].patterns == set@.groups[place as int].patterns,
        forall|path: Seq<char>|
            holds_path(r@.groups[place as int].files, path) <==> #[trigger] holds_path(
                views(files@),
                path,
            ),
        forall|a: int, b: int|
            0 <= a < b < r@.groups[place as int].files.len() ==> !same_path(
                #[trigger] r@.groups[place as int].files[a],
                #[trigger] r@.groups[place as int].files[b],
            ),
{
    each_once_holds(views(files@));
}

proof fn each_once_holds(paths: Seq<Seq<char>>)
    ensures
        forall|path: Seq<char>|
            holds_path(each_once(paths), path) <==> #[trigger] holds_path(paths, path),
        forall|a: int, b: int|
            0 <= a < b < each_once(paths).len() ==> !same_path(
                #[trigger] each_once(paths)[a],
                #[trigger] each_once(paths)[b],
            ),
    decreases paths.len(),
{
    if paths.len() > 0 {
        let front = paths.drop_last();
        each_once_holds(front);
        let before = each_once(front);
        let all = each_once(paths);
        assert forall|path: Seq<char>|
            holds_path(all, path) <==> #[trigger] holds_path(paths, path) by {
            assert(holds_path(before, path) <==> holds_path(front, path));
            assert(holds_path(before, paths.last()) <==> holds_path(front, paths.last()));
            if holds_path(front, path) {
                let i = choose|i: int| 0 <= i < front.len() && same_path(#[trigger] front[i], path);
                assert(same_path(paths[i], path));
            }
            if holds_path(paths, path) {
                let i = choose|i: int| 0 <= i < paths.len() && same_path(#[trigger] paths[i], path);
                if i < front.len() {
                    assert(same_path(front[i], path));
                } else if holds_path(before, paths.last()) {
                    let j = choose|j: int|
                        0 <= j < before.len() && same_path(#[trigger] before[j], paths.last());
                    assert(same_path(before[j], path));
                }
            }
            if holds_path(before, path) {
                let i = choose|i: int|
                    0 <= i < before.len() && same_path(#[trigger] before[i], path);
                assert(same_path(all[i], path));
            }
            if same_path(paths.last(), path) {
                assert(same_path(paths[paths.len() - 1], path));
                if !holds_path(before, paths.last()) {
                    assert(same_path(all[before.len() as int], path));
                }
            }
            if holds_path(all, path) && !holds_path(before, path) {
                let i = choose|i: int| 0 <= i < all.len() && same_path(#[trigger] all[i], path);
                if i < before.len() {
                    assert(same_path(before[i], path));
                }
                assert(same_path(paths[paths.len() - 1], path));
            }
        }
    }
}

/// How many files are watched: each group's, added up.
pub proof fn files_add_up(a: Seq<GroupView>, b: Seq<GroupView>, g: GroupView)
    ensures
        total_files(a + b) == total_files(a) + total_files(b),
        total_files(seq![g]) == g.files.len(),
        total_files(Seq::<GroupView>::empty()) == 0,
    decreases b.len(),
{
    reveal_with_fuel(total_files, 2);
    assert(seq![g].drop_last() =~= Seq::<GroupView>::empty());
    if b.len() == 0 {
        assert(a + b =~= a);
    } else {
        assert((a + b).drop_last() =~= a + b.drop_last());
        files_add_up(a, b.drop_last(), g);
    }
}

/// Once a group has been expanded the file is an input where it was among
/// what came back, and where it was not the groups after it decide.
pub proof fn an_expanded_group_decides(set: &WatchSet, path: &str, place: usize, r: Relevance)
    requires
        place < set@.groups.len(),
        call_ensures(WatchSet::classify_expanded, (set, path, place), r),
    ensures
        holds_path(set@.groups[place as int].files, path@) ==> r == Relevance::Input,
        !holds_path(set@.groups[place as int].files, path@) ==> r == relevance(
            set@,
            path@,
            place + 1,
        ),
{
}

} // verus!
