//! Planning a run: which beams it takes, whether it can be scheduled, and
//! what each beam runs.

use vstd::prelude::*;
use vstd::string::*;
use crate::error::{result_view, CoreError, ErrorView};
use crate::eval::{render_template, text_of};
use crate::event::{BeamStatus, RunEvent, RunSummary};
use crate::git::GitError;
use crate::graph::{
    execution_subgraph, holds_id, id_views, place_of, place_of_is_last, reaches, unknown_beam,
};
use crate::json::edge_views;
use crate::loader::pair_views;
use crate::model::{
    copy_pairs, copy_strings, Beam, BeamId, BeamView, ExecutorKind, ExecutorView, OptionValue,
    OptionView, Project, ProjectView,
};
use crate::paths::{join_path, joined_path};
use crate::project::{collect, collect_fails_early};
use crate::scope::{with_arguments, Environment, ScopeView};
use crate::store::CacheOptions;
use crate::suggest::{names_of, suggest, suggestion};
use crate::syntax::StringTemplate;
use crate::text::{decimal, decimal_text, join, joined, same_text, text3, text7, views};

verus! {

/// Something that kept a run from being carried out. A beam that fails is no
/// such thing.
#[derive(Debug, PartialEq)]
pub enum EngineError {
    /// An unknown target, or a template that does not render.
    Core(CoreError),
    /// An executor that is not there, or parameters that do not fit.
    Unschedulable(String),
    /// An executor could not run a command at all.
    Executor { beam: BeamId, source: String },
    /// A beam's task panicked.
    Panicked { beam: BeamId },
    Git(GitError),
}

pub enum EngineView {
    Core(ErrorView),
    Unschedulable(Seq<char>),
    Executor(Seq<char>, Seq<char>),
    Panicked(Seq<char>),
    Git(Seq<char>),
}

impl View for EngineError {
    type V = EngineView;

    open spec fn view(&self) -> EngineView {
        match self {
            EngineError::Core(e) => EngineView::Core(e@),
            EngineError::Unschedulable(text) => EngineView::Unschedulable(text@),
            EngineError::Executor { beam, source } => EngineView::Executor(beam@, source@),
            EngineError::Panicked { beam } => EngineView::Panicked(beam@),
            EngineError::Git(e) => EngineView::Git(e@),
        }
    }
}

impl EngineError {
    /// The error in words.
    pub fn message(&self) -> (r: String)
        ensures
            r@ == match self@ {
                EngineView::Core(e) => e.message,
                EngineView::Unschedulable(text) => text,
                EngineView::Executor(beam, source) => "beam `"@ + beam + "`: "@ + source,
                EngineView::Panicked(beam) => "beam `"@ + beam + "` panicked while running"@,
                EngineView::Git(text) => text,
            },
    {
        match self {
            EngineError::Core(e) => e.message.clone(),
            EngineError::Unschedulable(text) => text.clone(),
            EngineError::Executor { beam, source } => {
                let mut out = text3("beam `", beam.0.as_str(), "`: ");
                out.append(source.as_str());
                out
            },
            EngineError::Panicked { beam } => text3(
                "beam `",
                beam.0.as_str(),
                "` panicked while running",
            ),
            EngineError::Git(e) => e.0.clone(),
        }
    }
}

/// What the caller of a run chose.
#[derive(Debug, PartialEq)]
pub struct RunOptions {
    /// How many beams may run at once; none counts as one.
    pub jobs: usize,
    /// Whether to go on with what is still possible after a failure.
    pub keep_going: bool,
    /// Arguments for the target beam.
    pub params: Vec<String>,
    /// Where results are remembered; `None` where they are not.
    pub cache: Option<CacheOptions>,
    /// What every command's environment holds besides its beam's.
    pub extra_env: Vec<(String, String)>,
}

impl RunOptions {
    /// How many beams may run at once.
    pub fn slots(&self) -> (r: usize)
        ensures
            r == if self.jobs == 0 {
                1
            } else {
                self.jobs
            },
    {
        if self.jobs == 0 {
            1
        } else {
            self.jobs
        }
    }
}

/// The executors a run can use, one for each kind of shell.
#[derive(Debug, PartialEq)]
pub struct Executors<E> {
    pub embedded: E,
    pub system: E,
}

impl<E> Executors<E> {
    /// The executor that a beam's kind asks for. Containers and plugins have
    /// executors of their own.
    pub fn for_beam(&self, kind: &ExecutorKind) -> (r: &E)
        requires
            kind@ is Shell || kind@ is SystemShell,
        ensures
            kind@ is Shell ==> *r == self.embedded,
            kind@ is SystemShell ==> *r == self.system,
    {
        match kind {
            ExecutorKind::Shell => &self.embedded,
            _ => &self.system,
        }
    }
}

impl<E: Clone> Executors<E> {
    /// One executor for both kinds.
    pub fn uniform(executor: E) -> (r: Executors<E>)
        ensures
            r.system == executor,
            cloned(executor, r.embedded),
    {
        Executors { embedded: executor.clone(), system: executor }
    }
}

/// A text with its length before it, so that texts put one after the other
/// stay apart.
pub open spec fn labelled(text: Seq<char>) -> Seq<char> {
    decimal(text.len()) + ":"@ + text
}

/// Texts with their number and lengths.
pub open spec fn labelled_list(texts: Seq<Seq<char>>) -> Seq<char>
    decreases texts.len(),
{
    if texts.len() == 0 {
        Seq::empty()
    } else {
        labelled(texts[0]) + labelled_list(texts.drop_first())
    }
}

/// A value as texts: its kind, then what it holds.
pub open spec fn option_texts(value: OptionView) -> Seq<Seq<char>> {
    match value {
        OptionView::Str(s) => seq!["s"@, s],
        OptionView::Bool(b) => seq![
            "b"@,
            if b {
                "true"@
            } else {
                "false"@
            },
        ],
        OptionView::List(l) => seq!["l"@, decimal(l.len())] + l,
    }
}

pub open spec fn options_texts(options: Seq<(Seq<char>, OptionView)>) -> Seq<Seq<char>>
    decreases options.len(),
{
    if options.len() == 0 {
        Seq::empty()
    } else {
        options_texts(options.drop_last()) + seq![options.last().0] + option_texts(
            options.last().1,
        )
    }
}

/// What a fingerprint says of a beam's executor: the shells by name, others
/// with all their configuration.
pub open spec fn executor_word(kind: ExecutorView) -> Seq<char> {
    match kind {
        ExecutorView::Shell => "embedded"@,
        ExecutorView::SystemShell => "system"@,
        ExecutorView::Docker { image, volumes, workdir } => "docker "@ + labelled_list(
            seq![image, decimal(volumes.len())] + volumes + match workdir {
                Some(w) => seq![w],
                None => Seq::empty(),
            },
        ),
        ExecutorView::Plugin { name, options } => "plugin "@ + labelled_list(
            seq![name] + options_texts(options),
        ),
    }
}

proof fn labelled_list_push(texts: Seq<Seq<char>>, text: Seq<char>)
    ensures
        labelled_list(texts.push(text)) == labelled_list(texts) + labelled(text),
    decreases texts.len(),
{
    let longer = texts.push(text);
    if texts.len() == 0 {
        assert(longer.drop_first() =~= Seq::<Seq<char>>::empty());
        assert(labelled_list(longer.drop_first()) =~= Seq::<char>::empty());
        assert(labelled_list(longer) =~= labelled_list(texts) + labelled(text));
    } else {
        assert(longer.drop_first() =~= texts.drop_first().push(text));
        labelled_list_push(texts.drop_first(), text);
        assert(labelled_list(longer) =~= labelled_list(texts) + labelled(text));
    }
}

fn add_label(out: &mut String, text: &str, Ghost(list): Ghost<Seq<Seq<char>>>, Ghost(start): Ghost<Seq<char>>)
    requires
        old(out)@ == start + labelled_list(list),
    ensures
        final(out)@ == start + labelled_list(list.push(text@)),
{
    out.append(decimal_text(text.unicode_len() as u64).as_str());
    out.append(":");
    out.append(text);
    proof {
        labelled_list_push(list, text@);
        assert(out@ =~= start + labelled_list(list.push(text@)));
    }
}

fn add_labels(
    out: &mut String,
    texts: &Vec<String>,
    Ghost(list): Ghost<Seq<Seq<char>>>,
    Ghost(start): Ghost<Seq<char>>,
)
    requires
        old(out)@ == start + labelled_list(list),
    ensures
        final(out)@ == start + labelled_list(list + views(texts@)),
{
    let ghost all = views(texts@);
    let mut i: usize = 0;
    assert(list + all.take(0) =~= list);
    while i < texts.len()
        invariant
            i <= texts@.len(),
            all == views(texts@),
            out@ == start + labelled_list(list + all.take(i as int)),
        decreases texts.len() - i,
    {
        add_label(out, texts[i].as_str(), Ghost(list + all.take(i as int)), Ghost(start));
        assert((list + all.take(i as int)).push(all[i as int]) =~= list + all.take(i + 1));
        i += 1;
    }
    assert(all.take(all.len() as int) == all);
}

fn add_options(
    out: &mut String,
    options: &Vec<(String, OptionValue)>,
    Ghost(list): Ghost<Seq<Seq<char>>>,
    Ghost(start): Ghost<Seq<char>>,
)
    requires
        old(out)@ == start + labelled_list(list),
    ensures
        final(out)@ == start + labelled_list(
            list + options_texts(crate::model::option_views(options@)),
        ),
{
    let ghost all = crate::model::option_views(options@);
    let mut i: usize = 0;
    assert(list + options_texts(all.take(0)) =~= list);
    while i < options.len()
        invariant
            i <= options@.len(),
            all == crate::model::option_views(options@),
            out@ == start + labelled_list(list + options_texts(all.take(i as int))),
        decreases options.len() - i,
    {
        let (key, value) = &options[i];
        let ghost before = list + options_texts(all.take(i as int));
        proof {
            assert(all.take(i + 1).drop_last() == all.take(i as int));
            assert(all.take(i + 1).last() == (key@, value@));
        }
        add_label(out, key.as_str(), Ghost(before), Ghost(start));
        let ghost keyed = before.push(key@);
        match value {
            OptionValue::Str(s) => {
                add_label(out, "s", Ghost(keyed), Ghost(start));
                add_label(out, s.as_str(), Ghost(keyed.push("s"@)), Ghost(start));
                assert(keyed.push("s"@).push(s@) =~= list + options_texts(all.take(i + 1)));
            },
            OptionValue::Bool(b) => {
                add_label(out, "b", Ghost(keyed), Ghost(start));
                let word = if *b {
                    "true"
                } else {
                    "false"
                };
                add_label(out, word, Ghost(keyed.push("b"@)), Ghost(start));
                assert(keyed.push("b"@).push(word@) =~= list + options_texts(all.take(i + 1)));
            },
            OptionValue::List(l) => {
                add_label(out, "l", Ghost(keyed), Ghost(start));
                let count = decimal_text(l.len() as u64);
                add_label(out, count.as_str(), Ghost(keyed.push("l"@)), Ghost(start));
                add_labels(out, l, Ghost(keyed.push("l"@).push(count@)), Ghost(start));
                assert(keyed.push("l"@).push(count@) + views(l@) =~= list + options_texts(
                    all.take(i + 1),
                ));
            },
        }
        i += 1;
    }
    assert(all.take(all.len() as int) == all);
}

/// What a fingerprint says of a beam's executor.
pub fn executor_label(kind: &ExecutorKind) -> (r: String)
    ensures
        r@ == executor_word(kind@),
{
    let ghost none = Seq::<Seq<char>>::empty();
    match kind {
        ExecutorKind::Shell => "embedded".to_owned(),
        ExecutorKind::SystemShell => "system".to_owned(),
        ExecutorKind::Docker { image, volumes, workdir } => {
            let mut out = "docker ".to_owned();
            let ghost start = "docker "@;
            assert(out@ =~= start + labelled_list(none));
            add_label(&mut out, image.as_str(), Ghost(none), Ghost(start));
            let count = decimal_text(volumes.len() as u64);
            add_label(&mut out, count.as_str(), Ghost(none.push(image@)), Ghost(start));
            let ghost counted = none.push(image@).push(count@);
            add_labels(&mut out, volumes, Ghost(counted), Ghost(start));
            match workdir {
                Some(w) => {
                    add_label(
                        &mut out,
                        w.as_str(),
                        Ghost(counted + views(volumes@)),
                        Ghost(start),
                    );
                    assert((counted + views(volumes@)).push(w@) =~= seq![image@, count@] + views(
                        volumes@,
                    ) + seq![w@]);
                },
                None => {
                    assert(counted + views(volumes@) =~= seq![image@, count@] + views(volumes@)
                        + Seq::<Seq<char>>::empty());
                },
            }
            out
        },
        ExecutorKind::Plugin { name, options } => {
            let mut out = "plugin ".to_owned();
            let ghost start = "plugin "@;
            assert(out@ =~= start + labelled_list(none));
            add_label(&mut out, name.as_str(), Ghost(none), Ghost(start));
            assert(none.push(name@) =~= seq![name@]);
            add_options(&mut out, options, Ghost(none.push(name@)), Ghost(start));
            out
        },
    }
}

/// The places of the beams that `target` needs, itself among them, in project
/// order.
pub open spec fn needed_by(p: ProjectView, target: Seq<char>, n: int) -> Seq<int>
    decreases n,
{
    if n <= 0 {
        Seq::empty()
    } else if reaches(p, target, p.beams[n - 1].id) {
        needed_by(p, target, n - 1).push(n - 1)
    } else {
        needed_by(p, target, n - 1)
    }
}

/// The places of the beams that a run for `target` takes.
pub open spec fn run_places(p: ProjectView, target: Seq<char>) -> Seq<int> {
    needed_by(p, target, p.beams.len() as int)
}

/// The first of `places` whose beam is not the target and takes parameters.
pub open spec fn first_with_parameters(
    p: ProjectView,
    places: Seq<int>,
    target: Seq<char>,
) -> Option<int>
    decreases places.len(),
{
    if places.len() == 0 {
        None
    } else if p.beams[places[0]].id != target && p.beams[places[0]].params.len() > 0 {
        Some(places[0])
    } else {
        first_with_parameters(p, places.drop_first(), target)
    }
}

/// The first of `places` whose beam is the target.
pub open spec fn first_called(p: ProjectView, places: Seq<int>, target: Seq<char>) -> Option<int>
    decreases places.len(),
{
    if places.len() == 0 {
        None
    } else if p.beams[places[0]].id == target {
        Some(places[0])
    } else {
        first_called(p, places.drop_first(), target)
    }
}

pub open spec fn quoted(names: Seq<Seq<char>>) -> Seq<Seq<char>> {
    Seq::new(names.len(), |i: int| "`"@ + names[i] + "`"@)
}

/// What is wrong with giving `given` arguments to a beam with `names` as its
/// parameters.
pub open spec fn wrong_count(target: Seq<char>, names: Seq<Seq<char>>, given: nat) -> Seq<char> {
    if names.len() == 0 {
        "beam `"@ + target + "` takes no parameters, got "@ + decimal(given)
    } else {
        "beam `"@ + target + "` expects "@ + decimal(names.len()) + " parameter"@ + (
        if names.len() == 1 {
            ""@
        } else {
            "s"@
        }) + " ("@ + joined(quoted(names), ", "@) + "), got "@ + decimal(given)
    }
}

/// Whether the arguments fit: only the target can be given any, and it takes
/// as many as it has parameters.
pub open spec fn parameters_verdict(
    p: ProjectView,
    places: Seq<int>,
    target: Seq<char>,
    given: nat,
) -> Result<(), Seq<char>> {
    match first_with_parameters(p, places, target) {
        Some(i) => Err(
            "beam `"@ + p.beams[i].id
                + "` declares parameters, but only the target beam can be given any"@,
        ),
        None => match first_called(p, places, target) {
            None => Ok(()),
            Some(i) => if p.beams[i].params.len() == given {
                Ok(())
            } else {
                Err(wrong_count(target, p.beams[i].params, given))
            },
        },
    }
}

/// The executors that need no plugin.
pub open spec fn builtin_executors() -> Set<Seq<char>> {
    set!["shell"@, "system_shell"@, "docker"@]
}

/// The first of `places` whose beam uses a plugin that is not among
/// `plugins`.
pub open spec fn first_without_plugin(
    p: ProjectView,
    places: Seq<int>,
    plugins: Seq<Seq<char>>,
) -> Option<int>
    decreases places.len(),
{
    if places.len() == 0 {
        None
    } else if p.beams[places[0]].executor is Plugin && !plugins.contains(
        p.beams[places[0]].executor->Plugin_name,
    ) {
        Some(places[0])
    } else {
        first_without_plugin(p, places.drop_first(), plugins)
    }
}

/// The complaint about a plugin that is not there, with a suggestion where
/// its name looks like a built-in executor's.
pub open spec fn missing_plugin(beam: Seq<char>, name: Seq<char>) -> Seq<char> {
    let text = "beam `"@ + beam + "` uses executor `"@ + name + "`: `"@ + name
        + "` is neither a built-in executor nor `alba-executor-"@ + name + "` on the PATH"@;
    match suggestion(name, builtin_executors()) {
        Some(c) => text + "; did you mean `"@ + c + "`?"@,
        None => text,
    }
}

/// Which beams a run takes, or why it cannot be scheduled. All of this is
/// settled before a beam starts.
pub open spec fn planned(
    p: ProjectView,
    target: Seq<char>,
    given: nat,
    plugins: Seq<Seq<char>>,
) -> Result<Seq<int>, EngineView> {
    let places = run_places(p, target);
    if place_of(p.beams, target) is None {
        Err(EngineView::Core(unknown_beam(p, target, None)))
    } else if exists|k: int| 0 <= k < places.len() && p.beams[#[trigger] places[k]].executor is Docker {
        Err(EngineView::Unschedulable("docker executor is not yet supported"@))
    } else {
        match parameters_verdict(p, places, target, given) {
            Err(text) => Err(EngineView::Unschedulable(text)),
            Ok(_) => match first_without_plugin(p, places, plugins) {
                Some(i) => Err(
                    EngineView::Unschedulable(
                        missing_plugin(p.beams[i].id, p.beams[i].executor->Plugin_name),
                    ),
                ),
                None => Ok(places),
            },
        }
    }
}

pub open spec fn as_ints(places: Seq<usize>) -> Seq<int> {
    Seq::new(places.len(), |i: int| places[i] as int)
}

fn quote_all(names: &Vec<String>) -> (r: Vec<String>)
    ensures
        views(r@) == quoted(views(names@)),
{
    let mut out: Vec<String> = Vec::new();
    let mut i: usize = 0;
    while i < names.len()
        invariant
            i <= names@.len(),
            out@.len() == i,
            forall|k: int| 0 <= k < i ==> (#[trigger] out@[k])@ == "`"@ + names@[k]@ + "`"@,
        decreases names.len() - i,
    {
        out.push(text3("`", names[i].as_str(), "`"));
        i += 1;
    }
    assert(views(out@) =~= quoted(views(names@)));
    out
}

fn wrong_count_text(target: &str, names: &Vec<String>, given: usize) -> (r: String)
    ensures
        r@ == wrong_count(target@, views(names@), given as nat),
{
    if names.len() == 0 {
        let mut out = text3("beam `", target, "` takes no parameters, got ");
        out.append(decimal_text(given as u64).as_str());
        out
    } else {
        let plural = if names.len() == 1 {
            ""
        } else {
            "s"
        };
        let mut out = text7(
            "beam `",
            target,
            "` expects ",
            decimal_text(names.len() as u64).as_str(),
            " parameter",
            plural,
            " (",
        );
        out.append(join(&quote_all(names), ", ").as_str());
        out.append("), got ");
        out.append(decimal_text(given as u64).as_str());
        out
    }
}

/// Checks that the arguments fit the target, and that no other beam of the
/// run declares parameters.
pub fn check_parameters(
    project: &Project,
    places: &Vec<usize>,
    target: &BeamId,
    params: &Vec<String>,
) -> (r: Result<(), String>)
    requires
        forall|k: int| 0 <= k < places@.len() ==> (#[trigger] places@[k]) < project.beams@.len(),
    ensures
        match r {
            Ok(()) => parameters_verdict(
                project@,
                as_ints(places@),
                target@,
                params@.len(),
            ) is Ok,
            Err(text) => parameters_verdict(
                project@,
                as_ints(places@),
                target@,
                params@.len(),
            ) == Err::<(), Seq<char>>(text@),
        },
{
    let ghost p = project@;
    let ghost all = as_ints(places@);
    let mut i: usize = 0;
    assert(all.skip(0) == all);
    while i < places.len()
        invariant
            p == project@,
            all == as_ints(places@),
            i <= places@.len(),
            forall|k: int| 0 <= k < places@.len() ==> (#[trigger] places@[k]) < project.beams@.len(),
            first_with_parameters(p, all, target@) == first_with_parameters(
                p,
                all.skip(i as int),
                target@,
            ),
        decreases places.len() - i,
    {
        let beam = &project.beams[places[i]];
        assert(p.beams[all[i as int]] == beam@);
        if beam.params.len() > 0 && !same_text(beam.id.0.as_str(), target.0.as_str()) {
            return Err(
                text3(
                    "beam `",
                    beam.id.0.as_str(),
                    "` declares parameters, but only the target beam can be given any",
                ),
            );
        }
        assert(all.skip(i as int).drop_first() == all.skip(i + 1));
        i += 1;
    }
    let mut j: usize = 0;
    while j < places.len()
        invariant
            p == project@,
            all == as_ints(places@),
            j <= places@.len(),
            forall|k: int| 0 <= k < places@.len() ==> (#[trigger] places@[k]) < project.beams@.len(),
            first_with_parameters(p, all, target@) is None,
            first_called(p, all, target@) == first_called(p, all.skip(j as int), target@),
        decreases places.len() - j,
    {
        let beam = &project.beams[places[j]];
        assert(p.beams[all[j as int]] == beam@);
        if same_text(beam.id.0.as_str(), target.0.as_str()) {
            if beam.params.len() == params.len() {
                return Ok(());
            }
            return Err(wrong_count_text(target.0.as_str(), &beam.params, params.len()));
        }
        assert(all.skip(j as int).drop_first() == all.skip(j + 1));
        j += 1;
    }
    Ok(())
}

fn missing_plugin_text(beam: &str, name: &str) -> (r: String)
    ensures
        r@ == missing_plugin(beam@, name@),
{
    let mut out = text7(
        "beam `",
        beam,
        "` uses executor `",
        name,
        "`: `",
        name,
        "` is neither a built-in executor nor `alba-executor-",
    );
    out.append(name);
    out.append("` on the PATH");
    let builtins: [&str; 3] = ["shell", "system_shell", "docker"];
    proof {
        assert(builtins@[0]@ == "shell"@ && builtins@[1]@ == "system_shell"@ && builtins@[2]@
            == "docker"@);
        assert(names_of(builtins@) =~= builtin_executors());
    }
    match suggest(name, &builtins) {
        Some(c) => {
            out.append("; did you mean `");
            out.append(c);
            out.append("`?");
        },
        None => {},
    }
    out
}

/// The places of the beams to run, in project order, once everything that
/// would keep the run as a whole from being scheduled has been ruled out.
/// `plugins` are the names of the plugins that can be found.
pub fn plan(project: &Project, target: &BeamId, params: &Vec<String>, plugins: &Vec<String>) -> (r:
    Result<Vec<usize>, EngineError>)
    ensures
        match r {
            Ok(places) => planned(project@, target@, params@.len(), views(plugins@)) == Ok::<
                Seq<int>,
                EngineView,
            >(as_ints(places@)) && forall|k: int|
                0 <= k < places@.len() ==> (#[trigger] places@[k]) < project.beams@.len(),
            Err(error) => planned(project@, target@, params@.len(), views(plugins@)) == Err::<
                Seq<int>,
                EngineView,
            >(error@),
        },
{
    let ghost p = project@;
    let subgraph = match execution_subgraph(project, target) {
        Ok(ids) => ids,
        Err(error) => {
            return Err(EngineError::Core(error));
        },
    };
    let mut places: Vec<usize> = Vec::new();
    let mut docker = false;
    let mut i: usize = 0;
    assert(as_ints(places@) =~= needed_by(p, target@, 0));
    while i < project.beams.len()
        invariant
            p == project@,
            i <= project.beams@.len(),
            forall|n: Seq<char>|
                id_views(subgraph@).contains(n) <==> #[trigger] reaches(p, target@, n)
                    && place_of(p.beams, n) is Some,
            as_ints(places@) == needed_by(p, target@, i as int),
            forall|k: int| 0 <= k < places@.len() ==> (#[trigger] places@[k]) < i,
            docker == exists|k: int|
                0 <= k < places@.len() && p.beams[#[trigger] places@[k] as int].executor is Docker,
        decreases project.beams.len() - i,
    {
        let beam = &project.beams[i];
        let ghost before = places@;
        proof {
            place_of_is_last(p.beams, beam.id@);
            assert(p.beams[i as int].id == beam.id@);
        }
        assert(reaches(p, target@, p.beams[i as int].id) == id_views(subgraph@).contains(
            beam.id@,
        ));
        if holds_id(&subgraph, beam.id.0.as_str()) {
            places.push(i);
            proof {
                assert(as_ints(places@) =~= as_ints(before).push(i as int));
                assert(places@[before.len() as int] == i);
            }
            if let ExecutorKind::Docker { .. } = &beam.executor {
                docker = true;
                assert(p.beams[places@[before.len() as int] as int].executor is Docker);
            }
            proof {
                if exists|k: int| 0 <= k < before.len() && p.beams[#[trigger] before[k] as int].executor is Docker {
                    let k = choose|k: int|
                        0 <= k < before.len() && p.beams[#[trigger] before[k] as int].executor is Docker;
                    assert(p.beams[places@[k] as int].executor is Docker);
                }
                if exists|k: int| 0 <= k < places@.len() && p.beams[#[trigger] places@[k] as int].executor is Docker {
                    let k = choose|k: int|
                        0 <= k < places@.len() && p.beams[#[trigger] places@[k] as int].executor is Docker;
                    if k < before.len() {
                        assert(p.beams[before[k] as int].executor is Docker);
                    }
                }
            }
        }
        i += 1;
    }
    let ghost all = as_ints(places@);
    assert(all == run_places(p, target@));
    proof {
        if docker {
            let k = choose|k: int|
                0 <= k < places@.len() && p.beams[#[trigger] places@[k] as int].executor is Docker;
            assert(p.beams[all[k]].executor is Docker);
        } else {
            assert forall|k: int| 0 <= k < all.len() implies !(p.beams[#[trigger] all[k]].executor is Docker) by {
                assert(!(p.beams[places@[k] as int].executor is Docker));
            }
        }
    }
    if docker {
        return Err(
            EngineError::Unschedulable("docker executor is not yet supported".to_owned()),
        );
    }
    match check_parameters(project, &places, target, params) {
        Ok(()) => {},
        Err(text) => {
            return Err(EngineError::Unschedulable(text));
        },
    }
    let mut j: usize = 0;
    assert(all.skip(0) == all);
    while j < places.len()
        invariant
            p == project@,
            all == as_ints(places@),
            all == run_places(p, target@),
            j <= places@.len(),
            forall|k: int| 0 <= k < places@.len() ==> (#[trigger] places@[k]) < project.beams@.len(),
            place_of(p.beams, target@) is Some,
            !(exists|k: int| 0 <= k < all.len() && p.beams[#[trigger] all[k]].executor is Docker),
            parameters_verdict(p, all, target@, params@.len()) is Ok,
            first_without_plugin(p, all, views(plugins@)) == first_without_plugin(
                p,
                all.skip(j as int),
                views(plugins@),
            ),
        decreases places.len() - j,
    {
        let beam = &project.beams[places[j]];
        assert(p.beams[all[j as int]] == beam@);
        if let ExecutorKind::Plugin { name, .. } = &beam.executor {
            if !crate::check::is_param(plugins, name.as_str()) {
                return Err(
                    EngineError::Unschedulable(
                        missing_plugin_text(beam.id.0.as_str(), name.as_str()),
                    ),
                );
            }
        }
        assert(all.skip(j as int).drop_first() == all.skip(j + 1));
        j += 1;
    }
    Ok(places)
}

/// The ids of the beams at `places`.
pub open spec fn ids_at(p: ProjectView, places: Seq<int>) -> Seq<Seq<char>> {
    Seq::new(places.len(), |k: int| p.beams[places[k]].id)
}

/// What one beam needs, as edges.
pub open spec fn edges_of(beam: BeamView) -> Seq<(Seq<char>, Seq<char>)> {
    Seq::new(beam.needs.len(), |j: int| (beam.id, beam.needs[j].0))
}

/// What the beams at `places` need, as edges, in order.
pub open spec fn edges_at(p: ProjectView, places: Seq<int>) -> Seq<(Seq<char>, Seq<char>)>
    decreases places.len(),
{
    if places.len() == 0 {
        Seq::empty()
    } else {
        edges_at(p, places.drop_last()) + edges_of(p.beams[places.last()])
    }
}

/// The ids of the beams at `places`, and what each needs.
fn beams_and_edges(project: &Project, places: &Vec<usize>) -> (r: (
    Vec<BeamId>,
    Vec<(BeamId, BeamId)>,
))
    requires
        forall|k: int| 0 <= k < places@.len() ==> (#[trigger] places@[k]) < project.beams@.len(),
    ensures
        id_views(r.0@) == ids_at(project@, as_ints(places@)),
        edge_views(r.1@) == edges_at(project@, as_ints(places@)),
{
    let ghost p = project@;
    let ghost all = as_ints(places@);
    let mut beams: Vec<BeamId> = Vec::new();
    let mut edges: Vec<(BeamId, BeamId)> = Vec::new();
    let mut k: usize = 0;
    assert(edge_views(edges@) =~= edges_at(p, all.take(0)));
    while k < places.len()
        invariant
            p == project@,
            all == as_ints(places@),
            k <= places@.len(),
            forall|i: int| 0 <= i < places@.len() ==> (#[trigger] places@[i]) < project.beams@.len(),
            beams@.len() == k,
            forall|i: int| 0 <= i < k ==> (#[trigger] beams@[i])@ == p.beams[all[i]].id,
            edge_views(edges@) == edges_at(p, all.take(k as int)),
        decreases places.len() - k,
    {
        let beam = &project.beams[places[k]];
        assert(p.beams[all[k as int]] == beam@);
        beams.push(beam.id.clone());
        let ghost before = edge_views(edges@);
        let ghost own = edges_of(beam@);
        let mut j: usize = 0;
        assert(before + own.take(0) =~= before);
        while j < beam.needs.len()
            invariant
                j <= beam.needs@.len(),
                own == edges_of(beam@),
                edge_views(edges@) == before + own.take(j as int),
            decreases beam.needs.len() - j,
        {
            let ghost now = edge_views(edges@);
            edges.push((beam.id.clone(), beam.needs[j].value.clone()));
            proof {
                assert(edge_views(edges@) =~= now.push(own[j as int]));
                assert(before + own.take(j + 1) =~= now.push(own[j as int]));
            }
            j += 1;
        }
        proof {
            assert(own.take(own.len() as int) == own);
            assert(all.take(k + 1).drop_last() == all.take(k as int));
            assert(all.take(k + 1).last() == all[k as int]);
        }
        k += 1;
    }
    assert(all.take(all.len() as int) == all);
    assert(id_views(beams@) =~= ids_at(p, all));
    (beams, edges)
}

/// The event that a run starts with: its beams and what each needs.
pub fn run_started(project: &Project, target: &BeamId, places: &Vec<usize>) -> (r: RunEvent)
    requires
        forall|k: int| 0 <= k < places@.len() ==> (#[trigger] places@[k]) < project.beams@.len(),
    ensures
        r matches RunEvent::RunStarted { target: t, beams, edges } && {
            &&& t == *target
            &&& id_views(beams@) == ids_at(project@, as_ints(places@))
            &&& edge_views(edges@) == edges_at(project@, as_ints(places@))
        },
{
    let (beams, edges) = beams_and_edges(project, places);
    RunEvent::RunStarted { target: target.clone(), beams, edges }
}

/// The event that a run of what changed since `reference` starts with.
pub fn affected_started(
    project: &Project,
    reference: &str,
    targets: &Vec<BeamId>,
    places: &Vec<usize>,
) -> (r: RunEvent)
    requires
        forall|k: int| 0 <= k < places@.len() ==> (#[trigger] places@[k]) < project.beams@.len(),
    ensures
        r matches RunEvent::AffectedStarted { reference: since, targets: t, beams, edges } && {
            &&& since@ == reference@
            &&& id_views(t@) == id_views(targets@)
            &&& id_views(beams@) == ids_at(project@, as_ints(places@))
            &&& edge_views(edges@) == edges_at(project@, as_ints(places@))
        },
{
    let (beams, edges) = beams_and_edges(project, places);
    let mut copies: Vec<BeamId> = Vec::new();
    let mut i: usize = 0;
    while i < targets.len()
        invariant
            i <= targets@.len(),
            copies@.len() == i,
            forall|k: int| 0 <= k < i ==> (#[trigger] copies@[k])@ == targets@[k]@,
        decreases targets.len() - i,
    {
        copies.push(targets[i].clone());
        i += 1;
    }
    assert(id_views(copies@) =~= id_views(targets@));
    RunEvent::AffectedStarted { reference: reference.to_owned(), targets: copies, beams, edges }
}

/// One of `targets` needs beam `i`, directly or through others, or is it.
pub open spec fn needed_by_one(p: ProjectView, targets: Seq<Seq<char>>, i: int) -> bool {
    exists|k: int| 0 <= k < targets.len() && reaches(p, #[trigger] targets[k], p.beams[i].id)
}

/// The places of the beams, of the first `n`, that one of `targets` needs.
pub open spec fn needed_by_any(p: ProjectView, targets: Seq<Seq<char>>, n: int) -> Seq<int>
    decreases n,
{
    if n <= 0 {
        Seq::empty()
    } else if needed_by_one(p, targets, n - 1) {
        needed_by_any(p, targets, n - 1).push(n - 1)
    } else {
        needed_by_any(p, targets, n - 1)
    }
}

/// The first of `targets` for which no run can be scheduled.
pub open spec fn first_unplanned(
    p: ProjectView,
    targets: Seq<Seq<char>>,
    given: nat,
    plugins: Seq<Seq<char>>,
) -> Option<int>
    decreases targets.len(),
{
    if targets.len() == 0 {
        None
    } else {
        match first_unplanned(p, targets.drop_last(), given, plugins) {
            Some(i) => Some(i),
            None => if planned(p, targets.last(), given, plugins) is Err {
                Some(targets.len() - 1)
            } else {
                None
            },
        }
    }
}

proof fn first_unplanned_early(
    p: ProjectView,
    targets: Seq<Seq<char>>,
    given: nat,
    plugins: Seq<Seq<char>>,
    n: int,
)
    requires
        0 <= n <= targets.len(),
        first_unplanned(p, targets.take(n), given, plugins) is Some,
    ensures
        first_unplanned(p, targets, given, plugins) == first_unplanned(
            p,
            targets.take(n),
            given,
            plugins,
        ),
    decreases targets.len() - n,
{
    if n == targets.len() {
        assert(targets.take(n) == targets);
    } else {
        assert(targets.take(n + 1).drop_last() == targets.take(n));
        first_unplanned_early(p, targets, given, plugins, n + 1);
    }
}

/// Which beams a run of several targets takes: what any of them needs, in
/// project order; or why the first that cannot be scheduled cannot.
pub open spec fn planned_all(
    p: ProjectView,
    targets: Seq<Seq<char>>,
    given: nat,
    plugins: Seq<Seq<char>>,
) -> Result<Seq<int>, EngineView> {
    match first_unplanned(p, targets, given, plugins) {
        Some(i) => planned(p, targets[i], given, plugins),
        None => Ok(needed_by_any(p, targets, p.beams.len() as int)),
    }
}

/// A beam is among those that `target` needs exactly where it is reached.
proof fn needed_are_reached(p: ProjectView, target: Seq<char>, n: int, i: int)
    requires
        0 <= n <= p.beams.len(),
    ensures
        needed_by(p, target, n).contains(i) <==> 0 <= i < n && reaches(p, target, p.beams[i].id),
        forall|k: int|
            0 <= k < needed_by(p, target, n).len() ==> 0 <= #[trigger] needed_by(p, target, n)[k]
                < n,
    decreases n,
{
    if n > 0 {
        needed_are_reached(p, target, n - 1, i);
        let before = needed_by(p, target, n - 1);
        if before.contains(i) {
            let k = choose|k: int| 0 <= k < before.len() && before[k] == i;
            assert(before.push(n - 1)[k] == i);
        }
        assert(before.push(n - 1)[before.len() as int] == n - 1);
    }
}

/// The beams, among all, that one of the first `n` targets needs.
spec fn marked(p: ProjectView, targets: Seq<Seq<char>>, n: int, flags: Seq<bool>) -> bool {
    &&& flags.len() == p.beams.len()
    &&& forall|i: int|
        0 <= i < flags.len() ==> #[trigger] flags[i] == needed_by_one(p, targets.take(n), i)
}

/// Marks what one more target needs.
fn mark_places(places: &Vec<usize>, flags: &mut Vec<bool>)
    requires
        forall|k: int| 0 <= k < places@.len() ==> (#[trigger] places@[k]) < old(flags)@.len(),
    ensures
        final(flags)@.len() == old(flags)@.len(),
        forall|i: int|
            0 <= i < old(flags)@.len() ==> #[trigger] final(flags)@[i] == (old(flags)@[i] || as_ints(
                places@,
            ).contains(i)),
{
    let ghost before = flags@;
    let ghost all = as_ints(places@);
    let mut k: usize = 0;
    while k < places.len()
        invariant
            k <= places@.len(),
            all == as_ints(places@),
            flags@.len() == before.len(),
            forall|j: int| 0 <= j < places@.len() ==> (#[trigger] places@[j]) < before.len(),
            forall|i: int|
                0 <= i < before.len() ==> #[trigger] flags@[i] == (before[i] || all.take(
                    k as int,
                ).contains(i)),
        decreases places.len() - k,
    {
        let ghost now = flags@;
        flags.set(places[k], true);
        proof {
            let next = all.take(k + 1);
            assert(next =~= all.take(k as int).push(places@[k as int] as int));
            assert forall|i: int| 0 <= i < before.len() implies #[trigger] flags@[i] == (before[i]
                || next.contains(i)) by {
                assert(now[i] == (before[i] || all.take(k as int).contains(i)));
                if i == places@[k as int] {
                    assert(next[k as int] == i);
                } else {
                    if all.take(k as int).contains(i) {
                        let j = choose|j: int| 0 <= j < k && all.take(k as int)[j] == i;
                        assert(next[j] == i);
                    }
                    if next.contains(i) {
                        let j = choose|j: int| 0 <= j < next.len() && next[j] == i;
                        assert(all.take(k as int)[j] == i);
                    }
                }
            }
        }
        k += 1;
    }
    assert(all.take(all.len() as int) =~= all);
}

/// The places of the beams to run for several targets, once everything that
/// would keep a run of one of them from being scheduled has been ruled out.
pub fn plan_all(
    project: &Project,
    targets: &Vec<BeamId>,
    params: &Vec<String>,
    plugins: &Vec<String>,
) -> (r: Result<Vec<usize>, EngineError>)
    ensures
        match r {
            Ok(places) => planned_all(
                project@,
                id_views(targets@),
                params@.len(),
                views(plugins@),
            ) == Ok::<Seq<int>, EngineView>(as_ints(places@)) && forall|k: int|
                0 <= k < places@.len() ==> (#[trigger] places@[k]) < project.beams@.len(),
            Err(error) => planned_all(
                project@,
                id_views(targets@),
                params@.len(),
                views(plugins@),
            ) == Err::<Seq<int>, EngineView>(error@),
        },
{
    let ghost p = project@;
    let ghost all = id_views(targets@);
    let ghost given = params@.len();
    let ghost found = views(plugins@);
    let n: usize = project.beams.len();
    let mut flags: Vec<bool> = Vec::new();
    let mut i: usize = 0;
    while i < n
        invariant
            i <= n,
            n == p.beams.len(),
            flags@.len() == i,
            forall|k: int| 0 <= k < i ==> !(#[trigger] flags@[k]),
        decreases n - i,
    {
        flags.push(false);
        i += 1;
    }
    assert(marked(p, all, 0, flags@));
    let mut k: usize = 0;
    assert(all.take(0) =~= Seq::<Seq<char>>::empty());
    while k < targets.len()
        invariant
            p == project@,
            all == id_views(targets@),
            all.len() == targets@.len(),
            given == params@.len(),
            found == views(plugins@),
            n == project.beams@.len(),
            n == p.beams.len(),
            k <= targets@.len(),
            first_unplanned(p, all.take(k as int), given, found) is None,
            marked(p, all, k as int, flags@),
        decreases targets.len() - k,
    {
        let ghost next = all.take(k + 1);
        assert(next.drop_last() =~= all.take(k as int));
        assert(next.last() == targets@[k as int]@);
        match plan(project, &targets[k], params, plugins) {
            Ok(places) => {
                let ghost before = flags@;
                mark_places(&places, &mut flags);
                proof {
                    assert(as_ints(places@) == needed_by(p, next.last(), n as int));
                    assert forall|j: int| 0 <= j < flags@.len() implies #[trigger] flags@[j]
                        == needed_by_one(p, next, j) by {
                        one_more_target(p, next, j);
                        needed_are_reached(p, next.last(), n as int, j);
                        assert(before[j] == needed_by_one(p, all.take(k as int), j));
                    }
                }
            },
            Err(error) => {
                proof {
                    assert(first_unplanned(p, next, given, found) == Some(k as int));
                    first_unplanned_early(p, all, given, found, k + 1);
                    assert(all[k as int] == next.last());
                }
                return Err(error);
            },
        }
        k += 1;
    }
    assert(all.take(all.len() as int) =~= all);
    let mut places: Vec<usize> = Vec::new();
    let mut j: usize = 0;
    assert(as_ints(places@) =~= needed_by_any(p, all, 0));
    while j < n
        invariant
            j <= n,
            n == p.beams.len(),
            marked(p, all, all.len() as int, flags@),
            all.take(all.len() as int) == all,
            as_ints(places@) == needed_by_any(p, all, j as int),
            forall|k: int| 0 <= k < places@.len() ==> (#[trigger] places@[k]) < j,
        decreases n - j,
    {
        assert(flags@[j as int] == needed_by_one(p, all, j as int));
        if flags[j] {
            let ghost before = places@;
            places.push(j);
            assert(as_ints(places@) =~= as_ints(before).push(j as int));
        }
        j += 1;
    }
    Ok(places)
}

proof fn one_more_target(p: ProjectView, targets: Seq<Seq<char>>, i: int)
    requires
        targets.len() > 0,
    ensures
        needed_by_one(p, targets, i) <==> needed_by_one(p, targets.drop_last(), i) || reaches(
            p,
            targets.last(),
            p.beams[i].id,
        ),
{
    let front = targets.drop_last();
    if needed_by_one(p, targets, i) {
        let k = choose|k: int|
            0 <= k < targets.len() && reaches(p, #[trigger] targets[k], p.beams[i].id);
        if k < front.len() {
            assert(front[k] == targets[k]);
        }
    }
    if needed_by_one(p, front, i) {
        let k = choose|k: int|
            0 <= k < front.len() && reaches(p, #[trigger] front[k], p.beams[i].id);
        assert(targets[k] == front[k]);
    }
    if reaches(p, targets.last(), p.beams[i].id) {
        assert(targets[targets.len() - 1] == targets.last());
    }
}

/// The arguments that a beam of a run of several targets is given: only the
/// targets are given any.
pub fn args_among(id: &BeamId, targets: &Vec<BeamId>, params: &Vec<String>) -> (r: Vec<String>)
    ensures
        views(r@) == if id_views(targets@).contains(id@) {
            views(params@)
        } else {
            Seq::empty()
        },
{
    if holds_id(targets, id.0.as_str()) {
        copy_strings(params)
    } else {
        let none: Vec<String> = Vec::new();
        assert(views(none@) =~= Seq::<Seq<char>>::empty());
        none
    }
}

/// The arguments that a beam is given: only the target is given any.
pub fn args_for(id: &BeamId, target: &BeamId, params: &Vec<String>) -> (r: Vec<String>)
    ensures
        views(r@) == if id@ == target@ {
            views(params@)
        } else {
            Seq::empty()
        },
{
    if same_text(id.0.as_str(), target.0.as_str()) {
        copy_strings(params)
    } else {
        let none: Vec<String> = Vec::new();
        assert(views(none@) =~= Seq::<Seq<char>>::empty());
        none
    }
}

/// A beam's commands and what they run in, all rendered.
#[derive(Debug, PartialEq)]
pub struct RenderedBeam {
    pub commands: Vec<String>,
    pub env: Vec<(String, String)>,
    pub cwd: String,
}

pub struct RenderedView {
    pub commands: Seq<Seq<char>>,
    pub env: Seq<(Seq<char>, Seq<char>)>,
    pub cwd: Seq<char>,
}

impl View for RenderedBeam {
    type V = RenderedView;

    open spec fn view(&self) -> RenderedView {
        RenderedView {
            commands: views(self.commands@),
            env: pair_views(self.env@),
            cwd: self.cwd@,
        }
    }
}

/// The variables that a beam's commands are given: those of the run, then
/// the beam's own.
pub fn command_env(extra: &Vec<(String, String)>, rendered: &RenderedBeam) -> (r: Vec<
    (String, String),
>)
    ensures
        pair_views(r@) == pair_views(extra@) + rendered@.env,
{
    let mut out = copy_pairs(extra);
    let mut i: usize = 0;
    assert(rendered.env@.take(0) =~= Seq::<(String, String)>::empty());
    assert(pair_views(out@) =~= pair_views(extra@) + pair_views(rendered.env@.take(0)));
    while i < rendered.env.len()
        invariant
            i <= rendered.env@.len(),
            pair_views(out@) == pair_views(extra@) + pair_views(rendered.env@.take(i as int)),
        decreases rendered.env.len() - i,
    {
        let (name, value) = &rendered.env[i];
        let ghost before = out@;
        out.push((name.clone(), value.clone()));
        proof {
            let done = rendered.env@.take(i as int);
            assert(pair_views(out@) =~= pair_views(before).push((name@, value@)));
            assert(rendered.env@.take(i + 1) =~= done.push(rendered.env@[i as int]));
            assert(pair_views(rendered.env@.take(i + 1)) =~= pair_views(done).push(
                (name@, value@),
            ));
            assert(pair_views(out@) =~= pair_views(extra@) + pair_views(rendered.env@.take(i + 1)));
        }
        i += 1;
    }
    assert(rendered.env@.take(rendered.env@.len() as int) =~= rendered.env@);
    out
}

/// The scope that a beam's templates are rendered in.
pub open spec fn bound_scope(beam: BeamView, args: Seq<Seq<char>>) -> ScopeView {
    ScopeView {
        values: with_arguments(beam.scope.values, beam.params, args),
        git: beam.scope.git,
    }
}

pub open spec fn command_at(
    templates: Seq<StringTemplate>,
    scope: ScopeView,
    env: Environment,
) -> spec_fn(int) -> Result<Seq<char>, ErrorView> {
    |i: int| text_of(templates[i].parts@, templates[i].span, scope, env)
}

pub open spec fn variable_at(
    templates: Seq<(Seq<char>, StringTemplate)>,
    scope: ScopeView,
    env: Environment,
) -> spec_fn(int) -> Result<(Seq<char>, Seq<char>), ErrorView> {
    |i: int|
        match text_of(templates[i].1.parts@, templates[i].1.span, scope, env) {
            Ok(s) => Ok((templates[i].0, s)),
            Err(x) => Err(x),
        }
}

/// A beam's commands, then its environment, rendered with its parameters
/// bound; its directory is relative to its Beamfile's. Errors point at the
/// beam's own file.
pub open spec fn rendered_beam(
    beam: BeamView,
    args: Seq<Seq<char>>,
    env: Environment,
) -> Result<RenderedView, ErrorView> {
    let scope = bound_scope(beam, args);
    match collect(beam.run.len(), command_at(beam.run, scope, env)) {
        Err(x) => Err(x.with_source_id(beam.source)),
        Ok(commands) => match collect(beam.env.len(), variable_at(beam.env, scope, env)) {
            Err(x) => Err(x.with_source_id(beam.source)),
            Ok(variables) => Ok(
                RenderedView {
                    commands,
                    env: variables,
                    cwd: match beam.cwd {
                        Some(cwd) => joined_path(beam.dir, cwd),
                        None => beam.dir,
                    },
                },
            ),
        },
    }
}

/// Renders what a beam runs, with its parameters bound to `args`.
pub fn render(beam: &Beam, args: &Vec<String>, env: &Environment) -> (r: Result<
    RenderedBeam,
    CoreError,
>)
    ensures
        result_view(r, |b: RenderedBeam| b@) == rendered_beam(beam@, views(args@), *env),
{
    let scope = beam.scope.with_params(&beam.params, args);
    let ghost s = bound_scope(beam@, views(args@));
    assert(scope@ == s);
    let ghost f = command_at(beam.run@, s, *env);
    let mut commands: Vec<String> = Vec::new();
    let mut i: usize = 0;
    assert(views(commands@) =~= Seq::<Seq<char>>::empty());
    while i < beam.run.len()
        invariant
            i <= beam.run@.len(),
            scope@ == s,
            s == bound_scope(beam@, views(args@)),
            f == command_at(beam.run@, s, *env),
            collect(i as nat, f) == Ok::<Seq<Seq<char>>, ErrorView>(views(commands@)),
        decreases beam.run.len() - i,
    {
        match render_template(&beam.run[i], &scope, env) {
            Ok(command) => {
                let ghost before = views(commands@);
                commands.push(command);
                assert(views(commands@) =~= before.push(command@));
            },
            Err(error) => {
                proof {
                    collect_fails_early(beam.run@.len(), (i + 1) as nat, f);
                }
                return Err(error.with_source_id(beam.source));
            },
        }
        i += 1;
    }
    let ghost templates = beam@.env;
    let ghost g = variable_at(templates, s, *env);
    let mut variables: Vec<(String, String)> = Vec::new();
    let mut j: usize = 0;
    assert(pair_views(variables@) =~= Seq::<(Seq<char>, Seq<char>)>::empty());
    while j < beam.env.len()
        invariant
            j <= beam.env@.len(),
            templates == beam@.env,
            scope@ == s,
            s == bound_scope(beam@, views(args@)),
            f == command_at(beam.run@, s, *env),
            g == variable_at(templates, s, *env),
            collect(beam.run@.len(), f) is Ok,
            collect(j as nat, g) == Ok::<Seq<(Seq<char>, Seq<char>)>, ErrorView>(
                pair_views(variables@),
            ),
        decreases beam.env.len() - j,
    {
        let (name, template) = &beam.env[j];
        assert(templates[j as int] == (name@, *template));
        match render_template(template, &scope, env) {
            Ok(value) => {
                let ghost before = pair_views(variables@);
                variables.push((name.clone(), value));
                assert(pair_views(variables@) =~= before.push((name@, value@)));
            },
            Err(error) => {
                proof {
                    collect_fails_early(beam.env@.len(), (j + 1) as nat, g);
                }
                return Err(error.with_source_id(beam.source));
            },
        }
        j += 1;
    }
    let cwd = match &beam.cwd {
        Some(cwd) => join_path(beam.dir.as_str(), cwd.as_str()),
        None => beam.dir.clone(),
    };
    Ok(RenderedBeam { commands, env: variables, cwd })
}

/// The beams, of the first `n`, that ended with a status like `like`.
pub open spec fn ended_like(
    ids: Seq<BeamId>,
    statuses: Seq<Option<BeamStatus>>,
    like: BeamStatus,
    n: int,
) -> Seq<BeamId>
    decreases n,
{
    if n <= 0 {
        Seq::empty()
    } else if statuses[n - 1] is Some && RunSummary::same_bucket(like, statuses[n - 1]->Some_0) {
        ended_like(ids, statuses, like, n - 1).push(ids[n - 1])
    } else {
        ended_like(ids, statuses, like, n - 1)
    }
}

/// The first beam whose task did not end.
pub open spec fn first_panicked(statuses: Seq<Option<BeamStatus>>) -> Option<int>
    decreases statuses.len(),
{
    if statuses.len() == 0 {
        None
    } else {
        match first_panicked(statuses.drop_last()) {
            Some(i) => Some(i),
            None => if statuses.last() is None {
                Some(statuses.len() - 1)
            } else {
                None
            },
        }
    }
}

proof fn first_panicked_early(statuses: Seq<Option<BeamStatus>>, n: int)
    requires
        0 <= n <= statuses.len(),
        first_panicked(statuses.take(n)) is Some,
    ensures
        first_panicked(statuses) == first_panicked(statuses.take(n)),
    decreases statuses.len() - n,
{
    if n == statuses.len() {
        assert(statuses.take(n) == statuses);
    } else {
        assert(statuses.take(n + 1).drop_last() == statuses.take(n));
        first_panicked_early(statuses, n + 1);
    }
}

/// `summary` files each of `ids` under how it ended.
pub open spec fn is_summary(
    ids: Seq<BeamId>,
    statuses: Seq<Option<BeamStatus>>,
    summary: RunSummary,
) -> bool {
    &&& ids.len() == statuses.len()
    &&& first_panicked(statuses) is None
    &&& forall|s: BeamStatus|
        #[trigger] summary.bucket(s) == ended_like(ids, statuses, s, statuses.len() as int)
}

/// What a run amounts to once every beam's task has ended, in project order:
/// how each ended, or `None` where its task panicked.
pub fn summarize(ids: &Vec<BeamId>, statuses: &Vec<Option<BeamStatus>>, duration_ms: u64) -> (r:
    Result<RunSummary, EngineError>)
    requires
        ids@.len() == statuses@.len(),
    ensures
        match r {
            Ok(summary) => is_summary(ids@, statuses@, summary) && summary.duration_ms
                == duration_ms,
            Err(error) => first_panicked(statuses@) matches Some(i) && 0 <= i < ids@.len() && error
                == (EngineError::Panicked { beam: ids@[i] }),
        },
{
    let mut summary = RunSummary::new();
    let mut i: usize = 0;
    assert forall|s: BeamStatus| #[trigger] summary.bucket(s) == ended_like(ids@, statuses@, s, 0) by {}
    while i < ids.len()
        invariant
            ids@.len() == statuses@.len(),
            i <= ids@.len(),
            first_panicked(statuses@.take(i as int)) is None,
            forall|s: BeamStatus|
                #[trigger] summary.bucket(s) == ended_like(ids@, statuses@, s, i as int),
        decreases ids.len() - i,
    {
        assert(statuses@.take(i + 1).drop_last() == statuses@.take(i as int));
        match &statuses[i] {
            Some(status) => {
                let ghost before = summary;
                summary.record(ids[i].clone(), status);
                assert forall|s: BeamStatus| #[trigger] summary.bucket(s) == ended_like(
                    ids@,
                    statuses@,
                    s,
                    i + 1,
                ) by {
                    assert(before.bucket(s) == ended_like(ids@, statuses@, s, i as int));
                }
            },
            None => {
                proof {
                    first_panicked_early(statuses@, i + 1);
                }
                return Err(EngineError::Panicked { beam: ids[i].clone() });
            },
        }
        i += 1;
    }
    assert(statuses@.take(statuses@.len() as int) == statuses@);
    let ghost before = summary;
    summary.duration_ms = duration_ms;
    assert forall|s: BeamStatus| #[trigger] summary.bucket(s) == ended_like(
        ids@,
        statuses@,
        s,
        statuses@.len() as int,
    ) by {
        assert(summary.bucket(s) == before.bucket(s));
    }
    Ok(summary)
}

/// How a run ends: its summary, and the event that says so with that very
/// summary. A run with a beam whose task panicked ends without either.
pub fn conclude(ids: &Vec<BeamId>, statuses: &Vec<Option<BeamStatus>>, duration_ms: u64) -> (r:
    Result<(RunSummary, RunEvent), EngineError>)
    requires
        ids@.len() == statuses@.len(),
    ensures
        match r {
            Ok((summary, event)) => {
                &&& is_summary(ids@, statuses@, summary)
                &&& summary.duration_ms == duration_ms
                &&& event matches RunEvent::RunFinished { summary: told } && is_summary(
                    ids@,
                    statuses@,
                    told,
                ) && told.duration_ms == duration_ms
            },
            Err(error) => first_panicked(statuses@) matches Some(i) && 0 <= i < ids@.len() && error
                == (EngineError::Panicked { beam: ids@[i] }),
        },
{
    let summary = match summarize(ids, statuses, duration_ms) {
        Ok(summary) => summary,
        Err(error) => {
            return Err(error);
        },
    };
    match summarize(ids, statuses, duration_ms) {
        Ok(told) => Ok((summary, RunEvent::RunFinished { summary: told })),
        Err(error) => Err(error),
    }
}

} // verus!
