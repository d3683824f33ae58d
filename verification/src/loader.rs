//! Loading a Beamfile and everything it imports.
//!
//! A file is read, canonicalized and parsed elsewhere; what came of it is
//! kept in a [`FileTable`]. [`load_project`] says which file it needs next
//! until it has all of them.
//!
//! An import's path is joined to the directory of the importing file as it
//! was written: that is the path shown to the user. Files are told apart by
//! their canonical path. A beam's directory is absolute.

use vstd::prelude::*;
use vstd::string::*;
use crate::error::{error_at, result_view, CoreError, ErrorView};
use crate::git::{GitError, GitHead};
use crate::git_reads::{file_reads_git, mentions_git};
use crate::graph::{graph_verdict, validate_graph};
use crate::model::{
    beam_views, copy_option, default_view, hook_views, need_views, Beam, BeamId, BeamView, Hook,
    HookView, Project, ProjectView, SourceId,
};
use crate::paths::{
    absolute, absolute_path, is_absolute, join_path, joined_path, parent, parent_of,
    path_is_absolute,
};
use crate::project::{build_project, parse_failure, project_of};
use crate::scope::{copy_git, git_view, Environment, GitView};
use crate::syntax::{File, Import, ParseError, Span, Spanned};
use crate::text::{join, joined, same_text, text2, text3, views};

verus! {

/// A file that could be read: its text and what a parser made of it.
#[derive(Debug, PartialEq)]
pub struct ReadFile {
    pub text: String,
    pub parsed: Result<File, ParseError>,
}

/// What came of a path: its canonical form and the file, or the text of the
/// error.
#[derive(Debug, PartialEq)]
pub struct FileEntry {
    pub path: String,
    pub canonical: Result<String, String>,
    pub read: Result<ReadFile, String>,
}

/// The files read so far.
#[derive(Debug, PartialEq)]
pub struct FileTable {
    pub entries: Vec<FileEntry>,
}

/// The path and text of every file that a project was loaded from, by
/// [`SourceId`].
#[derive(Debug, PartialEq, Eq)]
pub struct SourceMap {
    entries: Vec<(String, String)>,
}

pub open spec fn pair_views(entries: Seq<(String, String)>) -> Seq<(Seq<char>, Seq<char>)> {
    Seq::new(entries.len(), |i: int| (entries[i].0@, entries[i].1@))
}

impl View for SourceMap {
    type V = Seq<(Seq<char>, Seq<char>)>;

    closed spec fn view(&self) -> Seq<(Seq<char>, Seq<char>)> {
        pair_views(self.entries@)
    }
}

impl SourceMap {
    /// No files.
    pub fn new() -> (r: SourceMap)
        ensures
            r@ == Seq::<(Seq<char>, Seq<char>)>::empty(),
    {
        let r = SourceMap { entries: Vec::new() };
        assert(r@ =~= Seq::<(Seq<char>, Seq<char>)>::empty());
        r
    }

    /// Adds a file; its id is the number of files before it.
    pub fn push(&mut self, path: String, source: String) -> (r: SourceId)
        ensures
            final(self)@ == old(self)@.push((path@, source@)),
            r.0 == old(self)@.len(),
    {
        let id = SourceId(self.entries.len());
        self.entries.push((path, source));
        assert(self@ =~= old(self)@.push((path@, source@)));
        id
    }

    /// The path and text of the file `id`.
    pub fn get(&self, id: SourceId) -> (r: Option<(&str, &str)>)
        ensures
            match r {
                Some((path, source)) => id.0 < self@.len() && (path@, source@)
                    == self@[id.0 as int],
                None => id.0 >= self@.len(),
            },
    {
        if id.0 < self.entries.len() {
            let (path, source) = &self.entries[id.0];
            Some((path.as_str(), source.as_str()))
        } else {
            None
        }
    }

    /// The path of every file, the root first, then the imports in load
    /// order.
    pub fn paths(&self) -> (r: Vec<&str>)
        ensures
            r@.len() == self@.len(),
            forall|i: int| 0 <= i < r@.len() ==> (#[trigger] r@[i])@ == self@[i].0,
    {
        let mut out: Vec<&str> = Vec::new();
        let mut i: usize = 0;
        while i < self.entries.len()
            invariant
                i <= self.entries@.len(),
                out@.len() == i,
                forall|k: int| 0 <= k < i ==> (#[trigger] out@[k])@ == self@[k].0,
            decreases self.entries.len() - i,
        {
            out.push(self.entries[i].0.as_str());
            i += 1;
        }
        out
    }
}

/// Why a project could not be loaded, and the files read until then.
#[derive(Debug, PartialEq)]
pub struct LoadError {
    pub error: CoreError,
    pub sources: SourceMap,
}

/// What loading needs next, or what came of it.
#[derive(Debug, PartialEq)]
pub enum LoadStep {
    /// The project and the files it came from.
    Done(Project, SourceMap),
    Failed(LoadError),
    /// The file at this path is to be read.
    Read(String),
    /// Git is to be asked about `HEAD`, in the root file's directory.
    AskGit,
}

pub enum LoadView {
    Done(ProjectView, Seq<(Seq<char>, Seq<char>)>),
    Failed(ErrorView, Seq<(Seq<char>, Seq<char>)>),
    Read(Seq<char>),
    AskGit,
}

impl View for LoadStep {
    type V = LoadView;

    open spec fn view(&self) -> LoadView {
        match self {
            LoadStep::Done(project, sources) => LoadView::Done(project@, sources@),
            LoadStep::Failed(e) => LoadView::Failed(e.error@, e.sources@),
            LoadStep::Read(path) => LoadView::Read(path@),
            LoadStep::AskGit => LoadView::AskGit,
        }
    }
}

/// Everything that loading depends on. `git` is unavailable until asked.
pub struct Inputs {
    pub entries: Seq<FileEntry>,
    pub cwd: Result<Seq<char>, Seq<char>>,
    pub git: GitView,
    pub env: Environment,
}

/// The place of what came of `path`, the latest where it was read again.
pub open spec fn entry_place(entries: Seq<FileEntry>, path: Seq<char>) -> Option<int>
    decreases entries.len(),
{
    if entries.len() == 0 {
        None
    } else if entries.last().path@ == path {
        Some(entries.len() - 1)
    } else {
        entry_place(entries.drop_last(), path)
    }
}

/// A file loaded to the end: its canonical path, its beams and those of its
/// imports, named from it, its default and its hooks.
pub struct LoadedView {
    pub canonical: Seq<char>,
    pub beams: Seq<BeamView>,
    pub default: Option<(Seq<char>, Span)>,
    pub hooks: Seq<HookView>,
}

/// What loading has gathered: the files read and those loaded to the end.
pub struct Gathered {
    pub sources: Seq<(Seq<char>, Seq<char>)>,
    pub loaded: Seq<LoadedView>,
}

/// What came of one file: its place among those loaded, or why it is not
/// there.
pub enum Outcome {
    Loaded(int),
    Failed(ErrorView),
    Read(Seq<char>),
    AskGit,
}

pub open spec fn unreadable_file(path: Seq<char>, error: Seq<char>, span: Span) -> ErrorView {
    error_at("cannot read Beamfile `"@ + path + "`: "@ + error, span)
}

/// The first place on the stack of a file with this canonical path.
pub open spec fn stack_place(stack: Seq<(Seq<char>, Seq<char>)>, canonical: Seq<char>) -> Option<int>
    decreases stack.len(),
{
    if stack.len() == 0 {
        None
    } else {
        match stack_place(stack.drop_last(), canonical) {
            Some(i) => Some(i),
            None => if stack.last().0 == canonical {
                Some(stack.len() - 1)
            } else {
                None
            },
        }
    }
}

/// The error for an import that closes a cycle: the files on the way, as
/// they were written, and the one that closes it.
pub open spec fn import_cycle(
    stack: Seq<(Seq<char>, Seq<char>)>,
    start: int,
    path: Seq<char>,
    span: Span,
) -> ErrorView {
    let chain = Seq::new((stack.len() - start) as nat, |j: int| stack[start + j].1).push(path);
    error_at("import cycle: "@ + joined(chain, " -> "@), span)
}

pub open spec fn loaded_place(loaded: Seq<LoadedView>, canonical: Seq<char>) -> Option<int>
    decreases loaded.len(),
{
    if loaded.len() == 0 {
        None
    } else if loaded.last().canonical == canonical {
        Some(loaded.len() - 1)
    } else {
        loaded_place(loaded.drop_last(), canonical)
    }
}

/// The directory of the file at `path`, absolute. A relative path needs the
/// current directory.
pub open spec fn beam_dir_of(
    path: Seq<char>,
    cwd: Result<Seq<char>, Seq<char>>,
    span: Span,
) -> Result<Seq<char>, ErrorView> {
    let problem = "cannot resolve an absolute path for `"@ + path + "`: "@;
    if path.len() == 0 {
        Err(error_at(problem + "cannot make an empty path absolute"@, span))
    } else if cwd is Err && !is_absolute(path) {
        Err(error_at(problem + cwd->Err_0, span))
    } else {
        let from = if cwd is Ok {
            cwd->Ok_0
        } else {
            Seq::empty()
        };
        match parent_of(absolute_path(path, from)) {
            Some(dir) => Ok(dir),
            None => Ok("."@),
        }
    }
}

/// The directory that imports of the file at `path` are relative to.
pub open spec fn import_base_of(path: Seq<char>) -> Seq<char> {
    match parent_of(path) {
        Some(dir) => dir,
        None => "."@,
    }
}

/// The first import whose alias an earlier one has.
pub open spec fn duplicate_alias(imports: Seq<Import>) -> Option<int>
    decreases imports.len(),
{
    if imports.len() == 0 {
        None
    } else {
        match duplicate_alias(imports.drop_last()) {
            Some(i) => Some(i),
            None => if exists|j: int|
                0 <= j < imports.len() - 1 && (#[trigger] imports[j]).alias.value@
                    == imports.last().alias.value@ {
                Some(imports.len() - 1)
            } else {
                None
            },
        }
    }
}

pub open spec fn duplicate_alias_error(import: Import) -> ErrorView {
    error_at("duplicate import alias `"@ + import.alias.value@ + "`"@, import.alias.span)
}

/// A beam seen through the alias its file was imported under.
pub open spec fn under_alias(alias: Seq<char>, beam: BeamView) -> BeamView {
    BeamView {
        id: alias + ":"@ + beam.id,
        needs: Seq::new(
            beam.needs.len(),
            |j: int| (alias + ":"@ + beam.needs[j].0, beam.needs[j].1),
        ),
        ..beam
    }
}

pub open spec fn all_under_alias(alias: Seq<char>, beams: Seq<BeamView>) -> Seq<BeamView> {
    Seq::new(beams.len(), |i: int| under_alias(alias, beams[i]))
}

/// Loads the file at `path`, which an import at `span` of the file `from`
/// names. `stack` leads to it.
pub open spec fn file_loaded(
    t: Inputs,
    stack: Seq<(Seq<char>, Seq<char>)>,
    g: Gathered,
    path: Seq<char>,
    span: Span,
    from: SourceId,
) -> (Outcome, Gathered)
    decreases t.entries.len() - stack.len(), 0int,
{
    match entry_place(t.entries, path) {
        None => (Outcome::Read(path), g),
        Some(k) => match t.entries[k].canonical {
            Err(text) => (
                Outcome::Failed(unreadable_file(path, text@, span).with_source_id(from)),
                g,
            ),
            Ok(canonical) => match stack_place(stack, canonical@) {
                Some(start) => (
                    Outcome::Failed(import_cycle(stack, start, path, span).with_source_id(from)),
                    g,
                ),
                None => match loaded_place(g.loaded, canonical@) {
                    Some(i) => (Outcome::Loaded(i), g),
                    None => match t.entries[k].read {
                        Err(text) => (
                            Outcome::Failed(
                                unreadable_file(path, text@, span).with_source_id(from),
                            ),
                            g,
                        ),
                        Ok(file) => match beam_dir_of(path, t.cwd, span) {
                            Err(x) => (Outcome::Failed(x.with_source_id(from)), g),
                            Ok(dir) => if stack.len() >= t.entries.len() {
                                (Outcome::AskGit, g)
                            } else {
                                file_read(
                                    t,
                                    stack.push((canonical@, path)),
                                    Gathered { sources: g.sources.push((path, file.text@)), ..g },
                                    path,
                                    dir,
                                    file,
                                    SourceId(g.sources.len() as usize),
                                )
                            },
                        },
                    },
                },
            },
        },
    }
}

pub open spec fn import_count(file: ReadFile) -> nat {
    match file.parsed {
        Ok(parsed) => parsed.imports@.len(),
        Err(_) => 0,
    }
}

/// Evaluates a file that was read, in the directory `dir`, then loads its imports.
pub open spec fn file_read(
    t: Inputs,
    stack: Seq<(Seq<char>, Seq<char>)>,
    g: Gathered,
    path: Seq<char>,
    dir: Seq<char>,
    file: ReadFile,
    id: SourceId,
) -> (Outcome, Gathered)
    decreases t.entries.len() - stack.len(), import_count(file) + 2,
{
    match file.parsed {
        Err(e) => (Outcome::Failed(parse_failure(e).with_source_id(id)), g),
        Ok(parsed) => match duplicate_alias(parsed.imports@) {
            Some(k) => (
                Outcome::Failed(duplicate_alias_error(parsed.imports@[k]).with_source_id(id)),
                g,
            ),
            None => if file_reads_git(parsed) && t.git is Unavailable {
                (Outcome::AskGit, g)
            } else {
                match project_of(parsed, dir, t.git, t.env, id) {
                    Err(x) => (Outcome::Failed(x), g),
                    Ok(own) => imports_loaded(
                        t,
                        stack,
                        g,
                        parsed.imports@,
                        0,
                        import_base_of(path),
                        id,
                        LoadedView {
                            canonical: stack.last().0,
                            beams: own.beams,
                            default: own.default,
                            hooks: own.hooks,
                        },
                    ),
                }
            },
        },
    }
}

/// Loads the imports of a file, the first `k` left aside, and adds their
/// beams, under the import's alias, to what the file has.
pub open spec fn imports_loaded(
    t: Inputs,
    stack: Seq<(Seq<char>, Seq<char>)>,
    g: Gathered,
    imports: Seq<Import>,
    k: int,
    base: Seq<char>,
    id: SourceId,
    own: LoadedView,
) -> (Outcome, Gathered)
    decreases t.entries.len() - stack.len(), imports.len() - k + 1,
{
    if k < 0 || k >= imports.len() {
        (Outcome::Loaded(g.loaded.len() as int), Gathered { loaded: g.loaded.push(own), ..g })
    } else {
        match file_loaded(
            t,
            stack,
            g,
            joined_path(base, imports[k].path.value@),
            imports[k].path.span,
            id,
        ) {
            (Outcome::Loaded(i), after) => imports_loaded(
                t,
                stack,
                after,
                imports,
                k + 1,
                base,
                id,
                LoadedView {
                    beams: own.beams + all_under_alias(
                        imports[k].alias.value@,
                        after.loaded[i].beams,
                    ),
                    ..own
                },
            ),
            other => other,
        }
    }
}

/// `after` begins with `before`.
pub open spec fn grows<T>(before: Seq<T>, after: Seq<T>) -> bool {
    &&& before.len() <= after.len()
    &&& forall|i: int| 0 <= i < before.len() ==> #[trigger] after[i] == before[i]
}

/// Loading a file keeps all that was loaded before, wherever it ends.
pub(crate) proof fn file_loaded_grows(
    t: Inputs,
    stack: Seq<(Seq<char>, Seq<char>)>,
    g: Gathered,
    path: Seq<char>,
    span: Span,
    from: SourceId,
)
    ensures
        grows(g.sources, file_loaded(t, stack, g, path, span, from).1.sources),
        grows(g.loaded, file_loaded(t, stack, g, path, span, from).1.loaded),
    decreases t.entries.len() - stack.len(), 0int,
{
    if let Some(k) = entry_place(t.entries, path) {
        if let (Ok(canonical), Ok(file), Ok(dir)) = (
            t.entries[k].canonical,
            t.entries[k].read,
            beam_dir_of(path, t.cwd, span),
        ) {
            if stack_place(stack, canonical@) is None && loaded_place(g.loaded, canonical@) is None
                && stack.len() < t.entries.len() {
                let next = Gathered { sources: g.sources.push((path, file.text@)), ..g };
                let id = SourceId(g.sources.len() as usize);
                file_read_grows(t, stack.push((canonical@, path)), next, path, dir, file, id);
                let r = file_read(t, stack.push((canonical@, path)), next, path, dir, file, id);
                assert(file_loaded(t, stack, g, path, span, from) == r);
                assert forall|i: int| 0 <= i < g.sources.len() implies #[trigger] r.1.sources[i]
                    == g.sources[i] by {
                    assert(next.sources[i] == g.sources[i]);
                }
            }
        }
    }
}

proof fn file_read_grows(
    t: Inputs,
    stack: Seq<(Seq<char>, Seq<char>)>,
    g: Gathered,
    path: Seq<char>,
    dir: Seq<char>,
    file: ReadFile,
    id: SourceId,
)
    ensures
        grows(g.sources, file_read(t, stack, g, path, dir, file, id).1.sources),
        grows(g.loaded, file_read(t, stack, g, path, dir, file, id).1.loaded),
    decreases t.entries.len() - stack.len(), import_count(file) + 2,
{
    if let Ok(parsed) = file.parsed {
        if let Ok(own) = project_of(parsed, dir, t.git, t.env, id) {
            let all = LoadedView {
                canonical: stack.last().0,
                beams: own.beams,
                default: own.default,
                hooks: own.hooks,
            };
            imports_loaded_grow(t, stack, g, parsed.imports@, 0, import_base_of(path), id, all);
        }
    }
}

pub(crate) proof fn imports_loaded_grow(
    t: Inputs,
    stack: Seq<(Seq<char>, Seq<char>)>,
    g: Gathered,
    imports: Seq<Import>,
    k: int,
    base: Seq<char>,
    id: SourceId,
    own: LoadedView,
)
    ensures
        grows(g.sources, imports_loaded(t, stack, g, imports, k, base, id, own).1.sources),
        grows(g.loaded, imports_loaded(t, stack, g, imports, k, base, id, own).1.loaded),
    decreases t.entries.len() - stack.len(), imports.len() - k + 1,
{
    if 0 <= k < imports.len() {
        let path = joined_path(base, imports[k].path.value@);
        file_loaded_grows(t, stack, g, path, imports[k].path.span, id);
        let (outcome, after) = file_loaded(t, stack, g, path, imports[k].path.span, id);
        if let Outcome::Loaded(i) = outcome {
            let more = LoadedView {
                beams: own.beams + all_under_alias(
                    imports[k].alias.value@,
                    after.loaded[i].beams,
                ),
                ..own
            };
            imports_loaded_grow(t, stack, after, imports, k + 1, base, id, more);
            let r = imports_loaded(t, stack, after, imports, k + 1, base, id, more);
            assert(imports_loaded(t, stack, g, imports, k, base, id, own) == r);
            assert forall|j: int| 0 <= j < g.sources.len() implies #[trigger] r.1.sources[j]
                == g.sources[j] by {
                assert(after.sources[j] == g.sources[j]);
            }
            assert forall|j: int| 0 <= j < g.loaded.len() implies #[trigger] r.1.loaded[j]
                == g.loaded[j] by {
                assert(after.loaded[j] == g.loaded[j]);
            }
        }
    }
}

/// What a root file that was loaded to the end comes to.
pub open spec fn loaded_project(file: LoadedView) -> ProjectView {
    ProjectView { beams: file.beams, default: file.default, hooks: file.hooks }
}

/// Loads the root file and all that it imports; the graph of all beams has
/// to be valid. The default and the hooks are the root file's own.
pub open spec fn project_loaded(t: Inputs, root: Seq<char>) -> LoadView {
    let start = Gathered { sources: Seq::empty(), loaded: Seq::empty() };
    match file_loaded(t, Seq::empty(), start, root, Span { start: 0, end: 0 }, SourceId(0)) {
        (Outcome::Loaded(i), g) => {
            let p = loaded_project(g.loaded[i]);
            match graph_verdict(p) {
                Ok(_) => LoadView::Done(p, g.sources),
                Err(x) => LoadView::Failed(x, g.sources),
            }
        },
        (Outcome::Failed(x), g) => LoadView::Failed(x, g.sources),
        (Outcome::Read(path), _) => LoadView::Read(path),
        (Outcome::AskGit, _) => LoadView::AskGit,
    }
}

fn find_entry(entries: &Vec<FileEntry>, path: &str) -> (r: Option<usize>)
    ensures
        match r {
            Some(i) => i < entries@.len() && entry_place(entries@, path@) == Some(i as int),
            None => entry_place(entries@, path@) is None,
        },
{
    let mut i: usize = entries.len();
    assert(entries@.take(i as int) == entries@);
    while i > 0
        invariant
            i <= entries@.len(),
            entry_place(entries@, path@) == entry_place(entries@.take(i as int), path@),
        decreases i,
    {
        assert(entries@.take(i as int).drop_last() == entries@.take(i - 1));
        i -= 1;
        if same_text(entries[i].path.as_str(), path) {
            return Some(i);
        }
    }
    None
}

/// The error for a file that cannot be read.
pub fn unreadable(path: &str, error: &str, span: Span) -> (r: CoreError)
    ensures
        r@ == unreadable_file(path@, error@, span),
{
    let mut message = text3("cannot read Beamfile `", path, "`: ");
    message.append(error);
    CoreError::new(message, span)
}

/// The directory of the file at `path`, absolute; `cwd` is the current
/// directory, or why there is none.
pub fn beam_dir_for(path: &str, cwd: &Result<String, String>, span: Span) -> (r: Result<
    String,
    CoreError,
>)
    ensures
        result_view(r, |s: String| s@) == beam_dir_of(path@, cwd_view(*cwd), span),
{
    if path.is_empty() {
        return Err(
            CoreError::new(
                {
                    let mut message = text3(
                        "cannot resolve an absolute path for `",
                        path,
                        "`: ",
                    );
                    message.append("cannot make an empty path absolute");
                    message
                },
                span,
            ),
        );
    }
    let dir = match cwd {
        Ok(dir) => dir.as_str(),
        Err(error) => {
            if !path_is_absolute(path) {
                let mut message = text3("cannot resolve an absolute path for `", path, "`: ");
                message.append(error.as_str());
                return Err(CoreError::new(message, span));
            }
            proof {
                reveal_strlit("");
                assert(""@ =~= Seq::<char>::empty());
            }
            ""
        },
    };
    match parent(absolute(path, dir).as_str()) {
        Some(dir) => Ok(dir),
        None => Ok(".".to_owned()),
    }
}

pub open spec fn cwd_view(cwd: Result<String, String>) -> Result<Seq<char>, Seq<char>> {
    match cwd {
        Ok(dir) => Ok(dir@),
        Err(error) => Err(error@),
    }
}

fn import_base(path: &str) -> (r: String)
    ensures
        r@ == import_base_of(path@),
{
    match parent(path) {
        Some(dir) => dir,
        None => ".".to_owned(),
    }
}

proof fn duplicate_alias_early(imports: Seq<Import>, n: int)
    requires
        0 <= n <= imports.len(),
        duplicate_alias(imports.take(n)) is Some,
    ensures
        duplicate_alias(imports) == duplicate_alias(imports.take(n)),
    decreases imports.len() - n,
{
    if n == imports.len() {
        assert(imports.take(n) == imports);
    } else {
        assert(imports.take(n + 1).drop_last() == imports.take(n));
        duplicate_alias_early(imports, n + 1);
    }
}

/// Refuses two imports of one file that share an alias.
pub fn check_duplicate_aliases(file: &File) -> (r: Result<(), CoreError>)
    ensures
        match r {
            Ok(()) => duplicate_alias(file.imports@) is None,
            Err(error) => duplicate_alias(file.imports@) matches Some(k) && 0 <= k
                < file.imports@.len() && error@ == duplicate_alias_error(file.imports@[k]),
        },
{
    let ghost all = file.imports@;
    let mut i: usize = 0;
    while i < file.imports.len()
        invariant
            all == file.imports@,
            i <= all.len(),
            duplicate_alias(all.take(i as int)) is None,
        decreases file.imports.len() - i,
    {
        proof {
            assert(all.take(i + 1).drop_last() == all.take(i as int));
        }
        let alias = &file.imports[i].alias;
        let mut j: usize = 0;
        while j < i
            invariant
                all == file.imports@,
                j <= i < all.len(),
                *alias == all[i as int].alias,
                duplicate_alias(all.take(i as int)) is None,
                all.take(i + 1).drop_last() == all.take(i as int),
                forall|k: int| 0 <= k < j ==> (#[trigger] all[k]).alias.value@ != alias.value@,
            decreases i - j,
        {
            if same_text(file.imports[j].alias.value.as_str(), alias.value.as_str()) {
                proof {
                    let part = all.take(i + 1);
                    assert(part[j as int].alias.value@ == part.last().alias.value@);
                    assert(duplicate_alias(part) == Some(i as int));
                    duplicate_alias_early(all, i + 1);
                }
                return Err(
                    CoreError::new(
                        text3("duplicate import alias `", alias.value.as_str(), "`"),
                        alias.span,
                    ),
                );
            }
            j += 1;
        }
        proof {
            let part = all.take(i + 1);
            assert forall|k: int| 0 <= k < part.len() - 1 implies (#[trigger] part[k]).alias.value@
                != part.last().alias.value@ by {
                assert(part[k] == all[k]);
            }
        }
        i += 1;
    }
    assert(all.take(all.len() as int) == all);
    Ok(())
}

/// `beam` as it is seen through `alias`.
pub fn namespaced(alias: &str, beam: &Beam) -> (r: Beam)
    ensures
        r@ == under_alias(alias@, beam@),
{
    let mut copy = beam.clone();
    copy.id = BeamId(text3(alias, ":", beam.id.0.as_str()));
    let mut needs: Vec<Spanned<BeamId>> = Vec::new();
    let mut i: usize = 0;
    while i < beam.needs.len()
        invariant
            i <= beam.needs@.len(),
            needs@.len() == i,
            forall|k: int|
                0 <= k < i ==> (#[trigger] needs@[k]).value@ == alias@ + ":"@ + beam.needs@[k].value@
                    && needs@[k].span == beam.needs@[k].span,
        decreases beam.needs.len() - i,
    {
        let need = &beam.needs[i];
        needs.push(Spanned::new(BeamId(text3(alias, ":", need.value.0.as_str())), need.span));
        i += 1;
    }
    copy.needs = needs;
    proof {
        assert(need_views(copy.needs@) =~= under_alias(alias@, beam@).needs);
    }
    copy
}

/// A file loaded to the end, with what it imports.
pub struct LoadedFile {
    pub canonical: String,
    pub beams: Vec<Beam>,
    pub default: Option<Spanned<BeamId>>,
    pub hooks: Vec<Hook>,
}

impl View for LoadedFile {
    type V = LoadedView;

    open spec fn view(&self) -> LoadedView {
        LoadedView {
            canonical: self.canonical@,
            beams: beam_views(self.beams@),
            default: default_view(self.default),
            hooks: hook_views(self.hooks@),
        }
    }
}

/// The files being loaded and those loaded.
pub struct Loader {
    pub sources: SourceMap,
    /// The canonical path and the path as written of each file on the way
    /// from the root to the one being loaded.
    pub stack: Vec<(String, String)>,
    /// Each file loaded to the end, once.
    pub loaded: Vec<LoadedFile>,
}

impl Loader {
    pub open spec fn gathered(&self) -> Gathered {
        Gathered {
            sources: self.sources@,
            loaded: Seq::new(self.loaded@.len(), |i: int| self.loaded@[i]@),
        }
    }
}

/// What came of loading a file.
pub enum FileOutcome {
    Loaded(usize),
    Failed(CoreError),
    Read(String),
    AskGit,
}

impl View for FileOutcome {
    type V = Outcome;

    open spec fn view(&self) -> Outcome {
        match self {
            FileOutcome::Loaded(i) => Outcome::Loaded(*i as int),
            FileOutcome::Failed(e) => Outcome::Failed(e@),
            FileOutcome::Read(path) => Outcome::Read(path@),
            FileOutcome::AskGit => Outcome::AskGit,
        }
    }
}

/// The files on the stack are different and all of them were read.
pub open spec fn stack_is_sound(entries: Seq<FileEntry>, stack: Seq<(Seq<char>, Seq<char>)>) -> bool {
    &&& forall|i: int, j: int|
        0 <= i < j < stack.len() ==> (#[trigger] stack[i]).0 != (#[trigger] stack[j]).0
    &&& forall|i: int| 0 <= i < stack.len() ==> has_canonical(entries, (#[trigger] stack[i]).0)
}

pub open spec fn has_canonical(entries: Seq<FileEntry>, canonical: Seq<char>) -> bool {
    exists|k: int| canonical_at(entries, canonical, k)
}

pub open spec fn canonical_at(entries: Seq<FileEntry>, canonical: Seq<char>, k: int) -> bool {
    0 <= k < entries.len() && entries[k].canonical is Ok && entries[k].canonical->Ok_0@ == canonical
}

proof fn stack_place_is_first(stack: Seq<(Seq<char>, Seq<char>)>, canonical: Seq<char>)
    ensures
        match stack_place(stack, canonical) {
            Some(i) => 0 <= i < stack.len() && stack[i].0 == canonical,
            None => forall|j: int| 0 <= j < stack.len() ==> (#[trigger] stack[j]).0 != canonical,
        },
    decreases stack.len(),
{
    if stack.len() > 0 {
        stack_place_is_first(stack.drop_last(), canonical);
        assert forall|j: int| 0 <= j < stack.len() implies (j == stack.len() - 1 || #[trigger] stack[j]
            == stack.drop_last()[j]) by {}
    }
}

proof fn stack_place_early(stack: Seq<(Seq<char>, Seq<char>)>, canonical: Seq<char>, n: int)
    requires
        0 <= n <= stack.len(),
        stack_place(stack.take(n), canonical) is Some,
    ensures
        stack_place(stack, canonical) == stack_place(stack.take(n), canonical),
    decreases stack.len() - n,
{
    if n == stack.len() {
        assert(stack.take(n) == stack);
    } else {
        assert(stack.take(n + 1).drop_last() == stack.take(n));
        stack_place_early(stack, canonical, n + 1);
    }
}

/// A stack of different files that were all read, and one more, is no longer
/// than the list of files read.
proof fn stack_is_short(entries: Seq<FileEntry>, stack: Seq<(Seq<char>, Seq<char>)>, k: int)
    requires
        stack_is_sound(entries, stack),
        0 <= k < entries.len(),
        entries[k].canonical is Ok,
        stack_place(stack, entries[k].canonical->Ok_0@) is None,
    ensures
        stack.len() < entries.len(),
{
    let new = entries[k].canonical->Ok_0@;
    stack_place_is_first(stack, new);
    let places = Seq::new(
        stack.len() + 1,
        |i: int|
            if i < stack.len() {
                choose|k: int| canonical_at(entries, stack[i].0, k)
            } else {
                k
            },
    );
    assert forall|i: int| 0 <= i < stack.len() implies canonical_at(
        entries,
        stack[i].0,
        #[trigger] places[i],
    ) by {
        assert(has_canonical(entries, stack[i].0));
    }
    assert(places.no_duplicates()) by {
        assert forall|a: int, b: int| 0 <= a < places.len() && 0 <= b < places.len() && a != b implies places[a]
            != places[b] by {
            if a < stack.len() && b < stack.len() {
                assert(canonical_at(entries, stack[a].0, places[a]));
                assert(canonical_at(entries, stack[b].0, places[b]));
                if a < b {
                    assert(stack[a].0 != stack[b].0);
                } else {
                    assert(stack[b].0 != stack[a].0);
                }
            } else if a < stack.len() {
                assert(canonical_at(entries, stack[a].0, places[a]));
                assert(stack[a].0 != new);
            } else {
                assert(canonical_at(entries, stack[b].0, places[b]));
                assert(stack[b].0 != new);
            }
        }
    }
    places.unique_seq_to_set();
    let range = vstd::set_lib::set_int_range(0, entries.len() as int);
    vstd::set_lib::lemma_int_range(0, entries.len() as int);
    assert(places.to_set().subset_of(range)) by {
        assert forall|x: int| places.to_set().contains(x) implies range.contains(x) by {
            let i = choose|i: int| 0 <= i < places.len() && places[i] == x;
            if i < stack.len() {
                assert(canonical_at(entries, stack[i].0, places[i]));
            }
        }
    }
    vstd::set_lib::lemma_len_subset(places.to_set(), range);
}

fn find_on_stack(stack: &Vec<(String, String)>, canonical: &str) -> (r: Option<usize>)
    ensures
        match r {
            Some(i) => i < stack@.len() && stack_place(pair_views(stack@), canonical@) == Some(
                i as int,
            ),
            None => stack_place(pair_views(stack@), canonical@) is None,
        },
{
    let ghost all = pair_views(stack@);
    let mut i: usize = 0;
    while i < stack.len()
        invariant
            all == pair_views(stack@),
            i <= stack@.len(),
            stack_place(all.take(i as int), canonical@) is None,
        decreases stack.len() - i,
    {
        assert(all.take(i + 1).drop_last() == all.take(i as int));
        if same_text(stack[i].0.as_str(), canonical) {
            proof {
                stack_place_early(all, canonical@, i + 1);
            }
            return Some(i);
        }
        i += 1;
    }
    assert(all.take(all.len() as int) == all);
    None
}

fn find_loaded(loader: &Loader, canonical: &str) -> (r: Option<usize>)
    ensures
        match r {
            Some(i) => i < loader.loaded@.len() && loaded_place(
                loader.gathered().loaded,
                canonical@,
            ) == Some(i as int),
            None => loaded_place(loader.gathered().loaded, canonical@) is None,
        },
{
    let ghost all = loader.gathered().loaded;
    let mut i: usize = loader.loaded.len();
    assert(all.take(i as int) == all);
    while i > 0
        invariant
            all == loader.gathered().loaded,
            i <= loader.loaded@.len(),
            loaded_place(all, canonical@) == loaded_place(all.take(i as int), canonical@),
        decreases i,
    {
        assert(all.take(i as int).drop_last() == all.take(i - 1));
        i -= 1;
        assert(all[i as int] == loader.loaded@[i as int]@);
        if same_text(loader.loaded[i].canonical.as_str(), canonical) {
            return Some(i);
        }
    }
    None
}

fn import_cycle_error(stack: &Vec<(String, String)>, start: usize, path: &str, span: Span) -> (r:
    CoreError)
    requires
        start <= stack@.len(),
    ensures
        r@ == import_cycle(pair_views(stack@), start as int, path@, span),
{
    let ghost all = pair_views(stack@);
    let ghost shown = Seq::new((all.len() - start) as nat, |j: int| all[start + j].1);
    let mut chain: Vec<String> = Vec::new();
    let mut i: usize = start;
    while i < stack.len()
        invariant
            all == pair_views(stack@),
            start <= i <= stack@.len(),
            chain@.len() == i - start,
            forall|k: int| 0 <= k < chain@.len() ==> (#[trigger] chain@[k])@ == all[start + k].1,
        decreases stack.len() - i,
    {
        chain.push(stack[i].1.clone());
        i += 1;
    }
    chain.push(path.to_owned());
    assert(views(chain@) =~= shown.push(path@));
    CoreError::new(text2("import cycle: ", join(&chain, " -> ").as_str()), span)
}

/// What loading reads besides the files.
pub struct Surroundings<'a> {
    pub entries: &'a Vec<FileEntry>,
    pub cwd: &'a Result<String, String>,
    pub git: &'a Option<Result<GitHead, GitError>>,
    pub env: &'a Environment,
}

impl<'a> Surroundings<'a> {
    pub open spec fn inputs(&self) -> Inputs {
        Inputs {
            entries: self.entries@,
            cwd: cwd_view(*self.cwd),
            git: git_view(*self.git),
            env: *self.env,
        }
    }
}

/// Loads the file at `path`, which `span` in file `from` names, and what it
/// imports. A file on the stack is an import cycle, one that was loaded before
/// comes back as it was, and the stack is left as it was found.
pub fn load_file(
    t: &Surroundings,
    loader: &mut Loader,
    path: &str,
    span: Span,
    from: SourceId,
) -> (r: FileOutcome)
    requires
        stack_is_sound(t.entries@, pair_views(old(loader).stack@)),
    ensures
        (r@, final(loader).gathered()) == file_loaded(
            t.inputs(),
            pair_views(old(loader).stack@),
            old(loader).gathered(),
            path@,
            span,
            from,
        ),
        final(loader).stack@ == old(loader).stack@,
        grows(old(loader).sources@, final(loader).sources@),
        grows(old(loader).gathered().loaded, final(loader).gathered().loaded),
        r matches FileOutcome::Loaded(i) ==> i < final(loader).loaded@.len(),
    decreases t.entries@.len() - old(loader).stack@.len(), 0int,
{
    proof {
        file_loaded_grows(
            t.inputs(),
            pair_views(loader.stack@),
            loader.gathered(),
            path@,
            span,
            from,
        );
    }
    let k: usize = match find_entry(t.entries, path) {
        None => {
            return FileOutcome::Read(path.to_owned());
        },
        Some(k) => k,
    };
    let entry = &t.entries[k];
    let canonical = match &entry.canonical {
        Err(text) => {
            return FileOutcome::Failed(
                unreadable(path, text.as_str(), span).with_source_id(from),
            );
        },
        Ok(canonical) => canonical,
    };
    match find_on_stack(&loader.stack, canonical.as_str()) {
        Some(start) => {
            return FileOutcome::Failed(
                import_cycle_error(&loader.stack, start, path, span).with_source_id(from),
            );
        },
        None => {},
    }
    match find_loaded(loader, canonical.as_str()) {
        Some(i) => {
            return FileOutcome::Loaded(i);
        },
        None => {},
    }
    let file = match &entry.read {
        Err(text) => {
            return FileOutcome::Failed(
                unreadable(path, text.as_str(), span).with_source_id(from),
            );
        },
        Ok(file) => file,
    };
    let dir = match beam_dir_for(path, t.cwd, span) {
        Ok(dir) => dir,
        Err(error) => {
            return FileOutcome::Failed(error.with_source_id(from));
        },
    };
    let ghost before = pair_views(loader.stack@);
    let ghost stack_before = loader.stack@;
    proof {
        stack_is_short(t.entries@, before, k as int);
        stack_place_is_first(before, canonical@);
    }
    let id = loader.sources.push(path.to_owned(), file.text.clone());
    loader.stack.push((canonical.clone(), path.to_owned()));
    proof {
        let after = pair_views(loader.stack@);
        assert(after =~= before.push((canonical@, path@)));
        assert(canonical_at(t.entries@, canonical@, k as int));
        assert(stack_is_sound(t.entries@, after));
    }
    let r = load_file_body(t, loader, path, dir.as_str(), file, id);
    loader.stack.pop();
    assert(loader.stack@ =~= stack_before);
    r
}

fn load_file_body(
    t: &Surroundings,
    loader: &mut Loader,
    path: &str,
    dir: &str,
    file: &ReadFile,
    id: SourceId,
) -> (r: FileOutcome)
    requires
        stack_is_sound(t.entries@, pair_views(old(loader).stack@)),
        old(loader).stack@.len() > 0,
    ensures
        (r@, final(loader).gathered()) == file_read(
            t.inputs(),
            pair_views(old(loader).stack@),
            old(loader).gathered(),
            path@,
            dir@,
            *file,
            id,
        ),
        final(loader).stack@ == old(loader).stack@,
        r matches FileOutcome::Loaded(i) ==> i < final(loader).loaded@.len(),
    decreases t.entries@.len() - old(loader).stack@.len(), import_count(*file) + 2,
{
    let parsed = match &file.parsed {
        Err(e) => {
            let error = CoreError {
                message: e.message.clone(),
                span: Some(e.span),
                help: copy_option(&e.help),
                source_id: id,
            };
            assert(error@ == parse_failure(*e).with_source_id(id));
            return FileOutcome::Failed(error);
        },
        Ok(parsed) => parsed,
    };
    match check_duplicate_aliases(parsed) {
        Ok(()) => {},
        Err(error) => {
            return FileOutcome::Failed(error.with_source_id(id));
        },
    }
    if t.git.is_none() && mentions_git(parsed) {
        return FileOutcome::AskGit;
    }
    let local = match build_project(parsed, dir, copy_git(t.git), t.env, id) {
        Ok(project) => project,
        Err(error) => {
            return FileOutcome::Failed(error);
        },
    };
    let ghost stack = pair_views(loader.stack@);
    let base = import_base(path);
    let Project { beams, default, hooks } = local;
    let mut beams = beams;
    let canonical = loader.stack[loader.stack.len() - 1].0.clone();
    let ghost start = loader.gathered();
    let ghost stack_before = loader.stack@;
    let ghost imports = parsed.imports@;
    let ghost own = LoadedView {
        canonical: canonical@,
        beams: beam_views(beams@),
        default: default_view(default),
        hooks: hook_views(hooks@),
    };
    assert(stack.last().0 == canonical@);
    let ghost whole = imports_loaded(t.inputs(), stack, start, imports, 0, base@, id, own);
    let mut i: usize = 0;
    while i < parsed.imports.len()
        invariant
            imports == parsed.imports@,
            *file matches ReadFile { parsed: Ok(p), .. } && p == *parsed,
            i <= imports.len(),
            stack_before.len() > 0,
            loader.stack@ == stack_before,
            stack == pair_views(stack_before),
            stack_before == old(loader).stack@,
            stack_is_sound(t.entries@, stack),
            whole == file_read(
                t.inputs(),
                pair_views(old(loader).stack@),
                old(loader).gathered(),
                path@,
                dir@,
                *file,
                id,
            ),
            whole == imports_loaded(
                t.inputs(),
                stack,
                loader.gathered(),
                imports,
                i as int,
                base@,
                id,
                LoadedView {
                    canonical: canonical@,
                    beams: beam_views(beams@),
                    default: default_view(default),
                    hooks: hook_views(hooks@),
                },
            ),
        decreases parsed.imports.len() - i,
    {
        let import = &parsed.imports[i];
        let import_path = join_path(base.as_str(), import.path.value.as_str());
        match load_file(t, loader, import_path.as_str(), import.path.span, id) {
            FileOutcome::Loaded(place) => {
                let ghost mine = beam_views(beams@);
                let ghost theirs = loader.gathered().loaded[place as int].beams;
                let alias = import.alias.value.as_str();
                let mut j: usize = 0;
                assert(mine + all_under_alias(alias@, theirs.take(0)) =~= beam_views(beams@));
                while j < loader.loaded[place].beams.len()
                    invariant
                        place < loader.loaded@.len(),
                        j <= loader.loaded@[place as int].beams@.len(),
                        theirs == beam_views(loader.loaded@[place as int].beams@),
                        beam_views(beams@) == mine + all_under_alias(alias@, theirs.take(j as int)),
                    decreases loader.loaded@[place as int].beams@.len() - j,
                {
                    let ghost before = beam_views(beams@);
                    let beam = namespaced(alias, &loader.loaded[place].beams[j]);
                    beams.push(beam);
                    proof {
                        assert(beam_views(beams@) =~= before.push(beam@));
                        assert(all_under_alias(alias@, theirs.take(j + 1)) =~= all_under_alias(
                            alias@,
                            theirs.take(j as int),
                        ).push(under_alias(alias@, theirs[j as int])));
                        assert(mine + all_under_alias(alias@, theirs.take(j + 1)) =~= beam_views(
                            beams@,
                        ));
                    }
                    j += 1;
                }
                assert(theirs.take(theirs.len() as int) == theirs);
            },
            other => {
                return other;
            },
        }
        i += 1;
    }
    let ghost before = loader.gathered();
    let place: usize = loader.loaded.len();
    loader.loaded.push(LoadedFile { canonical, beams, default, hooks });
    proof {
        assert(loader.gathered().loaded =~= before.loaded.push(
            loader.loaded@[place as int]@,
        ));
    }
    FileOutcome::Loaded(place)
}

/// Loads the Beamfile at `root` and everything it imports, from the files in
/// `table`: the project, why there is none, or what has to be read or asked
/// first. `git` is what git answered about `HEAD`, once it was asked.
pub fn load_project(
    root: &str,
    table: &FileTable,
    cwd: &Result<String, String>,
    git: &Option<Result<GitHead, GitError>>,
    env: &Environment,
) -> (r: LoadStep)
    ensures
        r@ == project_loaded(
            (Inputs {
                entries: table.entries@,
                cwd: cwd_view(*cwd),
                git: git_view(*git),
                env: *env,
            }),
            root@,
        ),
{
    let t = Surroundings { entries: &table.entries, cwd, git, env };
    let mut loader = Loader { sources: SourceMap::new(), stack: Vec::new(), loaded: Vec::new() };
    proof {
        assert(pair_views(loader.stack@) =~= Seq::<(Seq<char>, Seq<char>)>::empty());
        assert(loader.gathered().loaded =~= Seq::<LoadedView>::empty());
    }
    let outcome = load_file(&t, &mut loader, root, Span::new(0, 0), SourceId(0));
    let ghost g = loader.gathered();
    match outcome {
        FileOutcome::Loaded(i) => {
            assert(g.loaded[i as int] == loader.loaded@[i as int]@);
            let LoadedFile { canonical: _, beams, default, hooks } = loader.loaded.remove(i);
            let project = Project { beams, default, hooks };
            match validate_graph(&project) {
                Ok(()) => LoadStep::Done(project, loader.sources),
                Err(error) => LoadStep::Failed(LoadError { error, sources: loader.sources }),
            }
        },
        FileOutcome::Failed(error) => LoadStep::Failed(
            LoadError { error, sources: loader.sources },
        ),
        FileOutcome::Read(path) => LoadStep::Read(path),
        FileOutcome::AskGit => LoadStep::AskGit,
    }
}

} // verus!
