//! The project that a Beamfile describes.

use vstd::prelude::*;
use crate::loader::pair_views;
use crate::scope::{Scope, ScopeView};
use crate::syntax::{Span, Spanned, StringTemplate};
use crate::text::{opt_view, views};

verus! {

/// Which source file a beam or an error belongs to: the root file is `0`,
/// each imported file gets the next number in load order.
#[derive(Debug, Clone, Copy, PartialEq, Eq, Hash, Structural)]
pub struct SourceId(pub usize);

/// A fully namespaced beam name, such as `api:db:migrate`, or `build` for a
/// local beam.
#[derive(Debug, PartialEq, Eq, Hash)]
pub struct BeamId(pub String);

impl View for BeamId {
    type V = Seq<char>;

    open spec fn view(&self) -> Seq<char> {
        self.0@
    }
}

impl Clone for BeamId {
    fn clone(&self) -> (r: BeamId)
        ensures
            r == *self,
    {
        BeamId(self.0.clone())
    }
}

/// The value of an expression.
#[derive(Debug, PartialEq)]
pub enum Value {
    Str(String),
    Bool(bool),
}

pub enum ValueView {
    Str(Seq<char>),
    Bool(bool),
}

impl View for Value {
    type V = ValueView;

    open spec fn view(&self) -> ValueView {
        match self {
            Value::Str(s) => ValueView::Str(s@),
            Value::Bool(b) => ValueView::Bool(*b),
        }
    }
}

impl Clone for Value {
    fn clone(&self) -> (r: Value)
        ensures
            r == *self,
    {
        match self {
            Value::Str(s) => Value::Str(s.clone()),
            Value::Bool(b) => Value::Bool(*b),
        }
    }
}

impl ValueView {
    /// The type's name in error messages.
    pub open spec fn kind_name(self) -> Seq<char> {
        match self {
            ValueView::Str(_) => "a string"@,
            ValueView::Bool(_) => "a boolean"@,
        }
    }

    /// The text of the value inside a template.
    pub open spec fn display(self) -> Seq<char> {
        match self {
            ValueView::Str(s) => s,
            ValueView::Bool(true) => "true"@,
            ValueView::Bool(false) => "false"@,
        }
    }
}

impl Value {
    /// The type's name in error messages.
    pub fn kind_name(&self) -> (r: &'static str)
        ensures
            r@ == self@.kind_name(),
    {
        match self {
            Value::Str(_) => "a string",
            Value::Bool(_) => "a boolean",
        }
    }

    /// The text of the value inside a template: strings verbatim, booleans
    /// as `true` or `false`.
    pub fn as_display(&self) -> (r: &str)
        ensures
            r@ == self@.display(),
    {
        match self {
            Value::Str(s) => s.as_str(),
            Value::Bool(true) => "true",
            Value::Bool(false) => "false",
        }
    }
}

/// The value of an executor option.
#[derive(Debug, PartialEq)]
pub enum OptionValue {
    Str(String),
    Bool(bool),
    List(Vec<String>),
}

pub enum OptionView {
    Str(Seq<char>),
    Bool(bool),
    List(Seq<Seq<char>>),
}

impl View for OptionValue {
    type V = OptionView;

    open spec fn view(&self) -> OptionView {
        match self {
            OptionValue::Str(s) => OptionView::Str(s@),
            OptionValue::Bool(b) => OptionView::Bool(*b),
            OptionValue::List(l) => OptionView::List(views(l@)),
        }
    }
}

/// How a beam's commands run.
#[derive(Debug, PartialEq)]
pub enum ExecutorKind {
    /// The embedded shell, the default.
    Shell,
    /// The system's own shell.
    SystemShell,
    Docker { image: String, volumes: Vec<String>, workdir: Option<String> },
    /// An `alba-executor-<name>` program, with its options.
    Plugin { name: String, options: Vec<(String, OptionValue)> },
}

pub enum ExecutorView {
    Shell,
    SystemShell,
    Docker { image: Seq<char>, volumes: Seq<Seq<char>>, workdir: Option<Seq<char>> },
    Plugin { name: Seq<char>, options: Seq<(Seq<char>, OptionView)> },
}

pub open spec fn option_views(o: Seq<(String, OptionValue)>) -> Seq<(Seq<char>, OptionView)> {
    Seq::new(o.len(), |i: int| (o[i].0@, o[i].1@))
}

impl View for ExecutorKind {
    type V = ExecutorView;

    open spec fn view(&self) -> ExecutorView {
        match self {
            ExecutorKind::Shell => ExecutorView::Shell,
            ExecutorKind::SystemShell => ExecutorView::SystemShell,
            ExecutorKind::Docker { image, volumes, workdir } => ExecutorView::Docker {
                image: image@,
                volumes: views(volumes@),
                workdir: opt_view(*workdir),
            },
            ExecutorKind::Plugin { name, options } => ExecutorView::Plugin {
                name: name@,
                options: option_views(options@),
            },
        }
    }
}

/// A copy of a list of strings.
pub fn copy_strings(v: &Vec<String>) -> (r: Vec<String>)
    ensures
        r@ == v@,
{
    let mut out: Vec<String> = Vec::new();
    let mut i: usize = 0;
    while i < v.len()
        invariant
            i <= v.len(),
            out@ == v@.take(i as int),
        decreases v.len() - i,
    {
        out.push(v[i].clone());
        assert(v@.take(i as int).push(v@[i as int]) == v@.take(i + 1));
        i += 1;
    }
    assert(v@.take(v@.len() as int) == v@);
    out
}

/// A copy of a list of pairs.
pub fn copy_pairs(pairs: &Vec<(String, String)>) -> (r: Vec<(String, String)>)
    ensures
        r@ == pairs@,
        pair_views(r@) == pair_views(pairs@),
{
    let mut out: Vec<(String, String)> = Vec::new();
    let mut i: usize = 0;
    while i < pairs.len()
        invariant
            i <= pairs@.len(),
            out@.len() == i,
            forall|k: int| 0 <= k < i ==> (#[trigger] out@[k]) == pairs@[k],
        decreases pairs.len() - i,
    {
        let (a, b) = &pairs[i];
        out.push((a.clone(), b.clone()));
        i += 1;
    }
    assert(out@ =~= pairs@);
    out
}

/// A copy of an optional string.
pub fn copy_option(o: &Option<String>) -> (r: Option<String>)
    ensures
        r == *o,
{
    match o {
        Some(s) => Some(s.clone()),
        None => None,
    }
}

impl Clone for OptionValue {
    fn clone(&self) -> (r: OptionValue)
        ensures
            r@ == self@,
    {
        match self {
            OptionValue::Str(s) => OptionValue::Str(s.clone()),
            OptionValue::Bool(b) => OptionValue::Bool(*b),
            OptionValue::List(l) => OptionValue::List(copy_strings(l)),
        }
    }
}

/// A copy of an executor's options.
pub fn copy_options(options: &Vec<(String, OptionValue)>) -> (r: Vec<(String, OptionValue)>)
    ensures
        option_views(r@) == option_views(options@),
{
    let mut out: Vec<(String, OptionValue)> = Vec::new();
    let mut i: usize = 0;
    while i < options.len()
        invariant
            i <= options.len(),
            out@.len() == i,
            forall|k: int|
                0 <= k < i ==> (#[trigger] out@[k]).0@ == options@[k].0@ && out@[k].1@
                    == options@[k].1@,
        decreases options.len() - i,
    {
        let (key, value) = &options[i];
        out.push((key.clone(), value.clone()));
        i += 1;
    }
    assert(option_views(out@) =~= option_views(options@));
    out
}

impl Clone for ExecutorKind {
    fn clone(&self) -> (r: ExecutorKind)
        ensures
            r@ == self@,
    {
        match self {
            ExecutorKind::Shell => ExecutorKind::Shell,
            ExecutorKind::SystemShell => ExecutorKind::SystemShell,
            ExecutorKind::Docker { image, volumes, workdir } => ExecutorKind::Docker {
                image: image.clone(),
                volumes: copy_strings(volumes),
                workdir: copy_option(workdir),
            },
            ExecutorKind::Plugin { name, options } => ExecutorKind::Plugin {
                name: name.clone(),
                options: copy_options(options),
            },
        }
    }
}

/// A beam: the unit of work that a `beam { .. }` declaration describes.
///
/// `description`, `inputs`, `outputs`, `cwd` and the executor's options were
/// rendered while loading. `run` and `env` are rendered when the beam runs,
/// from `scope` with the beam's parameters bound.
#[derive(Debug, PartialEq)]
pub struct Beam {
    pub id: BeamId,
    pub description: Option<String>,
    pub needs: Vec<Spanned<BeamId>>,
    pub params: Vec<String>,
    pub inputs: Vec<String>,
    pub outputs: Vec<String>,
    pub run: Vec<StringTemplate>,
    pub env: Vec<(String, StringTemplate)>,
    pub cwd: Option<String>,
    pub executor: ExecutorKind,
    pub allow_failure: bool,
    /// The directory of the defining Beamfile.
    pub dir: String,
    pub span: Span,
    pub source: SourceId,
    /// The defining file's `let`s.
    pub scope: Scope,
}

pub struct BeamView {
    pub id: Seq<char>,
    pub description: Option<Seq<char>>,
    pub needs: Seq<(Seq<char>, Span)>,
    pub params: Seq<Seq<char>>,
    pub inputs: Seq<Seq<char>>,
    pub outputs: Seq<Seq<char>>,
    pub run: Seq<StringTemplate>,
    pub env: Seq<(Seq<char>, StringTemplate)>,
    pub cwd: Option<Seq<char>>,
    pub executor: ExecutorView,
    pub allow_failure: bool,
    pub dir: Seq<char>,
    pub span: Span,
    pub source: SourceId,
    pub scope: ScopeView,
}

pub open spec fn need_views(needs: Seq<Spanned<BeamId>>) -> Seq<(Seq<char>, Span)> {
    Seq::new(needs.len(), |i: int| (needs[i].value@, needs[i].span))
}

pub open spec fn env_views(env: Seq<(String, StringTemplate)>) -> Seq<(Seq<char>, StringTemplate)> {
    Seq::new(env.len(), |i: int| (env[i].0@, env[i].1))
}

impl View for Beam {
    type V = BeamView;

    open spec fn view(&self) -> BeamView {
        BeamView {
            id: self.id@,
            description: opt_view(self.description),
            needs: need_views(self.needs@),
            params: views(self.params@),
            inputs: views(self.inputs@),
            outputs: views(self.outputs@),
            run: self.run@,
            env: env_views(self.env@),
            cwd: opt_view(self.cwd),
            executor: self.executor@,
            allow_failure: self.allow_failure,
            dir: self.dir@,
            span: self.span,
            source: self.source,
            scope: self.scope@,
        }
    }
}

fn copy_needs(needs: &Vec<Spanned<BeamId>>) -> (r: Vec<Spanned<BeamId>>)
    ensures
        need_views(r@) == need_views(needs@),
{
    let mut out: Vec<Spanned<BeamId>> = Vec::new();
    let mut i: usize = 0;
    while i < needs.len()
        invariant
            i <= needs.len(),
            out@ == needs@.take(i as int),
        decreases needs.len() - i,
    {
        let need = Spanned { value: needs[i].value.clone(), span: needs[i].span };
        out.push(need);
        assert(needs@.take(i as int).push(needs@[i as int]) == needs@.take(i + 1));
        i += 1;
    }
    assert(needs@.take(needs@.len() as int) == needs@);
    out
}

/// A copy of a list of templates.
pub fn copy_templates(templates: &Vec<StringTemplate>) -> (r: Vec<StringTemplate>)
    ensures
        r@ == templates@,
{
    let mut out: Vec<StringTemplate> = Vec::new();
    let mut i: usize = 0;
    while i < templates.len()
        invariant
            i <= templates.len(),
            out@ == templates@.take(i as int),
        decreases templates.len() - i,
    {
        out.push(templates[i].clone());
        assert(templates@.take(i as int).push(templates@[i as int]) == templates@.take(i + 1));
        i += 1;
    }
    assert(templates@.take(templates@.len() as int) == templates@);
    out
}

fn copy_env(env: &Vec<(String, StringTemplate)>) -> (r: Vec<(String, StringTemplate)>)
    ensures
        r@ == env@,
{
    let mut out: Vec<(String, StringTemplate)> = Vec::new();
    let mut i: usize = 0;
    while i < env.len()
        invariant
            i <= env.len(),
            out@ == env@.take(i as int),
        decreases env.len() - i,
    {
        let (key, value) = &env[i];
        out.push((key.clone(), value.clone()));
        assert(env@.take(i as int).push(env@[i as int]) == env@.take(i + 1));
        i += 1;
    }
    assert(env@.take(env@.len() as int) == env@);
    out
}

impl Clone for Beam {
    fn clone(&self) -> (r: Beam)
        ensures
            r@ == self@,
    {
        Beam {
            id: self.id.clone(),
            description: copy_option(&self.description),
            needs: copy_needs(&self.needs),
            params: copy_strings(&self.params),
            inputs: copy_strings(&self.inputs),
            outputs: copy_strings(&self.outputs),
            run: copy_templates(&self.run),
            env: copy_env(&self.env),
            cwd: copy_option(&self.cwd),
            executor: self.executor.clone(),
            allow_failure: self.allow_failure,
            dir: self.dir.clone(),
            span: self.span,
            source: self.source,
            scope: self.scope.clone(),
        }
    }
}

/// A git hook and the beam that it runs.
#[derive(Debug, PartialEq)]
pub struct Hook {
    pub name: Spanned<String>,
    pub beam: Spanned<BeamId>,
}

pub struct HookView {
    pub name: (Seq<char>, Span),
    pub beam: (Seq<char>, Span),
}

impl View for Hook {
    type V = HookView;

    open spec fn view(&self) -> HookView {
        HookView {
            name: (self.name.value@, self.name.span),
            beam: (self.beam.value@, self.beam.span),
        }
    }
}

pub open spec fn hook_views(hooks: Seq<Hook>) -> Seq<HookView> {
    Seq::new(hooks.len(), |i: int| hooks[i]@)
}

/// Every beam of a Beamfile and of what it imports, the beam that runs by
/// default, and the hooks that the Beamfile declares.
#[derive(Debug, PartialEq)]
pub struct Project {
    pub beams: Vec<Beam>,
    pub default: Option<Spanned<BeamId>>,
    pub hooks: Vec<Hook>,
}

pub struct ProjectView {
    pub beams: Seq<BeamView>,
    pub default: Option<(Seq<char>, Span)>,
    pub hooks: Seq<HookView>,
}

pub open spec fn beam_views(beams: Seq<Beam>) -> Seq<BeamView> {
    Seq::new(beams.len(), |i: int| beams[i]@)
}

pub open spec fn default_view(default: Option<Spanned<BeamId>>) -> Option<(Seq<char>, Span)> {
    match default {
        Some(d) => Some((d.value@, d.span)),
        None => None,
    }
}

impl View for Project {
    type V = ProjectView;

    open spec fn view(&self) -> ProjectView {
        ProjectView {
            beams: beam_views(self.beams@),
            default: default_view(self.default),
            hooks: hook_views(self.hooks@),
        }
    }
}

} // verus!
