//! The syntax tree of a Beamfile, as a parser hands it over.

use std::sync::Arc;
use vstd::prelude::*;

verus! {

/// A range of byte offsets in a source text.
#[derive(Debug, Clone, Copy, PartialEq, Eq, Structural)]
pub struct Span {
    pub start: usize,
    pub end: usize,
}

impl Span {
    pub fn new(start: usize, end: usize) -> (r: Span)
        ensures
            r.start == start,
            r.end == end,
    {
        Span { start, end }
    }
}

/// A value with the place it was written at.
#[derive(Debug, PartialEq)]
pub struct Spanned<T> {
    pub value: T,
    pub span: Span,
}

impl<T> Spanned<T> {
    pub fn new(value: T, span: Span) -> (r: Spanned<T>)
        ensures
            r.value == value,
            r.span == span,
    {
        Spanned { value, span }
    }
}

#[derive(Debug, Clone, Copy, PartialEq, Eq, Structural)]
pub enum BinOp {
    /// `+`
    Concat,
    /// `==`
    Eq,
    /// `!=`
    NotEq,
    /// `&&`
    And,
    /// `||`
    Or,
}

#[derive(Debug, PartialEq)]
pub enum Expr {
    /// A string literal, with its interpolated parts.
    Str(StringTemplate),
    Bool(bool),
    Var(Spanned<String>),
    /// `name(args, ..)`
    Call { name: Spanned<String>, args: Vec<Expr> },
    Binary { op: BinOp, lhs: Box<Expr>, rhs: Box<Expr> },
    /// `if cond then consequence else otherwise`
    If { cond: Box<Expr>, consequence: Box<Expr>, otherwise: Box<Expr> },
    /// `object.field`
    Field { object: Spanned<String>, field: Spanned<String> },
}

#[derive(Debug, PartialEq)]
pub enum TemplatePart {
    Literal(String),
    /// `{expr}`
    Expr(Expr),
}

/// A string with `{expr}` interpolations. Its parts are shared by its clones.
#[derive(Debug, PartialEq)]
pub struct StringTemplate {
    pub parts: Arc<Vec<TemplatePart>>,
    pub span: Span,
}

/// `Arc::clone`: another pointer to the same value.
#[verifier::external_body]
fn share(parts: &Arc<Vec<TemplatePart>>) -> (r: Arc<Vec<TemplatePart>>)
    ensures
        r == *parts,
{
    Arc::clone(parts)
}

impl StringTemplate {
    pub fn new(parts: Vec<TemplatePart>, span: Span) -> (r: StringTemplate)
        ensures
            r.parts == parts,
            r.span == span,
    {
        StringTemplate { parts: Arc::new(parts), span }
    }
}

impl Clone for StringTemplate {
    fn clone(&self) -> (r: StringTemplate)
        ensures
            r == *self,
    {
        StringTemplate { parts: share(&self.parts), span: self.span }
    }
}

/// A reference to a beam, `namespace:..:name`.
#[derive(Debug, PartialEq)]
pub struct BeamRef {
    pub namespace: Vec<String>,
    pub name: String,
}

#[derive(Debug, PartialEq)]
pub enum ExecutorOptionValue {
    Str(StringTemplate),
    Bool(bool),
    List(Vec<StringTemplate>),
}

/// `executor name { key value .. }`
#[derive(Debug, PartialEq)]
pub struct ExecutorDecl {
    pub name: Spanned<String>,
    pub options: Vec<(Spanned<String>, ExecutorOptionValue)>,
}

/// `beam name(params) { .. }`
#[derive(Debug, PartialEq)]
pub struct BeamDecl {
    pub name: Spanned<String>,
    pub params: Vec<Spanned<String>>,
    pub description: Option<StringTemplate>,
    pub needs: Vec<Spanned<BeamRef>>,
    pub inputs: Vec<StringTemplate>,
    pub outputs: Vec<StringTemplate>,
    pub run: Vec<StringTemplate>,
    pub env: Vec<(Spanned<String>, StringTemplate)>,
    pub cwd: Option<StringTemplate>,
    pub executor: Option<ExecutorDecl>,
    pub allow_failure: bool,
    pub span: Span,
}

/// `hook name { beam target }`
#[derive(Debug, PartialEq)]
pub struct HookDecl {
    pub name: Spanned<String>,
    pub beam: Spanned<BeamRef>,
}

/// `let name = value`
#[derive(Debug, PartialEq)]
pub struct LetBinding {
    pub name: Spanned<String>,
    pub value: Expr,
}

/// `import "path" as alias`
#[derive(Debug, PartialEq)]
pub struct Import {
    pub path: Spanned<String>,
    pub alias: Spanned<String>,
}

/// A parsed Beamfile.
#[derive(Debug, PartialEq)]
pub struct File {
    pub imports: Vec<Import>,
    pub lets: Vec<LetBinding>,
    pub beams: Vec<BeamDecl>,
    pub default: Option<Spanned<String>>,
    pub hooks: Vec<HookDecl>,
}

/// Why a source text is no Beamfile.
#[derive(Debug, PartialEq)]
pub struct ParseError {
    pub message: String,
    pub span: Span,
    pub help: Option<String>,
}

} // verus!
