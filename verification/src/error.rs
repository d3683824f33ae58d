//! [`CoreError`]: what is wrong with a Beamfile, and where.

use vstd::prelude::*;
use crate::model::SourceId;
use crate::syntax::Span;
use crate::text::opt_view;

verus! {

/// The id of the root Beamfile, and of a file loaded on its own.
pub const ROOT_SOURCE_ID: usize = 0;

/// An error in a Beamfile. `span` is absent where the mistake is not in any
/// source text (a target typed on a command line).
#[derive(Debug, PartialEq)]
pub struct CoreError {
    pub message: String,
    pub span: Option<Span>,
    pub help: Option<String>,
    pub source_id: SourceId,
}

/// What a [`CoreError`] says.
pub struct ErrorView {
    pub message: Seq<char>,
    pub span: Option<Span>,
    pub help: Option<Seq<char>>,
    pub source_id: SourceId,
}

impl View for CoreError {
    type V = ErrorView;

    open spec fn view(&self) -> ErrorView {
        ErrorView {
            message: self.message@,
            span: self.span,
            help: opt_view(self.help),
            source_id: self.source_id,
        }
    }
}

/// The error `message` at `span`, without help, in the root file.
pub open spec fn error_at(message: Seq<char>, span: Span) -> ErrorView {
    ErrorView {
        message,
        span: Some(span),
        help: None,
        source_id: SourceId(ROOT_SOURCE_ID),
    }
}

impl ErrorView {
    pub open spec fn with_help(self, help: Seq<char>) -> ErrorView {
        ErrorView { help: Some(help), ..self }
    }

    pub open spec fn with_source_id(self, source_id: SourceId) -> ErrorView {
        ErrorView { source_id, ..self }
    }
}

impl CoreError {
    /// An error at `span`, without help. It points at the root file until
    /// [`CoreError::with_source_id`] says otherwise.
    pub fn new(message: String, span: Span) -> (r: CoreError)
        ensures
            r@ == error_at(message@, span),
    {
        CoreError {
            message,
            span: Some(span),
            help: None,
            source_id: SourceId(ROOT_SOURCE_ID),
        }
    }

    /// An error that no source text holds.
    pub fn unlocated(message: String) -> (r: CoreError)
        ensures
            r@ == (ErrorView {
                message: message@,
                span: None,
                help: None,
                source_id: SourceId(ROOT_SOURCE_ID),
            }),
    {
        CoreError { message, span: None, help: None, source_id: SourceId(ROOT_SOURCE_ID) }
    }

    /// The same error with help text.
    pub fn with_help(self, help: String) -> (r: CoreError)
        ensures
            r@ == self@.with_help(help@),
    {
        CoreError {
            message: self.message,
            span: self.span,
            help: Some(help),
            source_id: self.source_id,
        }
    }

    /// The same error, in the file `source_id`.
    pub fn with_source_id(self, source_id: SourceId) -> (r: CoreError)
        ensures
            r@ == self@.with_source_id(source_id),
    {
        CoreError { message: self.message, span: self.span, help: self.help, source_id }
    }
}

/// The view of a result that fails with a [`CoreError`], `ok` being the view
/// of what it succeeds with.
pub open spec fn result_view<T, U>(r: Result<T, CoreError>, ok: spec_fn(T) -> U) -> Result<
    U,
    ErrorView,
> {
    match r {
        Ok(v) => Ok(ok(v)),
        Err(e) => Err(e@),
    }
}

} // verus!
