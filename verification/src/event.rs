//! What a run tells the outside world: the events it emits while it happens
//! and the summary it ends with.

use vstd::prelude::*;
use crate::model::BeamId;

verus! {

/// Which stream a line of output came on.
#[derive(Debug, Clone, Copy, PartialEq, Eq, Structural)]
pub enum Stream {
    Stdout,
    Stderr,
}

/// One line of a command's output.
#[derive(Debug, PartialEq, Eq)]
pub struct OutputLine {
    pub stream: Stream,
    pub text: String,
}

impl Clone for OutputLine {
    fn clone(&self) -> (r: OutputLine)
        ensures
            r == *self,
    {
        OutputLine { stream: self.stream, text: self.text.clone() }
    }
}

/// How a beam ended.
///
/// An allowed failure counts as satisfied for what depends on it, stops
/// nothing and leaves the exit code alone. A beam is cancelled where
/// something it needs failed or was cancelled, or where the run was stopped
/// before it started.
#[derive(Debug, Clone, Copy, PartialEq, Eq, Structural)]
pub enum BeamStatus {
    Succeeded,
    /// Nothing it depends on changed since it last succeeded.
    Cached,
    Failed { exit_code: i32 },
    FailedAllowed { exit_code: i32 },
    Cancelled,
}

impl BeamStatus {
    /// Whether what depends on the beam can run.
    pub open spec fn satisfies(self) -> bool {
        self is Succeeded || self is Cached || self is FailedAllowed
    }

    /// Whether what depends on the beam can run.
    pub fn is_satisfied(&self) -> (r: bool)
        ensures
            r == self.satisfies(),
    {
        match self {
            BeamStatus::Succeeded | BeamStatus::Cached | BeamStatus::FailedAllowed { .. } => true,
            BeamStatus::Failed { .. } | BeamStatus::Cancelled => false,
        }
    }
}

/// How a run's beams ended, each list in the project's order.
#[derive(Debug, PartialEq, Eq)]
pub struct RunSummary {
    pub succeeded: Vec<BeamId>,
    pub cached: Vec<BeamId>,
    pub failed: Vec<BeamId>,
    pub failed_allowed: Vec<BeamId>,
    pub cancelled: Vec<BeamId>,
    /// How long the run took, in milliseconds.
    pub duration_ms: u64,
}

impl RunSummary {
    /// A summary without beams.
    pub fn new() -> (r: RunSummary)
        ensures
            r.succeeded@ == Seq::<BeamId>::empty(),
            r.cached@ == Seq::<BeamId>::empty(),
            r.failed@ == Seq::<BeamId>::empty(),
            r.failed_allowed@ == Seq::<BeamId>::empty(),
            r.cancelled@ == Seq::<BeamId>::empty(),
            r.duration_ms == 0,
    {
        RunSummary {
            succeeded: Vec::new(),
            cached: Vec::new(),
            failed: Vec::new(),
            failed_allowed: Vec::new(),
            cancelled: Vec::new(),
            duration_ms: 0,
        }
    }

    /// The exit code of a run: 1 where a beam failed outright, else 0.
    pub fn exit_code(&self) -> (r: i32)
        ensures
            r == if self.failed@.len() == 0 {
                0i32
            } else {
                1i32
            },
    {
        if self.failed.len() == 0 {
            0
        } else {
            1
        }
    }

    /// The beams that ended with a status like `status`.
    pub open spec fn bucket(self, status: BeamStatus) -> Seq<BeamId> {
        match status {
            BeamStatus::Succeeded => self.succeeded@,
            BeamStatus::Cached => self.cached@,
            BeamStatus::Failed { .. } => self.failed@,
            BeamStatus::FailedAllowed { .. } => self.failed_allowed@,
            BeamStatus::Cancelled => self.cancelled@,
        }
    }

    /// Whether two statuses belong to one list.
    pub open spec fn same_bucket(a: BeamStatus, b: BeamStatus) -> bool {
        match a {
            BeamStatus::Succeeded => b is Succeeded,
            BeamStatus::Cached => b is Cached,
            BeamStatus::Failed { .. } => b is Failed,
            BeamStatus::FailedAllowed { .. } => b is FailedAllowed,
            BeamStatus::Cancelled => b is Cancelled,
        }
    }

    /// Files `id` under `status`.
    pub fn record(&mut self, id: BeamId, status: &BeamStatus)
        ensures
            forall|s: BeamStatus|
                final(self).bucket(s) == if Self::same_bucket(s, *status) {
                    old(self).bucket(s).push(id)
                } else {
                    old(self).bucket(s)
                },
            final(self).duration_ms == old(self).duration_ms,
    {
        match status {
            BeamStatus::Succeeded => self.succeeded.push(id),
            BeamStatus::Cached => self.cached.push(id),
            BeamStatus::Failed { .. } => self.failed.push(id),
            BeamStatus::FailedAllowed { .. } => self.failed_allowed.push(id),
            BeamStatus::Cancelled => self.cancelled.push(id),
        }
    }
}

/// One thing that happened during a run.
///
/// For each beam `BeamStarted` comes first, then its output, then
/// `BeamFinished`; a beam that did not run has `BeamFinished` alone, and one
/// whose last success still holds has `BeamCached` in place of `BeamStarted`.
/// `RunFinished` comes last.
#[derive(Debug, PartialEq)]
pub enum RunEvent {
    RunStarted {
        target: BeamId,
        beams: Vec<BeamId>,
        edges: Vec<(BeamId, BeamId)>,
    },
    /// A run of what changed since `reference` starts.
    AffectedStarted {
        reference: String,
        targets: Vec<BeamId>,
        beams: Vec<BeamId>,
        edges: Vec<(BeamId, BeamId)>,
    },
    BeamStarted { id: BeamId },
    BeamCached { id: BeamId },
    BeamOutput { id: BeamId, line: OutputLine, replayed: bool },
    BeamFinished { id: BeamId, status: BeamStatus, duration_ms: u64 },
    RunFinished { summary: RunSummary },
    /// A watch session waits for one of so many files to change.
    WatchWaiting { files: usize },
    WatchTriggered { paths: Vec<String> },
    /// The project no longer loads.
    ProjectBroken { diagnostic: String },
}

} // verus!
