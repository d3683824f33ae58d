//! The exit codes that are not earned by a run's beams.

use vstd::prelude::*;

verus! {

/// Something failed before or instead of a beam's commands: a missing or
/// wrong Beamfile, a bad invocation, a run that cannot be scheduled.
pub const EXIT_ALBA_ERROR: i32 = 2;

/// A run was abandoned at the user's request.
pub const EXIT_INTERRUPTED: i32 = 130;

/// What is left to say on stderr, and the code to exit with.
#[derive(Debug, PartialEq, Eq)]
pub struct Ending {
    pub lines: Vec<String>,
    pub code: i32,
}

pub struct EndingView {
    pub lines: Seq<Seq<char>>,
    pub code: i32,
}

impl View for Ending {
    type V = EndingView;

    open spec fn view(&self) -> EndingView {
        EndingView { lines: crate::text::views(self.lines@), code: self.code }
    }
}

/// An ending with nothing to say.
pub fn silent(code: i32) -> (r: Ending)
    ensures
        r@ == (EndingView { lines: Seq::empty(), code }),
{
    let lines: Vec<String> = Vec::new();
    assert(crate::text::views(lines@) =~= Seq::<Seq<char>>::empty());
    Ending { lines, code }
}

/// An ending with one line to say.
pub fn with_line(line: String, code: i32) -> (r: Ending)
    ensures
        r@ == (EndingView { lines: seq![line@], code }),
{
    let mut lines: Vec<String> = Vec::new();
    lines.push(line);
    assert(crate::text::views(lines@) =~= seq![line@]);
    Ending { lines, code }
}

} // verus!
