//! `alba hooks`: whether the repository's hooks may be taken over or given
//! back.

use vstd::prelude::*;
use vstd::string::*;
use crate::exit::{silent, with_line, Ending, EndingView, EXIT_ALBA_ERROR};
use crate::git::GitError;
use crate::text::{same_text, text3};

verus! {

/// Where the repository's hooks are once they are installed.
pub fn hooks_dir() -> (r: String)
    ensures
        r@ == ".alba/hooks"@,
{
    ".alba/hooks".to_owned()
}

/// Whether git runs the project's hooks, going by the repository's hooks path.
pub open spec fn hooks_installed(path: Result<Option<String>, GitError>) -> bool {
    path matches Ok(Some(dir)) && dir@ == ".alba/hooks"@
}

/// Whether git runs the project's hooks, going by the repository's hooks path.
pub fn are_installed(path: &Result<Option<String>, GitError>) -> (r: bool)
    ensures
        r == hooks_installed(*path),
{
    match path {
        Ok(Some(dir)) => same_text(dir.as_str(), ".alba/hooks"),
        _ => false,
    }
}

/// What to do about the repository's hooks.
pub enum HooksStep {
    /// Go ahead.
    Go,
    /// There is nothing left to do.
    End(Ending),
}

pub enum HooksView {
    Go,
    End(EndingView),
}

impl View for HooksStep {
    type V = HooksView;

    open spec fn view(&self) -> HooksView {
        match self {
            HooksStep::Go => HooksView::Go,
            HooksStep::End(ending) => HooksView::End(ending@),
        }
    }
}

/// A refusal, with one line.
pub open spec fn refused(line: Seq<char>) -> HooksView {
    HooksView::End(EndingView { lines: seq![line], code: EXIT_ALBA_ERROR })
}

/// Whether to install: not where the repository's hooks are someone else's.
pub open spec fn install_view(path: Result<Option<String>, GitError>) -> HooksView {
    match path {
        Err(error) => refused(error@),
        Ok(Some(dir)) => if dir@ == ".alba/hooks"@ {
            HooksView::Go
        } else {
            refused("core.hooksPath already points to `"@ + dir@ + "`"@)
        },
        Ok(None) => HooksView::Go,
    }
}

/// Whether to install, from the repository's hooks path.
pub fn install(path: &Result<Option<String>, GitError>) -> (r: HooksStep)
    ensures
        r@ == install_view(*path),
{
    match path {
        Err(error) => HooksStep::End(with_line(error.0.clone(), EXIT_ALBA_ERROR)),
        Ok(Some(dir)) => if same_text(dir.as_str(), ".alba/hooks") {
            HooksStep::Go
        } else {
            HooksStep::End(
                with_line(
                    text3("core.hooksPath already points to `", dir.as_str(), "`"),
                    EXIT_ALBA_ERROR,
                ),
            )
        },
        Ok(None) => HooksStep::Go,
    }
}

/// Whether to uninstall: not where the repository's hooks are someone else's;
/// where it has none of its own there is nothing to do.
pub open spec fn uninstall_view(path: Result<Option<String>, GitError>) -> HooksView {
    match path {
        Err(error) => refused(error@),
        Ok(Some(dir)) => if dir@ == ".alba/hooks"@ {
            HooksView::Go
        } else {
            refused("core.hooksPath points to `"@ + dir@ + "`"@)
        },
        Ok(None) => HooksView::End(EndingView { lines: Seq::empty(), code: 0 }),
    }
}

/// Whether to uninstall, from the repository's hooks path.
pub fn uninstall(path: &Result<Option<String>, GitError>) -> (r: HooksStep)
    ensures
        r@ == uninstall_view(*path),
{
    match path {
        Err(error) => HooksStep::End(with_line(error.0.clone(), EXIT_ALBA_ERROR)),
        Ok(Some(dir)) => if same_text(dir.as_str(), ".alba/hooks") {
            HooksStep::Go
        } else {
            HooksStep::End(
                with_line(
                    text3("core.hooksPath points to `", dir.as_str(), "`"),
                    EXIT_ALBA_ERROR,
                ),
            )
        },
        Ok(None) => HooksStep::End(silent(0)),
    }
}

/// The script that git runs for a hook.
pub fn hook_script(name: &str) -> (r: String)
    ensures
        r@ == "#!/bin/sh\nexec alba hook "@ + name@ + " \"$@\"\n"@,
{
    text3("#!/bin/sh\nexec alba hook ", name, " \"$@\"\n")
}

} // verus!
