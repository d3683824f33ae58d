//! What the command line asks for.

use vstd::prelude::*;

verus! {

/// A parsed command line.
#[derive(Debug, PartialEq, Eq)]
pub struct Cli {
    /// The Beamfile to load, or the one in the current directory.
    pub file: Option<String>,
    /// What to do, or what the Beamfile declares as its default.
    pub command: Option<Command>,
}

/// What to do.
#[derive(Debug, PartialEq, Eq)]
pub enum Command {
    /// Load and check the Beamfile without running anything.
    Check,
    /// Run a beam and everything it needs.
    Run {
        beam: Option<String>,
        params: Vec<String>,
        /// Run only what changed since this.
        affected: Option<String>,
        flags: RunFlags,
    },
    /// List what changed since a reference, without running anything.
    Affected { reference: String, log_format: LogFormat },
    /// Run what the Beamfile declares for a git hook.
    Hook { name: String, args: Vec<String> },
    /// Manage the repository's hooks.
    Hooks(HooksCommand),
    /// Manage the project's cache.
    Cache(CacheCommand),
    /// Work on plugins.
    Plugin(PluginCommand),
}

/// What to do with the repository's hooks.
#[derive(Debug, Clone, Copy, PartialEq, Eq, Structural)]
pub enum HooksCommand {
    /// Have git run what Beamfiles declare.
    Install,
    /// Have it no longer do so.
    Uninstall,
}

/// What to do with the cache.
#[derive(Debug, Clone, Copy, PartialEq, Eq, Structural)]
pub enum CacheCommand {
    /// Remove every entry of this project.
    Clean,
}

/// What to do with a plugin.
#[derive(Debug, PartialEq, Eq)]
pub enum PluginCommand {
    /// Drive a plugin through the protocol and say whether it conforms.
    Check { binary: String, command: String, cancel_command: String },
}

/// How the text renderers lay a run out.
#[derive(Debug, Clone, Copy, PartialEq, Eq, Structural)]
pub enum OutputStyle {
    /// Every line as it happens, with the beam it came from before it.
    Interleaved,
    /// Each beam's output as one block when it ends.
    Grouped,
}

/// What stdout carries during a run.
#[derive(Debug, Clone, Copy, PartialEq, Eq, Structural)]
pub enum LogFormat {
    /// Text, laid out by an [`OutputStyle`].
    Text,
    /// One JSON object per event and line.
    Json,
}

/// What shapes a run, apart from what the Beamfile declares.
#[derive(Debug, Clone, Copy, PartialEq, Eq, Structural)]
pub struct RunFlags {
    /// How many beams may run at once, or as many as the machine can.
    pub jobs: Option<u64>,
    /// Go on after a beam fails.
    pub keep_going: bool,
    /// Do not read the cache.
    pub force: bool,
    /// How text is laid out, or what suits the output.
    pub output: Option<OutputStyle>,
    pub log_format: LogFormat,
    /// Run again whenever a file that matters changes.
    pub watch: bool,
    /// Force the interactive interface on.
    pub ui: bool,
    /// Force it off.
    pub no_ui: bool,
}

impl Default for RunFlags {
    fn default() -> (r: RunFlags)
        ensures
            r == (RunFlags {
                jobs: None,
                keep_going: false,
                force: false,
                output: None,
                log_format: LogFormat::Text,
                watch: false,
                ui: false,
                no_ui: false,
            }),
    {
        RunFlags {
            jobs: None,
            keep_going: false,
            force: false,
            output: None,
            log_format: LogFormat::Text,
            watch: false,
            ui: false,
            no_ui: false,
        }
    }
}

} // verus!
