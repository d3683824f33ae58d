//! The logic of Alba, a task runner: Beamfile evaluation, dependency graphs,
//! caching, change detection, scheduling decisions and rendering.
//!
//! Paths are `/`-separated text throughout.

pub mod affected;
pub mod affected_laws;
pub mod args;
pub mod beam_task;
pub mod beam_task_laws;
pub mod cache;
pub mod cache_laws;
pub mod check;
pub mod check_fields_laws;
pub mod check_laws;
pub mod commands;
pub mod commands_laws;
pub mod error;
pub mod errors_laws;
pub mod eval;
pub mod eval_laws;
pub mod event;
pub mod example_plugin;
pub mod exit;
pub mod files;
pub mod files_laws;
pub mod fingerprint;
pub mod git;
pub mod git_laws;
pub mod git_reads;
pub mod git_reads_laws;
pub mod globs;
pub mod graph;
pub mod graph_laws;
pub mod hooks;
pub mod host_laws;
pub mod json;
pub mod json_laws;
pub mod json_told_laws;
pub mod life_laws;
pub mod loader;
pub mod loader_beams_laws;
pub mod loader_files_laws;
pub mod loader_laws;
pub mod loader_names_laws;
pub mod loader_success_laws;
pub mod lookup_laws;
pub mod model;
pub mod numbers;
pub mod order_laws;
pub mod outcome_laws;
pub mod paths;
pub mod paths_laws;
pub mod plan;
pub mod plan_laws;
pub mod plugin_check;
pub mod plugin_laws;
pub mod project;
pub mod project_laws;
pub mod project_root;
pub mod render;
pub mod render_laws;
pub mod renderers;
pub mod renderers_blocks_laws;
pub mod renderers_laws;
pub mod run_command;
pub mod run_command_laws;
pub mod schedule;
pub mod schedule_laws;
pub mod schedule_plan_laws;
pub mod scope;
pub mod show_laws;
pub mod sort;
pub mod store;
pub mod store_files_laws;
pub mod store_laws;
pub mod suggest;
pub mod suggest_laws;
pub mod summary_laws;
pub mod syntax;
pub mod text;
pub mod text_laws;
pub mod watch_laws;
pub mod watch_set;
