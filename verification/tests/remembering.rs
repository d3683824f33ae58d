//! What is read from git and the disk, and what is remembered of a beam.

use alba::cache::{cacheable, Assessment, CacheableBeam};
use alba::event::{OutputLine, Stream};
use alba::files::{expand_globs, is_walked, output_query, outputs_satisfied, OutputQuery, Walked};
use alba::fingerprint::{
    fingerprint, hash_bytes, hash_file, static_contribution, BeamFacts,
};
use alba::git::{
    all_known_hooks, canonical_root, changed_commands, changed_files, git, head, head_commands,
    hooks_path, hooks_path_args, known_hook, lines, repository_root, repository_root_args,
    set_hooks_path, set_hooks_path_args, unset_hooks_path, unset_hooks_path_args, ChangedStep,
    GitError, GitReply, HeadStep,
};
use alba::globs::build_globset;
use alba::model::BeamId;
use alba::paths::{
    absolute, components_of, file_name, is_same_path, join_path, parent, strip_prefix,
};
use alba::store::{
    accept_manifest, log_lines, log_text, manifest_text, restore_line, restore_logs, stored_line,
    temporary_path, CacheStore, Manifest, StoredLine, FORMAT_VERSION,
};
use alba::suggest::levenshtein;
use alba::text::{decimal_text, is_space, join, signed_text, trim, trim_end, trim_newlines};
use alba::watch_set::normalize;

fn id(name: &str) -> BeamId {
    BeamId(name.to_string())
}

fn strings(list: &[&str]) -> Vec<String> {
    list.iter().map(|s| s.to_string()).collect()
}

fn pairs(list: &[(&str, &str)]) -> Vec<(String, String)> {
    list.iter().map(|(a, b)| (a.to_string(), b.to_string())).collect()
}

fn said(stdout: &str) -> GitReply {
    GitReply::Ended { code: Some(0), stdout: stdout.to_string(), stderr: String::new() }
}

fn failed(code: i32, stderr: &str) -> GitReply {
    GitReply::Ended { code: Some(code), stdout: String::new(), stderr: stderr.to_string() }
}

fn unstarted(missing: bool) -> GitReply {
    GitReply::Unstarted { missing, error: "denied".to_string() }
}

#[test]
fn the_known_hooks_carry_git_s_argument_counts() {
    assert_eq!(known_hook("pre-commit").unwrap().arity, 0);
    assert_eq!(known_hook("commit-msg").unwrap().arity, 1);
    assert_eq!(known_hook("pre-push").unwrap().arity, 2);
    assert_eq!(known_hook("post-checkout").unwrap().arity, 3);
    assert!(known_hook("pre-comit").is_none());
    assert!(all_known_hooks().len() >= 15);
}

#[test]
fn a_git_command_answers_with_its_output_or_says_why_not() {
    let args = strings(&["rev-parse", "HEAD"]);
    assert_eq!(git(&args, &said("abc\r\n\n")), Ok("abc".to_string()));
    assert_eq!(
        git(&args, &failed(128, "  fatal: bad revision\n")),
        Err(GitError("git rev-parse HEAD failed: fatal: bad revision".to_string()))
    );
    let killed = GitReply::Ended { code: None, stdout: String::new(), stderr: String::new() };
    assert_eq!(git(&args, &killed), Err(GitError("git rev-parse HEAD failed: ".to_string())));
    assert_eq!(git(&args, &unstarted(true)), Err(GitError("git not found on PATH".to_string())));
    assert_eq!(git(&args, &unstarted(false)), Err(GitError("cannot run git: denied".to_string())));
}

/// Runs the commands that `HEAD` takes against scripted answers.
fn read_head(answers: Vec<GitReply>) -> Result<alba::git::GitHead, GitError> {
    let mut replies = Vec::new();
    let mut asked = 0;
    let mut answers = answers.into_iter();
    loop {
        match head(&replies) {
            HeadStep::Ask(args) => {
                assert_eq!(args, head_commands()[asked]);
                asked += 1;
                replies.push(answers.next().unwrap());
            }
            HeadStep::Done(result) => return result,
        }
    }
}

#[test]
fn head_reports_branch_sha_and_a_clean_tree() {
    let sha = "0123456789012345678901234567890123456789";
    let head = read_head(vec![
        said("main\n"),
        said(&format!("{sha}\n")),
        said("0123456\n"),
        said(""),
    ])
    .unwrap();
    assert_eq!(head.branch, "main");
    assert_eq!(head.sha.len(), 40);
    assert!(head.sha.starts_with(&head.short_sha));
    assert!(head.short_sha.len() >= 7 && head.short_sha.len() < 40);
    assert!(!head.dirty);
}

#[test]
fn an_untracked_file_makes_the_tree_dirty() {
    let head = read_head(vec![said("main"), said("a"), said("a"), said("?? new.txt\n")]).unwrap();
    assert!(head.dirty);
}

#[test]
fn a_detached_head_reports_head_as_the_branch() {
    let head = read_head(vec![said("HEAD\n"), said("a"), said("a"), said("")]).unwrap();
    assert_eq!(head.branch, "HEAD");
}

#[test]
fn outside_a_repository_is_a_git_error() {
    let reply = || failed(128, "fatal: not a git repository\n");
    assert!(read_head(vec![reply()]).is_err());
    assert!(repository_root(&reply()).is_err());
}

#[test]
fn repository_root_is_the_top_level_from_a_subdirectory() {
    assert_eq!(repository_root_args(), ["rev-parse", "--show-toplevel"]);
    assert_eq!(repository_root(&said("/r\n")), Ok("/r".to_string()));
    assert_eq!(canonical_root(Ok("/real".to_string())), Ok("/real".to_string()));
    assert_eq!(
        canonical_root(Err("gone".to_string())),
        Err(GitError("cannot canonicalize repository root: gone".to_string()))
    );
}

/// Runs the commands that the changed files take against scripted answers.
fn read_changed(diff: GitReply, untracked: GitReply) -> Result<Vec<String>, GitError> {
    let mut replies = Vec::new();
    let mut answers = vec![diff, untracked].into_iter();
    loop {
        match changed_files("HEAD", &replies) {
            ChangedStep::Ask(args) => {
                assert_eq!(args, changed_commands("HEAD")[replies.len()]);
                replies.push(answers.next().unwrap());
            }
            ChangedStep::Done(result) => return result,
        }
    }
}

#[test]
fn changed_files_unions_the_diff_and_untracked_files() {
    let changed = read_changed(
        said("src/lib.rs\nREADME.md\n"),
        said("src/new.rs\n.gitignore\n"),
    );
    assert_eq!(
        changed.unwrap(),
        [".gitignore", "README.md", "src/lib.rs", "src/new.rs"]
    );
}

#[test]
fn changed_files_are_in_the_order_of_paths_and_each_once() {
    let changed = read_changed(
        said("a-b/x\na/z\r\n\na/b\n"),
        said("a//z\na/b\n"),
    );
    assert_eq!(changed.unwrap(), ["a/b", "a/z", "a-b/x"]);
    assert_eq!(read_changed(said(""), said("")).unwrap(), Vec::<String>::new());
}

#[test]
fn an_unknown_reference_is_a_git_error() {
    let err = read_changed(failed(128, "fatal: bad revision 'no-such-ref'"), said("")).unwrap_err();
    assert!(err.0.contains("no-such-ref"), "{}", err.0);
}

#[test]
fn hooks_path_round_trips_through_the_local_configuration() {
    assert_eq!(hooks_path_args(), ["config", "--local", "--get", "core.hooksPath"]);
    assert_eq!(hooks_path(&failed(1, "")), Ok(None));
    assert_eq!(
        set_hooks_path_args(".alba/hooks"),
        ["config", "--local", "core.hooksPath", ".alba/hooks"]
    );
    assert_eq!(set_hooks_path(".alba/hooks", &said("")), Ok(()));
    assert_eq!(hooks_path(&said(" .alba/hooks\n")), Ok(Some(".alba/hooks".to_string())));
    assert_eq!(unset_hooks_path_args(), ["config", "--local", "--unset", "core.hooksPath"]);
    assert_eq!(unset_hooks_path(&said("")), Ok(()));
    assert_eq!(
        hooks_path(&failed(3, " broken\n")),
        Err(GitError("git config failed: broken".to_string()))
    );
    assert_eq!(
        hooks_path(&unstarted(true)),
        Err(GitError("cannot run git: denied".to_string()))
    );
    assert_eq!(
        set_hooks_path("x", &failed(5, "no")),
        Err(GitError("git config --local core.hooksPath x failed: no".to_string()))
    );
    assert!(unset_hooks_path(&failed(5, "no")).is_err());
}

fn walked(paths: &[&str]) -> Vec<Walked> {
    paths.iter().map(|path| Walked { path: format!("/d/{path}"), is_file: true }).collect()
}

fn relative_paths(paths: &[&str], patterns: &[&str]) -> Vec<String> {
    expand_globs("/d", &strings(patterns), &walked(paths))
        .into_iter()
        .map(|(relative, _)| relative)
        .collect()
}

#[test]
fn matches_files_by_glob_and_returns_them_sorted() {
    assert_eq!(
        relative_paths(
            &["src/b.rs", "src/a.rs", "src/nested/c.rs", "readme.md"],
            &["src/**/*.rs"]
        ),
        vec!["src/a.rs", "src/b.rs", "src/nested/c.rs"]
    );
}

#[test]
fn a_literal_pattern_matches_exactly_one_file() {
    assert_eq!(relative_paths(&["Cargo.toml", "Cargo.lock"], &["Cargo.toml"]), ["Cargo.toml"]);
}

#[test]
fn never_walks_git_or_alba_directories() {
    assert_eq!(
        relative_paths(&[".git/objects/x.rs", ".alba/cache/y.rs", "src/a.rs"], &["**/*.rs"]),
        ["src/a.rs"]
    );
    assert!(!is_walked(".git"));
    assert!(!is_walked(".alba"));
    assert!(is_walked("src"));
    assert!(is_walked(".env"));
}

#[test]
fn hidden_files_are_still_matched() {
    assert_eq!(relative_paths(&[".env"], &[".env"]), [".env"]);
}

#[test]
fn a_pattern_matching_nothing_yields_an_empty_list() {
    assert_eq!(relative_paths(&["a.txt"], &["*.rs"]), Vec::<String>::new());
}

#[test]
fn only_files_below_the_directory_are_inputs() {
    let entries = vec![
        Walked { path: "/d/src".to_string(), is_file: false },
        Walked { path: "/e/src/a.rs".to_string(), is_file: true },
        Walked { path: "/d/src/a.rs".to_string(), is_file: true },
    ];
    assert_eq!(
        expand_globs("/d", &strings(&["**"]), &entries),
        [("src/a.rs".to_string(), "/d/src/a.rs".to_string())]
    );
}

#[test]
fn a_bad_pattern_leaves_the_others_matches() {
    assert_eq!(relative_paths(&["a.rs", "b.txt"], &["a[b", "*.rs"]), ["a.rs"]);
}

#[test]
fn outputs_are_satisfied_by_literal_existence_and_glob_matches() {
    let exists = |path: &str| ["/d/target/release/app", "/d/dist/bundle.js"].contains(&path);
    let satisfied = |patterns: &[&str]| {
        let answers = patterns
            .iter()
            .map(|pattern| match output_query("/d", pattern) {
                OutputQuery::Exists(path) => exists(&path),
                OutputQuery::AnyMatch(path) => path == "/d/dist/*.js",
            })
            .collect::<Vec<bool>>();
        outputs_satisfied(&answers)
    };
    assert!(satisfied(&["target/release/app"]));
    assert!(satisfied(&["dist/*.js"]));
    assert!(satisfied(&[]), "no declared outputs means nothing to check");
    assert!(!satisfied(&["target/release/missing"]));
    assert!(!satisfied(&["dist/*.css"]));
    assert!(!satisfied(&["dist/*.js", "dist/*.css"]));
}

#[test]
fn a_pattern_set_tells_which_of_its_patterns_match() {
    let set = build_globset(&strings(&["src/**/*.rs", "*.md"]));
    assert!(set.is_match("src/a/b.rs"));
    assert!(set.is_match("README.md"));
    assert!(!set.is_match("src/a.txt"));
}

fn facts_fingerprint(
    files: &[(&str, &str)],
    commands: &[&str],
    cwd: &str,
    env: &[(&str, &str)],
    args: &[&str],
    needs: &[&str],
    executor: &str,
) -> String {
    fingerprint(&BeamFacts {
        files: pairs(files),
        commands: strings(commands),
        cwd: cwd.to_string(),
        env: pairs(env),
        args: strings(args),
        needs: strings(needs),
        executor: executor.to_string(),
    })
}

#[test]
fn identical_facts_produce_identical_fingerprints() {
    let print = || {
        facts_fingerprint(
            &[("src/a.rs", "h1")],
            &["build"],
            "/p",
            &[("K", "v")],
            &[],
            &[],
            "embedded",
        )
    };
    assert_eq!(print(), print());
    assert_eq!(print().len(), 64);
}

#[test]
fn every_field_participates_in_the_fingerprint() {
    let base = facts_fingerprint(
        &[("a", "h1")],
        &["cmd"],
        "/p",
        &[("K", "v")],
        &["arg"],
        &["n1"],
        "embedded",
    );
    let variants = [
        facts_fingerprint(&[("a", "h2")], &["cmd"], "/p", &[("K", "v")], &["arg"], &["n1"], "embedded"),
        facts_fingerprint(&[("b", "h1")], &["cmd"], "/p", &[("K", "v")], &["arg"], &["n1"], "embedded"),
        facts_fingerprint(&[("a", "h1")], &["cmd2"], "/p", &[("K", "v")], &["arg"], &["n1"], "embedded"),
        facts_fingerprint(&[("a", "h1")], &["cmd"], "/q", &[("K", "v")], &["arg"], &["n1"], "embedded"),
        facts_fingerprint(&[("a", "h1")], &["cmd"], "/p", &[("K", "w")], &["arg"], &["n1"], "embedded"),
        facts_fingerprint(&[("a", "h1")], &["cmd"], "/p", &[("K", "v")], &["other"], &["n1"], "embedded"),
        facts_fingerprint(&[("a", "h1")], &["cmd"], "/p", &[("K", "v")], &["arg"], &["n2"], "embedded"),
        facts_fingerprint(&[("a", "h1")], &["cmd"], "/p", &[("K", "v")], &["arg"], &["n1"], "system"),
    ];
    for variant in variants {
        assert_ne!(base, variant);
    }
}

#[test]
fn adjacent_items_cannot_collide_by_concatenation() {
    let joined = facts_fingerprint(&[], &["ab"], "/p", &[], &[], &[], "embedded");
    let split = facts_fingerprint(&[], &["a", "b"], "/p", &[], &[], &[], "embedded");
    assert_ne!(joined, split);
}

#[test]
fn the_static_contribution_ignores_files_and_needs() {
    let contribution = static_contribution(
        strings(&["cmd"]),
        "/p".to_string(),
        pairs(&[("K", "v")]),
        Vec::new(),
        "embedded".to_string(),
    );
    assert_eq!(
        contribution,
        facts_fingerprint(&[], &["cmd"], "/p", &[("K", "v")], &[], &[], "embedded")
    );
}

#[test]
fn hash_file_reflects_content_not_metadata() {
    let first = hash_file(Ok(b"v1".to_vec())).unwrap();
    let second = hash_file(Ok(b"v2".to_vec())).unwrap();
    let third = hash_file(Ok(b"v1".to_vec())).unwrap();
    assert_ne!(first, second);
    assert_eq!(first, third);
    assert_eq!(
        hash_bytes(b""),
        "af1349b9f5f9a1a6a0404dea36dcc9499bcb25c9adc112b7cc9a93cae41f3262"
    );
}

#[test]
fn hash_file_reports_a_missing_file_as_an_error() {
    assert!(hash_file(Err("No such file or directory".to_string())).is_err());
}

fn manifest(fingerprint: &str) -> Manifest {
    Manifest {
        version: FORMAT_VERSION,
        fingerprint: fingerprint.to_string(),
        outputs: vec!["out.txt".to_string()],
        duration_ms: 1234,
    }
}

fn line(stream: Stream, text: &str) -> OutputLine {
    OutputLine { stream, text: text.to_string() }
}

fn text_of(value: &serde_json::Value) -> String {
    value.as_str().unwrap().to_string()
}

/// What a manifest file reads as.
fn read_manifest(text: &str) -> Option<Manifest> {
    let value: serde_json::Value = serde_json::from_str(text).ok()?;
    Some(Manifest {
        version: value["version"].as_u64()? as u32,
        fingerprint: text_of(&value["fingerprint"]),
        outputs: value["outputs"].as_array()?.iter().map(text_of).collect(),
        duration_ms: value["duration_ms"].as_u64()?,
    })
}

/// A cache, its files by path.
struct Disk {
    store: CacheStore,
    files: Vec<(String, String)>,
}

impl Disk {
    fn new() -> Disk {
        Disk { store: CacheStore::new("/d/cache".to_string()), files: Vec::new() }
    }

    fn write(&mut self, path: String, text: String) {
        self.files.retain(|(known, _)| *known != path);
        self.files.push((path, text));
    }

    fn read(&self, path: &str) -> Option<String> {
        self.files.iter().find(|(known, _)| known == path).map(|(_, text)| text.clone())
    }

    fn store(&mut self, id: &BeamId, manifest: &Manifest, logs: &Vec<OutputLine>) {
        self.write(self.store.entry(id, "log"), log_text(logs));
        self.write(self.store.entry(id, "json"), manifest_text(manifest));
    }

    fn load(&self, id: &BeamId) -> Option<Manifest> {
        accept_manifest(read_manifest(&self.read(&self.store.entry(id, "json"))?))
    }

    fn load_logs(&self, id: &BeamId) -> Vec<OutputLine> {
        restore_logs(
            log_lines(&self.read(&self.store.entry(id, "log")))
                .iter()
                .map(|stored| {
                    let value: serde_json::Value = serde_json::from_str(stored).ok()?;
                    Some(StoredLine {
                        stream: text_of(&value["stream"]),
                        text: text_of(&value["text"]),
                    })
                })
                .collect(),
        )
    }
}

#[test]
fn a_stored_manifest_loads_back_identically() {
    let mut disk = Disk::new();
    let id = id("build");
    disk.store(&id, &manifest("fp1"), &Vec::new());
    assert_eq!(disk.load(&id), Some(manifest("fp1")));
    let many = Manifest { outputs: strings(&["a\"b", "c\n"]), ..manifest("x\\y") };
    assert_eq!(read_manifest(&manifest_text(&many)), Some(many));
}

#[test]
fn a_manifest_file_is_an_indented_document() {
    assert_eq!(
        manifest_text(&manifest("fp1")),
        "{\n  \"version\": 2,\n  \"fingerprint\": \"fp1\",\n  \"outputs\": [\n    \"out.txt\"\n  ],\n  \"duration_ms\": 1234\n}"
    );
    assert_eq!(
        manifest_text(&Manifest { outputs: Vec::new(), ..manifest("fp1") }),
        "{\n  \"version\": 2,\n  \"fingerprint\": \"fp1\",\n  \"outputs\": [],\n  \"duration_ms\": 1234\n}"
    );
}

#[test]
fn a_beam_never_stored_loads_nothing() {
    assert_eq!(Disk::new().load(&id("build")), None);
    let mut other = Disk::new();
    other.store(&id("api:build"), &manifest("fp1"), &vec![line(Stream::Stdout, "x")]);
    assert_eq!(other.load(&id("build")), None);
    assert!(other.load_logs(&id("build")).is_empty());
}

#[test]
fn namespaced_ids_are_stored_safely_and_separately() {
    let mut disk = Disk::new();
    let (plain, namespaced) = (id("build"), id("api:build"));
    disk.store(&plain, &manifest("fp-plain"), &Vec::new());
    disk.store(&namespaced, &manifest("fp-ns"), &Vec::new());
    assert_eq!(disk.load(&plain).unwrap().fingerprint, "fp-plain");
    assert_eq!(disk.load(&namespaced).unwrap().fingerprint, "fp-ns");
}

#[test]
fn an_entry_is_named_by_half_a_hash() {
    let store = CacheStore::new("/p/.alba/cache".to_string());
    let plain = store.entry(&id("build"), "json");
    let namespaced = store.entry(&id("api:build"), "json");
    assert_ne!(plain, namespaced);
    assert!(!namespaced.contains(':'));
    assert_eq!(plain, format!("/p/.alba/cache/{}.json", &hash_bytes(b"build")[..32]));
    assert_ne!(plain, store.entry(&id("build"), "log"));
    assert!(hash_bytes(b"build").chars().all(|c| matches!(c, '0'..='9' | 'a'..='f')));
}

#[test]
fn a_corrupted_manifest_is_a_miss_not_an_error() {
    let mut disk = Disk::new();
    let id = id("build");
    disk.store(&id, &manifest("fp1"), &Vec::new());
    for (path, text) in &mut disk.files {
        if path.ends_with(".json") {
            *text = "not json at all".to_string();
        }
    }
    assert_eq!(disk.load(&id), None);
}

#[test]
fn a_manifest_from_another_format_version_is_a_miss() {
    let mut disk = Disk::new();
    let id = id("build");
    let old = Manifest { version: FORMAT_VERSION + 1, ..manifest("fp1") };
    disk.store(&id, &old, &Vec::new());
    assert_eq!(disk.load(&id), None);
}

#[test]
fn logs_roundtrip_with_stream_and_order_preserved() {
    let logs = vec![
        line(Stream::Stdout, "compiling"),
        line(Stream::Stderr, "warning: unused"),
        line(Stream::Stdout, "done"),
    ];
    let mut disk = Disk::new();
    let id = id("build");
    disk.store(&id, &manifest("fp1"), &logs);
    assert_eq!(disk.load_logs(&id), logs);
}

#[test]
fn other_beams_leave_what_was_stored_alone() {
    let odd = vec![line(Stream::Stderr, "done \"quoted\"\r"), line(Stream::Stdout, "a\nb")];
    let mut disk = Disk::new();
    disk.store(&id("build"), &manifest("fp1"), &odd);
    disk.store(&id("test"), &manifest("fp2"), &vec![line(Stream::Stdout, "x")]);
    disk.store(&id("api:build"), &manifest("fp3"), &Vec::new());
    assert_eq!(disk.load_logs(&id("build")), odd);
    assert_eq!(disk.load(&id("build")), Some(manifest("fp1")));
    assert!(log_text(&odd).starts_with("{\"stream\":\"stderr\",\"text\":\"done "));
    assert_eq!(log_lines(&Some(log_text(&odd))).len(), 2);
    assert!(log_lines(&None).is_empty());
}

#[test]
fn missing_logs_load_as_empty() {
    assert!(Disk::new().load_logs(&id("build")).is_empty());
    assert!(log_text(&Vec::new()).is_empty());
}

#[test]
fn a_stored_line_that_cannot_be_read_is_left_out() {
    let stored = |stream: &str| StoredLine { stream: stream.to_string(), text: "x".to_string() };
    let parsed = vec![None, Some(stored("stderr")), None, Some(stored("odd"))];
    assert_eq!(restore_logs(parsed), [line(Stream::Stderr, "x"), line(Stream::Stdout, "x")]);
    assert_eq!(
        restore_line(stored_line(&line(Stream::Stderr, "y"))),
        line(Stream::Stderr, "y")
    );
}

#[test]
fn two_writes_of_the_same_entry_use_different_temporary_files() {
    let path = "/cache/abc.json";
    let (first, second) = (temporary_path(path, 7, 0), temporary_path(path, 7, 1));
    assert_ne!(first, second);
    assert_eq!(parent(&first).as_deref(), Some("/cache"));
    assert_ne!(temporary_path(path, 7, 0), temporary_path(path, 8, 0));
}

fn beam(force: bool) -> CacheableBeam {
    CacheableBeam {
        commands: strings(&["build"]),
        cwd: "/p".to_string(),
        env: Vec::new(),
        args: Vec::new(),
        needs: Vec::new(),
        executor: "embedded".to_string(),
        force,
    }
}

fn hashed(hash: &str) -> Vec<(String, Result<String, String>)> {
    vec![("src/a.rs".to_string(), Ok(hash.to_string()))]
}

fn print_of(hash: &str) -> String {
    facts_fingerprint(&[("src/a.rs", hash)], &["build"], "/p", &[], &[], &[], "embedded")
}

#[test]
fn unchanged_facts_are_a_hit() {
    let stored = manifest(&print_of("h1"));
    assert_eq!(
        beam(false).decide(&hashed("h1"), Some(stored), true),
        (
            Some(Assessment {
                fingerprint: print_of("h1"),
                hit: Some(manifest(&print_of("h1"))),
            }),
            None
        )
    );
}

#[test]
fn a_changed_hash_is_no_hit() {
    let (assessment, notice) =
        beam(false).decide(&hashed("h2"), Some(manifest(&print_of("h1"))), true);
    assert_eq!(assessment, Some(Assessment { fingerprint: print_of("h2"), hit: None }));
    assert_eq!(notice, None);
}

#[test]
fn missing_outputs_are_no_hit() {
    let (assessment, _) =
        beam(false).decide(&hashed("h1"), Some(manifest(&print_of("h1"))), false);
    assert_eq!(assessment.unwrap().hit, None);
}

#[test]
fn a_forced_beam_has_no_hit() {
    let (assessment, _) = beam(true).decide(&hashed("h1"), Some(manifest(&print_of("h1"))), true);
    assert_eq!(assessment, Some(Assessment { fingerprint: print_of("h1"), hit: None }));
}

#[test]
fn inputs_that_match_no_file_are_told() {
    assert_eq!(
        beam(false).decide(&Vec::new(), None, true),
        (None, Some("cache: `inputs` matched no file; running without cache".to_string()))
    );
}

#[test]
fn the_first_input_that_cannot_be_hashed_is_told() {
    let files = vec![
        ("a".to_string(), Ok("h".to_string())),
        ("b".to_string(), Err("denied".to_string())),
        ("c".to_string(), Err("gone".to_string())),
    ];
    assert_eq!(
        beam(false).decide(&files, None, true),
        (None, Some("cache: cannot hash input `b` (denied); running without cache".to_string()))
    );
}

#[test]
fn a_beam_is_remembered_only_where_everything_about_it_is_known() {
    let inputs = strings(&["src/**"]);
    let known = vec![Some("n1".to_string()), Some("n2".to_string())];
    assert_eq!(cacheable(true, true, &inputs, &known), Some(strings(&["n1", "n2"])));
    assert_eq!(cacheable(false, true, &inputs, &known), None);
    assert_eq!(cacheable(true, false, &inputs, &known), None);
    assert_eq!(cacheable(true, true, &Vec::new(), &known), None);
    assert_eq!(cacheable(true, true, &inputs, &vec![Some("n1".to_string()), None]), None);
}

#[test]
fn a_path_is_compared_by_its_components() {
    assert_eq!(components_of("/a//b/./c/"), ["/", "a", "b", "c"]);
    assert_eq!(components_of("./a"), [".", "a"]);
    assert!(is_same_path("a//b/", "a/b"));
    assert!(!is_same_path("./a", "a"));
    assert_eq!(strip_prefix("/a/b/c", "/a/b").as_deref(), Some("c"));
    assert_eq!(strip_prefix("/a/bc", "/a/b"), None);
    assert_eq!(parent("/a/b").as_deref(), Some("/a"));
    assert_eq!(parent("a").as_deref(), Some(""));
    assert_eq!(parent("/"), None);
    assert_eq!(parent("/a").as_deref(), Some("/"));
    assert_eq!(parent("a//b/c").as_deref(), Some("a//b"));
    assert_eq!(parent("a/./b/").as_deref(), Some("a"));
    assert_eq!(parent("//a/b").as_deref(), Some("//a"));
    assert_eq!(parent("./a").as_deref(), Some("."));
    assert_eq!(parent(".").as_deref(), Some(""));
    assert_eq!(strip_prefix("/a//b/./c//", "/a/").as_deref(), Some("b/./c"));
    assert_eq!(strip_prefix("/a", "/").as_deref(), Some("a"));
    assert_eq!(strip_prefix("./a/", "").as_deref(), Some("./a"));
    assert_eq!(strip_prefix("a/b", "a/b/").as_deref(), Some(""));
    assert_eq!(join_path("/a", "b"), "/a/b");
    assert_eq!(join_path("/a/", "b"), "/a/b");
    assert_eq!(join_path("/a", "/b"), "/b");
    assert_eq!(absolute("./x/../y", "/w"), "/w/x/../y");
    assert_eq!(absolute("/foo//test/.././bar.rs", "/w"), "/foo/test/../bar.rs");
    assert_eq!(absolute("//x/./y", "/w"), "//x/y");
    assert_eq!(absolute("///x", "/w"), "/x");
    assert_eq!(absolute("a/", "/w"), "/w/a/");
    assert_eq!(absolute("/", "/w"), "/");
    assert_eq!(absolute(".", "/w"), "/w");
    assert_eq!(file_name("a/b.txt").as_deref(), Some("b.txt"));
    assert_eq!(file_name("a/.."), None);
}

#[test]
fn looking_from_a_directory_gives_back_what_was_joined() {
    for (base, path) in [("/a/b", "c/d.txt"), ("/", "x"), ("rel/", "y//z/"), ("/a/./b", "./c")] {
        let back = strip_prefix(&join_path(base, path), base).unwrap();
        assert!(is_same_path(&join_path(base, &back), &join_path(base, path)));
    }
    assert_eq!(strip_prefix("rel/y//z/", "rel").as_deref(), Some("y//z"));
}

#[test]
fn a_path_is_normalized_through_what_exists_of_it() {
    let some = |s: &str| Some(s.to_string());
    assert_eq!(normalize("/l/a", some("/real/a"), None), "/real/a");
    assert_eq!(normalize("/l/a", None, some("/real")), "/real/a");
    assert_eq!(normalize("/l/a", None, None), "/l/a");
}

#[test]
fn white_space_is_what_unicode_says() {
    for c in '\0'..=char::MAX {
        assert_eq!(is_space(c), c.is_whitespace(), "{c:?}");
    }
    for text in ["", "  a b \n", "\u{3000}x\u{a0}", "\r\n", "plain"] {
        assert_eq!(trim(text), text.trim());
        assert_eq!(trim_end(text), text.trim_end());
        assert_eq!(trim_newlines(text), text.trim_end_matches(['\n', '\r']));
        assert_eq!(lines(text), text.lines().collect::<Vec<_>>());
    }
    for text in ["a\nb", "a\r\nb\r", "\n\n", "a\rb\n", "x\n\r\n"] {
        assert_eq!(lines(text), text.lines().collect::<Vec<_>>());
    }
}

#[test]
fn numbers_are_written_out() {
    for n in [0u64, 7, 10, 99, 100, 1234567890, u64::MAX] {
        assert_eq!(decimal_text(n), n.to_string());
    }
    for n in [0i32, -1, 42, i32::MIN, i32::MAX] {
        assert_eq!(signed_text(n), n.to_string());
    }
    assert_eq!(join(&strings(&["a", "b", "c"]), ", "), "a, b, c");
    assert_eq!(join(&Vec::new(), ", "), "");
}

#[test]
fn an_edit_distance_counts_edits() {
    assert_eq!(levenshtein("kitten", "sitting"), 3);
    assert_eq!(levenshtein("", "abc"), 3);
    assert_eq!(levenshtein("same", "same"), 0);
    assert_eq!(levenshtein("tset", "test"), levenshtein("test", "tset"));
}

#[test]
fn paths_are_cut_where_std_cuts_them() {
    let names = [
        "", ".", "..", "/", "//", "///", "a", "a/", "./a", "././a", ".//a", "a//b", "a/./b", "a/b/.",
        "a/b/./", "a//b/c", "/a", "/a/", "//a", "//a/b", "///a//b//", "/a/./b", "/./a", "a/../b",
        "../a", "/..", "/a/b/c", "/a//b/./c//", ".a/b", "a/.b/.c",
    ];
    for name in names {
        let path = std::path::Path::new(name);
        let text = |p: &std::path::Path| p.to_str().unwrap().to_string();
        assert_eq!(parent(name), path.parent().map(text), "the parent of `{name}`");
        assert_eq!(
            file_name(name),
            path.file_name().map(|n| n.to_str().unwrap().to_string()),
            "the name of `{name}`"
        );
        for base in names {
            assert_eq!(
                strip_prefix(name, base),
                path.strip_prefix(base).ok().map(text),
                "`{name}` below `{base}`"
            );
            assert_eq!(
                join_path(base, name),
                text(&std::path::Path::new(base).join(name)),
                "`{name}` from `{base}`"
            );
            assert_eq!(is_same_path(name, base), path == std::path::Path::new(base));
        }
        if name.starts_with('/') {
            assert_eq!(absolute(name, "/w"), text(&std::path::absolute(name).unwrap()));
        }
    }
}
