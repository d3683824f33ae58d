//! Loading, checking and planning Beamfiles, from their text. The small
//! reader at the top turns a text into the syntax tree that the library takes.

use std::time::{Duration, Instant};

use alba::affected::{affected, affected_beams, select, SelectError, Selection};
use alba::args::{Command, LogFormat, RunFlags};
use alba::beam_task::{announce, output_events, reported_duration, Effect, Happening};
use alba::cache::{cacheable_beam, remember};
use alba::commands::{
    affected_json, affected_listing, affected_report, check_report, embedded_commands, list, task,
    Report, Task,
};
use alba::error::CoreError;
use alba::eval::render_template;
use alba::event::{BeamStatus, OutputLine, RunEvent, RunSummary, Stream};
use alba::files::{expand_globs, output_query, outputs_satisfied, OutputQuery, Walked};
use alba::fingerprint::hash_file;
use alba::git::{changed_files, ChangedStep, GitError, GitHead, GitReply};
use alba::graph::execution_subgraph;
use alba::json::json_line;
use alba::loader::{
    beam_dir_for, load_project, FileEntry, FileTable, LoadError, LoadStep, ReadFile, SourceMap,
};
use alba::model::{Beam, BeamId, ExecutorKind, OptionValue, Project, SourceId, Value};
use alba::plan::{
    affected_started, args_among, args_for, command_env, conclude, plan, plan_all, render,
    run_started, summarize, EngineError,
};
use alba::project::load_str;
use alba::render::{summary_label, Print};
use alba::renderers::GroupedRenderer;
use alba::run_command::{no_inputs_warning, run_exit_code, watch_warning};
use alba::schedule::{prepare, run_needs, Run};
use alba::scope::{Environment, Scope};
use alba::store::{
    accept_manifest, log_text, manifest_text, restore_logs, CacheStore, Manifest, StoredLine,
};
use alba::suggest::suggest;
use alba::syntax::{
    BeamDecl, BeamRef, BinOp, ExecutorDecl, ExecutorOptionValue, Expr, File, HookDecl, Import,
    LetBinding, ParseError, Span, Spanned, StringTemplate, TemplatePart,
};
use alba::watch_set::{NormalForms, Relevance, WatchSet};

struct Reader<'a> {
    src: &'a str,
    at: usize,
}

fn at<T>(value: T, start: usize, end: usize) -> Spanned<T> {
    Spanned::new(value, Span::new(start, end))
}

impl<'a> Reader<'a> {
    fn error<T>(&self, message: &str) -> Result<T, ParseError> {
        Err(ParseError {
            message: message.to_string(),
            span: Span::new(self.at, self.at),
            help: None,
        })
    }

    fn rest(&self) -> &'a str {
        &self.src[self.at..]
    }

    fn skip(&mut self) {
        loop {
            let rest = self.rest();
            if rest.starts_with('#') {
                self.at += rest.find('\n').unwrap_or(rest.len());
            } else if let Some(c) = rest.chars().next() {
                if !c.is_whitespace() {
                    return;
                }
                self.at += c.len_utf8();
            } else {
                return;
            }
        }
    }

    fn eat(&mut self, token: &str) -> bool {
        self.skip();
        if self.rest().starts_with(token) {
            self.at += token.len();
            true
        } else {
            false
        }
    }

    fn expect(&mut self, token: &str) -> Result<(), ParseError> {
        if self.eat(token) {
            Ok(())
        } else {
            self.error(&format!("expected `{token}`"))
        }
    }

    fn name(&mut self) -> Result<Spanned<String>, ParseError> {
        self.skip();
        let start = self.at;
        let rest = self.rest();
        let length = rest
            .find(|c: char| !(c.is_alphanumeric() || c == '_' || c == '-'))
            .unwrap_or(rest.len());
        if length == 0 {
            return self.error("expected a name");
        }
        self.at += length;
        Ok(at(rest[..length].to_string(), start, self.at))
    }

    fn word(&mut self, word: &str) -> bool {
        let before = self.at;
        match self.name() {
            Ok(name) if name.value == word => true,
            _ => {
                self.at = before;
                false
            }
        }
    }

    /// A string between `quote`s, with its interpolations.
    fn template(&mut self, quote: char) -> Result<StringTemplate, ParseError> {
        self.skip();
        let start = self.at;
        if !self.rest().starts_with(quote) {
            return self.error("expected a string");
        }
        self.at += 1;
        let mut parts = Vec::new();
        let mut literal = String::new();
        loop {
            let Some(c) = self.rest().chars().next() else {
                return self.error("unterminated string");
            };
            self.at += c.len_utf8();
            if c == quote {
                break;
            } else if c == '\\' {
                let Some(escaped) = self.rest().chars().next() else {
                    return self.error("unterminated string");
                };
                self.at += escaped.len_utf8();
                literal.push(if escaped == 'n' { '\n' } else { escaped });
            } else if (c == '{' || c == '}') && self.rest().starts_with(c) {
                self.at += 1;
                literal.push(c);
            } else if c == '{' {
                if !literal.is_empty() {
                    parts.push(TemplatePart::Literal(std::mem::take(&mut literal)));
                }
                parts.push(TemplatePart::Expr(self.expr()?));
                self.expect("}")?;
            } else {
                literal.push(c);
            }
        }
        if !literal.is_empty() {
            parts.push(TemplatePart::Literal(literal));
        }
        Ok(StringTemplate::new(parts, Span::new(start, self.at)))
    }

    /// A string, or an expression that stands for one.
    fn value(&mut self) -> Result<StringTemplate, ParseError> {
        self.skip();
        if self.rest().starts_with('"') {
            return self.template('"');
        }
        let start = self.at;
        let part = TemplatePart::Expr(self.expr()?);
        Ok(StringTemplate::new(vec![part], Span::new(start, self.at)))
    }

    fn templates(&mut self) -> Result<Vec<StringTemplate>, ParseError> {
        let mut list = Vec::new();
        self.expect("[")?;
        while !self.eat("]") {
            list.push(self.template('"')?);
            self.eat(",");
        }
        Ok(list)
    }

    fn one_or_more(&mut self) -> Result<Vec<StringTemplate>, ParseError> {
        self.skip();
        if self.rest().starts_with('[') {
            self.templates()
        } else {
            Ok(vec![self.template('"')?])
        }
    }

    fn binary(op: BinOp, lhs: Expr, rhs: Expr) -> Expr {
        Expr::Binary { op, lhs: Box::new(lhs), rhs: Box::new(rhs) }
    }

    fn expr(&mut self) -> Result<Expr, ParseError> {
        if self.word("if") {
            let cond = self.expr()?;
            if !self.word(CONSEQUENCE) {
                return self.error("expected a consequence");
            }
            let consequence = self.expr()?;
            if !self.word("else") {
                return self.error("expected `else`");
            }
            let otherwise = self.expr()?;
            return Ok(Expr::If {
                cond: Box::new(cond),
                consequence: Box::new(consequence),
                otherwise: Box::new(otherwise),
            });
        }
        let mut left = self.conjunction()?;
        while self.eat("||") {
            let right = self.conjunction()?;
            left = Self::binary(BinOp::Or, left, right);
        }
        Ok(left)
    }

    fn conjunction(&mut self) -> Result<Expr, ParseError> {
        let mut left = self.comparison()?;
        while self.eat("&&") {
            let right = self.comparison()?;
            left = Self::binary(BinOp::And, left, right);
        }
        Ok(left)
    }

    fn comparison(&mut self) -> Result<Expr, ParseError> {
        let left = self.sum()?;
        if self.eat("==") {
            let right = self.sum()?;
            return Ok(Self::binary(BinOp::Eq, left, right));
        }
        if self.eat("!=") {
            let right = self.sum()?;
            return Ok(Self::binary(BinOp::NotEq, left, right));
        }
        Ok(left)
    }

    fn sum(&mut self) -> Result<Expr, ParseError> {
        let mut left = self.primary()?;
        while self.eat("+") {
            let right = self.primary()?;
            left = Self::binary(BinOp::Concat, left, right);
        }
        Ok(left)
    }

    fn primary(&mut self) -> Result<Expr, ParseError> {
        self.skip();
        if self.rest().starts_with('"') {
            return Ok(Expr::Str(self.template('"')?));
        }
        if self.rest().starts_with('\'') {
            return Ok(Expr::Str(self.template('\'')?));
        }
        let name = self.name()?;
        if name.value == "true" || name.value == "false" {
            return Ok(Expr::Bool(name.value == "true"));
        }
        if self.rest().starts_with('(') {
            self.at += 1;
            let mut args = Vec::new();
            while !self.eat(")") {
                args.push(self.expr()?);
                self.eat(",");
            }
            return Ok(Expr::Call { name, args });
        }
        if self.rest().starts_with('.') {
            self.at += 1;
            let field = self.name()?;
            return Ok(Expr::Field { object: name, field });
        }
        Ok(Expr::Var(name))
    }

    fn reference(&mut self) -> Result<Spanned<BeamRef>, ParseError> {
        let first = self.name()?;
        let start = first.span.start;
        let mut parts = vec![first.value];
        while self.rest().starts_with(':') {
            self.at += 1;
            parts.push(self.name()?.value);
        }
        let name = parts.pop().unwrap();
        Ok(at(BeamRef { namespace: parts, name }, start, self.at))
    }

    fn executor(&mut self) -> Result<ExecutorDecl, ParseError> {
        let name = self.name()?;
        let mut options = Vec::new();
        if self.eat("{") {
            while !self.eat("}") {
                let key = self.name()?;
                self.skip();
                let value = if self.rest().starts_with('[') {
                    ExecutorOptionValue::List(self.templates()?)
                } else if self.rest().starts_with('"') {
                    ExecutorOptionValue::Str(self.template('"')?)
                } else {
                    ExecutorOptionValue::Bool(self.name()?.value == "true")
                };
                options.push((key, value));
            }
        }
        Ok(ExecutorDecl { name, options })
    }

    fn beam(&mut self, start: usize) -> Result<BeamDecl, ParseError> {
        let name = self.name()?;
        let mut beam = BeamDecl {
            name,
            params: Vec::new(),
            description: None,
            needs: Vec::new(),
            inputs: Vec::new(),
            outputs: Vec::new(),
            run: Vec::new(),
            env: Vec::new(),
            cwd: None,
            executor: None,
            allow_failure: false,
            span: Span::new(start, start),
        };
        if self.rest().starts_with('(') {
            self.at += 1;
            while !self.eat(")") {
                beam.params.push(self.name()?);
                self.eat(",");
            }
        }
        self.expect("{")?;
        while !self.eat("}") {
            let key = self.name()?;
            match key.value.as_str() {
                "description" => beam.description = Some(self.template('"')?),
                "needs" => {
                    self.expect("[")?;
                    while !self.eat("]") {
                        beam.needs.push(self.reference()?);
                        self.eat(",");
                    }
                }
                "inputs" => beam.inputs = self.templates()?,
                "outputs" => beam.outputs = self.templates()?,
                "run" => beam.run = self.one_or_more()?,
                "cwd" => beam.cwd = Some(self.template('"')?),
                "env" => {
                    self.expect("{")?;
                    while !self.eat("}") {
                        let name = self.name()?;
                        self.eat("=");
                        beam.env.push((name, self.value()?));
                    }
                }
                "executor" => beam.executor = Some(self.executor()?),
                "allow_failure" => beam.allow_failure = self.name()?.value == "true",
                other => return self.error(&format!("unknown field `{other}`")),
            }
        }
        beam.span = Span::new(start, self.at);
        Ok(beam)
    }

    fn file(mut self) -> Result<File, ParseError> {
        let mut file = File {
            imports: Vec::new(),
            lets: Vec::new(),
            beams: Vec::new(),
            default: None,
            hooks: Vec::new(),
        };
        loop {
            self.skip();
            if self.rest().is_empty() {
                return Ok(file);
            }
            let keyword = self.name()?;
            match keyword.value.as_str() {
                "import" => {
                    self.skip();
                    let start = self.at;
                    let path = self.template('"')?;
                    let text = match path.parts.first() {
                        Some(TemplatePart::Literal(text)) => text.clone(),
                        _ => String::new(),
                    };
                    let path = at(text, start, self.at);
                    self.expect("as")?;
                    let alias = self.name()?;
                    file.imports.push(Import { path, alias });
                }
                "let" => {
                    let name = self.name()?;
                    self.expect("=")?;
                    let value = self.expr()?;
                    file.lets.push(LetBinding { name, value });
                }
                "default" => {
                    let name = self.name()?;
                    file.default = Some(name);
                }
                "hook" => {
                    let name = self.name()?;
                    self.expect("{")?;
                    self.expect("beam")?;
                    let beam = self.reference()?;
                    self.expect("}")?;
                    file.hooks.push(HookDecl { name, beam });
                }
                "beam" => {
                    let beam = self.beam(keyword.span.start)?;
                    file.beams.push(beam);
                }
                other => return self.error(&format!("unexpected `{other}`")),
            }
        }
    }
}

/// The word between a condition and its consequence.
const CONSEQUENCE: &str = "then";

fn parse(src: &str) -> Result<File, ParseError> {
    Reader { src, at: 0 }.file()
}

fn no_env() -> Environment {
    Environment { variables: Vec::new() }
}

fn env(name: &str, value: &str) -> Environment {
    Environment { variables: vec![(name.to_string(), value.to_string())] }
}

fn load(src: &str) -> Result<Project, CoreError> {
    load_str(parse(src), None, &no_env())
}

fn id(name: &str) -> BeamId {
    BeamId(name.to_string())
}

fn strings(list: &[&str]) -> Vec<String> {
    list.iter().map(|s| s.to_string()).collect()
}

fn commands(project: &Project, env: &Environment) -> Vec<String> {
    let beam = &project.beams[0];
    beam.run
        .iter()
        .map(|template| render_template(template, &beam.scope, env).unwrap())
        .collect()
}

/// A path without `.` and `..`.
fn canonical(path: &str) -> String {
    let mut parts: Vec<&str> = Vec::new();
    for part in path.split('/') {
        match part {
            "" | "." => {}
            ".." => {
                parts.pop();
            }
            name => parts.push(name),
        }
    }
    format!("/{}", parts.join("/"))
}

/// Loads `root` from files in memory, and counts how often git was asked.
fn load_files_with_git(
    files: &[(&str, &str)],
    root: &str,
    head: Result<GitHead, GitError>,
) -> (Result<(Project, SourceMap), LoadError>, usize) {
    let mut table = FileTable { entries: Vec::new() };
    let mut git = None;
    let mut asked = 0;
    for _ in 0..1000 {
        match load_project(root, &table, &Ok("/work".to_string()), &git, &no_env()) {
            LoadStep::Done(project, sources) => return (Ok((project, sources)), asked),
            LoadStep::Failed(error) => return (Err(error), asked),
            LoadStep::AskGit => {
                asked += 1;
                git = Some(head.clone());
            }
            LoadStep::Read(path) => {
                let real = canonical(&path);
                let found = files.iter().find(|(name, _)| *name == real);
                table.entries.push(match found {
                    Some((_, text)) => FileEntry {
                        path,
                        canonical: Ok(real),
                        read: Ok(ReadFile { text: text.to_string(), parsed: parse(text) }),
                    },
                    None => FileEntry {
                        path,
                        canonical: Err("No such file or directory".to_string()),
                        read: Err("No such file or directory".to_string()),
                    },
                });
            }
        }
    }
    panic!("loading did not come to an end");
}

fn load_files(files: &[(&str, &str)], root: &str) -> Result<(Project, SourceMap), LoadError> {
    load_files_with_git(files, root, Err(GitError("not a repository".to_string()))).0
}

fn failure(files: &[(&str, &str)], root: &str) -> LoadError {
    match load_files(files, root) {
        Ok(_) => panic!("loading must fail"),
        Err(error) => error,
    }
}

fn find<'a>(project: &'a Project, name: &str) -> &'a Beam {
    project.beams.iter().find(|beam| beam.id.0 == name).unwrap()
}

fn ids(project: &Project) -> Vec<&str> {
    project.beams.iter().map(|beam| beam.id.0.as_str()).collect()
}

fn head() -> GitHead {
    GitHead {
        branch: "main".to_string(),
        sha: "0123456789012345678901234567890123456789".to_string(),
        short_sha: "0123456".to_string(),
        dirty: true,
    }
}

fn text(s: &str) -> Value {
    Value::Str(s.to_string())
}

#[test]
fn evaluates_let_chain_and_interpolation() {
    let src = r#"
let profile = env("ALBA_TEST_PROFILE", "debug")
let release = profile == "release"
beam build { run "cargo build {if release then '--release' else ''}" }
"#;
    let project = load(src).unwrap();
    assert_eq!(commands(&project, &no_env())[0], "cargo build ");
}

#[test]
fn env_reads_a_variable_that_is_set() {
    let src = r#"
let profile = env("ALBA_TEST_PROFILE", "debug")
beam build { run "cargo build --{profile}" }
"#;
    let set = env("ALBA_TEST_PROFILE", "release");
    let project = load_str(parse(src), None, &set).unwrap();
    assert_eq!(commands(&project, &set)[0], "cargo build --release");
}

#[test]
fn unknown_variable_reports_span_and_help() {
    let err = load(r#"beam x { run "{profil}" }"#).unwrap_err();
    assert!(err.message.contains("unknown variable"));
    assert!(err.help.is_none());
}

#[test]
fn if_condition_must_be_bool() {
    let err = load(
        r#"
let x = "str"
beam b { run "{if x then 'a' else 'b'}" }
"#,
    )
    .unwrap_err();
    assert!(err.message.contains("expected a boolean"));
}

#[test]
fn beam_parameter_shadows_a_same_named_let() {
    let project = load(
        r#"
let target = true
beam deploy(target) { run "{target + '!'}" }
"#,
    )
    .unwrap();
    assert_eq!(project.beams[0].params, vec!["target".to_string()]);
}

#[test]
fn if_validates_the_not_taken_branch_too() {
    let err = load(
        r#"
let flag = false
beam b { run "{if flag then bogus else 'ok'}" }
"#,
    )
    .unwrap_err();
    assert!(err.message.contains("unknown variable"));
    assert!(err.message.contains("bogus"));
}

#[test]
fn load_time_field_rejects_parameter_even_when_shadowing_a_let() {
    let err = load(
        r#"
let target = "prod"
beam deploy(target) { cwd "{target}" run "echo {target}" }
"#,
    )
    .unwrap_err();
    assert!(err.message.contains("beam parameters cannot be used"));
    assert!(err.message.contains("cwd"));
}

#[test]
fn env_in_run_template_is_not_read_at_load_time() {
    let project = load(r#"beam deploy { run "curl -H {env('ALBA_PROBE_TOKEN_XYZ')}" }"#).unwrap();
    assert_eq!(project.beams[0].id.0, "deploy");
}

#[test]
fn load_time_field_validates_the_not_taken_branch_too() {
    let err = load(
        r#"
let flag = false
beam b { cwd "{if flag then bogus else '.'}" run "echo x" }
"#,
    )
    .unwrap_err();
    assert!(err.message.contains("unknown variable"));
    assert!(err.message.contains("bogus"));
}

#[test]
fn load_time_field_rejects_an_unknown_function_in_an_untaken_branch() {
    let err = load(
        r#"
let flag = false
beam b { description "{if flag then nope('x') else 'ok'}" run "echo x" }
"#,
    )
    .unwrap_err();
    assert!(err.message.contains("unknown function"));
}

#[test]
fn let_binding_validates_the_not_taken_branch_too() {
    let err = load(
        r#"
let flag = false
let path = if flag then bogus else "."
beam b { run "echo {path}" }
"#,
    )
    .unwrap_err();
    assert!(err.message.contains("unknown variable"));
    assert!(err.message.contains("bogus"));
}

#[test]
fn env_without_a_default_is_rejected_in_a_load_time_field() {
    let err = load(r#"beam b { description "{env('ALBA_NOPE_XYZ')}" run "echo x" }"#).unwrap_err();
    assert!(err.message.contains("requires a default"));
    assert!(err.help.is_some());
}

#[test]
fn env_without_a_default_is_rejected_in_a_let_binding() {
    let err = load(
        r#"
let x = env("ALBA_TEST_ABSENT_XYZ")
beam b { run "x" }
"#,
    )
    .unwrap_err();
    assert!(err.message.contains("requires a default"));
}

#[test]
fn glob_arity_is_checked_even_when_an_argument_is_unknown() {
    let err = load(r#"beam b(p) { run "{glob(p, 'x')}" }"#).unwrap_err();
    assert!(err.message.contains("`glob` expects 1 argument(s), found 2"));
}

#[test]
fn glob_validates_pattern_and_returns_it_unchanged() {
    let project = load(
        r#"
let pattern = glob("src/**/*.rs")
beam b { run "{pattern}" }
"#,
    )
    .unwrap();
    assert_eq!(project.beams[0].scope.get("pattern"), Some(&text("src/**/*.rs")));
}

#[test]
fn glob_rejects_invalid_pattern() {
    let err = load(
        r#"
let pattern = glob("[unclosed")
beam b { run "x" }
"#,
    )
    .unwrap_err();
    assert!(err.message.contains("invalid glob pattern"));
}

#[test]
fn inputs_reject_a_pattern_that_will_not_compile() {
    let err = load(
        r#"
beam b {
  inputs ["src/**/*.rs", "a[b"]
  run "x"
}
"#,
    )
    .unwrap_err();
    assert!(err.message.contains("invalid `inputs` pattern `a[b`"));
    assert!(err.message.contains("beam `b`"));
}

#[test]
fn outputs_reject_a_pattern_that_will_not_compile() {
    let err = load(
        r#"
beam b {
  outputs ["a[b"]
  run "x"
}
"#,
    )
    .unwrap_err();
    assert!(err.message.contains("invalid `outputs` pattern `a[b`"));
}

#[test]
fn the_glob_builtin_and_the_inputs_field_keep_their_own_dialects() {
    let err = load(
        r#"
let pattern = glob("src**/x.rs")
beam b { run "{pattern}" }
"#,
    )
    .unwrap_err();
    assert!(err.message.contains("invalid glob pattern `src**/x.rs`"));

    load(
        r#"
beam b {
  inputs ["src**/x.rs"]
  run "x"
}
"#,
    )
    .expect("`globset` accepts this, and `globset` is what matches `inputs`");
}

#[test]
fn binary_operators_evaluate_correctly() {
    let project = load(
        r#"
let a = true
let b = false
let and_result = a && b
let or_result = a || b
let neq_result = a != b
let concat_result = "foo" + "bar"
beam x { run "ok" }
"#,
    )
    .unwrap();
    let scope = &project.beams[0].scope;
    assert_eq!(scope.get("and_result"), Some(&Value::Bool(false)));
    assert_eq!(scope.get("or_result"), Some(&Value::Bool(true)));
    assert_eq!(scope.get("neq_result"), Some(&Value::Bool(true)));
    assert_eq!(scope.get("concat_result"), Some(&text("foobar")));
}

#[test]
fn unknown_function_errors_with_help() {
    let err = load(
        r#"
let x = evn("Y")
beam b { run "x" }
"#,
    )
    .unwrap_err();
    assert!(err.message.contains("unknown function"));
    assert_eq!(err.help.as_deref(), Some("did you mean `env`?"));
}

#[test]
fn executor_docker_carries_image() {
    let project =
        load(r#"beam deploy { executor docker { image "registry/app:latest" } run "x" }"#).unwrap();
    assert_eq!(
        project.beams[0].executor,
        ExecutorKind::Docker {
            image: "registry/app:latest".to_string(),
            volumes: Vec::new(),
            workdir: None,
        }
    );
}

#[test]
fn executor_docker_carries_volumes_and_workdir() {
    let project =
        load(r#"beam d { executor docker { image "x" volumes ["h:/c"] workdir "/w" } run "x" }"#)
            .unwrap();
    assert_eq!(
        project.beams[0].executor,
        ExecutorKind::Docker {
            image: "x".into(),
            volumes: vec!["h:/c".into()],
            workdir: Some("/w".into()),
        }
    );
}

#[test]
fn docker_volumes_must_be_a_list() {
    let err =
        load(r#"beam d { executor docker { image "x" volumes "h:/c" } run "x" }"#).unwrap_err();
    assert!(err.message.contains("executor `docker` option `volumes` must be a list of strings"));
}

#[test]
fn docker_volume_entries_must_name_a_container_path() {
    let err = load(r#"beam d { executor docker { image "x" volumes ["nocolon"] } run "x" }"#)
        .unwrap_err();
    assert!(err.message.contains("invalid volume `nocolon`: expected `host:container`"));
}

#[test]
fn docker_workdir_must_be_an_absolute_container_path() {
    let err =
        load(r#"beam d { executor docker { image "x" workdir "relative" } run "x" }"#).unwrap_err();
    assert!(err
        .message
        .contains("executor `docker` option `workdir` must be an absolute container path"));
}

#[test]
fn docker_rejects_an_unknown_option_with_a_suggestion() {
    let err = load(r#"beam d { executor docker { image "x" volume ["a:/b"] } run "x" }"#)
        .unwrap_err();
    assert!(err.message.contains("executor `docker` does not take an option `volume`"));
    assert_eq!(err.help.as_deref(), Some("did you mean `volumes`?"));
}

#[test]
fn an_unknown_executor_becomes_a_plugin_reference() {
    let project =
        load(r#"beam d { executor podman { image "x" remote true tags ["a", "b"] } run "x" }"#)
            .unwrap();
    assert_eq!(
        project.beams[0].executor,
        ExecutorKind::Plugin {
            name: "podman".into(),
            options: vec![
                ("image".into(), OptionValue::Str("x".into())),
                ("remote".into(), OptionValue::Bool(true)),
                ("tags".into(), OptionValue::List(vec!["a".into(), "b".into()])),
            ],
        }
    );
}

#[test]
fn shell_takes_no_options() {
    let err = load(r#"beam b { executor shell { image "x" } run "y" }"#).unwrap_err();
    assert!(err.message.contains("executor `shell` takes no options"));
}

#[test]
fn an_executor_name_near_docker_still_becomes_a_plugin_reference() {
    let project = load(r#"beam deploy { executor dokcer { image "x" } run "y" }"#).unwrap();
    assert_eq!(
        project.beams[0].executor,
        ExecutorKind::Plugin {
            name: "dokcer".to_string(),
            options: vec![("image".to_string(), OptionValue::Str("x".to_string()))],
        }
    );
}

#[test]
fn system_shell_executor_maps_to_its_kind() {
    let project = load("beam b {\n  executor system_shell\n  run \"x\"\n}").unwrap();
    assert_eq!(project.beams[0].executor, ExecutorKind::SystemShell);
}

#[test]
fn system_shell_rejects_options() {
    let err =
        load("beam b {\n  executor system_shell { image \"i\" }\n  run \"x\"\n}").unwrap_err();
    assert!(err.message.contains("executor `system_shell` takes no options"));
}

#[test]
fn an_executor_name_near_system_shell_still_becomes_a_plugin_reference() {
    let project = load("beam b {\n  executor system_shel\n  run \"x\"\n}").unwrap();
    assert_eq!(
        project.beams[0].executor,
        ExecutorKind::Plugin { name: "system_shel".to_string(), options: Vec::new() }
    );
}

#[test]
fn unknown_variable_suggests_close_match() {
    let err = load(
        r#"
let release = true
beam b { run "{relase}" }
"#,
    )
    .unwrap_err();
    assert_eq!(err.help.as_deref(), Some("did you mean `release`?"));
}

#[test]
fn suggest_breaks_distance_ties_alphabetically() {
    assert_eq!(suggest("hat", &["cat", "bat"]), Some("bat"));
    assert_eq!(suggest("hat", &["bat", "cat"]), Some("bat"));
}

#[test]
fn load_str_rejects_imports() {
    let err = load("import \"x/Beamfile\" as x\nbeam b { run \"echo\" }").unwrap_err();
    assert!(err.message.contains("imports are not supported"));
}

fn sorted(ids: Vec<BeamId>) -> Vec<String> {
    let mut v: Vec<String> = ids.into_iter().map(|id| id.0).collect();
    v.sort();
    v
}

#[test]
fn unknown_need_suggests_closest() {
    let err = load("beam build { needs [tset] run \"x\" }\nbeam test { run \"y\" }").unwrap_err();
    assert!(err.message.contains("unknown beam `tset`"));
    assert_eq!(err.help.as_deref(), Some("did you mean `test`?"));
}

#[test]
fn unknown_need_points_at_the_offending_entry() {
    let source = "beam build { needs [test, tset] run \"x\" }\nbeam test { run \"y\" }";
    let err = load(source).unwrap_err();
    let span = err.span.expect("a declared `needs` entry has a location");
    assert_eq!(&source[span.start..span.end], "tset");
}

#[test]
fn unknown_namespaced_need_points_at_the_whole_reference() {
    let source = "beam build { needs [api:tset] run \"x\" }";
    let err = load(source).unwrap_err();
    let span = err.span.expect("a declared `needs` entry has a location");
    assert_eq!(&source[span.start..span.end], "api:tset");
}

#[test]
fn unknown_default_is_rejected_at_its_own_span() {
    let source = "default biuld\nbeam build { run \"x\" }";
    let err = load(source).unwrap_err();
    assert!(err.message.contains("unknown beam `biuld`"));
    assert_eq!(err.help.as_deref(), Some("did you mean `build`?"));
    let span = err.span.expect("a declared `default` has a location");
    assert_eq!(&source[span.start..span.end], "biuld");
}

#[test]
fn a_default_naming_a_declared_beam_loads() {
    let project = load("default build\nbeam build { run \"x\" }").unwrap();
    assert_eq!(project.default.as_ref().map(|d| d.value.0.as_str()), Some("build"));
}

#[test]
fn cycle_reports_exact_path() {
    let err = load(
        "
beam build { needs [codegen] run \"a\" }
beam codegen { needs [build] run \"b\" }
",
    )
    .unwrap_err();
    assert!(err.message.contains("build → codegen → build"));
}

#[test]
fn subgraph_is_transitive_closure() {
    let project = load(
        "
beam a { run \"x\" }
beam b { needs [a] run \"x\" }
beam c { needs [b] run \"x\" }
beam unrelated { run \"x\" }
",
    )
    .unwrap();
    let ids = execution_subgraph(&project, &id("c")).unwrap();
    assert_eq!(sorted(ids), vec!["a", "b", "c"]);
}

#[test]
fn self_cycle_reports_itself() {
    let err = load("beam a { needs [a] run \"x\" }").unwrap_err();
    assert!(err.message.contains("a → a"));
}

#[test]
fn cycle_unreachable_from_any_target_is_still_an_error() {
    let err = load(
        "
beam main { run \"x\" }
beam x { needs [y] run \"x\" }
beam y { needs [x] run \"x\" }
",
    )
    .unwrap_err();
    assert!(err.message.contains("x → y → x"));
}

#[test]
fn duplicate_needs_do_not_duplicate_in_subgraph() {
    let project = load(
        "
beam a { run \"x\" }
beam b { needs [a, a] run \"x\" }
",
    )
    .unwrap();
    let ids = execution_subgraph(&project, &id("b")).unwrap();
    assert_eq!(sorted(ids), vec!["a", "b"]);
}

#[test]
fn unknown_target_suggests_closest_without_a_source_location() {
    let project = load("beam build { run \"x\" }").unwrap();
    let err = execution_subgraph(&project, &id("biuld")).unwrap_err();
    assert!(err.message.contains("unknown beam `biuld`"));
    assert_eq!(err.help.as_deref(), Some("did you mean `build`?"));
    assert!(err.span.is_none(), "a target named outside the Beamfile has no span");
}

#[test]
fn cycle_report_is_deterministic_across_runs() {
    let src = "
beam a1 { needs [a2] run \"x\" }
beam a2 { needs [a1] run \"x\" }
beam b1 { needs [b2] run \"x\" }
beam b2 { needs [b1] run \"x\" }
";
    for _ in 0..20 {
        let err = load(src).unwrap_err();
        assert!(err.message.contains("a1 → a2 → a1"));
    }
}

#[test]
fn cycle_message_excludes_the_non_cyclic_dfs_prefix() {
    let err = load(
        "
beam root { needs [mid] run \"x\" }
beam mid { needs [inner] run \"x\" }
beam inner { needs [x] run \"x\" }
beam x { needs [y] run \"x\" }
beam y { needs [x] run \"x\" }
",
    )
    .unwrap_err();
    assert!(err.message.contains("x → y → x"));
    assert!(!err.message.contains("root"));
    assert!(!err.message.contains("mid"));
    assert!(!err.message.contains("inner"));
}

#[test]
fn diamond_shaped_needs_deduplicates_shared_dependency() {
    let project = load(
        "
beam a { run \"x\" }
beam b { needs [a] run \"x\" }
beam c { needs [a] run \"x\" }
beam d { needs [b, c] run \"x\" }
",
    )
    .unwrap();
    let ids = execution_subgraph(&project, &id("d")).unwrap();
    assert_eq!(ids.iter().filter(|id| id.0 == "a").count(), 1);
    assert_eq!(sorted(ids), vec!["a", "b", "c", "d"]);
}

#[test]
fn subgraph_walks_a_deep_chain_completely() {
    let project = load(
        "
beam a { run \"x\" }
beam b { needs [a] run \"x\" }
beam c { needs [b] run \"x\" }
beam d { needs [c] run \"x\" }
beam e { needs [d] run \"x\" }
",
    )
    .unwrap();
    let ids = execution_subgraph(&project, &id("e")).unwrap();
    assert_eq!(sorted(ids), vec!["a", "b", "c", "d", "e"]);
}

#[test]
fn cycle_detection_survives_a_very_deep_chain() {
    const DEPTH: usize = 10_000;

    let mut source = String::new();
    for index in 0..DEPTH - 1 {
        source.push_str(&format!("beam b{index} {{ needs [b{}] run \"x\" }}\n", index + 1));
    }
    source.push_str(&format!("beam b{} {{ run \"x\" }}\n", DEPTH - 1));

    let project = load(&source).unwrap();

    assert_eq!(project.beams.len(), DEPTH);
}

#[test]
fn a_cycle_at_the_bottom_of_a_deep_chain_is_reported_exactly() {
    const DEPTH: usize = 5_000;

    let mut source = String::new();
    for index in 0..DEPTH - 1 {
        source.push_str(&format!("beam b{index} {{ needs [b{}] run \"x\" }}\n", index + 1));
    }
    source.push_str(&format!(
        "beam b{} {{ needs [b{}] run \"x\" }}\n",
        DEPTH - 1,
        DEPTH - 2
    ));

    let err = load(&source).unwrap_err();

    assert!(err
        .message
        .contains(&format!("b{} → b{} → b{}", DEPTH - 2, DEPTH - 1, DEPTH - 2)));
    assert!(!err.message.contains("b0 "));
}

#[test]
fn cycle_among_imported_namespaced_beams_reports_qualified_path() {
    let err = failure(
        &[
            (
                "/p/Beamfile",
                "import \"api/Beamfile\" as api\nbeam all { needs [api:x] run \"echo\" }",
            ),
            (
                "/p/api/Beamfile",
                "beam x { needs [y] run \"x\" }\nbeam y { needs [x] run \"y\" }",
            ),
        ],
        "/p/Beamfile",
    );
    assert!(err.error.message.contains("api:x → api:y → api:x"));
    assert_eq!(err.error.source_id, SourceId(1));
}

#[test]
fn unknown_need_in_imported_file_reports_its_own_source_id() {
    let err = failure(
        &[
            (
                "/p/Beamfile",
                "import \"api/Beamfile\" as api\nbeam all { needs [api:build] run \"echo\" }",
            ),
            (
                "/p/api/Beamfile",
                "beam build { needs [tset] run \"x\" }\nbeam test { run \"y\" }",
            ),
        ],
        "/p/Beamfile",
    );
    assert!(err.error.message.contains("unknown beam `api:tset`"));
    assert_eq!(err.error.help.as_deref(), Some("did you mean `api:test`?"));
    assert_eq!(err.error.source_id, SourceId(1));
}

fn dir_for(path: &str) -> String {
    beam_dir_for(path, &Ok("/work".to_string()), Span::new(0, 0)).unwrap()
}

#[test]
fn beam_dir_for_bare_filename_is_absolute_and_non_empty() {
    let dir = dir_for("Beamfile");
    assert!(dir.starts_with('/'));
    assert!(!dir.is_empty());
    assert_eq!(dir, "/work");
}

#[test]
fn beam_dir_for_relative_path_is_absolute() {
    let dir = dir_for("sub/Beamfile");
    assert!(dir.starts_with('/'));
    assert!(dir.ends_with("sub"));
    assert_eq!(dir, "/work/sub");
}

#[test]
fn beam_dir_for_absolute_path_has_no_verbatim_prefix() {
    let dir = dir_for("/projects/x/Beamfile");
    assert!(dir.starts_with('/'));
    assert!(!dir.starts_with(r"\\?\"));
    assert_eq!(dir, "/projects/x");
}

#[test]
fn beam_dir_for_root_level_file_is_still_a_valid_directory() {
    let dir = dir_for("/Beamfile");
    assert!(std::path::Path::new(&dir).is_absolute());
    assert!(!dir.is_empty());
    assert!(!dir.starts_with(r"\\?\"));
    assert_eq!(dir, "/");
}

#[test]
fn a_relative_path_without_a_current_directory_has_no_beam_dir() {
    let gone = Err("the directory is gone".to_string());
    let err = beam_dir_for("sub/Beamfile", &gone, Span::new(3, 7)).unwrap_err();
    assert_eq!(
        err.message,
        "cannot resolve an absolute path for `sub/Beamfile`: the directory is gone"
    );
    assert_eq!(err.span, Some(Span::new(3, 7)));
    assert_eq!(beam_dir_for("/a/Beamfile", &gone, Span::new(0, 0)).unwrap(), "/a");
}

#[test]
fn source_map_lists_every_loaded_file_in_load_order() {
    let (_, sources) = load_files(
        &[
            (
                "/p/Beamfile",
                "import \"api/Beamfile\" as api\nbeam build { run \"echo root\" }\n",
            ),
            ("/p/api/Beamfile", "beam build { run \"echo api\" }\n"),
        ],
        "/p/Beamfile",
    )
    .ok()
    .unwrap();
    let paths = sources.paths();
    assert_eq!(paths.len(), 2);
    assert!(paths[0].ends_with("Beamfile"));
    assert!(paths[1].ends_with("api/Beamfile"));
}

#[test]
fn imports_namespace_beams_and_resolve_local_needs() {
    let (project, _) = load_files(
        &[
            (
                "/p/Beamfile",
                "import \"api/Beamfile\" as api\nbeam all { needs [api:test] run \"echo ok\" }",
            ),
            (
                "/p/api/Beamfile",
                "beam build { run \"echo b\" }\nbeam test { needs [build] run \"echo t\" }",
            ),
        ],
        "/p/Beamfile",
    )
    .ok()
    .unwrap();
    let ids = ids(&project);
    assert!(ids.contains(&"api:build") && ids.contains(&"api:test") && ids.contains(&"all"));
    assert_eq!(find(&project, "api:test").needs[0].value.0, "api:build");
}

#[test]
fn import_cycle_is_reported_with_chain() {
    let err = failure(
        &[
            (
                "/p/a/Beamfile",
                "import \"../b/Beamfile\" as b\nbeam x { needs [b:y] run \"echo a\" }",
            ),
            (
                "/p/b/Beamfile",
                "import \"../a/Beamfile\" as a\nbeam y { needs [a:x] run \"echo b\" }",
            ),
        ],
        "/p/a/Beamfile",
    );
    assert!(err.error.message.contains("import cycle"));
    assert_eq!(err.error.message.matches("Beamfile").count(), 3);
    assert_eq!(err.error.message.matches(" -> ").count(), 2);
}

#[test]
fn imported_default_is_ignored() {
    let (project, _) = load_files(
        &[
            ("/p/Beamfile", "import \"api/Beamfile\" as api\nbeam all { run \"echo ok\" }"),
            ("/p/api/Beamfile", "default build\nbeam build { run \"echo b\" }"),
        ],
        "/p/Beamfile",
    )
    .ok()
    .unwrap();
    assert!(project.default.is_none());
}

#[test]
fn root_default_is_kept() {
    let (project, _) = load_files(
        &[("/p/Beamfile", "default all\nbeam all { run \"echo ok\" }")],
        "/p/Beamfile",
    )
    .ok()
    .unwrap();
    assert_eq!(project.default.as_ref().map(|d| d.value.0.as_str()), Some("all"));
}

#[test]
fn nested_imports_join_namespaces_with_colon() {
    let (project, _) = load_files(
        &[
            (
                "/p/Beamfile",
                "import \"api/Beamfile\" as api\n\
                 beam all { needs [api:build, api:db:migrate] run \"echo ok\" }",
            ),
            (
                "/p/api/Beamfile",
                "import \"db/Beamfile\" as db\nbeam build { needs [db:migrate] run \"echo b\" }",
            ),
            ("/p/api/db/Beamfile", "beam migrate { run \"echo m\" }"),
        ],
        "/p/Beamfile",
    )
    .ok()
    .unwrap();
    assert!(ids(&project).contains(&"api:db:migrate"));
    assert_eq!(find(&project, "api:build").needs[0].value.0, "api:db:migrate");
    let needs: Vec<&str> =
        find(&project, "all").needs.iter().map(|n| n.value.0.as_str()).collect();
    assert_eq!(needs, ["api:build", "api:db:migrate"]);
}

#[test]
fn a_file_imported_from_two_sites_is_loaded_once() {
    let (project, sources) = load_files(
        &[
            (
                "/p/Beamfile",
                "import \"left/Beamfile\" as l\nimport \"right/Beamfile\" as r\n\
                 beam all { needs [l:x, r:x] run \"echo ok\" }",
            ),
            (
                "/p/left/Beamfile",
                "import \"../shared/Beamfile\" as s\nbeam x { needs [s:base] run \"echo l\" }",
            ),
            (
                "/p/right/Beamfile",
                "import \"../shared/Beamfile\" as s\nbeam x { needs [s:base] run \"echo r\" }",
            ),
            ("/p/shared/Beamfile", "beam base { run \"echo s\" }"),
        ],
        "/p/Beamfile",
    )
    .ok()
    .unwrap();
    let mut ids = ids(&project);
    ids.sort_unstable();
    assert_eq!(ids, ["all", "l:s:base", "l:x", "r:s:base", "r:x"]);
    assert!(sources.get(SourceId(3)).is_some(), "four distinct files were read");
    assert!(
        sources.get(SourceId(4)).is_none(),
        "`shared/Beamfile` must be read once, not once per import site"
    );
}

#[test]
fn both_copies_of_a_shared_import_keep_their_own_namespace() {
    let (project, _) = load_files(
        &[
            (
                "/p/Beamfile",
                "import \"shared/Beamfile\" as a\nimport \"shared/Beamfile\" as b\n\
                 beam all { needs [a:base, b:base] run \"echo ok\" }",
            ),
            ("/p/shared/Beamfile", "beam base { run \"echo s\" }"),
        ],
        "/p/Beamfile",
    )
    .ok()
    .unwrap();
    let shared: Vec<&Beam> =
        project.beams.iter().filter(|beam| beam.id.0.ends_with(":base")).collect();
    let ids: Vec<&str> = shared.iter().map(|beam| beam.id.0.as_str()).collect();
    assert_eq!(ids, ["a:base", "b:base"]);
    assert_eq!(shared[0].source, shared[1].source);
}

#[test]
fn duplicate_import_alias_is_an_error() {
    let err = failure(
        &[
            (
                "/p/Beamfile",
                "import \"a/Beamfile\" as x\nimport \"b/Beamfile\" as x\nbeam all { run \"echo ok\" }",
            ),
            ("/p/a/Beamfile", "beam one { run \"echo 1\" }"),
            ("/p/b/Beamfile", "beam two { run \"echo 2\" }"),
        ],
        "/p/Beamfile",
    );
    assert!(err.error.message.contains("duplicate import alias"));
}

#[test]
fn missing_import_reports_span_and_importing_source_id() {
    let err = failure(
        &[("/p/Beamfile", "import \"missing/Beamfile\" as m\nbeam all { run \"echo ok\" }")],
        "/p/Beamfile",
    );
    assert_eq!(err.error.source_id, SourceId(0));
    assert!(err.error.span.expect("the import path has a span").start > 0);
    assert!(err.sources.get(err.error.source_id).is_some());
}

#[test]
fn a_root_that_cannot_be_read_fails_with_no_sources() {
    let err = failure(&[], "/p/Beamfile");
    assert_eq!(
        err.error.message,
        "cannot read Beamfile `/p/Beamfile`: No such file or directory"
    );
    assert!(err.sources.get(SourceId(0)).is_none());
}

#[test]
fn beam_dir_is_its_defining_files_directory() {
    let (project, _) = load_files(
        &[
            ("/p/Beamfile", "import \"api/Beamfile\" as api\nbeam all { run \"echo ok\" }"),
            ("/p/api/Beamfile", "beam build { run \"echo b\" }"),
        ],
        "/p/Beamfile",
    )
    .ok()
    .unwrap();
    assert_eq!(find(&project, "api:build").dir, "/p/api");
    assert_eq!(find(&project, "all").dir, "/p");
}

#[test]
fn nested_relative_imports_avoid_verbatim_windows_paths() {
    let (project, _) = load_files(
        &[
            ("/p/Beamfile", "import \"a/b/Beamfile\" as ab\nbeam all { run \"echo ok\" }"),
            (
                "/p/a/b/Beamfile",
                "import \"../../back/Beamfile\" as back\nbeam here { run \"echo h\" }",
            ),
            ("/p/back/Beamfile", "beam there { run \"echo t\" }"),
        ],
        "/p/Beamfile",
    )
    .ok()
    .unwrap();
    let ids = ids(&project);
    assert!(ids.contains(&"ab:here") && ids.contains(&"ab:back:there"));
    for beam in &project.beams {
        assert!(!beam.dir.starts_with(r"\\?\"), "got {}", beam.dir);
    }
}

#[test]
fn source_map_tracks_path_and_text_per_source_id() {
    let root_src = "import \"api/Beamfile\" as api\nbeam all { run \"echo ok\" }";
    let api_src = "beam build { run \"echo b\" }";
    let (project, sources) =
        load_files(&[("/p/Beamfile", root_src), ("/p/api/Beamfile", api_src)], "/p/Beamfile")
            .ok()
            .unwrap();
    let (_, text) = sources.get(find(&project, "api:build").source).unwrap();
    assert_eq!(text, api_src);
    let (path, text) = sources.get(find(&project, "all").source).unwrap();
    assert_eq!(text, root_src);
    assert!(path.ends_with("Beamfile"));
}

#[test]
fn git_fields_evaluate_from_the_repository_holding_the_beamfile() {
    let src = "let tag = git.branch + \"-\" + git.short_sha\n\
         beam b { description \"{tag} {if git.dirty then 'dirty' else 'clean'}\" run \"echo {git.sha}\" }";
    let (loaded, asked) = load_files_with_git(&[("/p/Beamfile", src)], "/p/Beamfile", Ok(head()));
    let (project, _) = loaded.ok().unwrap();
    let description = project.beams[0].description.as_deref().unwrap();
    assert!(description.starts_with("main-"), "{description}");
    assert!(description.ends_with(" dirty"), "{description}");
    let sha = &commands(&project, &no_env())[0];
    assert_eq!(sha.len(), "echo ".len() + 40, "{sha}");
    assert_eq!(asked, 1);
}

#[test]
fn git_is_only_spawned_when_an_expression_reads_it() {
    let (loaded, asked) = load_files_with_git(
        &[("/p/Beamfile", "beam b { run \"echo plain\" }")],
        "/p/Beamfile",
        Err(GitError("not a repository".to_string())),
    );
    assert!(loaded.is_ok());
    assert_eq!(asked, 0);
}

#[test]
fn reading_git_outside_a_repository_points_at_the_expression() {
    let source = "let b = git.branch";
    let err =
        failure(&[("/p/Beamfile", "let b = git.branch\nbeam x { run \"echo\" }")], "/p/Beamfile");
    assert!(err.error.message.contains("cannot read `git.branch`"), "{}", err.error.message);
    let span = err.error.span.unwrap();
    assert_eq!(&source[span.start..span.end], "git.branch");
}

#[test]
fn an_unknown_git_field_is_rejected_without_spawning_git() {
    let err =
        failure(&[("/p/Beamfile", "let b = git.tag\nbeam x { run \"echo\" }")], "/p/Beamfile");
    assert!(err.error.message.contains("unknown git field `tag`"), "{}", err.error.message);
    assert!(err.error.help.as_deref().unwrap().contains("short_sha"));
}

#[test]
fn only_git_has_fields() {
    let err = failure(
        &[("/p/Beamfile", "let a = \"x\"\nlet b = a.len\nbeam x { run \"echo\" }")],
        "/p/Beamfile",
    );
    assert!(err.error.message.contains("`a` has no fields"), "{}", err.error.message);
}

#[test]
fn git_dirty_is_a_boolean_usable_in_a_condition() {
    let src = "let flag = git.dirty == true\nbeam x { run \"echo {flag}\" }";
    let (loaded, _) = load_files_with_git(&[("/p/Beamfile", src)], "/p/Beamfile", Ok(head()));
    let (project, _) = loaded.ok().unwrap();
    assert_eq!(commands(&project, &no_env())[0], "echo true");
}

const BEAMFILE: &str = r#"
import "api/Beamfile" as api
beam codegen { inputs ["schema/**"] run "gen" }
beam build { needs [codegen] inputs ["src/**/*.rs"] run "build" }
beam test { needs [build] run "test" }
beam docs { inputs ["docs/**"] run "docs" }
beam deploy(target) { inputs ["deploy/**"] run "deploy {target}" }
beam free { run "free" }
"#;

const API_BEAMFILE: &str = r#"
beam lint { inputs ["**/*.rs"] run "lint" }
"#;

fn repository() -> (Project, SourceMap) {
    load_files(&[("/r/Beamfile", BEAMFILE), ("/r/api/Beamfile", API_BEAMFILE)], "/r/Beamfile")
        .ok()
        .unwrap()
}

fn here() -> Result<String, String> {
    Ok("/r".to_string())
}

fn names(ids: &[BeamId]) -> Vec<&str> {
    ids.iter().map(|id| id.0.as_str()).collect()
}

fn affected_after(touch: &[&str]) -> Vec<BeamId> {
    let (project, sources) = repository();
    affected(&project, &sources, &here(), "/r", Ok(strings(touch))).unwrap()
}

#[test]
fn a_changed_input_affects_its_beam_and_every_dependent() {
    assert_eq!(names(&affected_after(&["schema/a.json"])), ["codegen", "build", "test"]);
}

#[test]
fn a_beam_without_inputs_is_never_directly_affected() {
    assert!(affected_after(&[]).is_empty());
    assert_eq!(names(&affected_after(&["src/lib.rs"])), ["build", "test"]);
}

#[test]
fn a_deleted_input_counts_as_changed() {
    assert_eq!(names(&affected_after(&["docs/index.md"])), ["docs"]);
}

#[test]
fn an_imported_beam_matches_paths_under_its_own_directory() {
    assert_eq!(names(&affected_after(&["api/src/lib.rs"])), ["api:lint"]);
    assert!(!names(&affected_after(&["src/lib.rs"])).contains(&"api:lint"));
}

#[test]
fn a_changed_beamfile_affects_every_beam_it_declares() {
    assert_eq!(names(&affected_after(&["api/Beamfile"])), ["api:lint"]);
    assert_eq!(
        names(&affected_after(&["Beamfile"])),
        ["codegen", "build", "test", "docs", "deploy", "free"]
    );
}

#[test]
fn select_within_a_beam_is_that_beam_or_nothing() {
    let (project, sources) = repository();
    let changed = || Ok(strings(&["schema/a.json"]));
    let within = |beam: &str| Selection::Affected {
        reference: "HEAD".to_string(),
        within: Some(id(beam)),
    };
    let targets =
        select(&project, &sources, &here(), "/r", &within("test"), changed()).unwrap();
    assert_eq!(names(&targets.beams), ["test"]);
    assert_eq!(targets.affected_by.as_deref(), Some("HEAD"));
    let targets =
        select(&project, &sources, &here(), "/r", &within("docs"), changed()).unwrap();
    assert!(targets.beams.is_empty());
    assert!(select(&project, &sources, &here(), "/r", &within("nope"), changed()).is_err());
}

#[test]
fn select_without_a_beam_targets_every_affected_beam_but_parameterized_ones() {
    let (project, sources) = repository();
    let changed = || Ok(strings(&["deploy/x", "docs/index.md"]));
    let selection = Selection::Affected { reference: "HEAD".to_string(), within: None };
    let targets = select(&project, &sources, &here(), "/r", &selection, changed()).unwrap();
    assert_eq!(names(&targets.beams), ["docs"]);
    assert_eq!(
        names(&affected(&project, &sources, &here(), "/r", changed()).unwrap()),
        ["docs", "deploy"]
    );
}

#[test]
fn select_a_plain_beam_is_the_old_behaviour() {
    let (project, sources) = repository();
    let unasked = || Err(GitError("git was asked".to_string()));
    let targets = select(
        &project,
        &sources,
        &here(),
        "/r",
        &Selection::Beam(id("free")),
        unasked(),
    )
    .unwrap();
    assert_eq!(names(&targets.beams), ["free"]);
    assert!(targets.affected_by.is_none());
    assert!(select(
        &project,
        &sources,
        &here(),
        "/r",
        &Selection::Beam(id("nope")),
        unasked()
    )
    .is_err());
}

#[test]
fn an_unknown_reference_is_reported_as_a_git_error() {
    let (project, sources) = repository();
    let failed = || Err(GitError("git diff no-such-ref failed: bad revision".to_string()));
    let err = affected(&project, &sources, &here(), "/r", failed()).unwrap_err();
    assert!(err.0.contains("no-such-ref"), "{}", err.0);
    let selection = Selection::Affected { reference: "no-such-ref".to_string(), within: None };
    assert!(matches!(
        select(&project, &sources, &here(), "/r", &selection, failed()),
        Err(SelectError::Git(_))
    ));
}

#[test]
fn affected_selection_stays_imperceptible() {
    let mut source = String::new();
    for i in 0..300 {
        let needs = if i == 0 { String::new() } else { format!("needs [b{}] ", i - 1) };
        source.push_str(&format!("beam b{i} {{ {needs}inputs [\"src/m{i}/**\"] run \"x\" }}\n"));
    }
    let (project, sources) =
        load_files(&[("/r/Beamfile", source.as_str())], "/r/Beamfile").ok().unwrap();
    let changed: Vec<String> =
        (0..2000).map(|i| format!("/r/src/m{}/f{i}.rs", i % 300)).collect();
    let mut samples: Vec<Duration> = (0..15)
        .map(|_| {
            let start = Instant::now();
            let affected = affected_beams(&project, &sources, &here(), &changed);
            assert_eq!(affected.len(), 300);
            start.elapsed()
        })
        .collect();
    samples.sort();
    let median = samples[samples.len() / 2];
    assert!(median < Duration::from_millis(50), "median {median:?}");
}

#[test]
fn affected_beams_are_listed_with_a_mark_for_parameters() {
    let (project, _) = repository();
    let ids = affected_after(&["deploy/x", "docs/index.md"]);
    assert_eq!(affected_listing(&project, &ids), ["docs", "deploy (takes parameters)"]);
    assert_eq!(affected_json(&ids), "{\"beams\":[\"docs\",\"deploy\"]}");
    assert_eq!(affected_json(&Vec::new()), "{\"beams\":[]}");
}

fn watched() -> WatchSet {
    let src = "beam build { inputs [\"src/**/*.rs\"] run \"echo build\" }\n\
               beam free { run \"echo free\" }\n";
    let (project, sources) = load_files(&[("/w/Beamfile", src)], "/w/Beamfile").ok().unwrap();
    let forms = NormalForms { forms: Vec::new() };
    let set = WatchSet::new(&project, Some(&id("build")), &sources, &forms).ok().unwrap();
    set.expanded(0, &strings(&["/w/src/lib.rs"]))
}

/// What a path means, the group's patterns now expanding to `files`.
fn classified(set: WatchSet, path: &str, files: &[&str]) -> Relevance {
    match set.classify(path, 0) {
        Relevance::Expand(place) => {
            set.expanded(place, &strings(files)).classify_expanded(path, place)
        }
        known => known,
    }
}

#[test]
fn a_loaded_beamfile_classifies_as_beamfile() {
    assert!(matches!(watched().classify("/w/Beamfile", 0), Relevance::Beamfile));
}

#[test]
fn a_matching_source_file_classifies_as_input() {
    assert!(matches!(watched().classify("/w/src/lib.rs", 0), Relevance::Input));
}

#[test]
fn a_gitignored_file_never_triggers() {
    for gitignored in ["/w/target/gen.rs", "/w/src/generated/gen.rs"] {
        assert!(matches!(
            classified(watched(), gitignored, &["/w/src/lib.rs"]),
            Relevance::Irrelevant
        ));
    }
}

#[test]
fn an_unrelated_file_never_triggers() {
    assert!(matches!(watched().classify("/w/README.md", 0), Relevance::Irrelevant));
}

#[test]
fn a_file_created_after_startup_classifies_as_input() {
    assert!(matches!(
        classified(watched(), "/w/src/new.rs", &["/w/src/lib.rs", "/w/src/new.rs"]),
        Relevance::Input
    ));
}

#[test]
fn a_deleted_watched_file_classifies_as_input() {
    assert!(matches!(classified(watched(), "/w/src/lib.rs", &[]), Relevance::Input));
}

#[test]
fn alba_and_git_directories_are_excluded_outright() {
    for special in ["/w/.alba/cache/build.json", "/w/.git/index"] {
        assert!(matches!(watched().classify(special, 0), Relevance::Irrelevant));
    }
}

#[test]
fn file_count_counts_the_resolved_inputs() {
    assert_eq!(watched().file_count(), 1);
}

#[test]
fn an_unknown_target_is_a_core_error() {
    let (project, sources) =
        load_files(&[("/w/Beamfile", "beam a { run \"echo a\" }\n")], "/w/Beamfile").ok().unwrap();
    let forms = NormalForms { forms: Vec::new() };
    assert!(WatchSet::new(&project, Some(&id("missing")), &sources, &forms).is_err());
}

#[test]
fn a_subgraph_without_inputs_is_warned_about() {
    let project = load("beam build { run \"x\" }").unwrap();
    let warning = no_inputs_warning(&project, &id("build"), &vec![id("build")]);
    let warning = warning.expect("a graph with no inputs must be warned about");
    assert!(warning.contains("build"), "got: {warning}");
    assert_eq!(
        warning,
        "warning: no beam in `build`'s graph declares inputs; watching the Beamfile only"
    );
}

#[test]
fn inputs_on_a_dependency_are_enough_to_stay_silent() {
    let project =
        load("beam build { run \"x\" }\nbeam compile { inputs [\"src/**\"] run \"x\" }").unwrap();
    assert_eq!(
        no_inputs_warning(&project, &id("build"), &vec![id("build"), id("compile")]),
        None
    );
}

#[test]
fn inputs_outside_the_subgraph_do_not_count() {
    let project =
        load("beam build { run \"x\" }\nbeam docs { inputs [\"docs/**\"] run \"x\" }").unwrap();
    assert!(no_inputs_warning(&project, &id("build"), &vec![id("build")]).is_some());
}

fn unschedulable(src: &str, target: &str, params: &[&str], plugins: &[&str]) -> String {
    let project = load(src).unwrap();
    match plan(&project, &id(target), &strings(params), &strings(plugins)) {
        Err(EngineError::Unschedulable(message)) => message,
        other => panic!("got {other:?}"),
    }
}

#[test]
fn docker_executor_is_rejected() {
    let message = unschedulable(
        "beam ship { executor docker { image \"x\" } run \"echo hi\" }",
        "ship",
        &[],
        &[],
    );
    assert!(message.contains("not yet supported"));
}

#[test]
fn parameter_count_must_match_the_target() {
    let no_params = r#"beam build { run "step build" }"#;
    let one_param = r#"beam deploy(target) { run "deploy {target}" }"#;
    let mut world = World::new(&[]);
    world.params = strings(&["extra"]);
    assert_eq!(
        world.refused(no_params, "build").error.message(),
        "beam `build` takes no parameters, got 1"
    );
    assert_eq!(
        World::new(&[]).refused(one_param, "deploy").error.message(),
        "beam `deploy` expects 1 parameter (`target`), got 0"
    );
    let two = "beam two(a, b) { run \"x\" }";
    assert_eq!(
        unschedulable(two, "two", &["x"], &[]),
        "beam `two` expects 2 parameters (`a`, `b`), got 1"
    );
}

#[test]
fn only_the_target_beam_may_declare_parameters() {
    let src = r#"
beam helper(name) { run "help {name}" }
beam build { needs [helper] run "step build" }
"#;
    let mut world = World::new(&[]);
    world.jobs = 2;
    let refused = world.refused(src, "build");
    assert_eq!(
        refused.error.message(),
        "beam `helper` declares parameters, but only the target beam can be given any"
    );
    assert!(refused.executed.is_empty());
}

#[test]
fn a_missing_plugin_is_a_clean_plan_time_error() {
    let src = "beam ghost { executor nosuchthing run \"echo nope\" }";
    let message = unschedulable(src, "ghost", &[], &[]);
    assert!(
        message.contains("neither a built-in executor nor `alba-executor-nosuchthing`"),
        "{message}"
    );
    let project = load(src).unwrap();
    assert_eq!(
        plan(&project, &id("ghost"), &Vec::new(), &strings(&["nosuchthing"])),
        Ok(vec![0])
    );
}

#[test]
fn unknown_beam_suggests_closest() {
    let project = load("beam build { run \"echo ok\" }").unwrap();
    match plan(&project, &id("biuld"), &Vec::new(), &Vec::new()) {
        Err(EngineError::Core(error)) => {
            assert_eq!(error.help.as_deref(), Some("did you mean `build`?"));
        }
        other => panic!("got {other:?}"),
    }
}

#[test]
fn a_plan_holds_what_the_target_needs_in_project_order() {
    let project = load(
        "beam z { run \"x\" }\nbeam b { needs [a] run \"x\" }\nbeam a { run \"x\" }\n\
         beam c { needs [b, a] run \"x\" }",
    )
    .unwrap();
    let places = plan(&project, &id("c"), &Vec::new(), &Vec::new()).unwrap();
    assert_eq!(places, vec![1, 2, 3]);
    let event = run_started(&project, &id("c"), &places);
    assert_eq!(
        alba::json::json_line(&event),
        "{\"event\":\"run_started\",\"target\":\"c\",\"beams\":[\"b\",\"a\",\"c\"],\
         \"edges\":[[\"b\",\"a\"],[\"c\",\"b\"],[\"c\",\"a\"]]}"
    );
}

#[test]
fn beam_params_are_interpolated() {
    let project = load("beam greet(name) { run \"echo hello {name}\" }").unwrap();
    let args = args_for(&id("greet"), &id("greet"), &strings(&["world"]));
    let rendered = render(&project.beams[0], &args, &no_env()).unwrap();
    assert_eq!(rendered.commands, ["echo hello world"]);
    assert!(args_for(&id("other"), &id("greet"), &strings(&["world"])).is_empty());
}

#[test]
fn target_parameters_are_bound_into_commands_and_env() {
    let src = r#"
beam deploy(target) {
  env { DEPLOY_TARGET = target }
  run "deploy {target}"
}
"#;
    let mut world = World::new(&[]);
    world.jobs = 2;
    world.params = strings(&["staging"]);
    let outcome = world.run(src, "deploy");
    assert_eq!(names(&outcome.summary.succeeded), ["deploy"]);
    assert_eq!(outcome.executed[0], "deploy staging");
    assert_eq!(
        outcome.environments[0],
        [("DEPLOY_TARGET".to_string(), "staging".to_string())]
    );
}

#[test]
fn a_directory_is_taken_from_the_beamfile_s() {
    let project = load(
        "beam deploy(target) { cwd \"sub\" env { TARGET \"to-{target}\" } run \"echo {target}\" }",
    )
    .unwrap();
    let rendered = render(&project.beams[0], &strings(&["staging"]), &no_env()).unwrap();
    assert_eq!(rendered.commands, ["echo staging"]);
    assert_eq!(rendered.env, [("TARGET".to_string(), "to-staging".to_string())]);
    assert!(rendered.cwd.ends_with("sub"), "{}", rendered.cwd);
    let extra = vec![("FORCE_COLOR".to_string(), "1".to_string())];
    assert_eq!(
        command_env(&extra, &rendered),
        [
            ("FORCE_COLOR".to_string(), "1".to_string()),
            ("TARGET".to_string(), "to-staging".to_string())
        ]
    );
}

#[test]
fn an_unset_variable_fails_the_beam_that_reads_it() {
    let project = load("beam d { run \"curl {env('ALBA_PROBE')}\" }").unwrap();
    let err = render(&project.beams[0], &Vec::new(), &no_env()).unwrap_err();
    assert!(err.message.contains("ALBA_PROBE"), "{}", err.message);
    let rendered = render(&project.beams[0], &Vec::new(), &env("ALBA_PROBE", "x")).unwrap();
    assert_eq!(rendered.commands, ["curl x"]);
}

#[test]
fn bare_alba_lists_beams_without_default() {
    let project = load(
        "beam test { description \"Run the test suite\" run \"echo ok\" }\n\
         beam build { description \"Compile the workspace\" run \"echo ok\" }\n",
    )
    .unwrap();
    let lines = list(&project, false);
    assert_eq!(lines, ["build    Compile the workspace", "test    Run the test suite"]);
    let stdout = lines.join("\n");
    assert!(stdout.contains("build"));
    assert!(stdout.contains("Compile the workspace"));
    assert!(stdout.contains("test"));
    assert!(stdout.contains("Run the test suite"));
    assert!(stdout.find("build").unwrap() < stdout.find("test").unwrap());
}

#[test]
fn bare_alba_shows_placeholder_for_missing_description() {
    let project = load("beam build { run \"echo ok\" }").unwrap();
    assert_eq!(list(&project, false), ["build    (no description)"]);
    assert_eq!(list(&project, true), ["build    \u{1b}[2m(no description)\u{1b}[0m"]);
}

#[test]
fn check_reports_success() {
    let project = load("beam build { run \"echo ok\" }").unwrap();
    let report = check_report(&project, &Vec::new(), &Ok(None));
    assert_eq!(report.prints, [Print::Stdout("\u{2713} Beamfile: 1 beam".to_string())]);
    assert_eq!(report.code, 0);
    let two = load("beam a { run \"x\" }\nbeam b { run \"x\" }").unwrap();
    assert_eq!(
        check_report(&two, &Vec::new(), &Ok(None)).prints,
        [Print::Stdout("\u{2713} Beamfile: 2 beams".to_string())]
    );
}

#[test]
fn a_check_names_each_command_that_the_shell_cannot_read() {
    let project = load("beam a { run \"if\" }").unwrap();
    let report =
        check_report(
            &project,
            &vec![("a".to_string(), "line one\nline two\n".to_string())],
            &Ok(None),
        );
    assert_eq!(report.code, 2);
    assert_eq!(
        report.prints,
        [
            Print::Stderr("beam `a`: invalid embedded shell command".to_string()),
            Print::Stderr("line one".to_string()),
            Print::Stderr("line two".to_string()),
        ]
    );
}

#[test]
fn only_what_the_embedded_shell_runs_without_arguments_is_checked() {
    let project = load(
        "beam plain { run [\"one\", \"two {env('UNSET')}\", \"three\"] }\n\
         beam params(x) { run \"echo {x}\" }\n\
         beam host { executor system_shell run \"host\" }\n\
         beam plugged { executor podman run \"plugged\" }",
    )
    .unwrap();
    let found = embedded_commands(&project, &no_env());
    assert_eq!(
        found,
        [
            ("plain".to_string(), "one".to_string()),
            ("plain".to_string(), "three".to_string()),
        ]
    );
}

#[test]
fn a_run_knows_what_its_beams_need_by_their_places_in_it() {
    let project = load(
        r#"beam other { run "true" }
           beam a { run "true" }
           beam b { needs [a] run "true" }
           beam c { needs [b, a] run "true" }"#,
    )
    .unwrap();
    let places = plan(&project, &id("c"), &Vec::new(), &Vec::new()).unwrap();
    assert_eq!(places, vec![1, 2, 3]);
    assert_eq!(run_needs(&project, &places), vec![vec![], vec![0], vec![1, 0]]);
}

#[test]
fn a_prepared_beam_has_its_commands_or_why_it_has_none() {
    let project = load(
        r#"beam good(x) { run ["echo {x}", "true"] allow_failure true }
           beam bad { run "echo {env("ALBA_UNSET")}" }"#,
    )
    .unwrap();
    let (task, rendered) = prepare(find(&project, "good"), &strings(&["hi"]), true, &no_env());
    assert_eq!(task.commands, Ok(2));
    assert!(task.allow_failure && task.keep_going);
    assert_eq!(rendered.unwrap().commands, ["echo hi", "true"]);
    let (other, _) = prepare(find(&project, "good"), &strings(&["ho"]), true, &no_env());
    assert!(task.static_contribution.is_some());
    assert_ne!(task.static_contribution, other.static_contribution);

    let (task, rendered) = prepare(find(&project, "bad"), &Vec::new(), false, &no_env());
    assert!(task.commands.unwrap_err().contains("ALBA_UNSET"));
    assert_eq!(task.static_contribution, None);
    assert!(rendered.is_none());
}

#[test]
fn a_session_warns_where_there_is_nothing_to_watch() {
    let project = load(
        r#"beam quiet { run "true" }
           beam base { inputs ["src/**"] run "true" }
           beam top { needs [base] run "true" }"#,
    )
    .unwrap();
    assert_eq!(
        watch_warning(&project, &Selection::Beam(id("quiet"))).as_deref(),
        Some(
            "warning: no beam in `quiet`'s graph declares inputs; watching the Beamfile only"
        ),
    );
    assert_eq!(watch_warning(&project, &Selection::Beam(id("top"))), None);
    assert_eq!(watch_warning(&project, &Selection::Beam(id("absent"))), None);
    let affected = Selection::Affected { reference: "main".to_string(), within: None };
    assert_eq!(watch_warning(&project, &affected), None);
}

#[test]
fn a_scope_holds_what_was_put_last_and_arguments_shadow_it() {
    let scope = Scope::empty()
        .insert("name".to_string(), text("first"))
        .insert("flag".to_string(), Value::Bool(true))
        .insert("name".to_string(), text("second"));
    assert_eq!(scope.get("name"), Some(&text("second")));
    assert_eq!(scope.get("flag"), Some(&Value::Bool(true)));
    assert_eq!(scope.get("absent"), None);

    let inner = scope.with_params(&strings(&["name", "unbound"]), &strings(&["third"]));
    assert_eq!(inner.get("name"), Some(&text("third")));
    assert_eq!(inner.get("unbound"), None);
    assert_eq!(inner.get("flag"), Some(&Value::Bool(true)));

    let with_git = Scope::with_git(Ok(head()));
    assert_eq!(with_git.git(), &Some(Ok(head())));
    assert_eq!(Scope::empty().git(), &None);
}

/// What a command does: it writes, takes its time and exits.
struct Behaviour {
    command: String,
    code: i32,
    delay: u64,
    lines: Vec<OutputLine>,
}

fn behaviour(command: &str, code: i32, delay: u64) -> Behaviour {
    Behaviour { command: command.to_string(), code, delay, lines: Vec::new() }
}

fn talkative(command: &str, lines: &[(Stream, &str)]) -> Behaviour {
    let mut said = behaviour(command, 0, 0);
    for (stream, text) in lines {
        said.lines.push(OutputLine { stream: *stream, text: text.to_string() });
    }
    said
}

/// A directory with files in it, and what was remembered next to them.
struct World {
    files: Vec<(String, String)>,
    unreadable: Vec<String>,
    entries: Vec<(String, String)>,
    behaviours: Vec<Behaviour>,
    remembers: bool,
    force: bool,
    jobs: usize,
    keep_going: bool,
    cancel_at: Option<u64>,
    params: Vec<String>,
}

/// What a run in a world did.
struct Carried {
    events: Vec<RunEvent>,
    executed: Vec<String>,
    /// The variables that each command was given.
    environments: Vec<Vec<(String, String)>>,
    /// The most commands that ran at once.
    peak: usize,
    summary: RunSummary,
}

/// What a run did that ended with an error.
struct Refused {
    events: Vec<RunEvent>,
    executed: Vec<String>,
    error: EngineError,
}

impl Carried {
    fn stderr(&self) -> Vec<&str> {
        self.events
            .iter()
            .filter_map(|event| match event {
                RunEvent::BeamOutput { line, .. } if line.stream == Stream::Stderr => {
                    Some(line.text.as_str())
                }
                _ => None,
            })
            .collect()
    }

    /// The places of the events that `wanted` picks.
    fn places(&self, wanted: impl Fn(&RunEvent) -> bool) -> Vec<usize> {
        (0..self.events.len()).filter(|i| wanted(&self.events[*i])).collect()
    }

    /// What the run would show without colour on a pipe.
    fn shown(&self) -> (String, String) {
        let (mut out, mut err) = (String::new(), String::new());
        let mut renderer = GroupedRenderer::new(false);
        for event in &self.events {
            for print in renderer.handle(event, "0.1s") {
                match print {
                    Print::Clear => {}
                    Print::Stdout(line) => out += &format!("{line}\n"),
                    Print::Stderr(line) => err += &format!("{line}\n"),
                }
            }
        }
        (out, err)
    }
}

impl World {
    fn new(files: &[(&str, &str)]) -> Self {
        World {
            files: files.iter().map(|(a, b)| (a.to_string(), b.to_string())).collect(),
            unreadable: Vec::new(),
            entries: Vec::new(),
            behaviours: Vec::new(),
            remembers: true,
            force: false,
            jobs: 4,
            keep_going: false,
            cancel_at: None,
            params: Vec::new(),
        }
    }

    fn write(&mut self, name: &str, content: &str) {
        self.files.retain(|(known, _)| known != name);
        self.files.push((name.to_string(), content.to_string()));
    }

    fn entry(&self, path: &str) -> Option<&str> {
        self.entries.iter().rev().find(|(known, _)| known == path).map(|(_, text)| text.as_str())
    }

    fn hashed(&self, dir: &str, patterns: &Vec<String>) -> Vec<(String, Result<String, String>)> {
        let walked: Vec<Walked> = self
            .files
            .iter()
            .map(|(name, _)| Walked { path: format!("{dir}/{name}"), is_file: true })
            .collect();
        expand_globs(dir, patterns, &walked)
            .into_iter()
            .map(|(relative, _)| {
                let found = self.files.iter().find(|(name, _)| *name == relative).unwrap();
                let hash = hash_file(if self.unreadable.contains(&relative) {
                    Err("Permission denied".to_string())
                } else {
                    Ok(found.1.clone().into_bytes())
                });
                (relative, hash)
            })
            .collect()
    }

    fn stored(&self, store: &CacheStore, id: &BeamId) -> Option<Manifest> {
        let text = self.entry(&store.entry(id, "json"))?;
        let value: serde_json::Value = serde_json::from_str(text).ok()?;
        let strings = |value: &serde_json::Value| -> Option<Vec<String>> {
            value.as_array()?.iter().map(|item| Some(item.as_str()?.to_string())).collect()
        };
        accept_manifest(Some(Manifest {
            version: value["version"].as_u64()? as u32,
            fingerprint: value["fingerprint"].as_str()?.to_string(),
            outputs: strings(&value["outputs"])?,
            duration_ms: value["duration_ms"].as_u64()?,
        }))
    }

    fn logs(&self, store: &CacheStore, id: &BeamId) -> Vec<OutputLine> {
        let text = self.entry(&store.entry(id, "log")).unwrap_or("");
        restore_logs(
            text.lines()
                .map(|line| {
                    let value: serde_json::Value = serde_json::from_str(line).ok()?;
                    Some(StoredLine {
                        stream: value["stream"].as_str()?.to_string(),
                        text: value["text"].as_str()?.to_string(),
                    })
                })
                .collect(),
        )
    }

    fn outputs_there(&self, dir: &str, patterns: &[String]) -> bool {
        let answers: Vec<bool> = patterns
            .iter()
            .map(|pattern| match output_query(dir, pattern) {
                OutputQuery::Exists(path) => {
                    self.files.iter().any(|(name, _)| format!("{dir}/{name}") == path)
                }
                OutputQuery::AnyMatch(_) => panic!("no globs here"),
            })
            .collect();
        outputs_satisfied(&answers)
    }

    fn run(&mut self, src: &str, target: &str) -> Carried {
        self.run_amended(src, target, |_| {})
    }

    /// Runs a target on a clock of its own: `echo` writes, `exit` fails, what
    /// has a behaviour shows it, and anything else succeeds at once.
    fn run_amended(
        &mut self,
        src: &str,
        target: &str,
        amend: impl FnOnce(&mut Project),
    ) -> Carried {
        match self.carry_out(src, target, amend) {
            Ok(carried) => carried,
            Err(refused) => panic!("{}", refused.error.message()),
        }
    }

    fn refused(&mut self, src: &str, target: &str) -> Refused {
        match self.carry_out(src, target, |_| {}) {
            Ok(_) => panic!("the run was carried out"),
            Err(refused) => refused,
        }
    }

    fn carry_out(
        &mut self,
        src: &str,
        target: &str,
        amend: impl FnOnce(&mut Project),
    ) -> Result<Carried, Refused> {
        let (mut events, mut executed, mut environments) = (Vec::new(), Vec::new(), Vec::new());
        let mut project = load(src).unwrap();
        for beam in &mut project.beams {
            beam.dir = "/w".to_string();
        }
        amend(&mut project);
        let store = CacheStore::new("/w/.alba/cache".to_string());
        let target = id(target);
        let places = match plan(&project, &target, &self.params, &Vec::new()) {
            Ok(places) => places,
            Err(error) => return Err(Refused { events, executed, error }),
        };
        events.push(run_started(&project, &target, &places));
        let (mut tasks, mut plans) = (Vec::new(), Vec::new());
        for place in &places {
            let beam = &project.beams[*place];
            let args = args_for(&beam.id, &target, &self.params);
            let (task, rendered) = prepare(beam, &args, self.keep_going, &no_env());
            tasks.push(task);
            plans.push((args, rendered));
        }
        let mut lines: Vec<Vec<OutputLine>> = places.iter().map(|_| Vec::new()).collect();
        let mut hits: Vec<Option<Manifest>> = places.iter().map(|_| None).collect();
        let mut starts: Vec<Option<u64>> = places.iter().map(|_| None).collect();
        let mut run = Run::new(tasks, run_needs(&project, &places), self.jobs);
        let mut outside: Vec<(u64, usize, Happening)> = Vec::new();
        let (mut now, mut peak) = (0u64, 0usize);
        let mut cancel_at = self.cancel_at;
        loop {
            let (place, what) = match run.next() {
                Some(inside) => inside,
                None if outside.is_empty() => break,
                None => {
                    let running =
                        outside.iter().filter(|o| matches!(o.2, Happening::Exited(_))).count();
                    peak = peak.max(running);
                    let due = outside.iter().map(|o| o.0).min().unwrap();
                    if cancel_at.is_some_and(|at| at < due) {
                        now = cancel_at.take().unwrap();
                        run.cancel();
                        for (due, _, what) in &mut outside {
                            *due = now;
                            if let Happening::Exited(code) = what {
                                *code = Ok(143);
                            }
                        }
                        continue;
                    }
                    now = due;
                    let first = outside.iter().position(|o| o.0 == due).unwrap();
                    let (_, place, what) = outside.remove(first);
                    assert!(run.awaits(place, &what));
                    (place, what)
                }
            };
            let beam = &project.beams[places[place]];
            for effect in run.deliver(place, what) {
                let status = match &effect {
                    Effect::Finished(status) => *status,
                    _ => BeamStatus::Succeeded,
                };
                let elapsed = starts[place].map(|at| now - at);
                let duration = reported_duration(status, &hits[place], elapsed);
                if let Some(event) = announce(&beam.id, &effect, duration) {
                    if let RunEvent::BeamOutput { line, .. } = &event {
                        lines[place].push(line.clone());
                    }
                    events.push(event);
                }
                match effect {
                    Effect::Started => starts[place] = Some(now),
                    Effect::Assess => {
                        let facts = cacheable_beam(
                            beam,
                            &plans[place].1,
                            &plans[place].0,
                            &run.contributions(place),
                            self.remembers,
                            self.force,
                        );
                        let (assessment, notice) = match facts {
                            Some(facts) => facts.decide(
                                &self.hashed(&beam.dir, &beam.inputs),
                                self.stored(&store, &beam.id),
                                self.outputs_there(&beam.dir, &beam.outputs),
                            ),
                            None => (None, None),
                        };
                        hits[place] = assessment
                            .as_ref()
                            .and_then(|found| found.hit.as_ref())
                            .and_then(|_| self.stored(&store, &beam.id));
                        outside.push((now, place, Happening::Assessed { assessment, notice }));
                    }
                    Effect::Replay => {
                        events.extend(output_events(
                            &beam.id,
                            &self.logs(&store, &beam.id),
                            true,
                        ));
                    }
                    Effect::Run(command) => {
                        let rendered = plans[place].1.as_ref().unwrap();
                        let text = rendered.commands[command].clone();
                        environments.push(command_env(&Vec::new(), rendered));
                        let (mut code, mut delay, mut said) = (0, 0, Vec::new());
                        if let Some(known) =
                            self.behaviours.iter().find(|b| text.contains(&b.command))
                        {
                            (code, delay, said) = (known.code, known.delay, known.lines.clone());
                        } else if let Some(word) = text.strip_prefix("echo ") {
                            said = vec![OutputLine {
                                stream: Stream::Stdout,
                                text: word.to_string(),
                            }];
                        } else if let Some(number) = text.strip_prefix("exit ") {
                            code = number.parse().unwrap();
                        }
                        events.extend(output_events(&beam.id, &said, false));
                        lines[place].extend(said);
                        executed.push(text);
                        outside.push((now + delay, place, Happening::Exited(Ok(code))));
                    }
                    Effect::Remember(fingerprint) => {
                        let manifest = remember(beam, fingerprint, duration);
                        self.entries.push((store.entry(&beam.id, "log"), log_text(&lines[place])));
                        self.entries
                            .push((store.entry(&beam.id, "json"), manifest_text(&manifest)));
                    }
                    _ => {}
                }
            }
        }
        let ids: Vec<BeamId> =
            places.iter().map(|place| project.beams[*place].id.clone()).collect();
        match conclude(&ids, &run.statuses(), now) {
            Ok((summary, finished)) => {
                events.push(finished);
                Ok(Carried { events, executed, environments, peak, summary })
            }
            Err(error) => Err(Refused { events, executed, error }),
        }
    }
}

const GEN: &str = r#"
beam gen {
  inputs ["data.txt"]
  run "generate"
}
"#;

fn one_file() -> World {
    World::new(&[("data.txt", "v1")])
}

#[test]
fn what_a_beam_is_remembered_by_is_what_it_renders_to() {
    let project = load(
        "beam deploy(to) { cwd \"sub\" inputs [\"a\"] outputs [\"o\"] env { T = to } run \"d {to}\" }\n\
         beam free { run \"x\" }",
    )
    .unwrap();
    let args = strings(&["staging"]);
    let rendered = Some(render(&project.beams[0], &args, &no_env()).unwrap());
    let known = Some(vec![Some("n1".to_string())]);
    let facts = |contributions: &Option<Vec<Option<String>>>, remembers: bool| {
        cacheable_beam(&project.beams[0], &rendered, &args, contributions, remembers, true)
    };
    let found = facts(&known, true).unwrap();
    assert_eq!(found.commands, ["d staging"]);
    assert_eq!(found.cwd, rendered.as_ref().unwrap().cwd);
    assert_eq!(found.env, [("T".to_string(), "staging".to_string())]);
    assert_eq!(found.args, ["staging"]);
    assert_eq!(found.needs, ["n1"]);
    assert_eq!(found.executor, "embedded");
    assert!(found.force);
    assert_eq!(facts(&known, false), None);
    assert_eq!(facts(&None, true), None);
    assert_eq!(facts(&Some(vec![None]), true), None);
    assert_eq!(cacheable_beam(&project.beams[0], &None, &args, &known, true, true), None);
    assert_eq!(cacheable_beam(&project.beams[1], &rendered, &args, &known, true, true), None);
    let manifest = remember(&project.beams[0], "f".to_string(), 12);
    assert_eq!(manifest, Manifest::new("f".to_string(), strings(&["o"]), 12));
}

#[test]
fn a_run_ends_with_the_summary_that_it_announces() {
    let ids = vec![id("a"), id("b")];
    let statuses = vec![Some(BeamStatus::Cached), Some(BeamStatus::Cancelled)];
    let (summary, event) = conclude(&ids, &statuses, 9).unwrap();
    assert_eq!(summary.cached, [id("a")]);
    assert_eq!(summary.cancelled, [id("b")]);
    assert_eq!(summary.duration_ms, 9);
    assert_eq!(event, RunEvent::RunFinished { summary });
    let died = vec![Some(BeamStatus::Succeeded), None];
    assert_eq!(conclude(&ids, &died, 9), Err(EngineError::Panicked { beam: id("b") }));
}

#[test]
fn a_changed_command_reruns() {
    let mut world = one_file();
    let changed = GEN.replace("generate", "generate --verbose");
    world.run(GEN, "gen");
    assert_eq!(world.run(&changed, "gen").executed, vec!["generate --verbose"]);
}

#[test]
fn a_changed_env_block_reruns() {
    let mut world = one_file();
    let with_env = |value: &str| {
        format!(
            "beam gen {{\n  inputs [\"data.txt\"]\n  env {{ MODE = \"{value}\" }}\n  run \"generate\"\n}}\n"
        )
    };
    world.run(&with_env("debug"), "gen");
    assert_eq!(world.run(&with_env("release"), "gen").executed.len(), 1);
    assert!(world.run(&with_env("release"), "gen").executed.is_empty());
}

#[test]
fn changed_arguments_rerun() {
    let mut world = one_file();
    let param = r#"
beam deploy(target) {
  inputs ["data.txt"]
  run "deploy {target}"
}
"#;
    world.params = strings(&["staging"]);
    world.run(param, "deploy");
    let same = world.run(param, "deploy");
    world.params = strings(&["production"]);
    let different = world.run(param, "deploy");
    assert!(same.executed.is_empty(), "same arguments must hit");
    assert_eq!(different.executed, vec!["deploy production"]);
}

#[test]
fn a_beam_without_inputs_always_runs() {
    let mut world = World::new(&[]);
    let no_inputs = r#"beam gen { run "generate" }"#;
    world.run(no_inputs, "gen");
    let second = world.run(no_inputs, "gen");
    assert_eq!(second.executed.len(), 1);
    assert!(second.summary.cached.is_empty());
}

#[test]
fn no_cache_configuration_disables_caching() {
    let mut world = one_file();
    world.remembers = false;
    world.run(GEN, "gen");
    assert_eq!(world.run(GEN, "gen").executed.len(), 1);
}

#[test]
fn an_allowed_failure_writes_no_manifest_either() {
    let mut world = one_file();
    let allowed = r#"
beam gen {
  allow_failure true
  inputs ["data.txt"]
  run "generate"
}
"#;
    world.behaviours.push(behaviour("generate", 1, 0));
    world.run(allowed, "gen");
    world.behaviours.clear();
    assert!(world.entries.is_empty());
    assert_eq!(world.run(allowed, "gen").executed.len(), 1);
}

#[test]
fn a_really_changed_dependency_invalidates_its_dependents() {
    let mut world = World::new(&[("codegen.txt", "v1"), ("app.txt", "v1")]);
    let chain = r#"
beam codegen {
  inputs ["codegen.txt"]
  run "generate"
}

beam build {
  needs [codegen]
  inputs ["app.txt"]
  run "compile"
}
"#;
    world.run(chain, "build");
    let unchanged = world.run(chain, "build");
    world.write("codegen.txt", "v2");
    let changed = world.run(chain, "build");
    assert!(unchanged.executed.is_empty(), "nothing changed: both cached");
    assert_eq!(names(&unchanged.summary.cached), vec!["codegen", "build"]);
    assert_eq!(
        changed.executed,
        vec!["generate", "compile"],
        "a changed dependency fingerprint must cascade to its dependents"
    );
}

#[test]
fn a_non_cacheable_dependency_does_not_poison_its_dependents() {
    let mut world = World::new(&[("app.txt", "v1")]);
    let mixed = r#"
beam always {
  run "prepare"
}

beam build {
  needs [always]
  inputs ["app.txt"]
  run "compile"
}
"#;
    world.run(mixed, "build");
    let second = world.run(mixed, "build");
    assert_eq!(second.executed, vec!["prepare"], "the input-less beam still runs");
    assert_eq!(names(&second.summary.cached), vec!["build"]);
}

#[test]
fn a_corrupted_cache_entry_is_a_miss() {
    let mut world = one_file();
    world.run(GEN, "gen");
    for (_, text) in &mut world.entries {
        *text = "garbage".to_string();
    }
    assert_eq!(world.run(GEN, "gen").executed.len(), 1);
}

#[test]
fn the_cached_duration_is_the_original_runs() {
    let mut world = one_file();
    world.behaviours.push(behaviour("generate", 0, 150));
    world.run(GEN, "gen");
    world.behaviours.clear();
    let second = world.run(GEN, "gen");
    let duration = second.events.iter().find_map(|event| match event {
        RunEvent::BeamFinished { status: BeamStatus::Cached, duration_ms, .. } => {
            Some(*duration_ms)
        }
        _ => None,
    });
    assert_eq!(
        duration,
        Some(150),
        "the reported duration must be the original run's, not the replay's"
    );
}

#[test]
fn a_changed_cwd_reruns() {
    let mut world = one_file();
    let with_cwd = |where_in: &str| {
        format!(
            "beam gen {{\n  cwd \"{where_in}\"\n  inputs [\"data.txt\"]\n  run \"generate\"\n}}\n"
        )
    };
    world.run(&with_cwd("build"), "gen");
    let same = world.run(&with_cwd("build"), "gen");
    let different = world.run(&with_cwd("dist"), "gen");
    assert!(same.executed.is_empty(), "the same cwd must hit");
    assert_eq!(different.executed.len(), 1, "a beam that now runs somewhere else must rerun");
}

#[test]
fn switching_executor_kind_invalidates_the_cache() {
    let mut world = one_file();
    world.run(GEN, "gen");
    let unchanged = world.run(GEN, "gen");
    let switched = world.run_amended(GEN, "gen", |project| {
        project.beams[0].executor = ExecutorKind::SystemShell
    });
    assert!(unchanged.executed.is_empty(), "precondition: an unchanged rerun must still hit");
    assert_eq!(
        switched.executed,
        vec!["generate"],
        "switching a beam's executor must invalidate its cache entry rather than replay it"
    );
}

#[test]
fn live_output_is_not_marked_replayed() {
    let mut world = one_file();
    world.behaviours.push(talkative("generate", &[(Stream::Stdout, "generated")]));
    let first = world.run(GEN, "gen");
    let replayed = |wanted: bool| {
        first.events.iter().any(
            |event| matches!(event, RunEvent::BeamOutput { replayed, .. } if *replayed == wanted),
        )
    };
    assert!(replayed(false));
    assert!(!replayed(true));
}

#[test]
fn replayed_lines_sit_between_cached_and_finished() {
    let mut world = one_file();
    world.behaviours.push(talkative("generate", &[(Stream::Stdout, "generated")]));
    world.run(GEN, "gen");
    world.behaviours.clear();
    let second = world.run(GEN, "gen");
    let index = |predicate: &dyn Fn(&RunEvent) -> bool| {
        second.events.iter().position(predicate).expect("event must exist")
    };
    let cached = index(&|e| matches!(e, RunEvent::BeamCached { .. }));
    let output = index(
        &|e| matches!(e, RunEvent::BeamOutput { replayed: true, line, .. } if line.text == "generated"),
    );
    let finished = index(&|e| matches!(e, RunEvent::BeamFinished { .. }));
    assert!(cached < output && output < finished);
}

#[test]
fn a_second_unchanged_run_is_cached() {
    let mut world = one_file();
    let first = world.run(GEN, "gen");
    let second = world.run(GEN, "gen");
    assert_eq!(first.executed.len(), 1);
    assert!(second.executed.is_empty(), "the second run must not execute");
    assert_eq!(names(&second.summary.cached), vec!["gen"]);
    assert!(
        second.events.iter().any(|event| matches!(event, RunEvent::BeamCached { id } if id.0 == "gen"))
    );
    assert!(
        !second
            .events
            .iter()
            .any(|event| matches!(event, RunEvent::BeamStarted { id } if id.0 == "gen"))
    );
}

#[test]
fn a_changed_input_file_reruns() {
    let mut world = one_file();
    world.run(GEN, "gen");
    world.write("data.txt", "v2");
    let second = world.run(GEN, "gen");
    assert_eq!(second.executed.len(), 1);
    assert!(second.summary.cached.is_empty());
}

#[test]
fn missing_outputs_force_a_rerun() {
    let mut world = one_file();
    let with_output = r#"
beam gen {
  inputs ["data.txt"]
  outputs ["out.txt"]
  run "generate"
}
"#;
    world.write("out.txt", "produced");
    world.run(with_output, "gen");
    let there = world.run(with_output, "gen");
    world.files.retain(|(name, _)| name != "out.txt");
    let missing = world.run(with_output, "gen");
    assert!(there.executed.is_empty(), "outputs present: hit");
    assert_eq!(missing.executed.len(), 1, "outputs missing: rerun");
}

#[test]
fn a_failed_beam_writes_no_manifest() {
    let mut world = one_file();
    world.behaviours.push(behaviour("generate", 1, 0));
    let first = world.run(GEN, "gen");
    world.behaviours.clear();
    let second = world.run(GEN, "gen");
    assert_eq!(names(&first.summary.failed), vec!["gen"]);
    assert_eq!(second.executed.len(), 1, "a failure must not have cached");
}

#[test]
fn force_reruns_and_rewrites_the_manifest() {
    let mut world = one_file();
    world.run(GEN, "gen");
    let written = world.entries.len();
    world.force = true;
    let forced = world.run(GEN, "gen");
    world.force = false;
    let after = world.run(GEN, "gen");
    assert_eq!(forced.executed.len(), 1, "--force must execute");
    assert!(forced.summary.cached.is_empty());
    assert_eq!(world.entries.len(), 2 * written);
    assert!(after.executed.is_empty(), "the forced run must have rewritten the entry");
}

#[test]
fn a_pending_hit_is_cancelled_when_the_run_is_already_stopping() {
    let mut world = World::new(&[("app.txt", "v1")]);
    let source = r#"
beam broken {
  run "explode"
}

beam slow {
  run "wait"
}

beam build {
  needs [slow]
  inputs ["app.txt"]
  run "compile"
}

beam all {
  needs [broken, build]
  run "finish"
}
"#;
    world.behaviours.push(behaviour("wait", 0, 200));
    world.run(source, "all");
    let control = world.run(source, "all");
    world.behaviours.push(behaviour("explode", 1, 0));
    let stopping = world.run(source, "all");
    assert_eq!(names(&control.summary.cached), vec!["build"]);
    assert_eq!(names(&stopping.summary.failed), vec!["broken"]);
    assert!(stopping.summary.cached.is_empty(), "a stopping run must report no hit");
    assert_eq!(names(&stopping.summary.cancelled), vec!["build", "all"]);
    assert!(
        !stopping.events.iter().any(|event| matches!(event, RunEvent::BeamCached { .. }))
    );
}

#[test]
fn a_hit_replays_the_stored_output_lines() {
    let mut world = one_file();
    world.behaviours.push(talkative(
        "generate",
        &[(Stream::Stdout, "generated 12 files"), (Stream::Stderr, "warning: deprecated")],
    ));
    world.run(GEN, "gen");
    world.behaviours.clear();
    let second = world.run(GEN, "gen");
    let replayed: Vec<(&str, bool)> = second
        .events
        .iter()
        .filter_map(|event| match event {
            RunEvent::BeamOutput { line, replayed, .. } => Some((line.text.as_str(), *replayed)),
            _ => None,
        })
        .collect();
    assert_eq!(
        replayed,
        vec![("generated 12 files", true), ("warning: deprecated", true)],
        "stored lines must replay, in order, marked as replayed"
    );
}

const SRC: &str = r#"
beam gen {
  inputs ["src/**/*.rs"]
  run "generate"
}
"#;

#[test]
fn a_pattern_that_will_not_compile_does_not_silence_its_siblings() {
    let mut world = World::new(&[("src/a.rs", "v1")]);
    let broken = |project: &mut Project| {
        project.beams[0].inputs = strings(&["src/**/*.rs", "a[b"]);
    };
    world.run_amended(SRC, "gen", broken);
    world.write("src/a.rs", "v2");
    let second = world.run_amended(SRC, "gen", broken);
    assert_eq!(
        second.executed.len(),
        1,
        "an uncompilable sibling must not make every pattern match nothing"
    );
}

#[test]
fn a_misspelled_input_path_is_not_cached_silently() {
    let mut world = World::new(&[("src/a.rs", "v1")]);
    let misspelled = r#"
beam gen {
  inputs ["scr/**/*.rs"]
  run "generate"
}
"#;
    world.run(misspelled, "gen");
    world.write("src/a.rs", "v2");
    let second = world.run(misspelled, "gen");
    assert_eq!(second.executed.len(), 1);
    assert!(
        second
            .stderr()
            .iter()
            .any(|line| line.starts_with("cache:") && line.contains("running without cache")),
        "a beam whose inputs matched nothing must say so, got {:?}",
        second.stderr()
    );
}

#[test]
fn an_unreadable_input_runs_the_beam_uncached_with_a_notice() {
    let mut world = one_file();
    world.unreadable = strings(&["data.txt"]);
    let first = world.run(GEN, "gen");
    let second = world.run(GEN, "gen");
    assert_eq!(names(&first.summary.succeeded), vec!["gen"]);
    assert!(
        first
            .stderr()
            .iter()
            .any(|line| line.starts_with("cache: cannot hash input `data.txt`")),
        "an unhashable input must say so, got {:?}",
        first.stderr()
    );
    assert_eq!(second.executed.len(), 1, "an unhashable input leaves nothing to hit on");
}

fn position(commands: &[String], wanted: &str) -> usize {
    commands.iter().position(|command| command == wanted).unwrap()
}

#[test]
fn respects_dependency_order_and_parallelism_limit() {
    let mut world = World::new(&[]);
    world.jobs = 2;
    world.behaviours.push(behaviour("step", 0, 50));
    let outcome = world.run(
        r#"
beam a { run "step a" }
beam b { needs [a] run "step b" }
beam c { needs [a] run "step c" }
beam d { needs [b, c] run "step d" }
"#,
        "d",
    );
    let commands = &outcome.executed;
    assert_eq!(commands.len(), 4, "every beam runs exactly once: {commands:?}");
    let (a, b) = (position(commands, "step a"), position(commands, "step b"));
    let (c, d) = (position(commands, "step c"), position(commands, "step d"));
    assert!(a < b && a < c, "`a` runs before its dependents: {commands:?}");
    assert!(b < d && c < d, "`d` runs last: {commands:?}");
    assert_eq!(outcome.peak, 2, "`b` and `c` are independent and must overlap under jobs=2");
    assert_eq!(names(&outcome.summary.succeeded), ["a", "b", "c", "d"]);
    assert_eq!(outcome.summary.exit_code(), 0);
}

#[test]
fn fail_fast_cancels_pending_but_lets_running_finish() {
    let mut world = World::new(&[]);
    world.jobs = 2;
    world.behaviours = vec![behaviour("fail b", 1, 50), behaviour("slow c", 0, 300)];
    let outcome = world.run(
        r#"
beam b { run "fail b" }
beam c { run "slow c" }
beam d { needs [c] run "step d" }
beam all { needs [b, d] run "step all" }
"#,
        "all",
    );
    assert_eq!(names(&outcome.summary.failed), ["b"]);
    assert_eq!(
        names(&outcome.summary.succeeded),
        ["c"],
        "`c` was already running when `b` failed and must finish"
    );
    assert_eq!(names(&outcome.summary.cancelled), ["d", "all"]);
    assert_eq!(outcome.summary.exit_code(), 1);
    let mut commands = outcome.executed;
    commands.sort();
    assert_eq!(commands, ["fail b", "slow c"], "no beam starts after the failure");
}

#[test]
fn keep_going_runs_independent_beams() {
    let mut world = World::new(&[]);
    world.jobs = 1;
    world.keep_going = true;
    world.behaviours = vec![behaviour("fail b", 1, 10), behaviour("step d", 0, 10)];
    let outcome = world.run(
        r#"
beam b { run "fail b" }
beam d { run "step d" }
beam e { needs [b] run "step e" }
beam all { needs [d, e] run "step all" }
"#,
        "all",
    );
    assert_eq!(names(&outcome.summary.failed), ["b"]);
    assert_eq!(names(&outcome.summary.succeeded), ["d"]);
    assert_eq!(names(&outcome.summary.cancelled), ["e", "all"]);
    assert_eq!(outcome.summary.exit_code(), 1);
    assert_eq!(
        outcome.executed,
        ["fail b", "step d"],
        "`d` was still pending when `b` failed, and ran anyway"
    );
}

#[test]
fn allow_failure_does_not_stop_the_run() {
    let mut world = World::new(&[]);
    world.jobs = 2;
    world.behaviours = vec![behaviour("run lint", 1, 0)];
    let outcome = world.run(
        r#"
beam lint { allow_failure true run "run lint" }
beam build { needs [lint] run "run build" }
"#,
        "build",
    );
    assert_eq!(names(&outcome.summary.failed_allowed), ["lint"]);
    assert_eq!(names(&outcome.summary.succeeded), ["build"]);
    assert!(outcome.summary.failed.is_empty());
    assert!(outcome.summary.cancelled.is_empty());
    assert_eq!(
        outcome.summary.exit_code(),
        0,
        "an allowed failure does not affect the exit code"
    );
    assert_eq!(outcome.executed, ["run lint", "run build"]);
}

#[test]
fn cancellation_token_cancels_everything() {
    let mut world = World::new(&[]);
    world.jobs = 2;
    world.behaviours = vec![behaviour("slow", 0, 30_000)];
    world.cancel_at = Some(10);
    let outcome = world.run(
        r#"
beam a { run "slow a" }
beam b { needs [a] run "slow b" }
"#,
        "b",
    );
    assert!(outcome.summary.duration_ms < 10_000, "a cancelled run must return promptly");
    assert_eq!(names(&outcome.summary.cancelled), ["a", "b"]);
    assert!(outcome.summary.failed.is_empty(), "cancellation is not a failure");
}

fn only(places: Vec<usize>) -> usize {
    assert_eq!(places.len(), 1);
    places[0]
}

#[test]
fn events_are_emitted_in_order_per_beam() {
    let mut world = World::new(&[]);
    world.jobs = 2;
    world.behaviours = vec![
        talkative("a1", &[(Stream::Stdout, "a1 out")]),
        talkative("a2", &[(Stream::Stdout, "a2 out")]),
        talkative("step b", &[(Stream::Stdout, "b out")]),
    ];
    let outcome = world.run(
        r#"
beam a { run ["step a1", "step a2"] }
beam b { needs [a] run "step b" }
"#,
        "b",
    );
    for beam in ["a", "b"] {
        let started = only(
            outcome.places(|e| matches!(e, RunEvent::BeamStarted { id } if id.0 == beam)),
        );
        let finished = only(outcome.places(
            |e| matches!(e, RunEvent::BeamFinished { id, status, .. } if id.0 == beam && *status == BeamStatus::Succeeded),
        ));
        let output =
            outcome.places(|e| matches!(e, RunEvent::BeamOutput { id, .. } if id.0 == beam));
        assert!(!output.is_empty(), "`{beam}` emitted no output");
        for index in output {
            assert!(
                started < index && index < finished,
                "`{beam}`: started {started}, output {index}, finished {finished}"
            );
        }
    }
    let a_finished =
        only(outcome.places(|e| matches!(e, RunEvent::BeamFinished { id, .. } if id.0 == "a")));
    let b_started =
        only(outcome.places(|e| matches!(e, RunEvent::BeamStarted { id } if id.0 == "b")));
    assert!(a_finished < b_started, "`b` starts after `a` finished");
    let run_finished = only(outcome.places(|e| matches!(e, RunEvent::RunFinished { .. })));
    assert_eq!(run_finished, outcome.events.len() - 1, "`RunFinished` must be the last event");
    match &outcome.events[run_finished] {
        RunEvent::RunFinished { summary } => assert_eq!(names(&summary.succeeded), ["a", "b"]),
        _ => unreachable!(),
    }
    assert_eq!(names(&outcome.summary.succeeded), ["a", "b"]);
}

#[test]
fn docker_executor_is_rejected_before_anything_runs() {
    let src = r#"
beam build { run "step build" }
beam deploy {
  needs [build]
  executor docker { image "deployer:latest" }
  run "step deploy"
}
"#;
    let mut world = World::new(&[]);
    world.jobs = 2;
    let refused = world.refused(src, "deploy");
    assert_eq!(refused.error.message(), "docker executor is not yet supported");
    assert!(refused.executed.is_empty(), "the rejection happens before any beam starts");
    assert!(refused.events.is_empty(), "no event is emitted either");
}

#[test]
fn bare_alba_runs_the_default_beam() {
    let src = "default build\nbeam build { run \"echo compiled\" }\n";
    let target = match task(&None, &load(src).unwrap()) {
        Task::Run { selection: Selection::Beam(id), params, flags } => {
            assert!(params.is_empty());
            assert_eq!(flags, RunFlags::default());
            id
        }
        other => panic!("got {other:?}"),
    };
    let carried = World::new(&[]).run(src, &target.0);
    assert_eq!(run_exit_code(&carried.summary, false), 0);
    assert!(carried.shown().0.contains("compiled"));
}

#[test]
fn git_s_arguments_become_the_target_s_parameters() {
    let src = "hook commit-msg { beam lint }\nbeam lint(path) { run \"echo msg-at {path}\" }\n";
    let hook = Some(Command::Hook {
        name: "commit-msg".to_string(),
        args: strings(&[".git/COMMIT_EDITMSG"]),
    });
    let (target, params) = match task(&hook, &load(src).unwrap()) {
        Task::Run { selection: Selection::Beam(id), params, .. } => (id, params),
        other => panic!("got {other:?}"),
    };
    let mut world = World::new(&[]);
    world.params = params;
    let carried = world.run(src, &target.0);
    let (stdout, stderr) = carried.shown();
    let combined = stdout + &stderr;
    assert_eq!(run_exit_code(&carried.summary, false), 0, "{combined}");
    assert!(
        combined.contains("msg-at ") && combined.contains("COMMIT_EDITMSG"),
        "{combined}"
    );
}

#[test]
fn runs_dependency_chain_in_order() {
    let carried = World::new(&[]).run(
        "beam a { run \"echo alpha\" }\n\
         beam b { needs [a] run \"echo bravo\" }\n",
        "b",
    );
    let (stdout, _) = carried.shown();
    let alpha = stdout.find("alpha").unwrap();
    let bravo = stdout.find("bravo").unwrap();
    assert!(alpha < bravo, "`a` must be reported before its dependent `b`, got:\n{stdout}");
    assert_eq!(run_exit_code(&carried.summary, false), 0);
}

#[test]
fn beam_failure_exits_1_and_cancels_dependents() {
    let carried = World::new(&[]).run(
        "beam boom { run \"exit 7\" }\n\
         beam after { needs [boom] run \"echo reached\" }\n",
        "after",
    );
    let (stdout, stderr) = carried.shown();
    assert_eq!(run_exit_code(&carried.summary, false), 1);
    assert!(!stdout.contains("reached"));
    assert!(stderr.contains("1 failed"));
    assert!(summary_label(&carried.summary, &None, "0.1s").contains("1 failed"));
}

#[test]
fn allow_failure_exits_0() {
    let carried =
        World::new(&[]).run("beam lint { allow_failure true run \"exit 1\" }\n", "lint");
    assert_eq!(run_exit_code(&carried.summary, false), 0);
    assert!(carried.shown().0.contains("failed (allowed)"));
}

#[test]
fn json_log_format_emits_one_json_object_per_line() {
    let carried = World::new(&[]).run("beam a { run \"echo hi\" }\n", "a");
    let mut kinds = Vec::new();
    for event in &carried.events {
        let line = json_line(event);
        assert!(!line.contains('\n'));
        let value: serde_json::Value = serde_json::from_str(&line).unwrap();
        kinds.push(value["event"].as_str().unwrap().to_string());
    }
    assert_eq!(
        kinds,
        ["run_started", "beam_started", "beam_output", "beam_finished", "run_finished"]
    );
}

#[test]
fn check_counts_hooks_and_warns_until_they_are_installed() {
    let project = load(
        "hook pre-commit { beam check }\nbeam check { run \"echo hook-ran\" }\n",
    )
    .unwrap();
    let report = check_report(&project, &Vec::new(), &Ok(None));
    assert_eq!(
        report.prints,
        [
            Print::Stdout("\u{2713} Beamfile: 1 beam, 1 hook".to_string()),
            Print::Stderr("1 hook declared, run 'alba hooks install'".to_string()),
        ]
    );
    assert_eq!(report.code, 0);

    let installed = check_report(&project, &Vec::new(), &Ok(Some(".alba/hooks".to_string())));
    assert_eq!(
        installed.prints,
        [Print::Stdout("\u{2713} Beamfile: 1 beam, 1 hook".to_string())]
    );
    let foreign = check_report(&project, &Vec::new(), &Ok(Some(".husky".to_string())));
    assert_eq!(foreign.prints.len(), 2);
    let nowhere = check_report(&project, &Vec::new(), &Err(GitError("no repository".to_string())));
    assert_eq!(nowhere.prints.len(), 2);
}

#[test]
fn a_project_has_the_hooks_of_its_root_alone() {
    let (project, _) = load_files(
        &[
            (
                "/p/Beamfile",
                "import \"api/Beamfile\" as api\n\
                 hook pre-push { beam api:test }\n\
                 hook commit-msg { beam lint }\n\
                 beam lint(path) { run \"x {path}\" }",
            ),
            (
                "/p/api/Beamfile",
                "hook pre-commit { beam test }\nbeam test { run \"x\" }",
            ),
        ],
        "/p/Beamfile",
    )
    .unwrap();
    let hooks: Vec<(&str, &str)> = project
        .hooks
        .iter()
        .map(|hook| (hook.name.value.as_str(), hook.beam.value.0.as_str()))
        .collect();
    assert_eq!(hooks, [("pre-push", "api:test"), ("commit-msg", "lint")]);
    let report = check_report(&project, &Vec::new(), &Ok(None));
    assert_eq!(
        report.prints,
        [
            Print::Stdout("\u{2713} Beamfile: 2 beams, 2 hooks".to_string()),
            Print::Stderr("2 hooks declared, run 'alba hooks install'".to_string()),
        ]
    );
}

#[test]
fn a_need_that_names_no_beam_is_skipped() {
    let mut project = load("beam b { run \"x\" }\nbeam c { needs [b] run \"x\" }").unwrap();
    project.beams[0].needs = vec![Spanned::new(id("ghost"), Span::new(0, 0))];
    assert_eq!(execution_subgraph(&project, &id("b")).unwrap(), [id("b")]);
    assert_eq!(execution_subgraph(&project, &id("c")).unwrap(), [id("c"), id("b")]);
}

const AFFECTED: &str = "\
beam codegen { inputs [\"schema/**\"] run \"echo ran-codegen\" }
beam build { needs [codegen] inputs [\"src/**\"] run \"echo ran-build\" }
beam test { needs [build] run \"echo ran-test\" }
beam docs { inputs [\"docs/**\"] run \"echo ran-docs\" }
beam deploy(target) { inputs [\"deploy/**\"] run \"echo ran-deploy {target}\" }
";

/// A project in a repository, and its files.
fn five_beams() -> (Project, SourceMap) {
    load_files(&[("/r/Beamfile", AFFECTED)], "/r/Beamfile").unwrap()
}

fn affected_by(changed: &[&str], log_format: LogFormat) -> Vec<Print> {
    let (project, sources) = five_beams();
    let found =
        affected(&project, &sources, &Ok("/r".to_string()), "/r", Ok(strings(changed)));
    let report = affected_report(&project, &found, log_format);
    assert_eq!(report.code, 0);
    report.prints
}

fn on_stdout(lines: &[&str]) -> Vec<Print> {
    lines.iter().map(|line| Print::Stdout(line.to_string())).collect()
}

#[test]
fn affected_lists_the_beams_a_change_touches() {
    assert_eq!(
        affected_by(&["schema/a"], LogFormat::Text),
        on_stdout(&["codegen", "build", "test"])
    );
}

#[test]
fn affected_marks_parameterized_beams_and_speaks_json() {
    assert_eq!(
        affected_by(&["deploy/a"], LogFormat::Text),
        on_stdout(&["deploy (takes parameters)"])
    );
    assert_eq!(
        affected_by(&["deploy/a"], LogFormat::Json),
        on_stdout(&["{\"beams\":[\"deploy\"]}"])
    );
}

#[test]
fn affected_with_nothing_changed_lists_nothing_and_exits_0() {
    assert_eq!(affected_by(&[], LogFormat::Text), []);
}

/// The event that a run of what changed starts with.
fn affected_start(changed: &[&str], within: Option<&str>) -> RunEvent {
    let (project, sources) = five_beams();
    let selection =
        Selection::Affected { reference: "HEAD".to_string(), within: within.map(id) };
    let cwd = Ok("/r".to_string());
    let targets =
        select(&project, &sources, &cwd, "/r", &selection, Ok(strings(changed))).unwrap();
    assert_eq!(targets.affected_by.as_deref(), Some("HEAD"));
    let places = plan_all(&project, &targets.beams, &Vec::new(), &Vec::new()).unwrap();
    affected_started(&project, "HEAD", &targets.beams, &places)
}

fn targets_and_beams(event: RunEvent) -> (Vec<String>, Vec<String>) {
    let texts = |ids: Vec<BeamId>| ids.into_iter().map(|id| id.0).collect::<Vec<String>>();
    match event {
        RunEvent::AffectedStarted { targets, beams, .. } => (texts(targets), texts(beams)),
        _ => unreachable!(),
    }
}

#[test]
fn run_affected_without_a_beam_runs_every_affected_beam() {
    let (targets, beams) = targets_and_beams(affected_start(&["src/a", "docs/a"], None));
    assert_eq!(targets, ["build", "test", "docs"]);
    // `codegen` runs as `build`'s need, not as a target.
    assert_eq!(beams, ["codegen", "build", "test", "docs"]);
}

#[test]
fn run_affected_within_a_beam_runs_it_only_when_affected() {
    let (targets, beams) = targets_and_beams(affected_start(&["docs/a"], Some("test")));
    assert!(targets.is_empty() && beams.is_empty());
    let (targets, beams) =
        targets_and_beams(affected_start(&["docs/a", "src/a"], Some("test")));
    assert_eq!(targets, ["test"]);
    assert_eq!(beams, ["codegen", "build", "test"]);
    let nothing = summarize(&Vec::new(), &Vec::new(), 0).unwrap();
    assert!(
        summary_label(&nothing, &Some("HEAD".to_string()), "0.0s")
            .contains("nothing affected by HEAD")
    );
    assert_eq!(run_exit_code(&nothing, false), 0);
}

#[test]
fn run_affected_json_carries_the_reference_and_targets() {
    let line = json_line(&affected_start(&["docs/a"], None));
    assert_eq!(
        line,
        "{\"event\":\"run_started\",\"affected_by\":\"HEAD\",\"targets\":[\"docs\"],\"beams\":[\"docs\"],\"edges\":[]}"
    );
    let first: serde_json::Value = serde_json::from_str(&line).unwrap();
    assert_eq!(first["event"], "run_started");
    assert_eq!(first["affected_by"], "HEAD");
}

#[test]
fn run_affected_with_nothing_affected_still_opens_the_json_stream() {
    let line = json_line(&affected_start(&[], None));
    let first: serde_json::Value = serde_json::from_str(&line).unwrap();
    assert_eq!(first["event"], "run_started");
    assert_eq!(first["affected_by"], "HEAD");
    assert_eq!(first["targets"].as_array().unwrap().len(), 0);
}

/// What listing what changed since a reference that git does not know says.
fn refused_by_git(reply: &GitReply) -> Report {
    let (project, sources) = five_beams();
    let changed = match changed_files("no-such-ref", &vec![copy_reply(reply)]) {
        ChangedStep::Done(changed) => changed,
        ChangedStep::Ask(_) => unreachable!(),
    };
    let cwd = Ok("/r".to_string());
    let selection = Selection::Affected { reference: "no-such-ref".to_string(), within: None };
    assert!(matches!(
        select(&project, &sources, &cwd, "/r", &selection, changed.clone()),
        Err(SelectError::Git(_))
    ));
    let found = affected(&project, &sources, &cwd, "/r", changed);
    affected_report(&project, &found, LogFormat::Text)
}

fn copy_reply(reply: &GitReply) -> GitReply {
    match reply {
        GitReply::Unstarted { missing, error } => {
            GitReply::Unstarted { missing: *missing, error: error.clone() }
        }
        GitReply::Ended { code, stdout, stderr } => GitReply::Ended {
            code: *code,
            stdout: stdout.clone(),
            stderr: stderr.clone(),
        },
    }
}

#[test]
fn run_affected_against_an_unknown_reference_exits_2() {
    let report = refused_by_git(&GitReply::Ended {
        code: Some(128),
        stdout: String::new(),
        stderr: "fatal: bad revision 'no-such-ref'".to_string(),
    });
    assert_eq!(report.code, 2);
    assert!(matches!(&report.prints[..], [Print::Stderr(line)] if line.contains("no-such-ref")));
}

#[test]
fn run_affected_outside_a_repository_exits_2() {
    let report = refused_by_git(&GitReply::Ended {
        code: Some(128),
        stdout: String::new(),
        stderr: "fatal: not a git repository".to_string(),
    });
    assert_eq!(report.code, 2);
    assert!(matches!(&report.prints[..], [Print::Stderr(line)] if line.contains("git")));
}

#[test]
fn a_run_of_several_targets_is_refused_for_the_first_that_cannot_run() {
    let project = load(
        "beam a { run \"x\" }\nbeam b(p) { run \"x\" }\nbeam c { executor docker { image \"i\" } run \"x\" }",
    )
    .unwrap();
    let refusal = |targets: &[&str]| {
        let targets: Vec<BeamId> = targets.iter().map(|name| id(name)).collect();
        plan_all(&project, &targets, &Vec::new(), &Vec::new()).map_err(|error| error.message())
    };
    assert_eq!(refusal(&["a"]), Ok(vec![0]));
    assert_eq!(
        refusal(&["a", "b", "c"]),
        Err("beam `b` expects 1 parameter (`p`), got 0".to_string())
    );
    assert_eq!(
        refusal(&["c", "b"]),
        Err("docker executor is not yet supported".to_string())
    );
    assert_eq!(refusal(&["nope"]), Err("unknown beam `nope`".to_string()));
    let targets = vec![id("a"), id("b")];
    assert_eq!(args_among(&id("b"), &targets, &strings(&["v"])), ["v"]);
    assert!(args_among(&id("c"), &targets, &strings(&["v"])).is_empty());
}
