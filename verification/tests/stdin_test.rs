//! Reading from the standard input.

use dsql_lint::cli::{
    finish_fix, fix_one, lint_one, plan_run, same_output_as_input, Args, FixStep, InputSource,
    Mode, OutputFormat, PathCheck, PathParts, ReadFailure, UsageError, WriteOutcome,
};
use dsql_lint::report::{
    final_exit, run_fix, run_lint, ExitCode, FixOutputPlan, LintOutput, RenderOutcome,
};

fn stdin_args(fix: bool, output: Option<&str>, format: OutputFormat) -> Args {
    Args {
        files: vec![InputSource::from_str("-")],
        fix,
        output: output.map(|path| path.to_string()),
        format,
    }
}

fn no_path() -> PathParts {
    PathParts {
        directory: String::new(),
        stem: String::new(),
        extension: String::new(),
    }
}

fn lint_text(sql: &str) -> (ExitCode, String) {
    let outcome = lint_one(&InputSource::Stdin, Ok(sql.to_string()));
    match run_lint(vec![outcome], OutputFormat::default()) {
        (code, LintOutput::Text(lines)) => (code, lines.join("\n")),
        (_, LintOutput::Json { .. }) => panic!("text is the default"),
    }
}

#[test]
fn lint_from_stdin() {
    let (code, stderr) = lint_text("CREATE TABLE t (id SERIAL PRIMARY KEY);");
    assert_ne!(code.number(), 0);
    assert!(
        stderr.contains("SERIAL"),
        "Should detect SERIAL from stdin: {stderr}"
    );
    let lines: Vec<&str> = stderr.lines().collect();
    assert_eq!(
        lines[0],
        "<stdin>:1: WARNING \u{2014} SERIAL columns are not supported in DSQL."
    );
    assert_eq!(lines[2], "  | CREATE TABLE t (id SERIAL PRIMARY KEY)");
    assert_eq!(lines[4], "1 issue(s) found.");
}

#[test]
fn lint_stdin_clean_sql() {
    let (code, stderr) = lint_text("CREATE TABLE t (id UUID PRIMARY KEY);");
    assert_eq!(code.number(), 0);
    assert_eq!(stderr, "All statements compatible with DSQL.");
}

#[test]
fn lint_labels_follow_the_fix() {
    let (_, stderr) = lint_text("CREATE INDEX i ON t(c);\nVACUUM;");
    assert!(stderr.contains("<stdin>:1: INFO \u{2014} "), "{stderr}");
    assert!(stderr.contains("<stdin>:2: ERROR \u{2014} "), "{stderr}");
    assert!(stderr.ends_with("\n2 issue(s) found."), "{stderr}");
}

#[test]
fn fix_from_stdin_to_stdout_text_mode() {
    let args = stdin_args(true, None, OutputFormat::Text);
    assert_eq!(plan_run(&args, false), Ok(Mode::Fix));
    let step = fix_one(
        &args,
        &InputSource::Stdin,
        &no_path(),
        Ok("CREATE INDEX idx ON t(col);".to_string()),
    );
    let (code, plan) = run_fix(
        vec![finish_fix(step, WriteOutcome::Written)],
        OutputFormat::Text,
    );
    assert_eq!(code.number(), 0);
    match plan {
        FixOutputPlan::Text(steps) => {
            assert_eq!(
                steps[0].stdout.as_deref(),
                Some("CREATE INDEX ASYNC idx ON t(col);\n")
            );
        }
        FixOutputPlan::Json { .. } => panic!("text was asked for"),
    }
}

#[test]
fn fix_from_stdin_json_mode_embeds_fixed_sql() {
    let args = stdin_args(true, None, OutputFormat::Json);
    let step = fix_one(
        &args,
        &InputSource::Stdin,
        &no_path(),
        Ok("CREATE INDEX idx ON t(col);".to_string()),
    );
    let (_, plan) = run_fix(
        vec![finish_fix(step, WriteOutcome::Written)],
        OutputFormat::Json,
    );
    match plan {
        FixOutputPlan::Json { files, .. } => {
            assert_eq!(files[0].file, "<stdin>");
            let fixed_sql = files[0].fixed_sql.as_deref().unwrap();
            assert!(
                fixed_sql.contains("ASYNC"),
                "fixed_sql should contain ASYNC: {fixed_sql}"
            );
            assert!(files[0].output_file.is_none());
        }
        FixOutputPlan::Text(_) => panic!("JSON was asked for"),
    }
}

#[test]
fn fix_from_stdin_to_output_file() {
    let args = stdin_args(true, Some("out.sql"), OutputFormat::Text);
    assert_eq!(plan_run(&args, false), Ok(Mode::Fix));
    let step = fix_one(
        &args,
        &InputSource::Stdin,
        &no_path(),
        Ok("CREATE INDEX idx ON t(col);".to_string()),
    );
    match step {
        FixStep::Write {
            path, fixed_sql, ..
        } => {
            assert_eq!(path, "out.sql");
            assert!(fixed_sql.contains("ASYNC"));
        }
        FixStep::Done(_) => panic!("a file is written"),
    }
}

#[test]
fn stdin_json_lint_mode_shows_stdin_as_file() {
    let sql = "CREATE TABLE t (id SERIAL PRIMARY KEY);";
    let outcome = lint_one(&InputSource::Stdin, Ok(sql.to_string()));
    match run_lint(vec![outcome], OutputFormat::Json).1 {
        LintOutput::Json { files, .. } => {
            assert_eq!(files[0].file, "<stdin>");
            assert!(!files[0].diagnostics.is_empty());
        }
        LintOutput::Text(_) => panic!("JSON was asked for"),
    }
}

#[test]
fn no_args_shows_usage_and_exits() {
    let mut args = stdin_args(false, None, OutputFormat::Text);
    args.files.clear();
    assert_eq!(plan_run(&args, false), Err(UsageError::NoFiles));
    let stderr = UsageError::NoFiles.message();
    assert!(
        stderr.contains("Usage"),
        "Should show usage when no args: {stderr}"
    );
}

#[test]
fn stdin_arg_cannot_appear_twice() {
    let mut args = stdin_args(false, None, OutputFormat::Text);
    args.files.push(InputSource::from_str("-"));
    assert_eq!(plan_run(&args, false), Err(UsageError::StdinTwice));
    let stderr = UsageError::StdinTwice.message();
    assert!(
        stderr.contains("stdin") && stderr.contains("'-'"),
        "Expected error about duplicate stdin, got: {stderr}"
    );
}

#[test]
fn a_terminal_is_not_read() {
    let args = stdin_args(false, None, OutputFormat::Text);
    assert_eq!(plan_run(&args, true), Err(UsageError::StdinIsTerminal));
    assert_eq!(plan_run(&args, false), Ok(Mode::Lint));
    assert!(UsageError::StdinIsTerminal
        .message()
        .contains("stdin is a terminal"));
    assert!(args.files[0].is_stdin());
}

#[test]
fn stdin_non_utf8_produces_explicit_error() {
    let outcome = lint_one(&InputSource::Stdin, Err(ReadFailure::NotUtf8));
    let (code, output) = run_lint(vec![outcome], OutputFormat::Text);
    assert_ne!(code.number(), 0);
    match output {
        LintOutput::Text(lines) => assert_eq!(
            lines,
            vec!["Error reading '<stdin>': stdin contained non-UTF-8 bytes"]
        ),
        LintOutput::Json { .. } => panic!("text was asked for"),
    }
}

#[test]
fn file_non_utf8_produces_explicit_error() {
    let source = InputSource::from_str("bad.sql");
    let outcome = lint_one(&source, Err(ReadFailure::NotUtf8));
    let (code, output) = run_lint(vec![outcome], OutputFormat::Text);
    assert_ne!(code.number(), 0);
    match output {
        LintOutput::Text(lines) => assert_eq!(
            lines,
            vec!["Error reading 'bad.sql': file contained non-UTF-8 bytes"]
        ),
        LintOutput::Json { .. } => panic!("text was asked for"),
    }
}

#[test]
fn fix_stdin_broken_pipe_exits_0() {
    let args = stdin_args(true, None, OutputFormat::Text);
    let step = fix_one(
        &args,
        &InputSource::Stdin,
        &no_path(),
        Ok("CREATE INDEX idx ON t(col);".to_string()),
    );
    let (code, _) = run_fix(
        vec![finish_fix(step, WriteOutcome::Written)],
        OutputFormat::Text,
    );
    assert_eq!(final_exit(code, RenderOutcome::BrokenPipe).number(), 0);
}

#[test]
fn an_input_that_is_gone_blocks_the_write() {
    assert!(same_output_as_input(PathCheck::InputGone));
    assert!(same_output_as_input(PathCheck::Resolved(true)));
    assert!(!same_output_as_input(PathCheck::Resolved(false)));
    assert!(!same_output_as_input(PathCheck::NoDirectory));
    assert!(!same_output_as_input(PathCheck::NoFileName));
}
