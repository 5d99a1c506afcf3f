//! Fixing files, from the arguments to the exit code.

use dsql_lint::cli::{
    finish_fix, fix_one, plan_run, Args, FixOutcome, FixStep, InputSource, Mode, OutputFormat,
    PathParts, ReadFailure, UsageError, WriteOutcome,
};
use dsql_lint::report::{run_fix, ExitCode, FixOutputPlan};

fn fix_args(names: &[&str], output: Option<&str>) -> Args {
    Args {
        files: names.iter().map(|name| InputSource::from_str(name)).collect(),
        fix: true,
        output: output.map(|path| path.to_string()),
        format: OutputFormat::Text,
    }
}

fn path_parts(stem: &str) -> PathParts {
    PathParts {
        directory: "/work/".to_string(),
        stem: stem.to_string(),
        extension: "sql".to_string(),
    }
}

/// Fixes a file; gives the path and the SQL that are to be written, and the outcome of the write.
fn fix_file(args: &Args, stem: &str, sql: &str) -> (String, String, FixOutcome) {
    let source = InputSource::File(format!("/work/{stem}.sql"));
    let step = fix_one(args, &source, &path_parts(stem), Ok(sql.to_string()));
    let (path, fixed) = match &step {
        FixStep::Write {
            path, fixed_sql, ..
        } => (path.clone(), fixed_sql.clone()),
        FixStep::Done(_) => panic!("a file is written"),
    };
    (path, fixed, finish_fix(step, WriteOutcome::Written))
}

/// The exit code, and all lines for the standard error.
fn report(outcomes: Vec<FixOutcome>) -> (ExitCode, String) {
    let (code, plan) = run_fix(outcomes, OutputFormat::Text);
    match plan {
        FixOutputPlan::Text(steps) => {
            let mut lines = Vec::new();
            for step in steps {
                assert!(step.stdout.is_none());
                lines.extend(step.stderr);
            }
            (code, lines.join("\n"))
        }
        FixOutputPlan::Json { .. } => panic!("text was asked for"),
    }
}

#[test]
fn fix_flag_creates_output_file() {
    let args = fix_args(&["/work/input.sql"], None);
    assert_eq!(plan_run(&args, false), Ok(Mode::Fix));
    let (path, fixed, outcome) =
        fix_file(&args, "input", "CREATE TABLE t (id UUID PRIMARY KEY);");
    assert_eq!(path, "/work/input-fixed.sql");
    assert_eq!(fixed, "CREATE TABLE t (id UUID PRIMARY KEY);\n");
    assert_eq!(report(vec![outcome]).0.number(), 0);
}

#[test]
fn fix_with_output_flag() {
    let args = fix_args(&["/work/input.sql"], Some("/work/custom.sql"));
    assert_eq!(plan_run(&args, false), Ok(Mode::Fix));
    let (path, _, outcome) = fix_file(&args, "input", "CREATE TABLE t (id UUID PRIMARY KEY);");
    assert_eq!(path, "/work/custom.sql");
    assert_eq!(report(vec![outcome]).0.number(), 0);
}

#[test]
fn output_without_fix_is_error() {
    let mut args = fix_args(&["input.sql"], Some("out.sql"));
    args.fix = false;
    let error = plan_run(&args, false);
    assert_eq!(error, Err(UsageError::OutputWithoutFix));
    assert_eq!(
        UsageError::OutputWithoutFix.message(),
        "Error: -o/--output requires --fix"
    );
}

#[test]
fn output_with_multiple_files_is_error() {
    let args = fix_args(&["a.sql", "b.sql"], Some("out.sql"));
    assert_eq!(plan_run(&args, false), Err(UsageError::OutputForMany));
    assert_eq!(
        UsageError::OutputForMany.message(),
        "Error: -o/--output can only be used with a single input file"
    );
}

#[test]
fn fix_serial_produces_identity_in_output() {
    let args = fix_args(&["/work/input.sql"], None);
    let (_, content, outcome) = fix_file(&args, "input", "CREATE TABLE t (id SERIAL PRIMARY KEY);");
    assert_eq!(report(vec![outcome]).0.number(), 3);
    assert!(
        content.contains("BIGINT"),
        "Expected BIGINT in output: {content}"
    );
    assert!(
        content.contains("IDENTITY"),
        "Expected IDENTITY in output: {content}"
    );
    assert!(
        !content.to_uppercase().contains("SERIAL"),
        "Should not contain SERIAL: {content}"
    );
}

#[test]
fn fix_unfixable_returns_exit_code_1() {
    let args = fix_args(&["/work/input.sql"], None);
    let (_, _, outcome) = fix_file(&args, "input", "TRUNCATE TABLE foo;");
    assert_eq!(
        report(vec![outcome]).0.number(),
        1,
        "Should exit 1 when unfixable errors remain"
    );
}

#[test]
fn fix_output_same_as_input_is_error() {
    let args = fix_args(&["/work/input.sql"], Some("/work/input.sql"));
    let source = InputSource::File("/work/input.sql".to_string());
    let sql = "CREATE TABLE t (id SERIAL PRIMARY KEY);".to_string();
    let step = fix_one(&args, &source, &path_parts("input"), Ok(sql));
    let (code, stderr) = report(vec![finish_fix(step, WriteOutcome::SameAsInput)]);
    assert_ne!(code.number(), 0);
    assert_eq!(
        stderr,
        "Error: output path '/work/input.sql' is the same as input '/work/input.sql'. Use a different output path."
    );
}

#[test]
fn fix_unfixable_shows_partial_message() {
    let args = fix_args(&["/work/input.sql"], None);
    let (_, _, outcome) = fix_file(&args, "input", "TRUNCATE TABLE foo;");
    let (code, stderr) = report(vec![outcome]);
    assert_ne!(code.number(), 0);
    assert!(
        stderr.contains("Partial fix written to"),
        "Expected 'Partial fix' message, got: {stderr}"
    );
    assert!(
        stderr.contains("(1 unfixable error(s) remain)"),
        "Expected unfixable count in message, got: {stderr}"
    );
}

#[test]
fn fix_fk_removal_shows_warning_count() {
    let args = fix_args(&["/work/input.sql"], None);
    let (_, fixed, outcome) = fix_file(
        &args,
        "input",
        "CREATE TABLE t (id INT, cid INT REFERENCES c(id));",
    );
    assert!(!fixed.contains("REFERENCES"), "{fixed}");
    let (code, stderr) = report(vec![outcome]);
    assert_eq!(code.number(), 3);
    assert!(
        stderr.contains("1 warning(s)"),
        "Expected warning count in message, got: {stderr}"
    );
    assert!(
        stderr.contains("review recommended"),
        "Expected 'review recommended' in message, got: {stderr}"
    );
    assert!(
        !stderr.contains("SQL comments"),
        "Comment note should not appear when input has no comments, got: {stderr}"
    );
}

#[test]
fn fix_clean_file_shows_plain_message() {
    let args = fix_args(&["/work/input.sql"], None);
    let (_, _, outcome) = fix_file(&args, "input", "CREATE TABLE t (id UUID PRIMARY KEY);");
    let (code, stderr) = report(vec![outcome]);
    assert_eq!(code.number(), 0);
    assert_eq!(stderr, "Fixed output written to: /work/input-fixed.sql");
}

#[test]
fn fix_empty_output_shows_distinct_message() {
    let args = fix_args(&["/work/input.sql"], None);
    let (_, fixed, outcome) = fix_file(
        &args,
        "input",
        "ALTER TABLE t ADD CONSTRAINT fk_c FOREIGN KEY (cid) REFERENCES c(id);",
    );
    assert_eq!(fixed, "");
    let (code, stderr) = report(vec![outcome]);
    assert_eq!(code.number(), 3);
    assert!(
        stderr.contains(
            "Fixed output is empty \u{2014} all statements were removed: /work/input-fixed.sql"
        ),
        "Expected empty-output message, got: {stderr}"
    );
}

#[test]
fn fix_comment_note_only_when_comments_present() {
    let args = fix_args(&["/work/input.sql"], None);
    let (_, _, outcome) = fix_file(
        &args,
        "input",
        "-- migration\nCREATE TABLE t (id SERIAL PRIMARY KEY);",
    );
    let (code, stderr) = report(vec![outcome]);
    assert_eq!(code.number(), 3);
    assert!(
        stderr.contains("SQL comments in modified statements were not preserved"),
        "Expected comment note when input has comments, got: {stderr}"
    );
}

#[test]
fn comment_note_comes_once() {
    let args = fix_args(&["/work/a.sql", "/work/b.sql"], None);
    let sql = "/* migration */ CREATE INDEX idx ON t(col);";
    let (_, _, a) = fix_file(&args, "a", sql);
    let (_, _, b) = fix_file(&args, "b", sql);
    let (code, stderr) = report(vec![a, b]);
    assert_eq!(code.number(), 0);
    assert_eq!(stderr.matches("SQL comments").count(), 1, "{stderr}");
}

#[test]
fn fix_unfixable_shows_summary() {
    let args = fix_args(&["/work/a.sql", "/work/b.sql"], None);
    let (_, _, a) = fix_file(&args, "a", "TRUNCATE TABLE foo;");
    let (_, _, b) = fix_file(&args, "b", "TRUNCATE TABLE bar;");
    let (code, stderr) = report(vec![a, b]);
    assert_ne!(code.number(), 0);
    assert!(
        stderr.contains("\nFix complete: 2 file(s) had unfixable errors"),
        "Expected multi-file summary, got: {stderr}"
    );
}

#[test]
fn fix_multiple_files_creates_multiple_outputs() {
    let args = fix_args(&["/work/a.sql", "/work/b.sql"], None);
    let (first, _, a) = fix_file(&args, "a", "CREATE INDEX idx ON t(col);");
    let (second, _, b) = fix_file(&args, "b", "CREATE TABLE t (id UUID PRIMARY KEY);");
    assert_eq!(first, "/work/a-fixed.sql");
    assert_eq!(second, "/work/b-fixed.sql");
    assert_eq!(report(vec![a, b]).0.number(), 0);
}

#[test]
fn fixed_lines_are_labelled_by_their_fix() {
    let args = fix_args(&["/work/input.sql"], None);
    let (_, fixed, outcome) = fix_file(
        &args,
        "input",
        "CREATE INDEX idx ON t(col);\nALTER TABLE t ADD COLUMN c INT REFERENCES d(id);\nVACUUM;",
    );
    assert_eq!(
        fixed,
        "CREATE INDEX ASYNC idx ON t(col);\n\nALTER TABLE t ADD COLUMN c INT;\n\nVACUUM;\n"
    );
    let (code, stderr) = report(vec![outcome]);
    assert_eq!(code, ExitCode::Errors);
    let lines: Vec<&str> = stderr.lines().collect();
    assert_eq!(
        lines,
        vec![
            "/work/input.sql:1: FIXED \u{2014} Added ASYNC to CREATE INDEX.",
            "/work/input.sql:2: WARNING \u{2014} Removed a FOREIGN KEY constraint. Keep references intact in the application.",
            "/work/input.sql:3: ERROR (unfixable) \u{2014} VACUUM is not supported in DSQL.",
            "  \u{2192} Remove the statement.",
            "  | VACUUM",
            "Partial fix written to: /work/input-fixed.sql (1 unfixable error(s) remain)",
            "",
            "Fix complete: 1 file(s) had unfixable errors and require manual review.",
        ]
    );
}

#[test]
fn unread_and_unwritten_files_are_errors() {
    let args = fix_args(&["/work/input.sql"], None);
    let source = InputSource::File("/work/input.sql".to_string());
    let unread = fix_one(
        &args,
        &source,
        &path_parts("input"),
        Err(ReadFailure::Other("gone".to_string())),
    );
    let (code, stderr) = report(vec![finish_fix(unread, WriteOutcome::Written)]);
    assert_eq!(code.number(), 1);
    assert_eq!(stderr, "Error reading '/work/input.sql': gone");
    let step = fix_one(
        &args,
        &source,
        &path_parts("input"),
        Ok("SELECT 1;".to_string()),
    );
    let failed = finish_fix(step, WriteOutcome::Failed("no space".to_string()));
    let (code, stderr) = report(vec![failed]);
    assert_eq!(code.number(), 1);
    assert_eq!(stderr, "Error writing '/work/input-fixed.sql': no space");
}

#[test]
fn names_without_extension_get_a_suffix() {
    let parts = PathParts {
        directory: String::new(),
        stem: "dump".to_string(),
        extension: String::new(),
    };
    assert_eq!(dsql_lint::cli::default_output_path(&parts), "dump-fixed");
}
