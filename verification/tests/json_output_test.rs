//! The JSON output, as the values that it is made of.

use dsql_lint::cli::{
    finish_fix, fix_one, lint_one, Args, InputSource, OutputFormat, PathParts, ReadFailure,
    WriteOutcome,
};
use dsql_lint::report::{
    final_exit, run_fix, run_lint, ExitCode, FixOutputPlan, JsonFileOutput, JsonSummary,
    LintOutput, RenderOutcome,
};
use dsql_lint::FixResult;

fn file(name: &str) -> InputSource {
    InputSource::File(name.to_string())
}

fn lint_json(inputs: &[(&str, &str)]) -> (ExitCode, Vec<JsonFileOutput>, JsonSummary) {
    let outcomes = inputs
        .iter()
        .map(|(name, sql)| lint_one(&InputSource::from_str(name), Ok(sql.to_string())))
        .collect();
    match run_lint(outcomes, OutputFormat::Json) {
        (code, LintOutput::Json { files, summary }) => (code, files, summary),
        (_, LintOutput::Text(_)) => panic!("JSON was asked for"),
    }
}

#[test]
fn json_lint_clean_file() {
    let (code, files, summary) =
        lint_json(&[("clean.sql", "CREATE TABLE t (id UUID PRIMARY KEY);")]);
    assert_eq!(code.number(), 0);
    assert_eq!(files.len(), 1);
    assert_eq!(files[0].file, "clean.sql");
    assert!(files[0].diagnostics.is_empty());
    assert_eq!(summary.errors, 0);
    assert_eq!(summary.warnings, 0);
}

#[test]
fn json_lint_with_errors() {
    let (code, files, summary) =
        lint_json(&[("bad.sql", "CREATE TABLE t (id SERIAL PRIMARY KEY);")]);
    assert_ne!(code.number(), 0);
    let diagnostics = &files[0].diagnostics;
    assert_eq!(diagnostics.len(), 1);
    let d = &diagnostics[0].diagnostic;
    assert_eq!(d.rule.name(), "serial_type");
    assert_eq!(d.line, 1);
    assert!(d.message.contains("SERIAL"));
    assert!(!d.suggestion.is_empty());
    assert!(matches!(d.fix_result, FixResult::FixedWithWarning(_)));
    let preview = &diagnostics[0].statement_preview;
    assert!(
        !preview.contains('\n'),
        "Preview should not contain newlines"
    );
    assert_eq!(preview, "CREATE TABLE t (id SERIAL PRIMARY KEY)");
    assert_eq!(summary.warnings, 1);
    assert_eq!(summary.errors, 0);
}

#[test]
fn json_fix_mode_file_has_output_file() {
    let args = Args {
        files: vec![file("fix.sql")],
        fix: true,
        output: None,
        format: OutputFormat::Json,
    };
    let parts = PathParts {
        directory: String::new(),
        stem: "fix".to_string(),
        extension: "sql".to_string(),
    };
    let step = fix_one(
        &args,
        &file("fix.sql"),
        &parts,
        Ok("CREATE INDEX idx ON t(col);".to_string()),
    );
    let (code, plan) = run_fix(
        vec![finish_fix(step, WriteOutcome::Written)],
        OutputFormat::Json,
    );
    assert_eq!(code.number(), 0);
    match plan {
        FixOutputPlan::Json { files, summary } => {
            let d = &files[0].diagnostics[0].diagnostic;
            assert!(matches!(d.fix_result, FixResult::Fixed(_)));
            assert_eq!(files[0].output_file.as_deref(), Some("fix-fixed.sql"));
            assert!(files[0].fixed_sql.is_none());
            assert!(files[0].error.is_none());
            assert_eq!(summary.fixed, 1);
        }
        FixOutputPlan::Text(_) => panic!("JSON was asked for"),
    }
}

#[test]
fn json_file_read_error_appears_in_files_array() {
    let source = file("/nonexistent/file.sql");
    let failure = ReadFailure::Other("No such file or directory (os error 2)".to_string());
    let (code, output) = run_lint(vec![lint_one(&source, Err(failure))], OutputFormat::Json);
    assert_ne!(code.number(), 0);
    match output {
        LintOutput::Json { files, summary } => {
            assert_eq!(files[0].file, "/nonexistent/file.sql");
            assert_eq!(
                files[0].error.as_deref(),
                Some("Error reading '/nonexistent/file.sql': No such file or directory (os error 2)")
            );
            assert!(files[0].diagnostics.is_empty());
            assert_eq!(summary.errors, 1);
        }
        LintOutput::Text(_) => panic!("JSON was asked for"),
    }
}

#[test]
fn json_lint_nullable_fields_always_present() {
    let (_, files, _) = lint_json(&[("clean.sql", "CREATE TABLE t (id UUID PRIMARY KEY);")]);
    assert!(files[0].error.is_none());
    assert!(files[0].output_file.is_none());
    assert!(files[0].fixed_sql.is_none());
}

#[test]
fn json_multiple_files_grouped() {
    let (_, files, _) = lint_json(&[
        ("a.sql", "CREATE TABLE t (id SERIAL PRIMARY KEY);"),
        ("b.sql", "CREATE TABLE u (id UUID PRIMARY KEY);"),
    ]);
    assert_eq!(files.len(), 2);
    assert!(!files[0].diagnostics.is_empty());
    assert!(files[1].diagnostics.is_empty());
}

#[test]
fn json_broken_pipe_exits_0() {
    let (code, _, _) = lint_json(&[("a.sql", "CREATE TABLE t (id SERIAL);")]);
    assert_eq!(code, ExitCode::Errors);
    assert_eq!(final_exit(code, RenderOutcome::BrokenPipe).number(), 0);
}

#[test]
fn unwritten_output_is_an_error() {
    assert_eq!(
        final_exit(ExitCode::Clean, RenderOutcome::WriteError).number(),
        1
    );
    assert_eq!(
        final_exit(ExitCode::Warnings, RenderOutcome::Completed).number(),
        3
    );
    assert_eq!(ExitCode::Usage.number(), 2);
}

#[test]
fn summaries_count_by_fix() {
    let (code, _, summary) = lint_json(&[(
        "mixed.sql",
        "CREATE INDEX i ON t(c); CREATE TABLE t (a SERIAL, b JSON); VACUUM;",
    )]);
    assert_eq!(code, ExitCode::Errors);
    assert_eq!(summary.errors, 2);
    assert_eq!(summary.warnings, 1);
    assert_eq!(summary.fixed, 0);
}
