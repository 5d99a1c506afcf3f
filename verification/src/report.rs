//! What a run tells the user: exit codes, summaries, lines of text and JSON.

pub mod laws;

use vstd::prelude::*;

use crate::cli::{FixDest, FixOutcome, LintOutcome, OutputFormat};
use crate::diagnostic::{findings, Diagnostic, Finding, Fix, FixResult};
use crate::lint::{any_change, some_changes};
use crate::preview::{make_preview, preview};
use crate::text::{decimal, decimal_text, texts};

verus! {

/// How the process ends. The numbers are part of the interface: see [`ExitCode::number`].
#[derive(Clone, Copy, PartialEq, Eq, Structural, Debug)]
pub enum ExitCode {
    /// Nothing was found, or everything was fixed without warnings.
    Clean,
    /// There are issues (linting), or issues that nothing can fix (fixing).
    Errors,
    /// The arguments are wrong.
    Usage,
    /// Everything was fixed, with warnings.
    Warnings,
}

impl ExitCode {
    /// The exit code of the process.
    pub fn number(self) -> (r: i32)
        ensures
            r == match self {
                ExitCode::Clean => 0i32,
                ExitCode::Errors => 1i32,
                ExitCode::Usage => 2i32,
                ExitCode::Warnings => 3i32,
            },
    {
        match self {
            ExitCode::Clean => 0,
            ExitCode::Errors => 1,
            ExitCode::Usage => 2,
            ExitCode::Warnings => 3,
        }
    }
}

/// What became of the output of a run.
#[derive(Clone, Copy, PartialEq, Eq, Structural, Debug)]
pub enum RenderOutcome {
    Completed,
    /// The reader has gone away.
    BrokenPipe,
    /// The output could not be written.
    WriteError,
}

/// How the process ends, once the output is written: a reader that has gone away is no error, and
/// output that could not be written never looks clean.
pub fn final_exit(exit_code: ExitCode, render: RenderOutcome) -> (r: ExitCode)
    ensures
        r == match render {
            RenderOutcome::BrokenPipe => ExitCode::Clean,
            RenderOutcome::WriteError => ExitCode::Errors,
            RenderOutcome::Completed => exit_code,
        },
{
    match render {
        RenderOutcome::BrokenPipe => ExitCode::Clean,
        RenderOutcome::WriteError => ExitCode::Errors,
        RenderOutcome::Completed => exit_code,
    }
}

/// The numbers at the end of the JSON output.
#[derive(Clone, Copy, PartialEq, Eq, Structural, Debug)]
pub struct JsonSummary {
    pub errors: usize,
    pub warnings: usize,
    pub fixed: usize,
}

/// What linting has come to over all inputs.
#[derive(Clone, Copy, PartialEq, Eq, Structural, Debug)]
pub struct LintTally {
    pub summary: JsonSummary,
    pub total_diagnostics: usize,
    pub had_read_error: bool,
}

impl LintTally {
    /// How the process ends: with an error where anything was found or could not be read.
    pub fn exit_code(&self) -> (r: ExitCode)
        ensures
            r == (if self.total_diagnostics > 0 || self.had_read_error {
                ExitCode::Errors
            } else {
                ExitCode::Clean
            }),
    {
        if self.total_diagnostics > 0 || self.had_read_error {
            ExitCode::Errors
        } else {
            ExitCode::Clean
        }
    }
}

/// What fixing has come to over all inputs.
#[derive(Clone, Copy, PartialEq, Eq, Structural, Debug)]
pub struct FixTally {
    pub summary: JsonSummary,
    pub had_unfixable: bool,
    pub had_io_error: bool,
}

impl FixTally {
    /// How the process ends: with an error where something is left to do, else with a warning where
    /// there was one.
    pub fn exit_code(&self) -> (r: ExitCode)
        ensures
            r == (if self.had_unfixable || self.had_io_error {
                ExitCode::Errors
            } else if self.summary.warnings > 0 {
                ExitCode::Warnings
            } else {
                ExitCode::Clean
            }),
    {
        if self.had_unfixable || self.had_io_error {
            ExitCode::Errors
        } else if self.summary.warnings > 0 {
            ExitCode::Warnings
        } else {
            ExitCode::Clean
        }
    }
}

/// How many findings nothing can fix.
pub open spec fn unfixable_count(all: Seq<Finding>) -> nat
    decreases all.len(),
{
    if all.len() == 0 {
        0
    } else {
        unfixable_count(all.drop_last()) + (if all.last().fix is Unfixable {
            1nat
        } else {
            0nat
        })
    }
}

/// How many findings were fixed with a warning.
pub open spec fn warning_count(all: Seq<Finding>) -> nat
    decreases all.len(),
{
    if all.len() == 0 {
        0
    } else {
        warning_count(all.drop_last()) + (if all.last().fix is FixedWithWarning {
            1nat
        } else {
            0nat
        })
    }
}

/// How many findings were fixed without a warning.
pub open spec fn fixed_count(all: Seq<Finding>) -> nat
    decreases all.len(),
{
    if all.len() == 0 {
        0
    } else {
        fixed_count(all.drop_last()) + (if all.last().fix is Fixed {
            1nat
        } else {
            0nat
        })
    }
}

/// Each finding is unfixable, fixed with a warning, or fixed.
pub proof fn counts_cover_findings(all: Seq<Finding>)
    ensures
        unfixable_count(all) + warning_count(all) + fixed_count(all) == all.len(),
    decreases all.len(),
{
    if all.len() > 0 {
        counts_cover_findings(all.drop_last());
    }
}

/// Counts diagnostics: those that nothing can fix, those fixed with a warning, those fixed.
pub fn count_diagnostics(diagnostics: &Vec<Diagnostic>) -> (r: JsonSummary)
    ensures
        r.errors == unfixable_count(findings(diagnostics@)),
        r.warnings == warning_count(findings(diagnostics@)),
        r.fixed == fixed_count(findings(diagnostics@)),
{
    let ghost all = findings(diagnostics@);
    let mut counts = JsonSummary { errors: 0, warnings: 0, fixed: 0 };
    let mut i: usize = 0;
    while i < diagnostics.len()
        invariant
            i <= diagnostics@.len(),
            all == findings(diagnostics@),
            counts.errors == unfixable_count(all.take(i as int)),
            counts.warnings == warning_count(all.take(i as int)),
            counts.fixed == fixed_count(all.take(i as int)),
            counts.errors <= i,
            counts.warnings <= i,
            counts.fixed <= i,
        decreases diagnostics@.len() - i,
    {
        proof {
            assert(all.take(i + 1).drop_last() =~= all.take(i as int));
            assert(all.take(i + 1).last() == diagnostics@[i as int]@);
        }
        match &diagnostics[i].fix_result {
            FixResult::Unfixable => {
                counts.errors += 1;
            },
            FixResult::FixedWithWarning(_) => {
                counts.warnings += 1;
            },
            FixResult::Fixed(_) => {
                counts.fixed += 1;
            },
        }
        i += 1;
    }
    assert(all.take(i as int) =~= all);
    counts
}

/// How many diagnostics and failures the outcomes of linting hold.
pub open spec fn lint_size(outcomes: Seq<LintOutcome>) -> nat
    decreases outcomes.len(),
{
    if outcomes.len() == 0 {
        0
    } else {
        lint_size(outcomes.drop_last()) + match outcomes.last() {
            LintOutcome::ReadError { .. } => 1,
            LintOutcome::Linted { diagnostics, .. } => diagnostics@.len(),
        }
    }
}

/// How many errors the outcomes of linting hold: inputs that could not be read, and findings that
/// nothing can fix.
pub open spec fn lint_errors(outcomes: Seq<LintOutcome>) -> nat
    decreases outcomes.len(),
{
    if outcomes.len() == 0 {
        0
    } else {
        lint_errors(outcomes.drop_last()) + match outcomes.last() {
            LintOutcome::ReadError { .. } => 1,
            LintOutcome::Linted { diagnostics, .. } => unfixable_count(findings(diagnostics@)),
        }
    }
}

/// How many warnings the outcomes of linting hold.
pub open spec fn lint_warnings(outcomes: Seq<LintOutcome>) -> nat
    decreases outcomes.len(),
{
    if outcomes.len() == 0 {
        0
    } else {
        lint_warnings(outcomes.drop_last()) + match outcomes.last() {
            LintOutcome::ReadError { .. } => 0,
            LintOutcome::Linted { diagnostics, .. } => warning_count(findings(diagnostics@)),
        }
    }
}

/// How many diagnostics the outcomes of linting hold.
pub open spec fn lint_total(outcomes: Seq<LintOutcome>) -> nat
    decreases outcomes.len(),
{
    if outcomes.len() == 0 {
        0
    } else {
        lint_total(outcomes.drop_last()) + match outcomes.last() {
            LintOutcome::ReadError { .. } => 0,
            LintOutcome::Linted { diagnostics, .. } => diagnostics@.len(),
        }
    }
}

/// Whether an input could not be read.
pub open spec fn some_unread(outcomes: Seq<LintOutcome>) -> bool {
    exists|i: int| 0 <= i < outcomes.len() && (#[trigger] outcomes[i]) is ReadError
}

/// Adds linting up over all inputs.
pub fn tally_lint(outcomes: &Vec<LintOutcome>) -> (t: LintTally)
    requires
        lint_size(outcomes@) <= usize::MAX,
    ensures
        t.summary.errors == lint_errors(outcomes@),
        t.summary.warnings == lint_warnings(outcomes@),
        t.summary.fixed == 0,
        t.total_diagnostics == lint_total(outcomes@),
        t.had_read_error == some_unread(outcomes@),
{
    let ghost all = outcomes@;
    let mut t = LintTally {
        summary: JsonSummary { errors: 0, warnings: 0, fixed: 0 },
        total_diagnostics: 0,
        had_read_error: false,
    };
    let mut i: usize = 0;
    while i < outcomes.len()
        invariant
            i <= outcomes@.len(),
            all == outcomes@,
            lint_size(all) <= usize::MAX,
            t.summary.errors == lint_errors(all.take(i as int)),
            t.summary.warnings == lint_warnings(all.take(i as int)),
            t.summary.fixed == 0,
            t.total_diagnostics == lint_total(all.take(i as int)),
            t.summary.errors <= lint_size(all.take(i as int)),
            t.summary.warnings <= lint_size(all.take(i as int)),
            t.total_diagnostics <= lint_size(all.take(i as int)),
            t.had_read_error == exists|j: int| 0 <= j < i && (#[trigger] all[j]) is ReadError,
        decreases outcomes@.len() - i,
    {
        proof {
            assert(all.take(i + 1).drop_last() =~= all.take(i as int));
            lemma_lint_size(all, i + 1);
        }
        match &outcomes[i] {
            LintOutcome::ReadError { .. } => {
                t.had_read_error = true;
                t.summary.errors += 1;
                assert(all[i as int] is ReadError);
            },
            LintOutcome::Linted { diagnostics, .. } => {
                let counts = count_diagnostics(diagnostics);
                proof {
                    counts_cover_findings(findings(diagnostics@));
                }
                t.total_diagnostics += diagnostics.len();
                t.summary.errors += counts.errors;
                t.summary.warnings += counts.warnings;
            },
        }
        i += 1;
    }
    assert(all.take(i as int) =~= all);
    t
}

proof fn lemma_lint_size(outcomes: Seq<LintOutcome>, k: int)
    requires
        0 <= k <= outcomes.len(),
    ensures
        lint_size(outcomes.take(k)) <= lint_size(outcomes),
    decreases outcomes.len() - k,
{
    if k == outcomes.len() {
        assert(outcomes.take(k) =~= outcomes);
    } else {
        lemma_lint_size(outcomes, k + 1);
        assert(outcomes.take(k + 1).drop_last() =~= outcomes.take(k));
    }
}

/// How many diagnostics and failures the outcomes of fixing hold.
pub open spec fn fix_size(outcomes: Seq<FixOutcome>) -> nat
    decreases outcomes.len(),
{
    if outcomes.len() == 0 {
        0
    } else {
        fix_size(outcomes.drop_last()) + match outcomes.last() {
            FixOutcome::Processed { diagnostics, .. } => diagnostics@.len(),
            _ => 1,
        }
    }
}

/// How many errors the outcomes of fixing hold: inputs that could not be read or written, and
/// findings that nothing can fix.
pub open spec fn fix_errors(outcomes: Seq<FixOutcome>) -> nat
    decreases outcomes.len(),
{
    if outcomes.len() == 0 {
        0
    } else {
        fix_errors(outcomes.drop_last()) + match outcomes.last() {
            FixOutcome::Processed { diagnostics, .. } => unfixable_count(findings(diagnostics@)),
            _ => 1,
        }
    }
}

/// How many warnings the outcomes of fixing hold.
pub open spec fn fix_warnings(outcomes: Seq<FixOutcome>) -> nat
    decreases outcomes.len(),
{
    if outcomes.len() == 0 {
        0
    } else {
        fix_warnings(outcomes.drop_last()) + match outcomes.last() {
            FixOutcome::Processed { diagnostics, .. } => warning_count(findings(diagnostics@)),
            _ => 0,
        }
    }
}

/// How many findings were fixed without a warning.
pub open spec fn fix_fixed(outcomes: Seq<FixOutcome>) -> nat
    decreases outcomes.len(),
{
    if outcomes.len() == 0 {
        0
    } else {
        fix_fixed(outcomes.drop_last()) + match outcomes.last() {
            FixOutcome::Processed { diagnostics, .. } => fixed_count(findings(diagnostics@)),
            _ => 0,
        }
    }
}

/// Whether nothing could fix something in an input.
pub open spec fn left_unfixed(outcome: FixOutcome) -> bool {
    outcome matches FixOutcome::Processed { diagnostics, .. } && unfixable_count(
        findings(diagnostics@),
    ) > 0
}

/// Whether an input could not be read or written.
pub open spec fn failed(outcome: FixOutcome) -> bool {
    !(outcome is Processed)
}

/// Adds fixing up over all inputs.
pub fn tally_fix(outcomes: &Vec<FixOutcome>) -> (t: FixTally)
    requires
        fix_size(outcomes@) <= usize::MAX,
    ensures
        t.summary.errors == fix_errors(outcomes@),
        t.summary.warnings == fix_warnings(outcomes@),
        t.summary.fixed == fix_fixed(outcomes@),
        t.had_unfixable == exists|i: int|
            0 <= i < outcomes@.len() && left_unfixed(#[trigger] outcomes@[i]),
        t.had_io_error == exists|i: int|
            0 <= i < outcomes@.len() && failed(#[trigger] outcomes@[i]),
{
    let ghost all = outcomes@;
    let mut t = FixTally {
        summary: JsonSummary { errors: 0, warnings: 0, fixed: 0 },
        had_unfixable: false,
        had_io_error: false,
    };
    let mut i: usize = 0;
    while i < outcomes.len()
        invariant
            i <= outcomes@.len(),
            all == outcomes@,
            fix_size(all) <= usize::MAX,
            t.summary.errors == fix_errors(all.take(i as int)),
            t.summary.warnings == fix_warnings(all.take(i as int)),
            t.summary.fixed == fix_fixed(all.take(i as int)),
            t.summary.errors <= fix_size(all.take(i as int)),
            t.summary.warnings <= fix_size(all.take(i as int)),
            t.summary.fixed <= fix_size(all.take(i as int)),
            t.had_unfixable == exists|j: int| 0 <= j < i && left_unfixed(#[trigger] all[j]),
            t.had_io_error == exists|j: int| 0 <= j < i && failed(#[trigger] all[j]),
        decreases outcomes@.len() - i,
    {
        proof {
            assert(all.take(i + 1).drop_last() =~= all.take(i as int));
            lemma_fix_size(all, i + 1);
        }
        let ghost outcome = all[i as int];
        match &outcomes[i] {
            FixOutcome::Processed { diagnostics, .. } => {
                let counts = count_diagnostics(diagnostics);
                proof {
                    counts_cover_findings(findings(diagnostics@));
                }
                t.summary.fixed += counts.fixed;
                t.summary.warnings += counts.warnings;
                t.summary.errors += counts.errors;
                assert(!failed(outcome));
                assert(left_unfixed(outcome) == (counts.errors > 0));
                if counts.errors > 0 {
                    t.had_unfixable = true;
                }
            },
            _ => {
                assert(failed(outcome));
                assert(!left_unfixed(outcome));
                t.had_io_error = true;
                t.summary.errors += 1;
            },
        }
        i += 1;
    }
    assert(all.take(i as int) =~= all);
    t
}

proof fn lemma_fix_size(outcomes: Seq<FixOutcome>, k: int)
    requires
        0 <= k <= outcomes.len(),
    ensures
        fix_size(outcomes.take(k)) <= fix_size(outcomes),
    decreases outcomes.len() - k,
{
    if k == outcomes.len() {
        assert(outcomes.take(k) =~= outcomes);
    } else {
        lemma_fix_size(outcomes, k + 1);
        assert(outcomes.take(k + 1).drop_last() =~= outcomes.take(k));
    }
}

/// A diagnostic in the JSON output.
#[derive(Debug)]
pub struct JsonDiagnostic {
    pub diagnostic: Diagnostic,
    pub statement_preview: String,
}

/// An input in the JSON output. At most one of `error`, `output_file` and `fixed_sql` is there.
#[derive(Debug)]
pub struct JsonFileOutput {
    pub file: String,
    pub diagnostics: Vec<JsonDiagnostic>,
    pub error: Option<String>,
    pub output_file: Option<String>,
    pub fixed_sql: Option<String>,
}

/// The model of a [`JsonFileOutput`]: a finding comes with the preview of its statement.
pub struct FileReport {
    pub file: Seq<char>,
    pub diagnostics: Seq<(Finding, Seq<char>)>,
    pub error: Option<Seq<char>>,
    pub output_file: Option<Seq<char>>,
    pub fixed_sql: Option<Seq<char>>,
}

/// A text, or none, as plain values.
pub open spec fn optional(text: Option<String>) -> Option<Seq<char>> {
    match text {
        Some(text) => Some(text@),
        None => None,
    }
}

/// Diagnostics of the JSON output as plain values.
pub open spec fn reported(diagnostics: Seq<JsonDiagnostic>) -> Seq<(Finding, Seq<char>)> {
    diagnostics.map_values(|d: JsonDiagnostic| (d.diagnostic@, d.statement_preview@))
}

/// Findings, each with the preview of its statement.
pub open spec fn previewed(all: Seq<Finding>) -> Seq<(Finding, Seq<char>)> {
    all.map_values(|finding: Finding| (finding, preview(finding.statement)))
}

impl View for JsonFileOutput {
    type V = FileReport;

    open spec fn view(&self) -> FileReport {
        FileReport {
            file: self.file@,
            diagnostics: reported(self.diagnostics@),
            error: optional(self.error),
            output_file: optional(self.output_file),
            fixed_sql: optional(self.fixed_sql),
        }
    }
}

/// Adds the preview of its statement to a diagnostic.
pub fn to_json_diag(d: Diagnostic) -> (r: JsonDiagnostic)
    ensures
        r.diagnostic == d,
        r.statement_preview@ == preview(d.statement@),
{
    JsonDiagnostic { statement_preview: make_preview(d.statement.as_str()), diagnostic: d }
}

/// Adds the preview of its statement to each diagnostic.
pub fn to_json_diags(ds: Vec<Diagnostic>) -> (r: Vec<JsonDiagnostic>)
    ensures
        reported(r@) == previewed(findings(ds@)),
{
    let ghost all = previewed(findings(ds@));
    let mut r: Vec<JsonDiagnostic> = Vec::new();
    for d in it: ds
        invariant
            it.seq() == ds@,
            all == previewed(findings(ds@)),
            0 <= it.index() <= ds@.len(),
            reported(r@) =~= all.take(it.index() as int),
    {
        let ghost before = r@;
        r.push(to_json_diag(d));
        assert(reported(r@) =~= reported(before).push(all[it.index() as int]));
    }
    assert(all.take(all.len() as int) =~= all);
    r
}

/// What the JSON output says of an input that was linted.
pub open spec fn lint_report(outcome: LintOutcome) -> FileReport {
    match outcome {
        LintOutcome::ReadError { display, message } => FileReport {
            file: display@,
            diagnostics: Seq::empty(),
            error: Some(message@),
            output_file: None,
            fixed_sql: None,
        },
        LintOutcome::Linted { display, diagnostics } => FileReport {
            file: display@,
            diagnostics: previewed(findings(diagnostics@)),
            error: None,
            output_file: None,
            fixed_sql: None,
        },
    }
}

/// Puts an input that was linted into the JSON output.
pub fn lint_outcome_json(o: LintOutcome) -> (r: JsonFileOutput)
    ensures
        r@ == lint_report(o),
{
    match o {
        LintOutcome::ReadError { display, message } => error_json(display, message),
        LintOutcome::Linted { display, diagnostics } => JsonFileOutput {
            file: display,
            diagnostics: to_json_diags(diagnostics),
            error: None,
            output_file: None,
            fixed_sql: None,
        },
    }
}

/// What the JSON output says of an input that was fixed.
pub open spec fn fix_report(outcome: FixOutcome) -> FileReport {
    match outcome {
        FixOutcome::Processed { display, diagnostics, fixed_sql, dest, .. } => FileReport {
            file: display@,
            diagnostics: previewed(findings(diagnostics@)),
            error: None,
            output_file: match dest {
                FixDest::File(path) => Some(path@),
                _ => None,
            },
            fixed_sql: match dest {
                FixDest::File(_) => None,
                _ => Some(fixed_sql@),
            },
        },
        FixOutcome::ReadError { display, message } => FileReport {
            file: display@,
            diagnostics: Seq::empty(),
            error: Some(message@),
            output_file: None,
            fixed_sql: None,
        },
        FixOutcome::IoError { display, message } => FileReport {
            file: display@,
            diagnostics: Seq::empty(),
            error: Some(message@),
            output_file: None,
            fixed_sql: None,
        },
    }
}

/// Whether the fixed SQL of an input goes to the standard output.
pub open spec fn goes_to_stdout(outcome: FixOutcome) -> bool {
    outcome matches FixOutcome::Processed { dest, .. } && dest is Stdout
}

/// Puts an input that was fixed into the JSON output.
pub fn fix_outcome_json(o: FixOutcome) -> (r: JsonFileOutput)
    requires
        !goes_to_stdout(o),
    ensures
        r@ == fix_report(o),
{
    match o {
        FixOutcome::Processed { display, diagnostics, fixed_sql, dest, .. } => {
            let (output_file, inline) = match dest {
                FixDest::File(path) => (Some(path), None),
                _ => (None, Some(fixed_sql)),
            };
            JsonFileOutput {
                file: display,
                diagnostics: to_json_diags(diagnostics),
                error: None,
                output_file,
                fixed_sql: inline,
            }
        },
        FixOutcome::ReadError { display, message } => error_json(display, message),
        FixOutcome::IoError { display, message } => error_json(display, message),
    }
}

fn error_json(display: String, message: String) -> (r: JsonFileOutput)
    ensures
        r@ == (FileReport {
            file: display@,
            diagnostics: Seq::empty(),
            error: Some(message@),
            output_file: None,
            fixed_sql: None,
        }),
{
    let none: Vec<JsonDiagnostic> = Vec::new();
    assert(reported(none@) =~= Seq::empty());
    JsonFileOutput {
        file: display,
        diagnostics: none,
        error: Some(message),
        output_file: None,
        fixed_sql: None,
    }
}

/// The line that says where a finding is and how grave it is.
pub open spec fn headline(
    display: Seq<char>,
    line: usize,
    label: Seq<char>,
    message: Seq<char>,
) -> Seq<char> {
    display + ":"@ + decimal(line as nat) + ": "@ + label + " \u{2014} "@ + message
}

fn write_headline(display: &str, line: usize, label: &str, message: &str) -> (r: String)
    ensures
        r@ == headline(display@, line, label@, message@),
{
    let mut out = display.to_owned();
    out.append(":");
    out.append(decimal_text(line).as_str());
    out.append(": ");
    out.append(label);
    out.append(" \u{2014} ");
    out.append(message);
    out
}

/// The lines that follow a headline: what to do, and which statement it is about.
pub open spec fn details(finding: Finding) -> Seq<Seq<char>> {
    seq!["  \u{2192} "@ + finding.suggestion, "  | "@ + preview(finding.statement)]
}

fn push_details(d: &Diagnostic, lines: &mut Vec<String>)
    ensures
        texts(final(lines)@) == texts(old(lines)@) + details(d@),
{
    let ghost before = texts(lines@);
    let mut advice = "  \u{2192} ".to_owned();
    advice.append(d.suggestion.as_str());
    let mut about = "  | ".to_owned();
    about.append(make_preview(d.statement.as_str()).as_str());
    lines.push(advice);
    lines.push(about);
    assert(texts(lines@) =~= before + details(d@));
}

/// How grave a finding is when SQL is linted.
pub open spec fn severity(fix: Fix) -> Seq<char> {
    match fix {
        Fix::Unfixable => "ERROR"@,
        Fix::FixedWithWarning(_) => "WARNING"@,
        Fix::Fixed(_) => "INFO"@,
    }
}

/// The lines for a finding when SQL is linted.
pub open spec fn lint_finding_lines(display: Seq<char>, finding: Finding) -> Seq<Seq<char>> {
    seq![headline(display, finding.line, severity(finding.fix), finding.message)] + details(finding)
}

/// The lines for some findings when SQL is linted.
pub open spec fn lint_findings_lines(display: Seq<char>, all: Seq<Finding>) -> Seq<Seq<char>>
    decreases all.len(),
{
    if all.len() == 0 {
        Seq::empty()
    } else {
        lint_findings_lines(display, all.drop_last()) + lint_finding_lines(display, all.last())
    }
}

/// The lines for an input that was linted.
pub open spec fn lint_lines(outcome: LintOutcome) -> Seq<Seq<char>> {
    match outcome {
        LintOutcome::ReadError { message, .. } => seq![message@],
        LintOutcome::Linted { display, diagnostics } => lint_findings_lines(
            display@,
            findings(diagnostics@),
        ),
    }
}

/// Writes the lines for an input that was linted.
pub fn render_lint_outcome_text(o: &LintOutcome, lines: &mut Vec<String>)
    ensures
        texts(final(lines)@) == texts(old(lines)@) + lint_lines(*o),
{
    let ghost before = texts(lines@);
    match o {
        LintOutcome::ReadError { message, .. } => {
            lines.push(message.clone());
            assert(texts(lines@) =~= before + seq![message@]);
        },
        LintOutcome::Linted { display, diagnostics } => {
            let ghost all = findings(diagnostics@);
            let mut i: usize = 0;
            assert(texts(lines@) =~= before + lint_findings_lines(display@, all.take(0)));
            while i < diagnostics.len()
                invariant
                    i <= diagnostics@.len(),
                    all == findings(diagnostics@),
                    texts(lines@) == before + lint_findings_lines(display@, all.take(i as int)),
                decreases diagnostics@.len() - i,
            {
                let d = &diagnostics[i];
                proof {
                    assert(all.take(i + 1).drop_last() =~= all.take(i as int));
                    assert(all.take(i + 1).last() == d@);
                }
                let label = match &d.fix_result {
                    FixResult::Unfixable => "ERROR",
                    FixResult::FixedWithWarning(_) => "WARNING",
                    FixResult::Fixed(_) => "INFO",
                };
                let ghost done = texts(lines@);
                let head = write_headline(display.as_str(), d.line, label, d.message.as_str());
                lines.push(head);
                assert(texts(lines@) =~= done.push(head@));
                push_details(d, lines);
                i += 1;
                assert(texts(lines@) =~= before + lint_findings_lines(
                    display@,
                    all.take(i as int),
                ));
            }
            assert(all.take(i as int) =~= all);
        },
    }
}

/// The lines for some inputs that were linted.
pub open spec fn all_lint_lines(outcomes: Seq<LintOutcome>) -> Seq<Seq<char>>
    decreases outcomes.len(),
{
    if outcomes.len() == 0 {
        Seq::empty()
    } else {
        all_lint_lines(outcomes.drop_last()) + lint_lines(outcomes.last())
    }
}

/// The last line of linting: how much was found; nothing where nothing was found but an input could
/// not be read.
pub open spec fn lint_conclusion(total: nat, unread: bool) -> Seq<Seq<char>> {
    if total > 0 {
        seq!["\n"@ + decimal(total) + " issue(s) found."@]
    } else if !unread {
        seq!["All statements compatible with DSQL."@]
    } else {
        Seq::empty()
    }
}

/// What linting gives the user.
#[derive(Debug)]
pub enum LintOutput {
    /// A JSON document.
    Json { files: Vec<JsonFileOutput>, summary: JsonSummary },
    /// Lines for the standard error.
    Text(Vec<String>),
}

/// Inputs of the JSON output as plain values.
pub open spec fn file_reports(files: Seq<JsonFileOutput>) -> Seq<FileReport> {
    files.map_values(|file: JsonFileOutput| file@)
}

/// How linting ends, judged by the outcomes.
pub open spec fn lint_exit(outcomes: Seq<LintOutcome>) -> ExitCode {
    if lint_total(outcomes) > 0 || some_unread(outcomes) {
        ExitCode::Errors
    } else {
        ExitCode::Clean
    }
}

/// Draws up what linting gives the user, and how it ends.
pub fn run_lint(outcomes: Vec<LintOutcome>, format: OutputFormat) -> (r: (ExitCode, LintOutput))
    requires
        lint_size(outcomes@) <= usize::MAX,
    ensures
        r.0 == lint_exit(outcomes@),
        match r.1 {
            LintOutput::Json { files, summary } => {
                &&& format is Json
                &&& file_reports(files@) == outcomes@.map_values(
                    |outcome: LintOutcome| lint_report(outcome),
                )
                &&& summary.errors == lint_errors(outcomes@)
                &&& summary.warnings == lint_warnings(outcomes@)
                &&& summary.fixed == 0
            },
            LintOutput::Text(lines) => {
                &&& format is Text
                &&& texts(lines@) == all_lint_lines(outcomes@) + lint_conclusion(
                    lint_total(outcomes@),
                    some_unread(outcomes@),
                )
            },
        },
{
    let ghost all = outcomes@;
    let tally = tally_lint(&outcomes);
    if format.is_json() {
        let ghost goal = all.map_values(|outcome: LintOutcome| lint_report(outcome));
        let mut files: Vec<JsonFileOutput> = Vec::new();
        for o in it: outcomes
            invariant
                it.seq() == all,
                goal == all.map_values(|outcome: LintOutcome| lint_report(outcome)),
                0 <= it.index() <= all.len(),
                file_reports(files@) =~= goal.take(it.index() as int),
        {
            let ghost before = files@;
            files.push(lint_outcome_json(o));
            assert(file_reports(files@) =~= file_reports(before).push(goal[it.index() as int]));
        }
        assert(goal.take(goal.len() as int) =~= goal);
        (tally.exit_code(), LintOutput::Json { files, summary: tally.summary })
    } else {
        let mut lines: Vec<String> = Vec::new();
        let mut i: usize = 0;
        assert(texts(lines@) =~= all_lint_lines(all.take(0)));
        while i < outcomes.len()
            invariant
                i <= outcomes@.len(),
                all == outcomes@,
                texts(lines@) == all_lint_lines(all.take(i as int)),
            decreases outcomes@.len() - i,
        {
            assert(all.take(i + 1).drop_last() =~= all.take(i as int));
            render_lint_outcome_text(&outcomes[i], &mut lines);
            i += 1;
        }
        assert(all.take(i as int) =~= all);
        let ghost done = texts(lines@);
        if tally.total_diagnostics > 0 {
            let mut last = "\n".to_owned();
            last.append(decimal_text(tally.total_diagnostics).as_str());
            last.append(" issue(s) found.");
            lines.push(last);
        } else if !tally.had_read_error {
            lines.push("All statements compatible with DSQL.".to_owned());
        }
        assert(texts(lines@) =~= done + lint_conclusion(lint_total(all), some_unread(all)));
        (tally.exit_code(), LintOutput::Text(lines))
    }
}

/// The lines for a finding when SQL is fixed.
pub open spec fn fix_finding_lines(display: Seq<char>, finding: Finding) -> Seq<Seq<char>> {
    match finding.fix {
        Fix::Fixed(note) => seq![headline(display, finding.line, "FIXED"@, note)],
        Fix::FixedWithWarning(warning) => seq![
            headline(display, finding.line, "WARNING"@, warning),
        ],
        Fix::Unfixable => seq![
            headline(display, finding.line, "ERROR (unfixable)"@, finding.message),
        ] + details(finding),
    }
}

/// The lines for some findings when SQL is fixed.
pub open spec fn fix_findings_lines(display: Seq<char>, all: Seq<Finding>) -> Seq<Seq<char>>
    decreases all.len(),
{
    if all.len() == 0 {
        Seq::empty()
    } else {
        fix_findings_lines(display, all.drop_last()) + fix_finding_lines(display, all.last())
    }
}

/// What is said of a file that fixed SQL was written to.
pub open spec fn file_status(
    path: Seq<char>,
    fixed_sql: Seq<char>,
    all: Seq<Finding>,
) -> Seq<char> {
    if fixed_sql.len() == 0 {
        "Fixed output is empty \u{2014} all statements were removed: "@ + path
    } else if unfixable_count(all) > 0 {
        "Partial fix written to: "@ + path + " ("@ + decimal(unfixable_count(all))
            + " unfixable error(s) remain)"@
    } else if warning_count(all) > 0 {
        "Fixed output written to: "@ + path + " ("@ + decimal(warning_count(all))
            + " warning(s) \u{2014} review recommended)"@
    } else {
        "Fixed output written to: "@ + path
    }
}

/// Says what a file that fixed SQL was written to holds.
pub fn fix_file_status_message(
    output_path: &str,
    fixed_sql: &str,
    diagnostics: &Vec<Diagnostic>,
) -> (r: String)
    ensures
        r@ == file_status(output_path@, fixed_sql@, findings(diagnostics@)),
{
    if fixed_sql.is_empty() {
        let mut message =
            "Fixed output is empty \u{2014} all statements were removed: ".to_owned();
        message.append(output_path);
        return message;
    }
    let counts = count_diagnostics(diagnostics);
    if counts.errors > 0 {
        let mut message = "Partial fix written to: ".to_owned();
        message.append(output_path);
        message.append(" (");
        message.append(decimal_text(counts.errors).as_str());
        message.append(" unfixable error(s) remain)");
        message
    } else {
        let mut message = "Fixed output written to: ".to_owned();
        message.append(output_path);
        if counts.warnings > 0 {
            message.append(" (");
            message.append(decimal_text(counts.warnings).as_str());
            message.append(" warning(s) \u{2014} review recommended)");
        }
        message
    }
}

/// One step of showing fixed SQL: text for the standard output, then lines for the standard error.
#[derive(Debug)]
pub struct TextStep {
    pub stdout: Option<String>,
    pub stderr: Vec<String>,
}

/// A [`TextStep`] as plain values.
pub open spec fn step_view(step: TextStep) -> (Option<Seq<char>>, Seq<Seq<char>>) {
    (optional(step.stdout), texts(step.stderr@))
}

/// Steps as plain values.
pub open spec fn steps_view(steps: Seq<TextStep>) -> Seq<(Option<Seq<char>>, Seq<Seq<char>>)> {
    steps.map_values(|step: TextStep| step_view(step))
}

/// Whether an input makes it worth saying that comments got lost.
pub open spec fn loses_comments(outcome: FixOutcome) -> bool {
    outcome matches FixOutcome::Processed { diagnostics, had_comments, .. } && had_comments
        && some_changes(findings(diagnostics@))
}

/// The step that shows an input; `noted` tells whether it was said before that comments got lost.
pub open spec fn fix_step(outcome: FixOutcome, noted: bool) -> (
    Option<Seq<char>>,
    Seq<Seq<char>>,
) {
    match outcome {
        FixOutcome::Processed { display, diagnostics, fixed_sql, dest, .. } => (
            if dest is Stdout {
                Some(fixed_sql@)
            } else {
                None
            },
            fix_findings_lines(display@, findings(diagnostics@)) + (if loses_comments(outcome)
                && !noted {
                seq!["Note: SQL comments in modified statements were not preserved."@]
            } else {
                Seq::empty()
            }) + (match dest {
                FixDest::File(path) => seq![
                    file_status(path@, fixed_sql@, findings(diagnostics@)),
                ],
                _ => Seq::empty(),
            }),
        ),
        FixOutcome::ReadError { message, .. } => (None, seq![message@]),
        FixOutcome::IoError { message, .. } => (None, seq![message@]),
    }
}

/// The steps that show the inputs, one each.
pub open spec fn fix_steps(outcomes: Seq<FixOutcome>) -> Seq<(Option<Seq<char>>, Seq<Seq<char>>)>
    decreases outcomes.len(),
{
    if outcomes.len() == 0 {
        Seq::empty()
    } else {
        fix_steps(outcomes.drop_last()).push(
            fix_step(outcomes.last(), some_loses_comments(outcomes.drop_last())),
        )
    }
}

/// Whether an input makes it worth saying that comments got lost.
pub open spec fn some_loses_comments(outcomes: Seq<FixOutcome>) -> bool {
    exists|i: int| 0 <= i < outcomes.len() && loses_comments(#[trigger] outcomes[i])
}

/// How many inputs hold something that nothing could fix.
pub open spec fn unfixed_files(outcomes: Seq<FixOutcome>) -> nat
    decreases outcomes.len(),
{
    if outcomes.len() == 0 {
        0
    } else {
        unfixed_files(outcomes.drop_last()) + (if left_unfixed(outcomes.last()) {
            1nat
        } else {
            0nat
        })
    }
}

/// The last step of showing fixed SQL.
pub open spec fn fix_conclusion(files: nat) -> Seq<(Option<Seq<char>>, Seq<Seq<char>>)> {
    if files > 0 {
        seq![
            (
                None,
                seq![
                    "\nFix complete: "@ + decimal(files)
                        + " file(s) had unfixable errors and require manual review."@,
                ],
            ),
        ]
    } else {
        Seq::empty()
    }
}

fn push_fix_lines(display: &str, diagnostics: &Vec<Diagnostic>, lines: &mut Vec<String>)
    ensures
        texts(final(lines)@) == texts(old(lines)@) + fix_findings_lines(
            display@,
            findings(diagnostics@),
        ),
{
    let ghost before = texts(lines@);
    let ghost all = findings(diagnostics@);
    let mut i: usize = 0;
    assert(texts(lines@) =~= before + fix_findings_lines(display@, all.take(0)));
    while i < diagnostics.len()
        invariant
            i <= diagnostics@.len(),
            all == findings(diagnostics@),
            texts(lines@) == before + fix_findings_lines(display@, all.take(i as int)),
        decreases diagnostics@.len() - i,
    {
        let d = &diagnostics[i];
        proof {
            assert(all.take(i + 1).drop_last() =~= all.take(i as int));
            assert(all.take(i + 1).last() == d@);
        }
        let ghost done = texts(lines@);
        match &d.fix_result {
            FixResult::Fixed(note) => {
                let head = write_headline(display, d.line, "FIXED", note.as_str());
                lines.push(head);
                assert(texts(lines@) =~= done + seq![head@]);
            },
            FixResult::FixedWithWarning(warning) => {
                let head = write_headline(display, d.line, "WARNING", warning.as_str());
                lines.push(head);
                assert(texts(lines@) =~= done + seq![head@]);
            },
            FixResult::Unfixable => {
                let head = write_headline(
                    display,
                    d.line,
                    "ERROR (unfixable)",
                    d.message.as_str(),
                );
                lines.push(head);
                assert(texts(lines@) =~= done + seq![head@]);
                push_details(d, lines);
            },
        }
        assert(texts(lines@) =~= done + fix_finding_lines(display@, d@));
        i += 1;
        assert(texts(lines@) =~= before + fix_findings_lines(display@, all.take(i as int)));
    }
    assert(all.take(i as int) =~= all);
}

/// Draws up the step that shows an input.
fn render_fix_outcome(o: FixOutcome, noted: bool) -> (r: TextStep)
    ensures
        step_view(r) == fix_step(o, noted),
{
    match o {
        FixOutcome::Processed { display, had_comments, diagnostics, fixed_sql, dest } => {
            let ghost all = findings(diagnostics@);
            let mut lines: Vec<String> = Vec::new();
            assert(texts(lines@) =~= Seq::empty());
            push_fix_lines(display.as_str(), &diagnostics, &mut lines);
            let ghost told = texts(lines@);
            assert(told =~= fix_findings_lines(display@, all));
            if had_comments && !noted && any_change(&diagnostics) {
                lines.push(
                    "Note: SQL comments in modified statements were not preserved.".to_owned(),
                );
            }
            let ghost with_note = texts(lines@);
            assert(with_note =~= told + (if loses_comments(o) && !noted {
                seq!["Note: SQL comments in modified statements were not preserved."@]
            } else {
                Seq::empty()
            }));
            match dest {
                FixDest::File(path) => {
                    let status = fix_file_status_message(
                        path.as_str(),
                        fixed_sql.as_str(),
                        &diagnostics,
                    );
                    lines.push(status);
                    assert(texts(lines@) =~= with_note + seq![file_status(path@, fixed_sql@, all)]);
                    TextStep { stdout: None, stderr: lines }
                },
                FixDest::Stdout => {
                    assert(with_note =~= with_note + Seq::<Seq<char>>::empty());
                    TextStep { stdout: Some(fixed_sql), stderr: lines }
                },
                FixDest::InlineJson => {
                    assert(with_note =~= with_note + Seq::<Seq<char>>::empty());
                    TextStep { stdout: None, stderr: lines }
                },
            }
        },
        FixOutcome::ReadError { message, .. } => message_step(message),
        FixOutcome::IoError { message, .. } => message_step(message),
    }
}

fn message_step(message: String) -> (r: TextStep)
    ensures
        step_view(r) == (None::<Seq<char>>, seq![message@]),
{
    let mut lines: Vec<String> = Vec::new();
    lines.push(message);
    assert(texts(lines@) =~= seq![message@]);
    TextStep { stdout: None, stderr: lines }
}

/// Whether nothing could fix something in an input.
fn is_left_unfixed(o: &FixOutcome) -> (r: bool)
    ensures
        r == left_unfixed(*o),
{
    match o {
        FixOutcome::Processed { diagnostics, .. } => count_diagnostics(diagnostics).errors > 0,
        _ => false,
    }
}

/// Whether an input makes it worth saying that comments got lost.
fn does_lose_comments(o: &FixOutcome) -> (r: bool)
    ensures
        r == loses_comments(*o),
{
    match o {
        FixOutcome::Processed { diagnostics, had_comments, .. } => {
            *had_comments && any_change(diagnostics)
        },
        _ => false,
    }
}

/// Draws up the steps that show fixed SQL. They are to be taken in their order, up to the first
/// text that cannot be written.
pub fn render_fix_outcomes_text(outcomes: Vec<FixOutcome>) -> (r: Vec<TextStep>)
    ensures
        steps_view(r@) == fix_steps(outcomes@) + fix_conclusion(unfixed_files(outcomes@)),
{
    let ghost all = outcomes@;
    let mut steps: Vec<TextStep> = Vec::new();
    let mut noted = false;
    let mut files: usize = 0;
    assert(all.len() == outcomes.len());
    assert(steps_view(steps@) =~= fix_steps(all.take(0)));
    for o in it: outcomes
        invariant
            it.seq() == all,
            0 <= it.index() <= all.len(),
            all.len() <= usize::MAX,
            files <= it.index(),
            files == unfixed_files(all.take(it.index() as int)),
            noted == some_loses_comments(all.take(it.index() as int)),
            steps_view(steps@) == fix_steps(all.take(it.index() as int)),
    {
        let ghost k = it.index() as int;
        let ghost before = steps@;
        proof {
            assert(all.take(k + 1).drop_last() =~= all.take(k));
            assert(all.take(k + 1).last() == o);
            assert(some_loses_comments(all.take(k + 1)) == (some_loses_comments(all.take(k))
                || loses_comments(o))) by {
                lemma_some_loses_comments(all, k);
            }
        }
        if is_left_unfixed(&o) {
            files += 1;
        }
        let loses = does_lose_comments(&o);
        steps.push(render_fix_outcome(o, noted));
        assert(steps_view(steps@) =~= steps_view(before).push(step_view(steps@.last())));
        if loses {
            noted = true;
        }
    }
    assert(all.take(all.len() as int) =~= all);
    let ghost done = steps_view(steps@);
    if files > 0 {
        let mut last = "\nFix complete: ".to_owned();
        last.append(decimal_text(files).as_str());
        last.append(" file(s) had unfixable errors and require manual review.");
        steps.push(message_step(last));
        assert(steps_view(steps@) =~= done.push(step_view(steps@.last())));
    }
    assert(steps_view(steps@) =~= done + fix_conclusion(files as nat));
    steps
}

proof fn lemma_some_loses_comments(outcomes: Seq<FixOutcome>, k: int)
    requires
        0 <= k < outcomes.len(),
    ensures
        some_loses_comments(outcomes.take(k + 1)) == (some_loses_comments(outcomes.take(k))
            || loses_comments(outcomes[k])),
{
    let longer = outcomes.take(k + 1);
    let shorter = outcomes.take(k);
    if some_loses_comments(longer) {
        let i = choose|i: int| 0 <= i < longer.len() && loses_comments(#[trigger] longer[i]);
        if i < k {
            assert(loses_comments(shorter[i]));
        }
    }
    if some_loses_comments(shorter) {
        let i = choose|i: int| 0 <= i < shorter.len() && loses_comments(#[trigger] shorter[i]);
        assert(loses_comments(longer[i]));
    }
    if loses_comments(outcomes[k]) {
        assert(loses_comments(longer[k]));
    }
}

/// What fixing gives the user.
#[derive(Debug)]
pub enum FixOutputPlan {
    /// A JSON document.
    Json { files: Vec<JsonFileOutput>, summary: JsonSummary },
    /// Text, step by step.
    Text(Vec<TextStep>),
}

/// How fixing ends, judged by the outcomes.
pub open spec fn fix_exit(outcomes: Seq<FixOutcome>) -> ExitCode {
    if exists|i: int|
        0 <= i < outcomes.len() && (left_unfixed(#[trigger] outcomes[i]) || failed(outcomes[i])) {
        ExitCode::Errors
    } else if fix_warnings(outcomes) > 0 {
        ExitCode::Warnings
    } else {
        ExitCode::Clean
    }
}

/// Draws up what fixing gives the user, and how it ends.
pub fn run_fix(outcomes: Vec<FixOutcome>, format: OutputFormat) -> (r: (ExitCode, FixOutputPlan))
    requires
        fix_size(outcomes@) <= usize::MAX,
        format is Json ==> forall|i: int|
            0 <= i < outcomes@.len() ==> !goes_to_stdout(#[trigger] outcomes@[i]),
    ensures
        r.0 == fix_exit(outcomes@),
        match r.1 {
            FixOutputPlan::Json { files, summary } => {
                &&& format is Json
                &&& file_reports(files@) == outcomes@.map_values(
                    |outcome: FixOutcome| fix_report(outcome),
                )
                &&& summary.errors == fix_errors(outcomes@)
                &&& summary.warnings == fix_warnings(outcomes@)
                &&& summary.fixed == fix_fixed(outcomes@)
            },
            FixOutputPlan::Text(steps) => {
                &&& format is Text
                &&& steps_view(steps@) == fix_steps(outcomes@) + fix_conclusion(
                    unfixed_files(outcomes@),
                )
            },
        },
{
    let ghost all = outcomes@;
    let tally = tally_fix(&outcomes);
    let exit_code = tally.exit_code();
    if format.is_json() {
        let ghost goal = all.map_values(|outcome: FixOutcome| fix_report(outcome));
        let mut files: Vec<JsonFileOutput> = Vec::new();
        for o in it: outcomes
            invariant
                it.seq() == all,
                goal == all.map_values(|outcome: FixOutcome| fix_report(outcome)),
                0 <= it.index() <= all.len(),
                forall|i: int| 0 <= i < all.len() ==> !goes_to_stdout(#[trigger] all[i]),
                file_reports(files@) =~= goal.take(it.index() as int),
        {
            let ghost before = files@;
            assert(o == all[it.index() as int]);
            files.push(fix_outcome_json(o));
            assert(file_reports(files@) =~= file_reports(before).push(goal[it.index() as int]));
        }
        assert(goal.take(goal.len() as int) =~= goal);
        (exit_code, FixOutputPlan::Json { files, summary: tally.summary })
    } else {
        (exit_code, FixOutputPlan::Text(render_fix_outcomes_text(outcomes)))
    }
}

/// A run of fixing ends with an error exactly where its summary counts one: no failure looks clean
/// to a reader of the summary.
pub proof fn fix_errors_decide_the_exit(outcomes: Seq<FixOutcome>)
    ensures
        fix_exit(outcomes) is Errors <==> fix_errors(outcomes) > 0,
    decreases outcomes.len(),
{
    if outcomes.len() > 0 {
        let front = outcomes.drop_last();
        let last = outcomes.last();
        fix_errors_decide_the_exit(front);
        assert(outcomes[outcomes.len() - 1] == last);
        if fix_exit(front) is Errors {
            let i = choose|i: int|
                0 <= i < front.len() && (left_unfixed(#[trigger] front[i]) || failed(front[i]));
            assert(outcomes[i] == front[i]);
        }
        if fix_exit(outcomes) is Errors {
            let i = choose|i: int|
                0 <= i < outcomes.len() && (left_unfixed(#[trigger] outcomes[i]) || failed(
                    outcomes[i],
                ));
            if i < front.len() {
                assert(front[i] == outcomes[i]);
            }
        }
    }
}

/// A run of linting whose summary counts an error ends with an error, and an input that could not
/// be read counts as one.
pub proof fn lint_errors_show_in_the_exit(outcomes: Seq<LintOutcome>)
    ensures
        lint_errors(outcomes) > 0 ==> lint_exit(outcomes) is Errors,
        some_unread(outcomes) ==> lint_errors(outcomes) > 0,
    decreases outcomes.len(),
{
    if outcomes.len() > 0 {
        let front = outcomes.drop_last();
        let last = outcomes.last();
        lint_errors_show_in_the_exit(front);
        assert(outcomes[outcomes.len() - 1] == last);
        if some_unread(front) {
            let i = choose|i: int| 0 <= i < front.len() && (#[trigger] front[i]) is ReadError;
            assert(outcomes[i] is ReadError);
        }
        if some_unread(outcomes) {
            let i = choose|i: int| 0 <= i < outcomes.len() && (#[trigger] outcomes[i]) is ReadError;
            if i < front.len() {
                assert(front[i] is ReadError);
            }
        }
        if let LintOutcome::Linted { diagnostics, .. } = last {
            counts_cover_findings(findings(diagnostics@));
        }
    }
}

/// The JSON output says of an input that was fixed exactly one of three things: why it failed,
/// where the fixed SQL is, or the fixed SQL itself.
pub proof fn fix_reports_say_one_thing(outcome: FixOutcome)
    ensures
        ({
            let report = fix_report(outcome);
            ||| report.error is Some && report.output_file is None && report.fixed_sql is None
            ||| report.error is None && report.output_file is Some && report.fixed_sql is None
            ||| report.error is None && report.output_file is None && report.fixed_sql is Some
        }),
        fix_report(outcome).error is Some ==> fix_report(outcome).diagnostics.len() == 0,
{
}

} // verus!
