//! What holds of every run's report.

use vstd::prelude::*;

use crate::cli::{FixDest, FixOutcome, LintOutcome};
use crate::diagnostic::{findings, Finding, Fix};
use crate::preview::preview;
use crate::report::{
    all_lint_lines, failed, file_status, fix_conclusion, fix_errors, fix_exit, fix_finding_lines,
    fix_findings_lines, fix_fixed, fix_report, fix_steps, fix_warnings, fixed_count, headline,
    left_unfixed, lint_conclusion, lint_errors, lint_exit, lint_finding_lines, lint_findings_lines,
    lint_lines, lint_report, lint_total, lint_warnings, loses_comments, some_loses_comments,
    some_unread, unfixable_count, unfixed_files, warning_count, ExitCode, FileReport,
};
use crate::text::decimal;

verus! {

/// Whether an input was read, and linting it found nothing.
pub open spec fn is_clean(outcome: LintOutcome) -> bool {
    outcome matches LintOutcome::Linted { diagnostics, .. } && diagnostics@.len() == 0
}

/// Linting ends clean exactly where every input was read and has no diagnostic, whatever could be
/// done about one; else it ends with an error.
pub proof fn linting_ends_clean_without_diagnostics(outcomes: Seq<LintOutcome>)
    ensures
        lint_exit(outcomes) == if forall|i: int|
            0 <= i < outcomes.len() ==> is_clean(#[trigger] outcomes[i]) {
            ExitCode::Clean
        } else {
            ExitCode::Errors
        },
{
    lemma_lint_total(outcomes);
    if some_unread(outcomes) {
        let i = choose|i: int| 0 <= i < outcomes.len() && (#[trigger] outcomes[i]) is ReadError;
        assert(!is_clean(outcomes[i]));
    } else {
        assert forall|i: int| 0 <= i < outcomes.len() implies (#[trigger] outcomes[i])
            is Linted by {
            assert(!(outcomes[i] is ReadError));
        }
    }
}

proof fn lemma_lint_total(outcomes: Seq<LintOutcome>)
    ensures
        lint_total(outcomes) == 0 <==> forall|i: int|
            0 <= i < outcomes.len() ==> (is_clean(#[trigger] outcomes[i]) || outcomes[i]
                is ReadError),
    decreases outcomes.len(),
{
    if outcomes.len() > 0 {
        let front = outcomes.drop_last();
        lemma_lint_total(front);
        assert(outcomes[outcomes.len() - 1] == outcomes.last());
        if lint_total(outcomes) == 0 {
            assert forall|i: int| 0 <= i < outcomes.len() implies is_clean(#[trigger] outcomes[i])
                || outcomes[i] is ReadError by {
                if i < front.len() {
                    assert(front[i] == outcomes[i]);
                }
            }
        }
        if forall|i: int|
            0 <= i < outcomes.len() ==> (is_clean(#[trigger] outcomes[i]) || outcomes[i]
                is ReadError) {
            assert forall|i: int| 0 <= i < front.len() implies is_clean(#[trigger] front[i])
                || front[i] is ReadError by {
                assert(front[i] == outcomes[i]);
            }
        }
    }
}

/// Whether an input was fixed without a failure, and nothing is left that could not be fixed.
pub open spec fn is_fixed(outcome: FixOutcome) -> bool {
    outcome matches FixOutcome::Processed { diagnostics, .. } && forall|k: int|
        0 <= k < diagnostics@.len() ==> !((#[trigger] findings(diagnostics@)[k]).fix is Unfixable)
}

/// Whether something in an input was fixed with a warning.
pub open spec fn is_warned(outcome: FixOutcome) -> bool {
    outcome matches FixOutcome::Processed { diagnostics, .. } && exists|k: int|
        0 <= k < diagnostics@.len() && (#[trigger] findings(diagnostics@)[k]).fix
            is FixedWithWarning
}

proof fn lemma_unfixable(all: Seq<Finding>)
    ensures
        unfixable_count(all) == 0 <==> forall|k: int|
            0 <= k < all.len() ==> !((#[trigger] all[k]).fix is Unfixable),
        warning_count(all) > 0 <==> exists|k: int|
            0 <= k < all.len() && (#[trigger] all[k]).fix is FixedWithWarning,
    decreases all.len(),
{
    if all.len() > 0 {
        let front = all.drop_last();
        let n = all.len() - 1;
        lemma_unfixable(front);
        assert(all[n] == all.last());
        assert forall|k: int| 0 <= k < n implies #[trigger] front[k] == all[k] by {}
        if unfixable_count(all) == 0 {
            assert forall|k: int| 0 <= k < all.len() implies !((#[trigger] all[k]).fix
                is Unfixable) by {
                if k < n {
                    assert(front[k] == all[k]);
                }
            }
        }
        if exists|k: int| 0 <= k < all.len() && (#[trigger] all[k]).fix is FixedWithWarning {
            let k = choose|k: int|
                0 <= k < all.len() && (#[trigger] all[k]).fix is FixedWithWarning;
            if k < n {
                assert(front[k].fix is FixedWithWarning);
            }
        }
        if exists|k: int| 0 <= k < front.len() && (#[trigger] front[k]).fix is FixedWithWarning {
            let k = choose|k: int|
                0 <= k < front.len() && (#[trigger] front[k]).fix is FixedWithWarning;
            assert(all[k].fix is FixedWithWarning);
        }
    }
}

proof fn lemma_outcome(outcome: FixOutcome)
    ensures
        is_fixed(outcome) == (!left_unfixed(outcome) && !failed(outcome)),
{
    if let FixOutcome::Processed { diagnostics, .. } = outcome {
        lemma_unfixable(findings(diagnostics@));
    }
}

proof fn lemma_fix_warnings(outcomes: Seq<FixOutcome>)
    ensures
        fix_warnings(outcomes) > 0 <==> exists|i: int|
            0 <= i < outcomes.len() && is_warned(#[trigger] outcomes[i]),
    decreases outcomes.len(),
{
    if outcomes.len() > 0 {
        let front = outcomes.drop_last();
        let n = outcomes.len() - 1;
        lemma_fix_warnings(front);
        assert(outcomes[n] == outcomes.last());
        if let FixOutcome::Processed { diagnostics, .. } = outcomes.last() {
            lemma_unfixable(findings(diagnostics@));
        }
        if exists|i: int| 0 <= i < front.len() && is_warned(#[trigger] front[i]) {
            let i = choose|i: int| 0 <= i < front.len() && is_warned(#[trigger] front[i]);
            assert(is_warned(outcomes[i]));
        }
        if exists|i: int| 0 <= i < outcomes.len() && is_warned(#[trigger] outcomes[i]) {
            let i = choose|i: int| 0 <= i < outcomes.len() && is_warned(#[trigger] outcomes[i]);
            if i < n {
                assert(is_warned(front[i]));
            }
        }
    }
}

/// Fixing ends with an error exactly where an input failed or something could not be fixed; else
/// with warnings exactly where something was fixed with one; else clean.
pub proof fn fixing_ends_by_its_worst_diagnostic(outcomes: Seq<FixOutcome>)
    ensures
        fix_exit(outcomes) == if exists|i: int|
            0 <= i < outcomes.len() && !is_fixed(#[trigger] outcomes[i]) {
            ExitCode::Errors
        } else if exists|i: int| 0 <= i < outcomes.len() && is_warned(#[trigger] outcomes[i]) {
            ExitCode::Warnings
        } else {
            ExitCode::Clean
        },
{
    lemma_fix_warnings(outcomes);
    if exists|i: int| 0 <= i < outcomes.len() && !is_fixed(#[trigger] outcomes[i]) {
        let i = choose|i: int| 0 <= i < outcomes.len() && !is_fixed(#[trigger] outcomes[i]);
        lemma_outcome(outcomes[i]);
    }
    if exists|i: int|
        0 <= i < outcomes.len() && (left_unfixed(#[trigger] outcomes[i]) || failed(outcomes[i])) {
        let i = choose|i: int|
            0 <= i < outcomes.len() && (left_unfixed(#[trigger] outcomes[i]) || failed(
                outcomes[i],
            ));
        lemma_outcome(outcomes[i]);
        assert(!is_fixed(outcomes[i]));
    }
}

/// The counts are the numbers of the findings of each kind.
pub proof fn counts_count(all: Seq<Finding>)
    ensures
        unfixable_count(all) == all.filter(|finding: Finding| finding.fix is Unfixable).len(),
        warning_count(all) == all.filter(|finding: Finding| finding.fix is FixedWithWarning).len(),
        fixed_count(all) == all.filter(|finding: Finding| finding.fix is Fixed).len(),
    decreases all.len(),
{
    reveal(Seq::filter);
    if all.len() > 0 {
        counts_count(all.drop_last());
    }
}

proof fn lemma_lint_errors_add(a: Seq<LintOutcome>, b: Seq<LintOutcome>)
    ensures
        lint_errors(a + b) == lint_errors(a) + lint_errors(b),
    decreases b.len(),
{
    if b.len() == 0 {
        assert(a + b =~= a);
    } else {
        lemma_lint_errors_add(a, b.drop_last());
        assert((a + b).drop_last() =~= a + b.drop_last());
    }
}

proof fn lemma_lint_warnings_add(a: Seq<LintOutcome>, b: Seq<LintOutcome>)
    ensures
        lint_warnings(a + b) == lint_warnings(a) + lint_warnings(b),
    decreases b.len(),
{
    if b.len() == 0 {
        assert(a + b =~= a);
    } else {
        lemma_lint_warnings_add(a, b.drop_last());
        assert((a + b).drop_last() =~= a + b.drop_last());
    }
}

proof fn lemma_lint_total_add(a: Seq<LintOutcome>, b: Seq<LintOutcome>)
    ensures
        lint_total(a + b) == lint_total(a) + lint_total(b),
    decreases b.len(),
{
    if b.len() == 0 {
        assert(a + b =~= a);
    } else {
        lemma_lint_total_add(a, b.drop_last());
        assert((a + b).drop_last() =~= a + b.drop_last());
    }
}

proof fn lemma_fix_errors_add(a: Seq<FixOutcome>, b: Seq<FixOutcome>)
    ensures
        fix_errors(a + b) == fix_errors(a) + fix_errors(b),
    decreases b.len(),
{
    if b.len() == 0 {
        assert(a + b =~= a);
    } else {
        lemma_fix_errors_add(a, b.drop_last());
        assert((a + b).drop_last() =~= a + b.drop_last());
    }
}

proof fn lemma_fix_warnings_add(a: Seq<FixOutcome>, b: Seq<FixOutcome>)
    ensures
        fix_warnings(a + b) == fix_warnings(a) + fix_warnings(b),
    decreases b.len(),
{
    if b.len() == 0 {
        assert(a + b =~= a);
    } else {
        lemma_fix_warnings_add(a, b.drop_last());
        assert((a + b).drop_last() =~= a + b.drop_last());
    }
}

proof fn lemma_fix_fixed_add(a: Seq<FixOutcome>, b: Seq<FixOutcome>)
    ensures
        fix_fixed(a + b) == fix_fixed(a) + fix_fixed(b),
    decreases b.len(),
{
    if b.len() == 0 {
        assert(a + b =~= a);
    } else {
        lemma_fix_fixed_add(a, b.drop_last());
        assert((a + b).drop_last() =~= a + b.drop_last());
    }
}

proof fn lemma_unfixed_files_add(a: Seq<FixOutcome>, b: Seq<FixOutcome>)
    ensures
        unfixed_files(a + b) == unfixed_files(a) + unfixed_files(b),
    decreases b.len(),
{
    if b.len() == 0 {
        assert(a + b =~= a);
    } else {
        lemma_unfixed_files_add(a, b.drop_last());
        assert((a + b).drop_last() =~= a + b.drop_last());
    }
}

/// The numbers of a run of linting are the sums of those of its inputs: of an input that could not
/// be read one error, and of any other one its diagnostics, by their kind.
pub proof fn lint_numbers_add_up(a: Seq<LintOutcome>, outcome: LintOutcome, b: Seq<LintOutcome>)
    ensures
        lint_errors(Seq::empty()) == 0 && lint_warnings(Seq::empty()) == 0 && lint_total(
            Seq::empty(),
        ) == 0,
        lint_errors(a + b) == lint_errors(a) + lint_errors(b),
        lint_warnings(a + b) == lint_warnings(a) + lint_warnings(b),
        lint_total(a + b) == lint_total(a) + lint_total(b),
        match outcome {
            LintOutcome::ReadError { .. } => {
                &&& lint_errors(seq![outcome]) == 1
                &&& lint_warnings(seq![outcome]) == 0
                &&& lint_total(seq![outcome]) == 0
            },
            LintOutcome::Linted { diagnostics, .. } => {
                &&& lint_errors(seq![outcome]) == findings(diagnostics@).filter(
                    |finding: Finding| finding.fix is Unfixable,
                ).len()
                &&& lint_warnings(seq![outcome]) == findings(diagnostics@).filter(
                    |finding: Finding| finding.fix is FixedWithWarning,
                ).len()
                &&& lint_total(seq![outcome]) == diagnostics@.len()
            },
        },
{
    lemma_lint_errors_add(a, b);
    lemma_lint_warnings_add(a, b);
    lemma_lint_total_add(a, b);
    assert(seq![outcome].drop_last() =~= Seq::empty());
    reveal_with_fuel(lint_errors, 2);
    reveal_with_fuel(lint_warnings, 2);
    reveal_with_fuel(lint_total, 2);
    if let LintOutcome::Linted { diagnostics, .. } = outcome {
        counts_count(findings(diagnostics@));
    }
}

/// The numbers of a run of fixing are the sums of those of its inputs: of an input that failed one
/// error, and of any other one its diagnostics, by their kind.
pub proof fn fix_numbers_add_up(a: Seq<FixOutcome>, outcome: FixOutcome, b: Seq<FixOutcome>)
    ensures
        fix_errors(Seq::empty()) == 0 && fix_warnings(Seq::empty()) == 0 && fix_fixed(Seq::empty())
            == 0 && unfixed_files(Seq::empty()) == 0,
        fix_errors(a + b) == fix_errors(a) + fix_errors(b),
        fix_warnings(a + b) == fix_warnings(a) + fix_warnings(b),
        fix_fixed(a + b) == fix_fixed(a) + fix_fixed(b),
        unfixed_files(a + b) == unfixed_files(a) + unfixed_files(b),
        match outcome {
            FixOutcome::Processed { diagnostics, .. } => {
                let wrong = findings(diagnostics@).filter(
                    |finding: Finding| finding.fix is Unfixable,
                );
                &&& fix_errors(seq![outcome]) == wrong.len()
                &&& fix_warnings(seq![outcome]) == findings(diagnostics@).filter(
                    |finding: Finding| finding.fix is FixedWithWarning,
                ).len()
                &&& fix_fixed(seq![outcome]) == findings(diagnostics@).filter(
                    |finding: Finding| finding.fix is Fixed,
                ).len()
                &&& unfixed_files(seq![outcome]) == if wrong.len() > 0 {
                    1nat
                } else {
                    0nat
                }
            },
            _ => {
                &&& fix_errors(seq![outcome]) == 1
                &&& fix_warnings(seq![outcome]) == 0
                &&& fix_fixed(seq![outcome]) == 0
                &&& unfixed_files(seq![outcome]) == 0
            },
        },
{
    lemma_fix_errors_add(a, b);
    lemma_fix_warnings_add(a, b);
    lemma_fix_fixed_add(a, b);
    lemma_unfixed_files_add(a, b);
    assert(seq![outcome].drop_last() =~= Seq::empty());
    reveal_with_fuel(fix_errors, 2);
    reveal_with_fuel(fix_warnings, 2);
    reveal_with_fuel(fix_fixed, 2);
    reveal_with_fuel(unfixed_files, 2);
    if let FixOutcome::Processed { diagnostics, .. } = outcome {
        counts_count(findings(diagnostics@));
    }
}

/// Whether these are the lines for a finding when SQL is linted: where it is, how grave it is and
/// what it is; what to do; and the statement.
pub open spec fn tells_of(
    lines: Seq<Seq<char>>,
    display: Seq<char>,
    finding: Finding,
) -> bool {
    let place = display + ":"@ + decimal(finding.line as nat) + ": "@;
    &&& lines.len() == 3
    &&& finding.fix is Unfixable ==> lines[0] == place + "ERROR"@ + " \u{2014} "@
        + finding.message
    &&& finding.fix is FixedWithWarning ==> lines[0] == place + "WARNING"@ + " \u{2014} "@
        + finding.message
    &&& finding.fix is Fixed ==> lines[0] == place + "INFO"@ + " \u{2014} "@ + finding.message
    &&& lines[1] == "  \u{2192} "@ + finding.suggestion
    &&& lines[2] == "  | "@ + preview(finding.statement)
}

/// Each diagnostic of an input that was linted has its lines, in their order, and nothing else is
/// said of the input.
pub proof fn each_finding_is_told(display: Seq<char>, all: Seq<Finding>)
    ensures
        lint_findings_lines(display, all).len() == 3 * all.len(),
        forall|i: int|
            0 <= i < all.len() ==> tells_of(
                lint_findings_lines(display, all).subrange(3 * i, 3 * i + 3),
                display,
                #[trigger] all[i],
            ),
    decreases all.len(),
{
    if all.len() > 0 {
        let front = all.drop_last();
        let n = all.len() - 1;
        each_finding_is_told(display, front);
        let lines = lint_findings_lines(display, all);
        let early = lint_findings_lines(display, front);
        let late = lint_finding_lines(display, all.last());
        assert forall|i: int| 0 <= i < all.len() implies tells_of(
            lines.subrange(3 * i, 3 * i + 3),
            display,
            #[trigger] all[i],
        ) by {
            if i < n {
                assert(front[i] == all[i]);
                assert(lines.subrange(3 * i, 3 * i + 3) =~= early.subrange(3 * i, 3 * i + 3));
            } else {
                assert(lines.subrange(3 * i, 3 * i + 3) =~= late);
            }
        }
    }
}

/// The lines of a run of linting are those of its inputs, in their order: of an input that could
/// not be read the message alone, of any other one those of its diagnostics.
pub proof fn lint_lines_add_up(a: Seq<LintOutcome>, outcome: LintOutcome, b: Seq<LintOutcome>)
    ensures
        all_lint_lines(Seq::empty()) == Seq::<Seq<char>>::empty(),
        all_lint_lines(a + b) == all_lint_lines(a) + all_lint_lines(b),
        all_lint_lines(seq![outcome]) == match outcome {
            LintOutcome::ReadError { message, .. } => seq![message@],
            LintOutcome::Linted { display, diagnostics } => lint_findings_lines(
                display@,
                findings(diagnostics@),
            ),
        },
    decreases b.len(),
{
    assert(seq![outcome].drop_last() =~= Seq::empty());
    reveal_with_fuel(all_lint_lines, 2);
    assert(all_lint_lines(seq![outcome]) =~= lint_lines(outcome));
    if b.len() == 0 {
        assert(a + b =~= a);
        assert(all_lint_lines(a) + all_lint_lines(b) =~= all_lint_lines(a));
    } else {
        lint_lines_add_up(a, outcome, b.drop_last());
        assert((a + b).drop_last() =~= a + b.drop_last());
        assert(all_lint_lines(a + b) =~= all_lint_lines(a) + all_lint_lines(b));
    }
}

/// Linting ends by telling how many diagnostics there are; where there are none, that all is well,
/// unless an input could not be read.
pub proof fn linting_tells_the_number(total: nat, unread: bool)
    ensures
        total > 0 ==> lint_conclusion(total, unread) == seq![
            "\n"@ + decimal(total) + " issue(s) found."@,
        ],
        total == 0 && !unread ==> lint_conclusion(total, unread) == seq![
            "All statements compatible with DSQL."@,
        ],
        total == 0 && unread ==> lint_conclusion(total, unread) == Seq::<Seq<char>>::empty(),
{
}

/// Whether a report holds these findings, each with the preview of its statement.
pub open spec fn holds_findings(report: FileReport, all: Seq<Finding>) -> bool {
    &&& report.diagnostics.len() == all.len()
    &&& forall|i: int|
        0 <= i < all.len() ==> #[trigger] report.diagnostics[i] == (
            all[i],
            preview(all[i].statement),
        )
}

/// The JSON output says of an input that was linted what it is, why it could not be read, or what
/// was found.
pub proof fn lint_reports_are_whole(outcome: LintOutcome)
    ensures
        lint_report(outcome).output_file is None,
        lint_report(outcome).fixed_sql is None,
        match outcome {
            LintOutcome::ReadError { display, message } => {
                &&& lint_report(outcome).file == display@
                &&& lint_report(outcome).error == Some(message@)
                &&& lint_report(outcome).diagnostics.len() == 0
            },
            LintOutcome::Linted { display, diagnostics } => {
                &&& lint_report(outcome).file == display@
                &&& lint_report(outcome).error is None
                &&& holds_findings(lint_report(outcome), findings(diagnostics@))
            },
        },
{
}

/// The JSON output says of an input that was fixed what it is, why it failed, or what was found and
/// where the fixed SQL is: in a file, or right there.
pub proof fn fix_reports_are_whole(outcome: FixOutcome)
    ensures
        match outcome {
            FixOutcome::Processed { display, diagnostics, fixed_sql, dest, .. } => {
                &&& fix_report(outcome).file == display@
                &&& fix_report(outcome).error is None
                &&& holds_findings(fix_report(outcome), findings(diagnostics@))
                &&& dest matches FixDest::File(path) ==> fix_report(outcome).output_file == Some(
                    path@,
                ) && fix_report(outcome).fixed_sql is None
                &&& !(dest is File) ==> fix_report(outcome).output_file is None && fix_report(
                    outcome,
                ).fixed_sql == Some(fixed_sql@)
            },
            FixOutcome::ReadError { display, message } => {
                &&& fix_report(outcome).file == display@
                &&& fix_report(outcome).error == Some(message@)
            },
            FixOutcome::IoError { display, message } => {
                &&& fix_report(outcome).file == display@
                &&& fix_report(outcome).error == Some(message@)
            },
        },
{
}

/// Whether these are the lines for a finding when SQL is fixed: what was done about it, or, where
/// nothing could be done, what it is, what to do and the statement.
pub open spec fn tells_of_fix(
    lines: Seq<Seq<char>>,
    display: Seq<char>,
    finding: Finding,
) -> bool {
    let place = display + ":"@ + decimal(finding.line as nat) + ": "@;
    match finding.fix {
        Fix::Fixed(note) => lines == seq![place + "FIXED"@ + " \u{2014} "@ + note],
        Fix::FixedWithWarning(note) => lines == seq![place + "WARNING"@ + " \u{2014} "@ + note],
        Fix::Unfixable => lines == seq![
            place + "ERROR (unfixable)"@ + " \u{2014} "@ + finding.message,
            "  \u{2192} "@ + finding.suggestion,
            "  | "@ + preview(finding.statement),
        ],
    }
}

/// The lines of an input that was fixed are those of its diagnostics, in their order.
pub proof fn each_fix_is_told(
    display: Seq<char>,
    a: Seq<Finding>,
    finding: Finding,
    b: Seq<Finding>,
)
    ensures
        fix_findings_lines(display, Seq::empty()) == Seq::<Seq<char>>::empty(),
        fix_findings_lines(display, a + b) == fix_findings_lines(display, a)
            + fix_findings_lines(display, b),
        tells_of_fix(fix_findings_lines(display, seq![finding]), display, finding),
    decreases b.len(),
{
    assert(seq![finding].drop_last() =~= Seq::empty());
    reveal_with_fuel(fix_findings_lines, 2);
    assert(fix_findings_lines(display, seq![finding]) =~= fix_finding_lines(display, finding));
    if finding.fix is Unfixable {
        assert(fix_finding_lines(display, finding) =~= seq![
            headline(display, finding.line, "ERROR (unfixable)"@, finding.message),
            "  \u{2192} "@ + finding.suggestion,
            "  | "@ + preview(finding.statement),
        ]);
    }
    if b.len() == 0 {
        assert(a + b =~= a);
        assert(fix_findings_lines(display, a) + fix_findings_lines(display, b)
            =~= fix_findings_lines(display, a));
    } else {
        each_fix_is_told(display, a, finding, b.drop_last());
        assert((a + b).drop_last() =~= a + b.drop_last());
        assert(fix_findings_lines(display, a + b) =~= fix_findings_lines(display, a)
            + fix_findings_lines(display, b));
    }
}

/// What is said of a file of fixed SQL: that nothing is left, else how many errors are, else how
/// many warnings there were, else that it was written.
pub proof fn file_status_tells_the_worst(
    path: Seq<char>,
    fixed_sql: Seq<char>,
    all: Seq<Finding>,
)
    ensures
        ({
            let wrong = all.filter(|finding: Finding| finding.fix is Unfixable).len();
            let warned = all.filter(|finding: Finding| finding.fix is FixedWithWarning).len();
            let told = file_status(path, fixed_sql, all);
            &&& fixed_sql.len() == 0 ==> told
                == "Fixed output is empty \u{2014} all statements were removed: "@ + path
            &&& fixed_sql.len() > 0 && wrong > 0 ==> told == "Partial fix written to: "@ + path
                + " ("@ + decimal(wrong) + " unfixable error(s) remain)"@
            &&& fixed_sql.len() > 0 && wrong == 0 && warned > 0 ==> told
                == "Fixed output written to: "@ + path + " ("@ + decimal(warned)
                + " warning(s) \u{2014} review recommended)"@
            &&& fixed_sql.len() > 0 && wrong == 0 && warned == 0 ==> told
                == "Fixed output written to: "@ + path
        }),
{
    counts_count(all);
}

/// Whether something in an input with comments was changed.
pub open spec fn may_lose_comments(outcome: FixOutcome) -> bool {
    outcome matches FixOutcome::Processed { diagnostics, had_comments, .. } && had_comments
        && exists|k: int|
        0 <= k < diagnostics@.len() && !((#[trigger] findings(diagnostics@)[k]).fix is Unfixable)
}

proof fn lemma_loses(outcome: FixOutcome)
    ensures
        loses_comments(outcome) == may_lose_comments(outcome),
{
    if let FixOutcome::Processed { diagnostics, had_comments, .. } = outcome {
        let all = findings(diagnostics@);
        if loses_comments(outcome) {
            let k = choose|k: int|
                0 <= k < all.len() && crate::lint::changes(#[trigger] all[k]);
            assert(!(all[k].fix is Unfixable));
        }
        if may_lose_comments(outcome) {
            let k = choose|k: int| 0 <= k < all.len() && !((#[trigger] all[k]).fix is Unfixable);
            assert(crate::lint::changes(all[k]));
        }
    }
}

/// Fixed SQL is shown input by input: the SQL itself where it goes to the standard output, then
/// what was done, then, at the first input that may have lost comments and at no other, that they
/// were lost, then what is to be said of the file. Of an input that failed, why.
pub proof fn each_input_is_shown(outcomes: Seq<FixOutcome>, i: int)
    requires
        0 <= i < outcomes.len(),
    ensures
        fix_steps(outcomes).len() == outcomes.len(),
        match outcomes[i] {
            FixOutcome::Processed { display, diagnostics, fixed_sql, dest, .. } => {
                let first = may_lose_comments(outcomes[i]) && forall|j: int|
                    0 <= j < i ==> !may_lose_comments(#[trigger] outcomes[j]);
                &&& fix_steps(outcomes)[i].0 == if dest is Stdout {
                    Some(fixed_sql@)
                } else {
                    None
                }
                &&& fix_steps(outcomes)[i].1 == fix_findings_lines(display@, findings(diagnostics@))
                    + (if first {
                    seq!["Note: SQL comments in modified statements were not preserved."@]
                } else {
                    Seq::empty()
                }) + (match dest {
                    FixDest::File(path) => seq![
                        file_status(path@, fixed_sql@, findings(diagnostics@)),
                    ],
                    _ => Seq::empty(),
                })
            },
            FixOutcome::ReadError { message, .. } => fix_steps(outcomes)[i] == (
                None::<Seq<char>>,
                seq![message@],
            ),
            FixOutcome::IoError { message, .. } => fix_steps(outcomes)[i] == (
                None::<Seq<char>>,
                seq![message@],
            ),
        },
    decreases outcomes.len(),
{
    let front = outcomes.drop_last();
    lemma_steps(front);
    if i < front.len() {
        each_input_is_shown(front, i);
        assert(front[i] == outcomes[i]);
        assert forall|j: int| 0 <= j < i implies #[trigger] front[j] == outcomes[j] by {}
        assert((forall|j: int| 0 <= j < i ==> !may_lose_comments(#[trigger] front[j])) == (forall|
            j: int,
        |
            0 <= j < i ==> !may_lose_comments(#[trigger] outcomes[j]))) by {
            if forall|j: int| 0 <= j < i ==> !may_lose_comments(#[trigger] front[j]) {
                assert forall|j: int| 0 <= j < i implies !may_lose_comments(
                    #[trigger] outcomes[j],
                ) by {
                    assert(front[j] == outcomes[j]);
                }
            }
        }
    } else {
        lemma_loses(outcomes[i]);
        if some_loses_comments(front) {
            let j = choose|j: int| 0 <= j < front.len() && loses_comments(#[trigger] front[j]);
            lemma_loses(front[j]);
            assert(may_lose_comments(outcomes[j]));
        } else {
            assert forall|j: int| 0 <= j < i implies !may_lose_comments(#[trigger] outcomes[j]) by {
                assert(front[j] == outcomes[j]);
                lemma_loses(front[j]);
            }
        }
    }
}

proof fn lemma_steps(outcomes: Seq<FixOutcome>)
    ensures
        fix_steps(outcomes).len() == outcomes.len(),
    decreases outcomes.len(),
{
    if outcomes.len() > 0 {
        lemma_steps(outcomes.drop_last());
    }
}

/// Showing fixed SQL ends by telling how many inputs hold something that could not be fixed, where
/// there is one.
pub proof fn fixing_tells_the_number(files: nat)
    ensures
        files == 0 ==> fix_conclusion(files).len() == 0,
        files > 0 ==> fix_conclusion(files) == seq![
            (
                None::<Seq<char>>,
                seq![
                    "\nFix complete: "@ + decimal(files)
                        + " file(s) had unfixable errors and require manual review."@,
                ],
            ),
        ],
{
}

} // verus!
