//! Rules on statements that DSQL lacks as a whole or in part.

use vstd::prelude::*;

use crate::diagnostic::{findings, issue, report, Diagnostic, Finding, Fix, FixResult, LintRule};
use crate::rules::column::{cache_findings, check_cache_option, list_items, CacheSize};
use crate::rules::table::{found, has_field, has_flag, report_where};
use crate::syntax::{
    field, is_variant, item_nodes, items, lemma_item_nodes, payload, Node, Tree,
};
use crate::text::same_text;

verus! {

/// What is said against a sequence of a type other than `BIGINT`.
pub open spec fn sequence_type_finding() -> Finding {
    issue(
        LintRule::SequenceType,
        "CREATE SEQUENCE with type other than BIGINT is not supported in DSQL."@,
        "Use AS BIGINT, or leave the type out."@,
        Fix::Unfixable,
    )
}

/// What is said against a sequence without a cache size.
pub open spec fn sequence_cache_missing_finding() -> Finding {
    issue(
        LintRule::SequenceCacheMissing,
        "CREATE SEQUENCE needs a CACHE clause in DSQL."@,
        "Add CACHE 1 or CACHE 65536."@,
        Fix::Unfixable,
    )
}

/// What is said against a sequence with a wrong cache size.
pub open spec fn sequence_cache_finding() -> Finding {
    issue(
        LintRule::SequenceCache,
        "The CACHE value of a sequence must be 1 or at least 65536 in DSQL."@,
        "Use CACHE 1 or CACHE 65536."@,
        Fix::Unfixable,
    )
}

/// Whether a data type is there and is not that of 64-bit integers.
pub open spec fn is_other_type(data_type: Node) -> bool {
    !(data_type is Null) && !is_variant(data_type, "BigInt"@) && !is_variant(data_type, "Int8"@)
}

/// What is said against `CREATE SEQUENCE`.
pub open spec fn sequence_findings(sequence: Node) -> Seq<Finding> {
    found(is_other_type(field(sequence, "data_type"@)), sequence_type_finding()) + cache_findings(
        items(field(sequence, "sequence_options"@)),
        sequence_cache_missing_finding(),
        sequence_cache_finding(),
    )
}

/// Checks `CREATE SEQUENCE`.
pub fn check_sequence(sequence: &Tree, diagnostics: &mut Vec<Diagnostic>)
    ensures
        findings(final(diagnostics)@) == findings(old(diagnostics)@) + sequence_findings(sequence@),
{
    let data_type = sequence.field("data_type");
    report_where(
        has_field(sequence, "data_type") && !data_type.is_variant("BigInt")
            && !data_type.is_variant("Int8"),
        diagnostics,
        LintRule::SequenceType,
        "CREATE SEQUENCE with type other than BIGINT is not supported in DSQL.",
        "Use AS BIGINT, or leave the type out.",
    );
    match check_cache_option(sequence.field("sequence_options")) {
        CacheSize::Missing => {
            report(
                diagnostics,
                LintRule::SequenceCacheMissing,
                "CREATE SEQUENCE needs a CACHE clause in DSQL.",
                "Add CACHE 1 or CACHE 65536.",
                FixResult::Unfixable,
            );
        },
        CacheSize::Wrong => {
            report(
                diagnostics,
                LintRule::SequenceCache,
                "The CACHE value of a sequence must be 1 or at least 65536 in DSQL.",
                "Use CACHE 1 or CACHE 65536.",
                FixResult::Unfixable,
            );
        },
        CacheSize::Valid => {},
    }
    assert(findings(diagnostics@) =~= findings(old(diagnostics)@) + sequence_findings(sequence@));
}

/// What is said against an isolation level.
pub open spec fn isolation_finding() -> Finding {
    issue(
        LintRule::TransactionIsolation,
        "DSQL supports no isolation level but REPEATABLE READ."@,
        "Use REPEATABLE READ, or leave the level out."@,
        Fix::Unfixable,
    )
}

/// Whether a mode of a transaction is an isolation level that DSQL lacks.
pub open spec fn is_other_isolation(mode: Node) -> bool {
    is_variant(mode, "IsolationLevel"@) && !is_variant(payload(mode), "RepeatableRead"@)
}

/// Whether a transaction has an isolation level that DSQL lacks.
pub open spec fn some_other_isolation(modes: Seq<Node>) -> bool {
    exists|i: int| 0 <= i < modes.len() && is_other_isolation(#[trigger] modes[i])
}

/// What is said against the start of a transaction.
pub open spec fn start_findings(start: Node) -> Seq<Finding> {
    found(some_other_isolation(items(field(start, "modes"@))), isolation_finding())
}

/// Whether a transaction has an isolation level that DSQL lacks.
fn any_other_isolation(modes: &Tree) -> (r: bool)
    ensures
        r == some_other_isolation(items(modes@)),
{
    match list_items(modes) {
        Some(list) => {
            let ghost all = item_nodes(list@);
            let mut i: usize = 0;
            assert(all.len() == list@.len()) by {
                lemma_item_nodes(list@);
            }
            while i < list.len()
                invariant
                    i <= list@.len(),
                    all == item_nodes(list@),
                    all.len() == list@.len(),
                    modes@ == Node::List(all),
                    forall|j: int| 0 <= j < i ==> !is_other_isolation(#[trigger] all[j]),
                decreases list@.len() - i,
            {
                broadcast use lemma_item_nodes;

                assert(all[i as int] == list@[i as int]@);
                if list[i].is_variant("IsolationLevel") && !list[i].payload().is_variant(
                    "RepeatableRead",
                ) {
                    return true;
                }
                i += 1;
            }
            false
        },
        None => false,
    }
}

/// Checks the start of a transaction.
pub fn check_start(start: &Tree, diagnostics: &mut Vec<Diagnostic>)
    ensures
        findings(final(diagnostics)@) == findings(old(diagnostics)@) + start_findings(start@),
{
    report_where(
        any_other_isolation(start.field("modes")),
        diagnostics,
        LintRule::TransactionIsolation,
        "DSQL supports no isolation level but REPEATABLE READ.",
        "Use REPEATABLE READ, or leave the level out.",
    );
}

/// What is said against a statement that DSQL lacks.
pub open spec fn statement_finding(phrase: Seq<char>) -> Finding {
    issue(
        LintRule::UnsupportedStatement,
        phrase + " is not supported in DSQL."@,
        "Remove the statement."@,
        Fix::Unfixable,
    )
}

/// What SQL calls a statement that DSQL lacks, by the name of its variant.
pub open spec fn statement_phrase(name: Seq<char>) -> Option<Seq<char>> {
    if name == "CreateTrigger"@ {
        Some("CREATE TRIGGER"@)
    } else if name == "CreateExtension"@ {
        Some("CREATE EXTENSION"@)
    } else if name == "CreateDatabase"@ {
        Some("CREATE DATABASE"@)
    } else if name == "CreatePolicy"@ {
        Some("CREATE POLICY"@)
    } else if name == "CreateType"@ {
        Some("CREATE TYPE"@)
    } else if name == "CreateServer"@ {
        Some("CREATE SERVER"@)
    } else if name == "AlterIndex"@ {
        Some("ALTER INDEX"@)
    } else if name == "Savepoint"@ {
        Some("SAVEPOINT"@)
    } else if name == "ReleaseSavepoint"@ {
        Some("RELEASE SAVEPOINT"@)
    } else if name == "Declare"@ {
        Some("DECLARE CURSOR"@)
    } else if name == "Lock"@ {
        Some("LOCK TABLE"@)
    } else if name == "Vacuum"@ {
        Some("VACUUM"@)
    } else {
        None
    }
}

/// What SQL calls a statement that DSQL lacks.
fn name_statement(name: &str) -> (r: Option<&'static str>)
    ensures
        match r {
            Some(phrase) => statement_phrase(name@) == Some(phrase@),
            None => statement_phrase(name@) is None,
        },
{
    if same_text(name, "CreateTrigger") {
        Some("CREATE TRIGGER")
    } else if same_text(name, "CreateExtension") {
        Some("CREATE EXTENSION")
    } else if same_text(name, "CreateDatabase") {
        Some("CREATE DATABASE")
    } else if same_text(name, "CreatePolicy") {
        Some("CREATE POLICY")
    } else if same_text(name, "CreateType") {
        Some("CREATE TYPE")
    } else if same_text(name, "CreateServer") {
        Some("CREATE SERVER")
    } else if same_text(name, "AlterIndex") {
        Some("ALTER INDEX")
    } else if same_text(name, "Savepoint") {
        Some("SAVEPOINT")
    } else if same_text(name, "ReleaseSavepoint") {
        Some("RELEASE SAVEPOINT")
    } else if same_text(name, "Declare") {
        Some("DECLARE CURSOR")
    } else if same_text(name, "Lock") {
        Some("LOCK TABLE")
    } else if same_text(name, "Vacuum") {
        Some("VACUUM")
    } else {
        None
    }
}

/// What is said against a statement by the name of its variant alone.
pub open spec fn named_findings(name: Seq<char>) -> Seq<Finding> {
    match statement_phrase(name) {
        Some(phrase) => seq![statement_finding(phrase)],
        None => Seq::empty(),
    }
}

/// Checks a statement by the name of its variant alone.
pub fn check_named(name: &str, diagnostics: &mut Vec<Diagnostic>)
    ensures
        findings(final(diagnostics)@) == findings(old(diagnostics)@) + named_findings(name@),
{
    match name_statement(name) {
        Some(phrase) => {
            let mut message = phrase.to_owned();
            message.append(" is not supported in DSQL.");
            report(
                diagnostics,
                LintRule::UnsupportedStatement,
                message.as_str(),
                "Remove the statement.",
                FixResult::Unfixable,
            );
        },
        None => {
            assert(findings(diagnostics@) =~= findings(old(diagnostics)@) + named_findings(name@));
        },
    }
}

/// What is said against `CREATE VIEW`.
pub open spec fn view_findings(view: Node) -> Seq<Finding> {
    found(
        field(view, "temporary"@) == Node::Flag(true),
        statement_finding("CREATE TEMPORARY VIEW"@),
    ) + found(
        field(view, "materialized"@) == Node::Flag(true),
        statement_finding("CREATE MATERIALIZED VIEW"@),
    )
}

fn report_statement(condition: bool, phrase: &str, diagnostics: &mut Vec<Diagnostic>)
    ensures
        findings(final(diagnostics)@) == findings(old(diagnostics)@) + found(
            condition,
            statement_finding(phrase@),
        ),
{
    let mut message = phrase.to_owned();
    message.append(" is not supported in DSQL.");
    report_where(
        condition,
        diagnostics,
        LintRule::UnsupportedStatement,
        message.as_str(),
        "Remove the statement.",
    );
}

/// Checks `CREATE VIEW`.
pub fn check_view(view: &Tree, diagnostics: &mut Vec<Diagnostic>)
    ensures
        findings(final(diagnostics)@) == findings(old(diagnostics)@) + view_findings(view@),
{
    report_statement(has_flag(view, "temporary"), "CREATE TEMPORARY VIEW", diagnostics);
    report_statement(has_flag(view, "materialized"), "CREATE MATERIALIZED VIEW", diagnostics);
    assert(findings(diagnostics@) =~= findings(old(diagnostics)@) + view_findings(view@));
}

/// What is said against `ROLLBACK`.
pub open spec fn rollback_findings(rollback: Node) -> Seq<Finding> {
    found(
        !(field(rollback, "savepoint"@) is Null),
        statement_finding("ROLLBACK TO SAVEPOINT"@),
    )
}

/// Checks `ROLLBACK`.
pub fn check_rollback(rollback: &Tree, diagnostics: &mut Vec<Diagnostic>)
    ensures
        findings(final(diagnostics)@) == findings(old(diagnostics)@) + rollback_findings(rollback@),
{
    report_statement(has_field(rollback, "savepoint"), "ROLLBACK TO SAVEPOINT", diagnostics);
}

/// What is said against `COPY`.
pub open spec fn copy_findings(copy: Node) -> Seq<Finding> {
    let target = field(copy, "target"@);
    found(
        !is_variant(target, "Stdin"@) && !is_variant(target, "Stdout"@),
        issue(
            LintRule::UnsupportedStatement,
            "COPY is supported in DSQL with STDIN/STDOUT alone."@,
            "Copy from STDIN or to STDOUT, and move the data on the client."@,
            Fix::Unfixable,
        ),
    )
}

/// Checks `COPY`.
pub fn check_copy(copy: &Tree, diagnostics: &mut Vec<Diagnostic>)
    ensures
        findings(final(diagnostics)@) == findings(old(diagnostics)@) + copy_findings(copy@),
{
    let target = copy.field("target");
    report_where(
        !target.is_variant("Stdin") && !target.is_variant("Stdout"),
        diagnostics,
        LintRule::UnsupportedStatement,
        "COPY is supported in DSQL with STDIN/STDOUT alone.",
        "Copy from STDIN or to STDOUT, and move the data on the client.",
    );
}

/// What is said against `SET`.
pub open spec fn set_findings(set: Node) -> Seq<Finding> {
    found(
        is_variant(set, "SetTransaction"@),
        issue(
            LintRule::SetTransaction,
            "SET TRANSACTION is not supported in DSQL."@,
            "Remove the statement."@,
            Fix::Unfixable,
        ),
    )
}

/// Checks `SET`.
pub fn check_set(set: &Tree, diagnostics: &mut Vec<Diagnostic>)
    ensures
        findings(final(diagnostics)@) == findings(old(diagnostics)@) + set_findings(set@),
{
    report_where(
        set.is_variant("SetTransaction"),
        diagnostics,
        LintRule::SetTransaction,
        "SET TRANSACTION is not supported in DSQL.",
        "Remove the statement.",
    );
}

/// What is said against `TRUNCATE`.
pub open spec fn truncate_finding() -> Finding {
    issue(
        LintRule::Truncate,
        "TRUNCATE is not supported in DSQL."@,
        "Use DELETE FROM."@,
        Fix::Unfixable,
    )
}

/// Reports `TRUNCATE`.
pub fn report_truncate(diagnostics: &mut Vec<Diagnostic>)
    ensures
        findings(final(diagnostics)@) == findings(old(diagnostics)@) + seq![truncate_finding()],
{
    report(
        diagnostics,
        LintRule::Truncate,
        "TRUNCATE is not supported in DSQL.",
        "Use DELETE FROM.",
        FixResult::Unfixable,
    );
}

} // verus!
