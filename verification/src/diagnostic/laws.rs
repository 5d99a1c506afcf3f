//! What the messages that speak of no rule say.

use vstd::prelude::*;

use crate::diagnostic::{
    findings, multi_ddl_finding, parse_blocks_split_finding, parse_finding,
    parse_in_transaction_finding, rule_name, tokenize_finding, Diagnostic, Finding, Fix, FixResult,
    LintRule,
};
use crate::text::decimal;

verus! {

/// The name of each rule in machine-readable output.
pub proof fn rules_are_named()
    ensures
        rule_name(LintRule::SerialType) == "serial_type"@,
        rule_name(LintRule::JsonType) == "json_type"@,
        rule_name(LintRule::ArrayType) == "array_type"@,
        rule_name(LintRule::ForeignKey) == "foreign_key"@,
        rule_name(LintRule::TempTable) == "temp_table"@,
        rule_name(LintRule::PartitionBy) == "partition_by"@,
        rule_name(LintRule::Inherits) == "inherits"@,
        rule_name(LintRule::CreateTableAs) == "create_table_as"@,
        rule_name(LintRule::Tablespace) == "tablespace"@,
        rule_name(LintRule::IdentityType) == "identity_type"@,
        rule_name(LintRule::IdentityCache) == "identity_cache"@,
        rule_name(LintRule::IdentityCacheMissing) == "identity_cache_missing"@,
        rule_name(LintRule::IndexAsync) == "index_async"@,
        rule_name(LintRule::IndexConcurrently) == "index_concurrently"@,
        rule_name(LintRule::IndexUsing) == "index_using"@,
        rule_name(LintRule::IndexExpression) == "index_expression"@,
        rule_name(LintRule::IndexPartial) == "index_partial"@,
        rule_name(LintRule::Truncate) == "truncate"@,
        rule_name(LintRule::SequenceType) == "sequence_type"@,
        rule_name(LintRule::SequenceCache) == "sequence_cache"@,
        rule_name(LintRule::SequenceCacheMissing) == "sequence_cache_missing"@,
        rule_name(LintRule::AddColumnConstraint) == "add_column_constraint"@,
        rule_name(LintRule::TransactionIsolation) == "transaction_isolation"@,
        rule_name(LintRule::SetTransaction) == "set_transaction"@,
        rule_name(LintRule::UnsupportedAlterTableOp) == "unsupported_alter_table_op"@,
        rule_name(LintRule::UnsupportedStatement) == "unsupported_statement"@,
        rule_name(LintRule::MultiDdlTransaction) == "multi_ddl_transaction"@,
        rule_name(LintRule::ParseError) == "parse_error"@,
{
}

/// What a finding tells of a diagnostic: all of it, field by field.
pub proof fn findings_tell_all(diagnostics: Seq<Diagnostic>, i: int)
    requires
        0 <= i < diagnostics.len(),
    ensures
        findings(diagnostics).len() == diagnostics.len(),
        findings(diagnostics)[i].rule == diagnostics[i].rule,
        findings(diagnostics)[i].line == diagnostics[i].line,
        findings(diagnostics)[i].statement == diagnostics[i].statement@,
        findings(diagnostics)[i].message == diagnostics[i].message@,
        findings(diagnostics)[i].suggestion == diagnostics[i].suggestion@,
        diagnostics[i].fix_result is Unfixable <==> findings(diagnostics)[i].fix is Unfixable,
        diagnostics[i].fix_result matches FixResult::Fixed(note) ==> findings(diagnostics)[i].fix
            == Fix::Fixed(note@),
        diagnostics[i].fix_result matches FixResult::FixedWithWarning(note) ==> findings(
            diagnostics,
        )[i].fix == Fix::FixedWithWarning(note@),
{
}

/// A transaction with several DDL statements is reported with their number and with what to do,
/// where the transaction starts.
pub proof fn several_ddl_are_worded(line: usize, count: nat, text: Seq<char>, fix: Fix)
    ensures
        ({
            let finding = multi_ddl_finding(line, count, text, fix);
            &&& finding.rule == LintRule::MultiDdlTransaction
            &&& finding.line == line
            &&& finding.statement == text
            &&& finding.message == "Transaction contains "@ + decimal(count)
                + " DDL statements. DSQL supports only one DDL statement per transaction."@
            &&& finding.suggestion
                == "Split into separate transactions: wrap each DDL statement in its own BEGIN/COMMIT block."@
            &&& finding.fix == fix
        }),
{
}

/// What cannot be read is reported as a parse error that nothing can fix, with the reason, and with
/// what it means and what to do where it stands.
pub proof fn errors_are_worded(line: usize, text: Seq<char>, error: Seq<char>)
    ensures
        tokenize_finding(error) == (Finding {
            rule: LintRule::ParseError,
            line: 1,
            statement: Seq::empty(),
            message: "Failed to tokenize SQL: "@ + error,
            suggestion: "Fix the SQL syntax and try again."@,
            fix: Fix::Unfixable,
        }),
        parse_finding(line, text, error) == (Finding {
            rule: LintRule::ParseError,
            line,
            statement: text,
            message: "Failed to parse SQL: "@ + error,
            suggestion: "Fix the SQL syntax and try again."@,
            fix: Fix::Unfixable,
        }),
        parse_in_transaction_finding(line, text, error) == (Finding {
            rule: LintRule::ParseError,
            line,
            statement: text,
            message: "Cannot parse statement inside transaction block: "@ + error
                + ". DDL transaction analysis may be incomplete."@,
            suggestion:
                "Fix the SQL syntax or manually verify this transaction has at most one DDL statement."@,
            fix: Fix::Unfixable,
        }),
        parse_blocks_split_finding(line, text, error) == (Finding {
            rule: LintRule::ParseError,
            line,
            statement: text,
            message: "Cannot parse statement inside transaction: "@ + error
                + ". Skipping auto-fix for this transaction block."@,
            suggestion: "Fix the syntax error, then re-run with --fix."@,
            fix: Fix::Unfixable,
        }),
{
}

} // verus!
