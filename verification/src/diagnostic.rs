//! What the linter reports.

pub mod laws;

use vstd::prelude::*;

use crate::text::{decimal, decimal_text};

verus! {

/// Whether a rule could fix the issue that it found, and what it did.
#[derive(Debug, Clone, PartialEq)]
pub enum FixResult {
    Fixed(String),
    FixedWithWarning(String),
    Unfixable,
}

/// The rule that produced a diagnostic.
///
/// Each rule has a name for machine-readable output: see [`LintRule::name`]. New rules may be
/// added, so a `match` on a rule needs a `_` arm.
#[derive(Debug, Clone, Copy, PartialEq, Eq, Structural)]
#[non_exhaustive]
pub enum LintRule {
    SerialType,
    JsonType,
    ArrayType,
    ForeignKey,
    TempTable,
    PartitionBy,
    Inherits,
    CreateTableAs,
    Tablespace,
    IdentityType,
    IdentityCache,
    IdentityCacheMissing,
    IndexAsync,
    IndexConcurrently,
    IndexUsing,
    IndexExpression,
    IndexPartial,
    Truncate,
    SequenceType,
    SequenceCache,
    SequenceCacheMissing,
    AddColumnConstraint,
    TransactionIsolation,
    SetTransaction,
    UnsupportedAlterTableOp,
    UnsupportedStatement,
    MultiDdlTransaction,
    ParseError,
}

/// The name of a rule in machine-readable output.
pub open spec fn rule_name(rule: LintRule) -> Seq<char> {
    match rule {
        LintRule::SerialType => "serial_type"@,
        LintRule::JsonType => "json_type"@,
        LintRule::ArrayType => "array_type"@,
        LintRule::ForeignKey => "foreign_key"@,
        LintRule::TempTable => "temp_table"@,
        LintRule::PartitionBy => "partition_by"@,
        LintRule::Inherits => "inherits"@,
        LintRule::CreateTableAs => "create_table_as"@,
        LintRule::Tablespace => "tablespace"@,
        LintRule::IdentityType => "identity_type"@,
        LintRule::IdentityCache => "identity_cache"@,
        LintRule::IdentityCacheMissing => "identity_cache_missing"@,
        LintRule::IndexAsync => "index_async"@,
        LintRule::IndexConcurrently => "index_concurrently"@,
        LintRule::IndexUsing => "index_using"@,
        LintRule::IndexExpression => "index_expression"@,
        LintRule::IndexPartial => "index_partial"@,
        LintRule::Truncate => "truncate"@,
        LintRule::SequenceType => "sequence_type"@,
        LintRule::SequenceCache => "sequence_cache"@,
        LintRule::SequenceCacheMissing => "sequence_cache_missing"@,
        LintRule::AddColumnConstraint => "add_column_constraint"@,
        LintRule::TransactionIsolation => "transaction_isolation"@,
        LintRule::SetTransaction => "set_transaction"@,
        LintRule::UnsupportedAlterTableOp => "unsupported_alter_table_op"@,
        LintRule::UnsupportedStatement => "unsupported_statement"@,
        LintRule::MultiDdlTransaction => "multi_ddl_transaction"@,
        LintRule::ParseError => "parse_error"@,
    }
}

/// Where a rule stands in the list of all rules.
pub open spec fn rule_index(rule: LintRule) -> int {
    match rule {
        LintRule::SerialType => 0,
        LintRule::JsonType => 1,
        LintRule::ArrayType => 2,
        LintRule::ForeignKey => 3,
        LintRule::TempTable => 4,
        LintRule::PartitionBy => 5,
        LintRule::Inherits => 6,
        LintRule::CreateTableAs => 7,
        LintRule::Tablespace => 8,
        LintRule::IdentityType => 9,
        LintRule::IdentityCache => 10,
        LintRule::IdentityCacheMissing => 11,
        LintRule::IndexAsync => 12,
        LintRule::IndexConcurrently => 13,
        LintRule::IndexUsing => 14,
        LintRule::IndexExpression => 15,
        LintRule::IndexPartial => 16,
        LintRule::Truncate => 17,
        LintRule::SequenceType => 18,
        LintRule::SequenceCache => 19,
        LintRule::SequenceCacheMissing => 20,
        LintRule::AddColumnConstraint => 21,
        LintRule::TransactionIsolation => 22,
        LintRule::SetTransaction => 23,
        LintRule::UnsupportedAlterTableOp => 24,
        LintRule::UnsupportedStatement => 25,
        LintRule::MultiDdlTransaction => 26,
        LintRule::ParseError => 27,
    }
}

impl LintRule {
    /// All rules, each once.
    pub fn all() -> (r: Vec<LintRule>)
        ensures
            r@.len() == 28,
            forall|rule: LintRule|
                0 <= rule_index(rule) < 28 && #[trigger] r@[rule_index(rule)] == rule,
    {
        let mut all: Vec<LintRule> = Vec::new();
        all.push(LintRule::SerialType);
        all.push(LintRule::JsonType);
        all.push(LintRule::ArrayType);
        all.push(LintRule::ForeignKey);
        all.push(LintRule::TempTable);
        all.push(LintRule::PartitionBy);
        all.push(LintRule::Inherits);
        all.push(LintRule::CreateTableAs);
        all.push(LintRule::Tablespace);
        all.push(LintRule::IdentityType);
        all.push(LintRule::IdentityCache);
        all.push(LintRule::IdentityCacheMissing);
        all.push(LintRule::IndexAsync);
        all.push(LintRule::IndexConcurrently);
        all.push(LintRule::IndexUsing);
        all.push(LintRule::IndexExpression);
        all.push(LintRule::IndexPartial);
        all.push(LintRule::Truncate);
        all.push(LintRule::SequenceType);
        all.push(LintRule::SequenceCache);
        all.push(LintRule::SequenceCacheMissing);
        all.push(LintRule::AddColumnConstraint);
        all.push(LintRule::TransactionIsolation);
        all.push(LintRule::SetTransaction);
        all.push(LintRule::UnsupportedAlterTableOp);
        all.push(LintRule::UnsupportedStatement);
        all.push(LintRule::MultiDdlTransaction);
        all.push(LintRule::ParseError);
        all
    }

    /// The name of the rule in machine-readable output.
    pub fn name(&self) -> (r: &'static str)
        ensures
            r@ == rule_name(*self),
    {
        match self {
            LintRule::SerialType => "serial_type",
            LintRule::JsonType => "json_type",
            LintRule::ArrayType => "array_type",
            LintRule::ForeignKey => "foreign_key",
            LintRule::TempTable => "temp_table",
            LintRule::PartitionBy => "partition_by",
            LintRule::Inherits => "inherits",
            LintRule::CreateTableAs => "create_table_as",
            LintRule::Tablespace => "tablespace",
            LintRule::IdentityType => "identity_type",
            LintRule::IdentityCache => "identity_cache",
            LintRule::IdentityCacheMissing => "identity_cache_missing",
            LintRule::IndexAsync => "index_async",
            LintRule::IndexConcurrently => "index_concurrently",
            LintRule::IndexUsing => "index_using",
            LintRule::IndexExpression => "index_expression",
            LintRule::IndexPartial => "index_partial",
            LintRule::Truncate => "truncate",
            LintRule::SequenceType => "sequence_type",
            LintRule::SequenceCache => "sequence_cache",
            LintRule::SequenceCacheMissing => "sequence_cache_missing",
            LintRule::AddColumnConstraint => "add_column_constraint",
            LintRule::TransactionIsolation => "transaction_isolation",
            LintRule::SetTransaction => "set_transaction",
            LintRule::UnsupportedAlterTableOp => "unsupported_alter_table_op",
            LintRule::UnsupportedStatement => "unsupported_statement",
            LintRule::MultiDdlTransaction => "multi_ddl_transaction",
            LintRule::ParseError => "parse_error",
        }
    }
}

/// The length of a rule's name, and three of its letters.
spec fn fingerprint(rule: LintRule) -> (nat, char, char, char) {
    match rule {
        LintRule::SerialType => (11, 's', 'e', '_'),
        LintRule::JsonType => (9, 'j', 's', 'y'),
        LintRule::ArrayType => (10, 'a', 'r', 't'),
        LintRule::ForeignKey => (11, 'f', 'o', 'n'),
        LintRule::TempTable => (10, 't', 'e', 'a'),
        LintRule::PartitionBy => (12, 'p', 'a', 'i'),
        LintRule::Inherits => (8, 'i', 'n', 't'),
        LintRule::CreateTableAs => (15, 'c', 'r', '_'),
        LintRule::Tablespace => (10, 't', 'a', 'p'),
        LintRule::IdentityType => (13, 'i', 'd', 't'),
        LintRule::IdentityCache => (14, 'i', 'd', 't'),
        LintRule::IdentityCacheMissing => (22, 'i', 'd', 't'),
        LintRule::IndexAsync => (11, 'i', 'n', 'a'),
        LintRule::IndexConcurrently => (18, 'i', 'n', 'c'),
        LintRule::IndexUsing => (11, 'i', 'n', 'u'),
        LintRule::IndexExpression => (16, 'i', 'n', 'e'),
        LintRule::IndexPartial => (13, 'i', 'n', 'p'),
        LintRule::Truncate => (8, 't', 'r', 't'),
        LintRule::SequenceType => (13, 's', 'e', 'c'),
        LintRule::SequenceCache => (14, 's', 'e', 'c'),
        LintRule::SequenceCacheMissing => (22, 's', 'e', 'c'),
        LintRule::AddColumnConstraint => (21, 'a', 'd', 'l'),
        LintRule::TransactionIsolation => (21, 't', 'r', 'c'),
        LintRule::SetTransaction => (15, 's', 'e', 'a'),
        LintRule::UnsupportedAlterTableOp => (26, 'u', 'n', 'o'),
        LintRule::UnsupportedStatement => (21, 'u', 'n', 'o'),
        LintRule::MultiDdlTransaction => (21, 'm', 'u', 'd'),
        LintRule::ParseError => (11, 'p', 'a', 'e'),
    }
}

proof fn lemma_fingerprint(rule: LintRule)
    ensures
        fingerprint(rule) == (
            rule_name(rule).len(),
            rule_name(rule)[0],
            rule_name(rule)[1],
            rule_name(rule)[6],
        ),
{
    match rule {
        LintRule::SerialType => {
            reveal_strlit("serial_type");
        },
        LintRule::JsonType => {
            reveal_strlit("json_type");
        },
        LintRule::ArrayType => {
            reveal_strlit("array_type");
        },
        LintRule::ForeignKey => {
            reveal_strlit("foreign_key");
        },
        LintRule::TempTable => {
            reveal_strlit("temp_table");
        },
        LintRule::PartitionBy => {
            reveal_strlit("partition_by");
        },
        LintRule::Inherits => {
            reveal_strlit("inherits");
        },
        LintRule::CreateTableAs => {
            reveal_strlit("create_table_as");
        },
        LintRule::Tablespace => {
            reveal_strlit("tablespace");
        },
        LintRule::IdentityType => {
            reveal_strlit("identity_type");
        },
        LintRule::IdentityCache => {
            reveal_strlit("identity_cache");
        },
        LintRule::IdentityCacheMissing => {
            reveal_strlit("identity_cache_missing");
        },
        LintRule::IndexAsync => {
            reveal_strlit("index_async");
        },
        LintRule::IndexConcurrently => {
            reveal_strlit("index_concurrently");
        },
        LintRule::IndexUsing => {
            reveal_strlit("index_using");
        },
        LintRule::IndexExpression => {
            reveal_strlit("index_expression");
        },
        LintRule::IndexPartial => {
            reveal_strlit("index_partial");
        },
        LintRule::Truncate => {
            reveal_strlit("truncate");
        },
        LintRule::SequenceType => {
            reveal_strlit("sequence_type");
        },
        LintRule::SequenceCache => {
            reveal_strlit("sequence_cache");
        },
        LintRule::SequenceCacheMissing => {
            reveal_strlit("sequence_cache_missing");
        },
        LintRule::AddColumnConstraint => {
            reveal_strlit("add_column_constraint");
        },
        LintRule::TransactionIsolation => {
            reveal_strlit("transaction_isolation");
        },
        LintRule::SetTransaction => {
            reveal_strlit("set_transaction");
        },
        LintRule::UnsupportedAlterTableOp => {
            reveal_strlit("unsupported_alter_table_op");
        },
        LintRule::UnsupportedStatement => {
            reveal_strlit("unsupported_statement");
        },
        LintRule::MultiDdlTransaction => {
            reveal_strlit("multi_ddl_transaction");
        },
        LintRule::ParseError => {
            reveal_strlit("parse_error");
        },
    }
}

/// No two rules have the same name.
pub proof fn rule_names_are_distinct(a: LintRule, b: LintRule)
    requires
        rule_name(a) == rule_name(b),
    ensures
        a == b,
{
    lemma_fingerprint(a);
    lemma_fingerprint(b);
}

/// One compatibility issue of the input SQL.
#[derive(Debug, Clone)]
pub struct Diagnostic {
    pub rule: LintRule,
    pub line: usize,
    /// The SQL of the statement at fault, as it stands in the input.
    pub statement: String,
    pub message: String,
    pub suggestion: String,
    pub fix_result: FixResult,
}

/// The SQL that a fix gives, and what was found on the way.
pub struct FixOutput {
    pub sql: String,
    pub diagnostics: Vec<Diagnostic>,
}

/// The model of a [`FixResult`].
pub enum Fix {
    Fixed(Seq<char>),
    FixedWithWarning(Seq<char>),
    Unfixable,
}

/// The model of a [`Diagnostic`].
pub struct Finding {
    pub rule: LintRule,
    pub line: usize,
    pub statement: Seq<char>,
    pub message: Seq<char>,
    pub suggestion: Seq<char>,
    pub fix: Fix,
}

impl View for FixResult {
    type V = Fix;

    open spec fn view(&self) -> Fix {
        match *self {
            FixResult::Fixed(note) => Fix::Fixed(note@),
            FixResult::FixedWithWarning(note) => Fix::FixedWithWarning(note@),
            FixResult::Unfixable => Fix::Unfixable,
        }
    }
}

impl View for Diagnostic {
    type V = Finding;

    open spec fn view(&self) -> Finding {
        Finding {
            rule: self.rule,
            line: self.line,
            statement: self.statement@,
            message: self.message@,
            suggestion: self.suggestion@,
            fix: self.fix_result@,
        }
    }
}

/// Diagnostics as plain values.
pub open spec fn findings(diagnostics: Seq<Diagnostic>) -> Seq<Finding> {
    diagnostics.map_values(|diagnostic: Diagnostic| diagnostic@)
}

pub broadcast proof fn lemma_findings_push(diagnostics: Seq<Diagnostic>, diagnostic: Diagnostic)
    ensures
        #[trigger] findings(diagnostics.push(diagnostic)) == findings(diagnostics).push(
            diagnostic@,
        ),
{
    assert(findings(diagnostics.push(diagnostic)) =~= findings(diagnostics).push(diagnostic@));
}

pub broadcast proof fn lemma_findings_add(a: Seq<Diagnostic>, b: Seq<Diagnostic>)
    ensures
        #[trigger] findings(a + b) == findings(a) + findings(b),
{
    assert(findings(a + b) =~= findings(a) + findings(b));
}

/// What a rule says against a statement. The line counts from the start of the statement, and the
/// text of the statement is filled in later.
pub open spec fn issue(
    rule: LintRule,
    message: Seq<char>,
    suggestion: Seq<char>,
    fix: Fix,
) -> Finding {
    Finding { rule, line: 1, statement: Seq::empty(), message, suggestion, fix }
}

/// Adds what a rule says against a statement.
pub fn report(
    diagnostics: &mut Vec<Diagnostic>,
    rule: LintRule,
    message: &str,
    suggestion: &str,
    fix_result: FixResult,
)
    ensures
        findings(final(diagnostics)@) == findings(old(diagnostics)@) + seq![
            issue(rule, message@, suggestion@, fix_result@),
        ],
{
    broadcast use lemma_findings_push;

    let diagnostic = Diagnostic {
        rule,
        line: 1,
        statement: String::new(),
        message: message.to_owned(),
        suggestion: suggestion.to_owned(),
        fix_result,
    };
    assert(diagnostic@.statement =~= Seq::empty());
    diagnostics.push(diagnostic);
    assert(findings(diagnostics@) =~= findings(old(diagnostics)@) + seq![
        issue(rule, message@, suggestion@, fix_result@),
    ]);
}

/// The issue that a transaction holds several DDL statements.
pub open spec fn multi_ddl_finding(
    line: usize,
    ddl_count: nat,
    begin_text: Seq<char>,
    fix: Fix,
) -> Finding {
    Finding {
        rule: LintRule::MultiDdlTransaction,
        line,
        statement: begin_text,
        message: "Transaction contains "@ + decimal(ddl_count)
            + " DDL statements. DSQL supports only one DDL statement per transaction."@,
        suggestion:
            "Split into separate transactions: wrap each DDL statement in its own BEGIN/COMMIT block."@,
        fix,
    }
}

/// Reports a transaction with several DDL statements.
pub fn multi_ddl_txn_diagnostic(
    line: usize,
    ddl_count: usize,
    begin_text: &str,
    fix_result: FixResult,
) -> (d: Diagnostic)
    ensures
        d@ == multi_ddl_finding(line, ddl_count as nat, begin_text@, fix_result@),
{
    let mut message = "Transaction contains ".to_owned();
    message.append(decimal_text(ddl_count).as_str());
    message.append(" DDL statements. DSQL supports only one DDL statement per transaction.");
    Diagnostic {
        rule: LintRule::MultiDdlTransaction,
        line,
        statement: begin_text.to_owned(),
        message,
        suggestion:
            "Split into separate transactions: wrap each DDL statement in its own BEGIN/COMMIT block.".to_owned(),
        fix_result,
    }
}

/// Builds a diagnostic of the rule `ParseError`, which nothing can fix.
fn syntax_diagnostic(line: usize, statement: &str, message: String, suggestion: &str) -> (d:
    Diagnostic)
    ensures
        d@ == (Finding {
            rule: LintRule::ParseError,
            line,
            statement: statement@,
            message: message@,
            suggestion: suggestion@,
            fix: Fix::Unfixable,
        }),
{
    Diagnostic {
        rule: LintRule::ParseError,
        line,
        statement: statement.to_owned(),
        message,
        suggestion: suggestion.to_owned(),
        fix_result: FixResult::Unfixable,
    }
}

/// The issue that the input has no tokens.
pub open spec fn tokenize_finding(error: Seq<char>) -> Finding {
    Finding {
        rule: LintRule::ParseError,
        line: 1,
        statement: Seq::empty(),
        message: "Failed to tokenize SQL: "@ + error,
        suggestion: "Fix the SQL syntax and try again."@,
        fix: Fix::Unfixable,
    }
}

/// The issue that a statement cannot be parsed.
pub open spec fn parse_finding(line: usize, statement: Seq<char>, error: Seq<char>) -> Finding {
    Finding {
        rule: LintRule::ParseError,
        line,
        statement,
        message: "Failed to parse SQL: "@ + error,
        suggestion: "Fix the SQL syntax and try again."@,
        fix: Fix::Unfixable,
    }
}

/// The issue that a statement inside a transaction cannot be parsed.
pub open spec fn parse_in_transaction_finding(
    line: usize,
    statement: Seq<char>,
    error: Seq<char>,
) -> Finding {
    Finding {
        rule: LintRule::ParseError,
        line,
        statement,
        message: "Cannot parse statement inside transaction block: "@ + error
            + ". DDL transaction analysis may be incomplete."@,
        suggestion:
            "Fix the SQL syntax or manually verify this transaction has at most one DDL statement."@,
        fix: Fix::Unfixable,
    }
}

/// The issue that a transaction cannot be split because of a statement in it.
pub open spec fn parse_blocks_split_finding(
    line: usize,
    statement: Seq<char>,
    error: Seq<char>,
) -> Finding {
    Finding {
        rule: LintRule::ParseError,
        line,
        statement,
        message: "Cannot parse statement inside transaction: "@ + error
            + ". Skipping auto-fix for this transaction block."@,
        suggestion: "Fix the syntax error, then re-run with --fix."@,
        fix: Fix::Unfixable,
    }
}

/// Reports that the input has no tokens.
pub fn tokenize_diagnostic(error: &str) -> (d: Diagnostic)
    ensures
        d@ == tokenize_finding(error@),
{
    let mut message = "Failed to tokenize SQL: ".to_owned();
    message.append(error);
    syntax_diagnostic(1, String::new().as_str(), message, "Fix the SQL syntax and try again.")
}

/// Reports that a statement cannot be parsed.
pub fn parse_diagnostic(line: usize, statement: &str, error: &str) -> (d: Diagnostic)
    ensures
        d@ == parse_finding(line, statement@, error@),
{
    let mut message = "Failed to parse SQL: ".to_owned();
    message.append(error);
    syntax_diagnostic(line, statement, message, "Fix the SQL syntax and try again.")
}

/// Reports that a statement inside a transaction cannot be parsed.
pub fn parse_in_transaction_diagnostic(line: usize, statement: &str, error: &str) -> (d: Diagnostic)
    ensures
        d@ == parse_in_transaction_finding(line, statement@, error@),
{
    let mut message = "Cannot parse statement inside transaction block: ".to_owned();
    message.append(error);
    message.append(". DDL transaction analysis may be incomplete.");
    syntax_diagnostic(
        line,
        statement,
        message,
        "Fix the SQL syntax or manually verify this transaction has at most one DDL statement.",
    )
}

/// Reports that a transaction cannot be split because of a statement in it.
pub fn parse_blocks_split_diagnostic(line: usize, statement: &str, error: &str) -> (d: Diagnostic)
    ensures
        d@ == parse_blocks_split_finding(line, statement@, error@),
{
    let mut message = "Cannot parse statement inside transaction: ".to_owned();
    message.append(error);
    message.append(". Skipping auto-fix for this transaction block.");
    syntax_diagnostic(line, statement, message, "Fix the syntax error, then re-run with --fix.")
}

} // verus!
