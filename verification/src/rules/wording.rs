//! What the rules say in words, and whether they claim a repair.

use vstd::prelude::*;

use crate::diagnostic::{Finding, Fix, LintRule};
use crate::rules::breaches::{
    breaches_are_reported, column_breaches, generates, lemma_operation_names, lemma_option_kinds,
    lemma_statement_names, operation_breaches, option_breaches, said, total,
};
use crate::rules::column::{
    added_column_findings, added_option_findings, column_findings, each, option_findings,
};
use crate::rules::index::index_findings;
use crate::rules::repairs::{
    alterations_keep_what_is_not_named, column_is_repaired, generates_from_one, is_named_type,
    is_serial, is_whole, kept_operations, kept_options, lemma_serial, names_serial,
    operation_is_repaired, tables_keep_what_is_not_named,
};
use crate::rules::statement::{
    copy_findings, named_findings, rollback_findings, sequence_findings, set_findings,
    start_findings, truncate_finding, view_findings,
};
use crate::rules::table::{
    alter_findings, clause_findings, constraint_findings, operation_findings, table_findings,
};
use crate::rules::{repaired, rule_findings};
use crate::syntax::{field, items, payload, variant, Node};
use crate::text::upper;

verus! {

/// Whether a finding claims a repair exactly where its rule makes one: `ASYNC` is added without
/// further ado, foreign keys are removed with a warning, and serial types are replaced with a
/// warning in a new table alone.
pub open spec fn claims_rightly(finding: Finding, new_table: bool) -> bool {
    match finding.rule {
        LintRule::IndexAsync => finding.fix is Fixed,
        LintRule::ForeignKey => finding.fix is FixedWithWarning,
        LintRule::SerialType => if new_table {
            finding.fix is FixedWithWarning
        } else {
            finding.fix is Unfixable
        },
        _ => finding.fix is Unfixable,
    }
}

/// Whether a finding is worded as its rule is, where the rule has but one wording.
pub open spec fn is_worded(finding: Finding) -> bool {
    match finding.rule {
        LintRule::ArrayType => finding.message
            == "Columns of an array type are not supported in DSQL."@,
        LintRule::ForeignKey => finding.message
            == "FOREIGN KEY constraints are not supported in DSQL."@,
        LintRule::TempTable => finding.message == "TEMPORARY tables are not supported in DSQL."@,
        LintRule::PartitionBy => finding.message == "PARTITION BY is not supported in DSQL."@,
        LintRule::Inherits => finding.message == "INHERITS is not supported in DSQL."@,
        LintRule::CreateTableAs => finding.message == "CREATE TABLE AS is not supported in DSQL."@,
        LintRule::Tablespace => finding.message == "TABLESPACE is not supported in DSQL."@,
        LintRule::IdentityType => finding.message
            == "Identity column of a type other than BIGINT is not supported in DSQL."@,
        LintRule::IdentityCacheMissing => finding.message
            == "An identity needs a CACHE clause in DSQL."@,
        LintRule::IdentityCache => finding.message
            == "The CACHE value of an identity must be 1 or at least 65536 in DSQL."@,
        LintRule::IndexAsync => finding.message
            == "CREATE INDEX without ASYNC is not supported in DSQL."@,
        LintRule::IndexConcurrently => finding.message
            == "CREATE INDEX CONCURRENTLY is not supported in DSQL."@,
        LintRule::IndexUsing => finding.message
            == "The USING clause of CREATE INDEX is not supported in DSQL."@,
        LintRule::IndexExpression => finding.message
            == "Expression indexes are not supported in DSQL."@,
        LintRule::IndexPartial => finding.message == "Partial indexes are not supported in DSQL."@,
        LintRule::Truncate => finding.message == "TRUNCATE is not supported in DSQL."@,
        LintRule::SequenceType => finding.message
            == "CREATE SEQUENCE with type other than BIGINT is not supported in DSQL."@,
        LintRule::SequenceCacheMissing => finding.message
            == "CREATE SEQUENCE needs a CACHE clause in DSQL."@,
        LintRule::SequenceCache => finding.message
            == "The CACHE value of a sequence must be 1 or at least 65536 in DSQL."@,
        LintRule::TransactionIsolation => finding.message
            == "DSQL supports no isolation level but REPEATABLE READ."@,
        LintRule::SetTransaction => finding.message == "SET TRANSACTION is not supported in DSQL."@,
        _ => true,
    }
}

/// Whether a finding gives the advice of its rule, where the rule has but one.
pub open spec fn gives_advice(finding: Finding) -> bool {
    match finding.rule {
        LintRule::SerialType => finding.suggestion
            == "Use BIGINT GENERATED BY DEFAULT AS IDENTITY (CACHE 1), or a UUID."@,
        LintRule::JsonType => finding.suggestion == "Store the document in a TEXT column."@,
        LintRule::ArrayType => finding.suggestion == "Store the items in a table of their own."@,
        LintRule::ForeignKey => finding.suggestion
            == "Remove the constraint and keep references intact in the application."@,
        LintRule::IdentityType => finding.suggestion == "Use BIGINT for the identity column."@,
        LintRule::IdentityCacheMissing => finding.suggestion
            == "Add (CACHE 1) or (CACHE 65536) to the identity."@,
        LintRule::IdentityCache => finding.suggestion == "Use CACHE 1 or CACHE 65536."@,
        LintRule::TempTable => finding.suggestion == "Use a regular table."@,
        LintRule::PartitionBy => finding.suggestion
            == "Remove the clause: DSQL distributes tables by itself."@,
        LintRule::Inherits => finding.suggestion
            == "Write the columns of the parent into the table."@,
        LintRule::CreateTableAs => finding.suggestion
            == "Create the table with its columns, then fill it."@,
        LintRule::Tablespace => finding.suggestion == "Remove the clause."@,
        LintRule::UnsupportedAlterTableOp => finding.suggestion
            == "Create a new table in the form that is wanted and copy the data."@,
        LintRule::IndexConcurrently => finding.suggestion == "Use CREATE INDEX ASYNC."@,
        LintRule::IndexAsync => finding.suggestion == "Use CREATE INDEX ASYNC."@,
        LintRule::IndexUsing => finding.suggestion == "Remove the clause."@,
        LintRule::IndexExpression => finding.suggestion
            == "Store the value in a column and index the column."@,
        LintRule::IndexPartial => finding.suggestion == "Remove the WHERE clause."@,
        LintRule::SequenceType => finding.suggestion == "Use AS BIGINT, or leave the type out."@,
        LintRule::SequenceCacheMissing => finding.suggestion == "Add CACHE 1 or CACHE 65536."@,
        LintRule::SequenceCache => finding.suggestion == "Use CACHE 1 or CACHE 65536."@,
        LintRule::TransactionIsolation => finding.suggestion
            == "Use REPEATABLE READ, or leave the level out."@,
        LintRule::SetTransaction => finding.suggestion == "Remove the statement."@,
        LintRule::Truncate => finding.suggestion == "Use DELETE FROM."@,
        _ => true,
    }
}

/// Whether a finding says what was done about it in the words of its rule.
pub open spec fn tells_of_repair(finding: Finding) -> bool {
    match finding.fix {
        Fix::Unfixable => true,
        Fix::Fixed(note) => finding.rule == LintRule::IndexAsync && note
            == "Added ASYNC to CREATE INDEX."@,
        Fix::FixedWithWarning(note) => {
            ||| finding.rule == LintRule::ForeignKey && note
                == "Removed a FOREIGN KEY constraint. Keep references intact in the application."@
            ||| finding.rule == LintRule::SerialType && note
                == "Replaced the serial type with BIGINT GENERATED BY DEFAULT AS IDENTITY (CACHE 1). Check that a 64-bit identity column fits."@
        },
    }
}

/// Whether each finding claims what it may and is worded as its rule is.
pub open spec fn are_right(all: Seq<Finding>, new_table: bool) -> bool {
    forall|i: int|
        0 <= i < all.len() ==> is_right(#[trigger] all[i], new_table)
}

/// Whether a finding claims what it may, and says it in the words of its rule.
pub open spec fn is_right(finding: Finding, new_table: bool) -> bool {
    &&& claims_rightly(finding, new_table)
    &&& is_worded(finding)
    &&& gives_advice(finding)
    &&& tells_of_repair(finding)
}

proof fn lemma_each_right(nodes: Seq<Node>, of: spec_fn(Node) -> Seq<Finding>, new_table: bool)
    requires
        forall|node: Node| are_right(#[trigger] of(node), new_table),
    ensures
        are_right(each(nodes, of), new_table),
    decreases nodes.len(),
{
    if nodes.len() > 0 {
        lemma_each_right(nodes.drop_last(), of, new_table);
        assert(are_right(of(nodes.last()), new_table));
    }
}

proof fn lemma_columns_right(column: Node)
    ensures
        are_right(column_findings(column), true),
        are_right(added_column_findings(column), false),
{
    let data_type = field(column, "data_type"@);
    let options = items(field(column, "options"@));
    lemma_each_right(options, |option: Node| option_findings(data_type, option), true);
    lemma_each_right(options, |option: Node| added_option_findings(option), false);
}

proof fn lemma_right_add(a: Seq<Finding>, b: Seq<Finding>, new_table: bool)
    requires
        are_right(a, new_table),
        are_right(b, new_table),
    ensures
        are_right(a + b, new_table),
{
    assert forall|i: int| 0 <= i < (a + b).len() implies is_right(
        #[trigger] (a + b)[i],
        new_table,
    ) by {
        if i < a.len() {
            assert((a + b)[i] == a[i]);
        } else {
            assert((a + b)[i] == b[i - a.len()]);
        }
    }
}

proof fn lemma_operations_right(operation: Node)
    ensures
        are_right(operation_findings(operation), false),
{
    lemma_columns_right(field(payload(operation), "column_def"@));
}

proof fn lemma_tables_right(table: Node)
    ensures
        are_right(table_findings(table), true),
{
    let of_column = |column: Node| column_findings(column);
    let of_constraint = |constraint: Node| constraint_findings(constraint);
    let columns = items(field(table, "columns"@));
    let constraints = items(field(table, "constraints"@));
    assert forall|column: Node| are_right(#[trigger] of_column(column), true) by {
        lemma_columns_right(column);
    }
    lemma_each_right(columns, of_column, true);
    lemma_each_right(constraints, of_constraint, true);
    lemma_clauses_right(table);
    lemma_right_add(clause_findings(table), each(columns, of_column), true);
    lemma_right_add(
        clause_findings(table) + each(columns, of_column),
        each(constraints, of_constraint),
        true,
    );
}

proof fn lemma_clauses_right(table: Node)
    ensures
        are_right(clause_findings(table), true),
{
}

proof fn lemma_alterations_right(table: Node)
    ensures
        are_right(alter_findings(table), false),
{
    let of = |operation: Node| operation_findings(operation);
    assert forall|operation: Node| are_right(#[trigger] of(operation), false) by {
        lemma_operations_right(operation);
    }
    lemma_each_right(items(field(table, "operations"@)), of, false);
}

/// Every finding claims a repair exactly where its rule makes one, and is worded as its rule is.
pub proof fn findings_are_right(statement: Node)
    ensures
        are_right(rule_findings(statement), variant(statement) == Some("CreateTable"@)),
{
    lemma_statement_names();
    lemma_tables_right(payload(statement));
    lemma_alterations_right(payload(statement));
    let body = payload(statement);
    if let Some(name) = variant(statement) {
        assert(are_right(index_findings(body), false));
        assert(are_right(sequence_findings(body), false));
        assert(are_right(view_findings(body), false));
        assert(are_right(start_findings(body), false));
        assert(are_right(set_findings(body), false));
        assert(are_right(rollback_findings(body), false));
        assert(are_right(copy_findings(body), false));
        assert(are_right(named_findings(name), false));
        assert(are_right(seq![truncate_finding()], false));
    }
}

/// Whether an operation of this name is reported alone, by this phrase.
pub open spec fn is_called(operation: Node, name: Seq<char>, phrase: Seq<char>) -> bool {
    variant(operation) == Some(name) ==> {
        &&& operation_findings(operation).len() == 1
        &&& operation_findings(operation)[0].message == "ALTER TABLE "@ + phrase
            + " is not supported in DSQL."@
    }
}

/// Whether a change of a column of this name is reported alone, by this phrase.
pub open spec fn is_change_called(operation: Node, name: Seq<char>, phrase: Seq<char>) -> bool {
    (variant(operation) == Some("AlterColumn"@) && variant(field(payload(operation), "op"@))
        == Some(name)) ==> {
        &&& operation_findings(operation).len() == 1
        &&& operation_findings(operation)[0].message == "ALTER TABLE "@ + phrase
            + " is not supported in DSQL."@
    }
}

/// Whether an added constraint of this name is reported alone, by this phrase.
pub open spec fn is_constraint_called(
    operation: Node,
    name: Seq<char>,
    phrase: Seq<char>,
) -> bool {
    (variant(operation) == Some("AddConstraint"@) && variant(
        field(payload(operation), "constraint"@),
    ) == Some(name)) ==> {
        &&& operation_findings(operation).len() == 1
        &&& operation_findings(operation)[0].message == "ALTER TABLE "@ + phrase
            + " is not supported in DSQL."@
    }
}

/// An operation of `ALTER TABLE` that DSQL lacks is called by what SQL calls it.
pub proof fn lacking_operations_are_named(operation: Node)
    ensures
        is_called(operation, "DropColumn"@, "DROP COLUMN"@),
        is_called(operation, "DropConstraint"@, "DROP CONSTRAINT"@),
        is_called(operation, "EnableRowLevelSecurity"@, "ENABLE ROW LEVEL SECURITY"@),
        is_called(operation, "DisableRowLevelSecurity"@, "DISABLE ROW LEVEL SECURITY"@),
        is_called(operation, "ForceRowLevelSecurity"@, "FORCE ROW LEVEL SECURITY"@),
        is_called(operation, "NoForceRowLevelSecurity"@, "NO FORCE ROW LEVEL SECURITY"@),
        is_called(operation, "EnableTrigger"@, "ENABLE TRIGGER"@),
        is_called(operation, "DisableTrigger"@, "DISABLE TRIGGER"@),
        is_called(operation, "EnableAlwaysTrigger"@, "ENABLE ALWAYS TRIGGER"@),
        is_called(operation, "EnableReplicaTrigger"@, "ENABLE REPLICA TRIGGER"@),
        is_called(operation, "EnableRule"@, "ENABLE RULE"@),
        is_called(operation, "DisableRule"@, "DISABLE RULE"@),
        is_called(operation, "EnableAlwaysRule"@, "ENABLE ALWAYS RULE"@),
        is_called(operation, "EnableReplicaRule"@, "ENABLE REPLICA RULE"@),
        is_called(operation, "ReplicaIdentity"@, "REPLICA IDENTITY"@),
        is_called(operation, "ValidateConstraint"@, "VALIDATE CONSTRAINT"@),
{
    lemma_operation_names();
    reveal_strlit("NoForceRowLevelSecurity");
    reveal_strlit("DisableRowLevelSecurity");
    reveal_strlit("DropColumn");
    reveal_strlit("EnableRule");
    reveal_strlit("DropConstraint");
    reveal_strlit("DisableTrigger");
    assert("NoForceRowLevelSecurity"@[0] == 'N' && "DisableRowLevelSecurity"@[0] == 'D');
    assert("DropColumn"@[0] == 'D' && "EnableRule"@[0] == 'E');
    assert("DropConstraint"@[1] == 'r' && "DisableTrigger"@[1] == 'i');
}

/// A change of a column, and a constraint that is added, is called by what SQL calls it where DSQL
/// lacks it.
pub proof fn lacking_changes_are_named(operation: Node)
    ensures
        is_change_called(operation, "SetDataType"@, "ALTER COLUMN TYPE"@),
        is_change_called(operation, "SetNotNull"@, "ALTER COLUMN SET NOT NULL"@),
        is_change_called(operation, "DropNotNull"@, "ALTER COLUMN DROP NOT NULL"@),
        is_change_called(operation, "SetDefault"@, "ALTER COLUMN SET DEFAULT"@),
        is_change_called(operation, "DropDefault"@, "ALTER COLUMN DROP DEFAULT"@),
        is_change_called(operation, "AddGenerated"@, "ALTER COLUMN ADD GENERATED AS IDENTITY"@),
        is_constraint_called(operation, "Check"@, "ADD CHECK"@),
        is_constraint_called(operation, "Unique"@, "ADD UNIQUE"@),
        is_constraint_called(operation, "PrimaryKeyUsingIndex"@, "ADD PRIMARY KEY USING INDEX"@),
        is_constraint_called(operation, "UniqueUsingIndex"@, "ADD UNIQUE USING INDEX"@),
{
    lemma_operation_names();
    reveal_strlit("SetDataType");
    reveal_strlit("SetNotNull");
    reveal_strlit("DropNotNull");
    reveal_strlit("SetDefault");
    reveal_strlit("DropDefault");
    reveal_strlit("AddGenerated");
    assert("SetDataType"@.len() == 11 && "SetDataType"@[0] == 'S');
    assert("SetNotNull"@.len() == 10 && "SetNotNull"@[3] == 'N');
    assert("DropNotNull"@.len() == 11 && "DropNotNull"@[0] == 'D' && "DropNotNull"@[4] == 'N');
    assert("SetDefault"@.len() == 10 && "SetDefault"@[3] == 'D');
    assert("DropDefault"@.len() == 11 && "DropDefault"@[0] == 'D' && "DropDefault"@[4] == 'D');
    assert("AddGenerated"@.len() == 12);
}

/// Whether a statement of this name is reported alone, by this phrase.
pub open spec fn is_statement_called(statement: Node, name: Seq<char>, phrase: Seq<char>) -> bool {
    variant(statement) == Some(name) ==> {
        &&& rule_findings(statement).len() == 1
        &&& rule_findings(statement)[0].message == phrase + " is not supported in DSQL."@
    }
}

/// A statement that DSQL lacks is called by what SQL calls it.
pub proof fn lacking_statements_are_named(statement: Node)
    ensures
        is_statement_called(statement, "CreateTrigger"@, "CREATE TRIGGER"@),
        is_statement_called(statement, "CreateExtension"@, "CREATE EXTENSION"@),
        is_statement_called(statement, "CreateDatabase"@, "CREATE DATABASE"@),
        is_statement_called(statement, "CreatePolicy"@, "CREATE POLICY"@),
        is_statement_called(statement, "CreateType"@, "CREATE TYPE"@),
        is_statement_called(statement, "CreateServer"@, "CREATE SERVER"@),
        is_statement_called(statement, "AlterIndex"@, "ALTER INDEX"@),
        is_statement_called(statement, "Savepoint"@, "SAVEPOINT"@),
        is_statement_called(statement, "ReleaseSavepoint"@, "RELEASE SAVEPOINT"@),
        is_statement_called(statement, "Declare"@, "DECLARE CURSOR"@),
        is_statement_called(statement, "Lock"@, "LOCK TABLE"@),
        is_statement_called(statement, "Vacuum"@, "VACUUM"@),
{
    lemma_statement_names();
}

/// A column of a serial or JSON type is reported by the name of its type.
pub proof fn types_are_named(column: Node, name: Seq<char>)
    ensures
        is_named_type(field(column, "data_type"@), name) && names_serial(name)
            ==> column_findings(column).len() > 0 && column_findings(column)[0].message == upper(
            name,
        ) + " columns are not supported in DSQL."@,
        variant(field(column, "data_type"@)) == Some("JSON"@) ==> column_findings(column).len() > 0
            && column_findings(column)[0].message == "JSON"@
            + " columns are not supported in DSQL."@,
        variant(field(column, "data_type"@)) == Some("JSONB"@) ==> column_findings(column).len()
            > 0 && column_findings(column)[0].message == "JSONB"@
            + " columns are not supported in DSQL."@,
{
    lemma_option_kinds();
    lemma_serial(field(column, "data_type"@));
}

proof fn lemma_total_at_least(nodes: Seq<Node>, of: spec_fn(Node) -> nat, i: int)
    requires
        0 <= i < nodes.len(),
    ensures
        total(nodes, of) >= of(nodes[i]),
    decreases nodes.len(),
{
    if i < nodes.len() - 1 {
        lemma_total_at_least(nodes.drop_last(), of, i);
    }
}

proof fn lemma_said_some(all: Seq<Finding>, rule: LintRule)
    requires
        said(all, rule) > 0,
    ensures
        exists|k: int| 0 <= k < all.len() && (#[trigger] all[k]).rule == rule,
    decreases all.len(),
{
    if all.last().rule == rule {
        assert(all[all.len() - 1].rule == rule);
    } else {
        lemma_said_some(all.drop_last(), rule);
        let k = choose|k: int|
            0 <= k < all.drop_last().len() && (#[trigger] all.drop_last()[k]).rule == rule;
        assert(all[k].rule == rule);
    }
}

/// Whether a rule speaks against a statement.
pub open spec fn speaks(rule: LintRule, statement: Node) -> bool {
    exists|k: int|
        0 <= k < rule_findings(statement).len() && (#[trigger] rule_findings(statement)[k]).rule
            == rule
}

/// Whether no option of a column is a foreign key, whatever it holds.
pub open spec fn has_no_reference(column: Node) -> bool {
    forall|k: int|
        0 <= k < items(field(column, "options"@)).len() ==> variant(
            field(#[trigger] items(field(column, "options"@))[k], "option"@),
        ) != Some("ForeignKey"@)
}

proof fn lemma_kept_have_no_reference(column: Node)
    ensures
        forall|k: int|
            0 <= k < kept_options(column).len() ==> variant(
                field(#[trigger] kept_options(column)[k], "option"@),
            ) != Some("ForeignKey"@),
{
    let options = items(field(column, "options"@));
    let kind = |option: Node| variant(field(option, "option"@)) != Some("ForeignKey"@);
    assert forall|k: int| 0 <= k < kept_options(column).len() implies variant(
        field(#[trigger] kept_options(column)[k], "option"@),
    ) != Some("ForeignKey"@) by {
        options.lemma_filter_pred(kind, k);
        assert(kind(kept_options(column)[k]));
    }
}

/// Every foreign key on a column of `CREATE TABLE`, whatever it holds, is reported, and none is
/// left behind the repair.
pub proof fn references_in_tables_are_found(statement: Node, i: int, k: int)
    requires
        variant(statement) == Some("CreateTable"@),
        0 <= i < items(field(payload(statement), "columns"@)).len(),
        0 <= k < items(
            field(items(field(payload(statement), "columns"@))[i], "options"@),
        ).len(),
        variant(
            field(
                items(field(items(field(payload(statement), "columns"@))[i], "options"@))[k],
                "option"@,
            ),
        ) == Some("ForeignKey"@),
    ensures
        speaks(LintRule::ForeignKey, statement),
{
    let rule = LintRule::ForeignKey;
    let columns = items(field(payload(statement), "columns"@));
    let column = columns[i];
    let data_type = field(column, "data_type"@);
    let options = items(field(column, "options"@));
    lemma_total_at_least(
        options,
        |option: Node| option_breaches(rule, data_type, option, false),
        k,
    );
    lemma_total_at_least(columns, |column: Node| column_breaches(rule, column, false), i);
    breaches_are_reported(rule, statement);
    lemma_said_some(rule_findings(statement), rule);
}

/// No column of a repaired `CREATE TABLE` has a foreign key.
pub proof fn repaired_tables_have_no_reference(statement: Node, i: int)
    requires
        variant(statement) == Some("CreateTable"@),
        statement is Record,
        field(payload(statement), "columns"@) is List,
        field(payload(statement), "constraints"@) is List,
        forall|i: int|
            0 <= i < items(field(payload(statement), "columns"@)).len() ==> field(
                #[trigger] items(field(payload(statement), "columns"@))[i],
                "options"@,
            ) is List,
        0 <= i < items(field(payload(statement), "columns"@)).len(),
    ensures
        has_no_reference(items(field(payload(repaired(statement)), "columns"@))[i]),
{
    tables_keep_what_is_not_named(statement);
    lemma_option_kinds();
    let before = items(field(payload(statement), "columns"@))[i];
    let after = items(field(payload(repaired(statement)), "columns"@))[i];
    assert(column_is_repaired(after, before));
    lemma_kept_have_no_reference(before);
    let options = items(field(after, "options"@));
    assert forall|k: int| 0 <= k < options.len() implies variant(
        field(#[trigger] options[k], "option"@),
    ) != Some("ForeignKey"@) by {
        if is_serial(field(before, "data_type"@)) {
            if k == 0 {
                assert(generates_from_one(options[0]));
            } else {
                assert(options.skip(1)[k - 1] == options[k]);
                assert(kept_options(before)[k - 1] == options[k]);
            }
        } else {
            assert(kept_options(before)[k] == options[k]);
        }
    }
}

/// Every foreign key on a column that `ALTER TABLE` adds, whatever it holds, is reported.
pub proof fn added_references_are_found(statement: Node, i: int, k: int)
    requires
        variant(statement) == Some("AlterTable"@),
        0 <= i < items(field(payload(statement), "operations"@)).len(),
        variant(items(field(payload(statement), "operations"@))[i]) == Some("AddColumn"@),
        0 <= k < items(
            field(
                field(
                    payload(items(field(payload(statement), "operations"@))[i]),
                    "column_def"@,
                ),
                "options"@,
            ),
        ).len(),
        variant(
            field(
                items(
                    field(
                        field(
                            payload(items(field(payload(statement), "operations"@))[i]),
                            "column_def"@,
                        ),
                        "options"@,
                    ),
                )[k],
                "option"@,
            ),
        ) == Some("ForeignKey"@),
    ensures
        speaks(LintRule::ForeignKey, statement),
{
    let rule = LintRule::ForeignKey;
    lemma_statement_names();
    let operations = items(field(payload(statement), "operations"@));
    let column = field(payload(operations[i]), "column_def"@);
    let data_type = field(column, "data_type"@);
    let options = items(field(column, "options"@));
    lemma_total_at_least(
        options,
        |option: Node| option_breaches(rule, data_type, option, true),
        k,
    );
    lemma_total_at_least(operations, |operation: Node| operation_breaches(rule, operation), i);
    breaches_are_reported(rule, statement);
    lemma_said_some(rule_findings(statement), rule);
}

/// No column that a repaired `ALTER TABLE` adds has a foreign key.
pub proof fn repaired_alterations_add_no_reference(statement: Node, i: int)
    requires
        variant(statement) == Some("AlterTable"@),
        statement is Record,
        field(payload(statement), "operations"@) is List,
        forall|i: int|
            0 <= i < items(field(payload(statement), "operations"@)).len() ==> is_whole(
                #[trigger] items(field(payload(statement), "operations"@))[i],
            ),
        0 <= i < items(field(payload(repaired(statement)), "operations"@)).len(),
        variant(items(field(payload(repaired(statement)), "operations"@))[i]) == Some(
            "AddColumn"@,
        ),
    ensures
        has_no_reference(
            field(
                payload(items(field(payload(repaired(statement)), "operations"@))[i]),
                "column_def"@,
            ),
        ),
{
    alterations_keep_what_is_not_named(statement);
    let before = kept_operations(payload(statement))[i];
    let after = items(field(payload(repaired(statement)), "operations"@))[i];
    assert(operation_is_repaired(after, before));
    lemma_kept_have_no_reference(field(payload(before), "column_def"@));
}

/// Whether a rule says this against a statement.
pub open spec fn is_told(statement: Node, rule: LintRule, message: Seq<char>) -> bool {
    exists|k: int|
        0 <= k < rule_findings(statement).len() && (#[trigger] rule_findings(statement)[k]).rule
            == rule && rule_findings(statement)[k].message == message
}

/// A statement that DSQL lacks in part is called by the part.
pub proof fn lacking_parts_are_named(statement: Node)
    ensures
        variant(statement) == Some("CreateView"@) && field(payload(statement), "temporary"@)
            == Node::Flag(true) ==> is_told(
            statement,
            LintRule::UnsupportedStatement,
            "CREATE TEMPORARY VIEW"@ + " is not supported in DSQL."@,
        ),
        variant(statement) == Some("CreateView"@) && field(payload(statement), "materialized"@)
            == Node::Flag(true) ==> is_told(
            statement,
            LintRule::UnsupportedStatement,
            "CREATE MATERIALIZED VIEW"@ + " is not supported in DSQL."@,
        ),
        variant(statement) == Some("Rollback"@) && !(field(payload(statement), "savepoint"@)
            is Null) ==> is_told(
            statement,
            LintRule::UnsupportedStatement,
            "ROLLBACK TO SAVEPOINT"@ + " is not supported in DSQL."@,
        ),
        variant(statement) == Some("Copy"@) && variant(field(payload(statement), "target"@))
            != Some("Stdin"@) && variant(field(payload(statement), "target"@)) != Some("Stdout"@)
            ==> is_told(
            statement,
            LintRule::UnsupportedStatement,
            "COPY is supported in DSQL with STDIN/STDOUT alone."@,
        ),
{
    lemma_statement_names();
    let body = payload(statement);
    let all = rule_findings(statement);
    if variant(statement) == Some("CreateView"@) {
        if field(body, "temporary"@) == Node::Flag(true) {
            assert(all[0].message == "CREATE TEMPORARY VIEW"@ + " is not supported in DSQL."@);
        }
        if field(body, "materialized"@) == Node::Flag(true) {
            assert(all[all.len() - 1].message == "CREATE MATERIALIZED VIEW"@
                + " is not supported in DSQL."@);
        }
    }
    if variant(statement) == Some("Rollback"@) && !(field(body, "savepoint"@) is Null) {
        assert(all[0].message == "ROLLBACK TO SAVEPOINT"@ + " is not supported in DSQL."@);
    }
    if variant(statement) == Some("Copy"@) && variant(field(body, "target"@)) != Some("Stdin"@)
        && variant(field(body, "target"@)) != Some("Stdout"@) {
        assert(all[0].message == "COPY is supported in DSQL with STDIN/STDOUT alone."@);
    }
}

/// An option that a column cannot be added with is reported for what it is: an identity, or a
/// default or constraint.
pub proof fn added_options_are_named(option: Node)
    ensures
        ({
            let kind = variant(field(option, "option"@));
            let told = added_option_findings(option);
            &&& generates(option) ==> told.len() == 1 && told[0].message
                == "Identity columns are not supported in ALTER TABLE ADD COLUMN in DSQL."@
                && told[0].suggestion
                == "Create a new table with the identity column and copy the data."@
            &&& (kind == Some("NotNull"@) || kind == Some("Default"@) || kind == Some("Unique"@)
                || kind == Some("PrimaryKey"@) || kind == Some("Check"@)) ==> told.len() == 1
                && told[0].message
                == "ALTER TABLE ADD COLUMN with a default or a constraint is not supported in DSQL."@
                && told[0].suggestion == "Add the column without defaults and constraints."@
        }),
{
    lemma_option_kinds();
}

/// The parts of a statement are judged one by one, in their order.
pub proof fn parts_are_judged_in_order(
    a: Seq<Node>,
    node: Node,
    b: Seq<Node>,
    of: spec_fn(Node) -> Seq<Finding>,
)
    ensures
        each(Seq::empty(), of) == Seq::<Finding>::empty(),
        each(seq![node], of) == of(node),
        each(a + b, of) == each(a, of) + each(b, of),
    decreases b.len(),
{
    assert(seq![node].drop_last() =~= Seq::empty());
    reveal_with_fuel(each, 2);
    assert(each(seq![node], of) =~= of(node));
    if b.len() == 0 {
        assert(a + b =~= a);
        assert(each(a, of) + each(b, of) =~= each(a, of));
    } else {
        parts_are_judged_in_order(a, node, b.drop_last(), of);
        assert((a + b).drop_last() =~= a + b.drop_last());
        assert(each(a + b, of) =~= each(a, of) + each(b, of));
    }
}

} // verus!
