//! How often a statement breaks each rule, told rule by rule.

use vstd::prelude::*;

use crate::diagnostic::{Finding, Fix, LintRule};
use crate::rules::column::{
    added_column_findings, added_option_findings, cache_findings, cache_option, cache_size,
    column_findings, each, is_identity, option_findings, serial_fix, serial_name, type_findings,
    valid_cache,
};
use crate::rules::index::{index_findings, is_expression, some_expression};
use crate::rules::repairs::{is_added_reference, is_serial, lemma_serial};
use crate::rules::statement::{
    is_other_isolation, sequence_findings, some_other_isolation, start_findings, statement_phrase,
    truncate_finding, view_findings,
};
use crate::rules::table::{
    adds_foreign_key, alter_findings, clause_findings, constraint_findings, found,
    operation_findings, phrase_of, some_variant, table_findings,
};
use crate::rules::rule_findings;
use crate::syntax::{field, items, payload, variant, Node};
use crate::text::numeral;

verus! {

/// How many findings come from a rule.
pub open spec fn said(all: Seq<Finding>, rule: LintRule) -> nat
    decreases all.len(),
{
    if all.len() == 0 {
        0
    } else {
        said(all.drop_last(), rule) + tally(all.last().rule == rule)
    }
}

/// One where a condition holds, else none.
pub open spec fn tally(condition: bool) -> nat {
    if condition {
        1
    } else {
        0
    }
}

/// The sum over some nodes.
pub open spec fn total(nodes: Seq<Node>, of: spec_fn(Node) -> nat) -> nat
    decreases nodes.len(),
{
    if nodes.len() == 0 {
        0
    } else {
        total(nodes.drop_last(), of) + of(nodes.last())
    }
}

/// Whether a column option makes an identity column.
pub open spec fn generates(option: Node) -> bool {
    let kind = field(option, "option"@);
    let by = variant(field(payload(kind), "generated_as"@));
    &&& variant(kind) == Some("Generated"@)
    &&& field(payload(kind), "generation_expr"@) is Null
    &&& by == Some("Always"@) || by == Some("ByDefault"@)
}

/// Whether an expression is the number 1, or one from 65536 on.
pub open spec fn is_cache_size(expr: Node) -> bool {
    let literal = field(payload(expr), "value"@);
    &&& variant(expr) == Some("Value"@)
    &&& variant(literal) == Some("Number"@)
    &&& items(payload(literal)).len() > 0
    &&& items(payload(literal))[0] matches Node::Text(digits)
    &&& numeral(digits) matches Some(n)
    &&& n == 1 || n >= 65536
}

/// Whether the options of a sequence name no cache.
pub open spec fn lacks_cache(options: Seq<Node>) -> bool {
    forall|i: int| 0 <= i < options.len() ==> variant(#[trigger] options[i]) != Some("Cache"@)
}

/// Whether the last cache among the options of a sequence has no size that DSQL takes.
pub open spec fn has_wrong_cache(options: Seq<Node>) -> bool {
    exists|i: int|
        {
            &&& 0 <= i < options.len()
            &&& variant(#[trigger] options[i]) == Some("Cache"@)
            &&& !is_cache_size(payload(options[i]))
            &&& lacks_cache(options.skip(i + 1))
        }
}

/// How often an option of a column breaks a rule.
pub open spec fn option_breaches(
    rule: LintRule,
    data_type: Node,
    option: Node,
    added: bool,
) -> nat {
    let kind = variant(field(option, "option"@));
    let sequence = items(field(payload(field(option, "option"@)), "sequence_options"@));
    match rule {
        LintRule::ForeignKey => tally(kind == Some("ForeignKey"@)),
        LintRule::IdentityType => tally(
            !added && generates(option) && variant(data_type) != Some("BigInt"@) && variant(
                data_type,
            ) != Some("Int8"@),
        ),
        LintRule::IdentityCacheMissing => tally(
            !added && generates(option) && lacks_cache(sequence),
        ),
        LintRule::IdentityCache => tally(!added && generates(option) && has_wrong_cache(sequence)),
        LintRule::AddColumnConstraint => tally(
            added && (generates(option) || kind == Some("NotNull"@) || kind == Some("Default"@)
                || kind == Some("Unique"@) || kind == Some("PrimaryKey"@) || kind == Some(
                "Check"@,
            )),
        ),
        _ => 0,
    }
}

/// How often a column breaks a rule, in `CREATE TABLE` or where it is added.
pub open spec fn column_breaches(rule: LintRule, column: Node, added: bool) -> nat {
    let data_type = field(column, "data_type"@);
    (match rule {
        LintRule::SerialType => tally(is_serial(data_type)),
        LintRule::JsonType => tally(
            variant(data_type) == Some("JSON"@) || variant(data_type) == Some("JSONB"@),
        ),
        LintRule::ArrayType => tally(variant(data_type) == Some("Array"@)),
        _ => 0,
    }) + total(
        items(field(column, "options"@)),
        |option: Node| option_breaches(rule, data_type, option, added),
    )
}

/// Whether DSQL lacks an operation of `ALTER TABLE`.
pub open spec fn is_lacking(operation: Node) -> bool {
    let name = variant(operation);
    let change = variant(field(payload(operation), "op"@));
    let constraint = variant(field(payload(operation), "constraint"@));
    ||| name == Some("DropColumn"@)
    ||| name == Some("DropConstraint"@)
    ||| name == Some("EnableRowLevelSecurity"@)
    ||| name == Some("DisableRowLevelSecurity"@)
    ||| name == Some("ForceRowLevelSecurity"@)
    ||| name == Some("NoForceRowLevelSecurity"@)
    ||| name == Some("EnableTrigger"@)
    ||| name == Some("DisableTrigger"@)
    ||| name == Some("EnableAlwaysTrigger"@)
    ||| name == Some("EnableReplicaTrigger"@)
    ||| name == Some("EnableRule"@)
    ||| name == Some("DisableRule"@)
    ||| name == Some("EnableAlwaysRule"@)
    ||| name == Some("EnableReplicaRule"@)
    ||| name == Some("ReplicaIdentity"@)
    ||| name == Some("ValidateConstraint"@)
    ||| name == Some("AlterColumn"@) && (change == Some("SetDataType"@) || change == Some(
        "SetNotNull"@,
    ) || change == Some("DropNotNull"@) || change == Some("SetDefault"@) || change == Some(
        "DropDefault"@,
    ) || change == Some("AddGenerated"@))
    ||| name == Some("AddConstraint"@) && (constraint == Some("Check"@) || constraint == Some(
        "Unique"@,
    ) || constraint == Some("PrimaryKeyUsingIndex"@) || constraint == Some("UniqueUsingIndex"@))
}

/// How often an operation of `ALTER TABLE` breaks a rule.
pub open spec fn operation_breaches(rule: LintRule, operation: Node) -> nat {
    if variant(operation) == Some("AddColumn"@) {
        column_breaches(rule, field(payload(operation), "column_def"@), true)
    } else {
        match rule {
            LintRule::ForeignKey => tally(is_added_reference(operation)),
            LintRule::UnsupportedAlterTableOp => tally(is_lacking(operation)),
            _ => 0,
        }
    }
}

/// Whether DSQL lacks all statements of this name.
pub open spec fn is_missing(name: Option<Seq<char>>) -> bool {
    ||| name == Some("CreateTrigger"@)
    ||| name == Some("CreateExtension"@)
    ||| name == Some("CreateDatabase"@)
    ||| name == Some("CreatePolicy"@)
    ||| name == Some("CreateType"@)
    ||| name == Some("CreateServer"@)
    ||| name == Some("AlterIndex"@)
    ||| name == Some("Savepoint"@)
    ||| name == Some("ReleaseSavepoint"@)
    ||| name == Some("Declare"@)
    ||| name == Some("Lock"@)
    ||| name == Some("Vacuum"@)
}

/// How often the columns, constraints and operations of a statement break a rule.
pub open spec fn part_breaches(rule: LintRule, statement: Node) -> nat {
    let body = payload(statement);
    if variant(statement) == Some("CreateTable"@) {
        total(
            items(field(body, "columns"@)),
            |column: Node| column_breaches(rule, column, false),
        ) + (if rule == LintRule::ForeignKey {
            total(
                items(field(body, "constraints"@)),
                |constraint: Node| tally(variant(constraint) == Some("ForeignKey"@)),
            )
        } else {
            0
        })
    } else if variant(statement) == Some("AlterTable"@) {
        total(
            items(field(body, "operations"@)),
            |operation: Node| operation_breaches(rule, operation),
        )
    } else {
        0
    }
}

/// How often a statement breaks a rule.
pub open spec fn breaches(rule: LintRule, statement: Node) -> nat {
    let name = variant(statement);
    let body = payload(statement);
    let table = name == Some("CreateTable"@);
    let index = name == Some("CreateIndex"@);
    let sequence = name == Some("CreateSequence"@);
    let set = Node::Flag(true);
    match rule {
        LintRule::TempTable => tally(table && field(body, "temporary"@) == set),
        LintRule::PartitionBy => tally(table && !(field(body, "partition_by"@) is Null)),
        LintRule::Inherits => tally(table && !(field(body, "inherits"@) is Null)),
        LintRule::CreateTableAs => tally(table && !(field(body, "query"@) is Null)),
        LintRule::Tablespace => tally(
            table && exists|i: int|
                0 <= i < items(payload(field(body, "table_options"@))).len() && variant(
                    #[trigger] items(payload(field(body, "table_options"@)))[i],
                ) == Some("TableSpace"@),
        ),
        LintRule::IndexConcurrently => tally(index && field(body, "concurrently"@) == set),
        LintRule::IndexAsync => tally(
            index && field(body, "concurrently"@) != set && field(body, "async"@) != set,
        ),
        LintRule::IndexUsing => tally(
            index && (!(field(body, "using"@) is Null) || exists|i: int|
                0 <= i < items(field(body, "index_options"@)).len() && variant(
                    #[trigger] items(field(body, "index_options"@))[i],
                ) == Some("Using"@)),
        ),
        LintRule::IndexExpression => tally(
            index && exists|i: int|
                0 <= i < items(field(body, "columns"@)).len() && variant(
                    field(field(#[trigger] items(field(body, "columns"@))[i], "column"@), "expr"@),
                ) != Some("Identifier"@),
        ),
        LintRule::IndexPartial => tally(index && !(field(body, "predicate"@) is Null)),
        LintRule::Truncate => tally(name == Some("Truncate"@)),
        LintRule::SequenceType => tally(
            sequence && !(field(body, "data_type"@) is Null) && variant(field(body, "data_type"@))
                != Some("BigInt"@) && variant(field(body, "data_type"@)) != Some("Int8"@),
        ),
        LintRule::SequenceCacheMissing => tally(
            sequence && lacks_cache(items(field(body, "sequence_options"@))),
        ),
        LintRule::SequenceCache => tally(
            sequence && has_wrong_cache(items(field(body, "sequence_options"@))),
        ),
        LintRule::TransactionIsolation => tally(
            name == Some("StartTransaction"@) && exists|i: int|
                0 <= i < items(field(body, "modes"@)).len() && variant(
                    #[trigger] items(field(body, "modes"@))[i],
                ) == Some("IsolationLevel"@) && variant(payload(items(field(body, "modes"@))[i]))
                    != Some("RepeatableRead"@),
        ),
        LintRule::SetTransaction => tally(
            name == Some("Set"@) && variant(body) == Some("SetTransaction"@),
        ),
        LintRule::UnsupportedStatement => tally(is_missing(name)) + tally(
            name == Some("CreateView"@) && field(body, "temporary"@) == set,
        ) + tally(name == Some("CreateView"@) && field(body, "materialized"@) == set) + tally(
            name == Some("Rollback"@) && !(field(body, "savepoint"@) is Null),
        ) + tally(
            name == Some("Copy"@) && variant(field(body, "target"@)) != Some("Stdin"@) && variant(
                field(body, "target"@),
            ) != Some("Stdout"@),
        ),
        LintRule::MultiDdlTransaction => 0,
        LintRule::ParseError => 0,
        _ => part_breaches(rule, statement),
    }
}

proof fn lemma_said_add(a: Seq<Finding>, b: Seq<Finding>, rule: LintRule)
    ensures
        said(a + b, rule) == said(a, rule) + said(b, rule),
    decreases b.len(),
{
    if b.len() == 0 {
        assert(a + b =~= a);
    } else {
        lemma_said_add(a, b.drop_last(), rule);
        assert((a + b).drop_last() =~= a + b.drop_last());
    }
}

proof fn lemma_said_one(finding: Finding, rule: LintRule)
    ensures
        said(seq![finding], rule) == tally(finding.rule == rule),
{
    assert(seq![finding].drop_last() =~= Seq::empty());
    reveal_with_fuel(said, 2);
}

proof fn lemma_said_found(condition: bool, finding: Finding, rule: LintRule)
    ensures
        said(found(condition, finding), rule) == tally(condition && finding.rule == rule),
{
    lemma_said_one(finding, rule);
}

proof fn lemma_said_each(
    nodes: Seq<Node>,
    of: spec_fn(Node) -> Seq<Finding>,
    weight: spec_fn(Node) -> nat,
    rule: LintRule,
)
    requires
        forall|node: Node| said(#[trigger] of(node), rule) == weight(node),
    ensures
        said(each(nodes, of), rule) == total(nodes, weight),
    decreases nodes.len(),
{
    if nodes.len() > 0 {
        lemma_said_each(nodes.drop_last(), of, weight, rule);
        lemma_said_add(each(nodes.drop_last(), of), of(nodes.last()), rule);
    }
}

proof fn lemma_cache(options: Seq<Node>)
    ensures
        lacks_cache(options) == (cache_size(options) is Missing),
        has_wrong_cache(options) == (cache_size(options) is Wrong),
{
    lemma_cache_option(options);
}

proof fn lemma_cache_option(options: Seq<Node>)
    ensures
        lacks_cache(options) == (cache_option(options) is None),
        has_wrong_cache(options) == (cache_option(options) matches Some(expr) && !valid_cache(
            expr,
        )),
    decreases options.len(),
{
    if options.len() > 0 {
        let front = options.drop_last();
        let n = options.len() - 1;
        lemma_cache_option(front);
        assert(options[n] == options.last());
        if variant(options.last()) == Some("Cache"@) {
            assert(!lacks_cache(options));
            assert(options.skip(n + 1) =~= Seq::empty());
            if has_wrong_cache(options) {
                let i = choose|i: int|
                    {
                        &&& 0 <= i < options.len()
                        &&& variant(#[trigger] options[i]) == Some("Cache"@)
                        &&& !is_cache_size(payload(options[i]))
                        &&& lacks_cache(options.skip(i + 1))
                    };
                if i < n {
                    assert(options.skip(i + 1)[n - i - 1] == options[n]);
                }
            }
        } else {
            assert forall|i: int| 0 <= i < front.len() implies #[trigger] front[i]
                == options[i] by {}
            if lacks_cache(front) {
                assert forall|i: int| 0 <= i < options.len() implies variant(#[trigger] options[i])
                    != Some("Cache"@) by {
                    if i < n {
                        assert(front[i] == options[i]);
                    }
                }
            }
            assert forall|i: int| 0 <= i < n implies lacks_cache(#[trigger] options.skip(i + 1))
                == lacks_cache(front.skip(i + 1)) by {
                let long = options.skip(i + 1);
                let short = front.skip(i + 1);
                assert forall|j: int| 0 <= j < short.len() implies #[trigger] short[j]
                    == long[j] by {}
                if lacks_cache(short) {
                    assert forall|j: int| 0 <= j < long.len() implies variant(#[trigger] long[j])
                        != Some("Cache"@) by {
                        if j < short.len() {
                            assert(short[j] == long[j]);
                        } else {
                            assert(long[j] == options[n]);
                        }
                    }
                }
                if lacks_cache(long) {
                    assert forall|j: int| 0 <= j < short.len() implies variant(
                        #[trigger] short[j],
                    ) != Some("Cache"@) by {
                        assert(short[j] == long[j]);
                    }
                }
            }
            if has_wrong_cache(options) {
                let i = choose|i: int|
                    {
                        &&& 0 <= i < options.len()
                        &&& variant(#[trigger] options[i]) == Some("Cache"@)
                        &&& !is_cache_size(payload(options[i]))
                        &&& lacks_cache(options.skip(i + 1))
                    };
                assert(front[i] == options[i]);
                assert(lacks_cache(front.skip(i + 1)));
            }
            if has_wrong_cache(front) {
                let i = choose|i: int|
                    {
                        &&& 0 <= i < front.len()
                        &&& variant(#[trigger] front[i]) == Some("Cache"@)
                        &&& !is_cache_size(payload(front[i]))
                        &&& lacks_cache(front.skip(i + 1))
                    };
                assert(front[i] == options[i]);
                assert(lacks_cache(options.skip(i + 1)));
            }
        }
    }
}

pub proof fn lemma_option_kinds()
    ensures
        "ForeignKey"@.len() == 10 && "ForeignKey"@[0] == 'F',
        "Generated"@.len() == 9,
        "NotNull"@.len() == 7,
        "Default"@.len() == 7,
        "Unique"@.len() == 6,
        "PrimaryKey"@.len() == 10 && "PrimaryKey"@[0] == 'P',
        "Check"@.len() == 5,
        "Custom"@.len() == 6,
        "JSON"@.len() == 4,
        "JSONB"@.len() == 5 && "JSONB"@[0] == 'J',
        "Array"@.len() == 5 && "Array"@[0] == 'A',
{
    reveal_strlit("ForeignKey");
    reveal_strlit("Generated");
    reveal_strlit("NotNull");
    reveal_strlit("Default");
    reveal_strlit("Unique");
    reveal_strlit("PrimaryKey");
    reveal_strlit("Check");
    reveal_strlit("Custom");
    reveal_strlit("JSON");
    reveal_strlit("JSONB");
    reveal_strlit("Array");
}

proof fn lemma_said_cache(options: Seq<Node>, missing: Finding, wrong: Finding, rule: LintRule)
    ensures
        said(cache_findings(options, missing, wrong), rule) == tally(
            lacks_cache(options) && missing.rule == rule,
        ) + tally(has_wrong_cache(options) && wrong.rule == rule),
{
    lemma_cache(options);
    lemma_said_one(missing, rule);
    lemma_said_one(wrong, rule);
}

proof fn lemma_option(rule: LintRule, data_type: Node, option: Node)
    ensures
        said(option_findings(data_type, option), rule) == option_breaches(
            rule,
            data_type,
            option,
            false,
        ),
{
    lemma_option_kinds();
    let sequence = items(field(payload(field(option, "option"@)), "sequence_options"@));
    let missing = crate::rules::column::identity_cache_missing_finding();
    let wrong = crate::rules::column::identity_cache_finding();
    let kind = crate::rules::column::identity_type_finding();
    lemma_said_one(crate::rules::column::foreign_key_finding(), rule);
    lemma_said_one(kind, rule);
    lemma_said_cache(sequence, missing, wrong, rule);
    lemma_said_add(
        if crate::rules::column::big_int(data_type) {
            Seq::empty()
        } else {
            seq![kind]
        },
        cache_findings(sequence, missing, wrong),
        rule,
    );
    assert(generates(option) == is_identity(option));
}

proof fn lemma_added_option(rule: LintRule, data_type: Node, option: Node)
    ensures
        said(added_option_findings(option), rule) == option_breaches(
            rule,
            data_type,
            option,
            true,
        ),
{
    lemma_option_kinds();
    lemma_said_one(crate::rules::column::foreign_key_finding(), rule);
    lemma_said_one(crate::rules::column::added_identity_finding(), rule);
    lemma_said_one(crate::rules::column::added_constraint_finding(), rule);
    assert(generates(option) == is_identity(option));
}

proof fn lemma_type(rule: LintRule, data_type: Node, fix: Fix)
    ensures
        said(type_findings(data_type, fix), rule) == match rule {
            LintRule::SerialType => tally(is_serial(data_type)),
            LintRule::JsonType => tally(
                variant(data_type) == Some("JSON"@) || variant(data_type) == Some("JSONB"@),
            ),
            LintRule::ArrayType => tally(variant(data_type) == Some("Array"@)),
            _ => 0,
        },
{
    lemma_option_kinds();
    lemma_serial(data_type);
    if let Some(name) = serial_name(data_type) {
        lemma_said_one(crate::rules::column::serial_finding(name, fix), rule);
    }
    lemma_said_one(crate::rules::column::json_finding("JSON"@), rule);
    lemma_said_one(crate::rules::column::json_finding("JSONB"@), rule);
    lemma_said_one(crate::rules::column::array_finding(), rule);
}

proof fn lemma_column(rule: LintRule, column: Node)
    ensures
        said(column_findings(column), rule) == column_breaches(rule, column, false),
{
    let data_type = field(column, "data_type"@);
    let options = items(field(column, "options"@));
    let of = |option: Node| option_findings(data_type, option);
    let weight = |option: Node| option_breaches(rule, data_type, option, false);
    assert forall|option: Node| said(#[trigger] of(option), rule) == weight(option) by {
        lemma_option(rule, data_type, option);
    }
    lemma_said_each(options, of, weight, rule);
    lemma_type(rule, data_type, serial_fix());
    lemma_said_add(type_findings(data_type, serial_fix()), each(options, of), rule);
}

proof fn lemma_added_column(rule: LintRule, column: Node)
    ensures
        said(added_column_findings(column), rule) == column_breaches(rule, column, true),
{
    let data_type = field(column, "data_type"@);
    let options = items(field(column, "options"@));
    let of = |option: Node| added_option_findings(option);
    let weight = |option: Node| option_breaches(rule, data_type, option, true);
    assert forall|option: Node| said(#[trigger] of(option), rule) == weight(option) by {
        lemma_added_option(rule, data_type, option);
    }
    lemma_said_each(options, of, weight, rule);
    lemma_type(rule, data_type, Fix::Unfixable);
    lemma_said_add(type_findings(data_type, Fix::Unfixable), each(options, of), rule);
}

pub proof fn lemma_operation_names()
    ensures
        "AddColumn"@.len() == 9,
        "AddConstraint"@.len() == 13 && "AddConstraint"@[0] == 'A',
        "AlterColumn"@.len() == 11,
        "DropColumn"@.len() == 10,
        "DropConstraint"@.len() == 14,
        "EnableRowLevelSecurity"@.len() == 22,
        "DisableRowLevelSecurity"@.len() == 23,
        "ForceRowLevelSecurity"@.len() == 21,
        "NoForceRowLevelSecurity"@.len() == 23,
        "EnableTrigger"@.len() == 13 && "EnableTrigger"@[0] == 'E',
        "DisableTrigger"@.len() == 14,
        "EnableAlwaysTrigger"@.len() == 19,
        "EnableReplicaTrigger"@.len() == 20,
        "EnableRule"@.len() == 10,
        "DisableRule"@.len() == 11 && "DisableRule"@[0] == 'D' && "AlterColumn"@[0] == 'A',
        "EnableAlwaysRule"@.len() == 16,
        "EnableReplicaRule"@.len() == 17,
        "ReplicaIdentity"@.len() == 15,
        "ValidateConstraint"@.len() == 18,
        "ForeignKey"@.len() == 10 && "ForeignKey"@[0] == 'F',
        "Check"@.len() == 5,
        "Unique"@.len() == 6,
        "PrimaryKeyUsingIndex"@.len() == 20,
        "UniqueUsingIndex"@.len() == 16,
{
    reveal_strlit("AddColumn");
    reveal_strlit("AddConstraint");
    reveal_strlit("AlterColumn");
    reveal_strlit("DropColumn");
    reveal_strlit("DropConstraint");
    reveal_strlit("EnableRowLevelSecurity");
    reveal_strlit("DisableRowLevelSecurity");
    reveal_strlit("ForceRowLevelSecurity");
    reveal_strlit("NoForceRowLevelSecurity");
    reveal_strlit("EnableTrigger");
    reveal_strlit("DisableTrigger");
    reveal_strlit("EnableAlwaysTrigger");
    reveal_strlit("EnableReplicaTrigger");
    reveal_strlit("EnableRule");
    reveal_strlit("DisableRule");
    reveal_strlit("EnableAlwaysRule");
    reveal_strlit("EnableReplicaRule");
    reveal_strlit("ReplicaIdentity");
    reveal_strlit("ValidateConstraint");
    reveal_strlit("ForeignKey");
    reveal_strlit("Check");
    reveal_strlit("Unique");
    reveal_strlit("PrimaryKeyUsingIndex");
    reveal_strlit("UniqueUsingIndex");
}

proof fn lemma_operation(rule: LintRule, operation: Node)
    ensures
        said(operation_findings(operation), rule) == operation_breaches(rule, operation),
{
    if variant(operation) == Some("AddColumn"@) {
        lemma_added_column(rule, field(payload(operation), "column_def"@));
    } else {
        lemma_operation_names();
        lemma_said_one(crate::rules::column::foreign_key_finding(), rule);
        assert(is_added_reference(operation) == adds_foreign_key(operation));
        if let Some(phrase) = phrase_of(operation) {
            lemma_said_one(crate::rules::table::operation_finding(phrase), rule);
        }
        assert(!adds_foreign_key(operation) ==> (phrase_of(operation) is Some) == is_lacking(
            operation,
        ));
        assert(adds_foreign_key(operation) ==> !is_lacking(operation));
    }
}

proof fn lemma_clauses(rule: LintRule, table: Node)
    ensures
        said(clause_findings(table), rule) == tally(
            rule == LintRule::TempTable && field(table, "temporary"@) == Node::Flag(true),
        ) + tally(rule == LintRule::PartitionBy && !(field(table, "partition_by"@) is Null))
            + tally(rule == LintRule::Inherits && !(field(table, "inherits"@) is Null)) + tally(
            rule == LintRule::CreateTableAs && !(field(table, "query"@) is Null),
        ) + tally(
            rule == LintRule::Tablespace && some_variant(
                items(payload(field(table, "table_options"@))),
                "TableSpace"@,
            ),
        ),
{
    let a = field(table, "temporary"@) == Node::Flag(true);
    let b = !(field(table, "partition_by"@) is Null);
    let c = !(field(table, "inherits"@) is Null);
    let d = !(field(table, "query"@) is Null);
    let e = some_variant(items(payload(field(table, "table_options"@))), "TableSpace"@);
    let fa = crate::rules::table::temp_table_finding();
    let fb = crate::rules::table::partition_finding();
    let fc = crate::rules::table::inherits_finding();
    let fd = crate::rules::table::create_table_as_finding();
    let fe = crate::rules::table::tablespace_finding();
    lemma_said_found(a, fa, rule);
    lemma_said_found(b, fb, rule);
    lemma_said_found(c, fc, rule);
    lemma_said_found(d, fd, rule);
    lemma_said_found(e, fe, rule);
    lemma_said_add(found(a, fa), found(b, fb), rule);
    lemma_said_add(found(a, fa) + found(b, fb), found(c, fc), rule);
    lemma_said_add(found(a, fa) + found(b, fb) + found(c, fc), found(d, fd), rule);
    lemma_said_add(
        found(a, fa) + found(b, fb) + found(c, fc) + found(d, fd),
        found(e, fe),
        rule,
    );
}

/// Whether a rule speaks of columns, constraints and operations.
spec fn is_of_parts(rule: LintRule) -> bool {
    ||| rule is SerialType
    ||| rule is JsonType
    ||| rule is ArrayType
    ||| rule is ForeignKey
    ||| rule is IdentityType
    ||| rule is IdentityCache
    ||| rule is IdentityCacheMissing
    ||| rule is AddColumnConstraint
    ||| rule is UnsupportedAlterTableOp
}

proof fn lemma_no_options_break(options: Seq<Node>, data_type: Node, added: bool, rule: LintRule)
    requires
        !is_of_parts(rule),
    ensures
        total(options, |option: Node| option_breaches(rule, data_type, option, added)) == 0,
    decreases options.len(),
{
    if options.len() > 0 {
        lemma_no_options_break(options.drop_last(), data_type, added, rule);
    }
}

proof fn lemma_no_columns_break(columns: Seq<Node>, rule: LintRule)
    requires
        !is_of_parts(rule),
    ensures
        total(columns, |column: Node| column_breaches(rule, column, false)) == 0,
    decreases columns.len(),
{
    if columns.len() > 0 {
        lemma_no_columns_break(columns.drop_last(), rule);
        let column = columns.last();
        let data_type = field(column, "data_type"@);
        lemma_no_options_break(items(field(column, "options"@)), data_type, false, rule);
    }
}

proof fn lemma_no_operations_break(operations: Seq<Node>, rule: LintRule)
    requires
        !is_of_parts(rule),
    ensures
        total(operations, |operation: Node| operation_breaches(rule, operation)) == 0,
    decreases operations.len(),
{
    if operations.len() > 0 {
        lemma_no_operations_break(operations.drop_last(), rule);
        let column = field(payload(operations.last()), "column_def"@);
        let data_type = field(column, "data_type"@);
        lemma_no_options_break(items(field(column, "options"@)), data_type, true, rule);
    }
}

proof fn lemma_no_constraints_break(constraints: Seq<Node>, weight: spec_fn(Node) -> nat)
    requires
        forall|node: Node| #[trigger] weight(node) == 0,
    ensures
        total(constraints, weight) == 0,
    decreases constraints.len(),
{
    if constraints.len() > 0 {
        lemma_no_constraints_break(constraints.drop_last(), weight);
    }
}

proof fn lemma_table(rule: LintRule, statement: Node)
    requires
        variant(statement) == Some("CreateTable"@),
    ensures
        said(table_findings(payload(statement)), rule) == breaches(rule, statement),
{
    lemma_statement_names();
    let table = payload(statement);
    let columns = items(field(table, "columns"@));
    let constraints = items(field(table, "constraints"@));
    let of_column = |column: Node| column_findings(column);
    let of_constraint = |constraint: Node| constraint_findings(constraint);
    let column_weight = |column: Node| column_breaches(rule, column, false);
    let constraint_weight = |constraint: Node|
        tally(variant(constraint) == Some("ForeignKey"@) && rule == LintRule::ForeignKey);
    assert forall|column: Node| said(#[trigger] of_column(column), rule) == column_weight(
        column,
    ) by {
        lemma_column(rule, column);
    }
    assert forall|constraint: Node| said(#[trigger] of_constraint(constraint), rule)
        == constraint_weight(constraint) by {
        lemma_said_found(
            crate::syntax::is_variant(constraint, "ForeignKey"@),
            crate::rules::column::foreign_key_finding(),
            rule,
        );
    }
    lemma_said_each(columns, of_column, column_weight, rule);
    lemma_said_each(constraints, of_constraint, constraint_weight, rule);
    lemma_clauses(rule, table);
    lemma_said_add(clause_findings(table), each(columns, of_column), rule);
    lemma_said_add(
        clause_findings(table) + each(columns, of_column),
        each(constraints, of_constraint),
        rule,
    );
    if rule == LintRule::ForeignKey {
        let plain = |constraint: Node| tally(variant(constraint) == Some("ForeignKey"@));
        assert(plain =~= constraint_weight);
    } else {
        lemma_no_constraints_break(constraints, constraint_weight);
    }
    if !is_of_parts(rule) {
        lemma_no_columns_break(columns, rule);
    }
    let options = items(payload(field(table, "table_options"@)));
    assert(some_variant(options, "TableSpace"@) == exists|i: int|
        0 <= i < options.len() && variant(#[trigger] options[i]) == Some("TableSpace"@)) by {
        if some_variant(options, "TableSpace"@) {
            let i = choose|i: int|
                0 <= i < options.len() && crate::syntax::is_variant(
                    #[trigger] options[i],
                    "TableSpace"@,
                );
            assert(variant(options[i]) == Some("TableSpace"@));
        }
        if exists|i: int|
            0 <= i < options.len() && variant(#[trigger] options[i]) == Some("TableSpace"@) {
            let i = choose|i: int|
                0 <= i < options.len() && variant(#[trigger] options[i]) == Some("TableSpace"@);
            assert(crate::syntax::is_variant(options[i], "TableSpace"@));
        }
    }
}

proof fn lemma_alter(rule: LintRule, statement: Node)
    requires
        variant(statement) == Some("AlterTable"@),
    ensures
        said(alter_findings(payload(statement)), rule) == breaches(rule, statement),
{
    lemma_statement_names();
    let operations = items(field(payload(statement), "operations"@));
    let of = |operation: Node| operation_findings(operation);
    let weight = |operation: Node| operation_breaches(rule, operation);
    assert forall|operation: Node| said(#[trigger] of(operation), rule) == weight(operation) by {
        lemma_operation(rule, operation);
    }
    lemma_said_each(operations, of, weight, rule);
    if !is_of_parts(rule) {
        lemma_no_operations_break(operations, rule);
    }
}

proof fn lemma_index(rule: LintRule, statement: Node)
    requires
        variant(statement) == Some("CreateIndex"@),
    ensures
        said(index_findings(payload(statement)), rule) == breaches(rule, statement),
{
    lemma_statement_names();
    let index = payload(statement);
    let options = items(field(index, "index_options"@));
    let columns = items(field(index, "columns"@));
    let a = field(index, "concurrently"@) == Node::Flag(true);
    let b = crate::rules::index::lacks_async(index);
    let c = !(field(index, "using"@) is Null) || some_variant(options, "Using"@);
    let d = some_expression(columns);
    let e = !(field(index, "predicate"@) is Null);
    let fa = crate::rules::index::concurrently_finding();
    let fb = crate::rules::index::async_finding();
    let fc = crate::rules::index::using_finding();
    let fd = crate::rules::index::expression_finding();
    let fe = crate::rules::index::partial_finding();
    lemma_said_found(a, fa, rule);
    lemma_said_found(b, fb, rule);
    lemma_said_found(c, fc, rule);
    lemma_said_found(d, fd, rule);
    lemma_said_found(e, fe, rule);
    lemma_said_add(found(a, fa), found(b, fb), rule);
    lemma_said_add(found(a, fa) + found(b, fb), found(c, fc), rule);
    lemma_said_add(found(a, fa) + found(b, fb) + found(c, fc), found(d, fd), rule);
    lemma_said_add(
        found(a, fa) + found(b, fb) + found(c, fc) + found(d, fd),
        found(e, fe),
        rule,
    );
    assert(some_variant(options, "Using"@) == exists|i: int|
        0 <= i < options.len() && variant(#[trigger] options[i]) == Some("Using"@)) by {
        if some_variant(options, "Using"@) {
            let i = choose|i: int|
                0 <= i < options.len() && crate::syntax::is_variant(
                    #[trigger] options[i],
                    "Using"@,
                );
            assert(variant(options[i]) == Some("Using"@));
        }
        if exists|i: int|
            0 <= i < options.len() && variant(#[trigger] options[i]) == Some("Using"@) {
            let i = choose|i: int|
                0 <= i < options.len() && variant(#[trigger] options[i]) == Some("Using"@);
            assert(crate::syntax::is_variant(options[i], "Using"@));
        }
    }
    assert(some_expression(columns) == exists|i: int|
        0 <= i < columns.len() && variant(
            field(field(#[trigger] columns[i], "column"@), "expr"@),
        ) != Some("Identifier"@)) by {
        if some_expression(columns) {
            let i = choose|i: int| 0 <= i < columns.len() && is_expression(#[trigger] columns[i]);
            assert(variant(field(field(columns[i], "column"@), "expr"@)) != Some("Identifier"@));
        }
        if exists|i: int|
            0 <= i < columns.len() && variant(
                field(field(#[trigger] columns[i], "column"@), "expr"@),
            ) != Some("Identifier"@) {
            let i = choose|i: int|
                0 <= i < columns.len() && variant(
                    field(field(#[trigger] columns[i], "column"@), "expr"@),
                ) != Some("Identifier"@);
            assert(is_expression(columns[i]));
        }
    }
}

proof fn lemma_sequence(rule: LintRule, statement: Node)
    requires
        variant(statement) == Some("CreateSequence"@),
    ensures
        said(sequence_findings(payload(statement)), rule) == breaches(rule, statement),
{
    lemma_statement_names();
    let sequence = payload(statement);
    let options = items(field(sequence, "sequence_options"@));
    let other = crate::rules::statement::is_other_type(field(sequence, "data_type"@));
    let kind = crate::rules::statement::sequence_type_finding();
    let missing = crate::rules::statement::sequence_cache_missing_finding();
    let wrong = crate::rules::statement::sequence_cache_finding();
    lemma_said_found(other, kind, rule);
    lemma_said_cache(options, missing, wrong, rule);
    lemma_said_add(found(other, kind), cache_findings(options, missing, wrong), rule);
}

proof fn lemma_start(rule: LintRule, statement: Node)
    requires
        variant(statement) == Some("StartTransaction"@),
    ensures
        said(start_findings(payload(statement)), rule) == breaches(rule, statement),
{
    lemma_statement_names();
    let modes = items(field(payload(statement), "modes"@));
    lemma_said_found(
        some_other_isolation(modes),
        crate::rules::statement::isolation_finding(),
        rule,
    );
    assert(some_other_isolation(modes) == exists|i: int|
        0 <= i < modes.len() && variant(#[trigger] modes[i]) == Some("IsolationLevel"@) && variant(
            payload(modes[i]),
        ) != Some("RepeatableRead"@)) by {
        if some_other_isolation(modes) {
            let i = choose|i: int| 0 <= i < modes.len() && is_other_isolation(#[trigger] modes[i]);
            assert(variant(modes[i]) == Some("IsolationLevel"@) && variant(payload(modes[i]))
                != Some("RepeatableRead"@));
        }
        if exists|i: int|
            0 <= i < modes.len() && variant(#[trigger] modes[i]) == Some("IsolationLevel"@)
                && variant(payload(modes[i])) != Some("RepeatableRead"@) {
            let i = choose|i: int|
                0 <= i < modes.len() && variant(#[trigger] modes[i]) == Some("IsolationLevel"@)
                    && variant(payload(modes[i])) != Some("RepeatableRead"@);
            assert(is_other_isolation(modes[i]));
        }
    }
}

proof fn lemma_view(rule: LintRule, statement: Node)
    requires
        variant(statement) == Some("CreateView"@),
    ensures
        said(view_findings(payload(statement)), rule) == breaches(rule, statement),
{
    lemma_statement_names();
    let view = payload(statement);
    let a = field(view, "temporary"@) == Node::Flag(true);
    let b = field(view, "materialized"@) == Node::Flag(true);
    let fa = crate::rules::statement::statement_finding("CREATE TEMPORARY VIEW"@);
    let fb = crate::rules::statement::statement_finding("CREATE MATERIALIZED VIEW"@);
    lemma_said_found(a, fa, rule);
    lemma_said_found(b, fb, rule);
    lemma_said_add(found(a, fa), found(b, fb), rule);
}

pub proof fn lemma_statement_names()
    ensures
        "CreateTable"@.len() == 11 && "CreateTable"@[6] == 'T',
        "CreateIndex"@.len() == 11 && "CreateIndex"@[6] == 'I',
        "AlterTable"@.len() == 10 && "AlterTable"@[0] == 'A' && "AlterTable"@[5] == 'T',
        "AlterIndex"@.len() == 10 && "AlterIndex"@[0] == 'A' && "AlterIndex"@[5] == 'I',
        "CreateView"@.len() == 10 && "CreateView"@[0] == 'C' && "CreateView"@[6] == 'V',
        "CreateType"@.len() == 10 && "CreateType"@[0] == 'C' && "CreateType"@[6] == 'T',
        "CreateSequence"@.len() == 14 && "CreateSequence"@[6] == 'S',
        "CreateDatabase"@.len() == 14 && "CreateDatabase"@[6] == 'D',
        "StartTransaction"@.len() == 16 && "StartTransaction"@[0] == 'S',
        "ReleaseSavepoint"@.len() == 16 && "ReleaseSavepoint"@[0] == 'R',
        "Set"@.len() == 3,
        "Rollback"@.len() == 8 && "Rollback"@[0] == 'R',
        "Truncate"@.len() == 8 && "Truncate"@[0] == 'T',
        "Copy"@.len() == 4 && "Copy"@[0] == 'C',
        "Lock"@.len() == 4 && "Lock"@[0] == 'L',
        "CreateTrigger"@.len() == 13,
        "CreateExtension"@.len() == 15,
        "CreatePolicy"@.len() == 12 && "CreatePolicy"@[6] == 'P',
        "CreateServer"@.len() == 12 && "CreateServer"@[6] == 'S',
        "Savepoint"@.len() == 9,
        "Declare"@.len() == 7,
        "Vacuum"@.len() == 6,
{
    reveal_strlit("CreateTable");
    reveal_strlit("CreateIndex");
    reveal_strlit("AlterTable");
    reveal_strlit("AlterIndex");
    reveal_strlit("CreateView");
    reveal_strlit("CreateType");
    reveal_strlit("CreateSequence");
    reveal_strlit("CreateDatabase");
    reveal_strlit("StartTransaction");
    reveal_strlit("ReleaseSavepoint");
    reveal_strlit("Set");
    reveal_strlit("Rollback");
    reveal_strlit("Truncate");
    reveal_strlit("Copy");
    reveal_strlit("Lock");
    reveal_strlit("CreateTrigger");
    reveal_strlit("CreateExtension");
    reveal_strlit("CreatePolicy");
    reveal_strlit("CreateServer");
    reveal_strlit("Savepoint");
    reveal_strlit("Declare");
    reveal_strlit("Vacuum");
}

proof fn lemma_others(rule: LintRule, statement: Node)
    requires
        variant(statement) != Some("CreateTable"@),
        variant(statement) != Some("AlterTable"@),
        variant(statement) != Some("CreateIndex"@),
        variant(statement) != Some("CreateSequence"@),
        variant(statement) != Some("CreateView"@),
        variant(statement) != Some("StartTransaction"@),
    ensures
        said(rule_findings(statement), rule) == breaches(rule, statement),
{
    lemma_statement_names();
    let body = payload(statement);
    let target = field(body, "target"@);
    lemma_said_one(truncate_finding(), rule);
    lemma_said_found(
        crate::syntax::is_variant(body, "SetTransaction"@),
        crate::diagnostic::issue(
            LintRule::SetTransaction,
            "SET TRANSACTION is not supported in DSQL."@,
            "Remove the statement."@,
            Fix::Unfixable,
        ),
        rule,
    );
    lemma_said_found(
        !(field(body, "savepoint"@) is Null),
        crate::rules::statement::statement_finding("ROLLBACK TO SAVEPOINT"@),
        rule,
    );
    lemma_said_found(
        !crate::syntax::is_variant(target, "Stdin"@) && !crate::syntax::is_variant(
            target,
            "Stdout"@,
        ),
        crate::diagnostic::issue(
            LintRule::UnsupportedStatement,
            "COPY is supported in DSQL with STDIN/STDOUT alone."@,
            "Copy from STDIN or to STDOUT, and move the data on the client."@,
            Fix::Unfixable,
        ),
        rule,
    );
    if let Some(name) = variant(statement) {
        if let Some(phrase) = statement_phrase(name) {
            lemma_said_one(crate::rules::statement::statement_finding(phrase), rule);
        }
        assert((statement_phrase(name) is Some) == is_missing(Some(name)));
    }
}

/// Each rule speaks against a statement as often as the statement breaks it: no breach is passed
/// over, and none is made up.
pub proof fn breaches_are_reported(rule: LintRule, statement: Node)
    ensures
        said(rule_findings(statement), rule) == breaches(rule, statement),
{
    lemma_statement_names();
    let name = variant(statement);
    if name == Some("CreateTable"@) {
        lemma_table(rule, statement);
    } else if name == Some("AlterTable"@) {
        lemma_alter(rule, statement);
    } else if name == Some("CreateIndex"@) {
        lemma_index(rule, statement);
    } else if name == Some("CreateSequence"@) {
        lemma_sequence(rule, statement);
    } else if name == Some("CreateView"@) {
        lemma_view(rule, statement);
    } else if name == Some("StartTransaction"@) {
        lemma_start(rule, statement);
    } else {
        lemma_others(rule, statement);
    }
}

} // verus!
