//! Rules on `CREATE TABLE` and `ALTER TABLE`.

use vstd::prelude::*;

use crate::diagnostic::{findings, issue, report, Diagnostic, Finding, Fix, FixResult, LintRule};
use crate::rules::column::{
    added_column_findings, check_added_column, check_column, column_findings, each,
    foreign_key_finding, list_items, repair_added_column, repair_column, repaired_added_column,
    repaired_column, report_foreign_key,
};
use crate::syntax::{
    field, is_variant, item_nodes, items, lemma_field_of_with_field, lemma_item_nodes,
    lemma_with_field, payload, variant, with_field, Node, Tree,
};
use crate::text::same_text;

verus! {

/// One finding where a condition holds, else none.
pub open spec fn found(condition: bool, finding: Finding) -> Seq<Finding> {
    if condition {
        seq![finding]
    } else {
        Seq::empty()
    }
}

/// What is said against a temporary table.
pub open spec fn temp_table_finding() -> Finding {
    issue(
        LintRule::TempTable,
        "TEMPORARY tables are not supported in DSQL."@,
        "Use a regular table."@,
        Fix::Unfixable,
    )
}

/// What is said against a partitioned table.
pub open spec fn partition_finding() -> Finding {
    issue(
        LintRule::PartitionBy,
        "PARTITION BY is not supported in DSQL."@,
        "Remove the clause: DSQL distributes tables by itself."@,
        Fix::Unfixable,
    )
}

/// What is said against a table that inherits.
pub open spec fn inherits_finding() -> Finding {
    issue(
        LintRule::Inherits,
        "INHERITS is not supported in DSQL."@,
        "Write the columns of the parent into the table."@,
        Fix::Unfixable,
    )
}

/// What is said against a table that is filled by a query.
pub open spec fn create_table_as_finding() -> Finding {
    issue(
        LintRule::CreateTableAs,
        "CREATE TABLE AS is not supported in DSQL."@,
        "Create the table with its columns, then fill it."@,
        Fix::Unfixable,
    )
}

/// What is said against a table with a tablespace.
pub open spec fn tablespace_finding() -> Finding {
    issue(
        LintRule::Tablespace,
        "TABLESPACE is not supported in DSQL."@,
        "Remove the clause."@,
        Fix::Unfixable,
    )
}

/// Whether one of some nodes is a variant of this name.
pub open spec fn some_variant(nodes: Seq<Node>, name: Seq<char>) -> bool {
    exists|i: int| 0 <= i < nodes.len() && is_variant(#[trigger] nodes[i], name)
}

/// What is said against a constraint of a table.
pub open spec fn constraint_findings(constraint: Node) -> Seq<Finding> {
    found(is_variant(constraint, "ForeignKey"@), foreign_key_finding())
}

/// What is said against the parts of `CREATE TABLE` that are no columns and no constraints.
pub open spec fn clause_findings(table: Node) -> Seq<Finding> {
    found(field(table, "temporary"@) == Node::Flag(true), temp_table_finding()) + found(
        !(field(table, "partition_by"@) is Null),
        partition_finding(),
    ) + found(!(field(table, "inherits"@) is Null), inherits_finding()) + found(
        !(field(table, "query"@) is Null),
        create_table_as_finding(),
    ) + found(
        some_variant(items(payload(field(table, "table_options"@))), "TableSpace"@),
        tablespace_finding(),
    )
}

/// What is said against `CREATE TABLE`.
pub open spec fn table_findings(table: Node) -> Seq<Finding> {
    clause_findings(table) + each(
        items(field(table, "columns"@)),
        |column: Node| column_findings(column),
    ) + each(
        items(field(table, "constraints"@)),
        |constraint: Node| constraint_findings(constraint),
    )
}

/// The columns once each is repaired.
pub open spec fn repaired_columns(columns: Node) -> Node {
    match columns {
        Node::List(all) => Node::List(all.map_values(|column: Node| repaired_column(column))),
        _ => columns,
    }
}

/// A list of constraints without its foreign keys.
pub open spec fn repaired_constraints(constraints: Node) -> Node {
    match constraints {
        Node::List(all) => Node::List(
            all.filter(|constraint: Node| !is_variant(constraint, "ForeignKey"@)),
        ),
        _ => constraints,
    }
}

/// A table of `CREATE TABLE` once it is repaired.
pub open spec fn repaired_table(table: Node) -> Node {
    with_field(
        with_field(table, "columns"@, repaired_columns(field(table, "columns"@))),
        "constraints"@,
        repaired_constraints(field(table, "constraints"@)),
    )
}

/// What SQL calls an operation on a table that DSQL lacks.
pub open spec fn operation_phrase(name: Seq<char>) -> Option<Seq<char>> {
    if name == "DropColumn"@ {
        Some("DROP COLUMN"@)
    } else if name == "DropConstraint"@ {
        Some("DROP CONSTRAINT"@)
    } else if name == "EnableRowLevelSecurity"@ {
        Some("ENABLE ROW LEVEL SECURITY"@)
    } else if name == "DisableRowLevelSecurity"@ {
        Some("DISABLE ROW LEVEL SECURITY"@)
    } else if name == "ForceRowLevelSecurity"@ {
        Some("FORCE ROW LEVEL SECURITY"@)
    } else if name == "NoForceRowLevelSecurity"@ {
        Some("NO FORCE ROW LEVEL SECURITY"@)
    } else if name == "EnableTrigger"@ {
        Some("ENABLE TRIGGER"@)
    } else if name == "DisableTrigger"@ {
        Some("DISABLE TRIGGER"@)
    } else if name == "EnableAlwaysTrigger"@ {
        Some("ENABLE ALWAYS TRIGGER"@)
    } else if name == "EnableReplicaTrigger"@ {
        Some("ENABLE REPLICA TRIGGER"@)
    } else if name == "EnableRule"@ {
        Some("ENABLE RULE"@)
    } else if name == "DisableRule"@ {
        Some("DISABLE RULE"@)
    } else if name == "EnableAlwaysRule"@ {
        Some("ENABLE ALWAYS RULE"@)
    } else if name == "EnableReplicaRule"@ {
        Some("ENABLE REPLICA RULE"@)
    } else if name == "ReplicaIdentity"@ {
        Some("REPLICA IDENTITY"@)
    } else if name == "ValidateConstraint"@ {
        Some("VALIDATE CONSTRAINT"@)
    } else {
        None
    }
}

/// What SQL calls an operation on a column that DSQL lacks.
pub open spec fn column_operation_phrase(name: Seq<char>) -> Option<Seq<char>> {
    if name == "SetDataType"@ {
        Some("ALTER COLUMN TYPE"@)
    } else if name == "SetNotNull"@ {
        Some("ALTER COLUMN SET NOT NULL"@)
    } else if name == "DropNotNull"@ {
        Some("ALTER COLUMN DROP NOT NULL"@)
    } else if name == "SetDefault"@ {
        Some("ALTER COLUMN SET DEFAULT"@)
    } else if name == "DropDefault"@ {
        Some("ALTER COLUMN DROP DEFAULT"@)
    } else if name == "AddGenerated"@ {
        Some("ALTER COLUMN ADD GENERATED AS IDENTITY"@)
    } else {
        None
    }
}

/// What SQL calls a constraint that DSQL cannot add to a table.
pub open spec fn constraint_phrase(name: Seq<char>) -> Option<Seq<char>> {
    if name == "Check"@ {
        Some("ADD CHECK"@)
    } else if name == "Unique"@ {
        Some("ADD UNIQUE"@)
    } else if name == "PrimaryKeyUsingIndex"@ {
        Some("ADD PRIMARY KEY USING INDEX"@)
    } else if name == "UniqueUsingIndex"@ {
        Some("ADD UNIQUE USING INDEX"@)
    } else {
        None
    }
}

/// What is said against an operation of `ALTER TABLE` that DSQL lacks.
pub open spec fn operation_finding(phrase: Seq<char>) -> Finding {
    issue(
        LintRule::UnsupportedAlterTableOp,
        "ALTER TABLE "@ + phrase + " is not supported in DSQL."@,
        "Create a new table in the form that is wanted and copy the data."@,
        Fix::Unfixable,
    )
}

/// What is said against an operation that may have a name for what DSQL lacks.
pub open spec fn phrase_findings(phrase: Option<Seq<char>>) -> Seq<Finding> {
    match phrase {
        Some(phrase) => seq![operation_finding(phrase)],
        None => Seq::empty(),
    }
}

/// What SQL calls a part of an operation that DSQL lacks, by the kind of the operation.
pub open spec fn phrase_of(operation: Node) -> Option<Seq<char>> {
    let part = payload(operation);
    if is_variant(operation, "AlterColumn"@) {
        match variant(field(part, "op"@)) {
            Some(name) => column_operation_phrase(name),
            None => None,
        }
    } else if is_variant(operation, "AddConstraint"@) {
        match variant(field(part, "constraint"@)) {
            Some(name) => constraint_phrase(name),
            None => None,
        }
    } else {
        match variant(operation) {
            Some(name) => operation_phrase(name),
            None => None,
        }
    }
}

/// Whether an operation of `ALTER TABLE` adds a foreign key.
pub open spec fn adds_foreign_key(operation: Node) -> bool {
    is_variant(operation, "AddConstraint"@) && is_variant(
        field(payload(operation), "constraint"@),
        "ForeignKey"@,
    )
}

/// What is said against an operation of `ALTER TABLE`.
pub open spec fn operation_findings(operation: Node) -> Seq<Finding> {
    if is_variant(operation, "AddColumn"@) {
        added_column_findings(field(payload(operation), "column_def"@))
    } else if adds_foreign_key(operation) {
        seq![foreign_key_finding()]
    } else {
        phrase_findings(phrase_of(operation))
    }
}

/// What is said against `ALTER TABLE`.
pub open spec fn alter_findings(table: Node) -> Seq<Finding> {
    each(
        items(field(table, "operations"@)),
        |operation: Node| operation_findings(operation),
    )
}

/// An operation of `ALTER TABLE` once a column that it adds is repaired.
pub open spec fn repaired_operation(operation: Node) -> Node {
    if is_variant(operation, "AddColumn"@) {
        let part = field(operation, "AddColumn"@);
        with_field(
            operation,
            "AddColumn"@,
            with_field(
                part,
                "column_def"@,
                repaired_added_column(field(part, "column_def"@)),
            ),
        )
    } else {
        operation
    }
}

/// A list of operations once those that add a foreign key are gone and the others are repaired.
pub open spec fn repaired_operations(operations: Node) -> Node {
    match operations {
        Node::List(all) => Node::List(
            all.filter(|operation: Node| !adds_foreign_key(operation)).map_values(
                |operation: Node| repaired_operation(operation),
            ),
        ),
        _ => operations,
    }
}

/// A table of `ALTER TABLE` once it is repaired.
pub open spec fn repaired_alter(table: Node) -> Node {
    with_field(table, "operations"@, repaired_operations(field(table, "operations"@)))
}

/// Whether one of the items of a list is a variant of this name.
pub fn any_variant(list: &Tree, name: &str) -> (r: bool)
    ensures
        r == some_variant(items(list@), name@),
{
    match list_items(list) {
        Some(nodes) => {
            let ghost all = item_nodes(nodes@);
            let mut i: usize = 0;
            assert(all.len() == nodes@.len()) by {
                lemma_item_nodes(nodes@);
            }
            while i < nodes.len()
                invariant
                    i <= nodes@.len(),
                    all == item_nodes(nodes@),
                    all.len() == nodes@.len(),
                    list@ == Node::List(all),
                    forall|j: int| 0 <= j < i ==> !is_variant(#[trigger] all[j], name@),
                decreases nodes@.len() - i,
            {
                broadcast use lemma_item_nodes;

                assert(all[i as int] == nodes@[i as int]@);
                if nodes[i].is_variant(name) {
                    return true;
                }
                i += 1;
            }
            false
        },
        None => false,
    }
}

/// Whether a field holds something.
pub fn has_field(tree: &Tree, name: &str) -> (r: bool)
    ensures
        r == !(field(tree@, name@) is Null),
{
    match tree.field(name) {
        Tree::Null => false,
        _ => true,
    }
}

/// Whether a field is set.
pub fn has_flag(tree: &Tree, name: &str) -> (r: bool)
    ensures
        r == (field(tree@, name@) == Node::Flag(true)),
{
    match tree.field(name) {
        Tree::Flag(flag) => *flag,
        _ => false,
    }
}

/// Reports an issue that nothing can fix, where a condition holds.
pub fn report_where(
    condition: bool,
    diagnostics: &mut Vec<Diagnostic>,
    rule: LintRule,
    message: &str,
    suggestion: &str,
)
    ensures
        findings(final(diagnostics)@) == findings(old(diagnostics)@) + found(
            condition,
            issue(rule, message@, suggestion@, Fix::Unfixable),
        ),
{
    if condition {
        report(diagnostics, rule, message, suggestion, FixResult::Unfixable);
    } else {
        assert(findings(diagnostics@) =~= findings(old(diagnostics)@) + Seq::<Finding>::empty());
    }
}

/// Checks the parts of `CREATE TABLE` that are no columns and no constraints.
fn check_clauses(table: &Tree, diagnostics: &mut Vec<Diagnostic>)
    ensures
        findings(final(diagnostics)@) == findings(old(diagnostics)@) + clause_findings(table@),
{
    report_where(
        has_flag(table, "temporary"),
        diagnostics,
        LintRule::TempTable,
        "TEMPORARY tables are not supported in DSQL.",
        "Use a regular table.",
    );
    report_where(
        has_field(table, "partition_by"),
        diagnostics,
        LintRule::PartitionBy,
        "PARTITION BY is not supported in DSQL.",
        "Remove the clause: DSQL distributes tables by itself.",
    );
    report_where(
        has_field(table, "inherits"),
        diagnostics,
        LintRule::Inherits,
        "INHERITS is not supported in DSQL.",
        "Write the columns of the parent into the table.",
    );
    report_where(
        has_field(table, "query"),
        diagnostics,
        LintRule::CreateTableAs,
        "CREATE TABLE AS is not supported in DSQL.",
        "Create the table with its columns, then fill it.",
    );
    report_where(
        any_variant(table.field("table_options").payload(), "TableSpace"),
        diagnostics,
        LintRule::Tablespace,
        "TABLESPACE is not supported in DSQL.",
        "Remove the clause.",
    );
    assert(findings(diagnostics@) =~= findings(old(diagnostics)@) + clause_findings(table@));
}

/// Checks the columns of `CREATE TABLE`.
fn check_columns(columns: &Tree, diagnostics: &mut Vec<Diagnostic>)
    ensures
        findings(final(diagnostics)@) == findings(old(diagnostics)@) + each(
            items(columns@),
            |column: Node| column_findings(column),
        ),
{
    let ghost before = findings(diagnostics@);
    let ghost of = |column: Node| column_findings(column);
    assert(before =~= before + each(Seq::empty(), of));
    if let Some(list) = list_items(columns) {
        let ghost all = item_nodes(list@);
        let mut i: usize = 0;
        assert(all.take(0) =~= Seq::empty());
        while i < list.len()
            invariant
                i <= list@.len(),
                all == item_nodes(list@),
                of == (|column: Node| column_findings(column)),
                findings(diagnostics@) == before + each(all.take(i as int), of),
            decreases list@.len() - i,
        {
            broadcast use lemma_item_nodes;

            assert(all.take(i + 1).drop_last() =~= all.take(i as int));
            assert(all.take(i + 1).last() == list@[i as int]@);
            check_column(&list[i], diagnostics);
            i += 1;
            assert(findings(diagnostics@) =~= before + each(all.take(i as int), of));
        }
        assert(all.take(i as int) =~= all) by {
            lemma_item_nodes(list@);
        }
    } else {
        assert(items(columns@) =~= Seq::empty());
    }
}

/// Checks the constraints of `CREATE TABLE`.
fn check_constraints(constraints: &Tree, diagnostics: &mut Vec<Diagnostic>)
    ensures
        findings(final(diagnostics)@) == findings(old(diagnostics)@) + each(
            items(constraints@),
            |constraint: Node| constraint_findings(constraint),
        ),
{
    let ghost before = findings(diagnostics@);
    let ghost of = |constraint: Node| constraint_findings(constraint);
    assert(before =~= before + each(Seq::empty(), of));
    if let Some(list) = list_items(constraints) {
        let ghost all = item_nodes(list@);
        let mut i: usize = 0;
        assert(all.take(0) =~= Seq::empty());
        while i < list.len()
            invariant
                i <= list@.len(),
                all == item_nodes(list@),
                of == (|constraint: Node| constraint_findings(constraint)),
                findings(diagnostics@) == before + each(all.take(i as int), of),
            decreases list@.len() - i,
        {
            broadcast use lemma_item_nodes;

            assert(all.take(i + 1).drop_last() =~= all.take(i as int));
            assert(all.take(i + 1).last() == list@[i as int]@);
            if list[i].is_variant("ForeignKey") {
                report_foreign_key(diagnostics);
            }
            i += 1;
            assert(findings(diagnostics@) =~= before + each(all.take(i as int), of));
        }
        assert(all.take(i as int) =~= all) by {
            lemma_item_nodes(list@);
        }
    } else {
        assert(items(constraints@) =~= Seq::empty());
    }
}

/// Checks `CREATE TABLE`.
pub fn check_table(table: &Tree, diagnostics: &mut Vec<Diagnostic>)
    ensures
        findings(final(diagnostics)@) == findings(old(diagnostics)@) + table_findings(table@),
{
    check_clauses(table, diagnostics);
    check_columns(table.field("columns"), diagnostics);
    check_constraints(table.field("constraints"), diagnostics);
    assert(findings(diagnostics@) =~= findings(old(diagnostics)@) + table_findings(table@));
}

fn repair_columns(columns: Tree) -> (r: Tree)
    ensures
        r@ == repaired_columns(columns@),
{
    match columns {
        Tree::List(list) => {
            let ghost all = item_nodes(list@);
            let ghost given = list@;
            let ghost goal = all.map_values(|column: Node| repaired_column(column));
            let mut done: Vec<Tree> = Vec::new();
            assert(item_nodes(done@) =~= goal.take(0));
            for column in it: list
                invariant
                    it.seq() == given,
                    0 <= it.index() <= given.len(),
                    all == item_nodes(given),
                    goal == all.map_values(|column: Node| repaired_column(column)),
                    item_nodes(done@) == goal.take(it.index() as int),
            {
                broadcast use lemma_item_nodes;

                let ghost k = it.index() as int;
                let ghost before = done@;
                let mut column = column;
                repair_column(&mut column);
                done.push(column);
                assert(item_nodes(done@) =~= item_nodes(before).push(column@));
                assert(goal[k] == column@);
                assert(item_nodes(done@) =~= goal.take(k + 1));
            }
            assert(goal.take(given.len() as int) =~= goal) by {
                lemma_item_nodes(given);
            }
            let r = Tree::List(done);
            assert(r@ == Node::List(item_nodes(done@)));
            r
        },
        other => other,
    }
}

fn repair_constraints(constraints: Tree) -> (r: Tree)
    ensures
        r@ == repaired_constraints(constraints@),
{
    match constraints {
        Tree::List(list) => {
            let ghost all = item_nodes(list@);
            let ghost given = list@;
            let ghost kind = |constraint: Node| !is_variant(constraint, "ForeignKey"@);
            let mut kept: Vec<Tree> = Vec::new();
            proof {
                reveal(Seq::filter);
                assert(item_nodes(kept@) =~= all.take(0).filter(kind));
            }
            for constraint in it: list
                invariant
                    it.seq() == given,
                    0 <= it.index() <= given.len(),
                    all == item_nodes(given),
                    kind == (|constraint: Node| !is_variant(constraint, "ForeignKey"@)),
                    item_nodes(kept@) == all.take(it.index() as int).filter(kind),
            {
                broadcast use lemma_item_nodes;

                let ghost k = it.index() as int;
                let ghost before = kept@;
                proof {
                    reveal(Seq::filter);
                    assert(all.take(k + 1).drop_last() =~= all.take(k));
                    assert(all.take(k + 1).last() == constraint@);
                }
                if !constraint.is_variant("ForeignKey") {
                    kept.push(constraint);
                    assert(item_nodes(kept@) =~= item_nodes(before).push(constraint@));
                }
            }
            assert(all.take(given.len() as int) =~= all) by {
                lemma_item_nodes(given);
            }
            let r = Tree::List(kept);
            assert(r@ == Node::List(item_nodes(kept@)));
            r
        },
        other => other,
    }
}

/// Repairs a table of `CREATE TABLE`.
pub fn repair_table(table: &mut Tree)
    ensures
        final(table)@ == repaired_table(old(table)@),
{
    broadcast use lemma_with_field;

    let ghost before = table@;
    let columns = repair_columns(table.take_field("columns"));
    table.set_field("columns", columns);
    proof {
        reveal_strlit("columns");
        reveal_strlit("constraints");
        assert("columns"@.len() != "constraints"@.len());
        lemma_field_of_with_field(before, "columns"@, columns@, "constraints"@);
    }
    let constraints = repair_constraints(table.take_field("constraints"));
    table.set_field("constraints", constraints);
}

/// What SQL calls an operation on a table that DSQL lacks.
fn name_operation(name: &str) -> (r: Option<&'static str>)
    ensures
        match r {
            Some(phrase) => operation_phrase(name@) == Some(phrase@),
            None => operation_phrase(name@) is None,
        },
{
    if same_text(name, "DropColumn") {
        Some("DROP COLUMN")
    } else if same_text(name, "DropConstraint") {
        Some("DROP CONSTRAINT")
    } else if same_text(name, "EnableRowLevelSecurity") {
        Some("ENABLE ROW LEVEL SECURITY")
    } else if same_text(name, "DisableRowLevelSecurity") {
        Some("DISABLE ROW LEVEL SECURITY")
    } else if same_text(name, "ForceRowLevelSecurity") {
        Some("FORCE ROW LEVEL SECURITY")
    } else if same_text(name, "NoForceRowLevelSecurity") {
        Some("NO FORCE ROW LEVEL SECURITY")
    } else if same_text(name, "EnableTrigger") {
        Some("ENABLE TRIGGER")
    } else if same_text(name, "DisableTrigger") {
        Some("DISABLE TRIGGER")
    } else if same_text(name, "EnableAlwaysTrigger") {
        Some("ENABLE ALWAYS TRIGGER")
    } else if same_text(name, "EnableReplicaTrigger") {
        Some("ENABLE REPLICA TRIGGER")
    } else if same_text(name, "EnableRule") {
        Some("ENABLE RULE")
    } else if same_text(name, "DisableRule") {
        Some("DISABLE RULE")
    } else if same_text(name, "EnableAlwaysRule") {
        Some("ENABLE ALWAYS RULE")
    } else if same_text(name, "EnableReplicaRule") {
        Some("ENABLE REPLICA RULE")
    } else if same_text(name, "ReplicaIdentity") {
        Some("REPLICA IDENTITY")
    } else if same_text(name, "ValidateConstraint") {
        Some("VALIDATE CONSTRAINT")
    } else {
        None
    }
}

/// What SQL calls an operation on a column that DSQL lacks.
fn name_column_operation(name: &str) -> (r: Option<&'static str>)
    ensures
        match r {
            Some(phrase) => column_operation_phrase(name@) == Some(phrase@),
            None => column_operation_phrase(name@) is None,
        },
{
    if same_text(name, "SetDataType") {
        Some("ALTER COLUMN TYPE")
    } else if same_text(name, "SetNotNull") {
        Some("ALTER COLUMN SET NOT NULL")
    } else if same_text(name, "DropNotNull") {
        Some("ALTER COLUMN DROP NOT NULL")
    } else if same_text(name, "SetDefault") {
        Some("ALTER COLUMN SET DEFAULT")
    } else if same_text(name, "DropDefault") {
        Some("ALTER COLUMN DROP DEFAULT")
    } else if same_text(name, "AddGenerated") {
        Some("ALTER COLUMN ADD GENERATED AS IDENTITY")
    } else {
        None
    }
}

/// What SQL calls a constraint that DSQL cannot add to a table.
fn name_constraint(name: &str) -> (r: Option<&'static str>)
    ensures
        match r {
            Some(phrase) => constraint_phrase(name@) == Some(phrase@),
            None => constraint_phrase(name@) is None,
        },
{
    if same_text(name, "Check") {
        Some("ADD CHECK")
    } else if same_text(name, "Unique") {
        Some("ADD UNIQUE")
    } else if same_text(name, "PrimaryKeyUsingIndex") {
        Some("ADD PRIMARY KEY USING INDEX")
    } else if same_text(name, "UniqueUsingIndex") {
        Some("ADD UNIQUE USING INDEX")
    } else {
        None
    }
}

/// What SQL calls a part of an operation that DSQL lacks.
fn name_part(operation: &Tree) -> (r: Option<&'static str>)
    ensures
        match r {
            Some(phrase) => phrase_of(operation@) == Some(phrase@),
            None => phrase_of(operation@) is None,
        },
{
    if operation.is_variant("AlterColumn") {
        match operation.payload().field("op").variant() {
            Some(name) => name_column_operation(name),
            None => None,
        }
    } else if operation.is_variant("AddConstraint") {
        match operation.payload().field("constraint").variant() {
            Some(name) => name_constraint(name),
            None => None,
        }
    } else {
        match operation.variant() {
            Some(name) => name_operation(name),
            None => None,
        }
    }
}

/// Whether an operation of `ALTER TABLE` adds a foreign key.
fn check_adds_foreign_key(operation: &Tree) -> (r: bool)
    ensures
        r == adds_foreign_key(operation@),
{
    operation.is_variant("AddConstraint") && operation.payload().field("constraint").is_variant(
        "ForeignKey",
    )
}

/// Checks an operation of `ALTER TABLE`.
fn check_operation(operation: &Tree, diagnostics: &mut Vec<Diagnostic>)
    ensures
        findings(final(diagnostics)@) == findings(old(diagnostics)@) + operation_findings(
            operation@,
        ),
{
    if operation.is_variant("AddColumn") {
        check_added_column(operation.payload().field("column_def"), diagnostics);
    } else if check_adds_foreign_key(operation) {
        report_foreign_key(diagnostics);
    } else {
        match name_part(operation) {
            Some(phrase) => {
                let mut message = "ALTER TABLE ".to_owned();
                message.append(phrase);
                message.append(" is not supported in DSQL.");
                report(
                    diagnostics,
                    LintRule::UnsupportedAlterTableOp,
                    message.as_str(),
                    "Create a new table in the form that is wanted and copy the data.",
                    FixResult::Unfixable,
                );
            },
            None => {
                assert(findings(diagnostics@) =~= findings(old(diagnostics)@)
                    + operation_findings(operation@));
            },
        }
    }
}

/// Checks `ALTER TABLE`.
pub fn check_alter(table: &Tree, diagnostics: &mut Vec<Diagnostic>)
    ensures
        findings(final(diagnostics)@) == findings(old(diagnostics)@) + alter_findings(table@),
{
    let ghost before = findings(diagnostics@);
    let ghost of = |operation: Node| operation_findings(operation);
    assert(before =~= before + each(Seq::empty(), of));
    if let Some(list) = list_items(table.field("operations")) {
        let ghost all = item_nodes(list@);
        let mut i: usize = 0;
        assert(all.take(0) =~= Seq::empty());
        while i < list.len()
            invariant
                i <= list@.len(),
                all == item_nodes(list@),
                of == (|operation: Node| operation_findings(operation)),
                findings(diagnostics@) == before + each(all.take(i as int), of),
            decreases list@.len() - i,
        {
            broadcast use lemma_item_nodes;

            assert(all.take(i + 1).drop_last() =~= all.take(i as int));
            assert(all.take(i + 1).last() == list@[i as int]@);
            check_operation(&list[i], diagnostics);
            i += 1;
            assert(findings(diagnostics@) =~= before + each(all.take(i as int), of));
        }
        assert(all.take(i as int) =~= all) by {
            lemma_item_nodes(list@);
        }
    } else {
        assert(items(field(table@, "operations"@)) =~= Seq::empty());
    }
}

fn repair_operation(operation: &mut Tree)
    ensures
        final(operation)@ == repaired_operation(old(operation)@),
{
    broadcast use lemma_with_field;

    if operation.is_variant("AddColumn") {
        let mut part = operation.take_field("AddColumn");
        let mut column = part.take_field("column_def");
        repair_added_column(&mut column);
        part.set_field("column_def", column);
        operation.set_field("AddColumn", part);
    }
}

fn repair_operations(operations: Tree) -> (r: Tree)
    ensures
        r@ == repaired_operations(operations@),
{
    match operations {
        Tree::List(list) => {
            let ghost all = item_nodes(list@);
            let ghost given = list@;
            let ghost kind = |operation: Node| !adds_foreign_key(operation);
            let ghost change = |operation: Node| repaired_operation(operation);
            let mut kept: Vec<Tree> = Vec::new();
            proof {
                reveal(Seq::filter);
                assert(item_nodes(kept@) =~= all.take(0).filter(kind).map_values(change));
            }
            for operation in it: list
                invariant
                    it.seq() == given,
                    0 <= it.index() <= given.len(),
                    all == item_nodes(given),
                    kind == (|operation: Node| !adds_foreign_key(operation)),
                    change == (|operation: Node| repaired_operation(operation)),
                    item_nodes(kept@) == all.take(it.index() as int).filter(kind).map_values(
                        change,
                    ),
            {
                broadcast use lemma_item_nodes;

                let ghost k = it.index() as int;
                let ghost before = kept@;
                let ghost given_operation = operation@;
                proof {
                    reveal(Seq::filter);
                    assert(all.take(k + 1).drop_last() =~= all.take(k));
                    assert(all.take(k + 1).last() == operation@);
                }
                if !check_adds_foreign_key(&operation) {
                    let mut operation = operation;
                    repair_operation(&mut operation);
                    kept.push(operation);
                    assert(item_nodes(kept@) =~= item_nodes(before).push(operation@));
                    assert(all.take(k + 1).filter(kind) == all.take(k).filter(kind).push(
                        given_operation,
                    ));
                    assert(all.take(k + 1).filter(kind).map_values(change) =~= all.take(k).filter(
                        kind,
                    ).map_values(change).push(operation@));
                }
            }
            assert(all.take(given.len() as int) =~= all) by {
                lemma_item_nodes(given);
            }
            let r = Tree::List(kept);
            assert(r@ == Node::List(item_nodes(kept@)));
            r
        },
        other => other,
    }
}

/// Repairs a table of `ALTER TABLE`.
pub fn repair_alter(table: &mut Tree)
    ensures
        final(table)@ == repaired_alter(old(table)@),
{
    broadcast use lemma_with_field;

    let operations = repair_operations(table.take_field("operations"));
    table.set_field("operations", operations);
}

} // verus!
