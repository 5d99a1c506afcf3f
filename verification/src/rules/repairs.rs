//! What a repair takes away, what it puts in, and that all else stays.

use vstd::prelude::*;

use crate::rules::column::{
    big_int_type, identified, identity_option, is_foreign_key, repaired_added_column,
    repaired_column, serial_name, unreferenced,
};
use crate::rules::laws::lemma_variant_field;
use crate::rules::table::{
    adds_foreign_key, repaired_alter, repaired_columns, repaired_constraints, repaired_operation,
    repaired_operations, repaired_table,
};
use crate::rules::repaired;
use crate::syntax::{field, items, lemma_field_of_with_field, payload, variant, with_field, Node};
use crate::text::upper;

verus! {

/// Whether a name, in whatever case, is that of a serial type.
pub open spec fn names_serial(name: Seq<char>) -> bool {
    seq!["SERIAL"@, "SERIAL4"@, "BIGSERIAL"@, "SERIAL8"@, "SMALLSERIAL"@, "SERIAL2"@].contains(
        upper(name),
    )
}

/// Whether a data type is written as a single name without quotes, which is this one.
pub open spec fn is_named_type(data_type: Node, name: Seq<char>) -> bool {
    &&& variant(data_type) == Some("Custom"@)
    &&& items(payload(data_type)).len() > 0
    &&& items(items(payload(data_type))[0]).len() == 1
    &&& variant(items(items(payload(data_type))[0])[0]) == Some("Identifier"@)
    &&& field(payload(items(items(payload(data_type))[0])[0]), "quote_style"@) is Null
    &&& field(payload(items(items(payload(data_type))[0])[0]), "value"@) == Node::Text(name)
}

/// Whether a data type is a serial one.
pub open spec fn is_serial(data_type: Node) -> bool {
    exists|name: Seq<char>| #[trigger] is_named_type(data_type, name) && names_serial(name)
}

pub proof fn lemma_serial(data_type: Node)
    ensures
        is_serial(data_type) == (serial_name(data_type) is Some),
{
    let known = seq![
        "SERIAL"@,
        "SERIAL4"@,
        "BIGSERIAL"@,
        "SERIAL8"@,
        "SMALLSERIAL"@,
        "SERIAL2"@,
    ];
    if let Some(found) = serial_name(data_type) {
        let parts = items(items(payload(data_type))[0]);
        let name = field(payload(parts[0]), "value"@)->Text_0;
        assert(is_named_type(data_type, name));
        assert(known[0] == "SERIAL"@ && known[1] == "SERIAL4"@ && known[2] == "BIGSERIAL"@
            && known[3] == "SERIAL8"@ && known[4] == "SMALLSERIAL"@ && known[5] == "SERIAL2"@);
        assert(known.contains(upper(name)));
    }
    if is_serial(data_type) {
        let name = choose|name: Seq<char>|
            #[trigger] is_named_type(data_type, name) && names_serial(name);
        let k = choose|k: int| 0 <= k < known.len() && known[k] == upper(name);
        assert(k == 0 || k == 1 || k == 2 || k == 3 || k == 4 || k == 5);
    }
}

/// Whether a column option is `GENERATED BY DEFAULT AS IDENTITY (CACHE 1)`.
pub open spec fn generates_from_one(option: Node) -> bool {
    let kind = field(option, "option"@);
    let cache = items(field(payload(kind), "sequence_options"@));
    let number = items(payload(field(payload(payload(cache[0])), "value"@)));
    &&& variant(kind) == Some("Generated"@)
    &&& variant(field(payload(kind), "generated_as"@)) == Some("ByDefault"@)
    &&& field(payload(kind), "generation_expr"@) is Null
    &&& cache.len() == 1
    &&& variant(cache[0]) == Some("Cache"@)
    &&& variant(payload(cache[0])) == Some("Value"@)
    &&& variant(field(payload(payload(cache[0])), "value"@)) == Some("Number"@)
    &&& number.len() > 0
    &&& number[0] == Node::Text("1"@)
}

proof fn lemma_identity_option()
    ensures
        generates_from_one(identity_option()),
{
    reveal_strlit("name");
    reveal_strlit("option");
    reveal_strlit("generated_as");
    reveal_strlit("sequence_options");
    reveal_strlit("generation_expr");
    reveal_strlit("value");
    reveal_with_fuel(crate::syntax::lookup, 4);
    let option = identity_option();
    let fields = option->Record_0;
    assert(fields.drop_first()[0] == fields[1]);
    assert("name"@.len() != "option"@.len());
    let kind = field(option, "option"@);
    assert(kind == fields[1].1);
    let generated = payload(kind);
    let parts = generated->Record_0;
    assert(parts.drop_first()[0] == parts[1]);
    assert(parts.drop_first().drop_first()[0] == parts[2]);
    assert("generated_as"@.len() == 12 && "sequence_options"@.len() == 16
        && "generation_expr"@.len() == 15);
    assert(field(generated, "sequence_options"@) == parts[1].1);
    assert(field(generated, "generation_expr"@) == parts[2].1);
}

/// The options of a column that are no foreign keys, in their order.
pub open spec fn kept_options(column: Node) -> Seq<Node> {
    items(field(column, "options"@)).filter(
        |option: Node| variant(field(option, "option"@)) != Some("ForeignKey"@),
    )
}

proof fn lemma_kept(column: Node)
    requires
        field(column, "options"@) is List,
    ensures
        unreferenced(field(column, "options"@)) == Node::List(kept_options(column)),
{
    assert((|option: Node| variant(field(option, "option"@)) != Some("ForeignKey"@)) =~= (
    |option: Node| !is_foreign_key(option)));
}

/// Whether two trees have the same fields but for these two.
pub open spec fn same_but(after: Node, before: Node, a: Seq<char>, b: Seq<char>) -> bool {
    forall|name: Seq<char>|
        name != a && name != b ==> #[trigger] field(after, name) == field(before, name)
}

proof fn lemma_two_fields(node: Node, a: Seq<char>, x: Node, b: Seq<char>, y: Node)
    requires
        a != b,
    ensures
        same_but(with_field(with_field(node, a, x), b, y), node, a, b),
        !(field(node, a) is Null) ==> field(with_field(with_field(node, a, x), b, y), a) == x,
        !(field(node, b) is Null) ==> field(with_field(with_field(node, a, x), b, y), b) == y,
{
    let middle = with_field(node, a, x);
    let after = with_field(middle, b, y);
    assert forall|name: Seq<char>| name != a && name != b implies #[trigger] field(after, name)
        == field(node, name) by {
        lemma_field_of_with_field(node, a, x, name);
        lemma_field_of_with_field(middle, b, y, name);
    }
    lemma_field_of_with_field(node, a, x, b);
    lemma_field_of_with_field(middle, b, y, a);
}

proof fn lemma_one_field(node: Node, a: Seq<char>, x: Node)
    ensures
        same_but(with_field(node, a, x), node, a, a),
        !(field(node, a) is Null) ==> field(with_field(node, a, x), a) == x,
{
    assert forall|name: Seq<char>| name != a implies #[trigger] field(with_field(node, a, x), name)
        == field(node, name) by {
        lemma_field_of_with_field(node, a, x, name);
    }
    lemma_field_of_with_field(node, a, x, a);
}

/// Whether a column of `CREATE TABLE` is repaired in the right way: a serial type becomes `BIGINT`,
/// with the identity in front of the options; the options that are no foreign keys stay, in their
/// order; all else stays.
pub open spec fn column_is_repaired(after: Node, before: Node) -> bool {
    let options = field(after, "options"@);
    &&& same_but(after, before, "data_type"@, "options"@)
    &&& options is List
    &&& if is_serial(field(before, "data_type"@)) {
        &&& variant(field(after, "data_type"@)) == Some("BigInt"@)
        &&& payload(field(after, "data_type"@)) is Null
        &&& items(options).len() == kept_options(before).len() + 1
        &&& generates_from_one(items(options)[0])
        &&& items(options).skip(1) == kept_options(before)
    } else {
        &&& field(after, "data_type"@) == field(before, "data_type"@)
        &&& items(options) == kept_options(before)
    }
}

proof fn lemma_column(column: Node)
    requires
        field(column, "options"@) is List,
    ensures
        column_is_repaired(repaired_column(column), column),
{
    reveal_strlit("data_type");
    reveal_strlit("options");
    assert("data_type"@.len() == 9 && "options"@.len() == 7);
    lemma_kept(column);
    lemma_serial(field(column, "data_type"@));
    let kept = kept_options(column);
    if is_serial(field(column, "data_type"@)) {
        lemma_two_fields(
            column,
            "data_type"@,
            big_int_type(),
            "options"@,
            identified(Node::List(kept)),
        );
        lemma_identity_option();
        assert((seq![identity_option()] + kept).skip(1) =~= kept);
    } else {
        lemma_one_field(column, "options"@, Node::List(kept));
        lemma_field_of_with_field(column, "options"@, Node::List(kept), "data_type"@);
        let after = repaired_column(column);
        assert(same_but(after, column, "data_type"@, "options"@));
    }
}

/// Repairing `CREATE TABLE` changes nothing but its columns and constraints: of each column, what
/// [`column_is_repaired`] says, and of the constraints the foreign keys go away. No column comes or
/// goes.
pub proof fn tables_keep_what_is_not_named(statement: Node)
    requires
        variant(statement) == Some("CreateTable"@),
        statement is Record,
        field(payload(statement), "columns"@) is List,
        field(payload(statement), "constraints"@) is List,
        forall|i: int|
            0 <= i < items(field(payload(statement), "columns"@)).len() ==> field(
                #[trigger] items(field(payload(statement), "columns"@))[i],
                "options"@,
            ) is List,
    ensures
        variant(repaired(statement)) == Some("CreateTable"@),
        same_but(
            payload(repaired(statement)),
            payload(statement),
            "columns"@,
            "constraints"@,
        ),
        field(payload(repaired(statement)), "columns"@) is List,
        items(field(payload(repaired(statement)), "columns"@)).len() == items(
            field(payload(statement), "columns"@),
        ).len(),
        forall|i: int|
            0 <= i < items(field(payload(statement), "columns"@)).len() ==> column_is_repaired(
                #[trigger] items(field(payload(repaired(statement)), "columns"@))[i],
                items(field(payload(statement), "columns"@))[i],
            ),
        field(payload(repaired(statement)), "constraints"@) == Node::List(
            items(field(payload(statement), "constraints"@)).filter(
                |constraint: Node| variant(constraint) != Some("ForeignKey"@),
            ),
        ),
{
    let table = payload(statement);
    let columns = items(field(table, "columns"@));
    let constraints = items(field(table, "constraints"@));
    lemma_variant_field(statement, "CreateTable"@);
    reveal_strlit("columns");
    reveal_strlit("constraints");
    assert("columns"@.len() == 7 && "constraints"@.len() == 11);
    lemma_two_fields(
        table,
        "columns"@,
        repaired_columns(field(table, "columns"@)),
        "constraints"@,
        repaired_constraints(field(table, "constraints"@)),
    );
    assert(payload(repaired(statement)) == repaired_table(table));
    assert((|constraint: Node| variant(constraint) != Some("ForeignKey"@)) =~= (
    |constraint: Node| !crate::syntax::is_variant(constraint, "ForeignKey"@)));
    let after = items(field(payload(repaired(statement)), "columns"@));
    assert forall|i: int| 0 <= i < columns.len() implies column_is_repaired(
        #[trigger] after[i],
        columns[i],
    ) by {
        lemma_column(columns[i]);
    }
}

/// Whether an operation of `ALTER TABLE` adds a foreign key.
pub open spec fn is_added_reference(operation: Node) -> bool {
    &&& variant(operation) == Some("AddConstraint"@)
    &&& variant(field(payload(operation), "constraint"@)) == Some("ForeignKey"@)
}

/// The operations of `ALTER TABLE` that add no foreign key, in their order.
pub open spec fn kept_operations(table: Node) -> Seq<Node> {
    items(field(table, "operations"@)).filter(|operation: Node| !is_added_reference(operation))
}

/// Whether an operation of `ALTER TABLE` is repaired in the right way: a column that is added loses
/// its foreign keys alone, and any other operation stays.
pub open spec fn operation_is_repaired(after: Node, before: Node) -> bool {
    if variant(before) == Some("AddColumn"@) {
        let old_column = field(payload(before), "column_def"@);
        let new_column = field(payload(after), "column_def"@);
        &&& variant(after) == Some("AddColumn"@)
        &&& same_but(payload(after), payload(before), "column_def"@, "column_def"@)
        &&& same_but(new_column, old_column, "options"@, "options"@)
        &&& field(new_column, "options"@) == Node::List(kept_options(old_column))
    } else {
        after == before
    }
}

/// Whether an operation of `ALTER TABLE` that adds a column has the form that the parser gives it.
pub open spec fn is_whole(operation: Node) -> bool {
    variant(operation) == Some("AddColumn"@) ==> {
        &&& operation is Record
        &&& field(field(payload(operation), "column_def"@), "options"@) is List
    }
}

proof fn lemma_operation(operation: Node)
    requires
        is_whole(operation),
    ensures
        operation_is_repaired(repaired_operation(operation), operation),
{
    if variant(operation) == Some("AddColumn"@) {
        lemma_variant_field(operation, "AddColumn"@);
        let part = payload(operation);
        let column = field(part, "column_def"@);
        lemma_kept(column);
        lemma_one_field(part, "column_def"@, repaired_added_column(column));
        lemma_one_field(column, "options"@, Node::List(kept_options(column)));
    }
}

/// Repairing `ALTER TABLE` changes nothing but its operations: those that add a foreign key go
/// away, and of each other one what [`operation_is_repaired`] says.
pub proof fn alterations_keep_what_is_not_named(statement: Node)
    requires
        variant(statement) == Some("AlterTable"@),
        statement is Record,
        field(payload(statement), "operations"@) is List,
        forall|i: int|
            0 <= i < items(field(payload(statement), "operations"@)).len() ==> is_whole(
                #[trigger] items(field(payload(statement), "operations"@))[i],
            ),
    ensures
        variant(repaired(statement)) == Some("AlterTable"@),
        same_but(payload(repaired(statement)), payload(statement), "operations"@, "operations"@),
        field(payload(repaired(statement)), "operations"@) is List,
        items(field(payload(repaired(statement)), "operations"@)).len() == kept_operations(
            payload(statement),
        ).len(),
        forall|i: int|
            0 <= i < kept_operations(payload(statement)).len() ==> operation_is_repaired(
                #[trigger] items(field(payload(repaired(statement)), "operations"@))[i],
                kept_operations(payload(statement))[i],
            ),
{
    let table = payload(statement);
    let operations = items(field(table, "operations"@));
    reveal_strlit("CreateTable");
    reveal_strlit("AlterTable");
    assert("AlterTable"@.len() == 10 && "CreateTable"@.len() == 11);
    lemma_variant_field(statement, "AlterTable"@);
    assert(payload(repaired(statement)) == repaired_alter(table));
    lemma_one_field(
        table,
        "operations"@,
        repaired_operations(field(table, "operations"@)),
    );
    let kind = |operation: Node| !adds_foreign_key(operation);
    assert((|operation: Node| !is_added_reference(operation)) =~= kind);
    let kept = kept_operations(table);
    let after = items(field(payload(repaired(statement)), "operations"@));
    assert(after =~= kept.map_values(|operation: Node| repaired_operation(operation)));
    assert forall|i: int| 0 <= i < kept.len() implies operation_is_repaired(
        #[trigger] after[i],
        kept[i],
    ) by {
        operations.lemma_filter_contains_rev(kind, kept[i]);
        lemma_operation(kept[i]);
    }
}

/// Repairing `CREATE INDEX` changes nothing but `ASYNC`, which is there behind it unless the index
/// is built concurrently.
pub proof fn indexes_keep_all_but_async(statement: Node)
    requires
        variant(statement) == Some("CreateIndex"@),
        statement is Record,
        field(payload(statement), "async"@) is Flag,
    ensures
        variant(repaired(statement)) == Some("CreateIndex"@),
        same_but(payload(repaired(statement)), payload(statement), "async"@, "async"@),
        field(payload(repaired(statement)), "async"@) == if field(
            payload(statement),
            "concurrently"@,
        ) == Node::Flag(true) {
            field(payload(statement), "async"@)
        } else {
            Node::Flag(true)
        },
{
    reveal_strlit("CreateIndex");
    reveal_strlit("CreateTable");
    reveal_strlit("AlterTable");
    lemma_variant_field(statement, "CreateIndex"@);
    lemma_one_field(payload(statement), "async"@, Node::Flag(true));
    assert("CreateIndex"@[6] == 'I' && "CreateTable"@[6] == 'T');
    assert("AlterTable"@.len() == 10 && "CreateIndex"@.len() == 11);
}

/// A statement that is no `CREATE TABLE`, `ALTER TABLE` or `CREATE INDEX` stays as it is.
pub proof fn other_statements_stay(statement: Node)
    requires
        variant(statement) != Some("CreateTable"@),
        variant(statement) != Some("AlterTable"@),
        variant(statement) != Some("CreateIndex"@),
    ensures
        repaired(statement) == statement,
{
}

} // verus!
