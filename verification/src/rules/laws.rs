//! What holds of the rules on every statement.

use vstd::prelude::*;

use crate::diagnostic::{Finding, Fix};
use crate::lint::{changes, some_changes};
use crate::rules::column::{
    added_column_findings, added_option_findings, big_int_type, cache_option, column_findings,
    each, identified, identity_findings, identity_option, is_foreign_key, is_identity, location,
    one, option_findings, repaired_added_column, repaired_column, serial_fix, serial_name,
    type_findings, unreferenced, valid_cache,
};
use crate::rules::index::{
    async_finding, concurrently_finding, expression_finding, index_findings, lacks_async,
    partial_finding, repaired_index, some_expression, using_finding,
};
use crate::rules::statement::{
    copy_findings, named_findings, rollback_findings, sequence_findings, set_findings,
    start_findings, statement_phrase, truncate_finding, view_findings,
};
use crate::rules::table::{
    adds_foreign_key, alter_findings, clause_findings, constraint_findings, found,
    operation_findings, repaired_alter, repaired_columns, repaired_constraints,
    repaired_operation, repaired_operations, repaired_table, some_variant, table_findings,
};
use crate::rules::{repaired, rule_findings};
use crate::syntax::{
    field, is_variant, items, lemma_field_of_with_field, lemma_with_field, lookup, payload,
    replaced, variant, with_field, Node,
};
use crate::text::numeral;

verus! {

/// Whether findings speak of the line that a statement starts on.
pub open spec fn on_first_line(all: Seq<Finding>) -> bool {
    forall|i: int| 0 <= i < all.len() ==> (#[trigger] all[i]).line == 1
}

proof fn lemma_each_lines(nodes: Seq<Node>, of: spec_fn(Node) -> Seq<Finding>)
    requires
        forall|node: Node| on_first_line(#[trigger] of(node)),
    ensures
        on_first_line(each(nodes, of)),
    decreases nodes.len(),
{
    if nodes.len() > 0 {
        lemma_each_lines(nodes.drop_last(), of);
        assert(on_first_line(of(nodes.last())));
    }
}

proof fn lemma_column_lines(column: Node)
    ensures
        on_first_line(column_findings(column)),
        on_first_line(added_column_findings(column)),
{
    let data_type = field(column, "data_type"@);
    let options = items(field(column, "options"@));
    lemma_each_lines(options, |option: Node| option_findings(data_type, option));
    lemma_each_lines(options, |option: Node| added_option_findings(option));
}

proof fn lemma_table_lines(table: Node)
    ensures
        on_first_line(table_findings(table)),
        on_first_line(alter_findings(table)),
{
    assert forall|column: Node| on_first_line(#[trigger] column_findings(column)) by {
        lemma_column_lines(column);
    }
    assert forall|operation: Node| on_first_line(#[trigger] operation_findings(operation)) by {
        lemma_column_lines(field(payload(operation), "column_def"@));
    }
    lemma_each_lines(items(field(table, "columns"@)), |column: Node| column_findings(column));
    lemma_each_lines(
        items(field(table, "constraints"@)),
        |constraint: Node| constraint_findings(constraint),
    );
    lemma_each_lines(
        items(field(table, "operations"@)),
        |operation: Node| operation_findings(operation),
    );
}

proof fn lemma_other_lines(body: Node, name: Seq<char>)
    ensures
        on_first_line(index_findings(body)),
        on_first_line(sequence_findings(body)),
        on_first_line(view_findings(body)),
        on_first_line(start_findings(body)),
        on_first_line(set_findings(body)),
        on_first_line(rollback_findings(body)),
        on_first_line(copy_findings(body)),
        on_first_line(named_findings(name)),
{
}

/// A rule speaks of the line that a statement starts on.
pub proof fn rules_speak_of_the_first_line(statement: Node)
    ensures
        on_first_line(rule_findings(statement)),
{
    lemma_table_lines(payload(statement));
    if let Some(name) = variant(statement) {
        lemma_other_lines(payload(statement), name);
    }
}

proof fn lemma_no_change_add(a: Seq<Finding>, b: Seq<Finding>)
    requires
        !some_changes(a + b),
    ensures
        !some_changes(a),
        !some_changes(b),
{
    if some_changes(a) {
        let i = choose|i: int| 0 <= i < a.len() && changes(#[trigger] a[i]);
        assert(changes((a + b)[i]));
    }
    if some_changes(b) {
        let i = choose|i: int| 0 <= i < b.len() && changes(#[trigger] b[i]);
        assert(changes((a + b)[a.len() + i]));
    }
}

proof fn lemma_each_no_change(nodes: Seq<Node>, of: spec_fn(Node) -> Seq<Finding>, k: int)
    requires
        !some_changes(each(nodes, of)),
        0 <= k < nodes.len(),
    ensures
        !some_changes(of(nodes[k])),
    decreases nodes.len(),
{
    lemma_no_change_add(each(nodes.drop_last(), of), of(nodes.last()));
    if k < nodes.len() - 1 {
        lemma_each_no_change(nodes.drop_last(), of, k);
    }
}

proof fn lemma_filter_all(nodes: Seq<Node>, kind: spec_fn(Node) -> bool)
    requires
        forall|k: int| 0 <= k < nodes.len() ==> kind(#[trigger] nodes[k]),
    ensures
        nodes.filter(kind) == nodes,
    decreases nodes.len(),
{
    reveal(Seq::filter);
    if nodes.len() > 0 {
        lemma_filter_all(nodes.drop_last(), kind);
        assert(nodes.drop_last().push(nodes.last()) =~= nodes);
    }
}

proof fn lemma_column_untouched(column: Node)
    ensures
        !some_changes(column_findings(column)) ==> repaired_column(column) == column,
        !some_changes(added_column_findings(column)) ==> repaired_added_column(column) == column,
{
    let data_type = field(column, "data_type"@);
    let options = items(field(column, "options"@));
    let kind = |option: Node| !is_foreign_key(option);
    lemma_with_field(column, "options"@, Node::Null, Node::Null);
    if !some_changes(column_findings(column)) {
        let of = |option: Node| option_findings(data_type, option);
        lemma_no_change_add(type_findings(data_type, serial_fix()), each(options, of));
        if let Some(name) = serial_name(data_type) {
            assert(changes(type_findings(data_type, serial_fix())[0]));
        }
        assert forall|k: int| 0 <= k < options.len() implies kind(#[trigger] options[k]) by {
            lemma_each_no_change(options, of, k);
            if is_foreign_key(options[k]) {
                assert(changes(of(options[k])[0]));
            }
        }
        lemma_filter_all(options, kind);
    }
    if !some_changes(added_column_findings(column)) {
        let of = |option: Node| added_option_findings(option);
        lemma_no_change_add(type_findings(data_type, Fix::Unfixable), each(options, of));
        assert forall|k: int| 0 <= k < options.len() implies kind(#[trigger] options[k]) by {
            lemma_each_no_change(options, of, k);
            if is_foreign_key(options[k]) {
                assert(changes(of(options[k])[0]));
            }
        }
        lemma_filter_all(options, kind);
    }
}

proof fn lemma_table_untouched(table: Node)
    requires
        !some_changes(table_findings(table)),
    ensures
        repaired_table(table) == table,
{
    let columns = items(field(table, "columns"@));
    let constraints = items(field(table, "constraints"@));
    let of_column = |column: Node| column_findings(column);
    let of_constraint = |constraint: Node| constraint_findings(constraint);
    let kind = |constraint: Node| !is_variant(constraint, "ForeignKey"@);
    lemma_no_change_add(
        clause_findings(table) + each(columns, of_column),
        each(constraints, of_constraint),
    );
    lemma_no_change_add(clause_findings(table), each(columns, of_column));
    assert forall|k: int| 0 <= k < columns.len() implies repaired_column(#[trigger] columns[k])
        == columns[k] by {
        lemma_each_no_change(columns, of_column, k);
        lemma_column_untouched(columns[k]);
    }
    assert(columns.map_values(|column: Node| repaired_column(column)) =~= columns);
    assert forall|k: int| 0 <= k < constraints.len() implies kind(#[trigger] constraints[k]) by {
        lemma_each_no_change(constraints, of_constraint, k);
        if is_variant(constraints[k], "ForeignKey"@) {
            assert(changes(of_constraint(constraints[k])[0]));
        }
    }
    lemma_filter_all(constraints, kind);
    lemma_with_field(table, "columns"@, Node::Null, Node::Null);
    lemma_with_field(table, "constraints"@, Node::Null, Node::Null);
}

proof fn lemma_alter_untouched(table: Node)
    requires
        !some_changes(alter_findings(table)),
    ensures
        repaired_alter(table) == table,
{
    let operations = items(field(table, "operations"@));
    let of = |operation: Node| operation_findings(operation);
    let kind = |operation: Node| !adds_foreign_key(operation);
    assert forall|k: int| 0 <= k < operations.len() implies kind(#[trigger] operations[k])
        && repaired_operation(operations[k]) == operations[k] by {
        let operation = operations[k];
        lemma_each_no_change(operations, of, k);
        if adds_foreign_key(operation) {
            reveal_strlit("AddColumn");
            reveal_strlit("AddConstraint");
            assert("AddColumn"@.len() != "AddConstraint"@.len());
            assert(changes(of(operation)[0]));
        }
        if is_variant(operation, "AddColumn"@) {
            lemma_variant_field(operation, "AddColumn"@);
            let part = field(operation, "AddColumn"@);
            lemma_column_untouched(field(payload(operation), "column_def"@));
            lemma_with_field(part, "column_def"@, Node::Null, Node::Null);
            lemma_with_field(operation, "AddColumn"@, Node::Null, Node::Null);
        }
    }
    lemma_filter_all(operations, kind);
    assert(operations.map_values(|operation: Node| repaired_operation(operation)) =~= operations);
    lemma_with_field(table, "operations"@, Node::Null, Node::Null);
}

/// What a variant holds is its one field, where it has one.
pub proof fn lemma_variant_field(node: Node, name: Seq<char>)
    requires
        is_variant(node, name),
    ensures
        field(node, name) == payload(node),
        forall|value: Node|
            is_variant(#[trigger] with_field(node, name, value), name) && (node is Record
                ==> payload(with_field(node, name, value)) == value),
{
    if let Node::Record(fields) = node {
        assert forall|value: Node|
            is_variant(#[trigger] with_field(node, name, value), name) && payload(
                with_field(node, name, value),
            ) == value by {
            assert(replaced(fields, name, value) =~= seq![(name, value)]);
        }
    }
}

/// A statement that no rule claims to have changed stays as it is.
pub proof fn repairs_are_reported(statement: Node)
    requires
        !some_changes(rule_findings(statement)),
    ensures
        repaired(statement) == statement,
{
    if let Some(name) = variant(statement) {
        lemma_variant_field(statement, name);
        lemma_with_field(statement, name, Node::Null, Node::Null);
        let body = payload(statement);
        if name == "CreateTable"@ {
            lemma_table_untouched(body);
        } else if name == "AlterTable"@ {
            lemma_alter_untouched(body);
        } else if name == "CreateIndex"@ {
            lemma_index_untouched(body);
        }
    }
}

proof fn lemma_index_untouched(index: Node)
    requires
        !some_changes(index_findings(index)),
    ensures
        repaired_index(index) == index,
{
    let first = found(field(index, "concurrently"@) == Node::Flag(true), concurrently_finding());
    if lacks_async(index) {
        assert(index_findings(index)[first.len() as int] == async_finding());
        assert(changes(index_findings(index)[first.len() as int]));
    }
}

/// Whether what is said after a repair was said before, and names nothing that could be repaired.
pub open spec fn settles(after: Seq<Finding>, before: Seq<Finding>) -> bool {
    forall|i: int|
        0 <= i < after.len() ==> (#[trigger] after[i]).fix is Unfixable && before.contains(after[i])
}

proof fn lemma_settles_add(
    a: Seq<Finding>,
    b: Seq<Finding>,
    before_a: Seq<Finding>,
    before_b: Seq<Finding>,
)
    requires
        settles(a, before_a),
        settles(b, before_b),
    ensures
        settles(a + b, before_a + before_b),
{
    assert forall|i: int| 0 <= i < (a + b).len() implies (#[trigger] (a + b)[i]).fix is Unfixable
        && (before_a + before_b).contains((a + b)[i]) by {
        if i < a.len() {
            assert(before_a.contains(a[i]));
            let j = choose|j: int| 0 <= j < before_a.len() && before_a[j] == a[i];
            assert((before_a + before_b)[j] == a[i]);
        } else {
            let k = i - a.len();
            assert(before_b.contains(b[k]));
            let j = choose|j: int| 0 <= j < before_b.len() && before_b[j] == b[k];
            assert((before_a + before_b)[before_a.len() + j] == b[k]);
        }
    }
}

proof fn lemma_each_settles(
    after: Seq<Node>,
    of_after: spec_fn(Node) -> Seq<Finding>,
    before: Seq<Node>,
    of_before: spec_fn(Node) -> Seq<Finding>,
)
    requires
        after.len() == before.len(),
        forall|k: int|
            0 <= k < after.len() ==> settles(of_after(#[trigger] after[k]), of_before(before[k])),
    ensures
        settles(each(after, of_after), each(before, of_before)),
    decreases after.len(),
{
    if after.len() > 0 {
        assert forall|k: int| 0 <= k < after.drop_last().len() implies settles(
            of_after(#[trigger] after.drop_last()[k]),
            of_before(before.drop_last()[k]),
        ) by {
            assert(after.drop_last()[k] == after[k]);
        }
        lemma_each_settles(after.drop_last(), of_after, before.drop_last(), of_before);
        assert(after[after.len() - 1] == after.last());
        lemma_settles_add(
            each(after.drop_last(), of_after),
            of_after(after.last()),
            each(before.drop_last(), of_before),
            of_before(before.last()),
        );
    }
}

proof fn lemma_filter_settles(
    nodes: Seq<Node>,
    kind: spec_fn(Node) -> bool,
    change: spec_fn(Node) -> Node,
    of_after: spec_fn(Node) -> Seq<Finding>,
    of_before: spec_fn(Node) -> Seq<Finding>,
)
    requires
        forall|k: int|
            0 <= k < nodes.len() && kind(#[trigger] nodes[k]) ==> settles(
                of_after(change(nodes[k])),
                of_before(nodes[k]),
            ),
    ensures
        settles(each(nodes.filter(kind).map_values(change), of_after), each(nodes, of_before)),
    decreases nodes.len(),
{
    reveal(Seq::filter);
    if nodes.len() > 0 {
        let front = nodes.drop_last();
        let last = nodes.last();
        assert forall|k: int| 0 <= k < front.len() && kind(#[trigger] front[k]) implies settles(
            of_after(change(front[k])),
            of_before(front[k]),
        ) by {
            assert(front[k] == nodes[k]);
        }
        lemma_filter_settles(front, kind, change, of_after, of_before);
        let kept = front.filter(kind).map_values(change);
        assert(nodes[nodes.len() - 1] == last);
        if kind(last) {
            let all = nodes.filter(kind).map_values(change);
            assert(all =~= kept.push(change(last)));
            assert(all.drop_last() =~= kept);
            lemma_settles_add(
                each(kept, of_after),
                of_after(change(last)),
                each(front, of_before),
                of_before(last),
            );
        } else {
            lemma_settles_add(
                each(kept, of_after),
                Seq::empty(),
                each(front, of_before),
                of_before(last),
            );
            assert(each(kept, of_after) + Seq::<Finding>::empty() =~= each(kept, of_after));
        }
    }
}

proof fn lemma_first_field(name: Seq<char>, value: Node, rest: Seq<(Seq<char>, Node)>)
    ensures
        lookup(seq![(name, value)] + rest, name) == value,
        forall|other: Seq<char>|
            other != name ==> #[trigger] lookup(seq![(name, value)] + rest, other) == lookup(
                rest,
                other,
            ),
{
    assert((seq![(name, value)] + rest).drop_first() =~= rest);
}

proof fn lemma_one_is_valid()
    ensures
        valid_cache(one()),
{
    reveal_strlit("1");
    let literal = Node::Record(
        seq![("Number"@, Node::List(seq![Node::Text("1"@), Node::Flag(false)]))],
    );
    let span = Node::Record(seq![("start"@, location()), ("end"@, location())]);
    let fields = seq![("value"@, literal), ("span"@, span)];
    assert(fields =~= seq![("value"@, literal)] + seq![("span"@, span)]);
    lemma_first_field("value"@, literal, seq![("span"@, span)]);
    assert(payload(one()) == Node::Record(fields));
    assert(field(payload(one()), "value"@) == literal);
    assert("1"@ =~= seq!['1']);
    assert(numeral("1"@) == Some(1nat));
}

proof fn lemma_identity_option_is_clean()
    ensures
        option_findings(big_int_type(), identity_option()) == Seq::<Finding>::empty(),
{
    reveal_strlit("name");
    reveal_strlit("option");
    reveal_strlit("ForeignKey");
    reveal_strlit("Generated");
    reveal_strlit("generated_as");
    reveal_strlit("sequence_options");
    reveal_strlit("generation_expr");
    let cache = Node::Record(seq![("Cache"@, one())]);
    let last = seq![
        ("generation_expr"@, Node::Null),
        ("generation_expr_mode"@, Node::Null),
        ("generated_keyword"@, Node::Flag(true)),
    ];
    let middle = seq![("sequence_options"@, Node::List(seq![cache]))] + last;
    let fields = seq![("generated_as"@, Node::Text("ByDefault"@))] + middle;
    let generated = Node::Record(fields);
    let option = Node::Record(seq![("Generated"@, generated)]);
    assert("name"@.len() != "option"@.len());
    assert("ForeignKey"@.len() != "Generated"@.len());
    assert("generated_as"@.len() != "sequence_options"@.len());
    assert("generated_as"@.len() != "generation_expr"@.len());
    assert("sequence_options"@.len() != "generation_expr"@.len());
    assert(fields =~= seq![
        ("generated_as"@, Node::Text("ByDefault"@)),
        ("sequence_options"@, Node::List(seq![cache])),
        ("generation_expr"@, Node::Null),
        ("generation_expr_mode"@, Node::Null),
        ("generated_keyword"@, Node::Flag(true)),
    ]);
    assert(seq![("name"@, Node::Null), ("option"@, option)] =~= seq![("name"@, Node::Null)] + seq![
        ("option"@, option),
    ]);
    lemma_first_field("name"@, Node::Null, seq![("option"@, option)]);
    assert(seq![("option"@, option)] =~= seq![("option"@, option)] + Seq::empty());
    lemma_first_field("option"@, option, Seq::empty());
    assert(field(identity_option(), "option"@) == option);
    lemma_first_field("generated_as"@, Node::Text("ByDefault"@), middle);
    lemma_first_field("sequence_options"@, Node::List(seq![cache]), last);
    assert(field(generated, "generated_as"@) == Node::Text("ByDefault"@));
    assert(field(generated, "sequence_options"@) == Node::List(seq![cache]));
    assert(last[0] == ("generation_expr"@, Node::Null));
    assert(field(generated, "generation_expr"@) is Null);
    assert(is_identity(identity_option()));
    assert(seq![cache].last() == cache);
    assert(cache_option(seq![cache]) == Some(one()));
    lemma_one_is_valid();
    assert(identity_findings(big_int_type(), identity_option()) =~= Seq::empty());
}

proof fn lemma_column_settles(column: Node)
    ensures
        settles(column_findings(repaired_column(column)), column_findings(column)),
        settles(
            added_column_findings(repaired_added_column(column)),
            added_column_findings(column),
        ),
{
    lemma_created_column_settles(column);
    lemma_added_column_settles(column);
}

proof fn lemma_added_column_settles(column: Node)
    ensures
        settles(
            added_column_findings(repaired_added_column(column)),
            added_column_findings(column),
        ),
{
    let after = repaired_added_column(column);
    let data_type = field(column, "data_type"@);
    let options = field(column, "options"@);
    let of = |option: Node| added_option_findings(option);
    reveal_strlit("data_type");
    reveal_strlit("options");
    assert("data_type"@.len() != "options"@.len());
    lemma_field_of_with_field(column, "options"@, unreferenced(options), "data_type"@);
    lemma_with_field(column, "options"@, Node::Null, Node::Null);
    assert(field(after, "options"@) == unreferenced(options));
    let kind = |option: Node| !is_foreign_key(option);
    let same = |option: Node| option;
    assert forall|k: int| 0 <= k < items(options).len() && kind(#[trigger] items(options)[k])
        implies settles(of(same(items(options)[k])), of(items(options)[k])) by {
        let found = of(items(options)[k]);
        assert(forall|i: int| 0 <= i < found.len() ==> found.contains(#[trigger] found[i]));
    }
    lemma_filter_settles(items(options), kind, same, of, of);
    assert(items(options).filter(kind).map_values(same) =~= items(options).filter(kind));
    let types = type_findings(data_type, Fix::Unfixable);
    assert(forall|i: int| 0 <= i < types.len() ==> types.contains(#[trigger] types[i]));
    lemma_settles_add(
        types,
        each(items(unreferenced(options)), of),
        types,
        each(items(options), of),
    );
}

proof fn lemma_created_column_settles(column: Node)
    ensures
        settles(column_findings(repaired_column(column)), column_findings(column)),
{
    let after = repaired_column(column);
    let data_type = field(column, "data_type"@);
    let options = field(column, "options"@);
    let kept = unreferenced(options);
    let of = |option: Node| option_findings(data_type, option);
    let kind = |option: Node| !is_foreign_key(option);
    let same = |option: Node| option;
    let types = type_findings(data_type, serial_fix());
    reveal_strlit("data_type");
    reveal_strlit("options");
    assert("data_type"@.len() != "options"@.len());
    assert(items(options).filter(kind).map_values(same) =~= items(options).filter(kind));
    if serial_name(data_type) is Some {
        let narrow = |option: Node| option_findings(big_int_type(), option);
        lemma_field_of_with_field(column, "data_type"@, big_int_type(), "options"@);
        let typed = with_field(column, "data_type"@, big_int_type());
        lemma_field_of_with_field(typed, "options"@, identified(kept), "data_type"@);
        lemma_with_field(typed, "options"@, Node::Null, Node::Null);
        assert(field(after, "data_type"@) == big_int_type());
        lemma_big_int_is_clean();
        assert forall|k: int| 0 <= k < items(options).len() && kind(#[trigger] items(options)[k])
            implies settles(narrow(same(items(options)[k])), of(items(options)[k])) by {
            lemma_narrow_settles(data_type, items(options)[k]);
        }
        lemma_filter_settles(items(options), kind, same, narrow, of);
        lemma_identity_option_is_clean();
        lemma_each_prepend(identity_option(), items(kept), narrow);
        assert(settles(Seq::<Finding>::empty(), types));
        lemma_settles_add(
            Seq::empty(),
            each(items(field(after, "options"@)), narrow),
            types,
            each(items(options), of),
        );
    } else {
        lemma_field_of_with_field(column, "options"@, kept, "data_type"@);
        lemma_with_field(column, "options"@, Node::Null, Node::Null);
        assert forall|k: int| 0 <= k < items(options).len() && kind(#[trigger] items(options)[k])
            implies settles(of(same(items(options)[k])), of(items(options)[k])) by {
            let found = of(items(options)[k]);
            assert(forall|i: int| 0 <= i < found.len() ==> found.contains(#[trigger] found[i]));
        }
        lemma_filter_settles(items(options), kind, same, of, of);
        assert(forall|i: int| 0 <= i < types.len() ==> types.contains(#[trigger] types[i]));
        lemma_settles_add(types, each(items(kept), of), types, each(items(options), of));
    }
}

proof fn lemma_big_int_is_clean()
    ensures
        type_findings(big_int_type(), serial_fix()) == Seq::<Finding>::empty(),
{
    reveal_strlit("BigInt");
    reveal_strlit("Custom");
    reveal_strlit("JSON");
    reveal_strlit("JSONB");
    reveal_strlit("Array");
    assert("BigInt"@[0] != "Custom"@[0]);
    assert("BigInt"@.len() != "JSON"@.len());
    assert("BigInt"@.len() != "JSONB"@.len());
    assert("BigInt"@.len() != "Array"@.len());
}

proof fn lemma_narrow_settles(data_type: Node, option: Node)
    requires
        !is_foreign_key(option),
    ensures
        settles(option_findings(big_int_type(), option), option_findings(data_type, option)),
{
    let after = option_findings(big_int_type(), option);
    let before = option_findings(data_type, option);
    if is_identity(option) {
        assert forall|i: int| 0 <= i < after.len() implies (#[trigger] after[i]).fix is Unfixable
            && before.contains(after[i]) by {
            assert(before[before.len() - 1] == after[i]);
        }
    }
}

proof fn lemma_each_prepend(first: Node, rest: Seq<Node>, of: spec_fn(Node) -> Seq<Finding>)
    ensures
        each(seq![first] + rest, of) == of(first) + each(rest, of),
    decreases rest.len(),
{
    let all = seq![first] + rest;
    if rest.len() == 0 {
        assert(all =~= seq![first]);
        assert(all.drop_last() =~= Seq::empty());
        assert(each(all.drop_last(), of) =~= Seq::empty());
        assert(each(all, of) =~= of(first) + each(rest, of));
    } else {
        lemma_each_prepend(first, rest.drop_last(), of);
        assert(all.drop_last() =~= seq![first] + rest.drop_last());
        assert(all.last() == rest.last());
        assert(each(all, of) =~= of(first) + each(rest, of));
    }
}

proof fn lemma_settles_self(all: Seq<Finding>)
    requires
        !some_changes(all),
    ensures
        settles(all, all),
{
    assert forall|i: int| 0 <= i < all.len() implies (#[trigger] all[i]).fix is Unfixable
        && all.contains(all[i]) by {
        assert(!changes(all[i]));
    }
}

proof fn lemma_table_settles(table: Node)
    ensures
        settles(table_findings(repaired_table(table)), table_findings(table)),
{
    let columns = field(table, "columns"@);
    let constraints = field(table, "constraints"@);
    let middle = with_field(table, "columns"@, repaired_columns(columns));
    let after = repaired_table(table);
    lemma_repaired_clauses(table);
    assert(field(after, "columns"@) == repaired_columns(columns) && field(after, "constraints"@)
        == repaired_constraints(constraints)) by {
        reveal_strlit("columns");
        reveal_strlit("constraints");
        assert("columns"@.len() != "constraints"@.len());
        lemma_with_field(table, "columns"@, Node::Null, Node::Null);
        lemma_with_field(middle, "constraints"@, Node::Null, Node::Null);
        lemma_field_of_with_field(
            table,
            "columns"@,
            repaired_columns(columns),
            "constraints"@,
        );
        lemma_field_of_with_field(
            middle,
            "constraints"@,
            repaired_constraints(constraints),
            "columns"@,
        );
    }
    let of_column = |column: Node| column_findings(column);
    let of_constraint = |constraint: Node| constraint_findings(constraint);
    let clauses = clause_findings(table);
    assert(!some_changes(clauses));
    lemma_settles_self(clauses);
    let all = items(columns);
    let fixed = all.map_values(|column: Node| repaired_column(column));
    assert(items(repaired_columns(columns)) =~= fixed);
    assert forall|k: int| 0 <= k < fixed.len() implies settles(
        of_column(#[trigger] fixed[k]),
        of_column(all[k]),
    ) by {
        lemma_column_settles(all[k]);
    }
    lemma_each_settles(fixed, of_column, all, of_column);
    lemma_settles_add(clauses, each(fixed, of_column), clauses, each(all, of_column));
    let kind = |constraint: Node| !is_variant(constraint, "ForeignKey"@);
    let same = |constraint: Node| constraint;
    let held = items(constraints);
    lemma_filter_settles(held, kind, same, of_constraint, of_constraint);
    assert(held.filter(kind).map_values(same) =~= held.filter(kind));
    assert(items(repaired_constraints(constraints)) =~= held.filter(kind)) by {
        reveal(Seq::filter);
    }
    lemma_settles_add(
        clauses + each(fixed, of_column),
        each(held.filter(kind), of_constraint),
        clauses + each(all, of_column),
        each(held, of_constraint),
    );
}

proof fn lemma_repaired_clauses(table: Node)
    ensures
        clause_findings(repaired_table(table)) == clause_findings(table),
{
    let columns = repaired_columns(field(table, "columns"@));
    let constraints = repaired_constraints(field(table, "constraints"@));
    let middle = with_field(table, "columns"@, columns);
    reveal_strlit("columns");
    reveal_strlit("constraints");
    reveal_strlit("temporary");
    reveal_strlit("partition_by");
    reveal_strlit("inherits");
    reveal_strlit("query");
    reveal_strlit("table_options");
    assert forall|name: Seq<char>|
        name.len() != 7 && name.len() != 11 implies #[trigger] field(repaired_table(table), name)
        == field(table, name) by {
        assert("columns"@.len() == 7 && "constraints"@.len() == 11);
        lemma_field_of_with_field(table, "columns"@, columns, name);
        lemma_field_of_with_field(middle, "constraints"@, constraints, name);
    }
    assert("temporary"@.len() == 9);
    assert("partition_by"@.len() == 12);
    assert("inherits"@.len() == 8);
    assert("query"@.len() == 5);
    assert("table_options"@.len() == 13);
}

proof fn lemma_operation_settles(operation: Node)
    requires
        !adds_foreign_key(operation),
    ensures
        settles(operation_findings(repaired_operation(operation)), operation_findings(operation)),
{
    if is_variant(operation, "AddColumn"@) {
        lemma_variant_field(operation, "AddColumn"@);
        let part = payload(operation);
        let column = field(part, "column_def"@);
        lemma_column_settles(column);
        if operation is Record {
            lemma_with_field(part, "column_def"@, Node::Null, Node::Null);
            lemma_field_of_with_field(
                part,
                "column_def"@,
                repaired_added_column(column),
                "column_def"@,
            );
        }
    } else {
        lemma_settles_self(operation_findings(operation));
    }
}

proof fn lemma_alter_settles(table: Node)
    ensures
        settles(alter_findings(repaired_alter(table)), alter_findings(table)),
{
    let operations = field(table, "operations"@);
    let of = |operation: Node| operation_findings(operation);
    let kind = |operation: Node| !adds_foreign_key(operation);
    let change = |operation: Node| repaired_operation(operation);
    let all = items(operations);
    lemma_with_field(table, "operations"@, Node::Null, Node::Null);
    lemma_field_of_with_field(
        table,
        "operations"@,
        repaired_operations(operations),
        "operations"@,
    );
    assert forall|k: int| 0 <= k < all.len() && kind(#[trigger] all[k]) implies settles(
        of(change(all[k])),
        of(all[k]),
    ) by {
        lemma_operation_settles(all[k]);
    }
    lemma_filter_settles(all, kind, change, of, of);
    assert(items(repaired_operations(operations)) =~= all.filter(kind).map_values(change)) by {
        reveal(Seq::filter);
    }
}

proof fn lemma_index_settles(index: Node)
    requires
        field(index, "async"@) is Flag,
    ensures
        settles(index_findings(repaired_index(index)), index_findings(index)),
{
    let after = repaired_index(index);
    reveal_strlit("async");
    reveal_strlit("concurrently");
    reveal_strlit("using");
    reveal_strlit("index_options");
    reveal_strlit("columns");
    reveal_strlit("predicate");
    assert("concurrently"@.len() != "async"@.len());
    assert("using"@[0] != "async"@[0]);
    assert("index_options"@.len() != "async"@.len());
    assert("columns"@.len() != "async"@.len());
    assert("predicate"@.len() != "async"@.len());
    lemma_field_of_with_field(index, "async"@, Node::Flag(true), "concurrently"@);
    lemma_field_of_with_field(index, "async"@, Node::Flag(true), "using"@);
    lemma_field_of_with_field(index, "async"@, Node::Flag(true), "index_options"@);
    lemma_field_of_with_field(index, "async"@, Node::Flag(true), "columns"@);
    lemma_field_of_with_field(index, "async"@, Node::Flag(true), "predicate"@);
    assert(!lacks_async(after));
    let first = found(field(index, "concurrently"@) == Node::Flag(true), concurrently_finding());
    let third = found(
        !(field(index, "using"@) is Null) || some_variant(
            items(field(index, "index_options"@)),
            "Using"@,
        ),
        using_finding(),
    );
    let fourth = found(some_expression(items(field(index, "columns"@))), expression_finding());
    let fifth = found(!(field(index, "predicate"@) is Null), partial_finding());
    let second = found(lacks_async(index), async_finding());
    lemma_settles_self(first);
    lemma_settles_self(third);
    lemma_settles_self(fourth);
    lemma_settles_self(fifth);
    lemma_settles_add(first, Seq::empty(), first, second);
    lemma_settles_add(first + Seq::empty(), third, first + second, third);
    lemma_settles_add(first + Seq::empty() + third, fourth, first + second + third, fourth);
    lemma_settles_add(
        first + Seq::empty() + third + fourth,
        fifth,
        first + second + third + fourth,
        fifth,
    );
}

/// A repaired statement breaks no rule that can be repaired, and none that the statement did not
/// break before: the rules repair all that they claim to, and a repair brings in nothing new. An
/// index must say whether it is `ASYNC`, as every index that was parsed does.
pub proof fn repairs_are_complete(statement: Node)
    requires
        is_variant(statement, "CreateIndex"@) ==> field(payload(statement), "async"@) is Flag,
    ensures
        settles(rule_findings(repaired(statement)), rule_findings(statement)),
{
    if let Some(name) = variant(statement) {
        let body = payload(statement);
        lemma_variant_field(statement, name);
        lemma_with_field(statement, name, Node::Null, Node::Null);
        if name == "CreateTable"@ {
            lemma_table_settles(body);
            if !(statement is Record) {
                lemma_bare_table(body);
            }
        } else if name == "AlterTable"@ {
            lemma_alter_settles(body);
            if !(statement is Record) {
                lemma_bare_table(body);
            }
        } else if name == "CreateIndex"@ {
            lemma_index_settles(body);
        } else {
            lemma_others_settle(body, name);
        }
    }
}

proof fn lemma_bare_table(body: Node)
    requires
        body is Null,
    ensures
        settles(table_findings(body), table_findings(body)),
        settles(alter_findings(body), alter_findings(body)),
{
    assert(table_findings(body) =~= Seq::empty());
    assert(alter_findings(body) =~= Seq::empty());
}

proof fn lemma_others_settle(body: Node, name: Seq<char>)
    ensures
        settles(sequence_findings(body), sequence_findings(body)),
        settles(view_findings(body), view_findings(body)),
        settles(start_findings(body), start_findings(body)),
        settles(set_findings(body), set_findings(body)),
        settles(rollback_findings(body), rollback_findings(body)),
        settles(copy_findings(body), copy_findings(body)),
        settles(named_findings(name), named_findings(name)),
        settles(seq![truncate_finding()], seq![truncate_finding()]),
{
    lemma_settles_self(sequence_findings(body));
    lemma_settles_self(view_findings(body));
    lemma_settles_self(start_findings(body));
    lemma_settles_self(set_findings(body));
    lemma_settles_self(rollback_findings(body));
    lemma_settles_self(copy_findings(body));
    lemma_settles_self(named_findings(name));
    lemma_settles_self(seq![truncate_finding()]);
}

/// No rule speaks against `COMMIT`.
pub proof fn commits_break_no_rule(statement: Node)
    requires
        is_variant(statement, "Commit"@),
    ensures
        rule_findings(statement) == Seq::<Finding>::empty(),
{
    reveal_strlit("Commit");
    reveal_strlit("CreateTable");
    reveal_strlit("AlterTable");
    reveal_strlit("CreateIndex");
    reveal_strlit("CreateSequence");
    reveal_strlit("CreateView");
    reveal_strlit("StartTransaction");
    reveal_strlit("Set");
    reveal_strlit("Rollback");
    reveal_strlit("Copy");
    reveal_strlit("Truncate");
    reveal_strlit("CreateTrigger");
    reveal_strlit("CreateExtension");
    reveal_strlit("CreateDatabase");
    reveal_strlit("CreatePolicy");
    reveal_strlit("CreateType");
    reveal_strlit("CreateServer");
    reveal_strlit("AlterIndex");
    reveal_strlit("Savepoint");
    reveal_strlit("ReleaseSavepoint");
    reveal_strlit("Declare");
    reveal_strlit("Lock");
    reveal_strlit("Vacuum");
    let name = "Commit"@;
    assert(name.len() == 6);
    assert("Vacuum"@[0] == 'V' && name[0] == 'C');
    assert(statement_phrase(name) is None);
    assert(variant(statement) == Some(name));
}

} // verus!
