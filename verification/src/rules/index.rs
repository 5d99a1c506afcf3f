//! Rules on `CREATE INDEX`.

use vstd::prelude::*;

use crate::diagnostic::{findings, issue, report, Diagnostic, Finding, Fix, FixResult, LintRule};
use crate::rules::column::list_items;
use crate::rules::table::{any_variant, found, has_field, has_flag, report_where, some_variant};
use crate::syntax::{
    field, is_variant, item_nodes, items, lemma_item_nodes, with_field, Node, Tree,
};

verus! {

/// What is said against an index that is built concurrently.
pub open spec fn concurrently_finding() -> Finding {
    issue(
        LintRule::IndexConcurrently,
        "CREATE INDEX CONCURRENTLY is not supported in DSQL."@,
        "Use CREATE INDEX ASYNC."@,
        Fix::Unfixable,
    )
}

/// What is said against an index that is not built asynchronously.
pub open spec fn async_finding() -> Finding {
    issue(
        LintRule::IndexAsync,
        "CREATE INDEX without ASYNC is not supported in DSQL."@,
        "Use CREATE INDEX ASYNC."@,
        Fix::Fixed("Added ASYNC to CREATE INDEX."@),
    )
}

/// What is said against the choice of an access method.
pub open spec fn using_finding() -> Finding {
    issue(
        LintRule::IndexUsing,
        "The USING clause of CREATE INDEX is not supported in DSQL."@,
        "Remove the clause."@,
        Fix::Unfixable,
    )
}

/// What is said against an index on an expression.
pub open spec fn expression_finding() -> Finding {
    issue(
        LintRule::IndexExpression,
        "Expression indexes are not supported in DSQL."@,
        "Store the value in a column and index the column."@,
        Fix::Unfixable,
    )
}

/// What is said against a partial index.
pub open spec fn partial_finding() -> Finding {
    issue(
        LintRule::IndexPartial,
        "Partial indexes are not supported in DSQL."@,
        "Remove the WHERE clause."@,
        Fix::Unfixable,
    )
}

/// Whether a part of an index is something else than a plain column.
pub open spec fn is_expression(column: Node) -> bool {
    !is_variant(field(field(column, "column"@), "expr"@), "Identifier"@)
}

/// Whether an index has a part that is no plain column.
pub open spec fn some_expression(columns: Seq<Node>) -> bool {
    exists|i: int| 0 <= i < columns.len() && is_expression(#[trigger] columns[i])
}

/// Whether an index lacks `ASYNC` alone.
pub open spec fn lacks_async(index: Node) -> bool {
    field(index, "concurrently"@) != Node::Flag(true) && field(index, "async"@) != Node::Flag(true)
}

/// What is said against `CREATE INDEX`.
pub open spec fn index_findings(index: Node) -> Seq<Finding> {
    found(field(index, "concurrently"@) == Node::Flag(true), concurrently_finding()) + found(
        lacks_async(index),
        async_finding(),
    ) + found(
        !(field(index, "using"@) is Null) || some_variant(
            items(field(index, "index_options"@)),
            "Using"@,
        ),
        using_finding(),
    ) + found(some_expression(items(field(index, "columns"@))), expression_finding()) + found(
        !(field(index, "predicate"@) is Null),
        partial_finding(),
    )
}

/// An index once it is built asynchronously.
pub open spec fn repaired_index(index: Node) -> Node {
    if lacks_async(index) {
        with_field(index, "async"@, Node::Flag(true))
    } else {
        index
    }
}

/// Whether an index has a part that is no plain column.
fn any_expression(columns: &Tree) -> (r: bool)
    ensures
        r == some_expression(items(columns@)),
{
    match list_items(columns) {
        Some(list) => {
            let ghost all = item_nodes(list@);
            let mut i: usize = 0;
            assert(all.len() == list@.len()) by {
                lemma_item_nodes(list@);
            }
            while i < list.len()
                invariant
                    i <= list@.len(),
                    all == item_nodes(list@),
                    all.len() == list@.len(),
                    columns@ == Node::List(all),
                    forall|j: int| 0 <= j < i ==> !is_expression(#[trigger] all[j]),
                decreases list@.len() - i,
            {
                broadcast use lemma_item_nodes;

                assert(all[i as int] == list@[i as int]@);
                if !list[i].field("column").field("expr").is_variant("Identifier") {
                    return true;
                }
                i += 1;
            }
            false
        },
        None => false,
    }
}

/// Whether an index lacks `ASYNC` alone.
fn check_lacks_async(index: &Tree) -> (r: bool)
    ensures
        r == lacks_async(index@),
{
    !has_flag(index, "concurrently") && !has_flag(index, "async")
}

/// Checks `CREATE INDEX`.
pub fn check_index(index: &Tree, diagnostics: &mut Vec<Diagnostic>)
    ensures
        findings(final(diagnostics)@) == findings(old(diagnostics)@) + index_findings(index@),
{
    report_where(
        has_flag(index, "concurrently"),
        diagnostics,
        LintRule::IndexConcurrently,
        "CREATE INDEX CONCURRENTLY is not supported in DSQL.",
        "Use CREATE INDEX ASYNC.",
    );
    let ghost before = findings(diagnostics@);
    if check_lacks_async(index) {
        report(
            diagnostics,
            LintRule::IndexAsync,
            "CREATE INDEX without ASYNC is not supported in DSQL.",
            "Use CREATE INDEX ASYNC.",
            FixResult::Fixed("Added ASYNC to CREATE INDEX.".to_owned()),
        );
    }
    assert(findings(diagnostics@) =~= before + found(lacks_async(index@), async_finding()));
    report_where(
        has_field(index, "using") || any_variant(index.field("index_options"), "Using"),
        diagnostics,
        LintRule::IndexUsing,
        "The USING clause of CREATE INDEX is not supported in DSQL.",
        "Remove the clause.",
    );
    report_where(
        any_expression(index.field("columns")),
        diagnostics,
        LintRule::IndexExpression,
        "Expression indexes are not supported in DSQL.",
        "Store the value in a column and index the column.",
    );
    report_where(
        has_field(index, "predicate"),
        diagnostics,
        LintRule::IndexPartial,
        "Partial indexes are not supported in DSQL.",
        "Remove the WHERE clause.",
    );
    assert(findings(diagnostics@) =~= findings(old(diagnostics)@) + index_findings(index@));
}

/// Repairs an index.
pub fn repair_index(index: &mut Tree)
    ensures
        final(index)@ == repaired_index(old(index)@),
{
    if check_lacks_async(index) {
        let flag = Tree::Flag(true);
        assert(flag@ == Node::Flag(true));
        index.set_field("async", flag);
    }
}

} // verus!
