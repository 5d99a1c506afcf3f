//! The rules of DSQL that a statement can break.

pub mod breaches;
pub mod column;
pub mod index;
pub mod laws;
pub mod repairs;
pub mod statement;
pub mod table;
pub mod wording;

use vstd::prelude::*;

use crate::diagnostic::{findings, Diagnostic, Finding};
use crate::rules::index::{check_index, index_findings, repair_index, repaired_index};
use crate::rules::statement::{
    check_copy, check_named, check_rollback, check_sequence, check_set, check_start, check_view,
    report_truncate,
};
use crate::rules::statement::{
    copy_findings, named_findings, rollback_findings, sequence_findings, set_findings,
    start_findings, truncate_finding, view_findings,
};
use crate::rules::table::{check_alter, check_table, repair_alter, repair_table};
use crate::rules::table::{alter_findings, repaired_alter, repaired_table, table_findings};
use crate::syntax::{field, lemma_with_field, payload, variant, with_field, Node, Tree};
use crate::text::same_text;

verus! {

/// What the rules say against a statement.
pub open spec fn rule_findings(statement: Node) -> Seq<Finding> {
    let body = payload(statement);
    match variant(statement) {
        None => Seq::empty(),
        Some(name) => if name == "CreateTable"@ {
            table_findings(body)
        } else if name == "AlterTable"@ {
            alter_findings(body)
        } else if name == "CreateIndex"@ {
            index_findings(body)
        } else if name == "CreateSequence"@ {
            sequence_findings(body)
        } else if name == "CreateView"@ {
            view_findings(body)
        } else if name == "StartTransaction"@ {
            start_findings(body)
        } else if name == "Set"@ {
            set_findings(body)
        } else if name == "Rollback"@ {
            rollback_findings(body)
        } else if name == "Copy"@ {
            copy_findings(body)
        } else if name == "Truncate"@ {
            seq![truncate_finding()]
        } else {
            named_findings(name)
        },
    }
}

/// A statement once the rules have fixed what they can.
pub open spec fn repaired(statement: Node) -> Node {
    match variant(statement) {
        None => statement,
        Some(name) => if name == "CreateTable"@ {
            with_field(statement, name, repaired_table(field(statement, name)))
        } else if name == "AlterTable"@ {
            with_field(statement, name, repaired_alter(field(statement, name)))
        } else if name == "CreateIndex"@ {
            with_field(statement, name, repaired_index(field(statement, name)))
        } else {
            statement
        },
    }
}

/// Checks one statement against every rule.
fn check(stmt: &Tree, diagnostics: &mut Vec<Diagnostic>)
    ensures
        findings(final(diagnostics)@) == findings(old(diagnostics)@) + rule_findings(stmt@),
{
    let body = stmt.payload();
    match stmt.variant() {
        None => {
            assert(findings(diagnostics@) =~= findings(old(diagnostics)@) + rule_findings(stmt@));
        },
        Some(name) => if same_text(name, "CreateTable") {
            check_table(body, diagnostics);
        } else if same_text(name, "AlterTable") {
            check_alter(body, diagnostics);
        } else if same_text(name, "CreateIndex") {
            check_index(body, diagnostics);
        } else if same_text(name, "CreateSequence") {
            check_sequence(body, diagnostics);
        } else if same_text(name, "CreateView") {
            check_view(body, diagnostics);
        } else if same_text(name, "StartTransaction") {
            check_start(body, diagnostics);
        } else if same_text(name, "Set") {
            check_set(body, diagnostics);
        } else if same_text(name, "Rollback") {
            check_rollback(body, diagnostics);
        } else if same_text(name, "Copy") {
            check_copy(body, diagnostics);
        } else if same_text(name, "Truncate") {
            report_truncate(diagnostics);
        } else {
            check_named(name, diagnostics);
        },
    }
}

/// Repairs what the rules can repair.
fn repair(stmt: &mut Tree)
    ensures
        final(stmt)@ == repaired(old(stmt)@),
{
    broadcast use lemma_with_field;

    if stmt.is_variant("CreateTable") {
        let mut table = stmt.take_field("CreateTable");
        repair_table(&mut table);
        stmt.set_field("CreateTable", table);
    } else if stmt.is_variant("AlterTable") {
        let mut table = stmt.take_field("AlterTable");
        repair_alter(&mut table);
        stmt.set_field("AlterTable", table);
    } else if stmt.is_variant("CreateIndex") {
        let mut index = stmt.take_field("CreateIndex");
        repair_index(&mut index);
        stmt.set_field("CreateIndex", index);
    }
}

/// Checks one statement against every rule, and repairs it where a rule knows how.
pub fn check_statement(stmt: &mut Tree, diagnostics: &mut Vec<Diagnostic>)
    ensures
        final(stmt)@ == repaired(old(stmt)@),
        findings(final(diagnostics)@) == findings(old(diagnostics)@) + rule_findings(old(stmt)@),
{
    check(stmt, diagnostics);
    repair(stmt);
}

} // verus!
