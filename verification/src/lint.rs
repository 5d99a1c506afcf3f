//! Linting and fixing SQL.

pub mod laws;
pub mod texts;

use vstd::prelude::*;

use crate::diagnostic::{parse_diagnostic, tokenize_diagnostic, Diagnostic, FixOutput, FixResult};
use crate::diagnostic::{
    findings, lemma_findings_add, lemma_findings_push, parse_finding, tokenize_finding, Finding,
};
use crate::dialect::{nodes, parse_sql, print_statement, printed, sql_syntax, syntax_result};
use crate::lint::laws::{
    all_fixed, comes_back, fixed_sql_is_clean, moved_findings, newlines_move_findings, up_to,
};
use crate::rules::laws::rules_speak_of_the_first_line;
use crate::rules::{check_statement, repaired, rule_findings};
use crate::split::laws::newlines;
use crate::split::{numbered, split_statements, statements_of};
use crate::syntax::{
    field, is_variant, item_nodes, lemma_item_nodes, payload, Node, Tree,
};
use crate::text::{
    blank, join, joined, lemma_blank_trimmed, texts, trim, trim_semicolons, without_semicolons,
};
use crate::transaction::{check_ddl_transactions, fix_ddl_transactions};
use crate::transaction::{parsed_parts, regrouped, transaction_findings};

verus! {

/// What a rule says against a statement, once the statement's own place is known: lines count from
/// the start of the input.
pub open spec fn located(finding: Finding, line: usize, statement: Seq<char>) -> Finding {
    Finding { line: (line + finding.line - 1) as usize, statement, ..finding }
}

/// What the rules say against the statements of a text.
pub open spec fn all_rule_findings(statements: Seq<Node>) -> Seq<Finding>
    decreases statements.len(),
{
    if statements.len() == 0 {
        Seq::empty()
    } else {
        all_rule_findings(statements.drop_last()) + rule_findings(statements.last())
    }
}

/// What is to be said against a text, given what the parser makes of it.
pub open spec fn text_findings(
    line: usize,
    text: Seq<char>,
    syntax: Result<Seq<Node>, Seq<char>>,
) -> Seq<Finding> {
    match syntax {
        Ok(statements) => all_rule_findings(statements).map_values(
            |finding: Finding| located(finding, line, text),
        ),
        Err(error) => seq![parse_finding(line, text, error)],
    }
}

/// What is to be said against each of some texts, one after the other. A blank one is passed over.
pub open spec fn each_text_findings(parts: Seq<(usize, Seq<char>)>) -> Seq<Finding>
    decreases parts.len(),
{
    if parts.len() == 0 {
        Seq::empty()
    } else {
        let (line, text) = parts.last();
        each_text_findings(parts.drop_last()) + (if blank(text) {
            Seq::empty()
        } else {
            text_findings(line, text, sql_syntax(text))
        })
    }
}

/// What is to be said against SQL: against each statement, then against its transactions.
pub open spec fn sql_findings(sql: Seq<char>) -> Seq<Finding> {
    match statements_of(sql) {
        Ok(parts) => each_text_findings(parts) + transaction_findings(parsed_parts(parts)),
        Err(error) => seq![tokenize_finding(error)],
    }
}

pub proof fn lemma_all_rule_lines(statements: Seq<Node>)
    ensures
        forall|i: int|
            0 <= i < all_rule_findings(statements).len() ==> (#[trigger] all_rule_findings(
                statements,
            )[i]).line == 1,
    decreases statements.len(),
{
    if statements.len() > 0 {
        lemma_all_rule_lines(statements.drop_last());
        rules_speak_of_the_first_line(statements.last());
    }
}

/// Gives diagnostics of a statement their place in the input, which starts at `line` for that
/// statement.
pub fn locate(diagnostics: &mut Vec<Diagnostic>, line: usize, statement: &str)
    requires
        forall|i: int|
            0 <= i < old(diagnostics)@.len() ==> {
                &&& 1 <= (#[trigger] old(diagnostics)@[i]).line
                &&& line + old(diagnostics)@[i].line - 1 <= usize::MAX
            },
    ensures
        findings(final(diagnostics)@) == findings(old(diagnostics)@).map_values(
            |finding: Finding| located(finding, line, statement@),
        ),
{
    let ghost all = diagnostics@;
    let mut i: usize = 0;
    while i < diagnostics.len()
        invariant
            i <= diagnostics@.len(),
            diagnostics@.len() == all.len(),
            forall|j: int|
                0 <= j < all.len() ==> {
                    &&& 1 <= (#[trigger] all[j]).line
                    &&& line + all[j].line - 1 <= usize::MAX
                },
            forall|j: int|
                0 <= j < i ==> (#[trigger] diagnostics@[j])@ == located(all[j]@, line, statement@),
            forall|j: int| i <= j < all.len() ==> #[trigger] diagnostics@[j] == all[j],
        decreases diagnostics@.len() - i,
    {
        let diagnostic = &mut diagnostics[i];
        diagnostic.line = line + (diagnostic.line - 1);
        diagnostic.statement = statement.to_owned();
        i += 1;
    }
    assert(findings(diagnostics@) =~= findings(all).map_values(
        |finding: Finding| located(finding, line, statement@),
    ));
}

/// Checks each statement of a text.
fn check_all(stmts: &mut Vec<Tree>) -> (diagnostics: Vec<Diagnostic>)
    ensures
        findings(diagnostics@) == all_rule_findings(nodes(old(stmts)@)),
        nodes(final(stmts)@) == repaired_all(nodes(old(stmts)@)),
        forall|i: int| 0 <= i < diagnostics@.len() ==> (#[trigger] diagnostics@[i]).line == 1,
{
    let ghost all = stmts@;
    let mut diagnostics: Vec<Diagnostic> = Vec::new();
    let mut i: usize = 0;
    assert(findings(diagnostics@) =~= all_rule_findings(nodes(all).take(0)));
    while i < stmts.len()
        invariant
            i <= stmts@.len(),
            stmts@.len() == all.len(),
            findings(diagnostics@) == all_rule_findings(nodes(all).take(i as int)),
            forall|j: int| 0 <= j < i ==> (#[trigger] stmts@[j])@ == repaired(all[j]@),
            forall|j: int| i <= j < all.len() ==> #[trigger] stmts@[j] == all[j],
        decreases stmts@.len() - i,
    {
        proof {
            assert(nodes(all).take(i + 1).drop_last() =~= nodes(all).take(i as int));
            assert(nodes(all).take(i + 1).last() == all[i as int]@);
        }
        check_statement(&mut stmts[i], &mut diagnostics);
        i += 1;
    }
    proof {
        assert(nodes(all).take(i as int) =~= nodes(all));
        assert(nodes(stmts@) =~= repaired_all(nodes(all)));
        lemma_all_rule_lines(nodes(all));
        assert forall|j: int| 0 <= j < diagnostics@.len() implies (#[trigger] diagnostics@[j]).line
            == 1 by {
            assert(findings(diagnostics@)[j] == diagnostics@[j]@);
        }
    }
    diagnostics
}

/// The statements of a text once the rules have fixed what they can.
pub open spec fn repaired_all(statements: Seq<Node>) -> Seq<Node> {
    statements.map_values(|statement: Node| repaired(statement))
}

/// Reports what is to be said against a text, given what the parser makes of it.
pub fn lint_parsed(
    line: usize,
    text: &str,
    parsed: Result<Vec<Tree>, String>,
    diagnostics: &mut Vec<Diagnostic>,
)
    ensures
        findings(final(diagnostics)@) == findings(old(diagnostics)@) + text_findings(
            line,
            text@,
            syntax_result(parsed),
        ),
{
    broadcast use {lemma_findings_add, lemma_findings_push};

    match parsed {
        Ok(stmts) => {
            let mut stmts = stmts;
            let mut found = check_all(&mut stmts);
            locate(&mut found, line, text);
            diagnostics.append(&mut found);
        },
        Err(error) => {
            diagnostics.push(parse_diagnostic(line, text, error.as_str()));
            assert(findings(diagnostics@) =~= findings(old(diagnostics)@) + seq![
                parse_finding(line, text@, error@),
            ]);
        },
    }
}

/// Lints SQL: every statement by every rule, then the transactions that the statements make up.
///
/// Newlines in front of SQL that can be split move every line by their number, and change nothing
/// else.
pub fn lint_sql(sql: &str) -> (diagnostics: Vec<Diagnostic>)
    ensures
        findings(diagnostics@) == sql_findings(sql@),
        statements_of(sql@) is Ok ==> forall|k: nat|
            sql@.len() + k < usize::MAX ==> {
                &&& #[trigger] sql_findings(newlines(k) + sql@) == moved_findings(
                    findings(diagnostics@),
                    k,
                )
                &&& up_to(findings(diagnostics@), usize::MAX - k)
            },
{
    broadcast use lemma_findings_push;

    let mut diagnostics: Vec<Diagnostic> = Vec::new();
    match split_statements(sql) {
        Err(error) => {
            diagnostics.push(tokenize_diagnostic(error.as_str()));
            assert(findings(diagnostics@) =~= sql_findings(sql@));
        },
        Ok(stmts) => {
            let ghost all = numbered(stmts@);
            let mut i: usize = 0;
            assert(findings(diagnostics@) =~= each_text_findings(all.take(0)));
            while i < stmts.len()
                invariant
                    i <= stmts@.len(),
                    all == numbered(stmts@),
                    findings(diagnostics@) == each_text_findings(all.take(i as int)),
                decreases stmts@.len() - i,
            {
                let (line, text) = &stmts[i];
                proof {
                    assert(all.take(i + 1).drop_last() =~= all.take(i as int));
                    assert(all.take(i + 1).last() == (*line, text@));
                    lemma_blank_trimmed(text@);
                }
                let ghost before = findings(diagnostics@);
                if !trim(text.as_str()).is_empty() {
                    lint_parsed(*line, text.as_str(), parse_sql(text.as_str()), &mut diagnostics);
                } else {
                    assert(before =~= before + Seq::<Finding>::empty());
                }
                i += 1;
            }
            assert(all.take(i as int) =~= all);
            check_ddl_transactions(&stmts, &mut diagnostics);
            proof {
                assert forall|k: nat| sql@.len() + k < usize::MAX implies {
                    &&& #[trigger] sql_findings(newlines(k) + sql@) == moved_findings(
                        sql_findings(sql@),
                        k,
                    )
                    &&& up_to(sql_findings(sql@), usize::MAX - k)
                } by {
                    newlines_move_findings(sql@, all, k);
                }
            }
        },
    }
    diagnostics
}

/// Whether a rule has changed the statement that it speaks of.
pub open spec fn changes(finding: Finding) -> bool {
    finding.fix is Fixed || finding.fix is FixedWithWarning
}

/// Whether a rule has changed a statement.
pub open spec fn some_changes(all: Seq<Finding>) -> bool {
    exists|i: int| 0 <= i < all.len() && changes(#[trigger] all[i])
}

/// Whether nothing is left of a statement: an `ALTER TABLE` without operations.
pub open spec fn nothing_left(statement: Node) -> bool {
    is_variant(statement, "AlterTable"@) && field(payload(statement), "operations"@) == Node::List(
        Seq::empty(),
    )
}

/// The texts of some statements, where each of them has one.
pub open spec fn printed_each(statements: Seq<Node>) -> Option<Seq<Seq<char>>>
    decreases statements.len(),
{
    if statements.len() == 0 {
        Some(Seq::empty())
    } else {
        match (printed_each(statements.drop_last()), printed(statements.last())) {
            (Some(front), Some(text)) => Some(front.push(text)),
            _ => None,
        }
    }
}

/// A text as it stands, but for the semicolons at its end.
pub open spec fn verbatim(line: usize, text: Seq<char>) -> (usize, Seq<char>) {
    (line, without_semicolons(text))
}

/// The fixed form of a text, given what the parser makes of it.
///
/// It is the text as it stands where it cannot be parsed, and where no rule changes it. It is the
/// printed statements where one does (the text as it stands, should they not print). Where nothing
/// is left of the statement, it is nothing.
pub open spec fn fixed_text(
    line: usize,
    text: Seq<char>,
    syntax: Result<Seq<Node>, Seq<char>>,
) -> Seq<(usize, Seq<char>)> {
    match syntax {
        Err(_) => seq![verbatim(line, text)],
        Ok(statements) => {
            let after = repaired_all(statements);
            if after.len() == 0 || nothing_left(after[0]) {
                Seq::empty()
            } else if some_changes(all_rule_findings(statements)) {
                match printed_each(after) {
                    Some(lines) => seq![(line, joined(lines, ";\n"@))],
                    None => seq![verbatim(line, text)],
                }
            } else {
                seq![verbatim(line, text)]
            }
        },
    }
}

/// The fixed form of each of some texts. A blank one stays.
pub open spec fn fixed_texts(parts: Seq<(usize, Seq<char>)>) -> Seq<(usize, Seq<char>)>
    decreases parts.len(),
{
    if parts.len() == 0 {
        Seq::empty()
    } else {
        let (line, text) = parts.last();
        fixed_texts(parts.drop_last()) + (if blank(text) {
            seq![(line, text)]
        } else {
            fixed_text(line, text, sql_syntax(text))
        })
    }
}

/// One script out of some texts: a semicolon behind each, and an empty line between neighbours.
pub open spec fn script(parts: Seq<(usize, Seq<char>)>) -> Seq<char> {
    let body = joined(parts.map_values(|part: (usize, Seq<char>)| part.1), ";\n\n"@);
    if body.len() == 0 {
        body
    } else {
        body + ";\n"@
    }
}

/// The fixed form of SQL. A text without tokens stays as it is.
pub open spec fn fixed_sql(sql: Seq<char>) -> Seq<char> {
    match statements_of(sql) {
        Ok(parts) => script(regrouped(parsed_parts(fixed_texts(parts)), 0).0),
        Err(_) => sql,
    }
}

/// What is to be said of a fix: of each statement, then of the transactions that were split.
pub open spec fn fix_findings(sql: Seq<char>) -> Seq<Finding> {
    match statements_of(sql) {
        Ok(parts) => each_text_findings(parts) + regrouped(
            parsed_parts(fixed_texts(parts)),
            0,
        ).1,
        Err(error) => seq![tokenize_finding(error)],
    }
}

/// Whether a rule has changed a statement.
pub fn any_change(diagnostics: &Vec<Diagnostic>) -> (r: bool)
    ensures
        r == some_changes(findings(diagnostics@)),
{
    let mut i: usize = 0;
    while i < diagnostics.len()
        invariant
            i <= diagnostics@.len(),
            forall|j: int| 0 <= j < i ==> !changes(#[trigger] findings(diagnostics@)[j]),
        decreases diagnostics@.len() - i,
    {
        assert(findings(diagnostics@)[i as int] == diagnostics@[i as int]@);
        match &diagnostics[i].fix_result {
            FixResult::Unfixable => {},
            _ => {
                assert(changes(findings(diagnostics@)[i as int]));
                return true;
            },
        }
        i += 1;
    }
    false
}

/// Whether nothing is left of a statement.
fn is_nothing_left(stmt: &Tree) -> (r: bool)
    ensures
        r == nothing_left(stmt@),
{
    if !stmt.is_variant("AlterTable") {
        return false;
    }
    match stmt.payload().field("operations") {
        Tree::List(operations) => {
            proof {
                lemma_item_nodes(operations@);
                if operations@.len() == 0 {
                    assert(item_nodes(operations@) =~= Seq::empty());
                }
            }
            operations.len() == 0
        },
        _ => false,
    }
}

/// Prints each statement.
fn print_each(stmts: &Vec<Tree>) -> (r: Option<Vec<String>>)
    ensures
        match r {
            Some(lines) => printed_each(nodes(stmts@)) == Some(texts(lines@)),
            None => printed_each(nodes(stmts@)) is None,
        },
{
    let ghost all = nodes(stmts@);
    let mut lines: Vec<String> = Vec::new();
    let mut i: usize = 0;
    assert(texts(lines@) =~= Seq::empty());
    while i < stmts.len()
        invariant
            i <= stmts@.len(),
            all == nodes(stmts@),
            printed_each(all.take(i as int)) == Some(texts(lines@)),
        decreases stmts@.len() - i,
    {
        proof {
            assert(all.take(i + 1).drop_last() =~= all.take(i as int));
            assert(all.take(i + 1).last() == stmts@[i as int]@);
        }
        match print_statement(&stmts[i]) {
            Some(text) => {
                let ghost before = lines@;
                lines.push(text);
                assert(texts(lines@) =~= texts(before).push(text@));
            },
            None => {
                proof {
                    lemma_unprinted(all, i + 1);
                }
                return None;
            },
        }
        i += 1;
    }
    assert(all.take(i as int) =~= all);
    Some(lines)
}

proof fn lemma_unprinted(statements: Seq<Node>, k: int)
    requires
        0 <= k <= statements.len(),
        printed_each(statements.take(k)) is None,
    ensures
        printed_each(statements) is None,
    decreases statements.len() - k,
{
    if k == statements.len() {
        assert(statements.take(k) =~= statements);
    } else {
        assert(statements.take(k + 1).drop_last() =~= statements.take(k));
        lemma_unprinted(statements, k + 1);
    }
}

/// Fixes a text, given what the parser makes of it, and reports what is to be said against it.
pub fn fix_parsed(
    line: usize,
    text: &str,
    parsed: Result<Vec<Tree>, String>,
    parts: &mut Vec<(usize, String)>,
    diagnostics: &mut Vec<Diagnostic>,
)
    ensures
        numbered(final(parts)@) == numbered(old(parts)@) + fixed_text(
            line,
            text@,
            syntax_result(parsed),
        ),
        findings(final(diagnostics)@) == findings(old(diagnostics)@) + text_findings(
            line,
            text@,
            syntax_result(parsed),
        ),
{
    broadcast use {lemma_findings_add, lemma_findings_push};

    let ghost before = numbered(parts@);
    match parsed {
        Err(error) => {
            parts.push((line, trim_semicolons(text).to_owned()));
            diagnostics.push(parse_diagnostic(line, text, error.as_str()));
            assert(numbered(parts@) =~= before + seq![verbatim(line, text@)]);
            assert(findings(diagnostics@) =~= findings(old(diagnostics)@) + seq![
                parse_finding(line, text@, error@),
            ]);
        },
        Ok(stmts) => {
            let mut stmts = stmts;
            let mut found = check_all(&mut stmts);
            if stmts.len() == 0 || is_nothing_left(&stmts[0]) {
                assert(nodes(stmts@).len() > 0 ==> nodes(stmts@)[0] == stmts@[0]@);
                assert(numbered(parts@) =~= before + Seq::<(usize, Seq<char>)>::empty());
            } else {
                assert(nodes(stmts@)[0] == stmts@[0]@);
                let mut fixed: Option<String> = None;
                if any_change(&found) {
                    if let Some(lines) = print_each(&stmts) {
                        fixed = Some(join(&lines, ";\n"));
                    }
                }
                match fixed {
                    Some(sql) => {
                        parts.push((line, sql));
                    },
                    None => {
                        parts.push((line, trim_semicolons(text).to_owned()));
                    },
                }
                assert(numbered(parts@) =~= before + fixed_text(
                    line,
                    text@,
                    syntax_result(parsed),
                ));
            }
            locate(&mut found, line, text);
            diagnostics.append(&mut found);
        },
    }
}

/// Puts one script together out of some texts.
pub fn assemble(parts: &Vec<(usize, String)>) -> (sql: String)
    ensures
        sql@ == script(numbered(parts@)),
{
    let mut lines: Vec<String> = Vec::new();
    let ghost all = numbered(parts@).map_values(|part: (usize, Seq<char>)| part.1);
    let mut i: usize = 0;
    while i < parts.len()
        invariant
            i <= parts@.len(),
            all == numbered(parts@).map_values(|part: (usize, Seq<char>)| part.1),
            texts(lines@) =~= all.take(i as int),
        decreases parts@.len() - i,
    {
        let ghost before = lines@;
        lines.push(parts[i].1.clone());
        assert(texts(lines@) =~= texts(before).push(all[i as int]));
        i += 1;
    }
    assert(all.take(i as int) =~= all);
    let mut sql = join(&lines, ";\n\n");
    if !sql.as_str().is_empty() {
        sql.append(";\n");
    }
    sql
}

/// Fixes SQL: rewrites the statements that a rule can repair, and splits the transactions that hold
/// several DDL statements.
///
/// Where nothing is said that could not be fixed, linting the outcome finds nothing, unless the
/// parser takes what was printed for something else.
pub fn fix_sql(sql: &str) -> (out: FixOutput)
    ensures
        out.sql@ == fixed_sql(sql@),
        findings(out.diagnostics@) == fix_findings(sql@),
        all_fixed(findings(out.diagnostics@)) && comes_back(sql@) ==> sql_findings(out.sql@).len()
            == 0,
{
    broadcast use lemma_findings_push;

    let mut diagnostics: Vec<Diagnostic> = Vec::new();
    match split_statements(sql) {
        Err(error) => {
            diagnostics.push(tokenize_diagnostic(error.as_str()));
            assert(findings(diagnostics@) =~= fix_findings(sql@));
            assert(findings(diagnostics@)[0].fix is Unfixable);
            FixOutput { sql: sql.to_owned(), diagnostics }
        },
        Ok(stmts) => {
            let ghost all = numbered(stmts@);
            let mut parts: Vec<(usize, String)> = Vec::new();
            let mut i: usize = 0;
            assert(findings(diagnostics@) =~= each_text_findings(all.take(0)));
            assert(numbered(parts@) =~= fixed_texts(all.take(0)));
            while i < stmts.len()
                invariant
                    i <= stmts@.len(),
                    all == numbered(stmts@),
                    findings(diagnostics@) == each_text_findings(all.take(i as int)),
                    numbered(parts@) == fixed_texts(all.take(i as int)),
                decreases stmts@.len() - i,
            {
                let (line, text) = &stmts[i];
                proof {
                    assert(all.take(i + 1).drop_last() =~= all.take(i as int));
                    assert(all.take(i + 1).last() == (*line, text@));
                    lemma_blank_trimmed(text@);
                }
                let ghost before = findings(diagnostics@);
                let ghost done = numbered(parts@);
                if trim(text.as_str()).is_empty() {
                    parts.push((*line, text.clone()));
                    assert(numbered(parts@) =~= done + seq![(*line, text@)]);
                    assert(before =~= before + Seq::<Finding>::empty());
                } else {
                    fix_parsed(
                        *line,
                        text.as_str(),
                        parse_sql(text.as_str()),
                        &mut parts,
                        &mut diagnostics,
                    );
                }
                i += 1;
            }
            assert(all.take(i as int) =~= all);
            fix_ddl_transactions(&mut parts, &mut diagnostics);
            proof {
                if all_fixed(fix_findings(sql@)) && comes_back(sql@) {
                    fixed_sql_is_clean(sql@);
                }
            }
            FixOutput { sql: assemble(&parts), diagnostics }
        },
    }
}

} // verus!
