//! Transactions: DSQL takes at most one DDL statement in each.

pub mod laws;
pub mod shape;

use vstd::prelude::*;

use crate::diagnostic::{multi_ddl_txn_diagnostic, parse_blocks_split_diagnostic};
use crate::diagnostic::{parse_in_transaction_diagnostic, Diagnostic, FixResult};
use crate::diagnostic::{
    findings, lemma_findings_push, multi_ddl_finding, parse_blocks_split_finding,
    parse_in_transaction_finding, Finding, Fix,
};
use crate::dialect::{nodes, parse_sql, sql_syntax, syntax_result};
use crate::split::numbered;
use crate::syntax::{variant, Node, Tree};
use crate::text::{same_text, trim, trimmed};
use crate::transaction::laws::{
    a_second_split_changes_nothing, all_parsed, commit_is_known, no_errors,
    parsed_scripts_are_split, singles, splits_keep_the_work, work,
};

verus! {

/// The statements that define, change or remove objects of the database.
pub open spec fn ddl(statement: Node) -> bool {
    match variant(statement) {
        Some(name) => {
            ||| name == "CreateTable"@
            ||| name == "CreateIndex"@
            ||| name == "CreateView"@
            ||| name == "CreateSequence"@
            ||| name == "CreateType"@
            ||| name == "CreateFunction"@
            ||| name == "CreateProcedure"@
            ||| name == "CreateTrigger"@
            ||| name == "CreateExtension"@
            ||| name == "CreateSchema"@
            ||| name == "CreateDatabase"@
            ||| name == "CreatePolicy"@
            ||| name == "CreateServer"@
            ||| name == "AlterTable"@
            ||| name == "AlterIndex"@
            ||| name == "Drop"@
            ||| name == "Truncate"@
        },
        None => false,
    }
}

/// The statement that opens a transaction.
pub open spec fn begins(statement: Node) -> bool {
    variant(statement) == Some("StartTransaction"@)
}

/// The statement that keeps the work of a transaction.
pub open spec fn commits(statement: Node) -> bool {
    variant(statement) == Some("Commit"@)
}

/// The statements that close a transaction.
pub open spec fn ends(statement: Node) -> bool {
    commits(statement) || variant(statement) == Some("Rollback"@)
}

/// Whether a statement is DDL.
pub fn is_ddl(stmt: &Tree) -> (r: bool)
    ensures
        r == ddl(stmt@),
{
    match stmt.variant() {
        Some(name) => same_text(name, "CreateTable") || same_text(name, "CreateIndex") || same_text(
            name,
            "CreateView",
        ) || same_text(name, "CreateSequence") || same_text(name, "CreateType") || same_text(
            name,
            "CreateFunction",
        ) || same_text(name, "CreateProcedure") || same_text(name, "CreateTrigger") || same_text(
            name,
            "CreateExtension",
        ) || same_text(name, "CreateSchema") || same_text(name, "CreateDatabase") || same_text(
            name,
            "CreatePolicy",
        ) || same_text(name, "CreateServer") || same_text(name, "AlterTable") || same_text(
            name,
            "AlterIndex",
        ) || same_text(name, "Drop") || same_text(name, "Truncate"),
        None => false,
    }
}

/// Whether a statement opens a transaction.
pub fn is_begin(stmt: &Tree) -> (r: bool)
    ensures
        r == begins(stmt@),
{
    stmt.is_variant("StartTransaction")
}

/// Whether a statement closes a transaction.
pub fn is_txn_end(stmt: &Tree) -> (r: bool)
    ensures
        r == ends(stmt@),
{
    stmt.is_variant("Commit") || stmt.is_variant("Rollback")
}

/// Whether a statement keeps the work of a transaction.
pub fn is_commit(stmt: &Tree) -> (r: bool)
    ensures
        r == commits(stmt@),
{
    stmt.is_variant("Commit")
}

/// An open transaction: the line and text of its first statement, and the DDL statements so far.
pub struct Open {
    pub line: usize,
    pub text: Seq<char>,
    pub ddl: nat,
}

/// The transaction behind a statement.
pub open spec fn after_statement(
    open: Option<Open>,
    line: usize,
    text: Seq<char>,
    statement: Node,
) -> Option<Open> {
    if begins(statement) && open is None {
        Some(Open { line, text, ddl: 0 })
    } else if ends(statement) {
        None
    } else {
        match open {
            Some(txn) if ddl(statement) => Some(Open { ddl: txn.ddl + 1, ..txn }),
            _ => open,
        }
    }
}

/// What a statement brings to light: the commit of a transaction with several DDL statements.
pub open spec fn at_statement(open: Option<Open>, statement: Node) -> Seq<Finding> {
    match open {
        Some(txn) if txn.ddl > 1 && commits(statement) => seq![
            multi_ddl_finding(txn.line, txn.ddl, txn.text, Fix::Unfixable),
        ],
        _ => Seq::empty(),
    }
}

/// The transaction behind some statements of a text.
pub open spec fn after_statements(
    open: Option<Open>,
    line: usize,
    text: Seq<char>,
    statements: Seq<Node>,
) -> Option<Open>
    decreases statements.len(),
{
    if statements.len() == 0 {
        open
    } else {
        after_statement(
            after_statements(open, line, text, statements.drop_last()),
            line,
            text,
            statements.last(),
        )
    }
}

/// What the statements of a text bring to light.
pub open spec fn at_statements(
    open: Option<Open>,
    line: usize,
    text: Seq<char>,
    statements: Seq<Node>,
) -> Seq<Finding>
    decreases statements.len(),
{
    if statements.len() == 0 {
        Seq::empty()
    } else {
        at_statements(open, line, text, statements.drop_last()) + at_statement(
            after_statements(open, line, text, statements.drop_last()),
            statements.last(),
        )
    }
}

/// A numbered text and what the parser makes of it.
pub struct ParsedPart {
    pub line: usize,
    pub text: Seq<char>,
    pub syntax: Result<Seq<Node>, Seq<char>>,
}

/// The transaction behind a text. One that cannot be parsed changes nothing.
pub open spec fn after_part(open: Option<Open>, part: ParsedPart) -> Option<Open> {
    match part.syntax {
        Ok(statements) => after_statements(open, part.line, part.text, statements),
        Err(_) => open,
    }
}

/// What a text brings to light.
pub open spec fn at_part(open: Option<Open>, part: ParsedPart) -> Seq<Finding> {
    match part.syntax {
        Ok(statements) => at_statements(open, part.line, part.text, statements),
        Err(error) => if open is Some {
            seq![parse_in_transaction_finding(part.line, part.text, error)]
        } else {
            Seq::empty()
        },
    }
}

/// The transaction behind some texts.
pub open spec fn after_parts(parts: Seq<ParsedPart>) -> Option<Open>
    decreases parts.len(),
{
    if parts.len() == 0 {
        None
    } else {
        after_part(after_parts(parts.drop_last()), parts.last())
    }
}

/// What some texts, read in their order, bring to light about transactions.
pub open spec fn transaction_findings(parts: Seq<ParsedPart>) -> Seq<Finding>
    decreases parts.len(),
{
    if parts.len() == 0 {
        Seq::empty()
    } else {
        transaction_findings(parts.drop_last()) + at_part(
            after_parts(parts.drop_last()),
            parts.last(),
        )
    }
}

/// A numbered text, with what the parser makes of it when it is trimmed.
pub open spec fn parsed_part(part: (usize, Seq<char>)) -> ParsedPart {
    ParsedPart { line: part.0, text: part.1, syntax: sql_syntax(trimmed(part.1)) }
}

/// Numbered texts, each with what the parser makes of it when it is trimmed.
pub open spec fn parsed_parts(parts: Seq<(usize, Seq<char>)>) -> Seq<ParsedPart> {
    parts.map_values(|part: (usize, Seq<char>)| parsed_part(part))
}

/// An open transaction.
struct OpenTransaction {
    /// The line of the statement that opened it.
    line: usize,
    /// The text of that statement.
    text: String,
    /// One unit for each DDL statement in it: a count that takes no room and cannot wrap around.
    ddl: Vec<()>,
}

/// Follows a script through its transactions.
pub struct TransactionScan {
    open: Option<OpenTransaction>,
}

impl View for TransactionScan {
    type V = Option<Open>;

    closed spec fn view(&self) -> Option<Open> {
        match self.open {
            Some(txn) => Some(
                Open { line: txn.line, text: txn.text@, ddl: txn.ddl@.len() },
            ),
            None => None,
        }
    }
}

impl TransactionScan {
    /// Starts outside of any transaction.
    pub fn new() -> (scan: TransactionScan)
        ensures
            scan@ is None,
    {
        TransactionScan { open: None }
    }

    /// Takes in the next statement.
    pub fn observe_statement(
        &mut self,
        line: usize,
        text: &str,
        stmt: &Tree,
        diagnostics: &mut Vec<Diagnostic>,
    )
        ensures
            final(self)@ == after_statement(old(self)@, line, text@, stmt@),
            findings(final(diagnostics)@) == findings(old(diagnostics)@) + at_statement(
                old(self)@,
                stmt@,
            ),
    {
        broadcast use lemma_findings_push;

        if is_begin(stmt) && self.open.is_none() {
            self.open = Some(
                OpenTransaction { line, text: text.to_owned(), ddl: Vec::new() },
            );
        } else if is_txn_end(stmt) {
            if let Some(txn) = &self.open {
                if txn.ddl.len() > 1 && is_commit(stmt) {
                    diagnostics.push(
                        multi_ddl_txn_diagnostic(
                            txn.line,
                            txn.ddl.len(),
                            txn.text.as_str(),
                            FixResult::Unfixable,
                        ),
                    );
                }
            }
            self.open = None;
        } else if is_ddl(stmt) {
            if let Some(txn) = &mut self.open {
                txn.ddl.push(());
            }
        }
    }

    /// Takes in the next text, given what the parser makes of it.
    pub fn observe(
        &mut self,
        line: usize,
        text: &str,
        parsed: &Result<Vec<Tree>, String>,
        diagnostics: &mut Vec<Diagnostic>,
    )
        ensures
            final(self)@ == after_part(
                old(self)@,
                ParsedPart { line, text: text@, syntax: syntax_result(*parsed) },
            ),
            findings(final(diagnostics)@) == findings(old(diagnostics)@) + at_part(
                old(self)@,
                ParsedPart { line, text: text@, syntax: syntax_result(*parsed) },
            ),
    {
        let ghost before = findings(diagnostics@);
        let ghost start = self@;
        match parsed {
            Ok(stmts) => {
                let ghost all = nodes(stmts@);
                let mut i: usize = 0;
                assert(findings(diagnostics@) =~= before + at_statements(
                    start,
                    line,
                    text@,
                    all.take(0),
                ));
                while i < stmts.len()
                    invariant
                        i <= stmts.len(),
                        all == nodes(stmts@),
                        self@ == after_statements(start, line, text@, all.take(i as int)),
                        findings(diagnostics@) == before + at_statements(
                            start,
                            line,
                            text@,
                            all.take(i as int),
                        ),
                    decreases stmts.len() - i,
                {
                    proof {
                        assert(all.take(i + 1).drop_last() =~= all.take(i as int));
                        assert(all.take(i + 1).last() == stmts@[i as int]@);
                    }
                    self.observe_statement(line, text, &stmts[i], diagnostics);
                    i += 1;
                    assert(findings(diagnostics@) =~= before + at_statements(
                        start,
                        line,
                        text@,
                        all.take(i as int),
                    ));
                }
                assert(all.take(i as int) =~= all);
            },
            Err(error) => {
                broadcast use lemma_findings_push;

                if self.open.is_some() {
                    diagnostics.push(parse_in_transaction_diagnostic(line, text, error.as_str()));
                }
                assert(findings(diagnostics@) =~= before + at_part(
                    start,
                    ParsedPart { line, text: text@, syntax: syntax_result(*parsed) },
                ));
            },
        }
    }
}

/// Reports each committed transaction with more than one DDL statement, and each statement inside
/// a transaction that cannot be parsed.
pub fn check_ddl_transactions(stmts: &Vec<(usize, String)>, diagnostics: &mut Vec<Diagnostic>)
    ensures
        findings(final(diagnostics)@) == findings(old(diagnostics)@) + transaction_findings(
            parsed_parts(numbered(stmts@)),
        ),
{
    let ghost before = findings(diagnostics@);
    let ghost all = parsed_parts(numbered(stmts@));
    let mut scan = TransactionScan::new();
    let mut i: usize = 0;
    assert(findings(diagnostics@) =~= before + transaction_findings(all.take(0)));
    while i < stmts.len()
        invariant
            i <= stmts.len(),
            all == parsed_parts(numbered(stmts@)),
            scan@ == after_parts(all.take(i as int)),
            findings(diagnostics@) == before + transaction_findings(all.take(i as int)),
        decreases stmts.len() - i,
    {
        let (line, text) = &stmts[i];
        proof {
            assert(all.take(i + 1).drop_last() =~= all.take(i as int));
            assert(numbered(stmts@)[i as int] == (*line, text@));
            assert(all.take(i + 1).last() == parsed_part((*line, text@)));
        }
        let parsed = parse_sql(trim(text.as_str()));
        scan.observe(*line, text.as_str(), &parsed, diagnostics);
        i += 1;
        assert(findings(diagnostics@) =~= before + transaction_findings(all.take(i as int)));
    }
    assert(all.take(i as int) =~= all);
}

/// Whether a statement opens a transaction.
pub open spec fn some_begins(statements: Seq<Node>) -> bool {
    exists|i: int| 0 <= i < statements.len() && begins(#[trigger] statements[i])
}

/// Whether a statement closes a transaction.
pub open spec fn some_ends(statements: Seq<Node>) -> bool {
    exists|i: int| 0 <= i < statements.len() && ends(#[trigger] statements[i])
}

/// Whether a statement keeps the work of a transaction.
pub open spec fn some_commits(statements: Seq<Node>) -> bool {
    exists|i: int| 0 <= i < statements.len() && commits(#[trigger] statements[i])
}

/// Whether a statement is DDL.
pub open spec fn some_ddl(statements: Seq<Node>) -> bool {
    exists|i: int| 0 <= i < statements.len() && ddl(#[trigger] statements[i])
}

/// Whether a text holds a statement that opens a transaction.
pub open spec fn part_begins(part: ParsedPart) -> bool {
    part.syntax matches Ok(statements) && some_begins(statements)
}

/// Whether a text holds a statement that closes a transaction.
pub open spec fn part_ends(part: ParsedPart) -> bool {
    part.syntax matches Ok(statements) && some_ends(statements)
}

/// Whether a text holds a statement that keeps the work of a transaction.
pub open spec fn part_commits(part: ParsedPart) -> bool {
    part.syntax matches Ok(statements) && some_commits(statements)
}

/// Whether a text holds a DDL statement, and none that opens a transaction.
pub open spec fn part_is_ddl(part: ParsedPart) -> bool {
    &&& !part_begins(part)
    &&& part.syntax matches Ok(statements)
    &&& some_ddl(statements)
}

/// The first text from `k` on that closes a transaction or cannot be parsed, or the number of
/// texts.
pub open spec fn stop(parts: Seq<ParsedPart>, k: int) -> int
    decreases parts.len() - k,
{
    if k < 0 || k >= parts.len() {
        parts.len() as int
    } else if parts[k].syntax is Err || part_ends(parts[k]) {
        k
    } else {
        stop(parts, k + 1)
    }
}

/// The number of DDL texts.
pub open spec fn ddl_count(parts: Seq<ParsedPart>) -> nat
    decreases parts.len(),
{
    if parts.len() == 0 {
        0
    } else {
        ddl_count(parts.drop_last()) + (if part_is_ddl(parts.last()) {
            1nat
        } else {
            0nat
        })
    }
}

/// The numbered text of a part.
pub open spec fn plain(part: ParsedPart) -> (usize, Seq<char>) {
    (part.line, part.text)
}

/// The numbered texts of some parts.
pub open spec fn plains(parts: Seq<ParsedPart>) -> Seq<(usize, Seq<char>)> {
    parts.map_values(|part: ParsedPart| plain(part))
}

/// Texts in a transaction of their own. No texts need no transaction.
pub open spec fn block(begin: ParsedPart, texts: Seq<(usize, Seq<char>)>) -> Seq<
    (usize, Seq<char>),
> {
    if texts.len() == 0 {
        Seq::empty()
    } else {
        seq![plain(begin)] + texts + seq![(begin.line, "COMMIT"@)]
    }
}

/// The texts at the end of `members` that are not DDL, and that no DDL follows.
pub open spec fn waiting(members: Seq<ParsedPart>) -> Seq<(usize, Seq<char>)>
    decreases members.len(),
{
    if members.len() == 0 {
        Seq::empty()
    } else {
        let front = members.drop_last();
        if part_begins(members.last()) {
            waiting(front)
        } else if part_is_ddl(members.last()) {
            Seq::empty()
        } else {
            waiting(front).push(plain(members.last()))
        }
    }
}

/// The members of a transaction up to its last DDL text, each DDL text in a transaction of its own
/// and the texts between two of them in one; a nested `BEGIN` goes away.
pub open spec fn settled(begin: ParsedPart, members: Seq<ParsedPart>) -> Seq<(usize, Seq<char>)>
    decreases members.len(),
{
    if members.len() == 0 {
        Seq::empty()
    } else {
        let front = members.drop_last();
        if part_begins(members.last()) {
            settled(begin, front)
        } else if part_is_ddl(members.last()) {
            settled(begin, front) + block(begin, waiting(front)) + block(
                begin,
                seq![plain(members.last())],
            )
        } else {
            settled(begin, front)
        }
    }
}

/// The members of a transaction, split into transactions with at most one DDL text each.
pub open spec fn split_up(begin: ParsedPart, members: Seq<ParsedPart>) -> Seq<
    (usize, Seq<char>),
> {
    settled(begin, members) + block(begin, waiting(members))
}

/// What the split of a transaction is reported as.
pub open spec fn split_finding(begin: ParsedPart, ddl_count: nat) -> Finding {
    multi_ddl_finding(
        begin.line,
        ddl_count,
        begin.text,
        Fix::FixedWithWarning("Split multi-DDL transaction into individual BEGIN/COMMIT blocks"@),
    )
}

/// The texts from `i` on, with each committed transaction of more than one DDL text split up, and
/// what is to be said about it.
pub open spec fn regrouped(parts: Seq<ParsedPart>, i: int) -> (
    Seq<(usize, Seq<char>)>,
    Seq<Finding>,
)
    decreases parts.len() - i,
    via regrouped_decreases
{
    if i < 0 || i >= parts.len() {
        (Seq::empty(), Seq::empty())
    } else {
        let j = stop(parts, i + 1);
        let next = regrouped(parts, i + 1);
        let kept = (seq![plain(parts[i])] + next.0, next.1);
        if !part_begins(parts[i]) || j >= parts.len() {
            kept
        } else {
            let members = parts.subrange(i + 1, j);
            let behind = regrouped(parts, j + 1);
            match parts[j].syntax {
                Err(error) => (
                    kept.0,
                    seq![parse_blocks_split_finding(parts[j].line, parts[j].text, error)] + kept.1,
                ),
                Ok(_) => if !part_commits(parts[j]) {
                    kept
                } else if ddl_count(members) <= 1 {
                    (plains(parts.subrange(i, j + 1)) + behind.0, behind.1)
                } else {
                    (
                        split_up(parts[i], members) + behind.0,
                        seq![split_finding(parts[i], ddl_count(members))] + behind.1,
                    )
                },
            }
        }
    }
}

#[via_fn]
proof fn regrouped_decreases(parts: Seq<ParsedPart>, i: int) {
    lemma_stop(parts, i + 1);
}

pub proof fn lemma_stop(parts: Seq<ParsedPart>, k: int)
    ensures
        0 <= k <= parts.len() ==> k <= stop(parts, k) <= parts.len(),
    decreases parts.len() - k,
{
    if 0 <= k < parts.len() {
        lemma_stop(parts, k + 1);
    }
}

/// Numbered texts, each with a parse of it.
pub open spec fn with_syntax(
    parts: Seq<(usize, String)>,
    parsed: Seq<Result<Vec<Tree>, String>>,
) -> Seq<ParsedPart> {
    Seq::new(
        parts.len(),
        |i: int|
            ParsedPart {
                line: parts[i].0,
                text: parts[i].1@,
                syntax: syntax_result(parsed[i]),
            },
    )
}

/// Whether a statement opens a transaction.
fn any_begin(stmts: &Vec<Tree>) -> (r: bool)
    ensures
        r == some_begins(nodes(stmts@)),
{
    let mut i: usize = 0;
    while i < stmts.len()
        invariant
            i <= stmts.len(),
            forall|j: int| 0 <= j < i ==> !begins(#[trigger] nodes(stmts@)[j]),
        decreases stmts.len() - i,
    {
        if is_begin(&stmts[i]) {
            assert(begins(nodes(stmts@)[i as int]));
            return true;
        }
        i += 1;
    }
    false
}

/// Whether a statement closes a transaction.
fn any_txn_end(stmts: &Vec<Tree>) -> (r: bool)
    ensures
        r == some_ends(nodes(stmts@)),
{
    let mut i: usize = 0;
    while i < stmts.len()
        invariant
            i <= stmts.len(),
            forall|j: int| 0 <= j < i ==> !ends(#[trigger] nodes(stmts@)[j]),
        decreases stmts.len() - i,
    {
        if is_txn_end(&stmts[i]) {
            assert(ends(nodes(stmts@)[i as int]));
            return true;
        }
        i += 1;
    }
    false
}

/// Whether a statement keeps the work of a transaction.
fn any_commit(stmts: &Vec<Tree>) -> (r: bool)
    ensures
        r == some_commits(nodes(stmts@)),
{
    let mut i: usize = 0;
    while i < stmts.len()
        invariant
            i <= stmts.len(),
            forall|j: int| 0 <= j < i ==> !commits(#[trigger] nodes(stmts@)[j]),
        decreases stmts.len() - i,
    {
        if is_commit(&stmts[i]) {
            assert(commits(nodes(stmts@)[i as int]));
            return true;
        }
        i += 1;
    }
    false
}

/// Whether a statement is DDL.
fn any_ddl(stmts: &Vec<Tree>) -> (r: bool)
    ensures
        r == some_ddl(nodes(stmts@)),
{
    let mut i: usize = 0;
    while i < stmts.len()
        invariant
            i <= stmts.len(),
            forall|j: int| 0 <= j < i ==> !ddl(#[trigger] nodes(stmts@)[j]),
        decreases stmts.len() - i,
    {
        if is_ddl(&stmts[i]) {
            assert(ddl(nodes(stmts@)[i as int]));
            return true;
        }
        i += 1;
    }
    false
}

fn copy_part(part: &(usize, String)) -> (r: (usize, String))
    ensures
        r.0 == part.0,
        r.1@ == part.1@,
{
    (part.0, part.1.clone())
}

/// Moves the waiting texts into a transaction of their own.
fn push_block(begin: &(usize, String), waiting: &mut Vec<(usize, String)>, out: &mut Vec<
    (usize, String),
>, first: Ghost<ParsedPart>)
    requires
        plain(first@) == (begin.0, begin.1@),
    ensures
        numbered(final(out)@) == numbered(old(out)@) + block(first@, numbered(old(waiting)@)),
        final(waiting)@.len() == 0,
{
    let ghost before = numbered(out@);
    let ghost texts = numbered(waiting@);
    if waiting.len() > 0 {
        out.push(copy_part(begin));
        let ghost opened = out@;
        out.append(waiting);
        assert(numbered(out@) =~= numbered(opened) + texts);
        out.push((begin.0, "COMMIT".to_owned()));
        assert(numbered(out@) =~= before + block(first@, texts));
    } else {
        assert(numbered(out@) =~= before + block(first@, texts));
    }
}

/// Splits a transaction: the text at `begin` opens it, the one at `commit` closes it.
fn push_split(
    parts: &Vec<(usize, String)>,
    parsed: &Vec<Result<Vec<Tree>, String>>,
    begin: usize,
    commit: usize,
    out: &mut Vec<(usize, String)>,
)
    requires
        parts@.len() == parsed@.len(),
        begin < commit < parts@.len(),
        forall|k: int| begin < k < commit ==> (#[trigger] parsed@[k]) is Ok,
    ensures
        numbered(final(out)@) == numbered(old(out)@) + split_up(
            with_syntax(parts@, parsed@)[begin as int],
            with_syntax(parts@, parsed@).subrange(begin + 1, commit as int),
        ),
{
    let ghost all = with_syntax(parts@, parsed@);
    let ghost first = all[begin as int];
    let ghost members = all.subrange(begin + 1, commit as int);
    let ghost before = numbered(out@);
    let mut pending: Vec<(usize, String)> = Vec::new();
    let mut k: usize = begin + 1;
    assert(numbered(out@) =~= before + settled(first, members.take(0)));
    assert(numbered(pending@) =~= waiting(members.take(0)));
    while k < commit
        invariant
            parts@.len() == parsed@.len(),
            begin < k <= commit < parts@.len(),
            forall|k: int| begin < k < commit ==> (#[trigger] parsed@[k]) is Ok,
            all == with_syntax(parts@, parsed@),
            first == all[begin as int],
            members == all.subrange(begin + 1, commit as int),
            numbered(out@) == before + settled(first, members.take(k - begin - 1)),
            numbered(pending@) == waiting(members.take(k - begin - 1)),
        decreases commit - k,
    {
        let ghost n = k - begin - 1;
        let ghost part = all[k as int];
        proof {
            assert(members.take(n + 1).drop_last() =~= members.take(n));
            assert(members.take(n + 1).last() == part);
        }
        let ghost pending_before = numbered(pending@);
        if let Ok(stmts) = &parsed[k] {
            assert(part.syntax == Ok::<Seq<Node>, Seq<char>>(nodes(stmts@)));
            if any_begin(stmts) {
            } else if any_ddl(stmts) {
                push_block(&parts[begin], &mut pending, out, Ghost(first));
                let mut alone: Vec<(usize, String)> = Vec::new();
                alone.push(copy_part(&parts[k]));
                assert(numbered(alone@) =~= seq![plain(part)]);
                push_block(&parts[begin], &mut alone, out, Ghost(first));
                assert(numbered(pending@) =~= Seq::empty());
                assert(numbered(out@) =~= before + settled(first, members.take(n + 1)));
            } else {
                pending.push(copy_part(&parts[k]));
                assert(numbered(pending@) =~= pending_before.push(plain(part)));
            }
        }
        k += 1;
    }
    assert(members.take(k - begin - 1) =~= members);
    push_block(&parts[begin], &mut pending, out, Ghost(first));
    assert(numbered(out@) =~= before + split_up(first, members));
}

/// Looks from `from` on for the text that closes a transaction or cannot be parsed, and counts the
/// DDL texts on the way.
fn scan_members(
    parts: &Vec<(usize, String)>,
    parsed: &Vec<Result<Vec<Tree>, String>>,
    from: usize,
) -> (r: (usize, usize))
    requires
        parts@.len() == parsed@.len(),
        from <= parts@.len(),
    ensures
        r.0 == stop(with_syntax(parts@, parsed@), from as int),
        from <= r.0 <= parts@.len(),
        r.1 == ddl_count(with_syntax(parts@, parsed@).subrange(from as int, r.0 as int)),
        forall|k: int| from <= k < r.0 ==> (#[trigger] parsed@[k]) is Ok,
{
    let ghost all = with_syntax(parts@, parsed@);
    let mut j: usize = from;
    let mut count: usize = 0;
    assert(all.subrange(from as int, from as int) =~= Seq::empty());
    while j < parsed.len()
        invariant
            parts@.len() == parsed@.len(),
            from <= j <= parts@.len(),
            all == with_syntax(parts@, parsed@),
            stop(all, from as int) == stop(all, j as int),
            count == ddl_count(all.subrange(from as int, j as int)),
            count <= j - from,
            forall|k: int| from <= k < j ==> (#[trigger] parsed@[k]) is Ok,
        decreases parsed.len() - j,
    {
        let ghost part = all[j as int];
        match &parsed[j] {
            Err(_) => {
                assert(part.syntax is Err);
                return (j, count);
            },
            Ok(stmts) => {
                assert(part.syntax == Ok::<Seq<Node>, Seq<char>>(nodes(stmts@)));
                if any_txn_end(stmts) {
                    assert(part_ends(part));
                    return (j, count);
                }
                proof {
                    let longer = all.subrange(from as int, j + 1);
                    assert(longer.drop_last() =~= all.subrange(from as int, j as int));
                    assert(longer.last() == part);
                }
                if !any_begin(stmts) && any_ddl(stmts) {
                    count += 1;
                }
            },
        }
        j += 1;
    }
    (j, count)
}

/// Splits each committed transaction of more than one DDL text, given what the parser makes of
/// each text. A transaction with a text that cannot be parsed stays as it is.
pub fn regroup_transactions(
    parts: &Vec<(usize, String)>,
    parsed: &Vec<Result<Vec<Tree>, String>>,
    diagnostics: &mut Vec<Diagnostic>,
) -> (out: Vec<(usize, String)>)
    requires
        parts@.len() == parsed@.len(),
    ensures
        numbered(out@) == regrouped(with_syntax(parts@, parsed@), 0).0,
        findings(final(diagnostics)@) == findings(old(diagnostics)@) + regrouped(
            with_syntax(parts@, parsed@),
            0,
        ).1,
{
    broadcast use lemma_findings_push;

    let ghost all = with_syntax(parts@, parsed@);
    let ghost before = findings(diagnostics@);
    let ghost goal = regrouped(all, 0);
    let mut out: Vec<(usize, String)> = Vec::new();
    let mut i: usize = 0;
    assert(numbered(out@) + goal.0 =~= goal.0);
    while i < parts.len()
        invariant
            parts@.len() == parsed@.len(),
            all == with_syntax(parts@, parsed@),
            i <= parts@.len(),
            numbered(out@) + regrouped(all, i as int).0 == goal.0,
            findings(diagnostics@) + regrouped(all, i as int).1 == before + goal.1,
        decreases parts.len() - i,
    {
        broadcast use lemma_findings_push;

        let ghost part = all[i as int];
        let ghost done = numbered(out@);
        let ghost told = findings(diagnostics@);
        let mut next: usize = i + 1;
        let mut keep = true;
        if let Ok(stmts) = &parsed[i] {
            assert(part.syntax == Ok::<Seq<Node>, Seq<char>>(nodes(stmts@)));
            if any_begin(stmts) {
                assert(part_begins(part));
                let (j, count) = scan_members(parts, parsed, i + 1);
                if j < parts.len() {
                    match &parsed[j] {
                        Err(error) => {
                            diagnostics.push(
                                parse_blocks_split_diagnostic(
                                    parts[j].0,
                                    parts[j].1.as_str(),
                                    error.as_str(),
                                ),
                            );
                        },
                        Ok(closing) => {
                            assert(all[j as int].syntax == Ok::<Seq<Node>, Seq<char>>(
                                nodes(closing@),
                            ));
                            if any_commit(closing) {
                                assert(part_commits(all[j as int]));
                                keep = false;
                                next = j + 1;
                                if count <= 1 {
                                    push_parts(parts, i, j + 1, &mut out);
                                    assert(plains(all.subrange(i as int, j + 1))
                                        =~= numbered(parts@).subrange(i as int, j + 1));
                                } else {
                                    push_split(parts, parsed, i, j, &mut out);
                                    diagnostics.push(
                                        multi_ddl_txn_diagnostic(
                                            parts[i].0,
                                            count,
                                            parts[i].1.as_str(),
                                            FixResult::FixedWithWarning(
                                                "Split multi-DDL transaction into individual BEGIN/COMMIT blocks".to_owned(),
                                            ),
                                        ),
                                    );
                                }
                            }
                        },
                    }
                }
            }
        }
        if keep {
            out.push(copy_part(&parts[i]));
            assert(numbered(out@) =~= done.push(plain(part)));
        }
        assert(numbered(out@) + regrouped(all, next as int).0 =~= done + regrouped(
            all,
            i as int,
        ).0);
        assert(findings(diagnostics@) + regrouped(all, next as int).1 =~= told + regrouped(
            all,
            i as int,
        ).1);
        i = next;
    }
    assert(numbered(out@) + Seq::<(usize, Seq<char>)>::empty() =~= numbered(out@));
    assert(findings(diagnostics@) + Seq::<Finding>::empty() =~= findings(diagnostics@));
    out
}

/// Copies the parts `from..to`.
fn push_parts(parts: &Vec<(usize, String)>, from: usize, to: usize, out: &mut Vec<(usize, String)>)
    requires
        from <= to <= parts@.len(),
    ensures
        numbered(final(out)@) == numbered(old(out)@) + numbered(parts@).subrange(
            from as int,
            to as int,
        ),
{
    let ghost before = numbered(out@);
    let mut k: usize = from;
    assert(numbered(out@) =~= before + numbered(parts@).subrange(from as int, from as int));
    while k < to
        invariant
            from <= k <= to <= parts@.len(),
            numbered(out@) == before + numbered(parts@).subrange(from as int, k as int),
        decreases to - k,
    {
        let ghost done = out@;
        out.push(copy_part(&parts[k]));
        assert(numbered(out@) =~= numbered(done).push(numbered(parts@)[k as int]));
        k += 1;
        assert(numbered(out@) =~= before + numbered(parts@).subrange(from as int, k as int));
    }
}

/// Asks the parser for the text that closes each transaction of a split.
fn know_commit()
    ensures
        commit_is_known(),
{
    let _ = parse_sql("COMMIT");
}

/// Splits each committed transaction of more than one DDL text into transactions of at most one.
///
/// The texts that are more than the frame of a transaction stay. Where each text is one statement
/// and none stands in the way of a split, the outcome passes the check of its transactions, and a
/// second split changes nothing and says nothing. No text that was parsed stands in the way.
pub fn fix_ddl_transactions(parts: &mut Vec<(usize, String)>, diagnostics: &mut Vec<Diagnostic>)
    ensures
        numbered(final(parts)@) == regrouped(parsed_parts(numbered(old(parts)@)), 0).0,
        findings(final(diagnostics)@) == findings(old(diagnostics)@) + regrouped(
            parsed_parts(numbered(old(parts)@)),
            0,
        ).1,
        commit_is_known(),
        work(numbered(final(parts)@)) == work(numbered(old(parts)@)),
        no_errors(parsed_parts(numbered(old(parts)@))) ==> all_parsed(
            regrouped(parsed_parts(numbered(old(parts)@)), 0).1,
        ),
        ({
            &&& singles(parsed_parts(numbered(old(parts)@)))
            &&& all_parsed(regrouped(parsed_parts(numbered(old(parts)@)), 0).1)
        }) ==> {
            &&& transaction_findings(parsed_parts(numbered(final(parts)@))) == Seq::<
                Finding,
            >::empty()
            &&& regrouped(parsed_parts(numbered(final(parts)@)), 0) == (
                numbered(final(parts)@),
                Seq::<Finding>::empty(),
            )
        },
{
    know_commit();
    let mut parsed: Vec<Result<Vec<Tree>, String>> = Vec::new();
    let mut i: usize = 0;
    while i < parts.len()
        invariant
            i <= parts.len(),
            *parts == *old(parts),
            parsed@.len() == i,
            forall|k: int|
                0 <= k < i ==> syntax_result(#[trigger] parsed@[k]) == sql_syntax(
                    trimmed(parts@[k].1@),
                ),
        decreases parts.len() - i,
    {
        parsed.push(parse_sql(trim(parts[i].1.as_str())));
        i += 1;
    }
    assert(with_syntax(parts@, parsed@) =~= parsed_parts(numbered(parts@)));
    let fixed = regroup_transactions(parts, &parsed, diagnostics);
    proof {
        let all = parsed_parts(numbered(parts@));
        assert(plains(all) =~= numbered(parts@));
        splits_keep_the_work(all);
        if no_errors(all) {
            parsed_scripts_are_split(all);
        }
        if singles(all) && all_parsed(regrouped(all, 0).1) {
            a_second_split_changes_nothing(all);
        }
    }
    *parts = fixed;
}

} // verus!
