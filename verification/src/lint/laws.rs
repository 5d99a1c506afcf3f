//! What holds of linting and fixing for every script.

use vstd::prelude::*;

use crate::diagnostic::Finding;
use crate::dialect::sql_syntax;
use crate::lint::{
    all_rule_findings, changes, each_text_findings, fix_findings, fixed_sql, fixed_text,
    fixed_texts, lemma_all_rule_lines, located, nothing_left, printed_each, repaired_all, script,
    some_changes, sql_findings, text_findings, verbatim,
};
use crate::rules::laws::{commits_break_no_rule, repairs_are_complete, repairs_are_reported};
use crate::rules::{repaired, rule_findings};
use crate::split::laws::{moved_statements, newlines, newlines_move};
use crate::split::statements_of;
use crate::syntax::{field, is_variant, payload, Node};
use crate::text::{blank, is_space, joined, trimmed, without_semicolons};
use crate::transaction::laws::{
    all_parsed, commit_is_known, known, passing_scripts_are_not_split, single, singles,
    split_transactions_pass_the_check, splits_bring_in_commits_alone, the_check_goes_by_the_syntax,
};
use crate::transaction::{
    after_parts, after_statements, at_part, at_statement, at_statements, ddl_count, lemma_stop,
    parsed_parts, part_begins, part_commits, plains, regrouped, stop, transaction_findings, Open,
    ParsedPart,
};

verus! {

/// What is said against a text names the line that the text starts on, and the text.
pub proof fn findings_name_their_statement(
    line: usize,
    text: Seq<char>,
    syntax: Result<Seq<Node>, Seq<char>>,
)
    ensures
        forall|i: int|
            0 <= i < text_findings(line, text, syntax).len() ==> {
                &&& (#[trigger] text_findings(line, text, syntax)[i]).line == line
                &&& text_findings(line, text, syntax)[i].statement == text
            },
{
    if let Ok(statements) = syntax {
        lemma_all_rule_lines(statements);
    }
}

/// Fixing says of each statement what linting says of it.
pub proof fn fixing_finds_what_linting_finds(sql: Seq<char>)
    ensures
        match statements_of(sql) {
            Ok(parts) => {
                let count = each_text_findings(parts).len() as int;
                &&& count <= sql_findings(sql).len()
                &&& count <= fix_findings(sql).len()
                &&& sql_findings(sql).take(count) == each_text_findings(parts)
                &&& fix_findings(sql).take(count) == each_text_findings(parts)
            },
            Err(_) => sql_findings(sql) == fix_findings(sql),
        },
{
    if let Ok(parts) = statements_of(sql) {
        let all = each_text_findings(parts);
        assert(sql_findings(sql).take(all.len() as int) =~= all);
        assert(fix_findings(sql).take(all.len() as int) =~= all);
    }
}

/// A text that no rule claims to have changed stays as it is, but for the semicolons at its end. A
/// text without statements, or with an `ALTER TABLE` without operations, goes away.
pub proof fn untouched_texts_stay(line: usize, text: Seq<char>, statements: Seq<Node>)
    requires
        !some_changes(all_rule_findings(statements)),
        statements.len() > 0,
        !nothing_left(statements[0]),
    ensures
        fixed_text(line, text, Ok(statements)) == seq![verbatim(line, text)],
{
    lemma_first_untouched(statements);
}

proof fn lemma_first_untouched(statements: Seq<Node>)
    requires
        !some_changes(all_rule_findings(statements)),
        statements.len() > 0,
    ensures
        repaired(statements[0]) == statements[0],
    decreases statements.len(),
{
    let front = all_rule_findings(statements.drop_last());
    let last = rule_findings(statements.last());
    if statements.len() == 1 {
        assert(statements.drop_last() =~= Seq::empty());
        assert(all_rule_findings(statements) =~= last);
        repairs_are_reported(statements[0]);
    } else {
        if some_changes(front) {
            let i = choose|i: int| 0 <= i < front.len() && changes(#[trigger] front[i]);
            assert(changes((front + last)[i]));
        }
        lemma_first_untouched(statements.drop_last());
        assert(statements.drop_last()[0] == statements[0]);
    }
}

/// Whether a text that can be parsed holds a statement, of which something is left, and reads the
/// same to the parser without the semicolons at its end: as one statement at most.
pub open spec fn plain_statement(text: Seq<char>) -> bool {
    &&& sql_syntax(text) matches Ok(statements) ==> statements.len() > 0 && !nothing_left(
        statements[0],
    )
    &&& sql_syntax(trimmed(without_semicolons(text))) == sql_syntax(trimmed(text))
    &&& sql_syntax(trimmed(text)) matches Ok(statements) ==> statements.len() <= 1
}

/// Each text without the semicolons at its end.
pub open spec fn verbatim_texts(parts: Seq<(usize, Seq<char>)>) -> Seq<(usize, Seq<char>)> {
    parts.map_values(|part: (usize, Seq<char>)| verbatim(part.0, part.1))
}

/// SQL without findings stays as it is, statement by statement, and nothing is said of its fix.
pub proof fn clean_sql_stays(sql: Seq<char>)
    requires
        sql_findings(sql).len() == 0,
        statements_of(sql) matches Ok(parts) ==> forall|k: int|
            0 <= k < parts.len() ==> plain_statement((#[trigger] parts[k]).1),
    ensures
        statements_of(sql) matches Ok(parts) && fixed_sql(sql) == script(verbatim_texts(parts)),
        fix_findings(sql).len() == 0,
{
    let parts = statements_of(sql)->Ok_0;
    let kept = verbatim_texts(parts);
    assert(each_text_findings(parts).len() == 0);
    lemma_clean_texts(parts);
    let before = parsed_parts(parts);
    let after = parsed_parts(kept);
    assert(transaction_findings(before).len() == 0);
    assert forall|k: int| 0 <= k < before.len() implies (#[trigger] before[k]).syntax is Err
        || single(before[k]) by {
        assert(plain_statement(parts[k].1));
    }
    assert forall|k: int| 0 <= k < after.len() implies (#[trigger] after[k]).syntax
        == before[k].syntax by {
        assert(plain_statement(parts[k].1));
    }
    the_check_goes_by_the_syntax(before, after);
    passing_scripts_are_not_split(after);
    assert(plains(after) =~= kept);
}

proof fn lemma_clean_texts(parts: Seq<(usize, Seq<char>)>)
    requires
        each_text_findings(parts).len() == 0,
        forall|k: int| 0 <= k < parts.len() ==> plain_statement((#[trigger] parts[k]).1),
    ensures
        fixed_texts(parts) == verbatim_texts(parts),
    decreases parts.len(),
{
    if parts.len() == 0 {
        assert(verbatim_texts(parts) =~= Seq::empty());
    } else {
        let front = parts.drop_last();
        let (line, text) = parts.last();
        assert forall|k: int| 0 <= k < front.len() implies plain_statement(
            (#[trigger] front[k]).1,
        ) by {
            assert(front[k] == parts[k]);
        }
        lemma_clean_texts(front);
        assert(plain_statement(parts[parts.len() - 1].1));
        if blank(text) {
            lemma_blank_has_no_semicolon(text);
        } else {
            let syntax = sql_syntax(text);
            assert(text_findings(line, text, syntax).len() == 0);
            if let Ok(statements) = syntax {
                assert(all_rule_findings(statements).len() == 0);
                untouched_texts_stay(line, text, statements);
            } else {
                assert(text_findings(line, text, syntax).len() == 1);
            }
        }
        assert(fixed_texts(parts) =~= fixed_texts(front) + seq![verbatim(line, text)]);
        assert(verbatim_texts(parts) =~= verbatim_texts(front) + seq![verbatim(line, text)]);
    }
}

proof fn lemma_blank_has_no_semicolon(text: Seq<char>)
    requires
        blank(text),
    ensures
        without_semicolons(text) == text,
{
    if text.len() > 0 {
        assert(is_space(text[text.len() - 1]));
    }
}

/// A finding some lines further down.
pub open spec fn moved_finding(finding: Finding, k: nat) -> Finding {
    Finding { line: (finding.line + k) as usize, ..finding }
}

/// Findings some lines further down.
pub open spec fn moved_findings(all: Seq<Finding>, k: nat) -> Seq<Finding> {
    all.map_values(|finding: Finding| moved_finding(finding, k))
}

proof fn lemma_moved_add(a: Seq<Finding>, b: Seq<Finding>, k: nat)
    ensures
        moved_findings(a + b, k) == moved_findings(a, k) + moved_findings(b, k),
{
    assert(moved_findings(a + b, k) =~= moved_findings(a, k) + moved_findings(b, k));
}

proof fn lemma_moved_text(
    line: usize,
    text: Seq<char>,
    syntax: Result<Seq<Node>, Seq<char>>,
    k: nat,
)
    ensures
        text_findings((line + k) as usize, text, syntax) == moved_findings(
            text_findings(line, text, syntax),
            k,
        ),
{
    if let Ok(statements) = syntax {
        lemma_all_rule_lines(statements);
    }
    assert(text_findings((line + k) as usize, text, syntax) =~= moved_findings(
        text_findings(line, text, syntax),
        k,
    ));
}

proof fn lemma_moved_texts(parts: Seq<(usize, Seq<char>)>, k: nat)
    ensures
        each_text_findings(moved_statements(parts, k)) == moved_findings(
            each_text_findings(parts),
            k,
        ),
    decreases parts.len(),
{
    let moved = moved_statements(parts, k);
    if parts.len() == 0 {
        assert(each_text_findings(moved) =~= moved_findings(each_text_findings(parts), k));
    } else {
        let front = parts.drop_last();
        let (line, text) = parts.last();
        lemma_moved_texts(front, k);
        assert(moved.drop_last() =~= moved_statements(front, k));
        let here = if blank(text) {
            Seq::empty()
        } else {
            text_findings(line, text, sql_syntax(text))
        };
        lemma_moved_text(line, text, sql_syntax(text), k);
        lemma_moved_add(each_text_findings(front), here, k);
        assert(moved_findings(Seq::empty(), k) =~= Seq::empty());
    }
}

/// A transaction some lines further down.
spec fn moved_open(open: Option<Open>, k: nat) -> Option<Open> {
    match open {
        Some(txn) => Some(Open { line: (txn.line + k) as usize, ..txn }),
        None => None,
    }
}

proof fn lemma_moved_statements(
    open: Option<Open>,
    line: usize,
    text: Seq<char>,
    statements: Seq<Node>,
    k: nat,
)
    ensures
        after_statements(moved_open(open, k), (line + k) as usize, text, statements) == moved_open(
            after_statements(open, line, text, statements),
            k,
        ),
        at_statements(moved_open(open, k), (line + k) as usize, text, statements)
            == moved_findings(at_statements(open, line, text, statements), k),
    decreases statements.len(),
{
    let further = (line + k) as usize;
    if statements.len() == 0 {
        assert(moved_findings(Seq::empty(), k) =~= Seq::empty());
    } else {
        let front = statements.drop_last();
        let last = statements.last();
        lemma_moved_statements(open, line, text, front, k);
        let before = after_statements(open, line, text, front);
        assert(at_statement(moved_open(before, k), last) =~= moved_findings(
            at_statement(before, last),
            k,
        ));
        lemma_moved_add(at_statements(open, line, text, front), at_statement(before, last), k);
    }
}

proof fn lemma_moved_parts(parts: Seq<(usize, Seq<char>)>, k: nat)
    ensures
        after_parts(parsed_parts(moved_statements(parts, k))) == moved_open(
            after_parts(parsed_parts(parts)),
            k,
        ),
        transaction_findings(parsed_parts(moved_statements(parts, k))) == moved_findings(
            transaction_findings(parsed_parts(parts)),
            k,
        ),
    decreases parts.len(),
{
    let all = parsed_parts(parts);
    let moved = parsed_parts(moved_statements(parts, k));
    if parts.len() == 0 {
        assert(transaction_findings(moved) =~= moved_findings(transaction_findings(all), k));
    } else {
        let front = parts.drop_last();
        let (line, text) = parts.last();
        lemma_moved_parts(front, k);
        assert(all.drop_last() =~= parsed_parts(front));
        assert(moved.drop_last() =~= parsed_parts(moved_statements(front, k)));
        let before = after_parts(parsed_parts(front));
        let part = all.last();
        if let Ok(statements) = part.syntax {
            lemma_moved_statements(before, line, text, statements, k);
        }
        assert(at_part(moved_open(before, k), moved.last()) =~= moved_findings(
            at_part(before, part),
            k,
        ));
        lemma_moved_add(transaction_findings(all.drop_last()), at_part(before, part), k);
    }
}

/// Whether findings name lines up to `last` alone.
pub open spec fn up_to(all: Seq<Finding>, last: int) -> bool {
    forall|i: int| 0 <= i < all.len() ==> (#[trigger] all[i]).line <= last
}

proof fn lemma_up_to_add(a: Seq<Finding>, b: Seq<Finding>, last: int)
    requires
        up_to(a, last),
        up_to(b, last),
    ensures
        up_to(a + b, last),
{
    assert forall|i: int| 0 <= i < (a + b).len() implies (#[trigger] (a + b)[i]).line <= last by {
        if i < a.len() {
            assert((a + b)[i] == a[i]);
        } else {
            assert((a + b)[i] == b[i - a.len()]);
        }
    }
}

proof fn lemma_statements_up_to(
    open: Option<Open>,
    line: usize,
    text: Seq<char>,
    statements: Seq<Node>,
    last: int,
)
    requires
        open matches Some(txn) ==> txn.line <= last,
        line <= last,
    ensures
        after_statements(open, line, text, statements) matches Some(txn) ==> txn.line <= last,
        up_to(at_statements(open, line, text, statements), last),
    decreases statements.len(),
{
    if statements.len() > 0 {
        let front = statements.drop_last();
        lemma_statements_up_to(open, line, text, front, last);
        let before = after_statements(open, line, text, front);
        lemma_up_to_add(
            at_statements(open, line, text, front),
            at_statement(before, statements.last()),
            last,
        );
    }
}

proof fn lemma_lines_up_to(parts: Seq<(usize, Seq<char>)>, last: int)
    requires
        forall|i: int| 0 <= i < parts.len() ==> (#[trigger] parts[i]).0 <= last,
    ensures
        up_to(each_text_findings(parts), last),
        up_to(transaction_findings(parsed_parts(parts)), last),
        after_parts(parsed_parts(parts)) matches Some(txn) ==> txn.line <= last,
    decreases parts.len(),
{
    if parts.len() > 0 {
        let front = parts.drop_last();
        let (line, text) = parts.last();
        assert(parts[parts.len() - 1].0 <= last);
        assert forall|i: int| 0 <= i < front.len() implies (#[trigger] front[i]).0 <= last by {
            assert(front[i] == parts[i]);
        }
        lemma_lines_up_to(front, last);
        findings_name_their_statement(line, text, sql_syntax(text));
        let here = if blank(text) {
            Seq::empty()
        } else {
            text_findings(line, text, sql_syntax(text))
        };
        lemma_up_to_add(each_text_findings(front), here, last);
        let all = parsed_parts(parts);
        assert(all.drop_last() =~= parsed_parts(front));
        let before = after_parts(parsed_parts(front));
        if let Ok(statements) = all.last().syntax {
            lemma_statements_up_to(before, line, text, statements, last);
        }
        lemma_up_to_add(transaction_findings(all.drop_last()), at_part(before, all.last()), last);
    }
}

/// Newlines in front of SQL move every line that linting names by their number, and change nothing
/// else; no line leaves the machine's range. That is so of all SQL whose statements move with the
/// newlines, as splitting it shows.
pub proof fn newlines_move_findings(sql: Seq<char>, parts: Seq<(usize, Seq<char>)>, k: nat)
    requires
        statements_of(sql) == Ok::<Seq<(usize, Seq<char>)>, Seq<char>>(parts),
        newlines_move(sql, parts),
        sql.len() + k < usize::MAX,
    ensures
        sql_findings(newlines(k) + sql) == moved_findings(sql_findings(sql), k),
        up_to(sql_findings(sql), usize::MAX - k),
{
    assert(statements_of(newlines(k) + sql) is Ok);
    lemma_lines_up_to(parts, usize::MAX - k);
    lemma_up_to_add(
        each_text_findings(parts),
        transaction_findings(parsed_parts(parts)),
        usize::MAX - k,
    );
    lemma_moved_texts(parts, k);
    lemma_moved_parts(parts, k);
    lemma_moved_add(each_text_findings(parts), transaction_findings(parsed_parts(parts)), k);
}

/// Whether the parser takes a text for statements against which the rules say the same as against
/// `statements`.
pub open spec fn reads_as(text: Seq<char>, statements: Seq<Node>) -> bool {
    sql_syntax(text) matches Ok(read) && all_rule_findings(read) == all_rule_findings(statements)
}

/// Whether the printer and the parser lose nothing of a text that is fixed. What is printed, or
/// stands without the semicolons at its end, is read back as what it was. An index says whether it
/// is `ASYNC`.
pub open spec fn reads_back(text: Seq<char>) -> bool {
    sql_syntax(text) matches Ok(statements) ==> {
        let after = repaired_all(statements);
        &&& forall|i: int|
            0 <= i < statements.len() && is_variant(#[trigger] statements[i], "CreateIndex"@)
                ==> field(payload(statements[i]), "async"@) is Flag
        &&& after.len() > 0 && !nothing_left(after[0]) ==> if some_changes(
            all_rule_findings(statements),
        ) {
            printed_each(after) matches Some(lines) && reads_as(joined(lines, ";\n"@), after)
        } else {
            reads_as(without_semicolons(text), statements)
        }
    }
}

/// Whether nothing is said of an issue that stays.
pub open spec fn all_fixed(said: Seq<Finding>) -> bool {
    forall|k: int| 0 <= k < said.len() ==> !((#[trigger] said[k]).fix is Unfixable)
}

/// Whether linting says nothing against a text on its own.
pub open spec fn clean(text: Seq<char>) -> bool {
    ||| blank(text)
    ||| sql_syntax(text) matches Ok(statements) && all_rule_findings(statements).len() == 0
}

/// Whether each text is clean on its own.
pub open spec fn all_clean(parts: Seq<(usize, Seq<char>)>) -> bool {
    forall|k: int| 0 <= k < parts.len() ==> clean((#[trigger] parts[k]).1)
}

proof fn lemma_repaired_settles(statements: Seq<Node>)
    requires
        forall|i: int|
            0 <= i < statements.len() && is_variant(#[trigger] statements[i], "CreateIndex"@)
                ==> field(payload(statements[i]), "async"@) is Flag,
        all_fixed(all_rule_findings(statements)),
    ensures
        all_rule_findings(repaired_all(statements)).len() == 0,
    decreases statements.len(),
{
    let after = repaired_all(statements);
    if statements.len() > 0 {
        let front = statements.drop_last();
        let last = statements.last();
        let said = all_rule_findings(statements);
        let early = all_rule_findings(front);
        let late = rule_findings(last);
        assert forall|k: int| 0 <= k < early.len() implies !((#[trigger] early[k]).fix
            is Unfixable) by {
            assert(said[k] == early[k]);
        }
        assert forall|i: int|
            0 <= i < front.len() && is_variant(
                #[trigger] front[i],
                "CreateIndex"@,
            ) implies field(payload(front[i]), "async"@) is Flag by {
            assert(front[i] == statements[i]);
        }
        lemma_repaired_settles(front);
        assert(after.drop_last() =~= repaired_all(front));
        assert(last == statements[statements.len() - 1]);
        repairs_are_complete(last);
        let left = rule_findings(repaired(last));
        if left.len() > 0 {
            assert(left[0].fix is Unfixable && late.contains(left[0]));
            let k = choose|k: int| 0 <= k < late.len() && late[k] == left[0];
            assert(said[early.len() + k] == late[k]);
        }
    }
}

proof fn lemma_fixed_text_is_clean(line: usize, text: Seq<char>)
    requires
        !blank(text),
        all_fixed(text_findings(line, text, sql_syntax(text))),
        reads_back(text),
    ensures
        all_clean(fixed_text(line, text, sql_syntax(text))),
{
    let said = text_findings(line, text, sql_syntax(text));
    match sql_syntax(text) {
        Err(error) => {
            assert(said[0].fix is Unfixable);
        },
        Ok(statements) => {
            let all = all_rule_findings(statements);
            assert forall|k: int| 0 <= k < all.len() implies !((#[trigger] all[k]).fix
                is Unfixable) by {
                assert(said[k] == located(all[k], line, text));
            }
            lemma_repaired_settles(statements);
            if !some_changes(all) && all.len() > 0 {
                assert(changes(all[0]));
            }
        },
    }
}

proof fn lemma_fixed_texts_are_clean(parts: Seq<(usize, Seq<char>)>)
    requires
        all_fixed(each_text_findings(parts)),
        forall|k: int| 0 <= k < parts.len() ==> reads_back((#[trigger] parts[k]).1),
    ensures
        all_clean(fixed_texts(parts)),
    decreases parts.len(),
{
    if parts.len() > 0 {
        let front = parts.drop_last();
        let (line, text) = parts.last();
        let said = each_text_findings(parts);
        let early = each_text_findings(front);
        assert(reads_back(parts[parts.len() - 1].1));
        assert forall|k: int| 0 <= k < early.len() implies !((#[trigger] early[k]).fix
            is Unfixable) by {
            assert(said[k] == early[k]);
        }
        assert forall|k: int| 0 <= k < front.len() implies reads_back((#[trigger] front[k]).1) by {
            assert(front[k] == parts[k]);
        }
        lemma_fixed_texts_are_clean(front);
        if !blank(text) {
            let late = text_findings(line, text, sql_syntax(text));
            assert forall|k: int| 0 <= k < late.len() implies !((#[trigger] late[k]).fix
                is Unfixable) by {
                assert(said[early.len() + k] == late[k]);
            }
            lemma_fixed_text_is_clean(line, text);
        }
    }
}

proof fn lemma_nothing_said(parts: Seq<(usize, Seq<char>)>)
    requires
        all_clean(parts),
    ensures
        each_text_findings(parts).len() == 0,
    decreases parts.len(),
{
    if parts.len() > 0 {
        let front = parts.drop_last();
        assert forall|k: int| 0 <= k < front.len() implies clean((#[trigger] front[k]).1) by {
            assert(front[k] == parts[k]);
        }
        lemma_nothing_said(front);
        assert(clean(parts[parts.len() - 1].1));
    }
}

proof fn lemma_parse_errors_stay(parts: Seq<ParsedPart>, i: int)
    requires
        all_fixed(regrouped(parts, i).1),
    ensures
        all_parsed(regrouped(parts, i).1),
    decreases parts.len() - i,
{
    if 0 <= i < parts.len() {
        let j = stop(parts, i + 1);
        lemma_stop(parts, i + 1);
        let said = regrouped(parts, i).1;
        if !part_begins(parts[i]) || j >= parts.len() {
            lemma_parse_errors_stay(parts, i + 1);
        } else if parts[j].syntax is Err {
            assert(said[0].fix is Unfixable);
        } else if !part_commits(parts[j]) {
            lemma_parse_errors_stay(parts, i + 1);
        } else {
            let later = regrouped(parts, j + 1).1;
            let many = ddl_count(parts.subrange(i + 1, j)) > 1;
            assert forall|k: int| 0 <= k < later.len() implies !((#[trigger] later[k]).fix
                is Unfixable) by {
                assert(later[k] == if many {
                    said[k + 1]
                } else {
                    said[k]
                });
            }
            lemma_parse_errors_stay(parts, j + 1);
        }
    }
}

/// Whether the fixed form of SQL comes back from the printer, the parser and the tokenizer as it
/// was: nothing of a statement is lost, each fixed text holds one statement at most, and the fixed
/// script splits into the texts that it was put together from.
pub open spec fn comes_back(sql: Seq<char>) -> bool {
    statements_of(sql) matches Ok(parts) ==> {
        let fixed = parsed_parts(fixed_texts(parts));
        let out = regrouped(fixed, 0).0;
        &&& forall|k: int| 0 <= k < parts.len() ==> reads_back((#[trigger] parts[k]).1)
        &&& singles(fixed)
        &&& statements_of(fixed_sql(sql)) matches Ok(again)
        &&& again.len() == out.len()
        &&& forall|k: int| 0 <= k < out.len() ==> (#[trigger] again[k]).1 == out[k].1
    }
}

/// SQL of which nothing is said that could not be fixed is clean once it is fixed, where the fixed
/// form comes back as it was.
pub proof fn fixed_sql_is_clean(sql: Seq<char>)
    requires
        commit_is_known(),
        all_fixed(fix_findings(sql)),
        comes_back(sql),
    ensures
        sql_findings(fixed_sql(sql)).len() == 0,
{
    match statements_of(sql) {
        Err(error) => {
            assert(fix_findings(sql)[0].fix is Unfixable);
        },
        Ok(parts) => {
            let fixed = parsed_parts(fixed_texts(parts));
            let (out, split) = regrouped(fixed, 0);
            let each = each_text_findings(parts);
            let said = fix_findings(sql);
            assert forall|k: int| 0 <= k < each.len() implies !((#[trigger] each[k]).fix
                is Unfixable) by {
                assert(said[k] == each[k]);
            }
            assert forall|k: int| 0 <= k < split.len() implies !((#[trigger] split[k]).fix
                is Unfixable) by {
                assert(said[each.len() + k] == split[k]);
            }
            lemma_fixed_texts_are_clean(parts);
            lemma_parse_errors_stay(fixed, 0);
            split_transactions_pass_the_check(fixed);
            splits_bring_in_commits_alone(fixed);
            let again = statements_of(fixed_sql(sql))->Ok_0;
            assert forall|k: int| 0 <= k < again.len() implies clean((#[trigger] again[k]).1) by {
                assert(again[k].1 == out[k].1);
                assert(known(out[k].1, fixed));
                if out[k].1 == "COMMIT"@ {
                    lemma_commit_is_clean();
                } else {
                    let i = choose|i: int|
                        0 <= i < fixed.len() && (#[trigger] fixed[i]).text == out[k].1;
                    assert(clean(fixed_texts(parts)[i].1));
                }
            }
            lemma_nothing_said(again);
            let before = parsed_parts(out);
            let after = parsed_parts(again);
            assert forall|k: int| 0 <= k < after.len() implies (#[trigger] after[k]).syntax
                == before[k].syntax by {
                assert(again[k].1 == out[k].1);
            }
            the_check_goes_by_the_syntax(before, after);
        },
    }
}

proof fn lemma_commit_is_clean()
    requires
        commit_is_known(),
    ensures
        clean("COMMIT"@),
{
    let statements = sql_syntax("COMMIT"@)->Ok_0;
    commits_break_no_rule(statements[0]);
    assert(statements.drop_last() =~= Seq::empty());
    assert(all_rule_findings(statements.drop_last()).len() == 0);
}

} // verus!
