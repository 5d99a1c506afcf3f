//! What becomes of each text of a script, told without the terms of the fix itself.

use vstd::prelude::*;

use crate::diagnostic::{Finding, LintRule};
use crate::dialect::sql_syntax;
use crate::lint::{
    all_rule_findings, changes, each_text_findings, fix_findings, fixed_sql, fixed_text,
    fixed_texts, lemma_all_rule_lines, nothing_left, printed_each, repaired_all, script,
    some_changes, sql_findings, text_findings,
};
use crate::rules::{repaired, rule_findings};
use crate::split::statements_of;
use crate::syntax::{field, items, payload, variant, Node};
use crate::text::laws::separators_stand_between;
use crate::text::{blank, joined, trimmed, without_semicolons};
use crate::transaction::{regrouped, transaction_findings, ParsedPart};

verus! {

/// The findings of a text are those of its statements, one after the other: none is left out, and
/// none comes twice.
pub proof fn statements_are_judged_one_by_one(a: Seq<Node>, statement: Node, b: Seq<Node>)
    ensures
        all_rule_findings(Seq::empty()) == Seq::<Finding>::empty(),
        all_rule_findings(seq![statement]) == rule_findings(statement),
        all_rule_findings(a + b) == all_rule_findings(a) + all_rule_findings(b),
    decreases b.len(),
{
    assert(seq![statement].drop_last() =~= Seq::empty());
    reveal_with_fuel(all_rule_findings, 2);
    assert(all_rule_findings(seq![statement]) =~= rule_findings(statement));
    if b.len() == 0 {
        assert(a + b =~= a);
        assert(all_rule_findings(a) + all_rule_findings(b) =~= all_rule_findings(a));
    } else {
        statements_are_judged_one_by_one(a, statement, b.drop_last());
        assert((a + b).drop_last() =~= a + b.drop_last());
        assert(all_rule_findings(a + b) =~= all_rule_findings(a) + all_rule_findings(b));
    }
}

/// What is said against a text that was parsed is what the rules say against its statements, with
/// the line and the text of the statement filled in, and all else as it was. Against a text that
/// was not parsed, the reason is said, and nothing else.
pub proof fn findings_keep_what_was_said(
    line: usize,
    text: Seq<char>,
    statements: Seq<Node>,
    error: Seq<char>,
)
    ensures
        text_findings(line, text, Ok(statements)).len() == all_rule_findings(statements).len(),
        forall|i: int|
            0 <= i < all_rule_findings(statements).len() ==> {
                let given = all_rule_findings(statements)[i];
                let told = #[trigger] text_findings(line, text, Ok(statements))[i];
                &&& told.rule == given.rule
                &&& told.message == given.message
                &&& told.suggestion == given.suggestion
                &&& told.fix == given.fix
                &&& told.line == line
                &&& told.statement == text
            },
        ({
            let told = text_findings(line, text, Err(error));
            &&& told.len() == 1
            &&& told[0].rule == LintRule::ParseError
            &&& told[0].line == line
            &&& told[0].statement == text
            &&& told[0].message == "Failed to parse SQL: "@ + error
            &&& told[0].fix is Unfixable
        }),
{
    lemma_all_rule_lines(statements);
}

/// The findings of some texts are those of each, one after the other; a blank text has none.
pub proof fn texts_are_judged_one_by_one(
    a: Seq<(usize, Seq<char>)>,
    line: usize,
    text: Seq<char>,
    b: Seq<(usize, Seq<char>)>,
)
    ensures
        each_text_findings(Seq::empty()) == Seq::<Finding>::empty(),
        each_text_findings(seq![(line, text)]) == if trimmed(text).len() == 0 {
            Seq::empty()
        } else {
            text_findings(line, text, sql_syntax(text))
        },
        each_text_findings(a + b) == each_text_findings(a) + each_text_findings(b),
    decreases b.len(),
{
    crate::text::laws::blank_texts_trim_to_nothing(text);
    let one = seq![(line, text)];
    assert(one.drop_last() =~= Seq::empty());
    assert(one.last() == (line, text));
    reveal_with_fuel(each_text_findings, 2);
    assert(each_text_findings(one) =~= if blank(text) {
        Seq::empty()
    } else {
        text_findings(line, text, sql_syntax(text))
    });
    if b.len() == 0 {
        assert(a + b =~= a);
        assert(each_text_findings(a) + each_text_findings(b) =~= each_text_findings(a));
    } else {
        texts_are_judged_one_by_one(a, line, text, b.drop_last());
        assert((a + b).drop_last() =~= a + b.drop_last());
        assert(each_text_findings(a + b) =~= each_text_findings(a) + each_text_findings(b));
    }
}

/// Each text with what the parser makes of it when it is trimmed.
pub open spec fn with_parses(parts: Seq<(usize, Seq<char>)>) -> Seq<ParsedPart> {
    Seq::new(
        parts.len(),
        |i: int|
            ParsedPart {
                line: parts[i].0,
                text: parts[i].1,
                syntax: sql_syntax(trimmed(parts[i].1)),
            },
    )
}

/// Linting SQL says what is to be said of each statement, then of the transactions that they make
/// up. Fixing it says the same of each statement, then what became of the transactions of the fixed
/// texts.
pub proof fn scripts_are_judged_whole(sql: Seq<char>, parts: Seq<(usize, Seq<char>)>)
    requires
        statements_of(sql) == Ok::<Seq<(usize, Seq<char>)>, Seq<char>>(parts),
    ensures
        sql_findings(sql) == each_text_findings(parts) + transaction_findings(with_parses(parts)),
        fix_findings(sql) == each_text_findings(parts) + regrouped(
            with_parses(fixed_texts(parts)),
            0,
        ).1,
        fixed_sql(sql) == script(regrouped(with_parses(fixed_texts(parts)), 0).0),
{
    assert(with_parses(parts) =~= crate::transaction::parsed_parts(parts));
    let fixed = fixed_texts(parts);
    assert(with_parses(fixed) =~= crate::transaction::parsed_parts(fixed));
}

/// SQL that the tokenizer refuses stays as it is; the reason is said, at the first line, and
/// nothing else.
pub proof fn unreadable_sql_stays(sql: Seq<char>, error: Seq<char>)
    requires
        statements_of(sql) == Err::<Seq<(usize, Seq<char>)>, Seq<char>>(error),
    ensures
        fixed_sql(sql) == sql,
        sql_findings(sql) == fix_findings(sql),
        sql_findings(sql).len() == 1,
        sql_findings(sql)[0].rule == LintRule::ParseError,
        sql_findings(sql)[0].line == 1,
        sql_findings(sql)[0].message == "Failed to tokenize SQL: "@ + error,
        sql_findings(sql)[0].fix is Unfixable,
{
}

/// Whether a statement is an `ALTER TABLE` with a list of no operations.
pub open spec fn has_no_operations(statement: Node) -> bool {
    &&& variant(statement) == Some("AlterTable"@)
    &&& field(payload(statement), "operations"@) is List
    &&& items(field(payload(statement), "operations"@)).len() == 0
}

proof fn lemma_nothing_left(statement: Node)
    ensures
        nothing_left(statement) == has_no_operations(statement),
{
    if let Node::List(all) = field(payload(statement), "operations"@) {
        if all.len() == 0 {
            assert(all =~= Seq::empty());
        }
    }
}

/// Whether something was done about a finding.
pub open spec fn is_repair(finding: Finding) -> bool {
    !(finding.fix is Unfixable)
}

proof fn lemma_some_changes(all: Seq<Finding>)
    ensures
        some_changes(all) == exists|i: int| 0 <= i < all.len() && is_repair(#[trigger] all[i]),
{
    if some_changes(all) {
        let i = choose|i: int| 0 <= i < all.len() && changes(#[trigger] all[i]);
        assert(is_repair(all[i]));
    }
    if exists|i: int| 0 <= i < all.len() && is_repair(#[trigger] all[i]) {
        let i = choose|i: int| 0 <= i < all.len() && is_repair(#[trigger] all[i]);
        assert(changes(all[i]));
    }
}

/// A text goes away exactly where it holds no statement, or where its first statement, once
/// repaired, is an `ALTER TABLE` without operations. Any other text gives one fixed text, at the
/// same line.
pub proof fn texts_go_away_when_emptied(line: usize, text: Seq<char>, statements: Seq<Node>)
    ensures
        fixed_text(line, text, Ok(statements)).len() == if statements.len() == 0
            || has_no_operations(repaired(statements[0])) {
            0nat
        } else {
            1nat
        },
        fixed_text(line, text, Ok(statements)).len() == 1 ==> fixed_text(
            line,
            text,
            Ok(statements),
        )[0].0 == line,
{
    if statements.len() > 0 {
        assert(repaired_all(statements)[0] == repaired(statements[0]));
        lemma_nothing_left(repaired(statements[0]));
    }
}

/// A text stays as it is, but for the semicolons at its end, where no rule has done anything about
/// it, and where it was not parsed.
pub proof fn texts_stay_unless_repaired(
    line: usize,
    text: Seq<char>,
    statements: Seq<Node>,
    error: Seq<char>,
)
    ensures
        fixed_text(line, text, Err(error)) == seq![(line, without_semicolons(text))],
        ({
            &&& statements.len() > 0
            &&& !has_no_operations(repaired(statements[0]))
            &&& forall|i: int|
                0 <= i < all_rule_findings(statements).len() ==> !is_repair(
                    #[trigger] all_rule_findings(statements)[i],
                )
        }) ==> fixed_text(line, text, Ok(statements)) == seq![(line, without_semicolons(text))],
{
    lemma_some_changes(all_rule_findings(statements));
    if statements.len() > 0 {
        assert(repaired_all(statements)[0] == repaired(statements[0]));
        lemma_nothing_left(repaired(statements[0]));
    }
}

/// A text of one statement that a rule has repaired becomes the repaired statement in print.
pub proof fn repaired_statements_are_printed(
    line: usize,
    text: Seq<char>,
    statement: Node,
    print: Seq<char>,
    i: int,
)
    requires
        0 <= i < rule_findings(statement).len(),
        is_repair(rule_findings(statement)[i]),
        !has_no_operations(repaired(statement)),
        crate::dialect::printed(repaired(statement)) == Some(print),
    ensures
        fixed_text(line, text, Ok(seq![statement])) == seq![(line, print)],
{
    let one = seq![statement];
    let after = repaired_all(one);
    statements_are_judged_one_by_one(Seq::empty(), statement, Seq::empty());
    lemma_some_changes(all_rule_findings(one));
    assert(is_repair(all_rule_findings(one)[i]));
    assert(after =~= seq![repaired(statement)]);
    lemma_nothing_left(repaired(statement));
    assert(after.drop_last() =~= Seq::empty());
    reveal_with_fuel(printed_each, 2);
    let lines = seq![print];
    assert(Seq::<Seq<char>>::empty().push(print) =~= lines);
    separators_stand_between(Seq::empty(), print, Seq::empty(), ";\n"@);
}

/// A text whose repaired statements do not all print stays as it is, but for the semicolons at its
/// end. Each statement of a text is repaired on its own.
pub proof fn texts_stay_unless_printed(line: usize, text: Seq<char>, statements: Seq<Node>, k: int)
    requires
        0 <= k < statements.len(),
        crate::dialect::printed(repaired(statements[k])) is None,
        !has_no_operations(repaired(statements[0])),
    ensures
        fixed_text(line, text, Ok(statements)) == seq![(line, without_semicolons(text))],
{
    let after = repaired_all(statements);
    assert(after[0] == repaired(statements[0]));
    assert(after[k] == repaired(statements[k]));
    lemma_nothing_left(repaired(statements[0]));
    lemma_unprinted(after, k);
}

proof fn lemma_unprinted(statements: Seq<Node>, k: int)
    requires
        0 <= k < statements.len(),
        crate::dialect::printed(statements[k]) is None,
    ensures
        printed_each(statements) is None,
    decreases statements.len(),
{
    if k < statements.len() - 1 {
        lemma_unprinted(statements.drop_last(), k);
    }
}

/// Fixing takes the texts one by one, in their order, and keeps a blank one.
pub proof fn texts_are_fixed_one_by_one(
    a: Seq<(usize, Seq<char>)>,
    line: usize,
    text: Seq<char>,
    b: Seq<(usize, Seq<char>)>,
)
    ensures
        fixed_texts(Seq::empty()) == Seq::<(usize, Seq<char>)>::empty(),
        fixed_texts(seq![(line, text)]) == if trimmed(text).len() == 0 {
            seq![(line, text)]
        } else {
            fixed_text(line, text, sql_syntax(text))
        },
        fixed_texts(a + b) == fixed_texts(a) + fixed_texts(b),
    decreases b.len(),
{
    crate::text::laws::blank_texts_trim_to_nothing(text);
    let one = seq![(line, text)];
    assert(one.drop_last() =~= Seq::empty());
    assert(one.last() == (line, text));
    reveal_with_fuel(fixed_texts, 2);
    assert(fixed_texts(one) =~= if blank(text) {
        seq![(line, text)]
    } else {
        fixed_text(line, text, sql_syntax(text))
    });
    if b.len() == 0 {
        assert(a + b =~= a);
        assert(fixed_texts(a) + fixed_texts(b) =~= fixed_texts(a));
    } else {
        texts_are_fixed_one_by_one(a, line, text, b.drop_last());
        assert((a + b).drop_last() =~= a + b.drop_last());
        assert(fixed_texts(a + b) =~= fixed_texts(a) + fixed_texts(b));
    }
}

/// A script is its texts in their order, each with a semicolon and a newline behind it, and an
/// empty line between neighbours; no texts make an empty script.
pub proof fn scripts_hold_their_texts(
    a: Seq<(usize, Seq<char>)>,
    line: usize,
    text: Seq<char>,
)
    requires
        text.len() > 0,
        a.len() > 0 ==> a[0].1.len() > 0,
    ensures
        script(Seq::empty()).len() == 0,
        script(seq![(line, text)]) == text + ";\n"@,
        a.len() > 0 ==> script(a.push((line, text))) == script(a) + "\n"@ + text + ";\n"@,
{
    let of = |part: (usize, Seq<char>)| part.1;
    let one = seq![(line, text)];
    let none = Seq::<(usize, Seq<char>)>::empty();
    assert(none.map_values(of) =~= Seq::<Seq<char>>::empty());
    assert(one.map_values(of) =~= seq![text]);
    separators_stand_between(Seq::empty(), text, Seq::empty(), ";\n\n"@);
    if a.len() > 0 {
        let texts = a.map_values(of);
        assert(a.push((line, text)).map_values(of) =~= texts + seq![text]);
        separators_stand_between(texts, text, seq![text], ";\n\n"@);
        lemma_joined_is_long(texts);
        assert(texts[0] == a[0].1);
        reveal_strlit(";\n\n");
        reveal_strlit(";\n");
        reveal_strlit("\n");
        assert(";\n\n"@ =~= ";\n"@ + "\n"@);
        assert(script(a.push((line, text))) =~= script(a) + "\n"@ + text + ";\n"@);
    }
}

proof fn lemma_joined_is_long(texts: Seq<Seq<char>>)
    ensures
        texts.len() > 0 ==> joined(texts, ";\n\n"@).len() >= texts[0].len(),
    decreases texts.len(),
{
    if texts.len() > 1 {
        lemma_joined_is_long(texts.drop_last());
    }
}

} // verus!
