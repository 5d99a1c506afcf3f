//! What holds of transactions in every script.

use vstd::prelude::*;

use crate::diagnostic::{multi_ddl_finding, Finding, Fix, LintRule};
use crate::dialect::{one_commit, sql_syntax};
use crate::syntax::{variant, Node};
use crate::text::{is_space, trim_end, trim_start, trimmed};
use crate::transaction::{
    after_part, after_parts, after_statement, after_statements, at_part, at_statement,
    at_statements, begins, block, commits, ddl, ddl_count, ends, parsed_part, parsed_parts,
    part_begins, part_commits, part_ends, part_is_ddl, plain, plains, regrouped, settled,
    some_begins, some_commits, some_ddl, some_ends, split_up, stop, transaction_findings, waiting,
    Open, ParsedPart,
};

verus! {

/// Whether a text was parsed and holds one statement at most.
pub open spec fn single(part: ParsedPart) -> bool {
    part.syntax matches Ok(statements) && statements.len() <= 1
}

/// Whether each text cannot be parsed or holds one statement at most.
pub open spec fn singles(parts: Seq<ParsedPart>) -> bool {
    forall|k: int| 0 <= k < parts.len() ==> (#[trigger] parts[k]).syntax is Err || single(parts[k])
}

/// Whether each text was parsed.
pub open spec fn no_errors(parts: Seq<ParsedPart>) -> bool {
    forall|k: int| 0 <= k < parts.len() ==> (#[trigger] parts[k]).syntax is Ok
}

/// Whether what is said names nothing that could not be parsed.
pub open spec fn all_parsed(said: Seq<Finding>) -> bool {
    forall|k: int| 0 <= k < said.len() ==> (#[trigger] said[k]).rule != LintRule::ParseError
}

/// Whether each part goes with what the parser makes of its text.
pub open spec fn faithful(parts: Seq<ParsedPart>) -> bool {
    forall|k: int| 0 <= k < parts.len() ==> #[trigger] parts[k] == parsed_part(plain(parts[k]))
}

/// Whether the parser takes `COMMIT` for one statement that keeps the work of a transaction.
pub open spec fn commit_is_known() -> bool {
    one_commit(sql_syntax("COMMIT"@))
}

proof fn lemma_kinds(statement: Node)
    ensures
        begins(statement) ==> !ends(statement) && !ddl(statement),
        ends(statement) ==> !ddl(statement),
{
    reveal_strlit("StartTransaction");
    reveal_strlit("Commit");
    reveal_strlit("Rollback");
    reveal_strlit("CreateTable");
    reveal_strlit("CreateIndex");
    reveal_strlit("CreateView");
    reveal_strlit("CreateSequence");
    reveal_strlit("CreateType");
    reveal_strlit("CreateFunction");
    reveal_strlit("CreateProcedure");
    reveal_strlit("CreateTrigger");
    reveal_strlit("CreateExtension");
    reveal_strlit("CreateSchema");
    reveal_strlit("CreateDatabase");
    reveal_strlit("CreatePolicy");
    reveal_strlit("CreateServer");
    reveal_strlit("AlterTable");
    reveal_strlit("AlterIndex");
    reveal_strlit("Drop");
    reveal_strlit("Truncate");
    if let Some(name) = variant(statement) {
        if begins(statement) {
            assert(name.len() == 16);
        }
        if commits(statement) {
            assert(name.len() == 6);
        }
        if ends(statement) && !commits(statement) {
            assert(name.len() == 8 && name[0] == 'R');
        }
        if ddl(statement) {
            assert(name.len() != 16 && name.len() != 6);
            assert(name.len() == 8 ==> name[0] == 'T');
        }
    }
}

/// The transaction behind some texts, and what they bring to light, where a transaction may be open
/// already.
spec fn run(open: Option<Open>, parts: Seq<ParsedPart>) -> (Option<Open>, Seq<Finding>)
    decreases parts.len(),
{
    if parts.len() == 0 {
        (open, Seq::empty())
    } else {
        let front = run(open, parts.drop_last());
        (after_part(front.0, parts.last()), front.1 + at_part(front.0, parts.last()))
    }
}

proof fn lemma_run_is_check(parts: Seq<ParsedPart>)
    ensures
        run(None, parts) == (after_parts(parts), transaction_findings(parts)),
    decreases parts.len(),
{
    if parts.len() > 0 {
        lemma_run_is_check(parts.drop_last());
    }
}

proof fn lemma_run_add(open: Option<Open>, a: Seq<ParsedPart>, b: Seq<ParsedPart>)
    ensures
        run(open, a + b) == (run(run(open, a).0, b).0, run(open, a).1 + run(run(open, a).0, b).1),
    decreases b.len(),
{
    if b.len() == 0 {
        assert(a + b =~= a);
        assert(run(open, a).1 + run(run(open, a).0, b).1 =~= run(open, a).1);
    } else {
        lemma_run_add(open, a, b.drop_last());
        assert((a + b).drop_last() =~= a + b.drop_last());
        let middle = run(open, a);
        let front = run(middle.0, b.drop_last());
        assert(run(open, a + b).1 =~= middle.1 + (front.1 + at_part(front.0, b.last())));
    }
}

pub proof fn lemma_single(open: Option<Open>, part: ParsedPart)
    requires
        single(part),
    ensures
        after_part(open, part) == if part_begins(part) {
            if open is None {
                Some(Open { line: part.line, text: part.text, ddl: 0 })
            } else {
                open
            }
        } else if part_ends(part) {
            None
        } else {
            match open {
                Some(txn) if part_is_ddl(part) => Some(Open { ddl: txn.ddl + 1, ..txn }),
                _ => open,
            }
        },
        !(part_commits(part) && open is Some && open->0.ddl > 1) ==> at_part(open, part)
            == Seq::<Finding>::empty(),
        part_commits(part) ==> part_ends(part) && !part_begins(part),
        part_ends(part) ==> !part_begins(part) && !part_is_ddl(part),
{
    let statements = part.syntax->Ok_0;
    if statements.len() == 1 {
        let statement = statements[0];
        lemma_kinds(statement);
        assert(statements.drop_last() =~= Seq::empty());
        assert(statements.last() == statement);
        reveal_with_fuel(after_statements, 2);
        reveal_with_fuel(at_statements, 2);
        assert(some_begins(statements) == begins(statement));
        assert(some_ends(statements) == ends(statement));
        assert(some_commits(statements) == commits(statement));
        assert(some_ddl(statements) == ddl(statement));
        assert(at_part(open, part) =~= at_statement(open, statement));
    }
}

proof fn lemma_members(txn: Open, members: Seq<ParsedPart>)
    requires
        forall|k: int|
            0 <= k < members.len() ==> single(#[trigger] members[k]) && !part_ends(members[k]),
    ensures
        run(Some(txn), members) == (
            Some(Open { ddl: txn.ddl + ddl_count(members), ..txn }),
            Seq::<Finding>::empty(),
        ),
    decreases members.len(),
{
    if members.len() > 0 {
        let front = members.drop_last();
        assert forall|k: int| 0 <= k < front.len() implies single(#[trigger] front[k])
            && !part_ends(front[k]) by {
            assert(front[k] == members[k]);
        }
        lemma_members(txn, front);
        assert(members[members.len() - 1] == members.last());
        lemma_single(run(Some(txn), front).0, members.last());
    }
}

proof fn lemma_parsed_plains(parts: Seq<ParsedPart>)
    requires
        faithful(parts),
    ensures
        parsed_parts(plains(parts)) == parts,
{
    assert(parsed_parts(plains(parts)) =~= parts);
}

proof fn lemma_parsed_add(a: Seq<(usize, Seq<char>)>, b: Seq<(usize, Seq<char>)>)
    ensures
        parsed_parts(a + b) == parsed_parts(a) + parsed_parts(b),
{
    assert(parsed_parts(a + b) =~= parsed_parts(a) + parsed_parts(b));
}

proof fn lemma_commit_text(line: usize)
    requires
        commit_is_known(),
    ensures
        single(parsed_part((line, "COMMIT"@))),
        part_commits(parsed_part((line, "COMMIT"@))),
        part_ends(parsed_part((line, "COMMIT"@))),
{
    reveal_strlit("COMMIT");
    let text = "COMMIT"@;
    assert(!is_space(text[0]) && !is_space(text[5]));
    assert(text.last() == text[5]);
    assert(trim_start(text) == text);
    assert(trim_end(text) == text);
    assert(trimmed(text) == text);
    let part = parsed_part((line, text));
    let statements = part.syntax->Ok_0;
    assert(commits(statements[0]));
    assert(ends(statements[0]));
}

proof fn lemma_block(begin: ParsedPart, texts: Seq<(usize, Seq<char>)>)
    requires
        commit_is_known(),
        begin == parsed_part(plain(begin)),
        single(begin),
        part_begins(begin),
        forall|k: int|
            0 <= k < texts.len() ==> single(#[trigger] parsed_part(texts[k])) && !part_ends(
                parsed_part(texts[k]),
            ),
        ddl_count(parsed_parts(texts)) <= 1,
    ensures
        run(None, parsed_parts(block(begin, texts))) == (None::<Open>, Seq::<Finding>::empty()),
{
    if texts.len() > 0 {
        let commit = (begin.line, "COMMIT"@);
        let first = seq![begin];
        let inner = parsed_parts(texts);
        let last = seq![parsed_part(commit)];
        lemma_commit_text(begin.line);
        assert(parsed_parts(block(begin, texts)) =~= first + inner + last);
        let txn = Open { line: begin.line, text: begin.text, ddl: 0 };
        lemma_single(None, begin);
        assert(first.drop_last() =~= Seq::empty());
        reveal_with_fuel(run, 2);
        assert(run(None, first) == (Some(txn), Seq::<Finding>::empty()));
        assert forall|k: int| 0 <= k < inner.len() implies single(#[trigger] inner[k])
            && !part_ends(inner[k]) by {
            assert(inner[k] == parsed_part(texts[k]));
        }
        lemma_members(txn, inner);
        lemma_run_add(None, first, inner);
        let within = run(None, first + inner);
        assert(within.1 =~= Seq::empty());
        lemma_single(within.0, parsed_part(commit));
        assert(last.drop_last() =~= Seq::empty());
        assert(run(within.0, last) == (None::<Open>, Seq::<Finding>::empty()));
        lemma_run_add(None, first + inner, last);
    } else {
        assert(parsed_parts(block(begin, texts)) =~= Seq::empty());
    }
}

proof fn lemma_waiting(members: Seq<ParsedPart>)
    requires
        faithful(members),
        forall|k: int|
            0 <= k < members.len() ==> single(#[trigger] members[k]) && !part_ends(members[k]),
    ensures
        forall|k: int|
            0 <= k < waiting(members).len() ==> single(
                #[trigger] parsed_part(waiting(members)[k]),
            ) && !part_ends(parsed_part(waiting(members)[k])),
        ddl_count(parsed_parts(waiting(members))) == 0,
    decreases members.len(),
{
    if members.len() > 0 {
        let front = members.drop_last();
        let last = members.last();
        assert forall|k: int| 0 <= k < front.len() implies #[trigger] front[k] == members[k] by {}
        assert(members[members.len() - 1] == last);
        lemma_waiting(front);
        if !part_begins(last) && !part_is_ddl(last) {
            let all = parsed_parts(waiting(members));
            assert(all.last() == last);
            assert(all.drop_last() =~= parsed_parts(waiting(front)));
            assert forall|k: int| 0 <= k < waiting(members).len() implies single(
                #[trigger] parsed_part(waiting(members)[k]),
            ) && !part_ends(parsed_part(waiting(members)[k])) by {
                if k < waiting(front).len() {
                    assert(waiting(members)[k] == waiting(front)[k]);
                } else {
                    assert(waiting(members)[k] == plain(last));
                }
            }
        }
    } else {
        assert(parsed_parts(waiting(members)) =~= Seq::empty());
    }
}

proof fn lemma_settled(begin: ParsedPart, members: Seq<ParsedPart>)
    requires
        commit_is_known(),
        begin == parsed_part(plain(begin)),
        single(begin),
        part_begins(begin),
        faithful(members),
        forall|k: int|
            0 <= k < members.len() ==> single(#[trigger] members[k]) && !part_ends(members[k]),
    ensures
        run(None, parsed_parts(settled(begin, members))) == (
            None::<Open>,
            Seq::<Finding>::empty(),
        ),
    decreases members.len(),
{
    if members.len() > 0 {
        let front = members.drop_last();
        let last = members.last();
        assert forall|k: int| 0 <= k < front.len() implies #[trigger] front[k] == members[k] by {}
        assert(members[members.len() - 1] == last);
        lemma_settled(begin, front);
        if !part_begins(last) && part_is_ddl(last) {
            let done = settled(begin, front);
            let between = block(begin, waiting(front));
            let own = seq![plain(last)];
            lemma_waiting(front);
            lemma_block(begin, waiting(front));
            assert(parsed_parts(own) =~= seq![last]);
            assert(seq![last].drop_last() =~= Seq::empty());
            reveal_with_fuel(ddl_count, 2);
            assert(own[0] == plain(last));
            lemma_block(begin, own);
            lemma_parsed_add(done, between);
            lemma_parsed_add(done + between, block(begin, own));
            lemma_run_add(None, parsed_parts(done), parsed_parts(between));
            assert(run(None, parsed_parts(done + between)).1 =~= Seq::empty());
            lemma_run_add(
                None,
                parsed_parts(done + between),
                parsed_parts(block(begin, own)),
            );
            assert(settled(begin, members) =~= done + between + block(begin, own));
        }
    } else {
        assert(parsed_parts(settled(begin, members)) =~= Seq::empty());
    }
}

proof fn lemma_split_up(begin: ParsedPart, members: Seq<ParsedPart>)
    requires
        commit_is_known(),
        begin == parsed_part(plain(begin)),
        single(begin),
        part_begins(begin),
        faithful(members),
        forall|k: int|
            0 <= k < members.len() ==> single(#[trigger] members[k]) && !part_ends(members[k]),
    ensures
        run(None, parsed_parts(split_up(begin, members))) == (
            None::<Open>,
            Seq::<Finding>::empty(),
        ),
{
    lemma_settled(begin, members);
    lemma_waiting(members);
    lemma_block(begin, waiting(members));
    let done = settled(begin, members);
    let left = block(begin, waiting(members));
    lemma_parsed_add(done, left);
    lemma_run_add(None, parsed_parts(done), parsed_parts(left));
}

pub proof fn lemma_stop_at(parts: Seq<ParsedPart>, k: int)
    requires
        0 <= k <= parts.len(),
    ensures
        k <= stop(parts, k) <= parts.len(),
        forall|i: int|
            k <= i < stop(parts, k) ==> (#[trigger] parts[i]).syntax is Ok && !part_ends(parts[i]),
        stop(parts, k) < parts.len() ==> parts[stop(parts, k)].syntax is Err || part_ends(
            parts[stop(parts, k)],
        ),
        forall|i: int| k <= i <= stop(parts, k) ==> #[trigger] stop(parts, i) == stop(parts, k),
    decreases parts.len() - k,
{
    if k < parts.len() && !(parts[k].syntax is Err || part_ends(parts[k])) {
        lemma_stop_at(parts, k + 1);
    }
}

/// Where the texts from `i` on end with no commit, they stay as they are.
pub proof fn lemma_unsplit(parts: Seq<ParsedPart>, i: int)
    requires
        0 <= i <= parts.len(),
        stop(parts, i) < parts.len() ==> parts[stop(parts, i)].syntax is Ok && !part_commits(
            parts[stop(parts, i)],
        ),
    ensures
        regrouped(parts, i).0 == plains(parts.subrange(i, stop(parts, i))) + regrouped(
            parts,
            stop(parts, i),
        ).0,
        regrouped(parts, i).1 == regrouped(parts, stop(parts, i)).1,
    decreases parts.len() - i,
{
    let j = stop(parts, i);
    lemma_stop_at(parts, i);
    if i < j {
        assert(stop(parts, i + 1) == j);
        lemma_unsplit(parts, i + 1);
        assert(regrouped(parts, i).0 == seq![plain(parts[i])] + regrouped(parts, i + 1).0);
        assert(plains(parts.subrange(i, j)) =~= seq![plain(parts[i])] + plains(
            parts.subrange(i + 1, j),
        ));
        assert(regrouped(parts, i).0 =~= plains(parts.subrange(i, j)) + regrouped(parts, j).0);
    } else {
        assert(plains(parts.subrange(i, j)) =~= Seq::empty());
        assert(regrouped(parts, i).0 =~= plains(parts.subrange(i, j)) + regrouped(parts, j).0);
    }
}

/// A transaction with no end, or with an end that leaves nothing to report, is quiet.
proof fn lemma_stretch(parts: Seq<ParsedPart>, i: int)
    requires
        0 <= i < parts.len(),
        forall|k: int|
            0 <= k < parts.len() ==> (#[trigger] parts[k]).syntax is Err || single(parts[k]),
        part_begins(parts[i]),
        stop(parts, i + 1) < parts.len() ==> parts[stop(parts, i + 1)].syntax is Ok,
        stop(parts, i + 1) < parts.len() && part_commits(parts[stop(parts, i + 1)]) ==> ddl_count(
            parts.subrange(i + 1, stop(parts, i + 1)),
        ) <= 1,
    ensures
        run(None, parts.subrange(i, stop(parts, i + 1))).1 == Seq::<Finding>::empty(),
        stop(parts, i + 1) < parts.len() ==> run(
            None,
            parts.subrange(i, stop(parts, i + 1) + 1),
        ) == (None::<Open>, Seq::<Finding>::empty()),
{
    let j = stop(parts, i + 1);
    lemma_stop_at(parts, i + 1);
    let first = seq![parts[i]];
    let members = parts.subrange(i + 1, j);
    let txn = Open { line: parts[i].line, text: parts[i].text, ddl: 0 };
    lemma_single(None, parts[i]);
    assert(first.drop_last() =~= Seq::empty());
    reveal_with_fuel(run, 2);
    assert(run(None, first) == (Some(txn), Seq::<Finding>::empty()));
    assert forall|k: int| 0 <= k < members.len() implies single(#[trigger] members[k])
        && !part_ends(members[k]) by {
        assert(members[k] == parts[i + 1 + k]);
    }
    lemma_members(txn, members);
    lemma_run_add(None, first, members);
    assert(parts.subrange(i, j) =~= first + members);
    let within = run(None, first + members);
    assert(within.1 =~= Seq::empty());
    if j < parts.len() {
        let last = seq![parts[j]];
        assert(last.drop_last() =~= Seq::empty());
        lemma_single(within.0, parts[j]);
        assert(run(within.0, last) == (None::<Open>, Seq::<Finding>::empty()));
        lemma_run_add(None, first + members, last);
        assert(parts.subrange(i, j + 1) =~= first + members + last);
    }
}

proof fn lemma_regrouped_is_quiet(parts: Seq<ParsedPart>, i: int)
    requires
        commit_is_known(),
        faithful(parts),
        forall|k: int|
            0 <= k < parts.len() ==> (#[trigger] parts[k]).syntax is Err || single(parts[k]),
        all_parsed(regrouped(parts, i).1),
        0 <= i <= parts.len(),
    ensures
        run(None, parsed_parts(regrouped(parts, i).0)).1 == Seq::<Finding>::empty(),
    decreases parts.len() - i,
{
    let (out, said) = regrouped(parts, i);
    if i == parts.len() {
        assert(parsed_parts(out) =~= Seq::empty());
    } else if !part_begins(parts[i]) {
        let first = seq![plain(parts[i])];
        assert(parsed_parts(first) =~= seq![parts[i]]);
        assert(seq![parts[i]].drop_last() =~= Seq::empty());
        reveal_with_fuel(run, 2);
        if parts[i].syntax is Ok {
            lemma_single(None, parts[i]);
        }
        assert(run(None, parsed_parts(first)) == (None::<Open>, Seq::<Finding>::empty()));
        lemma_regrouped_is_quiet(parts, i + 1);
        lemma_join(first, regrouped(parts, i + 1).0);
    } else {
        let j = stop(parts, i + 1);
        lemma_stop_at(parts, i + 1);
        if j < parts.len() && parts[j].syntax is Err {
            assert(said[0].rule == LintRule::ParseError);
        }
        let members = parts.subrange(i + 1, j);
        assert(faithful(members)) by {
            assert forall|k: int| 0 <= k < members.len() implies #[trigger] members[k]
                == parsed_part(plain(members[k])) by {
                assert(members[k] == parts[i + 1 + k]);
            }
        }
        if j < parts.len() && part_commits(parts[j]) && ddl_count(members) > 1 {
            assert forall|k: int| 0 <= k < members.len() implies single(#[trigger] members[k])
                && !part_ends(members[k]) by {
                assert(members[k] == parts[i + 1 + k]);
            }
            assert(parts[i] == parsed_part(plain(parts[i])));
            lemma_split_up(parts[i], members);
            let later = regrouped(parts, j + 1).1;
            assert forall|k: int| 0 <= k < later.len() implies (#[trigger] later[k]).rule
                != LintRule::ParseError by {
                assert(said[k + 1] == later[k]);
            }
            lemma_regrouped_is_quiet(parts, j + 1);
            lemma_join(split_up(parts[i], members), regrouped(parts, j + 1).0);
        } else {
            lemma_stretch(parts, i);
            let end = if j < parts.len() {
                j + 1
            } else {
                j
            };
            let whole = parts.subrange(i, end);
            assert(faithful(whole)) by {
                assert forall|k: int| 0 <= k < whole.len() implies #[trigger] whole[k]
                    == parsed_part(plain(whole[k])) by {
                    assert(whole[k] == parts[i + k]);
                }
            }
            lemma_parsed_plains(whole);
            if j == parts.len() || !part_commits(parts[j]) {
                lemma_unsplit(parts, i + 1);
                assert(out == seq![plain(parts[i])] + regrouped(parts, i + 1).0);
                if j < parts.len() {
                    lemma_single(None, parts[j]);
                    assert(regrouped(parts, j).0 == seq![plain(parts[j])] + regrouped(
                        parts,
                        j + 1,
                    ).0);
                    assert(plains(whole) =~= seq![plain(parts[i])] + plains(members) + seq![
                        plain(parts[j]),
                    ]);
                } else {
                    assert(plains(whole) =~= seq![plain(parts[i])] + plains(members));
                }
            }
            assert(out =~= plains(whole) + regrouped(parts, end).0);
            assert(said == regrouped(parts, end).1);
            if j < parts.len() {
                lemma_regrouped_is_quiet(parts, j + 1);
                lemma_join(plains(whole), regrouped(parts, j + 1).0);
            } else {
                assert(out =~= plains(whole));
            }
        }
    }
}

proof fn lemma_join(a: Seq<(usize, Seq<char>)>, b: Seq<(usize, Seq<char>)>)
    requires
        run(None, parsed_parts(a)) == (None::<Open>, Seq::<Finding>::empty()),
        run(None, parsed_parts(b)).1 == Seq::<Finding>::empty(),
    ensures
        run(None, parsed_parts(a + b)).1 == Seq::<Finding>::empty(),
{
    lemma_parsed_add(a, b);
    lemma_run_add(None, parsed_parts(a), parsed_parts(b));
    assert(run(None, parsed_parts(a + b)).1 =~= Seq::empty());
}

/// Once its transactions are split up, a script passes the check of its transactions: none that is
/// committed holds more than one DDL statement. That is so unless the split reports a transaction
/// that it has to leave alone because of a text that cannot be parsed. A text holds one statement
/// at most, as those do that a script was split into.
pub proof fn split_transactions_pass_the_check(parts: Seq<ParsedPart>)
    requires
        commit_is_known(),
        faithful(parts),
        singles(parts),
        all_parsed(regrouped(parts, 0).1),
    ensures
        transaction_findings(parsed_parts(regrouped(parts, 0).0)) == Seq::<Finding>::empty(),
{
    lemma_regrouped_is_quiet(parts, 0);
    lemma_run_is_check(parsed_parts(regrouped(parts, 0).0));
}

/// Whether a text is more than the frame of a transaction: it neither opens nor closes one.
pub open spec fn is_work(text: (usize, Seq<char>)) -> bool {
    !part_begins(parsed_part(text)) && !part_ends(parsed_part(text))
}

/// The texts that are more than the frame of a transaction.
#[verifier::opaque]
pub open spec fn work(texts: Seq<(usize, Seq<char>)>) -> Seq<(usize, Seq<char>)> {
    texts.filter(|text: (usize, Seq<char>)| is_work(text))
}

proof fn lemma_work_add(a: Seq<(usize, Seq<char>)>, b: Seq<(usize, Seq<char>)>)
    ensures
        work(a + b) == work(a) + work(b),
{
    reveal(work);
    Seq::filter_distributes_over_add(a, b, |text: (usize, Seq<char>)| is_work(text));
}

proof fn lemma_work_one(text: (usize, Seq<char>))
    ensures
        work(seq![text]) == if is_work(text) {
            seq![text]
        } else {
            Seq::empty()
        },
        work(Seq::empty()) == Seq::<(usize, Seq<char>)>::empty(),
{
    reveal(work);
    reveal_with_fuel(Seq::filter, 2);
    assert(seq![text].drop_last() =~= Seq::empty());
    assert(Seq::<(usize, Seq<char>)>::empty().push(text) =~= seq![text]);
}

proof fn lemma_block_work(begin: ParsedPart, texts: Seq<(usize, Seq<char>)>)
    requires
        commit_is_known(),
        begin == parsed_part(plain(begin)),
        part_begins(begin),
    ensures
        work(block(begin, texts)) == work(texts),
{
    lemma_work_one(plain(begin));
    if texts.len() > 0 {
        let commit = (begin.line, "COMMIT"@);
        lemma_commit_text(begin.line);
        lemma_work_one(commit);
        lemma_work_add(seq![plain(begin)], texts);
        lemma_work_add(seq![plain(begin)] + texts, seq![commit]);
        assert(work(block(begin, texts)) =~= work(texts));
    } else {
        assert(texts =~= Seq::empty());
    }
}

proof fn lemma_settled_work(begin: ParsedPart, members: Seq<ParsedPart>)
    requires
        commit_is_known(),
        begin == parsed_part(plain(begin)),
        part_begins(begin),
        faithful(members),
    ensures
        work(settled(begin, members)) + work(waiting(members)) == work(plains(members)),
    decreases members.len(),
{
    let empty = Seq::<(usize, Seq<char>)>::empty();
    lemma_work_one(plain(begin));
    if members.len() == 0 {
        assert(plains(members) =~= empty);
        assert(empty + empty =~= empty);
    } else {
        let front = members.drop_last();
        let last = members.last();
        assert(faithful(front)) by {
            assert forall|k: int| 0 <= k < front.len() implies #[trigger] front[k] == parsed_part(
                plain(front[k]),
            ) by {
                assert(front[k] == members[k]);
            }
        }
        assert(last == parsed_part(plain(last))) by {
            assert(members[members.len() - 1] == last);
        }
        lemma_settled_work(begin, front);
        let done = work(settled(begin, front));
        let left = work(waiting(front));
        let own = work(seq![plain(last)]);
        assert(work(plains(members)) == done + left + own) by {
            assert(plains(members) =~= plains(front) + seq![plain(last)]);
            lemma_work_add(plains(front), seq![plain(last)]);
        }
        if part_begins(last) {
            lemma_work_one(plain(last));
            assert(own == empty);
            assert(done + left + own =~= done + left);
        } else if part_is_ddl(last) {
            let between = block(begin, waiting(front));
            let alone = block(begin, seq![plain(last)]);
            lemma_block_work(begin, waiting(front));
            lemma_block_work(begin, seq![plain(last)]);
            lemma_work_add(settled(begin, front), between);
            lemma_work_add(settled(begin, front) + between, alone);
            assert(work(settled(begin, members)) == done + left + own);
            assert(done + left + own + empty =~= done + left + own);
        } else {
            lemma_work_add(waiting(front), seq![plain(last)]);
            assert(waiting(members) =~= waiting(front) + seq![plain(last)]);
            assert(done + (left + own) =~= done + left + own);
        }
    }
}

proof fn lemma_split_up_work(begin: ParsedPart, members: Seq<ParsedPart>)
    requires
        commit_is_known(),
        begin == parsed_part(plain(begin)),
        part_begins(begin),
        faithful(members),
    ensures
        work(split_up(begin, members)) == work(plains(members)),
{
    lemma_settled_work(begin, members);
    lemma_block_work(begin, waiting(members));
    lemma_work_add(settled(begin, members), block(begin, waiting(members)));
}

proof fn lemma_regrouped_work(parts: Seq<ParsedPart>, i: int)
    requires
        commit_is_known(),
        faithful(parts),
        0 <= i <= parts.len(),
    ensures
        work(regrouped(parts, i).0) == work(plains(parts.skip(i))),
    decreases parts.len() - i,
{
    let out = regrouped(parts, i).0;
    if i == parts.len() {
        assert(plains(parts.skip(i)) =~= out);
    } else {
        let j = stop(parts, i + 1);
        lemma_stop_at(parts, i + 1);
        let first = seq![plain(parts[i])];
        assert(parts[i] == parsed_part(plain(parts[i])));
        assert(plains(parts.skip(i)) =~= first + plains(parts.skip(i + 1)));
        lemma_work_add(first, plains(parts.skip(i + 1)));
        lemma_regrouped_work(parts, i + 1);
        lemma_work_add(first, regrouped(parts, i + 1).0);
        if part_begins(parts[i]) && j < parts.len() && parts[j].syntax is Ok && part_commits(
            parts[j],
        ) {
            let members = parts.subrange(i + 1, j);
            let behind = regrouped(parts, j + 1).0;
            lemma_regrouped_work(parts, j + 1);
            if ddl_count(members) <= 1 {
                let whole = plains(parts.subrange(i, j + 1));
                lemma_work_add(whole, behind);
                assert(plains(parts.skip(i)) =~= whole + plains(parts.skip(j + 1)));
                lemma_work_add(whole, plains(parts.skip(j + 1)));
            } else {
                assert(faithful(members)) by {
                    assert forall|k: int| 0 <= k < members.len() implies #[trigger] members[k]
                        == parsed_part(plain(members[k])) by {
                        assert(members[k] == parts[i + 1 + k]);
                    }
                }
                let last = seq![plain(parts[j])];
                assert(parts[j] == parsed_part(plain(parts[j])));
                lemma_split_up_work(parts[i], members);
                lemma_work_one(plain(parts[i]));
                lemma_work_one(plain(parts[j]));
                lemma_work_add(split_up(parts[i], members), behind);
                assert(plains(parts.skip(i)) =~= first + plains(members) + last + plains(
                    parts.skip(j + 1),
                ));
                lemma_work_add(first, plains(members));
                lemma_work_add(first + plains(members), last);
                lemma_work_add(first + plains(members) + last, plains(parts.skip(j + 1)));
                assert(work(first + plains(members) + last) =~= work(plains(members)));
            }
        }
    }
}

/// The split of transactions neither loses nor adds nor reorders a statement, but for those that
/// open and close transactions.
pub proof fn splits_keep_the_work(parts: Seq<ParsedPart>)
    requires
        commit_is_known(),
        faithful(parts),
    ensures
        work(regrouped(parts, 0).0) == work(plains(parts)),
{
    lemma_regrouped_work(parts, 0);
    assert(parts.skip(0) =~= parts);
}

/// A script in which no transaction is reported as split stays as it is.
pub proof fn splits_are_reported(parts: Seq<ParsedPart>)
    requires
        forall|k: int|
            0 <= k < regrouped(parts, 0).1.len() ==> (#[trigger] regrouped(parts, 0).1[k]).rule
                != LintRule::MultiDdlTransaction,
    ensures
        regrouped(parts, 0).0 == plains(parts),
{
    lemma_unreported(parts, 0);
    assert(parts.skip(0) =~= parts);
}

proof fn lemma_unreported(parts: Seq<ParsedPart>, i: int)
    requires
        0 <= i <= parts.len(),
        forall|k: int|
            0 <= k < regrouped(parts, i).1.len() ==> (#[trigger] regrouped(parts, i).1[k]).rule
                != LintRule::MultiDdlTransaction,
    ensures
        regrouped(parts, i).0 == plains(parts.skip(i)),
    decreases parts.len() - i,
{
    if i < parts.len() {
        let j = stop(parts, i + 1);
        lemma_stop_at(parts, i + 1);
        let said = regrouped(parts, i).1;
        let commits_here = part_begins(parts[i]) && j < parts.len() && parts[j].syntax is Ok
            && part_commits(parts[j]);
        if commits_here {
            let members = parts.subrange(i + 1, j);
            let later = regrouped(parts, j + 1).1;
            if ddl_count(members) > 1 {
                assert(said[0].rule == LintRule::MultiDdlTransaction);
            } else {
                assert(said == later);
                lemma_unreported(parts, j + 1);
                assert(regrouped(parts, i).0 =~= plains(parts.skip(i)));
            }
        } else {
            let later = regrouped(parts, i + 1).1;
            assert forall|k: int| 0 <= k < later.len() implies (#[trigger] later[k]).rule
                != LintRule::MultiDdlTransaction by {
                assert(later[k] == said[k + (said.len() - later.len())]);
            }
            lemma_unreported(parts, i + 1);
            assert(regrouped(parts, i).0 =~= plains(parts.skip(i)));
        }
    } else {
        assert(plains(parts.skip(i)) =~= Seq::empty());
    }
}

/// A script that commits nothing breaks no rule on the number of DDL statements, whatever its
/// transactions hold: one that is rolled back, or never ended, is not reported.
pub proof fn only_commits_are_reported(parts: Seq<ParsedPart>)
    requires
        forall|k: int| 0 <= k < parts.len() ==> !part_commits(#[trigger] parts[k]),
    ensures
        forall|k: int|
            0 <= k < transaction_findings(parts).len() ==> (#[trigger] transaction_findings(
                parts,
            )[k]).rule == LintRule::ParseError,
    decreases parts.len(),
{
    if parts.len() > 0 {
        let front = parts.drop_last();
        let last = parts.last();
        assert forall|k: int| 0 <= k < front.len() implies !part_commits(#[trigger] front[k]) by {
            assert(front[k] == parts[k]);
        }
        only_commits_are_reported(front);
        assert(!part_commits(parts[parts.len() - 1]));
        if let Ok(statements) = last.syntax {
            assert forall|k: int| 0 <= k < statements.len() implies !commits(
                #[trigger] statements[k],
            ) by {
                assert(!some_commits(statements));
            }
            lemma_no_commit(after_parts(front), last.line, last.text, statements);
        }
    }
}

proof fn lemma_no_commit(open: Option<Open>, line: usize, text: Seq<char>, statements: Seq<Node>)
    requires
        forall|k: int| 0 <= k < statements.len() ==> !commits(#[trigger] statements[k]),
    ensures
        at_statements(open, line, text, statements) == Seq::<Finding>::empty(),
    decreases statements.len(),
{
    if statements.len() > 0 {
        let front = statements.drop_last();
        assert forall|k: int| 0 <= k < front.len() implies !commits(#[trigger] front[k]) by {
            assert(front[k] == statements[k]);
        }
        lemma_no_commit(open, line, text, front);
        assert(!commits(statements[statements.len() - 1]));
        assert(at_statements(open, line, text, statements) =~= Seq::empty());
    }
}

/// A `BEGIN` inside a transaction changes nothing: the DDL statements before and behind it count
/// together.
pub proof fn nested_begins_change_nothing(
    txn: Open,
    line: usize,
    text: Seq<char>,
    statement: Node,
)
    requires
        begins(statement),
    ensures
        after_statement(Some(txn), line, text, statement) == Some(txn),
        at_statement(Some(txn), statement) == Seq::<Finding>::empty(),
{
    lemma_kinds(statement);
}

/// A committed transaction is reported exactly where it holds more than one DDL statement, with
/// their number, at the line of its `BEGIN`.
pub proof fn commits_are_judged_by_their_ddl(
    begin: ParsedPart,
    members: Seq<ParsedPart>,
    commit: ParsedPart,
)
    requires
        single(begin),
        part_begins(begin),
        single(commit),
        part_commits(commit),
        forall|k: int|
            0 <= k < members.len() ==> single(#[trigger] members[k]) && !part_ends(members[k]),
    ensures
        transaction_findings(seq![begin] + members + seq![commit]) == if ddl_count(members) > 1 {
            seq![
                multi_ddl_finding(begin.line, ddl_count(members), begin.text, Fix::Unfixable),
            ]
        } else {
            Seq::empty()
        },
{
    let first = seq![begin];
    let last = seq![commit];
    let txn = Open { line: begin.line, text: begin.text, ddl: 0 };
    lemma_single(None, begin);
    lemma_run_one(None, begin);
    lemma_members(txn, members);
    lemma_run_add(None, first, members);
    let within = run(None, first + members);
    assert(within.1 =~= Seq::empty());
    lemma_commit_part(within.0, commit);
    lemma_run_one(within.0, commit);
    lemma_run_add(None, first + members, last);
    lemma_run_is_check(first + members + last);
    assert(transaction_findings(first + members + last) =~= at_part(within.0, commit));
}

proof fn lemma_run_one(open: Option<Open>, part: ParsedPart)
    ensures
        run(open, seq![part]) == (after_part(open, part), at_part(open, part)),
{
    assert(seq![part].drop_last() =~= Seq::empty());
    reveal_with_fuel(run, 2);
    assert(run(open, seq![part]).1 =~= at_part(open, part));
}

proof fn lemma_commit_part(open: Option<Open>, part: ParsedPart)
    requires
        single(part),
        part_commits(part),
    ensures
        at_part(open, part) == match open {
            Some(txn) if txn.ddl > 1 => seq![
                multi_ddl_finding(txn.line, txn.ddl, txn.text, Fix::Unfixable),
            ],
            _ => Seq::<Finding>::empty(),
        },
{
    let statements = part.syntax->Ok_0;
    assert(commits(statements[0]));
    assert(statements.drop_last() =~= Seq::empty());
    reveal_with_fuel(at_statements, 2);
    reveal_with_fuel(after_statements, 2);
    assert(at_part(open, part) =~= at_statement(open, statements[0]));
}

proof fn lemma_passing(parts: Seq<ParsedPart>, i: int)
    requires
        0 <= i <= parts.len(),
        forall|k: int|
            0 <= k < parts.len() ==> (#[trigger] parts[k]).syntax is Err || single(parts[k]),
        run(None, parts.skip(i)).1 == Seq::<Finding>::empty(),
    ensures
        regrouped(parts, i).0 == plains(parts.skip(i)),
        regrouped(parts, i).1 == Seq::<Finding>::empty(),
    decreases parts.len() - i,
{
    if i == parts.len() {
        assert(plains(parts.skip(i)) =~= Seq::empty());
    } else if !part_begins(parts[i]) {
        let first = seq![parts[i]];
        assert(first.drop_last() =~= Seq::empty());
        reveal_with_fuel(run, 2);
        if parts[i].syntax is Ok {
            lemma_single(None, parts[i]);
        }
        assert(run(None, first) == (None::<Open>, Seq::<Finding>::empty()));
        assert(parts.skip(i) =~= first + parts.skip(i + 1));
        lemma_run_add(None, first, parts.skip(i + 1));
        assert(run(None, parts.skip(i)).1 =~= run(None, parts.skip(i + 1)).1);
        lemma_passing(parts, i + 1);
        assert(regrouped(parts, i).0 =~= plains(parts.skip(i)));
    } else {
        lemma_passing_transaction(parts, i);
        let j = stop(parts, i + 1);
        lemma_stop_at(parts, i + 1);
        if j == parts.len() || !part_commits(parts[j]) {
            lemma_unsplit(parts, i + 1);
            assert(regrouped(parts, i).0 == seq![plain(parts[i])] + regrouped(parts, i + 1).0);
            if j < parts.len() {
                lemma_single(None, parts[j]);
                lemma_passing(parts, j + 1);
            }
            assert(regrouped(parts, i).0 =~= plains(parts.skip(i)));
        } else {
            lemma_passing(parts, j + 1);
            assert(regrouped(parts, i).0 =~= plains(parts.skip(i)));
        }
    }
}

/// Where the texts from a `BEGIN` on pass the check, its transaction can be parsed, holds one DDL
/// statement at most if it is committed, and the texts behind it pass the check.
proof fn lemma_passing_transaction(parts: Seq<ParsedPart>, i: int)
    requires
        0 <= i < parts.len(),
        forall|k: int|
            0 <= k < parts.len() ==> (#[trigger] parts[k]).syntax is Err || single(parts[k]),
        part_begins(parts[i]),
        run(None, parts.skip(i)).1 == Seq::<Finding>::empty(),
    ensures
        stop(parts, i + 1) < parts.len() ==> {
            let j = stop(parts, i + 1);
            &&& parts[j].syntax is Ok
            &&& part_commits(parts[j]) ==> ddl_count(parts.subrange(i + 1, j)) <= 1
            &&& run(None, parts.skip(j + 1)).1 == Seq::<Finding>::empty()
        },
{
    let j = stop(parts, i + 1);
    lemma_stop_at(parts, i + 1);
    let first = seq![parts[i]];
    let members = parts.subrange(i + 1, j);
    let txn = Open { line: parts[i].line, text: parts[i].text, ddl: 0 };
    lemma_single(None, parts[i]);
    assert(first.drop_last() =~= Seq::empty());
    reveal_with_fuel(run, 2);
    assert(run(None, first) == (Some(txn), Seq::<Finding>::empty()));
    assert forall|k: int| 0 <= k < members.len() implies single(#[trigger] members[k])
        && !part_ends(members[k]) by {
        assert(members[k] == parts[i + 1 + k]);
    }
    lemma_members(txn, members);
    lemma_run_add(None, first, members);
    let within = run(None, first + members);
    assert(within.1 =~= Seq::empty());
    if j < parts.len() {
        let last = seq![parts[j]];
        let behind = parts.skip(j + 1);
        assert(last.drop_last() =~= Seq::empty());
        let ended = run(within.0, last);
        assert(ended.1 =~= at_part(within.0, parts[j]));
        lemma_run_add(None, first + members, last);
        lemma_run_add(None, first + members + last, behind);
        assert(parts.skip(i) =~= first + members + last + behind);
        assert(run(None, parts.skip(i)).1 =~= ended.1 + run(ended.0, behind).1);
        assert(ended.1.len() == 0);
        assert(run(ended.0, behind).1.len() == 0);
        if parts[j].syntax is Ok {
            lemma_single(within.0, parts[j]);
            let statements = parts[j].syntax->Ok_0;
            if part_commits(parts[j]) && ddl_count(members) > 1 {
                assert(statements.drop_last() =~= Seq::empty());
                reveal_with_fuel(at_statements, 2);
                reveal_with_fuel(after_statements, 2);
                assert(commits(statements[0]));
                assert(at_part(within.0, parts[j]) =~= at_statement(within.0, statements[0]));
            }
            assert(run(None, behind).1 =~= Seq::empty());
        }
    }
}

/// A script that passes the check of its transactions is not split, and nothing is said of it.
pub proof fn passing_scripts_are_not_split(parts: Seq<ParsedPart>)
    requires
        singles(parts),
        transaction_findings(parts).len() == 0,
    ensures
        regrouped(parts, 0).0 == plains(parts),
        regrouped(parts, 0).1 == Seq::<Finding>::empty(),
{
    assert(parts.skip(0) =~= parts);
    lemma_run_is_check(parts);
    assert(run(None, parts.skip(0)).1 =~= Seq::empty());
    lemma_passing(parts, 0);
}

/// Whether transactions hold the same number of DDL statements.
spec fn alike(a: Option<Open>, b: Option<Open>) -> bool {
    match (a, b) {
        (Some(a), Some(b)) => a.ddl == b.ddl,
        (None, None) => true,
        _ => false,
    }
}

proof fn lemma_alike(
    a: Option<Open>,
    b: Option<Open>,
    part_a: ParsedPart,
    part_b: ParsedPart,
    statements: Seq<Node>,
)
    requires
        alike(a, b),
    ensures
        alike(
            after_statements(a, part_a.line, part_a.text, statements),
            after_statements(b, part_b.line, part_b.text, statements),
        ),
        at_statements(a, part_a.line, part_a.text, statements).len() == at_statements(
            b,
            part_b.line,
            part_b.text,
            statements,
        ).len(),
    decreases statements.len(),
{
    if statements.len() > 0 {
        lemma_alike(a, b, part_a, part_b, statements.drop_last());
    }
}

/// How much the check of its transactions finds in a script depends on what the parser makes of
/// its texts, not on the texts themselves or their lines.
pub proof fn the_check_goes_by_the_syntax(a: Seq<ParsedPart>, b: Seq<ParsedPart>)
    requires
        a.len() == b.len(),
        forall|k: int| 0 <= k < b.len() ==> (#[trigger] b[k]).syntax == a[k].syntax,
    ensures
        transaction_findings(a).len() == transaction_findings(b).len(),
{
    lemma_texts_do_not_count(a, b);
}

proof fn lemma_texts_do_not_count(a: Seq<ParsedPart>, b: Seq<ParsedPart>)
    requires
        a.len() == b.len(),
        forall|k: int| 0 <= k < b.len() ==> (#[trigger] b[k]).syntax == a[k].syntax,
    ensures
        transaction_findings(a).len() == transaction_findings(b).len(),
        alike(after_parts(a), after_parts(b)),
    decreases a.len(),
{
    if a.len() > 0 {
        let front_a = a.drop_last();
        let front_b = b.drop_last();
        assert forall|k: int| 0 <= k < front_b.len() implies (#[trigger] front_b[k]).syntax
            == front_a[k].syntax by {
            assert(front_b[k] == b[k]);
        }
        lemma_texts_do_not_count(front_a, front_b);
        assert(b[b.len() - 1].syntax == a[a.len() - 1].syntax);
        if let Ok(statements) = a.last().syntax {
            lemma_alike(
                after_parts(front_a),
                after_parts(front_b),
                a.last(),
                b.last(),
                statements,
            );
        }
    }
}

/// Whether a text is that of a part, or `COMMIT`.
pub open spec fn known(text: Seq<char>, parts: Seq<ParsedPart>) -> bool {
    text == "COMMIT"@ || exists|k: int| 0 <= k < parts.len() && (#[trigger] parts[k]).text == text
}

/// Whether each text is that of a part, or `COMMIT`.
pub open spec fn all_known(texts: Seq<(usize, Seq<char>)>, parts: Seq<ParsedPart>) -> bool {
    forall|k: int| 0 <= k < texts.len() ==> known((#[trigger] texts[k]).1, parts)
}

proof fn lemma_known_add(
    a: Seq<(usize, Seq<char>)>,
    b: Seq<(usize, Seq<char>)>,
    parts: Seq<ParsedPart>,
)
    requires
        all_known(a, parts),
        all_known(b, parts),
    ensures
        all_known(a + b, parts),
{
    assert forall|k: int| 0 <= k < (a + b).len() implies known(
        (#[trigger] (a + b)[k]).1,
        parts,
    ) by {
        if k < a.len() {
            assert((a + b)[k] == a[k]);
        } else {
            assert((a + b)[k] == b[k - a.len()]);
        }
    }
}

proof fn lemma_known_range(parts: Seq<ParsedPart>, from: int, to: int)
    requires
        0 <= from <= to <= parts.len(),
    ensures
        all_known(plains(parts.subrange(from, to)), parts),
{
    let texts = plains(parts.subrange(from, to));
    assert forall|k: int| 0 <= k < texts.len() implies known((#[trigger] texts[k]).1, parts) by {
        assert(parts[from + k].text == texts[k].1);
    }
}

proof fn lemma_known_block(
    begin: ParsedPart,
    texts: Seq<(usize, Seq<char>)>,
    parts: Seq<ParsedPart>,
)
    requires
        known(begin.text, parts),
        all_known(texts, parts),
    ensures
        all_known(block(begin, texts), parts),
{
    if texts.len() > 0 {
        lemma_known_add(seq![plain(begin)], texts, parts);
        lemma_known_add(seq![plain(begin)] + texts, seq![(begin.line, "COMMIT"@)], parts);
    }
}

proof fn lemma_known_settled(begin: ParsedPart, members: Seq<ParsedPart>, parts: Seq<ParsedPart>)
    requires
        known(begin.text, parts),
        all_known(plains(members), parts),
    ensures
        all_known(settled(begin, members), parts),
        all_known(waiting(members), parts),
    decreases members.len(),
{
    if members.len() > 0 {
        let front = members.drop_last();
        let last = seq![plain(members.last())];
        assert forall|k: int| 0 <= k < plains(front).len() implies known(
            (#[trigger] plains(front)[k]).1,
            parts,
        ) by {
            assert(plains(front)[k] == plains(members)[k]);
        }
        assert(all_known(last, parts)) by {
            assert(last[0] == plains(members)[members.len() - 1]);
        }
        lemma_known_settled(begin, front, parts);
        lemma_known_block(begin, waiting(front), parts);
        lemma_known_block(begin, last, parts);
        lemma_known_add(settled(begin, front), block(begin, waiting(front)), parts);
        lemma_known_add(
            settled(begin, front) + block(begin, waiting(front)),
            block(begin, last),
            parts,
        );
        lemma_known_add(waiting(front), last, parts);
        assert(waiting(front).push(last[0]) =~= waiting(front) + last);
    }
}

proof fn lemma_known_regrouped(parts: Seq<ParsedPart>, i: int)
    requires
        0 <= i <= parts.len(),
    ensures
        all_known(regrouped(parts, i).0, parts),
    decreases parts.len() - i,
{
    if i < parts.len() {
        let j = stop(parts, i + 1);
        lemma_stop_at(parts, i + 1);
        assert(known(parts[i].text, parts));
        lemma_known_regrouped(parts, i + 1);
        lemma_known_add(seq![plain(parts[i])], regrouped(parts, i + 1).0, parts);
        if part_begins(parts[i]) && j < parts.len() && parts[j].syntax is Ok && part_commits(
            parts[j],
        ) {
            let members = parts.subrange(i + 1, j);
            lemma_known_range(parts, i + 1, j);
            lemma_known_range(parts, i, j + 1);
            lemma_known_regrouped(parts, j + 1);
            lemma_known_add(plains(parts.subrange(i, j + 1)), regrouped(parts, j + 1).0, parts);
            lemma_known_settled(parts[i], members, parts);
            lemma_known_block(parts[i], waiting(members), parts);
            lemma_known_add(settled(parts[i], members), block(parts[i], waiting(members)), parts);
            lemma_known_add(split_up(parts[i], members), regrouped(parts, j + 1).0, parts);
        }
    }
}

/// Splitting transactions brings in no text but `COMMIT`.
pub proof fn splits_bring_in_commits_alone(parts: Seq<ParsedPart>)
    ensures
        all_known(regrouped(parts, 0).0, parts),
{
    lemma_known_regrouped(parts, 0);
}

/// A script whose transactions are split up passes the check of its transactions, and a second
/// split changes nothing and says nothing. That is so unless the first split reports a transaction
/// that it has to leave alone because of a text that cannot be parsed.
pub proof fn a_second_split_changes_nothing(parts: Seq<ParsedPart>)
    requires
        commit_is_known(),
        faithful(parts),
        singles(parts),
        all_parsed(regrouped(parts, 0).1),
    ensures
        regrouped(parsed_parts(regrouped(parts, 0).0), 0) == (
            regrouped(parts, 0).0,
            Seq::<Finding>::empty(),
        ),
        transaction_findings(parsed_parts(regrouped(parts, 0).0)) == Seq::<Finding>::empty(),
{
    let out = regrouped(parts, 0).0;
    let again = parsed_parts(out);
    split_transactions_pass_the_check(parts);
    splits_bring_in_commits_alone(parts);
    assert forall|k: int| 0 <= k < again.len() implies (#[trigger] again[k]).syntax is Err
        || single(again[k]) by {
        assert(known(out[k].1, parts));
        if out[k].1 == "COMMIT"@ {
            lemma_commit_text(out[k].0);
        } else {
            let i = choose|i: int| 0 <= i < parts.len() && (#[trigger] parts[i]).text == out[k].1;
            assert(parts[i] == parsed_part(plain(parts[i])));
        }
    }
    passing_scripts_are_not_split(again);
    assert(plains(again) =~= out);
}

/// A script that was parsed whole keeps no transaction from being split.
pub proof fn parsed_scripts_are_split(parts: Seq<ParsedPart>)
    requires
        no_errors(parts),
    ensures
        all_parsed(regrouped(parts, 0).1),
{
    lemma_parsed_whole(parts, 0);
}

proof fn lemma_parsed_whole(parts: Seq<ParsedPart>, i: int)
    requires
        no_errors(parts),
        0 <= i <= parts.len(),
    ensures
        all_parsed(regrouped(parts, i).1),
    decreases parts.len() - i,
{
    if i < parts.len() {
        let j = stop(parts, i + 1);
        lemma_stop_at(parts, i + 1);
        lemma_parsed_whole(parts, i + 1);
        if part_begins(parts[i]) && j < parts.len() {
            assert(parts[j].syntax is Ok);
            lemma_parsed_whole(parts, j + 1);
        }
    }
}

} // verus!
