//! What counts in a transaction, and what a split one looks like, told by the names of statements.

use vstd::prelude::*;

use crate::diagnostic::{Finding, Fix, LintRule};
use crate::syntax::{variant, Node};
use crate::text::decimal;
use crate::transaction::laws::{
    commits_are_judged_by_their_ddl, lemma_single, lemma_stop_at, lemma_unsplit, single,
};
use crate::transaction::{
    after_parts, begins, block, commits, ddl, ddl_count, ends, part_begins, part_commits, part_ends,
    part_is_ddl, plain, plains, regrouped, settled, some_begins, some_commits, some_ddl, some_ends,
    split_up, stop, transaction_findings, waiting, ParsedPart,
};

verus! {

/// The names of the statements that define, change or remove objects of the database.
pub open spec fn ddl_names() -> Set<Seq<char>> {
    set![
        "CreateTable"@,
        "CreateIndex"@,
        "CreateView"@,
        "CreateSequence"@,
        "CreateType"@,
        "CreateFunction"@,
        "CreateProcedure"@,
        "CreateTrigger"@,
        "CreateExtension"@,
        "CreateSchema"@,
        "CreateDatabase"@,
        "CreatePolicy"@,
        "CreateServer"@,
        "AlterTable"@,
        "AlterIndex"@,
        "Drop"@,
        "Truncate"@,
    ]
}

/// A statement is DDL exactly where its name is one of these; it opens a transaction exactly where
/// it is a `StartTransaction`; it closes one exactly where it is a `Commit` or a `Rollback`, and
/// keeps its work exactly where it is a `Commit`.
pub proof fn statements_count_by_their_names(statement: Node)
    ensures
        ddl(statement) == (variant(statement) matches Some(name) && ddl_names().contains(name)),
        begins(statement) == (variant(statement) == Some("StartTransaction"@)),
        commits(statement) == (variant(statement) == Some("Commit"@)),
        ends(statement) == (variant(statement) == Some("Commit"@) || variant(statement) == Some(
            "Rollback"@,
        )),
{
}

/// Whether a text is one statement of this name.
pub open spec fn is_one(part: ParsedPart, name: Seq<char>) -> bool {
    part.syntax matches Ok(statements) && statements.len() == 1 && variant(statements[0]) == Some(
        name,
    )
}

/// Whether a text is one DDL statement.
pub open spec fn is_definition(part: ParsedPart) -> bool {
    part.syntax matches Ok(statements) && statements.len() == 1 && (variant(
        statements[0],
    ) matches Some(name) && ddl_names().contains(name))
}

/// Whether a text is one statement that leaves an open transaction open.
pub open spec fn is_inside(part: ParsedPart) -> bool {
    &&& part.syntax matches Ok(statements)
    &&& statements.len() == 1
    &&& !is_one(part, "Commit"@)
    &&& !is_one(part, "Rollback"@)
}

/// How many texts are one DDL statement each.
pub open spec fn definitions(parts: Seq<ParsedPart>) -> nat {
    parts.filter(|part: ParsedPart| is_definition(part)).len()
}

proof fn lemma_part(part: ParsedPart)
    requires
        part.syntax matches Ok(statements) && statements.len() == 1,
    ensures
        part_begins(part) == is_one(part, "StartTransaction"@),
        part_commits(part) == is_one(part, "Commit"@),
        part_ends(part) == (is_one(part, "Commit"@) || is_one(part, "Rollback"@)),
        part_is_ddl(part) == is_definition(part),
        single(part),
{
    let statements = part.syntax->Ok_0;
    let statement = statements[0];
    statements_count_by_their_names(statement);
    assert(some_begins(statements) == begins(statement));
    assert(some_ends(statements) == ends(statement));
    assert(some_commits(statements) == commits(statement));
    assert(some_ddl(statements) == ddl(statement));
    lemma_single(None, part);
    if begins(statement) && ddl(statement) {
        lemma_begin_is_no_ddl();
    }
}

proof fn lemma_begin_is_no_ddl()
    ensures
        !ddl_names().contains("StartTransaction"@),
{
    reveal_strlit("StartTransaction");
    reveal_strlit("CreateTable");
    reveal_strlit("CreateIndex");
    reveal_strlit("CreateView");
    reveal_strlit("CreateSequence");
    reveal_strlit("CreateType");
    reveal_strlit("CreateFunction");
    reveal_strlit("CreateProcedure");
    reveal_strlit("CreateTrigger");
    reveal_strlit("CreateExtension");
    reveal_strlit("CreateSchema");
    reveal_strlit("CreateDatabase");
    reveal_strlit("CreatePolicy");
    reveal_strlit("CreateServer");
    reveal_strlit("AlterTable");
    reveal_strlit("AlterIndex");
    reveal_strlit("Drop");
    reveal_strlit("Truncate");
    assert("StartTransaction"@.len() == 16);
    assert("CreateTable"@.len() == 11 && "CreateIndex"@.len() == 11 && "CreateView"@.len() == 10);
    assert("CreateSequence"@.len() == 14 && "CreateType"@.len() == 10);
    assert("CreateFunction"@.len() == 14 && "CreateProcedure"@.len() == 15);
    assert("CreateTrigger"@.len() == 13 && "CreateExtension"@.len() == 15);
    assert("CreateSchema"@.len() == 12 && "CreateDatabase"@.len() == 14);
    assert("CreatePolicy"@.len() == 12 && "CreateServer"@.len() == 12);
    assert("AlterTable"@.len() == 10 && "AlterIndex"@.len() == 10);
    assert("Drop"@.len() == 4 && "Truncate"@.len() == 8);
}

proof fn lemma_definitions(members: Seq<ParsedPart>)
    requires
        forall|k: int| 0 <= k < members.len() ==> is_inside(#[trigger] members[k]),
    ensures
        ddl_count(members) == definitions(members),
    decreases members.len(),
{
    reveal(Seq::filter);
    if members.len() > 0 {
        let front = members.drop_last();
        assert forall|k: int| 0 <= k < front.len() implies is_inside(#[trigger] front[k]) by {
            assert(front[k] == members[k]);
        }
        lemma_definitions(front);
        assert(is_inside(members[members.len() - 1]));
        lemma_part(members.last());
    }
}

/// Whether texts are those of a transaction that is not over: a `BEGIN`, and statements that leave
/// it open.
pub open spec fn is_open(begin: ParsedPart, members: Seq<ParsedPart>) -> bool {
    &&& is_one(begin, "StartTransaction"@)
    &&& forall|k: int| 0 <= k < members.len() ==> is_inside(#[trigger] members[k])
}

/// A transaction that is committed with more than one DDL statement is reported: by the rule for
/// it, at the line and with the text of its `BEGIN`, with their number in words, and as something
/// that linting does not fix. One with fewer is not reported.
pub proof fn committed_ddl_is_counted(
    begin: ParsedPart,
    members: Seq<ParsedPart>,
    commit: ParsedPart,
)
    requires
        is_open(begin, members),
        is_one(commit, "Commit"@),
    ensures
        ({
            let said = transaction_findings(seq![begin] + members + seq![commit]);
            if definitions(members) > 1 {
                &&& said.len() == 1
                &&& said[0].rule == LintRule::MultiDdlTransaction
                &&& said[0].line == begin.line
                &&& said[0].statement == begin.text
                &&& said[0].message == "Transaction contains "@ + decimal(definitions(members))
                    + " DDL statements. DSQL supports only one DDL statement per transaction."@
                &&& said[0].fix is Unfixable
            } else {
                said.len() == 0
            }
        }),
{
    lemma_part(begin);
    lemma_part(commit);
    lemma_definitions(members);
    assert forall|k: int| 0 <= k < members.len() implies single(#[trigger] members[k])
        && !part_ends(members[k]) by {
        assert(is_inside(members[k]));
        lemma_part(members[k]);
    }
    commits_are_judged_by_their_ddl(begin, members, commit);
}

proof fn lemma_still_open(begin: ParsedPart, members: Seq<ParsedPart>)
    requires
        is_open(begin, members),
    ensures
        transaction_findings(seq![begin] + members).len() == 0,
        after_parts(seq![begin] + members) is Some,
    decreases members.len(),
{
    let parts = seq![begin] + members;
    if members.len() == 0 {
        assert(parts.drop_last() =~= Seq::empty());
        assert(parts.last() == begin);
        reveal_with_fuel(transaction_findings, 2);
        reveal_with_fuel(after_parts, 2);
        lemma_part(begin);
        lemma_single(None, begin);
    } else {
        let front = members.drop_last();
        assert forall|k: int| 0 <= k < front.len() implies is_inside(#[trigger] front[k]) by {
            assert(front[k] == members[k]);
        }
        lemma_still_open(begin, front);
        assert(parts.drop_last() =~= seq![begin] + front);
        assert(is_inside(members[members.len() - 1]));
        lemma_part(members.last());
        lemma_single(after_parts(seq![begin] + front), members.last());
    }
}

/// Nothing is said of a transaction that is rolled back or not over, however many DDL statements it
/// holds.
pub proof fn other_ends_are_not_judged(
    begin: ParsedPart,
    members: Seq<ParsedPart>,
    rollback: ParsedPart,
)
    requires
        is_open(begin, members),
        is_one(rollback, "Rollback"@),
    ensures
        transaction_findings(seq![begin] + members).len() == 0,
        transaction_findings(seq![begin] + members + seq![rollback]).len() == 0,
{
    let parts = seq![begin] + members + seq![rollback];
    lemma_still_open(begin, members);
    assert(parts.drop_last() =~= seq![begin] + members);
    lemma_part(rollback);
    reveal_strlit("Commit");
    reveal_strlit("Rollback");
    assert("Commit"@.len() != "Rollback"@.len());
    lemma_single(after_parts(seq![begin] + members), rollback);
}

/// A text that cannot be parsed is reported inside a transaction, with the reason, and nothing is
/// said of it outside of one.
pub proof fn errors_are_told_inside_transactions(
    begin: ParsedPart,
    members: Seq<ParsedPart>,
    bad: ParsedPart,
)
    requires
        is_open(begin, members),
        bad.syntax is Err,
    ensures
        transaction_findings(seq![bad]).len() == 0,
        ({
            let said = transaction_findings(seq![begin] + members + seq![bad]);
            &&& said.len() == 1
            &&& said[0].rule == LintRule::ParseError
            &&& said[0].line == bad.line
            &&& said[0].statement == bad.text
            &&& said[0].message == "Cannot parse statement inside transaction block: "@
                + bad.syntax->Err_0 + ". DDL transaction analysis may be incomplete."@
            &&& said[0].fix is Unfixable
        }),
{
    let parts = seq![begin] + members + seq![bad];
    lemma_still_open(begin, members);
    assert(parts.drop_last() =~= seq![begin] + members);
    assert(seq![bad].drop_last() =~= Seq::empty());
    reveal_with_fuel(transaction_findings, 2);
    reveal_with_fuel(after_parts, 2);
}

proof fn lemma_check_add(a: Seq<ParsedPart>, b: Seq<ParsedPart>)
    requires
        after_parts(a) is None,
    ensures
        transaction_findings(a + b) == transaction_findings(a) + transaction_findings(b),
        after_parts(a + b) == after_parts(b),
    decreases b.len(),
{
    if b.len() == 0 {
        assert(a + b =~= a);
        assert(transaction_findings(a) + transaction_findings(b) =~= transaction_findings(a));
    } else {
        lemma_check_add(a, b.drop_last());
        assert((a + b).drop_last() =~= a + b.drop_last());
        assert(transaction_findings(a + b) =~= transaction_findings(a) + transaction_findings(b));
    }
}

/// Once a transaction is over, what follows is judged as if it stood alone; so is what follows a
/// text that opens none.
pub proof fn transactions_are_judged_apart(
    begin: ParsedPart,
    members: Seq<ParsedPart>,
    end: ParsedPart,
    rest: Seq<ParsedPart>,
)
    requires
        is_open(begin, members),
        is_one(end, "Commit"@) || is_one(end, "Rollback"@),
    ensures
        transaction_findings(seq![begin] + members + seq![end] + rest) == transaction_findings(
            seq![begin] + members + seq![end],
        ) + transaction_findings(rest),
        forall|part: ParsedPart|
            (part.syntax is Err || (is_inside(part) && !is_one(part, "StartTransaction"@)))
                ==> #[trigger] transaction_findings(seq![part] + rest) == transaction_findings(
                rest,
            ),
{
    let script = seq![begin] + members + seq![end];
    lemma_still_open(begin, members);
    assert(script.drop_last() =~= seq![begin] + members);
    lemma_part(end);
    lemma_single(after_parts(seq![begin] + members), end);
    lemma_check_add(script, rest);
    assert forall|part: ParsedPart|
        (part.syntax is Err || (is_inside(part) && !is_one(
            part,
            "StartTransaction"@,
        ))) implies #[trigger] transaction_findings(seq![part] + rest) == transaction_findings(
        rest,
    ) by {
        let one = seq![part];
        assert(one.drop_last() =~= Seq::empty());
        assert(one.last() == part);
        reveal_with_fuel(transaction_findings, 2);
        reveal_with_fuel(after_parts, 2);
        if part.syntax is Ok {
            lemma_part(part);
            lemma_single(None, part);
        }
        assert(transaction_findings(one) =~= Seq::empty());
        lemma_check_add(one, rest);
        assert(transaction_findings(one + rest) =~= transaction_findings(rest));
    }
}

/// A text in a transaction of its own: a `BEGIN`, the text and a `COMMIT`.
pub open spec fn framed(begin: ParsedPart, group: Seq<ParsedPart>) -> Seq<(usize, Seq<char>)> {
    seq![(begin.line, begin.text)] + group.map_values(
        |part: ParsedPart| (part.line, part.text),
    ) + seq![(begin.line, "COMMIT"@)]
}

/// Groups of texts, each in a transaction of its own.
pub open spec fn all_framed(begin: ParsedPart, groups: Seq<Seq<ParsedPart>>) -> Seq<
    (usize, Seq<char>),
> {
    groups.map_values(|group: Seq<ParsedPart>| framed(begin, group)).flatten_alt()
}

/// Whether none of some texts is a DDL statement.
pub open spec fn has_no_definition(group: Seq<ParsedPart>) -> bool {
    forall|k: int| 0 <= k < group.len() ==> !is_definition(#[trigger] group[k])
}

/// Whether the members of a transaction fall into these groups: all of them but a nested `BEGIN`,
/// in their order; each DDL statement alone; the statements between two of them together.
pub open spec fn fall_into(members: Seq<ParsedPart>, groups: Seq<Seq<ParsedPart>>) -> bool {
    &&& groups.flatten_alt() == members.filter(
        |part: ParsedPart| !is_one(part, "StartTransaction"@),
    )
    &&& forall|g: int| 0 <= g < groups.len() ==> (#[trigger] groups[g]).len() > 0
    &&& forall|g: int|
        0 <= g < groups.len() ==> (#[trigger] groups[g]).len() == 1 || has_no_definition(groups[g])
    &&& forall|g: int, h: int|
        0 <= g && h == g + 1 && h < groups.len() ==> !(has_no_definition(#[trigger] groups[g])
            && has_no_definition(#[trigger] groups[h]))
}

/// The texts at the end of `members` that no DDL follows.
spec fn waiting_parts(members: Seq<ParsedPart>) -> Seq<ParsedPart>
    decreases members.len(),
{
    if members.len() == 0 {
        Seq::empty()
    } else {
        let front = members.drop_last();
        if part_begins(members.last()) {
            waiting_parts(front)
        } else if part_is_ddl(members.last()) {
            Seq::empty()
        } else {
            waiting_parts(front).push(members.last())
        }
    }
}

/// A group, unless it is empty.
spec fn grouped(group: Seq<ParsedPart>) -> Seq<Seq<ParsedPart>> {
    if group.len() == 0 {
        Seq::empty()
    } else {
        seq![group]
    }
}

/// The groups up to the last DDL text.
spec fn settled_groups(members: Seq<ParsedPart>) -> Seq<Seq<ParsedPart>>
    decreases members.len(),
{
    if members.len() == 0 {
        Seq::empty()
    } else {
        let front = members.drop_last();
        if part_begins(members.last()) {
            settled_groups(front)
        } else if part_is_ddl(members.last()) {
            settled_groups(front) + grouped(waiting_parts(front)) + seq![seq![members.last()]]
        } else {
            settled_groups(front)
        }
    }
}

proof fn lemma_flatten_add<A>(a: Seq<Seq<A>>, b: Seq<Seq<A>>)
    ensures
        (a + b).flatten_alt() == a.flatten_alt() + b.flatten_alt(),
    decreases b.len(),
{
    if b.len() == 0 {
        assert(a + b =~= a);
        assert(a.flatten_alt() + b.flatten_alt() =~= a.flatten_alt());
    } else {
        lemma_flatten_add(a, b.drop_last());
        assert((a + b).drop_last() =~= a + b.drop_last());
        assert((a + b).flatten_alt() =~= a.flatten_alt() + b.flatten_alt());
    }
}

proof fn lemma_flatten_one<A>(a: Seq<A>)
    ensures
        seq![a].flatten_alt() == a,
{
    assert(seq![a].drop_last() =~= Seq::empty());
    reveal_with_fuel(Seq::<_>::flatten_alt, 2);
    assert(seq![a].flatten_alt() =~= a);
}

proof fn lemma_grouped(begin: ParsedPart, group: Seq<ParsedPart>)
    ensures
        all_framed(begin, grouped(group)) == block(begin, plains(group)),
        grouped(group).flatten_alt() == group,
{
    let frame = |group: Seq<ParsedPart>| framed(begin, group);
    if group.len() == 0 {
        assert(grouped(group).map_values(frame) =~= Seq::empty());
        assert(plains(group) =~= Seq::empty());
        assert(grouped(group).flatten_alt() =~= group);
        assert(all_framed(begin, grouped(group)) =~= block(begin, plains(group)));
    } else {
        lemma_flatten_one(group);
        assert(grouped(group).map_values(frame) =~= seq![framed(begin, group)]);
        lemma_flatten_one(framed(begin, group));
        assert(group.map_values(|part: ParsedPart| (part.line, part.text)) =~= plains(group));
    }
}

proof fn lemma_framed_add(begin: ParsedPart, a: Seq<Seq<ParsedPart>>, b: Seq<Seq<ParsedPart>>)
    ensures
        all_framed(begin, a + b) == all_framed(begin, a) + all_framed(begin, b),
{
    let frame = |group: Seq<ParsedPart>| framed(begin, group);
    assert((a + b).map_values(frame) =~= a.map_values(frame) + b.map_values(frame));
    lemma_flatten_add(a.map_values(frame), b.map_values(frame));
}

proof fn lemma_groups(begin: ParsedPart, members: Seq<ParsedPart>)
    requires
        forall|k: int| 0 <= k < members.len() ==> is_inside(#[trigger] members[k]),
    ensures
        waiting(members) == plains(waiting_parts(members)),
        settled(begin, members) == all_framed(begin, settled_groups(members)),
        has_no_definition(waiting_parts(members)),
        settled_groups(members).flatten_alt() + waiting_parts(members) == members.filter(
            |part: ParsedPart| !is_one(part, "StartTransaction"@),
        ),
        are_apart(settled_groups(members)),
        settled_groups(members).len() > 0 ==> !has_no_definition(settled_groups(members).last()),
    decreases members.len(),
{
    let kind = |part: ParsedPart| !is_one(part, "StartTransaction"@);
    if members.len() == 0 {
        reveal(Seq::filter);
        assert(plains(waiting_parts(members)) =~= Seq::empty());
        assert(settled_groups(members).map_values(
            |group: Seq<ParsedPart>| framed(begin, group),
        ) =~= Seq::empty());
        assert(settled_groups(members).flatten_alt() + waiting_parts(members) =~= Seq::empty());
    } else {
        let front = members.drop_last();
        let last = members.last();
        assert forall|k: int| 0 <= k < front.len() implies is_inside(#[trigger] front[k]) by {
            assert(front[k] == members[k]);
        }
        lemma_groups(begin, front);
        assert(is_inside(members[members.len() - 1]));
        lemma_part(last);
        let held = settled_groups(front);
        let left = waiting_parts(front);
        assert(members.filter(kind) == if kind(last) {
            front.filter(kind).push(last)
        } else {
            front.filter(kind)
        }) by {
            reveal(Seq::filter);
        }
        if part_begins(last) {
        } else if part_is_ddl(last) {
            let alone = seq![last];
            lemma_grouped(begin, left);
            lemma_grouped(begin, alone);
            assert(plains(alone) =~= seq![plain(last)]);
            lemma_framed_add(begin, held, grouped(left));
            lemma_framed_add(begin, held + grouped(left), seq![alone]);
            lemma_flatten_add(held, grouped(left));
            lemma_flatten_add(held + grouped(left), seq![alone]);
            lemma_flatten_one(alone);
            assert(settled_groups(members).flatten_alt() + waiting_parts(members)
                =~= front.filter(kind).push(last));
            assert(is_definition(alone[0]));
            lemma_apart(held, left, last);
        } else {
            assert(plains(left.push(last)) =~= plains(left).push(plain(last)));
            assert(held.flatten_alt() + left.push(last) =~= (held.flatten_alt() + left).push(
                last,
            ));
        }
    }
}

/// Whether groups are neither empty nor mixed, and no two without DDL are neighbours.
spec fn are_apart(groups: Seq<Seq<ParsedPart>>) -> bool {
    &&& forall|g: int| 0 <= g < groups.len() ==> (#[trigger] groups[g]).len() > 0
    &&& forall|g: int|
        0 <= g < groups.len() ==> (#[trigger] groups[g]).len() == 1 || has_no_definition(groups[g])
    &&& forall|g: int, h: int|
        0 <= g && h == g + 1 && h < groups.len() ==> !(has_no_definition(#[trigger] groups[g])
            && has_no_definition(#[trigger] groups[h]))
}

proof fn lemma_apart_waiting(held: Seq<Seq<ParsedPart>>, left: Seq<ParsedPart>)
    requires
        are_apart(held),
        held.len() > 0 ==> !has_no_definition(held.last()),
        has_no_definition(left),
    ensures
        are_apart(held + grouped(left)),
{
    let all = held + grouped(left);
    let n = held.len() as int;
    assert forall|g: int| 0 <= g < all.len() implies (#[trigger] all[g]).len() > 0 && (all[g].len()
        == 1 || has_no_definition(all[g])) by {
        if g < n {
            assert(all[g] == held[g]);
        } else {
            assert(all[g] == left);
        }
    }
    assert forall|g: int, h: int| 0 <= g && h == g + 1 && h < all.len() implies !(has_no_definition(
        #[trigger] all[g],
    ) && has_no_definition(#[trigger] all[h])) by {
        assert(all[g] == held[g]);
        if h < n {
            assert(all[h] == held[h]);
        } else {
            assert(all[g] == held.last());
        }
    }
}

proof fn lemma_apart(held: Seq<Seq<ParsedPart>>, left: Seq<ParsedPart>, last: ParsedPart)
    requires
        are_apart(held),
        held.len() > 0 ==> !has_no_definition(held.last()),
        has_no_definition(left),
        is_definition(last),
    ensures
        are_apart(held + grouped(left) + seq![seq![last]]),
        !has_no_definition((held + grouped(left) + seq![seq![last]]).last()),
{
    lemma_apart_waiting(held, left);
    let early = held + grouped(left);
    let all = early + seq![seq![last]];
    let n = early.len() as int;
    let alone = seq![last];
    assert(is_definition(alone[0]));
    assert forall|g: int| 0 <= g < all.len() implies (#[trigger] all[g]).len() > 0 && (all[g].len()
        == 1 || has_no_definition(all[g])) by {
        if g < n {
            assert(all[g] == early[g]);
        } else {
            assert(all[g] == alone);
        }
    }
    assert forall|g: int, h: int| 0 <= g && h == g + 1 && h < all.len() implies !(has_no_definition(
        #[trigger] all[g],
    ) && has_no_definition(#[trigger] all[h])) by {
        assert(all[g] == early[g]);
        if h < n {
            assert(all[h] == early[h]);
        } else {
            assert(all[h] == alone);
        }
    }
    assert(all.last() == alone);
}

proof fn lemma_shifted(a: Seq<ParsedPart>, b: Seq<ParsedPart>, i: int)
    requires
        0 <= i <= b.len(),
    ensures
        stop(a + b, a.len() + i) == a.len() + stop(b, i),
        regrouped(a + b, a.len() + i) == regrouped(b, i),
    decreases b.len() - i,
{
    let all = a + b;
    let n = a.len() as int;
    if i < b.len() {
        assert(all[n + i] == b[i]);
        lemma_shifted(a, b, i + 1);
        let j = stop(b, i + 1);
        lemma_stop_at(b, i + 1);
        if j < b.len() {
            assert(all[n + j] == b[j]);
            lemma_shifted(a, b, j + 1);
            assert(all.subrange(n + i + 1, n + j) =~= b.subrange(i + 1, j));
            assert(all.subrange(n + i, n + j + 1) =~= b.subrange(i, j + 1));
        }
    }
}

/// A transaction that is committed with more than one DDL statement is split: its members fall into
/// groups, and each group comes in a transaction of its own, with the `BEGIN` that there was. That
/// is said once, at the line and with the text of the `BEGIN`, with the number of DDL statements,
/// as something fixed with a warning. One with fewer stays, and nothing is said of it. What follows
/// the transaction is dealt with as if it stood alone.
pub proof fn committed_transactions_are_split(
    begin: ParsedPart,
    members: Seq<ParsedPart>,
    commit: ParsedPart,
    rest: Seq<ParsedPart>,
)
    requires
        is_open(begin, members),
        is_one(commit, "Commit"@),
    ensures
        ({
            let script = seq![begin] + members + seq![commit];
            let (texts, said) = regrouped(script + rest, 0);
            let (later, said_later) = regrouped(rest, 0);
            if definitions(members) > 1 {
                &&& exists|groups: Seq<Seq<ParsedPart>>|
                    #[trigger] fall_into(members, groups) && texts == all_framed(begin, groups)
                        + later
                &&& said.len() == said_later.len() + 1
                &&& said.skip(1) == said_later
                &&& said[0].rule == LintRule::MultiDdlTransaction
                &&& said[0].line == begin.line
                &&& said[0].statement == begin.text
                &&& said[0].message == "Transaction contains "@ + decimal(definitions(members))
                    + " DDL statements. DSQL supports only one DDL statement per transaction."@
                &&& said[0].fix == Fix::FixedWithWarning(
                    "Split multi-DDL transaction into individual BEGIN/COMMIT blocks"@,
                )
            } else {
                &&& texts == plains(script) + later
                &&& said == said_later
            }
        }),
{
    let script = seq![begin] + members + seq![commit];
    let all = script + rest;
    let n = members.len() as int;
    lemma_part(begin);
    lemma_part(commit);
    lemma_definitions(members);
    assert(all[0] == begin);
    assert(all[n + 1] == commit);
    assert forall|k: int| 0 <= k < n implies (#[trigger] all[k + 1]).syntax is Ok && !part_ends(
        all[k + 1],
    ) by {
        assert(all[k + 1] == members[k]);
        lemma_part(members[k]);
    }
    lemma_stop_is(all, 1, n + 1);
    assert(all.subrange(1, n + 1) =~= members);
    assert(all.subrange(0, n + 2) =~= script);
    lemma_shifted(script, rest, 0);
    if definitions(members) > 1 {
        lemma_groups(begin, members);
        let held = settled_groups(members);
        let left = waiting_parts(members);
        let groups = held + grouped(left);
        lemma_grouped(begin, left);
        lemma_framed_add(begin, held, grouped(left));
        lemma_flatten_add(held, grouped(left));
        lemma_apart_waiting(held, left);
        assert(fall_into(members, groups));
        assert(split_up(begin, members) == all_framed(begin, groups));
        let said = regrouped(all, 0).1;
        assert(said.skip(1) =~= regrouped(rest, 0).1);
    }
}

proof fn lemma_stop_is(parts: Seq<ParsedPart>, k: int, j: int)
    requires
        1 <= k <= j < parts.len(),
        forall|i: int|
            0 <= i < j - 1 ==> (#[trigger] parts[i + 1]).syntax is Ok && !part_ends(parts[i + 1]),
        parts[j].syntax is Err || part_ends(parts[j]),
    ensures
        stop(parts, k) == j,
    decreases j - k,
{
    if k < j {
        assert(parts[(k - 1) + 1].syntax is Ok && !part_ends(parts[(k - 1) + 1]));
        lemma_stop_is(parts, k + 1, j);
    }
}

/// A transaction that is rolled back stays as it is, and nothing is said of it.
pub proof fn rolled_back_transactions_stay(
    begin: ParsedPart,
    members: Seq<ParsedPart>,
    rollback: ParsedPart,
)
    requires
        is_open(begin, members),
        is_one(rollback, "Rollback"@),
    ensures
        regrouped(seq![begin] + members + seq![rollback], 0) == (
            plains(seq![begin] + members + seq![rollback]),
            Seq::<Finding>::empty(),
        ),
{
    let script = seq![begin] + members + seq![rollback];
    let n = members.len() as int;
    lemma_part(begin);
    lemma_part(rollback);
    reveal_strlit("Commit");
    reveal_strlit("Rollback");
    reveal_strlit("StartTransaction");
    assert("Commit"@.len() == 6 && "Rollback"@.len() == 8 && "StartTransaction"@.len() == 16);
    assert(script[0] == begin);
    assert(script[n + 1] == rollback);
    assert forall|k: int| 0 <= k < n implies (#[trigger] script[k + 1]).syntax is Ok && !part_ends(
        script[k + 1],
    ) by {
        assert(script[k + 1] == members[k]);
        lemma_part(members[k]);
    }
    lemma_stop_is(script, 1, n + 1);
    lemma_unsplit(script, 1);
    assert(regrouped(script, n + 2) == (
        Seq::<(usize, Seq<char>)>::empty(),
        Seq::<Finding>::empty(),
    ));
    assert(regrouped(script, n + 1).0 =~= seq![plain(rollback)]);
    assert(plains(script) =~= seq![plain(begin)] + (plains(script.subrange(1, n + 1)) + seq![
        plain(rollback),
    ]));
}

/// A transaction with a text that cannot be parsed stays as it is, and the reason is told.
pub proof fn unreadable_transactions_stay(
    begin: ParsedPart,
    members: Seq<ParsedPart>,
    bad: ParsedPart,
    rest: Seq<ParsedPart>,
)
    requires
        is_open(begin, members),
        bad.syntax is Err,
    ensures
        ({
            let script = seq![begin] + members + seq![bad] + rest;
            let (texts, said) = regrouped(script, 0);
            &&& texts.len() > 0
            &&& texts[0] == plain(begin)
            &&& said.len() > 0
            &&& said[0].rule == LintRule::ParseError
            &&& said[0].line == bad.line
            &&& said[0].statement == bad.text
            &&& said[0].message == "Cannot parse statement inside transaction: "@
                + bad.syntax->Err_0 + ". Skipping auto-fix for this transaction block."@
            &&& said[0].fix is Unfixable
        }),
{
    let script = seq![begin] + members + seq![bad] + rest;
    let n = members.len() as int;
    lemma_part(begin);
    assert(script[0] == begin);
    assert(script[n + 1] == bad);
    assert forall|k: int| 0 <= k < n implies (#[trigger] script[k + 1]).syntax is Ok && !part_ends(
        script[k + 1],
    ) by {
        assert(script[k + 1] == members[k]);
        lemma_part(members[k]);
    }
    lemma_stop_is(script, 1, n + 1);
}

/// A text in front of a script that opens no transaction stays, and nothing is said of it.
pub proof fn plain_texts_stay(part: ParsedPart, rest: Seq<ParsedPart>)
    requires
        part.syntax is Err || (part.syntax matches Ok(statements) && statements.len() == 1
            && !is_one(part, "StartTransaction"@)),
    ensures
        regrouped(seq![part] + rest, 0) == (
            seq![(part.line, part.text)] + regrouped(rest, 0).0,
            regrouped(rest, 0).1,
        ),
{
    if part.syntax is Ok {
        lemma_part(part);
    }
    lemma_shifted(seq![part], rest, 0);
}

} // verus!
