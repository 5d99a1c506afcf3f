//! What holds of the split of every script.

use vstd::prelude::*;

use crate::location::{lemma_line_starts, line_starts, placed, position};
use crate::split::{
    consecutive, end_char, first_char, first_word, last_word, lemma_next_semicolon, lemma_ordered,
    lemma_words, next_semicolon, statement_at, statements_from, statements_of, Place, TokenKind,
    TokenSpan,
};

verus! {

/// A number of newlines.
pub open spec fn newlines(k: nat) -> Seq<char> {
    Seq::new(k, |i: int| '\n')
}

/// The tokens of newlines at the start of a text.
pub open spec fn newline_tokens(k: nat) -> Seq<TokenSpan> {
    Seq::new(
        k,
        |i: int|
            TokenSpan {
                kind: TokenKind::Space,
                start: Place { line: (i + 1) as u64, column: 1 },
                end: Place { line: (i + 2) as u64, column: 1 },
            },
    )
}

/// A place some lines further down.
pub open spec fn moved_place(place: Place, k: nat) -> Place {
    Place { line: (place.line + k) as u64, column: place.column }
}

/// A token some lines further down.
pub open spec fn moved_token(token: TokenSpan, k: nat) -> TokenSpan {
    TokenSpan {
        kind: token.kind,
        start: moved_place(token.start, k),
        end: moved_place(token.end, k),
    }
}

/// Tokens some lines further down.
pub open spec fn moved_tokens(tokens: Seq<TokenSpan>, k: nat) -> Seq<TokenSpan> {
    tokens.map_values(|token: TokenSpan| moved_token(token, k))
}

/// Numbered texts some lines further down.
pub open spec fn moved_statements(parts: Seq<(usize, Seq<char>)>, k: nat) -> Seq<
    (usize, Seq<char>),
> {
    parts.map_values(|part: (usize, Seq<char>)| ((part.0 + k) as usize, part.1))
}

/// Whether tokens are white space and comments alone.
pub open spec fn all_space(tokens: Seq<TokenSpan>) -> bool {
    forall|i: int| 0 <= i < tokens.len() ==> (#[trigger] tokens[i]).kind == TokenKind::Space
}

proof fn lemma_newline_starts(k: nat)
    ensures
        line_starts(newlines(k)) == Seq::new(k + 1, |i: int| i),
    decreases k,
{
    if k == 0 {
        assert(newlines(k) =~= Seq::empty());
        assert(line_starts(newlines(k)) =~= Seq::new(k + 1, |i: int| i));
    } else {
        lemma_newline_starts((k - 1) as nat);
        assert(newlines(k).drop_last() =~= newlines((k - 1) as nat));
        assert(newlines(k).last() == '\n');
        assert(line_starts(newlines(k)) =~= Seq::new(k + 1, |i: int| i));
    }
}

proof fn lemma_moved_starts(text: Seq<char>, k: nat)
    ensures
        line_starts(newlines(k) + text) == Seq::new(k, |i: int| i) + line_starts(text).map_values(
            |start: int| start + k,
        ),
        line_starts(text).len() <= text.len() + 1,
    decreases text.len(),
{
    let whole = newlines(k) + text;
    let goal = Seq::new(k, |i: int| i) + line_starts(text).map_values(|start: int| start + k);
    if text.len() == 0 {
        lemma_newline_starts(k);
        assert(whole =~= newlines(k));
        assert(line_starts(whole) =~= goal);
    } else {
        lemma_moved_starts(text.drop_last(), k);
        assert(whole.drop_last() =~= newlines(k) + text.drop_last());
        assert(whole.last() == text.last());
        assert(line_starts(whole) =~= goal);
    }
}

proof fn lemma_moved_position(text: Seq<char>, place: Place, k: nat)
    requires
        placed(text, place.line, place.column),
        text.len() + k < usize::MAX,
    ensures
        position(newlines(k) + text, moved_place(place, k).line, place.column) == position(
            text,
            place.line,
            place.column,
        ) + k,
        moved_place(place, k).line == place.line + k,
        place.line + k <= usize::MAX,
{
    lemma_moved_starts(text, k);
    let i = place.line - 1;
    assert(line_starts(newlines(k) + text)[k + i] == line_starts(text)[i] + k);
}

proof fn lemma_moved_semicolon(tokens: Seq<TokenSpan>, front: Seq<TokenSpan>, k: nat, lo: int)
    requires
        0 <= lo <= tokens.len(),
    ensures
        next_semicolon(front + moved_tokens(tokens, k), front.len() + lo) == front.len()
            + next_semicolon(tokens, lo),
    decreases tokens.len() - lo,
{
    if lo < tokens.len() {
        assert((front + moved_tokens(tokens, k))[front.len() + lo].kind == tokens[lo].kind);
        lemma_moved_semicolon(tokens, front, k, lo + 1);
    }
}

proof fn lemma_moved_words(
    tokens: Seq<TokenSpan>,
    front: Seq<TokenSpan>,
    k: nat,
    lo: int,
    hi: int,
)
    requires
        0 <= lo <= hi <= tokens.len(),
    ensures
        first_word(front + moved_tokens(tokens, k), front.len() + lo, front.len() + hi)
            == match first_word(tokens, lo, hi) {
            Some(i) => Some(front.len() + i),
            None => None,
        },
        last_word(front + moved_tokens(tokens, k), front.len() + lo, front.len() + hi)
            == match last_word(tokens, lo, hi) {
            Some(i) => Some(front.len() + i),
            None => None,
        },
    decreases hi - lo,
{
    if lo < hi {
        assert((front + moved_tokens(tokens, k))[front.len() + hi - 1].kind == tokens[hi - 1].kind);
        lemma_moved_words(tokens, front, k, lo, hi - 1);
    }
}

proof fn lemma_moved_statement(
    text: Seq<char>,
    tokens: Seq<TokenSpan>,
    front: Seq<TokenSpan>,
    k: nat,
    lo: int,
    hi: int,
)
    requires
        consecutive(text, tokens),
        text.len() + k < usize::MAX,
        0 <= lo <= hi <= tokens.len(),
    ensures
        statement_at(
            newlines(k) + text,
            front + moved_tokens(tokens, k),
            front.len() + lo,
            front.len() + hi,
        ) == moved_statements(statement_at(text, tokens, lo, hi), k),
{
    let whole = newlines(k) + text;
    let all = front + moved_tokens(tokens, k);
    let here = statement_at(text, tokens, lo, hi);
    lemma_moved_words(tokens, front, k, lo, hi);
    lemma_words(tokens, lo, hi);
    lemma_line_starts(text);
    if let Some(first) = first_word(tokens, lo, hi) {
        let last = last_word(tokens, lo, hi)->0;
        lemma_moved_position(text, tokens[first].start, k);
        lemma_moved_position(text, tokens[last].end, k);
        assert(all[front.len() + first] == moved_token(tokens[first], k));
        assert(all[front.len() + last] == moved_token(tokens[last], k));
        let from = first_char(text, tokens[first]);
        let to = end_char(text, tokens[last]);
        assert(first_char(whole, all[front.len() + first]) == from + k);
        assert(end_char(whole, all[front.len() + last]) == to + k);
        lemma_ordered(text, tokens, first, last);
        assert(whole.subrange(from + k, to + k) =~= text.subrange(from, to));
    }
    assert(statement_at(whole, all, front.len() + lo, front.len() + hi) =~= moved_statements(
        here,
        k,
    ));
}

proof fn lemma_moved_from(
    text: Seq<char>,
    tokens: Seq<TokenSpan>,
    front: Seq<TokenSpan>,
    k: nat,
    lo: int,
)
    requires
        consecutive(text, tokens),
        text.len() + k < usize::MAX,
        0 <= lo <= tokens.len(),
    ensures
        statements_from(newlines(k) + text, front + moved_tokens(tokens, k), front.len() + lo)
            == moved_statements(statements_from(text, tokens, lo), k),
    decreases tokens.len() - lo,
{
    let hi = next_semicolon(tokens, lo);
    lemma_next_semicolon(tokens, lo);
    lemma_moved_semicolon(tokens, front, k, lo);
    lemma_moved_statement(text, tokens, front, k, lo, hi);
    if hi < tokens.len() {
        lemma_moved_from(text, tokens, front, k, hi + 1);
        let here = statement_at(text, tokens, lo, hi);
        let rest = statements_from(text, tokens, hi + 1);
        assert(moved_statements(here + rest, k) =~= moved_statements(here, k) + moved_statements(
            rest,
            k,
        ));
    }
}

proof fn lemma_skip_space(tokens: Seq<TokenSpan>, f: int, lo: int, hi: int)
    requires
        0 <= lo <= f <= hi <= tokens.len(),
        forall|i: int| lo <= i < f ==> (#[trigger] tokens[i]).kind == TokenKind::Space,
    ensures
        next_semicolon(tokens, lo) == next_semicolon(tokens, f),
        first_word(tokens, lo, hi) == first_word(tokens, f, hi),
        last_word(tokens, lo, hi) == last_word(tokens, f, hi),
    decreases f - lo, hi - lo,
{
    if lo < f {
        lemma_skip_space(tokens, f, lo + 1, hi);
        lemma_skip_first(tokens, lo, hi);
    }
}

proof fn lemma_skip_first(tokens: Seq<TokenSpan>, lo: int, hi: int)
    requires
        0 <= lo < hi <= tokens.len(),
        tokens[lo].kind == TokenKind::Space,
    ensures
        first_word(tokens, lo, hi) == first_word(tokens, lo + 1, hi),
        last_word(tokens, lo, hi) == last_word(tokens, lo + 1, hi),
    decreases hi - lo,
{
    if lo + 1 < hi {
        lemma_skip_first(tokens, lo, hi - 1);
    } else {
        reveal_with_fuel(first_word, 2);
        reveal_with_fuel(last_word, 2);
    }
}

proof fn lemma_lines_fit(text: Seq<char>, tokens: Seq<TokenSpan>, k: nat, lo: int)
    requires
        consecutive(text, tokens),
        text.len() + k < usize::MAX,
        0 <= lo <= tokens.len(),
    ensures
        lines_fit(statements_from(text, tokens, lo), k),
    decreases tokens.len() - lo,
{
    let hi = next_semicolon(tokens, lo);
    lemma_next_semicolon(tokens, lo);
    lemma_words(tokens, lo, hi);
    if let Some(first) = first_word(tokens, lo, hi) {
        lemma_moved_position(text, tokens[first].start, k);
    }
    let here = statement_at(text, tokens, lo, hi);
    assert forall|i: int| 0 <= i < here.len() implies (#[trigger] here[i]).0 + k
        <= usize::MAX by {}
    if hi < tokens.len() {
        lemma_lines_fit(text, tokens, k, hi + 1);
        let rest = statements_from(text, tokens, hi + 1);
        assert forall|i: int| 0 <= i < (here + rest).len() implies (#[trigger] (here + rest)[i]).0
            + k <= usize::MAX by {
            if i < here.len() {
                assert((here + rest)[i] == here[i]);
            } else {
                assert((here + rest)[i] == rest[i - here.len()]);
            }
        }
    }
}

/// Newlines in front of a script move its statements down by their number, and change nothing else.
/// The tokens behind the newlines are those of the script, some lines further down.
pub proof fn newlines_move_statements(
    text: Seq<char>,
    tokens: Seq<TokenSpan>,
    front: Seq<TokenSpan>,
    k: nat,
)
    requires
        consecutive(text, tokens),
        all_space(front),
        text.len() + k < usize::MAX,
    ensures
        statements_from(newlines(k) + text, front + moved_tokens(tokens, k), 0)
            == moved_statements(statements_from(text, tokens, 0), k),
        lines_fit(statements_from(text, tokens, 0), k),
{
    lemma_lines_fit(text, tokens, k, 0);
    let whole = newlines(k) + text;
    let all = front + moved_tokens(tokens, k);
    let f = front.len() as int;
    let hi = next_semicolon(all, f);
    lemma_next_semicolon(all, f);
    assert forall|i: int| 0 <= i < f implies (#[trigger] all[i]).kind == TokenKind::Space by {
        assert(all[i] == front[i]);
    }
    lemma_skip_space(all, f, 0, hi);
    assert(statement_at(whole, all, 0, hi) == statement_at(whole, all, f, hi));
    lemma_moved_from(text, tokens, front, k, 0);
}

/// Whether a text with newlines in front, up to the machine's limit, has these statements, as many
/// lines further down.
pub open spec fn newlines_move(text: Seq<char>, parts: Seq<(usize, Seq<char>)>) -> bool {
    forall|k: nat|
        text.len() + k < usize::MAX ==> {
            &&& #[trigger] statements_of(newlines(k) + text) == Ok::<
                Seq<(usize, Seq<char>)>,
                Seq<char>,
            >(moved_statements(parts, k))
            &&& lines_fit(parts, k)
        }
}

/// Whether each text can move down by so many lines.
pub open spec fn lines_fit(parts: Seq<(usize, Seq<char>)>, k: nat) -> bool {
    forall|i: int| 0 <= i < parts.len() ==> (#[trigger] parts[i]).0 + k <= usize::MAX
}

} // verus!
