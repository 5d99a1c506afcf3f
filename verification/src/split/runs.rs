//! Statements as runs of tokens: no word is lost, and none is in two statements.

use vstd::prelude::*;

use crate::dialect::sql_tokens;
use crate::location::position;
use crate::split::{
    end_char, first_char, first_word, last_word, lemma_next_semicolon, lemma_words, next_semicolon,
    statement_at, statements_from, statements_of, TokenKind, TokenSpan,
};
use crate::text::blank;

verus! {

/// Whether the tokens from `first` to `last` are those of a statement: the first and the last one
/// are words, there is no semicolon among them, and a semicolon parts them from any other word.
pub open spec fn is_run(tokens: Seq<TokenSpan>, first: int, last: int) -> bool {
    &&& 0 <= first <= last < tokens.len()
    &&& tokens[first].kind == TokenKind::Word
    &&& tokens[last].kind == TokenKind::Word
    &&& forall|k: int| first <= k <= last ==> (#[trigger] tokens[k]).kind != TokenKind::Semicolon
    &&& forall|j: int|
        0 <= j < first && (#[trigger] tokens[j]).kind == TokenKind::Word ==> has_semicolon(
            tokens,
            j,
            first,
        )
    &&& forall|j: int|
        last < j < tokens.len() && (#[trigger] tokens[j]).kind == TokenKind::Word ==> has_semicolon(
            tokens,
            last,
            j,
        )
}

/// Whether there is a semicolon between two tokens.
pub open spec fn has_semicolon(tokens: Seq<TokenSpan>, from: int, to: int) -> bool {
    exists|m: int| from < m < to && (#[trigger] tokens[m]).kind == TokenKind::Semicolon
}

/// What a run of tokens holds: the text from its first character to its last one, with the line
/// that it starts on.
pub open spec fn held(text: Seq<char>, tokens: Seq<TokenSpan>, first: int, last: int) -> (
    usize,
    Seq<char>,
) {
    (
        tokens[first].start.line as usize,
        text.subrange(first_char(text, tokens[first]), end_char(text, tokens[last])),
    )
}

proof fn lemma_found_words(tokens: Seq<TokenSpan>, lo: int, hi: int)
    requires
        0 <= lo <= hi <= tokens.len(),
    ensures
        first_word(tokens, lo, hi) matches Some(f) ==> lo <= f < hi && tokens[f].kind
            == TokenKind::Word && forall|k: int|
            lo <= k < f ==> (#[trigger] tokens[k]).kind != TokenKind::Word,
        last_word(tokens, lo, hi) matches Some(l) ==> lo <= l < hi && tokens[l].kind
            == TokenKind::Word && forall|k: int|
            l < k < hi ==> (#[trigger] tokens[k]).kind != TokenKind::Word,
        first_word(tokens, lo, hi) is None ==> forall|k: int|
            lo <= k < hi ==> (#[trigger] tokens[k]).kind != TokenKind::Word,
    decreases hi - lo,
{
    if lo < hi {
        lemma_found_words(tokens, lo, hi - 1);
    }
}

proof fn lemma_before_semicolon(tokens: Seq<TokenSpan>, lo: int)
    requires
        0 <= lo <= tokens.len(),
    ensures
        forall|k: int|
            lo <= k < next_semicolon(tokens, lo) ==> (#[trigger] tokens[k]).kind
                != TokenKind::Semicolon,
        next_semicolon(tokens, lo) < tokens.len() ==> tokens[next_semicolon(tokens, lo)].kind
            == TokenKind::Semicolon,
    decreases tokens.len() - lo,
{
    if lo < tokens.len() && tokens[lo].kind != TokenKind::Semicolon {
        lemma_before_semicolon(tokens, lo + 1);
        lemma_next_semicolon(tokens, lo + 1);
    }
}

proof fn lemma_run(tokens: Seq<TokenSpan>, lo: int)
    requires
        0 <= lo <= tokens.len(),
        lo > 0 ==> tokens[lo - 1].kind == TokenKind::Semicolon,
    ensures
        ({
            let hi = next_semicolon(tokens, lo);
            first_word(tokens, lo, hi) matches Some(f) ==> (last_word(tokens, lo, hi) matches Some(
                l,
            ) && is_run(tokens, f, l))
        }),
{
    let hi = next_semicolon(tokens, lo);
    lemma_next_semicolon(tokens, lo);
    lemma_before_semicolon(tokens, lo);
    lemma_words(tokens, lo, hi);
    lemma_found_words(tokens, lo, hi);
    if let Some(f) = first_word(tokens, lo, hi) {
        let l = last_word(tokens, lo, hi)->0;
        assert forall|j: int|
            0 <= j < f && (#[trigger] tokens[j]).kind == TokenKind::Word implies has_semicolon(
            tokens,
            j,
            f,
        ) by {
            assert(tokens[lo - 1].kind == TokenKind::Semicolon);
        }
        assert forall|j: int|
            l < j < tokens.len() && (#[trigger] tokens[j]).kind
                == TokenKind::Word implies has_semicolon(tokens, l, j) by {
            assert(tokens[hi].kind == TokenKind::Semicolon);
        }
    }
}

proof fn lemma_statements(text: Seq<char>, tokens: Seq<TokenSpan>, lo: int, i: int) -> (run: (
    int,
    int,
))
    requires
        0 <= lo <= tokens.len(),
        lo > 0 ==> tokens[lo - 1].kind == TokenKind::Semicolon,
        0 <= i < statements_from(text, tokens, lo).len(),
    ensures
        is_run(tokens, run.0, run.1),
        statements_from(text, tokens, lo)[i] == held(text, tokens, run.0, run.1),
    decreases tokens.len() - lo,
{
    let hi = next_semicolon(tokens, lo);
    lemma_next_semicolon(tokens, lo);
    lemma_before_semicolon(tokens, lo);
    lemma_words(tokens, lo, hi);
    lemma_run(tokens, lo);
    let here = statement_at(text, tokens, lo, hi);
    if i < here.len() {
        (first_word(tokens, lo, hi)->0, last_word(tokens, lo, hi)->0)
    } else {
        let rest = statements_from(text, tokens, hi + 1);
        assert(statements_from(text, tokens, lo)[i] == rest[i - here.len()]);
        lemma_statements(text, tokens, hi + 1, i - here.len())
    }
}

/// Each statement of a script is a run of its tokens: from a word to a word, with no semicolon
/// among them, and with no word left out on either side.
pub proof fn statements_are_runs(text: Seq<char>, tokens: Seq<TokenSpan>, i: int)
    requires
        0 <= i < statements_from(text, tokens, 0).len(),
    ensures
        exists|first: int, last: int|
            #[trigger] is_run(tokens, first, last) && statements_from(text, tokens, 0)[i] == held(
                text,
                tokens,
                first,
                last,
            ),
{
    let run = lemma_statements(text, tokens, 0, i);
    assert(is_run(tokens, run.0, run.1));
}

proof fn lemma_word(text: Seq<char>, tokens: Seq<TokenSpan>, lo: int, w: int) -> (run: (int, int))
    requires
        0 <= lo <= w < tokens.len(),
        lo > 0 ==> tokens[lo - 1].kind == TokenKind::Semicolon,
        tokens[w].kind == TokenKind::Word,
    ensures
        is_run(tokens, run.0, run.1),
        run.0 <= w <= run.1,
        blank(held(text, tokens, run.0, run.1).1) || statements_from(text, tokens, lo).contains(
            held(text, tokens, run.0, run.1),
        ),
    decreases tokens.len() - lo,
{
    let hi = next_semicolon(tokens, lo);
    lemma_next_semicolon(tokens, lo);
    lemma_before_semicolon(tokens, lo);
    lemma_words(tokens, lo, hi);
    lemma_found_words(tokens, lo, hi);
    lemma_run(tokens, lo);
    let all = statements_from(text, tokens, lo);
    let here = statement_at(text, tokens, lo, hi);
    if w < hi {
        let run = (first_word(tokens, lo, hi)->0, last_word(tokens, lo, hi)->0);
        if here.len() > 0 {
            assert(all[0] == here[0]);
        }
        run
    } else {
        let run = lemma_word(text, tokens, hi + 1, w);
        let rest = statements_from(text, tokens, hi + 1);
        let part = held(text, tokens, run.0, run.1);
        if rest.contains(part) {
            let k = choose|k: int| 0 <= k < rest.len() && rest[k] == part;
            assert(all[here.len() + k] == part);
        }
        run
    }
}

/// Each word of a script is in a run of tokens that is a statement, unless the run is blank.
pub proof fn no_word_is_lost(text: Seq<char>, tokens: Seq<TokenSpan>, w: int)
    requires
        0 <= w < tokens.len(),
        tokens[w].kind == TokenKind::Word,
    ensures
        exists|first: int, last: int|
            #[trigger] is_run(tokens, first, last) && first <= w <= last && (blank(
                held(text, tokens, first, last).1,
            ) || statements_from(text, tokens, 0).contains(held(text, tokens, first, last))),
{
    let run = lemma_word(text, tokens, 0, w);
    assert(is_run(tokens, run.0, run.1));
}

/// A script is split by the tokens that the tokenizer gives, from the first one on; where it gives
/// none, its message is what is left. A token starts and ends at its places.
pub proof fn scripts_are_split_by_their_tokens(
    text: Seq<char>,
    tokens: Seq<TokenSpan>,
    message: Seq<char>,
    token: TokenSpan,
)
    ensures
        sql_tokens(text) == Ok::<Seq<TokenSpan>, Seq<char>>(tokens) ==> statements_of(text) == Ok::<
            Seq<(usize, Seq<char>)>,
            Seq<char>,
        >(statements_from(text, tokens, 0)),
        sql_tokens(text) == Err::<Seq<TokenSpan>, Seq<char>>(message) ==> statements_of(text)
            == Err::<Seq<(usize, Seq<char>)>, Seq<char>>(message),
        first_char(text, token) == position(text, token.start.line, token.start.column),
        end_char(text, token) == position(text, token.end.line, token.end.column),
{
}

} // verus!
