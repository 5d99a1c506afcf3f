//! Splitting SQL into statements.

pub mod laws;
pub mod runs;

use vstd::prelude::*;

use crate::dialect::{sql_tokens, tokenize};
use crate::location::{line_byte_offsets, loc_to_byte};
use crate::location::{
    is_line_table, lemma_char_at, lemma_line_starts, line_number, placed, position,
};
use crate::split::laws::{
    lines_fit, moved_statements, newline_tokens, newlines, newlines_move, newlines_move_statements,
};
use crate::text::{blank, lemma_blank_trimmed};
use crate::text::{byte_offset, byte_slice, trim};

verus! {

/// What a token means to the splitter.
#[derive(Clone, Copy, PartialEq, Eq, Structural, Debug)]
pub enum TokenKind {
    /// White space and comments.
    Space,
    /// The end of a statement.
    Semicolon,
    /// Any other token.
    Word,
}

/// A line and a column in a text, both counted from 1.
#[derive(Clone, Copy, PartialEq, Eq, Structural, Debug)]
pub struct Place {
    pub line: u64,
    pub column: u64,
}

/// A token and the place of its first character and of the character behind its last one.
#[derive(Clone, Copy, PartialEq, Eq, Structural, Debug)]
pub struct TokenSpan {
    pub kind: TokenKind,
    pub start: Place,
    pub end: Place,
}

/// The first character of a token.
pub open spec fn first_char(text: Seq<char>, token: TokenSpan) -> int {
    position(text, token.start.line, token.start.column)
}

/// The character behind a token.
pub open spec fn end_char(text: Seq<char>, token: TokenSpan) -> int {
    position(text, token.end.line, token.end.column)
}

/// Whether the tokens lie in the text one right behind the other, each with a character at least.
pub open spec fn consecutive(text: Seq<char>, tokens: Seq<TokenSpan>) -> bool {
    &&& forall|i: int|
        0 <= i < tokens.len() ==> {
            &&& placed(text, (#[trigger] tokens[i]).start.line, tokens[i].start.column)
            &&& placed(text, tokens[i].end.line, tokens[i].end.column)
            &&& first_char(text, tokens[i]) < end_char(text, tokens[i])
        }
    &&& forall|i: int, j: int|
        0 <= i && j == i + 1 && j < tokens.len() ==> (#[trigger] tokens[j]).start == (
        #[trigger] tokens[i]).end
}

/// The first semicolon from `lo` on, or the number of tokens.
pub open spec fn next_semicolon(tokens: Seq<TokenSpan>, lo: int) -> int
    decreases tokens.len() - lo,
{
    if lo < 0 || lo >= tokens.len() {
        tokens.len() as int
    } else if tokens[lo].kind == TokenKind::Semicolon {
        lo
    } else {
        next_semicolon(tokens, lo + 1)
    }
}

/// The first word among the tokens `lo..hi`.
pub open spec fn first_word(tokens: Seq<TokenSpan>, lo: int, hi: int) -> Option<int>
    decreases hi - lo,
{
    if hi <= lo {
        None
    } else {
        match first_word(tokens, lo, hi - 1) {
            Some(i) => Some(i),
            None => if tokens[hi - 1].kind == TokenKind::Word {
                Some(hi - 1)
            } else {
                None
            },
        }
    }
}

/// The last word among the tokens `lo..hi`.
pub open spec fn last_word(tokens: Seq<TokenSpan>, lo: int, hi: int) -> Option<int>
    decreases hi - lo,
{
    if hi <= lo {
        None
    } else if tokens[hi - 1].kind == TokenKind::Word {
        Some(hi - 1)
    } else {
        last_word(tokens, lo, hi - 1)
    }
}

/// The statement that the tokens `lo..hi` make up: the text from the first word to the last one,
/// with the line of the first word. No statement where there is no word, or where the text is
/// blank.
pub open spec fn statement_at(text: Seq<char>, tokens: Seq<TokenSpan>, lo: int, hi: int) -> Seq<
    (usize, Seq<char>),
> {
    match (first_word(tokens, lo, hi), last_word(tokens, lo, hi)) {
        (Some(first), Some(last)) => {
            let found = text.subrange(
                first_char(text, tokens[first]),
                end_char(text, tokens[last]),
            );
            if blank(found) {
                Seq::empty()
            } else {
                seq![(tokens[first].start.line as usize, found)]
            }
        },
        _ => Seq::empty(),
    }
}

/// The statements that the tokens from `lo` on make up: one between any two semicolons.
pub open spec fn statements_from(text: Seq<char>, tokens: Seq<TokenSpan>, lo: int) -> Seq<
    (usize, Seq<char>),
>
    decreases tokens.len() - lo,
    via statements_from_decreases
{
    let hi = next_semicolon(tokens, lo);
    if lo < 0 || hi >= tokens.len() {
        statement_at(text, tokens, lo, hi)
    } else {
        statement_at(text, tokens, lo, hi) + statements_from(text, tokens, hi + 1)
    }
}

#[via_fn]
proof fn statements_from_decreases(text: Seq<char>, tokens: Seq<TokenSpan>, lo: int) {
    lemma_next_semicolon(tokens, lo);
}

pub proof fn lemma_next_semicolon(tokens: Seq<TokenSpan>, lo: int)
    ensures
        0 <= lo <= tokens.len() ==> lo <= next_semicolon(tokens, lo) <= tokens.len(),
    decreases tokens.len() - lo,
{
    if 0 <= lo < tokens.len() {
        lemma_next_semicolon(tokens, lo + 1);
    }
}

proof fn lemma_no_semicolon(tokens: Seq<TokenSpan>, lo: int, hi: int)
    requires
        0 <= lo <= hi <= tokens.len(),
        forall|i: int| lo <= i < hi ==> (#[trigger] tokens[i]).kind != TokenKind::Semicolon,
        hi < tokens.len() ==> tokens[hi].kind == TokenKind::Semicolon,
    ensures
        next_semicolon(tokens, lo) == hi,
    decreases hi - lo,
{
    if lo < hi {
        lemma_no_semicolon(tokens, lo + 1, hi);
    }
}

pub proof fn lemma_words(tokens: Seq<TokenSpan>, lo: int, hi: int)
    requires
        0 <= lo <= hi <= tokens.len(),
    ensures
        first_word(tokens, lo, hi) is Some <==> last_word(tokens, lo, hi) is Some,
        first_word(tokens, lo, hi) matches Some(f) ==> {
            &&& last_word(tokens, lo, hi) matches Some(l)
            &&& lo <= f <= l < hi
        },
    decreases hi - lo,
{
    if lo < hi {
        lemma_words(tokens, lo, hi - 1);
    }
}

/// Later tokens lie behind earlier ones.
pub proof fn lemma_ordered(text: Seq<char>, tokens: Seq<TokenSpan>, i: int, j: int)
    requires
        consecutive(text, tokens),
        0 <= i <= j < tokens.len(),
    ensures
        first_char(text, tokens[i]) < end_char(text, tokens[j]),
        i < j ==> end_char(text, tokens[i]) <= first_char(text, tokens[j]),
    decreases j - i,
{
    if i < j {
        lemma_ordered(text, tokens, i, j - 1);
        assert(tokens[j].start == tokens[j - 1].end);
    }
}

/// Numbered texts as plain values.
pub open spec fn numbered(parts: Seq<(usize, String)>) -> Seq<(usize, Seq<char>)> {
    parts.map_values(|part: (usize, String)| (part.0, part.1@))
}

proof fn lemma_numbered_push(parts: Seq<(usize, String)>, part: (usize, String))
    ensures
        numbered(parts.push(part)) == numbered(parts).push((part.0, part.1@)),
{
    assert(numbered(parts.push(part)) =~= numbered(parts).push((part.0, part.1@)));
}

/// Adds the statement between two offsets to the list, unless it is blank.
fn push_statement(
    input: &str,
    start: usize,
    end: usize,
    line: u64,
    from: Ghost<int>,
    to: Ghost<int>,
    results: &mut Vec<(usize, String)>,
)
    requires
        0 <= from@ <= to@ <= input@.len(),
        start == byte_offset(input@, from@),
        end == byte_offset(input@, to@),
    ensures
        numbered(final(results)@) == numbered(old(results)@) + (if blank(
            input@.subrange(from@, to@),
        ) {
            Seq::empty()
        } else {
            seq![(line as usize, input@.subrange(from@, to@))]
        }),
{
    let text = byte_slice(input, start, end, from, to);
    proof {
        lemma_blank_trimmed(text@);
    }
    if !trim(text).is_empty() {
        let owned = text.to_owned();
        proof {
            lemma_numbered_push(results@, (line as usize, owned));
        }
        results.push((line as usize, owned));
        assert(numbered(results@) =~= numbered(old(results)@) + seq![(line as usize, text@)]);
    } else {
        assert(numbered(results@) =~= numbered(old(results)@) + Seq::<(usize, Seq<char>)>::empty());
    }
}

/// Splits the input at its semicolons, given its tokens. Each statement comes with the number of
/// the line that it starts on, and with its own text, newlines included.
#[verifier::rlimit(40)]
#[verifier::spinoff_prover]
pub fn split_tokens(input: &str, tokens: &Vec<TokenSpan>) -> (results: Vec<(usize, String)>)
    requires
        consecutive(input@, tokens@),
    ensures
        numbered(results@) == statements_from(input@, tokens@, 0),
{
    let ghost text = input@;
    let offsets = line_byte_offsets(input);
    let mut results: Vec<(usize, String)> = Vec::new();
    let mut start: Option<usize> = None;
    let mut first_line: u64 = 0;
    let mut end: usize = 0;
    let ghost mut lo: int = 0;
    let mut i: usize = 0;
    assert(numbered(results@) =~= Seq::empty());
    assert(numbered(results@) + statements_from(text, tokens@, 0) =~= statements_from(
        text,
        tokens@,
        0,
    ));
    while i < tokens.len()
        invariant
            text == input@,
            consecutive(text, tokens@),
            is_line_table(text, offsets@),
            0 <= lo <= i <= tokens.len(),
            forall|j: int| lo <= j < i ==> (#[trigger] tokens@[j]).kind != TokenKind::Semicolon,
            numbered(results@) + statements_from(text, tokens@, lo) == statements_from(
                text,
                tokens@,
                0,
            ),
            start is Some <==> first_word(tokens@, lo, i as int) is Some,
            start matches Some(at) ==> {
                &&& first_word(tokens@, lo, i as int) matches Some(first)
                &&& last_word(tokens@, lo, i as int) matches Some(last)
                &&& at == byte_offset(text, first_char(text, tokens@[first]))
                &&& first_line == tokens@[first].start.line
                &&& end == byte_offset(text, end_char(text, tokens@[last]))
            },
        decreases tokens.len() - i,
    {
        let token = tokens[i];
        proof {
            lemma_words(tokens@, lo, i as int);
        }
        match token.kind {
            TokenKind::Space => {},
            TokenKind::Semicolon => {
                proof {
                    lemma_no_semicolon(tokens@, lo, i as int);
                }
                let ghost before = numbered(results@);
                if let Some(at) = start {
                    let ghost first = first_word(tokens@, lo, i as int)->0;
                    let ghost last = last_word(tokens@, lo, i as int)->0;
                    proof {
                        lemma_ordered(text, tokens@, first, last);
                        lemma_line_starts(text);
                    }
                    push_statement(
                        input,
                        at,
                        end,
                        first_line,
                        Ghost(first_char(text, tokens@[first])),
                        Ghost(end_char(text, tokens@[last])),
                        &mut results,
                    );
                }
                proof {
                    assert(numbered(results@) =~= before + statement_at(
                        text,
                        tokens@,
                        lo,
                        i as int,
                    ));
                    assert(numbered(results@) + statements_from(text, tokens@, i + 1) =~= before
                        + statements_from(text, tokens@, lo));
                    lo = i + 1;
                }
                start = None;
            },
            TokenKind::Word => {
                proof {
                    lemma_char_at(text, offsets@, token.start.line, token.start.column);
                    lemma_char_at(text, offsets@, token.end.line, token.end.column);
                    assert(text.take(text.len() as int) =~= text);
                }
                let token_start = loc_to_byte(
                    input,
                    offsets.as_slice(),
                    token.start.line,
                    token.start.column,
                );
                let token_end = loc_to_byte(
                    input,
                    offsets.as_slice(),
                    token.end.line,
                    token.end.column,
                );
                if start.is_none() {
                    start = Some(token_start);
                    first_line = token.start.line;
                }
                end = token_end;
            },
        }
        i += 1;
    }
    proof {
        lemma_no_semicolon(tokens@, lo, i as int);
        lemma_words(tokens@, lo, i as int);
    }
    let ghost before = numbered(results@);
    if let Some(at) = start {
        let ghost first = first_word(tokens@, lo, i as int)->0;
        let ghost last = last_word(tokens@, lo, i as int)->0;
        proof {
            lemma_ordered(text, tokens@, first, last);
            lemma_line_starts(text);
        }
        push_statement(
            input,
            at,
            end,
            first_line,
            Ghost(first_char(text, tokens@[first])),
            Ghost(end_char(text, tokens@[last])),
            &mut results,
        );
    }
    assert(numbered(results@) =~= before + statement_at(text, tokens@, lo, i as int));
    results
}

/// The statements of a text, or what the tokenizer has to say against it.
pub open spec fn statements_of(text: Seq<char>) -> Result<Seq<(usize, Seq<char>)>, Seq<char>> {
    match sql_tokens(text) {
        Ok(tokens) => Ok(statements_from(text, tokens, 0)),
        Err(message) => Err(message),
    }
}

/// Whether the statements stand at these places (first character, and the character behind the
/// last) in the text: each is what the text holds there, each is numbered with the line that it
/// starts on, and none begins before the one in front of it has ended.
pub open spec fn cut_out(
    text: Seq<char>,
    statements: Seq<(usize, Seq<char>)>,
    places: Seq<(int, int)>,
) -> bool {
    &&& places.len() == statements.len()
    &&& forall|i: int|
        0 <= i < places.len() ==> {
            &&& 0 <= (#[trigger] places[i]).0 <= places[i].1 <= text.len()
            &&& statements[i].1 == text.subrange(places[i].0, places[i].1)
            &&& statements[i].0 == line_number(text, places[i].0)
        }
    &&& forall|i: int, j: int|
        0 <= i < j < places.len() ==> (#[trigger] places[i]).1 <= (#[trigger] places[j]).0
}

proof fn lemma_cut_out(text: Seq<char>, tokens: Seq<TokenSpan>, lo: int) -> (places: Seq<
    (int, int),
>)
    requires
        consecutive(text, tokens),
        0 <= lo <= tokens.len(),
    ensures
        cut_out(text, statements_from(text, tokens, lo), places),
        forall|i: int|
            0 <= i < places.len() ==> lo < tokens.len() && first_char(text, tokens[lo]) <= (
            #[trigger] places[i]).0,
    decreases tokens.len() - lo,
{
    let hi = next_semicolon(tokens, lo);
    lemma_next_semicolon(tokens, lo);
    lemma_words(tokens, lo, hi);
    let here = statement_at(text, tokens, lo, hi);
    let first_places: Seq<(int, int)> = if here.len() == 0 {
        Seq::empty()
    } else {
        let first = first_word(tokens, lo, hi)->0;
        let last = last_word(tokens, lo, hi)->0;
        lemma_ordered(text, tokens, lo, first);
        lemma_ordered(text, tokens, first, last);
        lemma_line_starts(text);
        seq![(first_char(text, tokens[first]), end_char(text, tokens[last]))]
    };
    assert(cut_out(text, here, first_places));
    if hi >= tokens.len() {
        first_places
    } else {
        let rest = lemma_cut_out(text, tokens, hi + 1);
        let places = first_places + rest;
        let all = statements_from(text, tokens, lo);
        assert(all == here + statements_from(text, tokens, hi + 1));
        if hi + 1 < tokens.len() {
            lemma_ordered(text, tokens, lo, hi);
            lemma_ordered(text, tokens, hi, hi + 1);
            if here.len() > 0 {
                lemma_ordered(text, tokens, last_word(tokens, lo, hi)->0, hi);
            }
        }
        assert forall|i: int| 0 <= i < places.len() implies {
            &&& 0 <= (#[trigger] places[i]).0 <= places[i].1 <= text.len()
            &&& all[i].1 == text.subrange(places[i].0, places[i].1)
            &&& all[i].0 == line_number(text, places[i].0)
        } by {
            if i >= first_places.len() {
                assert(places[i] == rest[i - first_places.len()]);
            } else {
                assert(places[i] == first_places[i]);
            }
        }
        assert forall|i: int, j: int| 0 <= i < j < places.len() implies (#[trigger] places[i]).1
            <= (#[trigger] places[j]).0 by {
            assert(places[j] == rest[j - first_places.len()]);
            if i < first_places.len() {
                assert(places[i] == first_places[i]);
            } else {
                assert(places[i] == rest[i - first_places.len()]);
            }
        }
        assert forall|i: int| 0 <= i < places.len() implies first_char(text, tokens[lo]) <= (
        #[trigger] places[i]).0 by {
            if i >= first_places.len() {
                assert(places[i] == rest[i - first_places.len()]);
            } else {
                assert(places[i] == first_places[i]);
            }
        }
        places
    }
}

/// The statements of a text are pieces of it, in their order, none over another, and each is
/// numbered with the line that it starts on.
pub proof fn statements_are_cut_out(text: Seq<char>, tokens: Seq<TokenSpan>)
    requires
        consecutive(text, tokens),
    ensures
        exists|places: Seq<(int, int)>|
            cut_out(text, statements_from(text, tokens, 0), places),
{
    let places = lemma_cut_out(text, tokens, 0);
    assert(cut_out(text, statements_from(text, tokens, 0), places));
}

/// A list of numbered texts, or a message, as plain values.
pub open spec fn split_result(r: Result<Vec<(usize, String)>, String>) -> Result<
    Seq<(usize, Seq<char>)>,
    Seq<char>,
> {
    match r {
        Ok(parts) => Ok(numbered(parts@)),
        Err(message) => Err(message@),
    }
}

/// Splits SQL into statements, each with the number of its first line.
///
/// Semicolons in quotes and in comments split nothing. A text that the tokenizer refuses has no
/// statements; its message is returned. Newlines in front of the input move its statements down by
/// their number, and change nothing else.
pub fn split_statements(input: &str) -> (r: Result<Vec<(usize, String)>, String>)
    ensures
        split_result(r) == statements_of(input@),
        r matches Ok(parts) ==> exists|places: Seq<(int, int)>|
            cut_out(input@, numbered(parts@), places),
        r matches Ok(parts) ==> newlines_move(input@, numbered(parts@)),
{
    match tokenize(input) {
        Ok(tokens) => {
            let parts = split_tokens(input, &tokens);
            proof {
                statements_are_cut_out(input@, tokens@);
                assert forall|k: nat| input@.len() + k < usize::MAX implies {
                    &&& #[trigger] statements_of(newlines(k) + input@) == Ok::<
                        Seq<(usize, Seq<char>)>,
                        Seq<char>,
                    >(moved_statements(numbered(parts@), k))
                    &&& lines_fit(numbered(parts@), k)
                } by {
                    newlines_move_statements(input@, tokens@, newline_tokens(k), k);
                }
            }
            Ok(parts)
        },
        Err(message) => Err(message),
    }
}

} // verus!
