//! Positions in a text: lines, columns, characters and bytes.

pub mod laws;

use vstd::prelude::*;
use vstd::utf8::{
    decode_utf8, encode_utf8, encode_utf8_decode_utf8, encode_utf8_valid_utf8, is_char_boundary,
};

use crate::text::{byte_len, byte_offset, utf8_len};
use crate::text::{
    lemma_boundary, lemma_byte_offset_monotone, lemma_byte_offset_step, lemma_encode_injective,
    lemma_encode_split,
};

verus! {

/// The characters at which the lines of a text begin: the first one, and each one behind a
/// newline.
pub open spec fn line_starts(text: Seq<char>) -> Seq<int>
    decreases text.len(),
{
    if text.len() == 0 {
        seq![0]
    } else {
        let before = line_starts(text.drop_last());
        if text.last() == '\n' {
            before.push(text.len() as int)
        } else {
            before
        }
    }
}

/// Lines start inside the text, in order, and the first one at its beginning.
pub proof fn lemma_line_starts(text: Seq<char>)
    ensures
        line_starts(text).len() >= 1,
        line_starts(text)[0] == 0,
        forall|i: int|
            0 <= i < line_starts(text).len() ==> 0 <= #[trigger] line_starts(text)[i]
                <= text.len(),
    decreases text.len(),
{
    if text.len() > 0 {
        lemma_line_starts(text.drop_last());
    }
}

/// The number (from 1) of the line that holds the character `k` of a text.
pub open spec fn line_number(text: Seq<char>, k: int) -> nat {
    line_starts(text.take(k)).len()
}

/// The character at a line and column (both from 1).
pub open spec fn position(text: Seq<char>, line: u64, column: u64) -> int {
    line_starts(text)[line - 1] + column - 1
}

/// Whether a line and a column are those of a character of the text, or of its end.
pub open spec fn placed(text: Seq<char>, line: u64, column: u64) -> bool {
    &&& 1 <= line <= line_starts(text).len()
    &&& 1 <= column
    &&& line <= usize::MAX
    &&& column <= usize::MAX
    &&& position(text, line, column) <= text.len()
    &&& line_number(text, position(text, line, column)) == line
}

/// The number of characters in the first `offset` bytes of a text.
pub open spec fn chars_before(text: Seq<char>, offset: int) -> nat {
    decode_utf8(encode_utf8(text).subrange(0, offset)).len()
}

/// Whether the table holds the offset in bytes of each line start.
pub open spec fn is_line_table(text: Seq<char>, offsets: Seq<usize>) -> bool {
    &&& offsets.len() == line_starts(text).len()
    &&& forall|i: int|
        0 <= i < offsets.len() ==> #[trigger] offsets[i] == byte_offset(text, line_starts(text)[i])
}

/// The number of lines (or columns) in front of the one with this number, counted from 1; the
/// number 0 counts as 1.
pub open spec fn before(number: u64) -> nat {
    if number as usize == 0 {
        0
    } else {
        (number as usize - 1) as nat
    }
}

/// The byte at which the line with this number (from 1) starts, as the table says it; 0 where the
/// table has no such line.
pub open spec fn line_start(offsets: Seq<usize>, line: u64) -> usize {
    let index = before(line);
    if index < offsets.len() {
        offsets[index as int]
    } else {
        0
    }
}

/// The character that a line and a column (both from 1) point at: that many characters behind the
/// start of the line, where the line is one of the table.
pub open spec fn char_at(text: Seq<char>, offsets: Seq<usize>, line: u64, column: u64) -> int {
    (chars_before(text, line_start(offsets, line) as int) + before(column)) as int
}

pub proof fn lemma_chars_before(text: Seq<char>, k: int)
    requires
        0 <= k <= text.len(),
    ensures
        chars_before(text, byte_offset(text, k) as int) == k,
{
    lemma_encode_split(text, k);
    encode_utf8_decode_utf8(text.take(k));
}

/// Every character boundary is the offset of one character.
pub proof fn lemma_boundary_is_offset(text: Seq<char>, offset: int)
    requires
        is_char_boundary(encode_utf8(text), offset),
        0 <= offset <= encode_utf8(text).len(),
    ensures
        0 <= chars_before(text, offset) <= text.len(),
        byte_offset(text, chars_before(text, offset) as int) == offset,
{
    let bytes = encode_utf8(text);
    let head = bytes.subrange(0, offset);
    encode_utf8_valid_utf8(text);
    encode_utf8_decode_utf8(text);
    vstd::utf8::decode_utf8_split(bytes, offset);
    vstd::utf8::valid_utf8_split(bytes, offset);
    vstd::utf8::decode_utf8_encode_utf8(head);
    let k = chars_before(text, offset) as int;
    assert(text.take(k) =~= decode_utf8(head));
}

/// The offset in bytes at which each line of the input starts.
pub fn line_byte_offsets(input: &str) -> (offsets: Vec<usize>)
    ensures
        is_line_table(input@, offsets@),
        forall|line: u64|
            (#[trigger] line_start(offsets@, line)) <= encode_utf8(input@).len()
                && is_char_boundary(encode_utf8(input@), line_start(offsets@, line) as int),
{
    let ghost text = input@;
    let mut offsets: Vec<usize> = vec![0];
    let mut at: usize = 0;
    let total = byte_len(input);
    assert(text.take(0) =~= Seq::empty());
    for c in it: input.chars()
        invariant
            text == input@,
            it.seq() == text,
            total == byte_offset(text, text.len() as int),
            0 <= it.index() <= text.len(),
            at == byte_offset(text, it.index() as int),
            offsets@.len() == line_starts(text.take(it.index() as int)).len(),
            forall|i: int|
                0 <= i < offsets@.len() ==> #[trigger] offsets@[i] == byte_offset(
                    text,
                    line_starts(text.take(it.index() as int))[i],
                ),
    {
        let ghost k = it.index() as int;
        proof {
            lemma_byte_offset_step(text, k);
            lemma_byte_offset_monotone(text, k + 1, text.len() as int);
            assert(text.take(k + 1).drop_last() =~= text.take(k));
            assert(text.take(k + 1).last() == text[k]);
        }
        at = at + utf8_len(c);
        if c == '\n' {
            offsets.push(at);
        }
    }
    assert(text.take(text.len() as int) =~= text);
    proof {
        lemma_line_starts(text);
        encode_utf8_valid_utf8(text);
        assert forall|line: u64|
            (#[trigger] line_start(offsets@, line)) <= encode_utf8(text).len()
                && is_char_boundary(encode_utf8(text), line_start(offsets@, line) as int) by {
            if before(line) < offsets@.len() {
                let k = line_starts(text)[before(line) as int];
                lemma_boundary(text, k);
                lemma_encode_split(text, k);
            }
        }
    }
    offsets
}

/// By the table of the line starts, the line and column of a character point at that character.
pub proof fn lemma_char_at(text: Seq<char>, offsets: Seq<usize>, line: u64, column: u64)
    requires
        placed(text, line, column),
        is_line_table(text, offsets),
    ensures
        char_at(text, offsets, line, column) == position(text, line, column),
        line_start(offsets, line) <= encode_utf8(text).len(),
        is_char_boundary(encode_utf8(text), line_start(offsets, line) as int),
{
    lemma_line_starts(text);
    let i = line - 1;
    assert(line as usize == line);
    assert(column as usize == column);
    lemma_chars_before(text, line_starts(text)[i]);
    lemma_boundary(text, line_starts(text)[i]);
    lemma_encode_split(text, line_starts(text)[i]);
    assert(offsets[i] == byte_offset(text, line_starts(text)[i]));
}

/// The offset in bytes of a line and column (both from 1; columns count characters), or the length
/// of the input where the column lies behind its end. `offsets` tells where the lines start.
pub fn loc_to_byte(input: &str, offsets: &[usize], line: u64, col: u64) -> (offset: usize)
    requires
        line_start(offsets@, line) <= encode_utf8(input@).len(),
        is_char_boundary(encode_utf8(input@), line_start(offsets@, line) as int),
    ensures
        offset == (if char_at(input@, offsets@, line, col) < input@.len() {
            byte_offset(input@, char_at(input@, offsets@, line, col))
        } else {
            encode_utf8(input@).len()
        }),
{
    let ghost text = input@;
    let line_idx = (line as usize).saturating_sub(1);
    let start: usize = if line_idx < offsets.len() {
        offsets[line_idx]
    } else {
        0
    };
    let skipped = (col as usize).saturating_sub(1);
    let ghost first = chars_before(text, start as int) as int;
    proof {
        lemma_boundary_is_offset(text, start as int);
        lemma_encode_split(text, first);
    }
    let total = byte_len(input);
    let (_, rest) = input.split_at(start);
    proof {
        lemma_encode_injective(rest@, text.skip(first));
    }
    let mut at: usize = start;
    let mut passed: usize = 0;
    for c in it: rest.chars()
        invariant
            it.seq() == rest@,
            rest@ == text.skip(first),
            0 <= first <= text.len(),
            total == byte_offset(text, text.len() as int),
            total == encode_utf8(text).len(),
            text == input@,
            first + skipped == char_at(text, offsets@, line, col),
            0 <= it.index() <= rest@.len(),
            passed == it.index(),
            passed <= skipped,
            at == byte_offset(text, first + it.index()),
    {
        let ghost k = first + it.index();
        if passed == skipped {
            return at;
        }
        proof {
            assert(text[k] == c);
            lemma_byte_offset_step(text, k);
            lemma_byte_offset_monotone(text, k + 1, text.len() as int);
        }
        at = at + utf8_len(c);
        passed += 1;
    }
    total
}

} // verus!
