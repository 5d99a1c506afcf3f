//! What holds of every text.

use vstd::prelude::*;

use crate::text::{
    blank, decimal, digit, digit_value, has_pair, is_space, joined, numeral, trim_end, trim_start,
    trimmed, upper, without_semicolons,
};

verus! {

/// Trimming cuts white space off both ends of a text, all of it, and nothing else.
pub proof fn trimming_cuts_white_space(text: Seq<char>) -> (cut: (int, int))
    ensures
        0 <= cut.0 <= cut.1 <= text.len(),
        trimmed(text) == text.subrange(cut.0, cut.1),
        forall|i: int| 0 <= i < cut.0 ==> is_space(#[trigger] text[i]),
        forall|i: int| cut.1 <= i < text.len() ==> is_space(#[trigger] text[i]),
        cut.0 < cut.1 ==> !is_space(text[cut.0]) && !is_space(text[cut.1 - 1]),
{
    let a = lemma_start(text);
    let rest = trim_start(text);
    let b = lemma_end(rest);
    assert(trimmed(text) =~= text.subrange(a, a + b));
    assert forall|i: int| a + b <= i < text.len() implies is_space(#[trigger] text[i]) by {
        assert(rest[i - a] == text[i]);
    }
    if b > 0 {
        assert(rest[0] == text[a]);
        assert(rest[b - 1] == text[a + b - 1]);
    }
    (a, a + b)
}

proof fn lemma_start(text: Seq<char>) -> (a: int)
    ensures
        0 <= a <= text.len(),
        trim_start(text) == text.skip(a),
        forall|i: int| 0 <= i < a ==> is_space(#[trigger] text[i]),
        a < text.len() ==> !is_space(text[a]),
    decreases text.len(),
{
    if text.len() > 0 && is_space(text[0]) {
        let rest = text.drop_first();
        let a = lemma_start(rest);
        assert(rest.skip(a) =~= text.skip(a + 1));
        assert forall|i: int| 0 <= i < a + 1 implies is_space(#[trigger] text[i]) by {
            if i > 0 {
                assert(rest[i - 1] == text[i]);
            }
        }
        if a < rest.len() {
            assert(rest[a] == text[a + 1]);
        }
        a + 1
    } else {
        assert(text.skip(0) =~= text);
        0
    }
}

proof fn lemma_end(text: Seq<char>) -> (b: int)
    ensures
        0 <= b <= text.len(),
        trim_end(text) == text.take(b),
        forall|i: int| b <= i < text.len() ==> is_space(#[trigger] text[i]),
        b > 0 ==> !is_space(text[b - 1]),
    decreases text.len(),
{
    if text.len() > 0 && is_space(text.last()) {
        let rest = text.drop_last();
        let b = lemma_end(rest);
        assert(rest.take(b) =~= text.take(b));
        assert forall|i: int| b <= i < text.len() implies is_space(#[trigger] text[i]) by {
            if i < rest.len() {
                assert(rest[i] == text[i]);
            }
        }
        b
    } else {
        assert(text.take(text.len() as int) =~= text);
        text.len() as int
    }
}

/// White space is what Unicode calls so: the tabulator, the newlines and the form feed, the blank,
/// and these few characters beyond ASCII.
pub proof fn white_space_is_of_unicode(c: char)
    ensures
        is_space(c) == (c == '\t' || c == '\n' || c == '\u{b}' || c == '\u{c}' || c == '\r' || c
            == ' ' || c == '\u{85}' || c == '\u{a0}' || c == '\u{1680}' || ('\u{2000}' <= c && c
            <= '\u{200a}') || c == '\u{2028}' || c == '\u{2029}' || c == '\u{202f}' || c
            == '\u{205f}' || c == '\u{3000}'),
{
}

/// A text is blank exactly where trimming leaves nothing of it.
pub proof fn blank_texts_trim_to_nothing(text: Seq<char>)
    ensures
        blank(text) == (trimmed(text).len() == 0),
{
    let (a, b) = trimming_cuts_white_space(text);
    if a < b {
        assert(!is_space(text[a]));
    }
}

/// Cutting off semicolons takes all of those at the end of a text, and nothing else.
pub proof fn semicolons_are_cut_off(text: Seq<char>)
    ensures
        without_semicolons(text) == text.take(without_semicolons(text).len() as int),
        without_semicolons(text).len() <= text.len(),
        forall|i: int|
            without_semicolons(text).len() <= i < text.len() ==> #[trigger] text[i] == ';',
        without_semicolons(text).len() > 0 ==> without_semicolons(text).last() != ';',
    decreases text.len(),
{
    if text.len() > 0 && text.last() == ';' {
        let rest = text.drop_last();
        semicolons_are_cut_off(rest);
        let n = without_semicolons(rest).len() as int;
        assert(rest.take(n) =~= text.take(n));
        assert forall|i: int| n <= i < text.len() implies #[trigger] text[i] == ';' by {
            if i < rest.len() {
                assert(rest[i] == text[i]);
            }
        }
    } else {
        assert(text.take(text.len() as int) =~= text);
    }
}

/// Joining puts the separator between any two neighbours, and nowhere else.
pub proof fn separators_stand_between(
    a: Seq<Seq<char>>,
    part: Seq<char>,
    b: Seq<Seq<char>>,
    separator: Seq<char>,
)
    ensures
        joined(Seq::empty(), separator) == Seq::<char>::empty(),
        joined(seq![part], separator) == part,
        a.len() > 0 && b.len() > 0 ==> joined(a + b, separator) == joined(a, separator) + separator
            + joined(b, separator),
    decreases b.len(),
{
    assert(seq![part].drop_last() =~= Seq::empty());
    if a.len() > 0 && b.len() > 0 {
        let front = b.drop_last();
        assert((a + b).drop_last() =~= a + front);
        if front.len() == 0 {
            assert(a + front =~= a);
            assert(b =~= seq![b.last()]);
            assert(seq![b.last()].drop_last() =~= Seq::empty());
        } else {
            separators_stand_between(a, part, front, separator);
            assert(joined(a + b, separator) =~= joined(a, separator) + separator + joined(
                b,
                separator,
            ));
        }
    }
}

/// A number in decimal notation reads back as the number, in digits alone, and does not begin with
/// a zero unless it is one.
pub proof fn numbers_read_back(n: nat)
    ensures
        numeral(decimal(n)) == Some(n),
        decimal(n).len() > 0,
        n > 0 ==> decimal(n)[0] != '0',
        forall|i: int| 0 <= i < decimal(n).len() ==> '0' <= #[trigger] decimal(n)[i] <= '9',
    decreases n,
{
    assert forall|d: nat| d < 10 implies digit_value(#[trigger] digit(d)) == Some(d) && '0'
        <= digit(d) <= '9' && (d > 0 ==> digit(d) != '0') by {}
    if n < 10 {
        assert(digit_value(digit(n)) == Some(n));
    } else {
        numbers_read_back(n / 10);
        let all = decimal(n);
        assert(all.drop_last() =~= decimal(n / 10));
        assert(all.last() == digit(n % 10));
        assert(digit_value(digit(n % 10)) == Some(n % 10));
        assert(all[0] == decimal(n / 10)[0]);
        assert forall|i: int| 0 <= i < all.len() implies '0' <= #[trigger] all[i] <= '9' by {
            if i < all.len() - 1 {
                assert(all[i] == decimal(n / 10)[i]);
            }
        }
    }
}

/// A text is read as a number exactly where it is digits alone, and is not empty.
pub proof fn numerals_are_digits(text: Seq<char>)
    ensures
        (numeral(text) is Some) == (text.len() > 0 && forall|i: int|
            0 <= i < text.len() ==> '0' <= #[trigger] text[i] <= '9'),
    decreases text.len(),
{
    if text.len() > 1 {
        let front = text.drop_last();
        numerals_are_digits(front);
        assert(text[text.len() - 1] == text.last());
        if numeral(text) is Some {
            assert forall|i: int| 0 <= i < text.len() implies '0' <= #[trigger] text[i] <= '9' by {
                if i < front.len() {
                    assert(front[i] == text[i]);
                }
            }
        }
        if forall|i: int| 0 <= i < text.len() ==> '0' <= #[trigger] text[i] <= '9' {
            assert forall|i: int| 0 <= i < front.len() implies '0' <= #[trigger] front[i]
                <= '9' by {
                assert(front[i] == text[i]);
            }
        }
    }
}

/// A digit behind a numeral makes it ten times as large, and adds its own value.
pub proof fn numerals_are_decimal(text: Seq<char>, c: char)
    requires
        numeral(text) is Some,
        '0' <= c <= '9',
    ensures
        numeral(text.push(c)) == Some(
            (numeral(text)->Some_0 * 10 + (c as u32 - '0' as u32)) as nat,
        ),
{
    assert(text.push(c).drop_last() =~= text);
}

/// Turning a text into upper case turns each of the letters from `a` to `z` into the one at the
/// same place from `A` to `Z`, and keeps all else.
pub proof fn letters_become_capitals(text: Seq<char>, i: int)
    requires
        0 <= i < text.len(),
    ensures
        upper(text).len() == text.len(),
        'a' <= text[i] <= 'z' ==> 'A' <= upper(text)[i] <= 'Z' && upper(text)[i] as u32
            - 'A' as u32 == text[i] as u32 - 'a' as u32,
        !('a' <= text[i] <= 'z') ==> upper(text)[i] == text[i],
{
}

/// Two characters occur in a text one right after the other exactly where the text has the two of
/// them as a piece.
pub proof fn pairs_are_pieces(text: Seq<char>, first: char, second: char)
    ensures
        has_pair(text, first, second) == exists|i: int|
            0 <= i <= text.len() - 2 && #[trigger] text.subrange(i, i + 2) == seq![first, second],
{
    if has_pair(text, first, second) {
        let i = choose|i: int|
            0 <= i < text.len() - 1 && #[trigger] text[i] == first && text[i + 1] == second;
        assert(text.subrange(i, i + 2) =~= seq![first, second]);
    }
    if exists|i: int|
        0 <= i <= text.len() - 2 && #[trigger] text.subrange(i, i + 2) == seq![first, second] {
        let i = choose|i: int|
            0 <= i <= text.len() - 2 && #[trigger] text.subrange(i, i + 2) == seq![first, second];
        assert(text.subrange(i, i + 2)[0] == text[i]);
        assert(text.subrange(i, i + 2)[1] == text[i + 1]);
        assert(seq![first, second][0] == first && seq![first, second][1] == second);
    }
}

} // verus!
