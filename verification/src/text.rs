//! Text as sequences of characters: white space, slices by byte offset, joining and numbers.

pub mod laws;

use vstd::prelude::*;
use vstd::utf8::{
    char_is_scalar, encode_scalar, encode_utf8, encode_utf8_decode_utf8, encode_utf8_first_scalar,
    encode_utf8_valid_utf8, is_char_boundary, pop_first_scalar,
};

verus! {

/// `String::push` appends one character to the end of the string.
pub assume_specification[ String::push ](s: &mut String, ch: char)
    ensures
        final(s)@ == old(s)@.push(ch),
;

/// The number of bytes that the first `k` characters of `text` take up in UTF-8.
pub open spec fn byte_offset(text: Seq<char>, k: int) -> nat {
    encode_utf8(text.take(k)).len()
}

pub proof fn lemma_encode_concat(a: Seq<char>, b: Seq<char>)
    ensures
        encode_utf8(a + b) == encode_utf8(a) + encode_utf8(b),
    decreases a.len(),
{
    if a.len() == 0 {
        assert(a + b =~= b);
        assert(encode_utf8(a) + encode_utf8(b) =~= encode_utf8(b));
    } else {
        assert((a + b).drop_first() =~= a.drop_first() + b);
        lemma_encode_concat(a.drop_first(), b);
        assert(encode_utf8(a + b) =~= encode_utf8(a) + encode_utf8(b));
    }
}

pub proof fn lemma_encode_split(text: Seq<char>, k: int)
    requires
        0 <= k <= text.len(),
    ensures
        encode_utf8(text) == encode_utf8(text.take(k)) + encode_utf8(text.skip(k)),
        byte_offset(text, k) <= encode_utf8(text).len(),
        encode_utf8(text).subrange(0, byte_offset(text, k) as int) == encode_utf8(text.take(k)),
        encode_utf8(text).subrange(
            byte_offset(text, k) as int,
            encode_utf8(text).len() as int,
        ) == encode_utf8(text.skip(k)),
{
    assert(text.take(k) + text.skip(k) =~= text);
    lemma_encode_concat(text.take(k), text.skip(k));
    assert(encode_utf8(text).subrange(0, byte_offset(text, k) as int) =~= encode_utf8(
        text.take(k),
    ));
    assert(encode_utf8(text).subrange(
        byte_offset(text, k) as int,
        encode_utf8(text).len() as int,
    ) =~= encode_utf8(text.skip(k)));
}

pub proof fn lemma_boundary(text: Seq<char>, k: int)
    requires
        0 <= k <= text.len(),
    ensures
        is_char_boundary(encode_utf8(text), byte_offset(text, k) as int),
    decreases k,
{
    encode_utf8_valid_utf8(text);
    let bytes = encode_utf8(text);
    if k == 0 {
        assert(text.take(0) =~= Seq::empty());
    } else {
        encode_utf8_first_scalar(text);
        let rest = text.drop_first();
        assert(pop_first_scalar(bytes) =~= encode_utf8(rest));
        assert(text.take(k).drop_first() =~= rest.take(k - 1));
        lemma_encode_split(text, k);
        lemma_boundary(rest, k - 1);
    }
}

/// The text is determined by its bytes.
pub proof fn lemma_encode_injective(a: Seq<char>, b: Seq<char>)
    requires
        encode_utf8(a) == encode_utf8(b),
    ensures
        a == b,
{
    encode_utf8_decode_utf8(a);
    encode_utf8_decode_utf8(b);
}

pub proof fn lemma_byte_offset_step(text: Seq<char>, k: int)
    requires
        0 <= k < text.len(),
    ensures
        byte_offset(text, k + 1) == byte_offset(text, k) + encode_scalar(text[k] as u32).len(),
        encode_scalar(text[k] as u32).len() >= 1,
{
    assert(text.take(k + 1) =~= text.take(k) + seq![text[k]]);
    lemma_encode_concat(text.take(k), seq![text[k]]);
    let one = seq![text[k]];
    assert(encode_utf8(one) =~= encode_scalar(text[k] as u32)) by {
        reveal_with_fuel(encode_utf8, 2);
    }
}

pub proof fn lemma_byte_offset_monotone(text: Seq<char>, j: int, k: int)
    requires
        0 <= j <= k <= text.len(),
    ensures
        byte_offset(text, j) + (k - j) <= byte_offset(text, k),
    decreases k - j,
{
    if j < k {
        lemma_byte_offset_monotone(text, j, k - 1);
        lemma_byte_offset_step(text, k - 1);
    }
}

/// The number of bytes of one character in UTF-8.
pub fn utf8_len(c: char) -> (n: usize)
    ensures
        n == encode_scalar(c as u32).len(),
        1 <= n <= 4,
{
    proof {
        char_is_scalar(c);
    }
    let v: u32 = c as u32;
    if v <= 0x7F {
        1
    } else if v <= 0x7FF {
        2
    } else if v <= 0xFFFF {
        3
    } else {
        4
    }
}

/// The number of bytes of a text.
pub fn byte_len(s: &str) -> (n: usize)
    ensures
        n == encode_utf8(s@).len(),
        n == byte_offset(s@, s@.len() as int),
        s@.len() <= n,
{
    let bytes = s.as_bytes();
    proof {
        assert(s@.take(s@.len() as int) =~= s@);
        lemma_byte_offset_monotone(s@, 0, s@.len() as int);
    }
    bytes.len()
}

/// The characters `from..to` of `s`, where the two ends are given in bytes.
pub fn byte_slice<'a>(s: &'a str, start: usize, end: usize, from: Ghost<int>, to: Ghost<int>) -> (r:
    &'a str)
    requires
        0 <= from@ <= to@ <= s@.len(),
        start == byte_offset(s@, from@),
        end == byte_offset(s@, to@),
    ensures
        r@ == s@.subrange(from@, to@),
{
    proof {
        lemma_boundary(s@, to@);
        lemma_encode_split(s@, to@);
    }
    let (head, _) = s.split_at(end);
    proof {
        lemma_encode_injective(head@, s@.take(to@));
        assert(head@.take(from@) =~= s@.take(from@));
        lemma_boundary(head@, from@);
        lemma_encode_split(head@, from@);
    }
    let (_, tail) = head.split_at(start);
    proof {
        lemma_encode_injective(tail@, head@.skip(from@));
        assert(head@.skip(from@) =~= s@.subrange(from@, to@));
    }
    tail
}

/// Whether two texts are the same.
pub fn same_text(a: &str, b: &str) -> (r: bool)
    ensures
        r == (a@ == b@),
{
    let x = a.as_bytes();
    let y = b.as_bytes();
    if x.len() != y.len() {
        return false;
    }
    let mut i: usize = 0;
    while i < x.len()
        invariant
            i <= x.len(),
            x.len() == y.len(),
            x@ == encode_utf8(a@),
            y@ == encode_utf8(b@),
            forall|j: int| 0 <= j < i ==> x@[j] == y@[j],
        decreases x.len() - i,
    {
        if x[i] != y[i] {
            return false;
        }
        i += 1;
    }
    proof {
        assert(x@ =~= y@);
        lemma_encode_injective(a@, b@);
    }
    true
}

/// The characters with the Unicode property `White_Space`.
pub open spec fn is_space(c: char) -> bool {
    let v = c as u32;
    ||| 0x09 <= v <= 0x0D
    ||| v == 0x20
    ||| v == 0x85
    ||| v == 0xA0
    ||| v == 0x1680
    ||| 0x2000 <= v <= 0x200A
    ||| v == 0x2028
    ||| v == 0x2029
    ||| v == 0x202F
    ||| v == 0x205F
    ||| v == 0x3000
}

/// Whether a character is white space.
pub fn is_whitespace(c: char) -> (r: bool)
    ensures
        r == is_space(c),
{
    let v: u32 = c as u32;
    (0x09 <= v && v <= 0x0D) || v == 0x20 || v == 0x85 || v == 0xA0 || v == 0x1680 || (0x2000 <= v
        && v <= 0x200A) || v == 0x2028 || v == 0x2029 || v == 0x202F || v == 0x205F || v == 0x3000
}

/// Whether a text is white space alone.
pub open spec fn blank(text: Seq<char>) -> bool {
    forall|i: int| 0 <= i < text.len() ==> is_space(#[trigger] text[i])
}

/// The text without its leading white space.
pub open spec fn trim_start(text: Seq<char>) -> Seq<char>
    decreases text.len(),
{
    if text.len() > 0 && is_space(text[0]) {
        trim_start(text.drop_first())
    } else {
        text
    }
}

/// The text without its trailing white space.
pub open spec fn trim_end(text: Seq<char>) -> Seq<char>
    decreases text.len(),
{
    if text.len() > 0 && is_space(text.last()) {
        trim_end(text.drop_last())
    } else {
        text
    }
}

/// The text without white space at either end.
pub open spec fn trimmed(text: Seq<char>) -> Seq<char> {
    trim_end(trim_start(text))
}

proof fn lemma_trim_start(text: Seq<char>, a: int)
    requires
        0 <= a <= text.len(),
        forall|i: int| 0 <= i < a ==> is_space(#[trigger] text[i]),
        a < text.len() ==> !is_space(text[a]),
    ensures
        trim_start(text) == text.skip(a),
    decreases a,
{
    if a == 0 {
        assert(text.skip(0) =~= text);
    } else {
        let rest = text.drop_first();
        assert forall|i: int| 0 <= i < a - 1 implies is_space(#[trigger] rest[i]) by {
            assert(rest[i] == text[i + 1]);
        }
        lemma_trim_start(rest, a - 1);
        assert(rest.skip(a - 1) =~= text.skip(a));
    }
}

proof fn lemma_trim_end(text: Seq<char>, b: int)
    requires
        0 <= b <= text.len(),
        forall|i: int| b <= i < text.len() ==> is_space(#[trigger] text[i]),
        b > 0 ==> !is_space(text[b - 1]),
    ensures
        trim_end(text) == text.take(b),
    decreases text.len() - b,
{
    if b == text.len() {
        assert(text.take(b) =~= text);
    } else {
        lemma_trim_end(text.drop_last(), b);
        assert(text.drop_last().take(b) =~= text.take(b));
    }
}

proof fn lemma_trimmed(text: Seq<char>, a: int, b: int)
    requires
        0 <= a <= b <= text.len(),
        forall|i: int| 0 <= i < a ==> is_space(#[trigger] text[i]),
        forall|i: int| b <= i < text.len() ==> is_space(#[trigger] text[i]),
        a < b ==> !is_space(text[a]) && !is_space(text[b - 1]),
        a == b ==> a == text.len(),
    ensures
        trimmed(text) == text.subrange(a, b),
{
    lemma_trim_start(text, a);
    lemma_trim_end(text.skip(a), b - a);
    assert(text.skip(a).take(b - a) =~= text.subrange(a, b));
}

/// A text is blank exactly when nothing is left of it once trimmed.
pub proof fn lemma_blank_trimmed(text: Seq<char>)
    ensures
        blank(text) <==> trimmed(text).len() == 0,
    decreases text.len(),
{
    if text.len() == 0 {
    } else if is_space(text[0]) {
        lemma_blank_trimmed(text.drop_first());
        assert(blank(text) ==> blank(text.drop_first())) by {
            assert forall|i: int| blank(text) && 0 <= i < text.len() - 1 implies is_space(
                #[trigger] text.drop_first()[i],
            ) by {
                assert(text.drop_first()[i] == text[i + 1]);
            }
        }
        assert(blank(text.drop_first()) ==> blank(text)) by {
            assert forall|i: int|
                blank(text.drop_first()) && 0 <= i < text.len() implies is_space(
                #[trigger] text[i],
            ) by {
                if i > 0 {
                    assert(text[i] == text.drop_first()[i - 1]);
                }
            }
        }
    } else {
        lemma_trim_end_keeps_first(text);
    }
}

proof fn lemma_trim_end_keeps_first(text: Seq<char>)
    requires
        text.len() > 0,
        !is_space(text[0]),
    ensures
        trim_end(text).len() > 0,
        trim_end(text)[0] == text[0],
    decreases text.len(),
{
    if is_space(text.last()) {
        assert(text.len() > 1);
        lemma_trim_end_keeps_first(text.drop_last());
    }
}

/// The part of a text between the white space at its ends (`str::trim`).
pub fn trim(s: &str) -> (r: &str)
    ensures
        r@ == trimmed(s@),
{
    let ghost text = s@;
    let mut at: usize = 0;
    let mut start: usize = 0;
    let mut end: usize = 0;
    let mut found = false;
    let ghost mut from: int = 0;
    let ghost mut to: int = 0;
    let total = byte_len(s);
    for c in it: s.chars()
        invariant
            text == s@,
            it.seq() == text,
            total == byte_offset(text, text.len() as int),
            0 <= it.index() <= text.len(),
            at == byte_offset(text, it.index() as int),
            0 <= from <= to <= it.index(),
            start == byte_offset(text, from),
            end == byte_offset(text, to),
            !found ==> from == 0 && to == 0,
            forall|i: int| !found && 0 <= i < it.index() ==> is_space(#[trigger] text[i]),
            found ==> from < to && !is_space(text[from]) && !is_space(text[to - 1]),
            forall|i: int| found && 0 <= i < from ==> is_space(#[trigger] text[i]),
            forall|i: int| found && to <= i < it.index() ==> is_space(#[trigger] text[i]),
    {
        let ghost k = it.index() as int;
        proof {
            lemma_byte_offset_step(text, k);
            lemma_byte_offset_monotone(text, k + 1, text.len() as int);
        }
        let next = at + utf8_len(c);
        if !is_whitespace(c) {
            if !found {
                found = true;
                start = at;
                proof {
                    from = k;
                }
            }
            end = next;
            proof {
                to = k + 1;
            }
        }
        at = next;
    }
    proof {
        if found {
            lemma_trimmed(text, from, to);
        } else {
            lemma_trim_start(text, text.len() as int);
            assert(trimmed(text) =~= text.subrange(0, 0));
        }
    }
    byte_slice(s, start, end, Ghost(from), Ghost(to))
}

/// The text without the semicolons at its end.
pub open spec fn without_semicolons(text: Seq<char>) -> Seq<char>
    decreases text.len(),
{
    if text.len() > 0 && text.last() == ';' {
        without_semicolons(text.drop_last())
    } else {
        text
    }
}

proof fn lemma_without_semicolons(text: Seq<char>, b: int)
    requires
        0 <= b <= text.len(),
        forall|i: int| b <= i < text.len() ==> #[trigger] text[i] == ';',
        b > 0 ==> text[b - 1] != ';',
    ensures
        without_semicolons(text) == text.take(b),
    decreases text.len() - b,
{
    if b == text.len() {
        assert(text.take(b) =~= text);
    } else {
        lemma_without_semicolons(text.drop_last(), b);
        assert(text.drop_last().take(b) =~= text.take(b));
    }
}

/// The text up to the semicolons at its end.
pub fn trim_semicolons(s: &str) -> (r: &str)
    ensures
        r@ == without_semicolons(s@),
{
    let ghost text = s@;
    let mut at: usize = 0;
    let mut end: usize = 0;
    let ghost mut to: int = 0;
    let total = byte_len(s);
    for c in it: s.chars()
        invariant
            text == s@,
            it.seq() == text,
            total == byte_offset(text, text.len() as int),
            0 <= it.index() <= text.len(),
            at == byte_offset(text, it.index() as int),
            0 <= to <= it.index(),
            end == byte_offset(text, to),
            to > 0 ==> text[to - 1] != ';',
            forall|i: int| to <= i < it.index() ==> #[trigger] text[i] == ';',
    {
        let ghost k = it.index() as int;
        proof {
            lemma_byte_offset_step(text, k);
            lemma_byte_offset_monotone(text, k + 1, text.len() as int);
        }
        at = at + utf8_len(c);
        if c != ';' {
            end = at;
            proof {
                to = k + 1;
            }
        }
    }
    proof {
        lemma_without_semicolons(text, to);
        assert(text.subrange(0, to) =~= text.take(to));
    }
    byte_slice(s, 0, end, Ghost(0), Ghost(to))
}

/// Whether the two characters occur in the text one right after the other.
pub open spec fn has_pair(text: Seq<char>, first: char, second: char) -> bool {
    exists|i: int|
        0 <= i < text.len() - 1 && #[trigger] text[i] == first && text[i + 1] == second
}

/// Whether the two characters occur in the text one right after the other.
pub fn contains_pair(s: &str, first: char, second: char) -> (r: bool)
    ensures
        r == has_pair(s@, first, second),
{
    let ghost text = s@;
    let mut primed = false;
    for c in it: s.chars()
        invariant
            text == s@,
            it.seq() == text,
            0 <= it.index() <= text.len(),
            primed == (it.index() > 0 && text[it.index() - 1] == first),
            forall|i: int|
                0 <= i < it.index() - 1 && #[trigger] text[i] == first ==> text[i + 1] != second,
    {
        let ghost k = it.index() as int;
        if primed && c == second {
            assert(text[k - 1] == first && text[k - 1 + 1] == second);
            return true;
        }
        primed = c == first;
    }
    false
}

/// The parts one after the other, with the separator between neighbours.
pub open spec fn joined(parts: Seq<Seq<char>>, separator: Seq<char>) -> Seq<char>
    decreases parts.len(),
{
    if parts.len() == 0 {
        Seq::empty()
    } else {
        let front = joined(parts.drop_last(), separator);
        if parts.len() == 1 {
            parts.last()
        } else {
            front + separator + parts.last()
        }
    }
}

/// The texts of a list of strings.
pub open spec fn texts(strings: Seq<String>) -> Seq<Seq<char>> {
    strings.map_values(|s: String| s@)
}

/// Joins the strings with the separator between neighbours.
pub fn join(strings: &Vec<String>, separator: &str) -> (r: String)
    ensures
        r@ == joined(texts(strings@), separator@),
{
    let mut out = String::new();
    let mut i: usize = 0;
    let ghost all = texts(strings@);
    while i < strings.len()
        invariant
            i <= strings.len(),
            all == texts(strings@),
            out@ == joined(all.take(i as int), separator@),
        decreases strings.len() - i,
    {
        proof {
            assert(all.take(i + 1).drop_last() =~= all.take(i as int));
            assert(all.take(i + 1).last() == strings@[i as int]@);
            if i == 0 {
                assert(out@ + strings@[0]@ =~= strings@[0]@);
            }
        }
        if i > 0 {
            out.append(separator);
        }
        out.append(strings[i].as_str());
        i += 1;
    }
    assert(all.take(i as int) =~= all);
    out
}

/// The decimal digit of a number below ten.
pub open spec fn digit(d: nat) -> char {
    if d == 0 {
        '0'
    } else if d == 1 {
        '1'
    } else if d == 2 {
        '2'
    } else if d == 3 {
        '3'
    } else if d == 4 {
        '4'
    } else if d == 5 {
        '5'
    } else if d == 6 {
        '6'
    } else if d == 7 {
        '7'
    } else if d == 8 {
        '8'
    } else {
        '9'
    }
}

/// A number in decimal notation.
pub open spec fn decimal(n: nat) -> Seq<char>
    decreases n,
{
    if n < 10 {
        seq![digit(n)]
    } else {
        decimal(n / 10).push(digit(n % 10))
    }
}

fn digit_char(d: usize) -> (c: char)
    requires
        d < 10,
    ensures
        c == digit(d as nat),
{
    match d {
        0 => '0',
        1 => '1',
        2 => '2',
        3 => '3',
        4 => '4',
        5 => '5',
        6 => '6',
        7 => '7',
        8 => '8',
        _ => '9',
    }
}

/// Writes a number in decimal notation.
pub fn decimal_text(n: usize) -> (r: String)
    ensures
        r@ == decimal(n as nat),
    decreases n,
{
    if n < 10 {
        let mut out = String::new();
        out.push(digit_char(n));
        assert(out@ =~= decimal(n as nat));
        out
    } else {
        let mut out = decimal_text(n / 10);
        out.push(digit_char(n % 10));
        out
    }
}

/// The value of a decimal digit.
pub open spec fn digit_value(c: char) -> Option<nat> {
    if '0' <= c && c <= '9' {
        Some((c as u32 - '0' as u32) as nat)
    } else {
        None
    }
}

/// The number that a text of decimal digits stands for.
pub open spec fn numeral(text: Seq<char>) -> Option<nat>
    decreases text.len(),
{
    if text.len() == 0 {
        None
    } else if text.len() == 1 {
        digit_value(text[0])
    } else {
        match (numeral(text.drop_last()), digit_value(text.last())) {
            (Some(front), Some(last)) => Some(front * 10 + last),
            _ => None,
        }
    }
}

/// A number, or the largest one that a machine word holds where it is larger.
pub open spec fn capped(n: nat) -> usize {
    if n > usize::MAX {
        usize::MAX
    } else {
        n as usize
    }
}

/// Reads a text of decimal digits.
pub fn read_numeral(text: &str) -> (r: Option<usize>)
    ensures
        match r {
            Some(value) => numeral(text@) matches Some(n) && value == capped(n),
            None => numeral(text@) is None,
        },
{
    let mut value: Option<usize> = None;
    let mut started = false;
    for c in it: text.chars()
        invariant
            it.seq() == text@,
            0 <= it.index() <= text@.len(),
            started == (it.index() > 0),
            match value {
                Some(v) => numeral(text@.take(it.index() as int)) matches Some(n) && v == capped(n),
                None => numeral(text@.take(it.index() as int)) is None,
            },
    {
        proof {
            let k = it.index() as int;
            assert(text@.take(k + 1).drop_last() =~= text@.take(k));
            assert(text@.take(k + 1).last() == c);
        }
        if '0' <= c && c <= '9' {
            let d: usize = (c as u32 - '0' as u32) as usize;
            value = if !started {
                Some(d)
            } else {
                match value {
                    Some(v) => match v.checked_mul(10) {
                        Some(tens) => match tens.checked_add(d) {
                            Some(sum) => Some(sum),
                            None => Some(usize::MAX),
                        },
                        None => Some(usize::MAX),
                    },
                    None => None,
                }
            };
        } else {
            value = None;
        }
        started = true;
    }
    assert(text@.take(text@.len() as int) =~= text@);
    value
}

/// A character with an ASCII letter turned into upper case.
pub open spec fn upper_char(c: char) -> char {
    if 'a' <= c && c <= 'z' {
        (c as u32 - 32) as char
    } else {
        c
    }
}

/// A text with its ASCII letters turned into upper case.
pub open spec fn upper(text: Seq<char>) -> Seq<char> {
    text.map_values(|c: char| upper_char(c))
}

/// Turns the ASCII letters of a text into upper case.
pub fn to_upper(text: &str) -> (r: String)
    ensures
        r@ == upper(text@),
{
    let mut out = String::new();
    for c in it: text.chars()
        invariant
            it.seq() == text@,
            0 <= it.index() <= text@.len(),
            out@ == upper(text@).take(it.index() as int),
    {
        if 'a' <= c && c <= 'z' {
            out.push((c as u8 - 32) as char);
        } else {
            out.push(c);
        }
        assert(out@ =~= upper(text@).take(it.index() as int + 1));
    }
    assert(out@ =~= upper(text@));
    out
}

} // verus!
