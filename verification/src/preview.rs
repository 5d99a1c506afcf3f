//! One-line previews of statements.

pub mod laws;

use vstd::prelude::*;

use crate::text::{is_space, is_whitespace, join, joined, texts};

verus! {

/// The most characters of a statement that a preview shows.
pub const PREVIEW_MAX_CHARS: usize = 80;

/// The finished words of a text, and the word that its end is in the middle of.
pub open spec fn words_and_rest(text: Seq<char>) -> (Seq<Seq<char>>, Seq<char>)
    decreases text.len(),
{
    if text.len() == 0 {
        (Seq::empty(), Seq::empty())
    } else {
        let (words, rest) = words_and_rest(text.drop_last());
        if !is_space(text.last()) {
            (words, rest.push(text.last()))
        } else if rest.len() == 0 {
            (words, rest)
        } else {
            (words.push(rest), Seq::empty())
        }
    }
}

/// The words of a text: what white space separates.
pub open spec fn words(text: Seq<char>) -> Seq<Seq<char>> {
    let (words, rest) = words_and_rest(text);
    if rest.len() == 0 {
        words
    } else {
        words.push(rest)
    }
}

/// The text on one line: its words with single spaces between them.
pub open spec fn one_line(text: Seq<char>) -> Seq<char> {
    joined(words(text), " "@)
}

/// The preview of a statement: its text on one line, cut after the most characters that a preview
/// shows, with an ellipsis where it was cut.
pub open spec fn preview(statement: Seq<char>) -> Seq<char> {
    let line = one_line(statement);
    if line.len() > PREVIEW_MAX_CHARS {
        line.take(PREVIEW_MAX_CHARS as int).push('\u{2026}')
    } else {
        line
    }
}

/// Makes a preview of a statement.
pub fn make_preview(statement: &str) -> (r: String)
    ensures
        r@ == preview(statement@),
{
    let ghost text = statement@;
    let mut words: Vec<String> = Vec::new();
    let mut word = String::new();
    assert(texts(words@) =~= Seq::empty());
    for c in it: statement.chars()
        invariant
            text == statement@,
            it.seq() == text,
            0 <= it.index() <= text.len(),
            words_and_rest(text.take(it.index() as int)) == (texts(words@), word@),
    {
        let ghost k = it.index() as int;
        let ghost before = words@;
        assert(text.take(k + 1).drop_last() =~= text.take(k));
        if !is_whitespace(c) {
            word.push(c);
        } else if !word.as_str().is_empty() {
            words.push(word);
            word = String::new();
            assert(texts(words@) =~= texts(before).push(words@.last()@));
        }
    }
    assert(text.take(text.len() as int) =~= text);
    if !word.as_str().is_empty() {
        let ghost before = words@;
        words.push(word);
        assert(texts(words@) =~= texts(before).push(words@.last()@));
    }
    let line = join(&words, " ");
    if line.as_str().unicode_len() > PREVIEW_MAX_CHARS {
        let mut cut = line.as_str().substring_char(0, PREVIEW_MAX_CHARS).to_owned();
        assert(cut@ =~= line@.take(PREVIEW_MAX_CHARS as int));
        cut.push('\u{2026}');
        cut
    } else {
        line
    }
}

/// Whether a text is free of white space.
spec fn visible(text: Seq<char>) -> bool {
    forall|i: int| 0 <= i < text.len() ==> !is_space(#[trigger] text[i])
}

proof fn lemma_words_visible(text: Seq<char>)
    ensures
        forall|i: int|
            0 <= i < words_and_rest(text).0.len() ==> visible(
                #[trigger] words_and_rest(text).0[i],
            ),
        visible(words_and_rest(text).1),
    decreases text.len(),
{
    if text.len() > 0 {
        lemma_words_visible(text.drop_last());
        let (words, rest) = words_and_rest(text.drop_last());
        let all = words_and_rest(text).0;
        assert forall|i: int| 0 <= i < all.len() implies visible(#[trigger] all[i]) by {
            if i < words.len() {
                assert(all[i] == words[i]);
            }
        }
    }
}

proof fn lemma_joined_visible(parts: Seq<Seq<char>>)
    requires
        forall|i: int| 0 <= i < parts.len() ==> visible(#[trigger] parts[i]),
    ensures
        forall|k: int|
            0 <= k < joined(parts, " "@).len() ==> (#[trigger] joined(parts, " "@)[k]) == ' '
                || !is_space(joined(parts, " "@)[k]),
    decreases parts.len(),
{
    reveal_strlit(" ");
    if parts.len() > 0 {
        let front = parts.drop_last();
        lemma_joined_visible(front);
        let all = joined(parts, " "@);
        let head = joined(front, " "@);
        assert forall|k: int| 0 <= k < all.len() implies (#[trigger] all[k]) == ' ' || !is_space(
            all[k],
        ) by {
            assert(visible(parts[parts.len() - 1]));
            if parts.len() == 1 {
                assert(all[k] == parts[0][k]);
            } else if k < head.len() {
                assert(all[k] == head[k]);
            } else if k > head.len() {
                assert(all[k] == parts[parts.len() - 1][k - head.len() - 1]);
            }
        }
    }
}

/// A preview is on one line: blanks are its only white space. It is longer than the limit, by an
/// ellipsis, exactly where the statement is; else it shows the statement in full.
pub proof fn preview_is_one_short_line(statement: Seq<char>)
    ensures
        if one_line(statement).len() > PREVIEW_MAX_CHARS {
            preview(statement).len() == PREVIEW_MAX_CHARS + 1 && preview(statement).last()
                == '\u{2026}'
        } else {
            preview(statement) == one_line(statement)
        },
        forall|i: int|
            0 <= i < preview(statement).len() ==> (#[trigger] preview(statement)[i]) == ' '
                || !is_space(preview(statement)[i]),
        !preview(statement).contains('\n'),
{
    lemma_words_visible(statement);
    lemma_joined_visible(words(statement));
    let line = one_line(statement);
    let shown = preview(statement);
    assert forall|i: int| 0 <= i < shown.len() implies (#[trigger] shown[i]) == ' ' || !is_space(
        shown[i],
    ) by {
        if i < line.len() && i < PREVIEW_MAX_CHARS {
            assert(shown[i] == line[i]);
        }
    }
}

} // verus!
