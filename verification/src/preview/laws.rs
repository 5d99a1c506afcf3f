//! What a preview keeps of a statement.

use vstd::prelude::*;

use crate::preview::{one_line, preview, words, words_and_rest};
use crate::text::{is_space, joined};

verus! {

/// The characters of a text that are no white space, in their order.
pub open spec fn ink(text: Seq<char>) -> Seq<char> {
    text.filter(|c: char| !is_space(c))
}

proof fn lemma_ink_add(a: Seq<char>, b: Seq<char>)
    ensures
        ink(a + b) == ink(a) + ink(b),
{
    Seq::filter_distributes_over_add(a, b, |c: char| !is_space(c));
}

proof fn lemma_ink_push(a: Seq<char>, c: char)
    ensures
        ink(a.push(c)) == if is_space(c) {
            ink(a)
        } else {
            ink(a).push(c)
        },
{
    reveal(Seq::filter);
    assert(a.push(c).drop_last() =~= a);
}

proof fn lemma_ink_none()
    ensures
        ink(Seq::empty()) == Seq::<char>::empty(),
        ink(" "@) == Seq::<char>::empty(),
{
    reveal(Seq::filter);
    reveal_strlit(" ");
    assert(" "@ =~= Seq::<char>::empty().push(' '));
    lemma_ink_push(Seq::empty(), ' ');
}

proof fn lemma_ink_joined(parts: Seq<Seq<char>>, last: Seq<char>)
    ensures
        ink(joined(parts.push(last), " "@)) == ink(joined(parts, " "@)) + ink(last),
{
    let all = parts.push(last);
    assert(all.drop_last() =~= parts);
    lemma_ink_none();
    if parts.len() == 0 {
        assert(joined(all, " "@) == last);
        assert(ink(joined(parts, " "@)) + ink(last) =~= ink(last));
    } else {
        lemma_ink_add(joined(parts, " "@) + " "@, last);
        lemma_ink_add(joined(parts, " "@), " "@);
        assert(ink(joined(parts, " "@)) + ink(" "@) =~= ink(joined(parts, " "@)));
    }
}

proof fn lemma_words_ink(text: Seq<char>)
    ensures
        ink(joined(words_and_rest(text).0, " "@)) + ink(words_and_rest(text).1) == ink(text),
        forall|i: int|
            0 <= i < words_and_rest(text).0.len() ==> is_solid(
                #[trigger] words_and_rest(text).0[i],
            ),
        forall|i: int|
            0 <= i < words_and_rest(text).1.len() ==> !is_space(
                #[trigger] words_and_rest(text).1[i],
            ),
    decreases text.len(),
{
    if text.len() == 0 {
        lemma_ink_none();
        assert(ink(joined(words_and_rest(text).0, " "@)) + ink(words_and_rest(text).1) =~= ink(
            text,
        ));
    } else {
        let front = text.drop_last();
        let c = text.last();
        let (held, rest) = words_and_rest(front);
        lemma_words_ink(front);
        assert(text =~= front.push(c));
        lemma_ink_push(front, c);
        if !is_space(c) {
            lemma_ink_push(rest, c);
            assert(ink(joined(held, " "@)) + ink(rest).push(c) =~= ink(front).push(c));
        } else if rest.len() > 0 {
            lemma_ink_joined(held, rest);
            lemma_ink_none();
            assert(ink(joined(held.push(rest), " "@)) + ink(Seq::empty()) =~= ink(front));
        }
    }
}

/// Whether a text is not empty and has no white space.
pub open spec fn is_solid(text: Seq<char>) -> bool {
    text.len() > 0 && forall|i: int| 0 <= i < text.len() ==> !is_space(#[trigger] text[i])
}

/// A statement on one line is made of words without white space, with one blank between neighbours,
/// and keeps every other character of the statement, in its order.
pub proof fn one_line_keeps_the_ink(statement: Seq<char>)
    ensures
        ink(one_line(statement)) == ink(statement),
        exists|parts: Seq<Seq<char>>| #[trigger]
            joined(parts, " "@) == one_line(statement) && forall|i: int|
                0 <= i < parts.len() ==> is_solid(#[trigger] parts[i]),
{
    let (held, rest) = words_and_rest(statement);
    lemma_words_ink(statement);
    if rest.len() == 0 {
        lemma_ink_none();
        assert(rest =~= Seq::empty());
        assert(ink(one_line(statement)) =~= ink(statement));
    } else {
        lemma_ink_joined(held, rest);
        assert(is_solid(rest));
    }
    let parts = words(statement);
    assert(joined(parts, " "@) == one_line(statement));
}

/// A preview shows the statement on one line, in full where that takes 80 characters at most; else
/// the first 80 of them, and an ellipsis.
pub proof fn previews_show_eighty_characters(statement: Seq<char>)
    ensures
        one_line(statement).len() <= 80 ==> preview(statement) == one_line(statement),
        one_line(statement).len() > 80 ==> preview(statement) == one_line(statement).subrange(0, 80)
            + seq!['\u{2026}'],
{
    let line = one_line(statement);
    if line.len() > 80 {
        assert(preview(statement) =~= line.subrange(0, 80) + seq!['\u{2026}']);
    }
}

} // verus!
