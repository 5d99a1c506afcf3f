//! What holds of the lines of every text.

use vstd::prelude::*;

use crate::location::{before, line_number, line_start, line_starts, position};

verus! {

/// A line starts at the beginning of a text and right behind each newline, and nowhere else; the
/// starts are in their order.
pub proof fn lines_start_behind_newlines(text: Seq<char>, k: int)
    ensures
        line_starts(text).contains(k) == (k == 0 || (0 < k <= text.len() && text[k - 1] == '\n')),
        forall|i: int, j: int|
            0 <= i < j < line_starts(text).len() ==> #[trigger] line_starts(text)[i]
                < #[trigger] line_starts(text)[j],
        forall|i: int|
            0 <= i < line_starts(text).len() ==> 0 <= #[trigger] line_starts(text)[i]
                <= text.len(),
    decreases text.len(),
{
    let all = line_starts(text);
    if text.len() == 0 {
        assert(all[0] == 0);
    } else {
        let front = text.drop_last();
        let before = line_starts(front);
        let n = text.len() as int;
        lines_start_behind_newlines(front, k);
        if before.contains(k) {
            let i = choose|i: int| 0 <= i < before.len() && before[i] == k;
            assert(all[i] == k);
        }
        if text.last() == '\n' {
            assert(all[before.len() as int] == n);
            if all.contains(k) && k != n {
                let i = choose|i: int| 0 <= i < all.len() && all[i] == k;
                assert(before[i] == k);
            }
        }
    }
}

/// The number of a line is one more than the number of newlines in front of it.
pub proof fn lines_are_counted_by_newlines(text: Seq<char>, k: int)
    requires
        0 <= k <= text.len(),
    ensures
        line_number(text, k) == 1 + text.take(k).filter(|c: char| c == '\n').len(),
    decreases k,
{
    let piece = text.take(k);
    reveal(Seq::filter);
    if k > 0 {
        lines_are_counted_by_newlines(text, k - 1);
        assert(piece.drop_last() =~= text.take(k - 1));
    }
}

/// A place is as many characters behind the start of its line as its column says.
pub proof fn columns_count_characters(text: Seq<char>, line: u64, column: u64)
    requires
        line >= 1,
        column >= 1,
    ensures
        position(text, line, column) - line_starts(text)[line - 1] == column - 1,
        position(text, line, 1) == line_starts(text)[line - 1],
{
}

/// The number 0 counts as 1, and a line behind the last one as the beginning of the text.
pub proof fn places_outside_are_clamped(offsets: Seq<usize>, line: u64)
    requires
        line <= usize::MAX,
    ensures
        before(0) == 0,
        line >= 1 ==> before(line) == line - 1,
        1 <= line <= offsets.len() ==> line_start(offsets, line) == offsets[line - 1],
        line > offsets.len() ==> line_start(offsets, line) == 0,
{
}

} // verus!
