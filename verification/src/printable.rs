//! The trees that the printer takes.
//!
//! Printing stops the process on a few statements that can be described but are never parsed: an
//! identifier in quotes that are none, an interval of seconds up to another unit, a `LIMIT` by
//! expressions without a limit. A structure can be described by a list of its fields too, so lists
//! are looked at with the same care.

use vstd::prelude::*;

use crate::syntax::{
    field_nodes, is_variant, item_nodes, items, lemma_field_nodes, lemma_item_nodes, lookup, Node,
    Tree,
};
use crate::text::{numeral, read_numeral, same_text};

verus! {

/// Whether a text is an integer in decimal notation.
pub open spec fn integer(text: Seq<char>) -> bool {
    numeral(text) is Some || (text.len() > 0 && text[0] == '-' && numeral(text.skip(1)) is Some)
}

/// Whether a tree is a quotation mark, or none. A word of a token stream is not put in single
/// quotes.
pub open spec fn quote_mark(node: Node, word: bool) -> bool {
    match node {
        Node::Null => true,
        Node::Text(mark) => mark == "\""@ || mark == "`"@ || mark == "["@ || (mark == "'"@
            && !word),
        _ => false,
    }
}

/// Whether a record has a field of this name.
pub open spec fn has_name(fields: Seq<(Seq<char>, Node)>, name: Seq<char>) -> bool
    decreases fields.len(),
{
    fields.len() > 0 && (fields.last().0 == name || has_name(fields.drop_last(), name))
}

/// Whether a record is a word of a token stream.
pub open spec fn is_word(fields: Seq<(Seq<char>, Node)>) -> bool {
    has_name(fields, "keyword"@)
}

/// Whether a list may be the fields of an identifier with a quotation mark that is none: its text,
/// the mark and its place.
pub open spec fn misquoted(items: Seq<Node>) -> bool {
    &&& items.len() == 3
    &&& items[0] is Text
    &&& items[1] matches Node::Text(mark)
    &&& mark.len() == 1
    &&& !quote_mark(items[1], false)
    &&& items[2] is Record || items[2] is List
}

/// Whether a record is an interval of seconds, with both precisions, up to another unit.
pub open spec fn endless_interval(fields: Seq<(Seq<char>, Node)>) -> bool {
    &&& is_variant(lookup(fields, "leading_field"@), "Second"@)
    &&& !(lookup(fields, "leading_precision"@) is Null)
    &&& !(lookup(fields, "fractional_seconds_precision"@) is Null)
    &&& !(lookup(fields, "last_field"@) is Null)
}

/// Whether a record is a `LIMIT` by expressions without a limit.
pub open spec fn limitless(fields: Seq<(Seq<char>, Node)>) -> bool {
    lookup(fields, "limit"@) is Null && items(lookup(fields, "limit_by"@)).len() > 0
}

/// Whether a field suits the printer: a quotation mark is one, and a word, an interval and a
/// `LIMIT` are records.
pub open spec fn sound_field(name: Seq<char>, value: Node, word: bool) -> bool {
    &&& name == "quote_style"@ ==> quote_mark(value, word)
    &&& name == "Word"@ || name == "Interval"@ || name == "LimitOffset"@ ==> !(value is List)
}

/// Whether the printer takes a tree.
pub open spec fn printable(node: Node) -> bool
    decreases node,
{
    match node {
        Node::Number(digits) => integer(digits),
        Node::List(items) => !misquoted(items) && printable_items(items),
        Node::Record(fields) => !endless_interval(fields) && !limitless(fields)
            && printable_fields(fields, is_word(fields)),
        _ => true,
    }
}

/// Whether the printer takes the items of a list.
pub open spec fn printable_items(items: Seq<Node>) -> bool
    decreases items,
{
    items.len() > 0 ==> printable_items(items.drop_last()) && printable(items.last())
}

/// Whether the printer takes the fields of a record, which may be a word.
pub open spec fn printable_fields(fields: Seq<(Seq<char>, Node)>, word: bool) -> bool
    decreases fields,
{
    fields.len() > 0 ==> {
        &&& printable_fields(fields.drop_last(), word)
        &&& sound_field(fields.last().0, fields.last().1, word)
        &&& printable(fields.last().1)
    }
}

/// Whether a text is an integer in decimal notation.
fn check_integer(text: &str) -> (r: bool)
    ensures
        r == integer(text@),
{
    if read_numeral(text).is_some() {
        return true;
    }
    if text.is_empty() || text.get_char(0) != '-' {
        return false;
    }
    let digits = text.substring_char(1, text.unicode_len());
    assert(digits@ =~= text@.skip(1));
    read_numeral(digits).is_some()
}

/// Whether a tree is a quotation mark, or none.
fn check_quote_mark(tree: &Tree, word: bool) -> (r: bool)
    ensures
        r == quote_mark(tree@, word),
{
    match tree {
        Tree::Null => true,
        Tree::Text(mark) => {
            let mark = mark.as_str();
            same_text(mark, "\"") || same_text(mark, "`") || same_text(mark, "[") || (same_text(
                mark,
                "'",
            ) && !word)
        },
        _ => false,
    }
}

/// Whether a list may be the fields of an identifier with a quotation mark that is none.
fn check_misquoted(list: &Vec<Tree>) -> (r: bool)
    ensures
        r == misquoted(item_nodes(list@)),
{
    broadcast use lemma_item_nodes;

    if list.len() != 3 {
        return false;
    }
    let text = match &list[0] {
        Tree::Text(_) => true,
        _ => false,
    };
    let mark = match &list[1] {
        Tree::Text(mark) => mark.as_str().unicode_len() == 1,
        _ => false,
    };
    let place = match &list[2] {
        Tree::Record(_) => true,
        Tree::List(_) => true,
        _ => false,
    };
    text && mark && !check_quote_mark(&list[1], false) && place
}

/// Whether a record is a word of a token stream.
fn check_word(fields: &Vec<(String, Tree)>) -> (r: bool)
    ensures
        r == is_word(field_nodes(fields@)),
{
    let ghost all = field_nodes(fields@);
    let mut i: usize = 0;
    assert(all.len() == fields@.len()) by {
        lemma_field_nodes(fields@);
    }
    while i < fields.len()
        invariant
            i <= fields@.len(),
            all == field_nodes(fields@),
            all.len() == fields@.len(),
            !has_name(all.take(i as int), "keyword"@),
        decreases fields@.len() - i,
    {
        broadcast use lemma_field_nodes;

        proof {
            assert(all.take(i + 1).drop_last() =~= all.take(i as int));
            assert(all.take(i + 1).last().0 == fields@[i as int].0@);
        }
        if same_text(fields[i].0.as_str(), "keyword") {
            proof {
                lemma_has_name(all, "keyword"@, i + 1);
            }
            return true;
        }
        i += 1;
    }
    assert(all.take(i as int) =~= all);
    false
}

proof fn lemma_has_name(fields: Seq<(Seq<char>, Node)>, name: Seq<char>, k: int)
    requires
        0 <= k <= fields.len(),
        has_name(fields.take(k), name),
    ensures
        has_name(fields, name),
    decreases fields.len() - k,
{
    if k == fields.len() {
        assert(fields.take(k) =~= fields);
    } else {
        assert(fields.take(k + 1).drop_last() =~= fields.take(k));
        lemma_has_name(fields, name, k + 1);
    }
}

/// Whether a record is none that the printer stops on.
fn check_record(record: &Tree, fields: &Vec<(String, Tree)>) -> (r: bool)
    requires
        record@ == Node::Record(field_nodes(fields@)),
    ensures
        r == (!endless_interval(field_nodes(fields@)) && !limitless(field_nodes(fields@))),
{
    let leading_precision = match record.field("leading_precision") {
        Tree::Null => false,
        _ => true,
    };
    let fractional_precision = match record.field("fractional_seconds_precision") {
        Tree::Null => false,
        _ => true,
    };
    let last_field = match record.field("last_field") {
        Tree::Null => false,
        _ => true,
    };
    let limit = match record.field("limit") {
        Tree::Null => false,
        _ => true,
    };
    let limit_by = match record.field("limit_by") {
        Tree::List(list) => {
            proof {
                lemma_item_nodes(list@);
            }
            list.len() > 0
        },
        _ => false,
    };
    let second = record.field("leading_field").is_variant("Second");
    !(second && leading_precision && fractional_precision && last_field) && !(!limit && limit_by)
}

/// Whether a field suits the printer.
fn check_field(name: &str, value: &Tree, word: bool) -> (r: bool)
    ensures
        r == sound_field(name@, value@, word),
{
    let list = match value {
        Tree::List(_) => true,
        _ => false,
    };
    if same_text(name, "quote_style") && !check_quote_mark(value, word) {
        return false;
    }
    !(list && (same_text(name, "Word") || same_text(name, "Interval") || same_text(
        name,
        "LimitOffset",
    )))
}

proof fn lemma_unprintable_items(items: Seq<Node>, k: int)
    requires
        0 <= k <= items.len(),
        !printable_items(items.take(k)),
    ensures
        !printable_items(items),
    decreases items.len() - k,
{
    if k == items.len() {
        assert(items.take(k) =~= items);
    } else {
        assert(items.take(k + 1).drop_last() =~= items.take(k));
        lemma_unprintable_items(items, k + 1);
    }
}

proof fn lemma_unprintable_fields(fields: Seq<(Seq<char>, Node)>, word: bool, k: int)
    requires
        0 <= k <= fields.len(),
        !printable_fields(fields.take(k), word),
    ensures
        !printable_fields(fields, word),
    decreases fields.len() - k,
{
    if k == fields.len() {
        assert(fields.take(k) =~= fields);
    } else {
        assert(fields.take(k + 1).drop_last() =~= fields.take(k));
        lemma_unprintable_fields(fields, word, k + 1);
    }
}

/// Whether the printer takes a tree.
pub fn is_printable(tree: &Tree) -> (r: bool)
    ensures
        r == printable(tree@),
    decreases tree,
{
    match tree {
        Tree::Number(digits) => check_integer(digits.as_str()),
        Tree::List(list) => {
            if check_misquoted(list) {
                return false;
            }
            let ghost all = item_nodes(list@);
            let mut i: usize = 0;
            assert(all.len() == list@.len()) by {
                lemma_item_nodes(list@);
            }
            while i < list.len()
                invariant
                    i <= list@.len(),
                    tree == Tree::List(*list),
                    tree@ == Node::List(all),
                    all == item_nodes(list@),
                    all.len() == list@.len(),
                    printable_items(all.take(i as int)),
                decreases list@.len() - i,
            {
                broadcast use lemma_item_nodes;

                proof {
                    assert(all.take(i + 1).drop_last() =~= all.take(i as int));
                    assert(all.take(i + 1).last() == list@[i as int]@);
                }
                assert(decreases_to!(tree => list@[i as int])) by {
                    assert(decreases_to!(tree => tree->List_0));
                    assert(decreases_to!(list => list@));
                    assert(decreases_to!(list@ => list@[i as int]));
                }
                if !is_printable(&list[i]) {
                    proof {
                        lemma_unprintable_items(all, i + 1);
                    }
                    return false;
                }
                i += 1;
            }
            assert(all.take(i as int) =~= all);
            true
        },
        Tree::Record(fields) => {
            if !check_record(tree, fields) {
                return false;
            }
            let word = check_word(fields);
            let ghost all = field_nodes(fields@);
            let mut i: usize = 0;
            assert(all.len() == fields@.len()) by {
                lemma_field_nodes(fields@);
            }
            while i < fields.len()
                invariant
                    i <= fields@.len(),
                    tree == Tree::Record(*fields),
                    tree@ == Node::Record(all),
                    all == field_nodes(fields@),
                    all.len() == fields@.len(),
                    word == is_word(all),
                    printable_fields(all.take(i as int), word),
                decreases fields@.len() - i,
            {
                broadcast use lemma_field_nodes;

                let field = &fields[i];
                proof {
                    assert(all.take(i + 1).drop_last() =~= all.take(i as int));
                    assert(all.take(i + 1).last() == (field.0@, field.1@));
                }
                assert(decreases_to!(tree => fields@[i as int].1)) by {
                    assert(decreases_to!(tree => tree->Record_0));
                    assert(decreases_to!(fields => fields@));
                    assert(decreases_to!(fields@ => fields@[i as int]));
                    assert(decreases_to!(fields@[i as int] => fields@[i as int].1));
                }
                if !check_field(field.0.as_str(), &field.1, word) || !is_printable(&field.1) {
                    proof {
                        lemma_unprintable_fields(all, word, i + 1);
                    }
                    return false;
                }
                i += 1;
            }
            assert(all.take(i as int) =~= all);
            true
        },
        _ => true,
    }
}

} // verus!
