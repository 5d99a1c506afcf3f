//! What holds of every tree and of its JSON text.

use vstd::prelude::*;

use crate::dialect::{printed, statement_text};
use crate::printable::{
    has_name, is_word, printable, printable_fields, printable_items, sound_field,
};
use crate::syntax::{
    field, items, json_char, json_chars, json_fields, json_items, json_string, json_text, lookup,
    payload, replaced, variant, with_field, Node,
};
use crate::text::{joined, numeral};

verus! {

/// Whether the field at `i` is the first one of this name.
pub open spec fn is_first(fields: Seq<(Seq<char>, Node)>, i: int, name: Seq<char>) -> bool {
    &&& 0 <= i < fields.len()
    &&& fields[i].0 == name
    &&& forall|j: int| 0 <= j < i ==> (#[trigger] fields[j]).0 != name
}

proof fn lemma_first(fields: Seq<(Seq<char>, Node)>, i: int, name: Seq<char>, value: Node)
    requires
        is_first(fields, i, name),
    ensures
        lookup(fields, name) == fields[i].1,
        replaced(fields, name, value) == fields.update(i, (name, value)),
    decreases fields.len(),
{
    if i == 0 {
        assert(replaced(fields, name, value) =~= fields.update(0, (name, value)));
    } else {
        let rest = fields.drop_first();
        assert(fields[0].0 != name);
        assert forall|j: int| 0 <= j < i - 1 implies (#[trigger] rest[j]).0 != name by {
            assert(rest[j] == fields[j + 1]);
        }
        assert(rest[i - 1] == fields[i]);
        lemma_first(rest, i - 1, name, value);
        assert(replaced(fields, name, value) =~= fields.update(i, (name, value)));
    }
}

proof fn lemma_none(fields: Seq<(Seq<char>, Node)>, name: Seq<char>, value: Node)
    requires
        forall|j: int| 0 <= j < fields.len() ==> (#[trigger] fields[j]).0 != name,
    ensures
        lookup(fields, name) == Node::Null,
        replaced(fields, name, value) == fields,
    decreases fields.len(),
{
    if fields.len() > 0 {
        let rest = fields.drop_first();
        assert forall|j: int| 0 <= j < rest.len() implies (#[trigger] rest[j]).0 != name by {
            assert(rest[j] == fields[j + 1]);
        }
        lemma_none(rest, name, value);
        assert(replaced(fields, name, value) =~= fields);
    }
}

/// A field of a record is the first one of its name, and another value goes there and nowhere else.
/// A record without a field of this name reads as `Null` there, and stays.
pub proof fn fields_are_found_by_name(
    fields: Seq<(Seq<char>, Node)>,
    name: Seq<char>,
    i: int,
    value: Node,
)
    ensures
        is_first(fields, i, name) ==> {
            &&& field(Node::Record(fields), name) == fields[i].1
            &&& with_field(Node::Record(fields), name, value) == Node::Record(
                fields.update(i, (name, value)),
            )
        },
        (forall|j: int| 0 <= j < fields.len() ==> (#[trigger] fields[j]).0 != name) ==> {
            &&& field(Node::Record(fields), name) is Null
            &&& with_field(Node::Record(fields), name, value) == Node::Record(fields)
        },
{
    if is_first(fields, i, name) {
        lemma_first(fields, i, name, value);
    }
    if forall|j: int| 0 <= j < fields.len() ==> (#[trigger] fields[j]).0 != name {
        lemma_none(fields, name, value);
    }
}

/// A variant is a record of one field, whose name is its name and whose value it holds, or a name
/// alone; a list has its items.
pub proof fn variants_are_records_of_one(name: Seq<char>, value: Node, all: Seq<Node>)
    ensures
        variant(Node::Record(seq![(name, value)])) == Some(name),
        payload(Node::Record(seq![(name, value)])) == value,
        variant(Node::Text(name)) == Some(name),
        payload(Node::Text(name)) is Null,
        items(Node::List(all)) == all,
        forall|fields: Seq<(Seq<char>, Node)>|
            fields.len() != 1 ==> (#[trigger] variant(Node::Record(fields))) is None,
{
}

proof fn lemma_json_items(all: Seq<Node>)
    ensures
        json_items(all) == joined(all.map_values(|node: Node| json_text(node)), ","@),
    decreases all.len(),
{
    reveal_strlit(",");
    let parts = all.map_values(|node: Node| json_text(node));
    assert(","@ =~= seq![',']);
    if all.len() > 0 {
        lemma_json_items(all.drop_last());
        assert(parts.drop_last() =~= all.drop_last().map_values(|node: Node| json_text(node)));
    }
}

/// A field of a JSON object.
pub open spec fn json_member(member: (Seq<char>, Node)) -> Seq<char> {
    json_text(Node::Text(member.0)) + ":"@ + json_text(member.1)
}

proof fn lemma_json_fields(all: Seq<(Seq<char>, Node)>)
    ensures
        json_fields(all) == joined(
            all.map_values(|member: (Seq<char>, Node)| json_member(member)),
            ","@,
        ),
    decreases all.len(),
{
    reveal_strlit(",");
    reveal_strlit(":");
    let parts = all.map_values(|member: (Seq<char>, Node)| json_member(member));
    assert(","@ =~= seq![',']);
    assert(":"@ =~= seq![':']);
    if all.len() > 0 {
        lemma_json_fields(all.drop_last());
        assert(parts.drop_last() =~= all.drop_last().map_values(
            |member: (Seq<char>, Node)| json_member(member),
        ));
    }
}

/// The JSON text of a tree is put together from those of its parts.
pub proof fn json_is_compositional(
    digits: Seq<char>,
    all: Seq<Node>,
    fields: Seq<(Seq<char>, Node)>,
)
    ensures
        json_text(Node::Null) == "null"@,
        json_text(Node::Flag(true)) == "true"@,
        json_text(Node::Flag(false)) == "false"@,
        json_text(Node::Number(digits)) == digits,
        json_text(Node::List(all)) == "["@ + joined(
            all.map_values(|node: Node| json_text(node)),
            ","@,
        ) + "]"@,
        json_text(Node::Record(fields)) == "{"@ + joined(
            fields.map_values(|member: (Seq<char>, Node)| json_member(member)),
            ","@,
        ) + "}"@,
{
    reveal_strlit("null");
    reveal_strlit("true");
    reveal_strlit("false");
    reveal_strlit("[");
    reveal_strlit("]");
    reveal_strlit("{");
    reveal_strlit("}");
    assert("null"@ =~= seq!['n', 'u', 'l', 'l']);
    assert("true"@ =~= seq!['t', 'r', 'u', 'e']);
    assert("false"@ =~= seq!['f', 'a', 'l', 's', 'e']);
    assert("["@ =~= seq!['[']);
    assert("]"@ =~= seq![']']);
    assert("{"@ =~= seq!['{']);
    assert("}"@ =~= seq!['}']);
    lemma_json_items(all);
    lemma_json_fields(fields);
}

/// The number that a hexadecimal digit stands for.
pub open spec fn hex_value(c: char) -> int {
    if '0' <= c && c <= '9' {
        c as u32 - '0' as u32
    } else if 'a' <= c && c <= 'f' {
        c as u32 - 'a' as u32 + 10
    } else {
        -1
    }
}

/// What a character of a JSON string stands for: itself, or, behind a backslash, a quotation mark,
/// a backslash or the character with this number in hexadecimal digits.
pub open spec fn stands_for(written: Seq<char>, c: char) -> bool {
    ||| written == seq![c] && c != '"' && c != '\\' && c as u32 >= 0x20
    ||| written == seq!['\\', c] && (c == '"' || c == '\\')
    ||| {
        &&& written.len() == 6
        &&& written[0] == '\\' && written[1] == 'u' && written[2] == '0' && written[3] == '0'
        &&& 0 <= hex_value(written[4]) && 0 <= hex_value(written[5])
        &&& hex_value(written[4]) * 16 + hex_value(written[5]) == c as u32
    }
}

/// A text is written as a JSON string character by character, between quotation marks, and each
/// character stands for itself.
pub proof fn json_strings_read_back(a: Seq<char>, c: char)
    ensures
        json_text(Node::Text(Seq::empty())) == seq!['"', '"'],
        exists|written: Seq<char>|
            #[trigger] stands_for(written, c) && json_text(Node::Text(a.push(c)))
                == json_text(Node::Text(a)).drop_last() + written + seq!['"'],
{
    assert(json_string(Seq::empty()) =~= seq!['"', '"']);
    let written = json_char(c);
    if c != '"' && c != '\\' && (c as u32) < 0x20 {
        let v = c as u32;
        assert(v / 16 < 2 && v % 16 < 16);
        assert(v == (v / 16) * 16 + v % 16);
    }
    assert(stands_for(written, c));
    assert(a.push(c).drop_last() =~= a);
    assert(json_string(a).drop_last() =~= seq!['"'] + json_chars(a));
    assert(json_string(a.push(c)) =~= json_string(a).drop_last() + written + seq!['"']);
}

proof fn lemma_printable_items(all: Seq<Node>)
    ensures
        printable_items(all) == forall|i: int|
            0 <= i < all.len() ==> printable(#[trigger] all[i]),
    decreases all.len(),
{
    if all.len() > 0 {
        let front = all.drop_last();
        lemma_printable_items(front);
        assert(all[all.len() - 1] == all.last());
        if printable_items(all) {
            assert forall|i: int| 0 <= i < all.len() implies printable(#[trigger] all[i]) by {
                if i < front.len() {
                    assert(front[i] == all[i]);
                }
            }
        }
        if forall|i: int| 0 <= i < all.len() ==> printable(#[trigger] all[i]) {
            assert forall|i: int| 0 <= i < front.len() implies printable(#[trigger] front[i]) by {
                assert(front[i] == all[i]);
            }
        }
    }
}

/// Whether a field suits the printer: a quotation mark is one, or none, and a word, an interval and
/// a `LIMIT` are no lists.
pub open spec fn suits(name: Seq<char>, value: Node, word: bool) -> bool {
    &&& name == "quote_style"@ ==> {
        ||| value is Null
        ||| value == Node::Text("\""@)
        ||| value == Node::Text("`"@)
        ||| value == Node::Text("["@)
        ||| value == Node::Text("'"@) && !word
    }
    &&& name == "Word"@ ==> !(value is List)
    &&& name == "Interval"@ ==> !(value is List)
    &&& name == "LimitOffset"@ ==> !(value is List)
}

proof fn lemma_printable_fields(fields: Seq<(Seq<char>, Node)>, word: bool)
    ensures
        printable_fields(fields, word) == forall|i: int|
            0 <= i < fields.len() ==> printable((#[trigger] fields[i]).1) && suits(
                fields[i].0,
                fields[i].1,
                word,
            ),
    decreases fields.len(),
{
    if fields.len() > 0 {
        let front = fields.drop_last();
        lemma_printable_fields(front, word);
        assert(fields[fields.len() - 1] == fields.last());
        assert(suits(fields.last().0, fields.last().1, word) == sound_field(
            fields.last().0,
            fields.last().1,
            word,
        ));
        if printable_fields(fields, word) {
            assert forall|i: int| 0 <= i < fields.len() implies printable((#[trigger] fields[i]).1)
                && suits(fields[i].0, fields[i].1, word) by {
                if i < front.len() {
                    assert(front[i] == fields[i]);
                }
            }
        }
        if forall|i: int|
            0 <= i < fields.len() ==> printable((#[trigger] fields[i]).1) && suits(
                fields[i].0,
                fields[i].1,
                word,
            ) {
            assert forall|i: int| 0 <= i < front.len() implies printable((#[trigger] front[i]).1)
                && suits(front[i].0, front[i].1, word) by {
                assert(front[i] == fields[i]);
            }
        }
    }
}

proof fn lemma_has_name(fields: Seq<(Seq<char>, Node)>, name: Seq<char>)
    ensures
        has_name(fields, name) == exists|i: int|
            0 <= i < fields.len() && (#[trigger] fields[i]).0 == name,
    decreases fields.len(),
{
    if fields.len() > 0 {
        let front = fields.drop_last();
        lemma_has_name(front, name);
        assert(fields[fields.len() - 1] == fields.last());
        if exists|i: int| 0 <= i < front.len() && (#[trigger] front[i]).0 == name {
            let i = choose|i: int| 0 <= i < front.len() && (#[trigger] front[i]).0 == name;
            assert(fields[i].0 == name);
        }
        if exists|i: int| 0 <= i < fields.len() && (#[trigger] fields[i]).0 == name {
            let i = choose|i: int| 0 <= i < fields.len() && (#[trigger] fields[i]).0 == name;
            if i < front.len() {
                assert(front[i].0 == name);
            }
        }
    }
}

/// The printer takes a tree exactly where it takes each part of it, but for these: an identifier
/// that is a list with a quotation mark that is none, an interval of seconds with both precisions
/// that goes up to another unit, a `LIMIT` by expressions without a limit, a field that does not
/// suit, and a number that is no integer.
pub proof fn trees_are_printed_but_for_these(
    all: Seq<Node>,
    fields: Seq<(Seq<char>, Node)>,
    digits: Seq<char>,
)
    ensures
        printable(Node::Null),
        printable(Node::Text(digits)),
        printable(Node::Flag(true)) && printable(Node::Flag(false)),
        printable(Node::Number(digits)) == (numeral(digits) is Some || (digits.len() > 0
            && digits[0] == '-' && numeral(digits.skip(1)) is Some)),
        all.len() != 3 ==> printable(Node::List(all)) == forall|i: int|
            0 <= i < all.len() ==> printable(#[trigger] all[i]),
        all.len() == 3 ==> printable(Node::List(all)) == (printable(all[0]) && printable(all[1])
            && printable(all[2]) && !(all[0] is Text && (all[1] matches Node::Text(mark)
            && mark.len() == 1 && mark != "\""@ && mark != "`"@ && mark != "["@ && mark != "'"@)
            && (all[2] is Record || all[2] is List))),
        ({
            let here = Node::Record(fields);
            let word = exists|i: int|
                0 <= i < fields.len() && (#[trigger] fields[i]).0 == "keyword"@;
            printable(here) == {
                &&& forall|i: int|
                    0 <= i < fields.len() ==> printable((#[trigger] fields[i]).1) && suits(
                        fields[i].0,
                        fields[i].1,
                        word,
                    )
                &&& !(variant(field(here, "leading_field"@)) == Some("Second"@) && !(field(
                    here,
                    "leading_precision"@,
                ) is Null) && !(field(here, "fractional_seconds_precision"@) is Null) && !(field(
                    here,
                    "last_field"@,
                ) is Null))
                &&& !(field(here, "limit"@) is Null && items(field(here, "limit_by"@)).len() > 0)
            }
        }),
{
    lemma_printable_items(all);
    lemma_has_name(fields, "keyword"@);
    lemma_printable_fields(fields, is_word(fields));
    if all.len() == 3 {
        assert((forall|i: int| 0 <= i < all.len() ==> printable(#[trigger] all[i])) == (printable(
            all[0],
        ) && printable(all[1]) && printable(all[2])));
    }
}

/// A statement that the printer takes is printed from its JSON text, and no other one is printed.
pub proof fn statements_are_printed_from_json(statement: Node)
    ensures
        printable(statement) ==> printed(statement) == statement_text(json_text(statement)),
        !printable(statement) ==> printed(statement) is None,
{
}

} // verus!
