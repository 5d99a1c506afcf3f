//! Syntax trees as plain values.

pub mod laws;

use vstd::prelude::*;

use crate::text::same_text;

verus! {

/// A syntax tree: a variant with fields is a record of one field, whose name is that of the
/// variant; a variant without fields is its name; a structure is a record; a tuple is a list.
#[derive(Debug)]
pub enum Tree {
    Null,
    Flag(bool),
    Number(String),
    Text(String),
    List(Vec<Tree>),
    Record(Vec<(String, Tree)>),
}

/// The model of a [`Tree`].
pub enum Node {
    Null,
    Flag(bool),
    Number(Seq<char>),
    Text(Seq<char>),
    List(Seq<Node>),
    Record(Seq<(Seq<char>, Node)>),
}

/// The models of the items of a list.
pub open spec fn item_nodes(items: Seq<Tree>) -> Seq<Node>
    decreases items,
{
    if items.len() == 0 {
        Seq::empty()
    } else {
        item_nodes(items.drop_last()).push(tree_node(items.last()))
    }
}

/// The models of the fields of a record.
pub open spec fn field_nodes(fields: Seq<(String, Tree)>) -> Seq<(Seq<char>, Node)>
    decreases fields,
{
    if fields.len() == 0 {
        Seq::empty()
    } else {
        field_nodes(fields.drop_last()).push((fields.last().0@, tree_node(fields.last().1)))
    }
}

/// The model of a tree.
pub open spec fn tree_node(tree: Tree) -> Node
    decreases tree,
{
    match tree {
        Tree::Null => Node::Null,
        Tree::Flag(flag) => Node::Flag(flag),
        Tree::Number(digits) => Node::Number(digits@),
        Tree::Text(text) => Node::Text(text@),
        Tree::List(items) => Node::List(item_nodes(items@)),
        Tree::Record(fields) => Node::Record(field_nodes(fields@)),
    }
}

impl View for Tree {
    type V = Node;

    open spec fn view(&self) -> Node {
        tree_node(*self)
    }
}

/// The model of a list has its items in their order.
pub broadcast proof fn lemma_item_nodes(items: Seq<Tree>)
    ensures
        (#[trigger] item_nodes(items)).len() == items.len(),
        forall|i: int|
            0 <= i < items.len() ==> #[trigger] item_nodes(items)[i] == items[i]@,
    decreases items.len(),
{
    if items.len() > 0 {
        lemma_item_nodes(items.drop_last());
        assert forall|i: int| 0 <= i < items.len() implies #[trigger] item_nodes(items)[i]
            == items[i]@ by {
            if i < items.len() - 1 {
                assert(item_nodes(items)[i] == item_nodes(items.drop_last())[i]);
            }
        }
    }
}

/// The model of a record has its fields in their order.
pub broadcast proof fn lemma_field_nodes(fields: Seq<(String, Tree)>)
    ensures
        (#[trigger] field_nodes(fields)).len() == fields.len(),
        forall|i: int|
            0 <= i < fields.len() ==> #[trigger] field_nodes(fields)[i] == (
                fields[i].0@,
                fields[i].1@,
            ),
    decreases fields.len(),
{
    if fields.len() > 0 {
        lemma_field_nodes(fields.drop_last());
        assert forall|i: int| 0 <= i < fields.len() implies #[trigger] field_nodes(fields)[i] == (
            fields[i].0@,
            fields[i].1@,
        ) by {
            if i < fields.len() - 1 {
                assert(field_nodes(fields)[i] == field_nodes(fields.drop_last())[i]);
            }
        }
    }
}

/// The name of a variant.
pub open spec fn variant(node: Node) -> Option<Seq<char>> {
    match node {
        Node::Text(name) => Some(name),
        Node::Record(fields) => if fields.len() == 1 {
            Some(fields[0].0)
        } else {
            None
        },
        _ => None,
    }
}

/// Whether the tree is a variant of this name.
pub open spec fn is_variant(node: Node, name: Seq<char>) -> bool {
    variant(node) == Some(name)
}

/// What a variant holds; nothing where it has no fields.
pub open spec fn payload(node: Node) -> Node {
    match node {
        Node::Record(fields) => if fields.len() == 1 {
            fields[0].1
        } else {
            Node::Null
        },
        _ => Node::Null,
    }
}

/// The value of the first field of this name.
pub open spec fn lookup(fields: Seq<(Seq<char>, Node)>, name: Seq<char>) -> Node
    decreases fields.len(),
{
    if fields.len() == 0 {
        Node::Null
    } else if fields[0].0 == name {
        fields[0].1
    } else {
        lookup(fields.drop_first(), name)
    }
}

/// A field of a record; `Null` where there is none.
pub open spec fn field(node: Node, name: Seq<char>) -> Node {
    match node {
        Node::Record(fields) => lookup(fields, name),
        _ => Node::Null,
    }
}

/// The items of a list; none where the tree is not a list.
pub open spec fn items(node: Node) -> Seq<Node> {
    match node {
        Node::List(items) => items,
        _ => Seq::empty(),
    }
}

/// The fields with another value for the first one of this name.
pub open spec fn replaced(fields: Seq<(Seq<char>, Node)>, name: Seq<char>, value: Node) -> Seq<
    (Seq<char>, Node),
>
    decreases fields.len(),
{
    if fields.len() == 0 {
        Seq::empty()
    } else if fields[0].0 == name {
        seq![(name, value)] + fields.drop_first()
    } else {
        seq![fields[0]] + replaced(fields.drop_first(), name, value)
    }
}

/// A record with another value for one of its fields. Without a field of this name it stays as it
/// is.
pub open spec fn with_field(node: Node, name: Seq<char>, value: Node) -> Node {
    match node {
        Node::Record(fields) => Node::Record(replaced(fields, name, value)),
        _ => node,
    }
}

proof fn lemma_replaced(
    fields: Seq<(Seq<char>, Node)>,
    name: Seq<char>,
    first: Node,
    second: Node,
)
    ensures
        replaced(replaced(fields, name, first), name, second) == replaced(fields, name, second),
        replaced(fields, name, lookup(fields, name)) == fields,
    decreases fields.len(),
{
    if fields.len() > 0 {
        let once = replaced(fields, name, first);
        if fields[0].0 == name {
            assert(once[0] == (name, first));
            assert(once.drop_first() =~= fields.drop_first());
            assert(replaced(fields, name, fields[0].1) =~= fields);
        } else {
            lemma_replaced(fields.drop_first(), name, first, second);
            assert(once[0] == fields[0]);
            assert(once.drop_first() =~= replaced(fields.drop_first(), name, first));
            assert(replaced(fields, name, lookup(fields, name)) =~= fields);
        }
    }
}

/// The last of two values for a field counts, and its own value changes nothing.
pub broadcast proof fn lemma_with_field(node: Node, name: Seq<char>, first: Node, second: Node)
    ensures
        #[trigger] with_field(with_field(node, name, first), name, second) == with_field(
            node,
            name,
            second,
        ),
        with_field(node, name, field(node, name)) == node,
{
    if let Node::Record(fields) = node {
        lemma_replaced(fields, name, first, second);
    }
}

proof fn lemma_lookup_replaced(
    fields: Seq<(Seq<char>, Node)>,
    name: Seq<char>,
    value: Node,
    other: Seq<char>,
)
    ensures
        other != name ==> lookup(replaced(fields, name, value), other) == lookup(fields, other),
        lookup(replaced(fields, name, value), name) == if lookup(fields, name) is Null {
            lookup(replaced(fields, name, value), name)
        } else {
            value
        },
    decreases fields.len(),
{
    if fields.len() > 0 {
        let after = replaced(fields, name, value);
        if fields[0].0 == name {
            assert(after[0] == (name, value));
            assert(after.drop_first() =~= fields.drop_first());
        } else {
            assert(after[0] == fields[0]);
            assert(after.drop_first() =~= replaced(fields.drop_first(), name, value));
            lemma_lookup_replaced(fields.drop_first(), name, value, other);
        }
    }
}

/// Another value for a field shows in that field, where there is one, and in no other.
pub proof fn lemma_field_of_with_field(
    node: Node,
    name: Seq<char>,
    value: Node,
    other: Seq<char>,
)
    ensures
        other != name ==> field(with_field(node, name, value), other) == field(node, other),
        !(field(node, name) is Null) ==> field(with_field(node, name, value), name) == value,
{
    if let Node::Record(fields) = node {
        lemma_lookup_replaced(fields, name, value, other);
    }
}

/// Where the first field of this name stands; behind the last field where there is none.
fn position(fields: &Vec<(String, Tree)>, name: &str) -> (r: usize)
    ensures
        r <= fields@.len(),
        lookup(field_nodes(fields@), name@) == if r < fields@.len() {
            fields@[r as int].1@
        } else {
            Node::Null
        },
        forall|value: Node|
            #[trigger] replaced(field_nodes(fields@), name@, value) == if r < fields@.len() {
                field_nodes(fields@).update(r as int, (name@, value))
            } else {
                field_nodes(fields@)
            },
        r < fields@.len() ==> fields@[r as int].0@ == name@,
{
    broadcast use lemma_field_nodes;

    let ghost all = field_nodes(fields@);
    let mut i: usize = 0;
    assert(all.skip(0) =~= all);
    assert forall|value: Node| #[trigger] replaced(all, name@, value) == all.take(0) + replaced(
        all.skip(0),
        name@,
        value,
    ) by {
        assert(all.take(0) + replaced(all, name@, value) =~= replaced(all, name@, value));
    }
    while i < fields.len()
        invariant
            i <= fields@.len(),
            all == field_nodes(fields@),
            lookup(all, name@) == lookup(all.skip(i as int), name@),
            forall|value: Node|
                #[trigger] replaced(all, name@, value) == all.take(i as int) + replaced(
                    all.skip(i as int),
                    name@,
                    value,
                ),
        decreases fields@.len() - i,
    {
        broadcast use lemma_field_nodes;

        let ghost rest = all.skip(i as int);
        assert(rest[0] == (fields@[i as int].0@, fields@[i as int].1@));
        assert(rest.drop_first() =~= all.skip(i + 1));
        if same_text(fields[i].0.as_str(), name) {
            assert forall|value: Node| #[trigger] replaced(all, name@, value) == all.update(
                i as int,
                (name@, value),
            ) by {
                assert(all.take(i as int) + replaced(rest, name@, value) =~= all.update(
                    i as int,
                    (name@, value),
                ));
            }
            return i;
        }
        assert forall|value: Node| #[trigger] replaced(all, name@, value) == all.take(i + 1)
            + replaced(all.skip(i + 1), name@, value) by {
            assert(all.take(i + 1) + replaced(all.skip(i + 1), name@, value) =~= all.take(i as int)
                + replaced(rest, name@, value));
        }
        i += 1;
    }
    assert forall|value: Node| #[trigger] replaced(all, name@, value) == all by {
        assert(all.take(i as int) + replaced(all.skip(i as int), name@, value) =~= all);
    }
    i
}

impl Tree {
    /// The name of a variant.
    pub fn variant(&self) -> (r: Option<&str>)
        ensures
            match r {
                Some(name) => variant(self@) == Some(name@),
                None => variant(self@) is None,
            },
    {
        broadcast use lemma_field_nodes;

        match self {
            Tree::Text(name) => {
                assert(self@ == Node::Text(name@));
                Some(name.as_str())
            },
            Tree::Record(fields) => {
                if fields.len() == 1 {
                    assert(self@ == Node::Record(field_nodes(fields@)));
                    Some(fields[0].0.as_str())
                } else {
                    None
                }
            },
            _ => None,
        }
    }

    /// What a variant holds; `Null` where it has no fields.
    pub fn payload(&self) -> (r: &Tree)
        ensures
            r@ == payload(self@),
    {
        broadcast use lemma_field_nodes;

        match self {
            Tree::Record(fields) => {
                assert(self@ == Node::Record(field_nodes(fields@)));
                if fields.len() == 1 {
                    &fields[0].1
                } else {
                    &Tree::Null
                }
            },
            _ => &Tree::Null,
        }
    }

    /// A field of a record; `Null` where there is none.
    pub fn field(&self, name: &str) -> (r: &Tree)
        ensures
            r@ == field(self@, name@),
    {
        broadcast use lemma_field_nodes;

        match self {
            Tree::Record(fields) => {
                assert(self@ == Node::Record(field_nodes(fields@)));
                let i: usize = position(fields, name);
                if i < fields.len() {
                    &fields[i].1
                } else {
                    &Tree::Null
                }
            },
            _ => &Tree::Null,
        }
    }

    /// Gives a field of a record another value. Without a field of this name the record stays as it
    /// is.
    pub fn set_field(&mut self, name: &str, value: Tree)
        ensures
            final(self)@ == with_field(old(self)@, name@, value@),
    {
        let mut value = value;
        self.swap_field(name, &mut value);
    }

    /// Takes the value of a field out of a record, and leaves `Null`.
    pub fn take_field(&mut self, name: &str) -> (value: Tree)
        ensures
            value@ == field(old(self)@, name@),
            final(self)@ == with_field(old(self)@, name@, Node::Null),
    {
        let mut value = Tree::Null;
        self.swap_field(name, &mut value);
        value
    }

    fn swap_field(&mut self, name: &str, value: &mut Tree)
        ensures
            final(self)@ == with_field(old(self)@, name@, old(value)@),
            old(value)@ is Null ==> final(value)@ == field(old(self)@, name@),
    {
        broadcast use lemma_field_nodes;

        match self {
            Tree::Record(fields) => {
                let ghost all = field_nodes(fields@);
                let ghost given = value@;
                let i: usize = position(fields, name);
                if i < fields.len() {
                    std::mem::swap(&mut fields[i].1, value);
                }
                assert(field_nodes(fields@) =~= replaced(all, name@, given));
            },
            _ => {},
        }
    }

    /// Whether the tree is a variant of this name.
    pub fn is_variant(&self, name: &str) -> (r: bool)
        ensures
            r == is_variant(self@, name@),
    {
        match self.variant() {
            Some(own) => same_text(own, name),
            None => false,
        }
    }
}

/// A record of one field.
pub fn record(name: &str, value: Tree) -> (r: Tree)
    ensures
        r@ == Node::Record(seq![(name@, value@)]),
{
    let r = extended(Tree::Record(Vec::new()), name, value);
    assert(r@->Record_0 =~= seq![(name@, value@)]);
    r
}

/// A list of one item.
pub fn singleton(item: Tree) -> (r: Tree)
    ensures
        r@ == Node::List(seq![item@]),
{
    broadcast use lemma_item_nodes;

    let mut items: Vec<Tree> = Vec::new();
    items.push(item);
    let r = Tree::List(items);
    assert(r@ == Node::List(item_nodes(items@)));
    assert(item_nodes(items@) =~= seq![item@]);
    r
}

/// A list of two items.
pub fn pair(first: Tree, second: Tree) -> (r: Tree)
    ensures
        r@ == Node::List(seq![first@, second@]),
{
    broadcast use lemma_item_nodes;

    let mut items: Vec<Tree> = Vec::new();
    items.push(first);
    items.push(second);
    let r = Tree::List(items);
    assert(r@ == Node::List(item_nodes(items@)));
    assert(item_nodes(items@) =~= seq![first@, second@]);
    r
}

/// A record with one field more than another.
pub fn extended(record: Tree, name: &str, value: Tree) -> (r: Tree)
    requires
        record@ is Record,
    ensures
        r@ == Node::Record(record@->Record_0.push((name@, value@))),
{
    broadcast use lemma_field_nodes;

    match record {
        Tree::Record(fields) => {
            let mut fields = fields;
            let ghost before = fields@;
            fields.push((name.to_owned(), value));
            let r = Tree::Record(fields);
            assert(r@ == Node::Record(field_nodes(fields@)));
            assert(field_nodes(fields@) =~= field_nodes(before).push((name@, value@)));
            r
        },
        _ => record,
    }
}

/// One hexadecimal digit, in lower case.
pub open spec fn hex_digit(d: nat) -> char {
    if d < 10 {
        crate::text::digit(d)
    } else if d == 10 {
        'a'
    } else if d == 11 {
        'b'
    } else if d == 12 {
        'c'
    } else if d == 13 {
        'd'
    } else if d == 14 {
        'e'
    } else {
        'f'
    }
}

/// A character inside a JSON string.
pub open spec fn json_char(c: char) -> Seq<char> {
    if c == '"' || c == '\\' {
        seq!['\\', c]
    } else if (c as u32) < 0x20 {
        seq!['\\', 'u', '0', '0', hex_digit((c as u32 / 16) as nat), hex_digit(
            (c as u32 % 16) as nat,
        )]
    } else {
        seq![c]
    }
}

/// A text inside a JSON string.
pub open spec fn json_chars(text: Seq<char>) -> Seq<char>
    decreases text.len(),
{
    if text.len() == 0 {
        Seq::empty()
    } else {
        json_chars(text.drop_last()) + json_char(text.last())
    }
}

/// A JSON string.
pub open spec fn json_string(text: Seq<char>) -> Seq<char> {
    seq!['"'] + json_chars(text) + seq!['"']
}

/// The items of a JSON array.
pub open spec fn json_items(items: Seq<Node>) -> Seq<char>
    decreases items,
{
    if items.len() == 0 {
        Seq::empty()
    } else if items.len() == 1 {
        json_text(items[0])
    } else {
        json_items(items.drop_last()) + seq![','] + json_text(items.last())
    }
}

/// The fields of a JSON object.
pub open spec fn json_fields(fields: Seq<(Seq<char>, Node)>) -> Seq<char>
    decreases fields,
{
    if fields.len() == 0 {
        Seq::empty()
    } else {
        let last = json_string(fields.last().0) + seq![':'] + json_text(fields.last().1);
        if fields.len() == 1 {
            last
        } else {
            json_fields(fields.drop_last()) + seq![','] + last
        }
    }
}

/// A tree in JSON.
pub open spec fn json_text(node: Node) -> Seq<char>
    decreases node,
{
    match node {
        Node::Null => seq!['n', 'u', 'l', 'l'],
        Node::Flag(flag) => if flag {
            seq!['t', 'r', 'u', 'e']
        } else {
            seq!['f', 'a', 'l', 's', 'e']
        },
        Node::Number(digits) => digits,
        Node::Text(text) => json_string(text),
        Node::List(items) => seq!['['] + json_items(items) + seq![']'],
        Node::Record(fields) => seq!['{'] + json_fields(fields) + seq!['}'],
    }
}

fn hex_char(d: u32) -> (c: char)
    requires
        d < 16,
    ensures
        c == hex_digit(d as nat),
{
    match d {
        0 => '0',
        1 => '1',
        2 => '2',
        3 => '3',
        4 => '4',
        5 => '5',
        6 => '6',
        7 => '7',
        8 => '8',
        9 => '9',
        10 => 'a',
        11 => 'b',
        12 => 'c',
        13 => 'd',
        14 => 'e',
        _ => 'f',
    }
}

/// Appends a JSON string.
fn append_string(text: &str, out: &mut String)
    ensures
        final(out)@ == old(out)@ + json_string(text@),
{
    let ghost before = out@;
    out.push('"');
    for c in it: text.chars()
        invariant
            it.seq() == text@,
            0 <= it.index() <= text@.len(),
            out@ == before + seq!['"'] + json_chars(text@.take(it.index() as int)),
    {
        let ghost k = it.index() as int;
        let ghost at = out@;
        proof {
            assert(text@.take(k + 1).drop_last() =~= text@.take(k));
        }
        if c == '"' || c == '\\' {
            out.push('\\');
            out.push(c);
        } else if (c as u32) < 0x20 {
            let v: u32 = c as u32;
            out.push('\\');
            out.push('u');
            out.push('0');
            out.push('0');
            out.push(hex_char(v / 16));
            out.push(hex_char(v % 16));
        } else {
            out.push(c);
        }
        assert(out@ =~= at + json_char(c));
        assert(out@ =~= before + seq!['"'] + json_chars(text@.take(k + 1)));
    }
    assert(text@.take(text@.len() as int) =~= text@);
    out.push('"');
    assert(out@ =~= before + json_string(text@));
}

/// Appends a tree in JSON.
fn append_json(tree: &Tree, out: &mut String)
    ensures
        final(out)@ == old(out)@ + json_text(tree@),
    decreases tree,
{
    broadcast use {lemma_item_nodes, lemma_field_nodes};

    let ghost before = out@;
    match tree {
        Tree::Null => {
            proof {
                reveal_strlit("null");
            }
            out.append("null");
        },
        Tree::Flag(flag) => {
            proof {
                reveal_strlit("true");
                reveal_strlit("false");
            }
            if *flag {
                out.append("true");
            } else {
                out.append("false");
            }
        },
        Tree::Number(digits) => {
            out.append(digits.as_str());
        },
        Tree::Text(text) => {
            append_string(text.as_str(), out);
        },
        Tree::List(items) => {
            out.push('[');
            let ghost all = item_nodes(items@);
            let mut i: usize = 0;
            while i < items.len()
                invariant
                    i <= items.len(),
                    tree == Tree::List(*items),
                    all == item_nodes(items@),
                    out@ == before + seq!['['] + json_items(all.take(i as int)),
                decreases items.len() - i,
            {
                broadcast use {lemma_item_nodes, lemma_field_nodes};

                proof {
                    assert(all.take(i + 1).drop_last() =~= all.take(i as int));
                    assert(all.take(i + 1).last() == items@[i as int]@);
                }
                if i > 0 {
                    out.push(',');
                }
                assert(decreases_to!(tree => items@[i as int])) by {
                    assert(decreases_to!(tree => tree->List_0));
                    assert(decreases_to!(items => items@));
                    assert(decreases_to!(items@ => items@[i as int]));
                }
                append_json(&items[i], out);
                assert(out@ =~= before + seq!['['] + json_items(all.take(i + 1)));
                i += 1;
            }
            assert(all.take(i as int) =~= all);
            out.push(']');
        },
        Tree::Record(fields) => {
            out.push('{');
            let ghost all = field_nodes(fields@);
            let mut i: usize = 0;
            while i < fields.len()
                invariant
                    i <= fields.len(),
                    tree == Tree::Record(*fields),
                    all == field_nodes(fields@),
                    out@ == before + seq!['{'] + json_fields(all.take(i as int)),
                decreases fields.len() - i,
            {
                broadcast use {lemma_item_nodes, lemma_field_nodes};

                let field = &fields[i];
                proof {
                    assert(all.take(i + 1).drop_last() =~= all.take(i as int));
                    assert(all.take(i + 1).last() == (field.0@, field.1@));
                }
                if i > 0 {
                    out.push(',');
                }
                append_string(field.0.as_str(), out);
                out.push(':');
                assert(decreases_to!(tree => fields@[i as int].1)) by {
                    assert(decreases_to!(tree => tree->Record_0));
                    assert(decreases_to!(fields => fields@));
                    assert(decreases_to!(fields@ => fields@[i as int]));
                    assert(decreases_to!(fields@[i as int] => fields@[i as int].1));
                }
                append_json(&field.1, out);
                assert(out@ =~= before + seq!['{'] + json_fields(all.take(i + 1)));
                i += 1;
            }
            assert(all.take(i as int) =~= all);
            out.push('}');
        },
    }
    assert(out@ =~= before + json_text(tree@));
}

/// Writes a tree in JSON.
pub fn write_json(tree: &Tree) -> (r: String)
    ensures
        r@ == json_text(tree@),
{
    let mut out = String::new();
    append_json(tree, &mut out);
    assert(out@ =~= json_text(tree@));
    out
}

} // verus!
