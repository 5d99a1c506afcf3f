//! The PostgreSQL tokenizer, parser and printer.
//!
//! Everything in the library that is not proved stands in this module, but for `String::push`.

use serde::Deserialize;
use sqlparser::ast::Statement;
use sqlparser::dialect::PostgreSqlDialect;
use sqlparser::parser::Parser;
use sqlparser::tokenizer::{Token, Tokenizer};
use vstd::prelude::*;

use crate::printable::{is_printable, printable};
use crate::split::laws::{moved_tokens, newline_tokens, newlines};
use crate::split::{consecutive, Place, TokenKind, TokenSpan};
use crate::syntax::{is_variant, json_text, write_json, Node, Tree};

verus! {

/// What the tokenizer makes of a text: its tokens, or a message.
pub uninterp spec fn sql_tokens(text: Seq<char>) -> Result<Seq<TokenSpan>, Seq<char>>;

/// What the parser makes of a text: its statements, or a message.
pub uninterp spec fn sql_syntax(text: Seq<char>) -> Result<Seq<Node>, Seq<char>>;

/// The pretty-printed text of the statement that a JSON text describes, where it describes one.
pub uninterp spec fn statement_text(json: Seq<char>) -> Option<Seq<char>>;

/// The tree that a JSON value holds.
pub uninterp spec fn json_tree(value: serde_json::Value) -> Node;

/// A JSON value (`serde_json::Value`).
#[verifier::external_type_specification]
#[verifier::external_body]
pub struct ExJsonValue(serde_json::Value);

/// A list of tokens, or a message, as plain values.
pub open spec fn token_result(r: Result<Vec<TokenSpan>, String>) -> Result<
    Seq<TokenSpan>,
    Seq<char>,
> {
    match r {
        Ok(tokens) => Ok(tokens@),
        Err(message) => Err(message@),
    }
}

/// Whether a text with newlines in front, up to the machine's limit, has a token of white space for
/// each of them, and then these tokens, as many lines further down.
pub open spec fn newlines_move_tokens(text: Seq<char>, tokens: Seq<TokenSpan>) -> bool {
    forall|k: nat|
        text.len() + k < usize::MAX ==> #[trigger] sql_tokens(newlines(k) + text) == Ok::<
            Seq<TokenSpan>,
            Seq<char>,
        >(newline_tokens(k) + moved_tokens(tokens, k))
}

/// Calls `sqlparser::tokenizer::Tokenizer::tokenize_with_location` with the PostgreSQL dialect.
///
/// Claimed: the outcome depends on the text alone. The tokens, each with a character at least, lie
/// in the text one right behind the other, and the span of a token is the place of its first
/// character and the place behind its last one. With newlines in front, the text has a token of
/// white space for each of them, and then the tokens that it had, that many lines further down.
#[verifier::external_body]
pub(crate) fn tokenize(text: &str) -> (r: Result<Vec<TokenSpan>, String>)
    ensures
        token_result(r) == sql_tokens(text@),
        r matches Ok(tokens) ==> consecutive(text@, tokens@),
        r matches Ok(tokens) ==> newlines_move_tokens(text@, tokens@),
{
    let place = |l: sqlparser::tokenizer::Location| Place { line: l.line, column: l.column };
    let kind = |t: &Token| match t {
        Token::Whitespace(_) => TokenKind::Space,
        Token::SemiColon => TokenKind::Semicolon,
        _ => TokenKind::Word,
    };
    let tokens = Tokenizer::new(&PostgreSqlDialect {}, text).tokenize_with_location();
    tokens.map_err(|e| e.to_string()).map(
        |all| all.iter().map(
            |t| TokenSpan { kind: kind(&t.token), start: place(t.span.start), end: place(t.span.end) },
        ).collect(),
    )
}

/// A list of statements as JSON, or a message, as plain values.
pub open spec fn json_result(r: Result<Vec<serde_json::Value>, String>) -> Result<
    Seq<Node>,
    Seq<char>,
> {
    match r {
        Ok(values) => Ok(values@.map_values(|value: serde_json::Value| json_tree(value))),
        Err(message) => Err(message@),
    }
}

/// Whether a parse gave one statement, which keeps the work of a transaction.
pub open spec fn one_commit(syntax: Result<Seq<Node>, Seq<char>>) -> bool {
    &&& syntax matches Ok(statements)
    &&& statements.len() == 1
    &&& is_variant(statements[0], "Commit"@)
}

/// Calls `sqlparser::parser::Parser::parse_sql` with the PostgreSQL dialect, and
/// `serde_json::to_value` on each statement.
///
/// Claimed: the outcome depends on the text alone. The text `COMMIT` is one statement, which keeps
/// the work of a transaction.
#[verifier::external_body]
fn parse_to_json(text: &str) -> (r: Result<Vec<serde_json::Value>, String>)
    ensures
        json_result(r) == sql_syntax(text@),
        text@ == "COMMIT"@ ==> one_commit(json_result(r)),
{
    match Parser::parse_sql(&PostgreSqlDialect {}, text) {
        Ok(statements) => {
            statements.iter().map(|s| serde_json::to_value(s).map_err(|e| e.to_string())).collect()
        },
        Err(e) => Err(e.to_string()),
    }
}

/// Takes a `serde_json::Value` apart.
///
/// Claimed: the tree holds what the value holds.
#[verifier::external_body]
fn tree_of(value: &serde_json::Value) -> (tree: Tree)
    ensures
        tree@ == json_tree(*value),
{
    match value {
        serde_json::Value::Null => Tree::Null,
        serde_json::Value::Bool(b) => Tree::Flag(*b),
        serde_json::Value::Number(n) => Tree::Number(n.to_string()),
        serde_json::Value::String(s) => Tree::Text(s.clone()),
        serde_json::Value::Array(items) => Tree::List(items.iter().map(tree_of).collect()),
        serde_json::Value::Object(fields) => {
            Tree::Record(fields.iter().map(|(k, v)| (k.clone(), tree_of(v))).collect())
        },
    }
}

/// Parses SQL into statements.
pub fn parse_sql(text: &str) -> (r: Result<Vec<Tree>, String>)
    ensures
        syntax_result(r) == sql_syntax(text@),
        text@ == "COMMIT"@ ==> one_commit(sql_syntax(text@)),
{
    match parse_to_json(text) {
        Ok(values) => {
            let mut trees: Vec<Tree> = Vec::new();
            let mut i: usize = 0;
            while i < values.len()
                invariant
                    i <= values.len(),
                    nodes(trees@) == values@.take(i as int).map_values(
                        |value: serde_json::Value| json_tree(value),
                    ),
                decreases values.len() - i,
            {
                assert(values@.take(i + 1) =~= values@.take(i as int).push(values@[i as int]));
                let ghost done = trees@;
                trees.push(tree_of(&values[i]));
                assert(nodes(trees@) =~= nodes(done).push(trees@.last()@));
                i += 1;
            }
            assert(values@.take(i as int) =~= values@);
            Ok(trees)
        },
        Err(message) => Err(message),
    }
}

/// Statements as plain values.
pub open spec fn nodes(trees: Seq<Tree>) -> Seq<Node> {
    trees.map_values(|tree: Tree| tree@)
}

/// A list of statements, or a message, as plain values.
pub open spec fn syntax_result(r: Result<Vec<Tree>, String>) -> Result<Seq<Node>, Seq<char>> {
    match r {
        Ok(trees) => Ok(nodes(trees@)),
        Err(message) => Err(message@),
    }
}

/// A text, or none, as plain values.
pub open spec fn text_option(r: Option<String>) -> Option<Seq<char>> {
    match r {
        Some(text) => Some(text@),
        None => None,
    }
}

/// Calls `serde::Deserialize::deserialize` for `sqlparser::ast::Statement` on a JSON text, and
/// prints the statement with the alternate form of its `Display`.
///
/// Claimed: the outcome depends on the JSON text alone. The text must be that of a printable tree,
/// for on others printing may panic.
#[verifier::external_body]
fn print_json(json: &str) -> (r: Option<String>)
    requires
        exists|node: Node| json@ == #[trigger] json_text(node) && printable(node),
    ensures
        text_option(r) == statement_text(json@),
{
    let mut source = serde_json::Deserializer::from_str(json);
    source.disable_recursion_limit();
    Statement::deserialize(&mut source).ok().map(|statement| format!("{:#}", statement))
}

/// The pretty-printed text of a statement; none where the tree is not that of a statement, or is
/// one that the printer does not take.
pub open spec fn printed(statement: Node) -> Option<Seq<char>> {
    if printable(statement) {
        statement_text(json_text(statement))
    } else {
        None
    }
}

/// Pretty-prints a statement.
pub fn print_statement(statement: &Tree) -> (r: Option<String>)
    ensures
        text_option(r) == printed(statement@),
{
    if is_printable(statement) {
        print_json(write_json(statement).as_str())
    } else {
        None
    }
}

} // verus!
