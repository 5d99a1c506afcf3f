//! Rules on the columns of a table.

use vstd::prelude::*;

use crate::diagnostic::{findings, issue, report, Diagnostic, Finding, Fix, FixResult, LintRule};
use crate::syntax::{
    extended, field, is_variant, item_nodes, items, lemma_field_of_with_field,
    lemma_item_nodes, lemma_with_field, pair, payload, record, singleton, with_field, Node, Tree,
};
use crate::text::{numeral, read_numeral, same_text, to_upper, upper};

verus! {

/// What a rule says against each of some nodes, one after the other.
pub open spec fn each(nodes: Seq<Node>, of: spec_fn(Node) -> Seq<Finding>) -> Seq<Finding>
    decreases nodes.len(),
{
    if nodes.len() == 0 {
        Seq::empty()
    } else {
        each(nodes.drop_last(), of) + of(nodes.last())
    }
}

/// The unquoted, unqualified name of a data type that the parser does not know.
pub open spec fn custom_type_name(data_type: Node) -> Option<Seq<char>> {
    let parts = items(data_type_name(data_type));
    if is_variant(data_type, "Custom"@) && parts.len() == 1 && is_variant(
        parts[0],
        "Identifier"@,
    ) && field(payload(parts[0]), "quote_style"@) is Null {
        match field(payload(parts[0]), "value"@) {
            Node::Text(name) => Some(name),
            _ => None,
        }
    } else {
        None
    }
}

/// The name in a data type that the parser does not know.
pub open spec fn data_type_name(data_type: Node) -> Node {
    if items(payload(data_type)).len() > 0 {
        items(payload(data_type))[0]
    } else {
        Node::Null
    }
}

/// The name of a serial type, in upper case.
pub open spec fn serial_name(data_type: Node) -> Option<Seq<char>> {
    match custom_type_name(data_type) {
        Some(name) => {
            let name = upper(name);
            if name == "SERIAL"@ || name == "SERIAL4"@ || name == "BIGSERIAL"@ || name
                == "SERIAL8"@ || name == "SMALLSERIAL"@ || name == "SERIAL2"@ {
                Some(name)
            } else {
                None
            }
        },
        None => None,
    }
}

/// Whether a data type is that of 64-bit integers.
pub open spec fn big_int(data_type: Node) -> bool {
    is_variant(data_type, "BigInt"@) || is_variant(data_type, "Int8"@)
}

/// What is said against a serial column.
pub open spec fn serial_finding(name: Seq<char>, fix: Fix) -> Finding {
    issue(
        LintRule::SerialType,
        name + " columns are not supported in DSQL."@,
        "Use BIGINT GENERATED BY DEFAULT AS IDENTITY (CACHE 1), or a UUID."@,
        fix,
    )
}

/// What the fix of a serial column is.
pub open spec fn serial_fix() -> Fix {
    Fix::FixedWithWarning(
        "Replaced the serial type with BIGINT GENERATED BY DEFAULT AS IDENTITY (CACHE 1). Check that a 64-bit identity column fits."@,
    )
}

/// What is said against a JSON column.
pub open spec fn json_finding(name: Seq<char>) -> Finding {
    issue(
        LintRule::JsonType,
        name + " columns are not supported in DSQL."@,
        "Store the document in a TEXT column."@,
        Fix::Unfixable,
    )
}

/// What is said against a column of arrays.
pub open spec fn array_finding() -> Finding {
    issue(
        LintRule::ArrayType,
        "Columns of an array type are not supported in DSQL."@,
        "Store the items in a table of their own."@,
        Fix::Unfixable,
    )
}

/// What is said against the data type of a column.
pub open spec fn type_findings(data_type: Node, fix: Fix) -> Seq<Finding> {
    match serial_name(data_type) {
        Some(name) => seq![serial_finding(name, fix)],
        None => if is_variant(data_type, "JSON"@) {
            seq![json_finding("JSON"@)]
        } else if is_variant(data_type, "JSONB"@) {
            seq![json_finding("JSONB"@)]
        } else if is_variant(data_type, "Array"@) {
            seq![array_finding()]
        } else {
            Seq::empty()
        },
    }
}

/// What is said against a foreign key.
pub open spec fn foreign_key_finding() -> Finding {
    issue(
        LintRule::ForeignKey,
        "FOREIGN KEY constraints are not supported in DSQL."@,
        "Remove the constraint and keep references intact in the application."@,
        Fix::FixedWithWarning(
            "Removed a FOREIGN KEY constraint. Keep references intact in the application."@,
        ),
    )
}

/// Whether a column option is a foreign key.
pub open spec fn is_foreign_key(option: Node) -> bool {
    is_variant(field(option, "option"@), "ForeignKey"@)
}

/// Whether a column option makes an identity column.
pub open spec fn is_identity(option: Node) -> bool {
    let generated = payload(field(option, "option"@));
    let kind = field(generated, "generated_as"@);
    is_variant(field(option, "option"@), "Generated"@) && field(generated, "generation_expr"@)
        is Null && (is_variant(kind, "Always"@) || is_variant(kind, "ByDefault"@))
}

/// The `CACHE` option among the options of a sequence.
pub open spec fn cache_option(options: Seq<Node>) -> Option<Node>
    decreases options.len(),
{
    if options.len() == 0 {
        None
    } else if is_variant(options.last(), "Cache"@) {
        Some(payload(options.last()))
    } else {
        cache_option(options.drop_last())
    }
}

/// Whether an expression is a size that a sequence's cache may have: 1, or at least 65536.
pub open spec fn valid_cache(expr: Node) -> bool {
    let literal = field(payload(expr), "value"@);
    &&& is_variant(expr, "Value"@)
    &&& is_variant(literal, "Number"@)
    &&& items(payload(literal)).len() > 0
    &&& items(payload(literal))[0] matches Node::Text(digits)
    &&& numeral(digits) matches Some(n)
    &&& n == 1 || n >= 65536
}

/// What is to be said of the cache of a sequence.
pub enum CacheSize {
    Missing,
    Wrong,
    Valid,
}

/// The cache of a sequence, by its options.
pub open spec fn cache_size(options: Seq<Node>) -> CacheSize {
    match cache_option(options) {
        None => CacheSize::Missing,
        Some(expr) => if valid_cache(expr) {
            CacheSize::Valid
        } else {
            CacheSize::Wrong
        },
    }
}

/// What is said against the options of a sequence: nothing, or that the cache has no size, or that
/// it has a wrong one.
pub open spec fn cache_findings(options: Seq<Node>, missing: Finding, wrong: Finding) -> Seq<
    Finding,
> {
    match cache_size(options) {
        CacheSize::Missing => seq![missing],
        CacheSize::Wrong => seq![wrong],
        CacheSize::Valid => Seq::empty(),
    }
}

/// What is said against an identity column that is no `BIGINT`.
pub open spec fn identity_type_finding() -> Finding {
    issue(
        LintRule::IdentityType,
        "Identity column of a type other than BIGINT is not supported in DSQL."@,
        "Use BIGINT for the identity column."@,
        Fix::Unfixable,
    )
}

/// What is said against an identity column without a cache size.
pub open spec fn identity_cache_missing_finding() -> Finding {
    issue(
        LintRule::IdentityCacheMissing,
        "An identity needs a CACHE clause in DSQL."@,
        "Add (CACHE 1) or (CACHE 65536) to the identity."@,
        Fix::Unfixable,
    )
}

/// What is said against an identity column with a wrong cache size.
pub open spec fn identity_cache_finding() -> Finding {
    issue(
        LintRule::IdentityCache,
        "The CACHE value of an identity must be 1 or at least 65536 in DSQL."@,
        "Use CACHE 1 or CACHE 65536."@,
        Fix::Unfixable,
    )
}

/// What is said against a column that is an identity.
pub open spec fn identity_findings(data_type: Node, option: Node) -> Seq<Finding> {
    (if big_int(data_type) {
        Seq::empty()
    } else {
        seq![identity_type_finding()]
    }) + cache_findings(
        items(field(payload(field(option, "option"@)), "sequence_options"@)),
        identity_cache_missing_finding(),
        identity_cache_finding(),
    )
}

/// What is said against an option of a column in `CREATE TABLE`.
pub open spec fn option_findings(data_type: Node, option: Node) -> Seq<Finding> {
    if is_foreign_key(option) {
        seq![foreign_key_finding()]
    } else if is_identity(option) {
        identity_findings(data_type, option)
    } else {
        Seq::empty()
    }
}

/// What is said against a column in `CREATE TABLE`.
pub open spec fn column_findings(column: Node) -> Seq<Finding> {
    let data_type = field(column, "data_type"@);
    type_findings(data_type, serial_fix()) + each(
        items(field(column, "options"@)),
        |option: Node| option_findings(data_type, option),
    )
}

/// What is said against an identity column in `ALTER TABLE ADD COLUMN`.
pub open spec fn added_identity_finding() -> Finding {
    issue(
        LintRule::AddColumnConstraint,
        "Identity columns are not supported in ALTER TABLE ADD COLUMN in DSQL."@,
        "Create a new table with the identity column and copy the data."@,
        Fix::Unfixable,
    )
}

/// What is said against a constraint in `ALTER TABLE ADD COLUMN`.
pub open spec fn added_constraint_finding() -> Finding {
    issue(
        LintRule::AddColumnConstraint,
        "ALTER TABLE ADD COLUMN with a default or a constraint is not supported in DSQL."@,
        "Add the column without defaults and constraints."@,
        Fix::Unfixable,
    )
}

/// Whether a column option is a default or a constraint that a column cannot be added with.
pub open spec fn is_constraint(option: Node) -> bool {
    let kind = field(option, "option"@);
    is_variant(kind, "NotNull"@) || is_variant(kind, "Default"@) || is_variant(kind, "Unique"@)
        || is_variant(kind, "PrimaryKey"@) || is_variant(kind, "Check"@)
}

/// What is said against an option of a column in `ALTER TABLE ADD COLUMN`.
pub open spec fn added_option_findings(option: Node) -> Seq<Finding> {
    if is_foreign_key(option) {
        seq![foreign_key_finding()]
    } else if is_identity(option) {
        seq![added_identity_finding()]
    } else if is_constraint(option) {
        seq![added_constraint_finding()]
    } else {
        Seq::empty()
    }
}

/// What is said against a column in `ALTER TABLE ADD COLUMN`.
pub open spec fn added_column_findings(column: Node) -> Seq<Finding> {
    type_findings(field(column, "data_type"@), Fix::Unfixable) + each(
        items(field(column, "options"@)),
        |option: Node| added_option_findings(option),
    )
}

/// A list of column options without its foreign keys.
pub open spec fn unreferenced(options: Node) -> Node {
    match options {
        Node::List(all) => Node::List(all.filter(|option: Node| !is_foreign_key(option))),
        _ => options,
    }
}

/// The data type of 64-bit integers.
pub open spec fn big_int_type() -> Node {
    Node::Record(seq![("BigInt"@, Node::Null)])
}

/// A place in a text.
pub open spec fn location() -> Node {
    Node::Record(seq![("line"@, Node::Number("0"@)), ("column"@, Node::Number("0"@))])
}

/// The number 1 as an expression.
pub open spec fn one() -> Node {
    Node::Record(
        seq![
            (
                "Value"@,
                Node::Record(
                    seq![
                        (
                            "value"@,
                            Node::Record(
                                seq![
                                    (
                                        "Number"@,
                                        Node::List(seq![Node::Text("1"@), Node::Flag(false)]),
                                    ),
                                ],
                            ),
                        ),
                        ("span"@, Node::Record(seq![("start"@, location()), ("end"@, location())])),
                    ],
                ),
            ),
        ],
    )
}

/// The column option `GENERATED BY DEFAULT AS IDENTITY (CACHE 1)`.
pub open spec fn identity_option() -> Node {
    Node::Record(
        seq![
            ("name"@, Node::Null),
            (
                "option"@,
                Node::Record(
                    seq![
                        (
                            "Generated"@,
                            Node::Record(
                                seq![
                                    ("generated_as"@, Node::Text("ByDefault"@)),
                                    (
                                        "sequence_options"@,
                                        Node::List(seq![Node::Record(seq![("Cache"@, one())])]),
                                    ),
                                    ("generation_expr"@, Node::Null),
                                    ("generation_expr_mode"@, Node::Null),
                                    ("generated_keyword"@, Node::Flag(true)),
                                ],
                            ),
                        ),
                    ],
                ),
            ),
        ],
    )
}

/// A list of column options with the identity in front.
pub open spec fn identified(options: Node) -> Node {
    match options {
        Node::List(all) => Node::List(seq![identity_option()] + all),
        _ => options,
    }
}

/// A column in `ALTER TABLE ADD COLUMN` once its foreign keys are gone.
pub open spec fn repaired_added_column(column: Node) -> Node {
    with_field(column, "options"@, unreferenced(field(column, "options"@)))
}

/// A column in `CREATE TABLE` once its foreign keys are gone and a serial type is replaced.
pub open spec fn repaired_column(column: Node) -> Node {
    let kept = unreferenced(field(column, "options"@));
    if serial_name(field(column, "data_type"@)) is Some {
        with_field(
            with_field(column, "data_type"@, big_int_type()),
            "options"@,
            identified(kept),
        )
    } else {
        with_field(column, "options"@, kept)
    }
}

/// The items of a list; none where the tree is not a list.
pub fn list_items(tree: &Tree) -> (r: Option<&Vec<Tree>>)
    ensures
        match r {
            Some(list) => tree@ == Node::List(item_nodes(list@)),
            None => items(tree@).len() == 0 && !(tree@ is List),
        },
{
    match tree {
        Tree::List(list) => Some(list),
        _ => None,
    }
}

/// The unquoted, unqualified name of a data type that the parser does not know.
fn read_custom_type_name(data_type: &Tree) -> (r: Option<&str>)
    ensures
        match r {
            Some(name) => custom_type_name(data_type@) == Some(name@),
            None => custom_type_name(data_type@) is None,
        },
{
    broadcast use lemma_item_nodes;

    if !data_type.is_variant("Custom") {
        return None;
    }
    match list_items(data_type.payload()) {
        Some(holder) => {
            if holder.len() == 0 {
                return None;
            }
            match list_items(&holder[0]) {
                Some(parts) => {
                    if parts.len() != 1 || !parts[0].is_variant("Identifier") {
                        return None;
                    }
                    let identifier = parts[0].payload();
                    match (identifier.field("quote_style"), identifier.field("value")) {
                        (Tree::Null, Tree::Text(name)) => Some(name.as_str()),
                        _ => None,
                    }
                },
                None => None,
            }
        },
        None => None,
    }
}

/// The name of a serial type, in upper case.
pub fn read_serial_name(data_type: &Tree) -> (r: Option<String>)
    ensures
        match r {
            Some(name) => serial_name(data_type@) == Some(name@),
            None => serial_name(data_type@) is None,
        },
{
    match read_custom_type_name(data_type) {
        Some(name) => {
            let name = to_upper(name);
            let known = same_text(name.as_str(), "SERIAL") || same_text(name.as_str(), "SERIAL4")
                || same_text(name.as_str(), "BIGSERIAL") || same_text(name.as_str(), "SERIAL8")
                || same_text(name.as_str(), "SMALLSERIAL") || same_text(name.as_str(), "SERIAL2");
            if known {
                Some(name)
            } else {
                None
            }
        },
        None => None,
    }
}

/// Checks the data type of a column.
fn check_type(data_type: &Tree, fix_result: FixResult, diagnostics: &mut Vec<Diagnostic>)
    ensures
        findings(final(diagnostics)@) == findings(old(diagnostics)@) + type_findings(
            data_type@,
            fix_result@,
        ),
{
    match read_serial_name(data_type) {
        Some(name) => {
            let mut message = name;
            message.append(" columns are not supported in DSQL.");
            report(
                diagnostics,
                LintRule::SerialType,
                message.as_str(),
                "Use BIGINT GENERATED BY DEFAULT AS IDENTITY (CACHE 1), or a UUID.",
                fix_result,
            );
        },
        None => {
            if data_type.is_variant("JSON") {
                report_json("JSON", diagnostics);
            } else if data_type.is_variant("JSONB") {
                report_json("JSONB", diagnostics);
            } else if data_type.is_variant("Array") {
                report(
                    diagnostics,
                    LintRule::ArrayType,
                    "Columns of an array type are not supported in DSQL.",
                    "Store the items in a table of their own.",
                    FixResult::Unfixable,
                );
            } else {
                assert(findings(diagnostics@) =~= findings(old(diagnostics)@) + type_findings(
                    data_type@,
                    fix_result@,
                ));
            }
        },
    }
}

fn report_json(name: &str, diagnostics: &mut Vec<Diagnostic>)
    ensures
        findings(final(diagnostics)@) == findings(old(diagnostics)@) + seq![json_finding(name@)],
{
    let mut message = name.to_owned();
    message.append(" columns are not supported in DSQL.");
    report(
        diagnostics,
        LintRule::JsonType,
        message.as_str(),
        "Store the document in a TEXT column.",
        FixResult::Unfixable,
    );
}

/// Reports a foreign key.
pub fn report_foreign_key(diagnostics: &mut Vec<Diagnostic>)
    ensures
        findings(final(diagnostics)@) == findings(old(diagnostics)@) + seq![foreign_key_finding()],
{
    report(
        diagnostics,
        LintRule::ForeignKey,
        "FOREIGN KEY constraints are not supported in DSQL.",
        "Remove the constraint and keep references intact in the application.",
        FixResult::FixedWithWarning(
            "Removed a FOREIGN KEY constraint. Keep references intact in the application.".to_owned(),
        ),
    );
}

/// Whether a column option is a foreign key.
fn check_foreign_key(option: &Tree) -> (r: bool)
    ensures
        r == is_foreign_key(option@),
{
    option.field("option").is_variant("ForeignKey")
}

/// Whether a column option makes an identity column.
fn check_identity(option: &Tree) -> (r: bool)
    ensures
        r == is_identity(option@),
{
    let kind = option.field("option");
    if !kind.is_variant("Generated") {
        return false;
    }
    let generated = kind.payload();
    let plain = match generated.field("generation_expr") {
        Tree::Null => true,
        _ => false,
    };
    let generated_as = generated.field("generated_as");
    plain && (generated_as.is_variant("Always") || generated_as.is_variant("ByDefault"))
}

/// Whether an expression is a size that a sequence's cache may have.
fn check_cache(expr: &Tree) -> (r: bool)
    ensures
        r == valid_cache(expr@),
{
    broadcast use lemma_item_nodes;

    let literal = expr.payload().field("value");
    if !expr.is_variant("Value") || !literal.is_variant("Number") {
        return false;
    }
    match list_items(literal.payload()) {
        Some(parts) => {
            if parts.len() == 0 {
                return false;
            }
            match &parts[0] {
                Tree::Text(digits) => match read_numeral(digits.as_str()) {
                    Some(n) => n == 1 || n >= 65536,
                    None => false,
                },
                _ => false,
            }
        },
        None => false,
    }
}

/// Judges the cache of a sequence by its options.
pub fn check_cache_option(options: &Tree) -> (r: CacheSize)
    ensures
        r == cache_size(items(options@)),
{
    match list_items(options) {
        Some(list) => {
            let ghost all = item_nodes(list@);
            let mut i: usize = list.len();
            assert(all.take(i as int) =~= all) by {
                lemma_item_nodes(list@);
            }
            while i > 0
                invariant
                    i <= list@.len(),
                    all == item_nodes(list@),
                    options@ == Node::List(all),
                    cache_option(all) == cache_option(all.take(i as int)),
                decreases i,
            {
                broadcast use lemma_item_nodes;

                let ghost k = i as int;
                i -= 1;
                assert(all.take(k).last() == list@[i as int]@);
                assert(all.take(k).drop_last() =~= all.take(i as int));
                if list[i].is_variant("Cache") {
                    return if check_cache(list[i].payload()) {
                        CacheSize::Valid
                    } else {
                        CacheSize::Wrong
                    };
                }
            }
            CacheSize::Missing
        },
        None => CacheSize::Missing,
    }
}

/// Checks a column that is an identity.
fn check_identity_column(data_type: &Tree, option: &Tree, diagnostics: &mut Vec<Diagnostic>)
    ensures
        findings(final(diagnostics)@) == findings(old(diagnostics)@) + identity_findings(
            data_type@,
            option@,
        ),
{
    let ghost before = findings(diagnostics@);
    if !data_type.is_variant("BigInt") && !data_type.is_variant("Int8") {
        report(
            diagnostics,
            LintRule::IdentityType,
            "Identity column of a type other than BIGINT is not supported in DSQL.",
            "Use BIGINT for the identity column.",
            FixResult::Unfixable,
        );
    }
    let options = option.field("option").payload().field("sequence_options");
    match check_cache_option(options) {
        CacheSize::Missing => {
            report(
                diagnostics,
                LintRule::IdentityCacheMissing,
                "An identity needs a CACHE clause in DSQL.",
                "Add (CACHE 1) or (CACHE 65536) to the identity.",
                FixResult::Unfixable,
            );
        },
        CacheSize::Wrong => {
            report(
                diagnostics,
                LintRule::IdentityCache,
                "The CACHE value of an identity must be 1 or at least 65536 in DSQL.",
                "Use CACHE 1 or CACHE 65536.",
                FixResult::Unfixable,
            );
        },
        CacheSize::Valid => {},
    }
    assert(findings(diagnostics@) =~= before + identity_findings(data_type@, option@));
}

/// Checks a column in `CREATE TABLE`.
pub fn check_column(column: &Tree, diagnostics: &mut Vec<Diagnostic>)
    ensures
        findings(final(diagnostics)@) == findings(old(diagnostics)@) + column_findings(column@),
{
    let data_type = column.field("data_type");
    check_type(
        data_type,
        FixResult::FixedWithWarning(
            "Replaced the serial type with BIGINT GENERATED BY DEFAULT AS IDENTITY (CACHE 1). Check that a 64-bit identity column fits.".to_owned(),
        ),
        diagnostics,
    );
    let ghost before = findings(diagnostics@);
    let ghost of = |option: Node| option_findings(data_type@, option);
    assert(before =~= before + each(Seq::empty(), of));
    if let Some(options) = list_items(column.field("options")) {
        let ghost all = item_nodes(options@);
        let mut i: usize = 0;
        assert(all.take(0) =~= Seq::empty());
        while i < options.len()
            invariant
                i <= options@.len(),
                all == item_nodes(options@),
                of == (|option: Node| option_findings(data_type@, option)),
                findings(diagnostics@) == before + each(all.take(i as int), of),
            decreases options@.len() - i,
        {
            broadcast use lemma_item_nodes;

            let option = &options[i];
            let ghost done = findings(diagnostics@);
            assert(all.take(i + 1).drop_last() =~= all.take(i as int));
            assert(all.take(i + 1).last() == option@);
            if check_foreign_key(option) {
                report_foreign_key(diagnostics);
            } else if check_identity(option) {
                check_identity_column(data_type, option, diagnostics);
            } else {
                assert(done =~= done + option_findings(data_type@, option@));
            }
            i += 1;
            assert(findings(diagnostics@) =~= before + each(all.take(i as int), of));
        }
        assert(all.take(i as int) =~= all) by {
            lemma_item_nodes(options@);
        }
    } else {
        assert(items(field(column@, "options"@)) =~= Seq::empty());
    }
    assert(findings(diagnostics@) =~= findings(old(diagnostics)@) + column_findings(column@));
}

/// Checks a column in `ALTER TABLE ADD COLUMN`.
pub fn check_added_column(column: &Tree, diagnostics: &mut Vec<Diagnostic>)
    ensures
        findings(final(diagnostics)@) == findings(old(diagnostics)@) + added_column_findings(
            column@,
        ),
{
    check_type(column.field("data_type"), FixResult::Unfixable, diagnostics);
    let ghost before = findings(diagnostics@);
    let ghost of = |option: Node| added_option_findings(option);
    assert(before =~= before + each(Seq::empty(), of));
    if let Some(options) = list_items(column.field("options")) {
        let ghost all = item_nodes(options@);
        let mut i: usize = 0;
        assert(all.take(0) =~= Seq::empty());
        while i < options.len()
            invariant
                i <= options@.len(),
                all == item_nodes(options@),
                of == (|option: Node| added_option_findings(option)),
                findings(diagnostics@) == before + each(all.take(i as int), of),
            decreases options@.len() - i,
        {
            broadcast use lemma_item_nodes;

            let option = &options[i];
            let ghost done = findings(diagnostics@);
            assert(all.take(i + 1).drop_last() =~= all.take(i as int));
            assert(all.take(i + 1).last() == option@);
            check_added_option(option, diagnostics);
            i += 1;
            assert(findings(diagnostics@) =~= before + each(all.take(i as int), of));
        }
        assert(all.take(i as int) =~= all) by {
            lemma_item_nodes(options@);
        }
    } else {
        assert(items(field(column@, "options"@)) =~= Seq::empty());
    }
    assert(findings(diagnostics@) =~= findings(old(diagnostics)@) + added_column_findings(column@));
}

/// Checks an option of a column in `ALTER TABLE ADD COLUMN`.
fn check_added_option(option: &Tree, diagnostics: &mut Vec<Diagnostic>)
    ensures
        findings(final(diagnostics)@) == findings(old(diagnostics)@) + added_option_findings(
            option@,
        ),
{
    let kind = option.field("option");
    if check_foreign_key(option) {
        report_foreign_key(diagnostics);
    } else if check_identity(option) {
        report(
            diagnostics,
            LintRule::AddColumnConstraint,
            "Identity columns are not supported in ALTER TABLE ADD COLUMN in DSQL.",
            "Create a new table with the identity column and copy the data.",
            FixResult::Unfixable,
        );
    } else if kind.is_variant("NotNull") || kind.is_variant("Default") || kind.is_variant("Unique")
        || kind.is_variant("PrimaryKey") || kind.is_variant("Check") {
        report(
            diagnostics,
            LintRule::AddColumnConstraint,
            "ALTER TABLE ADD COLUMN with a default or a constraint is not supported in DSQL.",
            "Add the column without defaults and constraints.",
            FixResult::Unfixable,
        );
    } else {
        assert(findings(diagnostics@) =~= findings(old(diagnostics)@) + added_option_findings(
            option@,
        ));
    }
}

/// Removes the foreign keys among column options.
fn remove_foreign_keys(options: Tree) -> (r: Tree)
    ensures
        r@ == unreferenced(options@),
{
    match options {
        Tree::List(list) => {
            let ghost all = item_nodes(list@);
            let ghost given = list@;
            let ghost kind = |option: Node| !is_foreign_key(option);
            let mut kept: Vec<Tree> = Vec::new();
            proof {
                reveal(Seq::filter);
                assert(item_nodes(kept@) =~= all.take(0).filter(kind));
            }
            for option in it: list
                invariant
                    it.seq() == given,
                    0 <= it.index() <= given.len(),
                    all == item_nodes(given),
                    kind == (|option: Node| !is_foreign_key(option)),
                    item_nodes(kept@) == all.take(it.index() as int).filter(kind),
            {
                broadcast use lemma_item_nodes;

                let ghost k = it.index() as int;
                let ghost before = kept@;
                proof {
                    reveal(Seq::filter);
                    assert(all.take(k + 1).drop_last() =~= all.take(k));
                    assert(all.take(k + 1).last() == option@);
                }
                if !check_foreign_key(&option) {
                    kept.push(option);
                    assert(item_nodes(kept@) =~= item_nodes(before).push(option@));
                }
            }
            assert(all.take(given.len() as int) =~= all) by {
                lemma_item_nodes(given);
            }
            let r = Tree::List(kept);
            assert(r@ == Node::List(item_nodes(kept@)));
            r
        },
        other => other,
    }
}

/// The number 1 as an expression.
fn make_one() -> (r: Tree)
    ensures
        r@ == one(),
{
    let digits = Tree::Text("1".to_owned());
    let long = Tree::Flag(false);
    assert(digits@ == Node::Text("1"@));
    assert(long@ == Node::Flag(false));
    let span = extended(record("start", make_location()), "end", make_location());
    assert(span@->Record_0 =~= seq![("start"@, location()), ("end"@, location())]);
    let number = record("Number", pair(digits, long));
    let value = extended(record("value", number), "span", span);
    assert(value@->Record_0 =~= seq![("value"@, number@), ("span"@, span@)]);
    record("Value", value)
}

/// The column option `GENERATED BY DEFAULT AS IDENTITY (CACHE 1)`.
fn make_identity_option() -> (r: Tree)
    ensures
        r@ == identity_option(),
{
    let by_default = Tree::Text("ByDefault".to_owned());
    let keyword = Tree::Flag(true);
    let absent = Tree::Null;
    assert(by_default@ == Node::Text("ByDefault"@));
    assert(keyword@ == Node::Flag(true));
    assert(absent@ == Node::Null);
    let cache = singleton(record("Cache", make_one()));
    let kind = extended(record("generated_as", by_default), "sequence_options", cache);
    let plain = extended(kind, "generation_expr", Tree::Null);
    let stored = extended(plain, "generation_expr_mode", Tree::Null);
    let generated = extended(stored, "generated_keyword", keyword);
    assert(generated@->Record_0 =~= seq![
        ("generated_as"@, Node::Text("ByDefault"@)),
        ("sequence_options"@, cache@),
        ("generation_expr"@, Node::Null),
        ("generation_expr_mode"@, Node::Null),
        ("generated_keyword"@, Node::Flag(true)),
    ]);
    let option = record("Generated", generated);
    let r = extended(record("name", absent), "option", option);
    assert(r@->Record_0 =~= seq![("name"@, Node::Null), ("option"@, option@)]);
    r
}

fn make_location() -> (r: Tree)
    ensures
        r@ == location(),
{
    let line = Tree::Number("0".to_owned());
    let column = Tree::Number("0".to_owned());
    assert(line@ == Node::Number("0"@));
    assert(column@ == Node::Number("0"@));
    let r = extended(record("line", line), "column", column);
    assert(r@->Record_0 =~= seq![
        ("line"@, Node::Number("0"@)),
        ("column"@, Node::Number("0"@)),
    ]);
    r
}

/// Puts the identity in front of column options.
fn add_identity(options: Tree) -> (r: Tree)
    ensures
        r@ == identified(options@),
{
    broadcast use lemma_item_nodes;

    match options {
        Tree::List(list) => {
            let mut list = list;
            let ghost before = list@;
            list.insert(0, make_identity_option());
            let r = Tree::List(list);
            assert(r@ == Node::List(item_nodes(list@)));
            assert(item_nodes(list@) =~= seq![identity_option()] + item_nodes(before));
            r
        },
        other => other,
    }
}

/// Repairs a column in `ALTER TABLE ADD COLUMN`.
pub fn repair_added_column(column: &mut Tree)
    ensures
        final(column)@ == repaired_added_column(old(column)@),
{
    broadcast use lemma_with_field;

    let options = column.take_field("options");
    column.set_field("options", remove_foreign_keys(options));
}

/// Repairs a column in `CREATE TABLE`.
pub fn repair_column(column: &mut Tree)
    ensures
        final(column)@ == repaired_column(old(column)@),
{
    broadcast use lemma_with_field;

    let ghost before = column@;
    match read_serial_name(column.field("data_type")) {
        Some(_) => {
            let absent = Tree::Null;
            assert(absent@ == Node::Null);
            column.set_field("data_type", record("BigInt", absent));
            let options = column.take_field("options");
            proof {
                reveal_strlit("data_type");
                reveal_strlit("options");
                assert("data_type"@.len() != "options"@.len());
                lemma_field_of_with_field(before, "data_type"@, big_int_type(), "options"@);
            }
            column.set_field("options", add_identity(remove_foreign_keys(options)));
        },
        None => {
            repair_added_column(column);
        },
    }
}

} // verus!
