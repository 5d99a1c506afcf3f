//! The parts that linting and fixing are made of.

use dsql_lint::dialect::{parse_sql, print_statement};
use dsql_lint::lint::{assemble, fix_parsed, lint_parsed};
use dsql_lint::location::{line_byte_offsets, loc_to_byte};
use dsql_lint::preview::make_preview;
use dsql_lint::printable::is_printable;
use dsql_lint::rules::check_statement;
use dsql_lint::split::{split_statements, split_tokens, Place, TokenKind, TokenSpan};
use dsql_lint::syntax::{write_json, Tree};
use dsql_lint::text::{decimal_text, read_numeral, to_upper, trim, trim_semicolons};
use dsql_lint::transaction::{
    check_ddl_transactions, fix_ddl_transactions, is_begin, is_commit, is_ddl, is_txn_end,
    regroup_transactions,
};
use dsql_lint::{fix_sql, lint_sql, Diagnostic, FixResult, LintRule};

fn rules_of(sql: &str) -> Vec<LintRule> {
    lint_sql(sql).iter().map(|d| d.rule).collect()
}

fn parse_one(sql: &str) -> Tree {
    let mut trees = parse_sql(sql).unwrap();
    assert_eq!(trees.len(), 1);
    trees.pop().unwrap()
}

#[test]
fn lines_and_columns_become_bytes() {
    let text = "a\u{e9}\nb\u{1f600}c\n";
    let offsets = line_byte_offsets(text);
    assert_eq!(offsets, vec![0, 4, 11]);
    assert_eq!(loc_to_byte(text, &offsets, 1, 1), 0);
    assert_eq!(loc_to_byte(text, &offsets, 1, 3), 3);
    assert_eq!(loc_to_byte(text, &offsets, 2, 2), 5);
    assert_eq!(loc_to_byte(text, &offsets, 2, 3), 9);
    assert_eq!(loc_to_byte(text, &offsets, 3, 1), 11);
    // A place behind the text is its end, and a line that is not there starts at 0.
    assert_eq!(loc_to_byte(text, &offsets, 3, 9), 11);
    assert_eq!(loc_to_byte(text, &offsets, 9, 2), 1);
    assert_eq!(line_byte_offsets(""), vec![0]);
}

#[test]
fn statements_are_split_at_semicolons_alone() {
    let sql = "SELECT ';' ; -- a;b\nSELECT /* ; */ 2\n\n  ;;\nSELECT 3";
    let parts = split_statements(sql).unwrap();
    assert_eq!(
        parts,
        vec![
            (1, "SELECT ';'".to_string()),
            (2, "SELECT /* ; */ 2".to_string()),
            (5, "SELECT 3".to_string()),
        ]
    );
}

#[test]
fn statements_end_at_their_last_token() {
    for sql in ["SELECT 1/*c*/;", "SELECT 1--c\n;", "SELECT 1", "SELECT 1 ;", " SELECT 1;"] {
        let parts = split_statements(sql).unwrap();
        assert_eq!(parts, vec![(1, "SELECT 1".to_string())], "{sql}");
        assert!(lint_sql(sql).is_empty(), "{sql}");
        assert_eq!(fix_sql(sql).sql, "SELECT 1;\n", "{sql}");
    }
    let parts = split_statements("SELECT '\u{e9}';SELECT \"\u{1f600}\"").unwrap();
    assert_eq!(
        parts,
        vec![
            (1, "SELECT '\u{e9}'".to_string()),
            (1, "SELECT \"\u{1f600}\"".to_string()),
        ]
    );
}

#[test]
fn texts_without_tokens_have_no_statements() {
    assert!(split_statements("SELECT 'open").is_err());
    let diags = lint_sql("SELECT 'open");
    assert_eq!(diags.len(), 1);
    assert_eq!(diags[0].rule, LintRule::ParseError);
    assert!(diags[0].message.starts_with("Failed to tokenize SQL: "));
    let out = fix_sql("SELECT 'open");
    assert_eq!(out.sql, "SELECT 'open");
    assert_eq!(out.diagnostics.len(), 1);
}

#[test]
fn empty_input_is_clean() {
    assert!(lint_sql("").is_empty());
    assert!(lint_sql(" ;; -- nothing\n").is_empty());
    assert_eq!(fix_sql("").sql, "");
}

#[test]
fn tokens_decide_the_split() {
    let place = |column: u64| Place { line: 1, column };
    let token = |kind: TokenKind, from: u64, to: u64| TokenSpan {
        kind,
        start: place(from),
        end: place(to),
    };
    let tokens = vec![
        token(TokenKind::Word, 1, 3),
        token(TokenKind::Semicolon, 3, 4),
        token(TokenKind::Space, 4, 5),
        token(TokenKind::Word, 5, 7),
    ];
    let parts = split_tokens("ab; cd", &tokens);
    assert_eq!(parts, vec![(1, "ab".to_string()), (1, "cd".to_string())]);
}

#[test]
fn previews_are_short_and_on_one_line() {
    assert_eq!(make_preview("  SELECT\n\t1 ;"), "SELECT 1 ;");
    let exact = "x".repeat(80);
    assert_eq!(make_preview(&exact), exact);
    let long = "y".repeat(81);
    assert_eq!(make_preview(&long), format!("{}\u{2026}", "y".repeat(80)));
    assert_eq!(make_preview(""), "");
}

#[test]
fn numbers_are_read_and_written() {
    assert_eq!(decimal_text(0), "0");
    assert_eq!(decimal_text(65536), "65536");
    assert_eq!(read_numeral("0065536"), Some(65536));
    assert_eq!(
        read_numeral("99999999999999999999999999"),
        Some(usize::MAX)
    );
    assert_eq!(read_numeral(""), None);
    assert_eq!(read_numeral("1.5"), None);
    assert_eq!(to_upper("bigSerial\u{e9}1"), "BIGSERIAL\u{e9}1");
}

#[test]
fn texts_are_trimmed() {
    assert_eq!(trim(" \u{3000}a b\n"), "a b");
    assert_eq!(trim("\t"), "");
    assert_eq!(trim_semicolons("a;;"), "a");
    assert_eq!(trim_semicolons(";a; "), ";a; ");
}

#[test]
fn rule_names_are_their_own() {
    let all = LintRule::all();
    assert_eq!(all.len(), 28);
    for (i, a) in all.iter().enumerate() {
        for b in all.iter().skip(i + 1) {
            assert_ne!(a, b);
            assert_ne!(a.name(), b.name());
        }
    }
    assert_eq!(
        LintRule::UnsupportedAlterTableOp.name(),
        "unsupported_alter_table_op"
    );
    assert_eq!(LintRule::MultiDdlTransaction.name(), "multi_ddl_transaction");
}

#[test]
fn each_rule_can_fire() {
    let cases: Vec<(LintRule, &str)> = vec![
        (LintRule::SerialType, "CREATE TABLE t (id serial)"),
        (LintRule::JsonType, "CREATE TABLE t (d JSONB)"),
        (LintRule::ArrayType, "CREATE TABLE t (d INT[])"),
        (
            LintRule::ForeignKey,
            "CREATE TABLE t (d INT REFERENCES u(d))",
        ),
        (LintRule::TempTable, "CREATE TEMP TABLE t (d INT)"),
        (
            LintRule::PartitionBy,
            "CREATE TABLE t (d DATE) PARTITION BY RANGE (d)",
        ),
        (LintRule::Inherits, "CREATE TABLE t (d INT) INHERITS (p)"),
        (LintRule::CreateTableAs, "CREATE TABLE t AS SELECT 1 AS d"),
        (
            LintRule::Tablespace,
            "CREATE TABLE t (d INT) TABLESPACE s",
        ),
        (
            LintRule::IdentityType,
            "CREATE TABLE t (d INT GENERATED ALWAYS AS IDENTITY (CACHE 1))",
        ),
        (
            LintRule::IdentityCache,
            "CREATE TABLE t (d BIGINT GENERATED ALWAYS AS IDENTITY (CACHE 7))",
        ),
        (
            LintRule::IdentityCacheMissing,
            "CREATE TABLE t (d BIGINT GENERATED ALWAYS AS IDENTITY)",
        ),
        (LintRule::IndexAsync, "CREATE INDEX i ON t(d)"),
        (
            LintRule::IndexConcurrently,
            "CREATE INDEX CONCURRENTLY i ON t(d)",
        ),
        (
            LintRule::IndexUsing,
            "CREATE INDEX ASYNC i ON t USING gin (d)",
        ),
        (
            LintRule::IndexExpression,
            "CREATE INDEX ASYNC i ON t (lower(d))",
        ),
        (
            LintRule::IndexPartial,
            "CREATE INDEX ASYNC i ON t(d) WHERE d > 0",
        ),
        (LintRule::Truncate, "TRUNCATE t"),
        (LintRule::SequenceType, "CREATE SEQUENCE s AS INT CACHE 1"),
        (LintRule::SequenceCache, "CREATE SEQUENCE s CACHE 65535"),
        (LintRule::SequenceCacheMissing, "CREATE SEQUENCE s"),
        (
            LintRule::AddColumnConstraint,
            "ALTER TABLE t ADD COLUMN d INT NOT NULL",
        ),
        (
            LintRule::TransactionIsolation,
            "BEGIN ISOLATION LEVEL SERIALIZABLE",
        ),
        (
            LintRule::SetTransaction,
            "SET TRANSACTION ISOLATION LEVEL SERIALIZABLE",
        ),
        (
            LintRule::UnsupportedAlterTableOp,
            "ALTER TABLE t DROP COLUMN d",
        ),
        (LintRule::UnsupportedStatement, "VACUUM"),
        (LintRule::ParseError, "NOT SQL"),
    ];
    for (rule, sql) in cases {
        assert_eq!(rules_of(sql), vec![rule], "{sql}");
    }
    assert_eq!(
        rules_of("BEGIN; DROP TABLE a; DROP TABLE b; COMMIT;"),
        vec![LintRule::MultiDdlTransaction]
    );
}

#[test]
fn quoted_and_qualified_names_are_no_serial_types() {
    assert!(lint_sql("CREATE TABLE t (a \"serial\", b app.serial)").is_empty());
}

#[test]
fn wide_identities_are_accepted() {
    assert!(
        lint_sql("CREATE TABLE t (a INT8 GENERATED ALWAYS AS IDENTITY (CACHE 65536))").is_empty()
    );
    assert!(lint_sql("CREATE TABLE t (a INT GENERATED ALWAYS AS (b * 2) STORED)").is_empty());
}

#[test]
fn repairs_leave_only_what_cannot_be_repaired() {
    let sql = "CREATE TABLE t (a SERIAL, b JSON, c INT REFERENCES d(e), FOREIGN KEY (a) REFERENCES d(f))";
    let mut tree = parse_one(sql);
    let mut before: Vec<Diagnostic> = Vec::new();
    check_statement(&mut tree, &mut before);
    assert_eq!(before.len(), 4);
    let mut after: Vec<Diagnostic> = Vec::new();
    check_statement(&mut tree, &mut after);
    assert_eq!(after.len(), 1);
    assert_eq!(after[0].rule, LintRule::JsonType);
    assert_eq!(after[0].fix_result, FixResult::Unfixable);
    let fixed = print_statement(&tree).unwrap();
    assert!(!fixed.contains("REFERENCES"), "{fixed}");
    assert!(
        fixed.contains("a BIGINT GENERATED BY DEFAULT AS IDENTITY"),
        "{fixed}"
    );
}

#[test]
fn unreported_statements_are_not_changed() {
    for sql in [
        "CREATE TABLE t (a JSON)",
        "ALTER TABLE t DROP COLUMN a",
        "CREATE INDEX ASYNC i ON t(a)",
        "SELECT 1",
    ] {
        let mut tree = parse_one(sql);
        let before = write_json(&tree);
        let mut found: Vec<Diagnostic> = Vec::new();
        check_statement(&mut tree, &mut found);
        assert_eq!(write_json(&tree), before, "{sql}");
    }
}

#[test]
fn statements_print_as_they_were_parsed() {
    let tree = parse_one("select   a.b , 'it''s' from t where x=1");
    assert_eq!(
        print_statement(&tree).unwrap(),
        "SELECT\n  a.b,\n  'it''s'\nFROM\n  t\nWHERE\n  x = 1"
    );
    assert!(print_statement(&Tree::Null).is_none());
}

#[test]
fn trees_are_written_in_json() {
    let tree = Tree::Record(vec![
        ("a".to_string(), Tree::List(vec![Tree::Null, Tree::Flag(true)])),
        ("b\"\n".to_string(), Tree::Number("12".to_string())),
        ("c".to_string(), Tree::Text("\\ \u{1} \u{e9}".to_string())),
    ]);
    assert_eq!(
        write_json(&tree),
        "{\"a\":[null,true],\"b\\\"\\u000a\":12,\"c\":\"\\\\ \\u0001 \u{e9}\"}"
    );
}

#[test]
fn statements_have_a_part_in_transactions() {
    assert!(is_begin(&parse_one("BEGIN")));
    assert!(is_begin(&parse_one("START TRANSACTION")));
    let commit = parse_one("COMMIT");
    assert!(is_commit(&commit) && is_txn_end(&commit));
    let rollback = parse_one("ROLLBACK");
    assert!(is_txn_end(&rollback) && !is_commit(&rollback));
    for sql in [
        "CREATE TABLE t (a INT)",
        "CREATE VIEW v AS SELECT 1",
        "CREATE SCHEMA s",
        "DROP TABLE t",
        "ALTER TABLE t ADD COLUMN a INT",
        "TRUNCATE t",
    ] {
        assert!(is_ddl(&parse_one(sql)), "{sql}");
    }
    assert!(!is_ddl(&parse_one("SELECT 1")));
}

#[test]
fn transactions_are_split_by_their_ddl() {
    let sql = "BEGIN;\nINSERT INTO a VALUES (1);\nDROP TABLE a;\nBEGIN;\nDROP TABLE b;\nINSERT INTO c VALUES (1);\nCOMMIT;\nSELECT 1;";
    let out = fix_sql(sql);
    assert_eq!(
        out.sql,
        "BEGIN;\n\nINSERT INTO a VALUES (1);\n\nCOMMIT;\n\nBEGIN;\n\nDROP TABLE a;\n\nCOMMIT;\n\nBEGIN;\n\nDROP TABLE b;\n\nCOMMIT;\n\nBEGIN;\n\nINSERT INTO c VALUES (1);\n\nCOMMIT;\n\nSELECT 1;\n"
    );
    assert_eq!(out.diagnostics.len(), 1);
    let d = &out.diagnostics[0];
    assert_eq!(d.rule, LintRule::MultiDdlTransaction);
    assert_eq!(d.line, 1);
    assert!(d.message.contains("2 DDL statements"));
    assert!(matches!(d.fix_result, FixResult::FixedWithWarning(_)));
    assert!(lint_sql(&out.sql).is_empty());
    assert_eq!(fix_sql(&out.sql).sql, out.sql);
}

#[test]
fn transactions_that_are_not_committed_stay() {
    for sql in [
        "BEGIN;\n\nDROP TABLE a;\n\nDROP TABLE b;\n\nROLLBACK;\n",
        "BEGIN;\n\nDROP TABLE a;\n\nDROP TABLE b;\n",
        "BEGIN;\n\nDROP TABLE a;\n\nSELECT 1;\n\nCOMMIT;\n",
    ] {
        let out = fix_sql(sql);
        assert_eq!(out.sql, sql);
        assert!(out.diagnostics.is_empty());
    }
}

#[test]
fn transactions_that_cannot_be_parsed_stay() {
    let out = fix_sql("BEGIN; DROP TABLE a; NOT SQL; DROP TABLE b; COMMIT;");
    assert_eq!(
        out.sql,
        "BEGIN;\n\nDROP TABLE a;\n\nNOT SQL;\n\nDROP TABLE b;\n\nCOMMIT;\n"
    );
    assert_eq!(out.diagnostics.len(), 2);
    assert!(out.diagnostics[0]
        .message
        .starts_with("Failed to parse SQL: "));
    assert!(out.diagnostics[1]
        .message
        .starts_with("Cannot parse statement inside transaction: "));
    assert!(out.diagnostics[1]
        .message
        .ends_with(". Skipping auto-fix for this transaction block."));
}

#[test]
fn parses_decide_the_regrouping() {
    let parts: Vec<(usize, String)> = ["BEGIN", "one", "two", "COMMIT"]
        .iter()
        .enumerate()
        .map(|(i, text)| (i + 1, text.to_string()))
        .collect();
    let name = |text: &str| Ok(vec![Tree::Text(text.to_string())]);
    let parsed = vec![
        name("StartTransaction"),
        name("CreateTable"),
        name("CreateIndex"),
        name("Commit"),
    ];
    let mut diagnostics: Vec<Diagnostic> = Vec::new();
    let out = regroup_transactions(&parts, &parsed, &mut diagnostics);
    let texts: Vec<&str> = out.iter().map(|part| part.1.as_str()).collect();
    assert_eq!(
        texts,
        vec!["BEGIN", "one", "COMMIT", "BEGIN", "two", "COMMIT"]
    );
    assert_eq!(diagnostics.len(), 1);
}

#[test]
fn parses_decide_what_is_said_and_fixed() {
    let truncate = || Ok(vec![Tree::Text("Truncate".to_string())]);
    let mut diagnostics: Vec<Diagnostic> = Vec::new();
    lint_parsed(7, "some text;", truncate(), &mut diagnostics);
    assert_eq!(diagnostics.len(), 1);
    assert_eq!(diagnostics[0].rule, LintRule::Truncate);
    assert_eq!(diagnostics[0].line, 7);
    assert_eq!(diagnostics[0].statement, "some text;");
    let mut parts: Vec<(usize, String)> = Vec::new();
    fix_parsed(7, "some text;", truncate(), &mut parts, &mut diagnostics);
    fix_parsed(8, "bad;", Err("why".to_string()), &mut parts, &mut diagnostics);
    fix_parsed(9, "none", Ok(Vec::new()), &mut parts, &mut diagnostics);
    assert_eq!(parts, vec![(7, "some text".to_string()), (8, "bad".to_string())]);
    assert_eq!(diagnostics.len(), 3);
    assert_eq!(diagnostics[2].message, "Failed to parse SQL: why");
    assert_eq!(assemble(&parts), "some text;\n\nbad;\n");
}

#[test]
fn diagnostics_name_the_line_of_their_statement() {
    let sql = "SELECT 1;\n\n\nTRUNCATE a;\n-- note\nTRUNCATE b;";
    let lines: Vec<usize> = lint_sql(sql).iter().map(|d| d.line).collect();
    assert_eq!(lines, vec![4, 6]);
    let fixed: Vec<usize> = fix_sql(sql).diagnostics.iter().map(|d| d.line).collect();
    assert_eq!(fixed, vec![4, 6]);
}

#[test]
fn several_rules_speak_of_one_statement() {
    assert_eq!(
        rules_of("CREATE INDEX i ON t(lower(a)) WHERE a > 0"),
        vec![
            LintRule::IndexAsync,
            LintRule::IndexExpression,
            LintRule::IndexPartial,
        ]
    );
    assert_eq!(
        rules_of("ALTER TABLE t ADD COLUMN a SERIAL NOT NULL"),
        vec![LintRule::SerialType, LintRule::AddColumnConstraint]
    );
}

/// Puts what `value` makes into every field of this name.
fn replace(tree: &mut Tree, name: &str, value: &dyn Fn() -> Tree) {
    match tree {
        Tree::List(items) => {
            for item in items.iter_mut() {
                replace(item, name, value);
            }
        }
        Tree::Record(fields) => {
            for (key, field) in fields.iter_mut() {
                if key == name {
                    *field = value();
                } else {
                    replace(field, name, value);
                }
            }
        }
        _ => {}
    }
}

/// The statement with a field replaced.
fn with(sql: &str, name: &str, value: &dyn Fn() -> Tree) -> Tree {
    let mut tree = parse_one(sql);
    assert!(is_printable(&tree), "{sql}");
    assert!(print_statement(&tree).is_some(), "{sql}");
    replace(&mut tree, name, value);
    tree
}

fn text(s: &str) -> Tree {
    Tree::Text(s.to_string())
}

#[test]
fn identifiers_are_printed_in_quotes_that_are_some() {
    let quoted = |mark: &str| {
        let tree = with("SAVEPOINT a", "quote_style", &|| text(mark));
        assert_eq!(is_printable(&tree), print_statement(&tree).is_some());
        print_statement(&tree)
    };
    assert_eq!(quoted("\""), Some("SAVEPOINT \"a\"".to_string()));
    assert_eq!(quoted("'"), Some("SAVEPOINT 'a'".to_string()));
    assert_eq!(quoted("`"), Some("SAVEPOINT `a`".to_string()));
    assert_eq!(quoted("["), Some("SAVEPOINT [a]".to_string()));
    assert_eq!(quoted("x"), None);
    assert_eq!(quoted("]"), None);
    let bare = with("SAVEPOINT \"a\"", "quote_style", &|| Tree::Null);
    assert_eq!(print_statement(&bare), Some("SAVEPOINT a".to_string()));
}

#[test]
fn identifiers_may_be_lists() {
    let place = || Tree::List(vec![number("1"), number("1")]);
    let listed = |mark: &str| {
        let tree = with("SAVEPOINT a", "name", &|| {
            Tree::List(vec![
                text("b"),
                text(mark),
                Tree::List(vec![place(), place()]),
            ])
        });
        print_statement(&tree)
    };
    assert_eq!(listed("\""), Some("SAVEPOINT \"b\"".to_string()));
    assert_eq!(listed("x"), None);
}

fn number(digits: &str) -> Tree {
    Tree::Number(digits.to_string())
}

#[test]
fn intervals_of_seconds_end_there() {
    let sql = "SELECT INTERVAL '1' SECOND (2, 3)";
    assert_eq!(
        print_statement(&with(sql, "last_field", &|| Tree::Null)),
        Some("SELECT\n  INTERVAL '1' SECOND (2, 3)".to_string())
    );
    assert_eq!(
        print_statement(&with(sql, "last_field", &|| text("Second"))),
        None
    );
    assert!(print_statement(&parse_one("SELECT INTERVAL '1' HOUR TO SECOND")).is_some());
}

#[test]
fn limits_by_expressions_have_a_limit() {
    let sql = "SELECT a FROM t LIMIT 5";
    let column = || Tree::List(vec![named("Identifier", identifier("a"))]);
    let mut tree = with(sql, "limit_by", &column);
    assert!(print_statement(&tree).is_some());
    replace(&mut tree, "limit", &|| Tree::Null);
    assert!(!is_printable(&tree));
    assert_eq!(print_statement(&tree), None);
    assert!(print_statement(&with(sql, "limit", &|| Tree::Null)).is_some());
}

fn named(name: &str, value: Tree) -> Tree {
    Tree::Record(vec![(name.to_string(), value)])
}

fn identifier(name: &str) -> Tree {
    let mut savepoint = parse_one("SAVEPOINT a");
    replace(&mut savepoint, "value", &|| text(name));
    let Tree::Record(mut fields) = savepoint else {
        panic!("a savepoint is a record");
    };
    let Tree::Record(mut fields) = fields.pop().unwrap().1 else {
        panic!("what it holds is a record");
    };
    fields.pop().unwrap().1
}

#[test]
fn numbers_are_integers() {
    for digits in ["0", "12", "-3"] {
        assert!(is_printable(&number(digits)), "{digits}");
    }
    for digits in ["", "-", "1.5", "1e3", "null", "1,\"quote_style\":\"x\""] {
        assert!(!is_printable(&number(digits)), "{digits}");
    }
    let tree = with("SAVEPOINT a", "line", &|| number("1.5"));
    assert_eq!(print_statement(&tree), None);
}

#[test]
fn newlines_in_front_move_the_lines() {
    let sql = "CREATE INDEX i ON t(a);\nBEGIN;\nDROP TABLE a;\n\nDROP TABLE b; COMMIT;\nNOT SQL;";
    let base = lint_sql(sql);
    assert_eq!(base.len(), 3);
    let parts = split_statements(sql).unwrap();
    for k in [0, 1, 7] {
        let further = split_statements(&format!("{}{}", "\n".repeat(k), sql)).unwrap();
        let expected: Vec<(usize, String)> =
            parts.iter().map(|part| (part.0 + k, part.1.clone())).collect();
        assert_eq!(further, expected);
        let moved = lint_sql(&format!("{}{}", "\n".repeat(k), sql));
        assert_eq!(moved.len(), base.len());
        for (after, before) in moved.iter().zip(&base) {
            assert_eq!(after.line, before.line + k);
            assert_eq!(after.rule, before.rule);
            assert_eq!(after.statement, before.statement);
            assert_eq!(after.suggestion, before.suggestion);
            assert_eq!(after.fix_result, before.fix_result);
            assert_eq!(after.message, before.message);
        }
    }
}

#[test]
fn what_is_fixed_is_clean() {
    for sql in [
        "CREATE TABLE t (id SERIAL PRIMARY KEY, p INT REFERENCES q(id));",
        "CREATE INDEX i ON t(a); CREATE INDEX j ON t(b);",
        "ALTER TABLE t ADD COLUMN c INT REFERENCES d(id);\nSELECT 1 -- note\n;",
        "BEGIN; CREATE TABLE a (id BIGSERIAL); CREATE INDEX i ON a(id); COMMIT;",
        "BEGIN; DROP TABLE a; SELECT 1; DROP TABLE b; COMMIT; SELECT 2",
    ] {
        let out = fix_sql(sql);
        assert!(!out.diagnostics.is_empty(), "{sql}");
        assert!(
            out.diagnostics.iter().all(|d| d.fix_result != FixResult::Unfixable),
            "{sql}"
        );
        assert!(lint_sql(&out.sql).is_empty(), "{}", out.sql);
        assert_eq!(fix_sql(&out.sql).sql, out.sql);
    }
}

#[test]
fn a_second_split_changes_nothing() {
    let texts = ["BEGIN", "DROP TABLE a", "SELECT 1", "DROP TABLE b", "COMMIT"];
    let mut parts: Vec<(usize, String)> = texts
        .iter()
        .enumerate()
        .map(|(i, text)| (i + 1, text.to_string()))
        .collect();
    let mut first: Vec<Diagnostic> = Vec::new();
    fix_ddl_transactions(&mut parts, &mut first);
    assert_eq!(first.len(), 1);
    assert_eq!(parts.len(), 9);
    let before = parts.clone();
    let mut second: Vec<Diagnostic> = Vec::new();
    fix_ddl_transactions(&mut parts, &mut second);
    assert_eq!(parts, before);
    assert!(second.is_empty());
    check_ddl_transactions(&parts, &mut second);
    assert!(second.is_empty());
    for part in &parts {
        assert!(texts.contains(&part.1.as_str()));
    }
}

#[test]
fn commit_is_one_statement() {
    let trees = parse_sql("COMMIT").unwrap();
    assert_eq!(trees.len(), 1);
    assert!(is_commit(&trees[0]));
    assert!(lint_sql("COMMIT").is_empty());
}
