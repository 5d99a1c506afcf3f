//! Linting and fixing short texts.

use dsql_lint::split::split_statements;
use dsql_lint::{fix_sql, lint_sql};

#[test]
fn test_valid_create_table_no_errors() {
    let sql = "CREATE TABLE orders (id UUID PRIMARY KEY, amount DECIMAL(10,2));";
    let diags = lint_sql(sql);
    assert!(diags.is_empty(), "Expected no errors, got: {:?}", diags);
}

#[test]
fn test_parse_error_returns_diagnostic() {
    let sql = "NOT VALID SQL AT ALL ???";
    let diags = lint_sql(sql);
    assert!(!diags.is_empty());
    assert!(diags[0].message.contains("Failed to parse SQL"));
}

#[test]
fn test_split_preserves_newlines() {
    let sql = "CREATE TABLE t (\n    id INT\n);\nSELECT 1;";
    let stmts = split_statements(sql).unwrap();
    assert_eq!(stmts.len(), 2);
    assert!(
        stmts[0].1.contains('\n'),
        "Statement text should preserve newlines"
    );
}

#[test]
fn test_lint_without_trailing_semicolon() {
    let sql = "CREATE TABLE t (id SERIAL PRIMARY KEY)";
    let diags = lint_sql(sql);
    assert!(
        diags.iter().any(|d| d.message.contains("SERIAL")),
        "Should catch errors in SQL without trailing semicolon: {diags:?}"
    );
}

#[test]
fn test_fix_sql_clean_statement_verbatim() {
    let sql = "CREATE TABLE orders (id UUID PRIMARY KEY, amount DECIMAL(10,2));";
    let result = fix_sql(sql);
    assert!(result.diagnostics.is_empty());
    assert_eq!(
        result.sql.trim(),
        sql.trim_end_matches(';').trim().to_owned() + ";"
    );
}
