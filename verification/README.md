# dsql-lint

Checks SQL scripts for compatibility with Aurora DSQL, and rewrites what it can.

- `src/` is the library, verified with Verus.
  - `text`, `location`: characters, bytes, lines and columns.
  - `split`: a script into statements.
  - `dialect`: the tokenizer, parser and printer of `sqlparser`. All that is
    trusted stands here, but for one method of `String` (in `text`).
  - `syntax`: syntax trees as plain values.
  - `printable`: which of them can be printed.
  - `rules`: what DSQL lacks, statement by statement, with the repairs.
  - `transaction`: one DDL statement per transaction, with the split of those
    that hold more.
  - `lint`: `lint_sql` and `fix_sql`.
  - `diagnostic`, `preview`, `report`, `cli`: what is said, and the decisions of
    the command line.
- `tests/` runs the library.
- `app/` is the command: arguments, files, standard streams and JSON text.

The contracts speak of what the parser makes of a text through the names
`sql_tokens`, `sql_syntax` and `statement_text`. The laws that span functions are
public proof functions: in `split/laws`, `rules/laws`, `transaction/laws` and
`lint/laws`, and beside what they speak of in `split`, `preview`, `cli`, `report`
and `diagnostic`.
