//! Checks SQL for compatibility with Aurora DSQL, and fixes what it can.

pub mod cli;
pub mod diagnostic;
pub mod dialect;
pub mod lint;
pub mod location;
pub mod preview;
pub mod printable;
pub mod report;
pub mod rules;
pub mod split;
pub mod syntax;
pub mod text;
pub mod transaction;

pub use diagnostic::{Diagnostic, FixOutput, FixResult, LintRule};
pub use lint::{fix_sql, lint_sql};
