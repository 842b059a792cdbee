//! The textual query language.
//!
//! ```text
//! query  := "query" name [ "where" expr ] [ "group_by" expr ]
//! expr   := unary { infix unary }
//! unary  := { "-" | "!" } access
//! access := atom { "." name }
//! atom   := number | "true" | "false" | name | "(" expr ")"
//! ```
//!
//! Infix operators bind in this order, tightest first, and group to the
//! left: `* /`, then `+ -`, then `< <= > >=`, then `&& ||`, then `== !=`.

pub mod lexer;
pub mod parser;
pub mod token;

pub use token::{Keyword, Op, Separator, Token};
pub use parser::{parse, parse_expr};
