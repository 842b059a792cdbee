//! The expression language: its operators, its errors, and how an
//! expression is typed and evaluated.

pub mod error;
pub mod eval_ctx;
pub mod expr;
pub mod op;
pub mod ty_ctx;

pub use error::{DidYouMeanHint, EvalErr};
pub use eval_ctx::EvalCtx;
pub use expr::Expr;
pub use op::{BinaryOp, CompareOp, EqOp, LogicOp, MathOp, UnaryOp};
pub use ty_ctx::TyCtx;
