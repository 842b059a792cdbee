//! What can go wrong when an expression is evaluated.

use vstd::prelude::*;

use crate::db_core::expr::op::{BinaryOp, UnaryOp};
use crate::db_core::ty::{Ty, TyView};
use crate::db_core::value::{Value, ValueView};

verus! {

/// Why an expression has no value.
#[derive(Debug, PartialEq, Eq)]
#[allow(inconsistent_fields)]
pub enum EvalErr {
    /// A value of one type stands where another is wanted. `expected` is
    /// empty where a record of any table would do.
    MissmatchedTypes { found: Ty, expected: Option<Ty> },
    InvalidTypeForBinaryOp { op: BinaryOp, a: Ty, b: Ty },
    InvalidTypeForUnaryOp { op: UnaryOp, ty: Ty },
    UnknownTable { name: String, did_you_mean_hint: DidYouMeanHint },
    UnknownField { name: String, table_name: String },
    UnknownFunction { name: String },
    InvalidFunctionArgCount { name: String, found: usize, expected: usize },
    /// The bytes of a record did not decode as the type of the field read.
    Bytepack,
    /// A number was divided by zero.
    DivisionByZero,
    /// The result of a calculation is no 32-bit integer.
    Overflow,
}

/// What an unknown name may have been meant to be.
#[derive(Debug, PartialEq, Eq)]
pub enum DidYouMeanHint {
    /// Nothing comes to mind.
    NoHint,
    Table { name: String },
    TableWithField { table_name: String, field_name: String },
}

/// What a [`DidYouMeanHint`] stands for.
pub enum DidYouMeanHintView {
    NoHint,
    Table { name: Seq<char> },
    TableWithField { table_name: Seq<char>, field_name: Seq<char> },
}

impl DeepView for DidYouMeanHint {
    type V = DidYouMeanHintView;

    open spec fn deep_view(&self) -> DidYouMeanHintView {
        match self {
            DidYouMeanHint::NoHint => DidYouMeanHintView::NoHint,
            DidYouMeanHint::Table { name } => DidYouMeanHintView::Table { name: name@ },
            DidYouMeanHint::TableWithField { table_name, field_name } => {
                DidYouMeanHintView::TableWithField {
                    table_name: table_name@,
                    field_name: field_name@,
                }
            },
        }
    }
}

impl DidYouMeanHintView {
    /// The hint as it is appended to a message.
    pub open spec fn text(self) -> Seq<char> {
        match self {
            DidYouMeanHintView::NoHint => Seq::empty(),
            DidYouMeanHintView::Table { name } => " Did you mean '"@ + name + "'"@,
            DidYouMeanHintView::TableWithField { table_name, field_name } => " Did you mean '"@
                + table_name + "."@ + field_name + "'"@,
        }
    }
}

impl Default for DidYouMeanHint {
    fn default() -> (hint: Self)
        ensures
            hint == DidYouMeanHint::NoHint,
    {
        DidYouMeanHint::NoHint
    }
}

impl Clone for DidYouMeanHint {
    fn clone(&self) -> (copy: Self)
        ensures
            copy.deep_view() == self.deep_view(),
    {
        match self {
            DidYouMeanHint::NoHint => DidYouMeanHint::NoHint,
            DidYouMeanHint::Table { name } => DidYouMeanHint::Table { name: name.clone() },
            DidYouMeanHint::TableWithField { table_name, field_name } => {
                DidYouMeanHint::TableWithField {
                    table_name: table_name.clone(),
                    field_name: field_name.clone(),
                }
            },
        }
    }
}

impl DidYouMeanHint {
    /// The hint as it is appended to a message: nothing, or a question
    /// that begins with a space.
    pub fn text(&self) -> (text: String)
        ensures
            text@ == self.deep_view().text(),
    {
        match self {
            DidYouMeanHint::NoHint => String::new(),
            DidYouMeanHint::Table { name } => {
                let mut text = " Did you mean '".to_owned();
                text.append(name.as_str());
                text.append("'");
                text
            },
            DidYouMeanHint::TableWithField { table_name, field_name } => {
                let mut text = " Did you mean '".to_owned();
                text.append(table_name.as_str());
                text.append(".");
                text.append(field_name.as_str());
                text.append("'");
                text
            },
        }
    }
}

/// What an [`EvalErr`] stands for.
#[allow(inconsistent_fields)]
pub enum EvalErrView {
    MissmatchedTypes { found: TyView, expected: Option<TyView> },
    InvalidTypeForBinaryOp { op: BinaryOp, a: TyView, b: TyView },
    InvalidTypeForUnaryOp { op: UnaryOp, ty: TyView },
    UnknownTable { name: Seq<char>, did_you_mean_hint: DidYouMeanHintView },
    UnknownField { name: Seq<char>, table_name: Seq<char> },
    UnknownFunction { name: Seq<char> },
    InvalidFunctionArgCount { name: Seq<char>, found: usize, expected: usize },
    Bytepack,
    DivisionByZero,
    Overflow,
}

impl DeepView for EvalErr {
    type V = EvalErrView;

    open spec fn deep_view(&self) -> EvalErrView {
        match self {
            EvalErr::MissmatchedTypes { found, expected } => EvalErrView::MissmatchedTypes {
                found: found.deep_view(),
                expected: expected.deep_view(),
            },
            EvalErr::InvalidTypeForBinaryOp { op, a, b } => EvalErrView::InvalidTypeForBinaryOp {
                op: *op,
                a: a.deep_view(),
                b: b.deep_view(),
            },
            EvalErr::InvalidTypeForUnaryOp { op, ty } => EvalErrView::InvalidTypeForUnaryOp {
                op: *op,
                ty: ty.deep_view(),
            },
            EvalErr::UnknownTable { name, did_you_mean_hint } => EvalErrView::UnknownTable {
                name: name@,
                did_you_mean_hint: did_you_mean_hint.deep_view(),
            },
            EvalErr::UnknownField { name, table_name } => EvalErrView::UnknownField {
                name: name@,
                table_name: table_name@,
            },
            EvalErr::UnknownFunction { name } => EvalErrView::UnknownFunction { name: name@ },
            EvalErr::InvalidFunctionArgCount { name, found, expected } => {
                EvalErrView::InvalidFunctionArgCount {
                    name: name@,
                    found: *found,
                    expected: *expected,
                }
            },
            EvalErr::Bytepack => EvalErrView::Bytepack,
            EvalErr::DivisionByZero => EvalErrView::DivisionByZero,
            EvalErr::Overflow => EvalErrView::Overflow,
        }
    }
}

/// What the outcome of an evaluation stands for.
pub open spec fn outcome_view(outcome: Result<Value, EvalErr>) -> Result<ValueView, EvalErrView> {
    match outcome {
        Ok(value) => Ok(value.deep_view()),
        Err(err) => Err(err.deep_view()),
    }
}

} // verus!
