//! Expressions, how they are typed and how they are evaluated.

use vstd::prelude::*;
use vstd::utf8::encode_utf8;

use crate::db_core::expr::error::{outcome_view, EvalErr, EvalErrView};
use crate::db_core::expr::eval_ctx::{EvalCtx, EvalCtxView};
use crate::db_core::expr::op::{BinaryOp, UnaryOp};
use crate::db_core::expr::ty_ctx::{TyCtx, TyCtxView};
use crate::db_core::named::{Named, NamedView};
use crate::db_core::record::field_value;
use crate::db_core::ty::{FieldTy, FieldTyView, Ty, TyView};
use crate::db_core::value::{FieldValue, FieldValueView, Value, ValueView};
use crate::names::str_eq;

verus! {

/// An expression.
#[derive(Debug, PartialEq, Eq)]
#[allow(inconsistent_fields)]
pub enum Expr {
    Literal(FieldValue),
    BinaryOp { a: Box<Expr>, op: BinaryOp, b: Box<Expr> },
    UnaryOp { op: UnaryOp, value: Box<Expr> },
    /// The field `field` of the record that `value` evaluates to.
    FieldAccess { value: Box<Expr>, field: String },
    /// The record that the context holds under `name`.
    TableAccess { name: String },
    /// A call of one of the built-in functions: `now()`, the time of the
    /// evaluation, and `str_len(text)`, the length of a text in bytes.
    FnCall { name: String, args: Vec<Expr> },
}

impl Expr {
    /// The type of the expression, if it has one: every table and field it
    /// names is known, every operator is applied to operands that it
    /// takes, and every function that it calls is a built-in one called
    /// with the arguments that it takes: `now()` is a timestamp, and
    /// `str_len` of a text is an integer.
    pub open spec fn spec_ty(&self, ctx: TyCtxView) -> Option<TyView>
        decreases self,
    {
        match self {
            Expr::Literal(value) => Some(TyView::Field(value.deep_view().ty())),
            Expr::BinaryOp { a, op, b } => match (a.spec_ty(ctx), b.spec_ty(ctx)) {
                (Some(TyView::Field(a)), Some(TyView::Field(b))) => match op.spec_ty(a, b) {
                    Some(ty) => Some(TyView::Field(ty)),
                    None => None,
                },
                _ => None,
            },
            Expr::UnaryOp { op, value } => match value.spec_ty(ctx) {
                Some(TyView::Field(value)) => match op.spec_ty(value) {
                    Some(ty) => Some(TyView::Field(ty)),
                    None => None,
                },
                _ => None,
            },
            Expr::FieldAccess { value, field } => match value.spec_ty(ctx) {
                Some(TyView::Table(table)) => match table.value.field(field@) {
                    Some(field) => Some(TyView::Field(field.ty)),
                    None => None,
                },
                _ => None,
            },
            Expr::TableAccess { name } => match ctx.table(name@) {
                Some(table) => Some(TyView::Table(NamedView { name: name@, value: table })),
                None => None,
            },
            Expr::FnCall { name, args } => if name@ == "now"@ && args@.len() == 0 {
                Some(TyView::Field(FieldTyView::Timestamp))
            } else if name@ == "str_len"@ && args@.len() == 1 {
                match args@[0].spec_ty(ctx) {
                    Some(TyView::Field(FieldTyView::Text)) => Some(
                        TyView::Field(FieldTyView::IntI32),
                    ),
                    _ => None,
                }
            } else {
                None
            },
        }
    }

    /// The type of the expression, if it has one.
    pub fn ty(&self, ctx: &TyCtx) -> (ty: Option<Ty>)
        ensures
            ty.deep_view() == self.spec_ty(ctx.deep_view()),
        decreases self,
    {
        match self {
            Expr::Literal(value) => Some(Ty::Field(value.ty())),
            Expr::BinaryOp { a, op, b } => {
                let a = match a.ty(ctx) {
                    Some(a) => a,
                    None => {
                        return None;
                    },
                };
                let b = match b.ty(ctx) {
                    Some(b) => b,
                    None => {
                        return None;
                    },
                };
                match (a, b) {
                    (Ty::Field(a), Ty::Field(b)) => match op.ty(&a, &b) {
                        Some(ty) => Some(Ty::Field(ty)),
                        None => None,
                    },
                    _ => None,
                }
            },
            Expr::UnaryOp { op, value } => {
                match value.ty(ctx) {
                    Some(Ty::Field(value)) => match op.ty(&value) {
                        Some(ty) => Some(Ty::Field(ty)),
                        None => None,
                    },
                    _ => None,
                }
            },
            Expr::FieldAccess { value, field } => {
                match value.ty(ctx) {
                    Some(Ty::Table(table)) => match table.value.field(field.as_str()) {
                        Some(field) => Some(Ty::Field(field.ty.clone())),
                        None => None,
                    },
                    _ => None,
                }
            },
            Expr::TableAccess { name } => {
                match ctx.table(name.as_str()) {
                    Some(table) => Some(
                        Ty::Table(Named { name: name.clone(), value: table.clone() }),
                    ),
                    None => None,
                }
            },
            Expr::FnCall { name, args } => {
                if str_eq(name.as_str(), "now") && args.len() == 0 {
                    Some(Ty::Field(FieldTy::Timestamp))
                } else if str_eq(name.as_str(), "str_len") && args.len() == 1 {
                    match args[0].ty(ctx) {
                        Some(Ty::Field(FieldTy::Text)) => Some(Ty::Field(FieldTy::IntI32)),
                        _ => None,
                    }
                } else {
                    None
                }
            },
        }
    }

    /// The value of the expression in the context given, or the first
    /// error met, operands being evaluated from left to right.
    pub open spec fn spec_eval(&self, ctx: EvalCtxView) -> Result<ValueView, EvalErrView>
        decreases self,
    {
        match self {
            Expr::Literal(value) => Ok(ValueView::Field(value.deep_view())),
            Expr::BinaryOp { a, op, b } => match a.spec_eval(ctx) {
                Ok(a) => match b.spec_eval(ctx) {
                    Ok(b) => match op.spec_eval(a, b) {
                        Ok(value) => Ok(ValueView::Field(value)),
                        Err(err) => Err(err),
                    },
                    Err(err) => Err(err),
                },
                Err(err) => Err(err),
            },
            Expr::UnaryOp { op, value } => match value.spec_eval(ctx) {
                Ok(value) => op.spec_eval(value),
                Err(err) => Err(err),
            },
            Expr::FieldAccess { value, field } => match value.spec_eval(ctx) {
                Ok(ValueView::Record { table, record }) => match table.value.field(field@) {
                    Some(found) => match field_value(record.bytes, found) {
                        Some(value) => Ok(ValueView::Field(value)),
                        None => Err(EvalErrView::Bytepack),
                    },
                    None => Err(
                        EvalErrView::UnknownField { name: field@, table_name: table.name },
                    ),
                },
                Ok(other) => Err(
                    EvalErrView::MissmatchedTypes { found: other.ty(), expected: None },
                ),
                Err(err) => Err(err),
            },
            Expr::TableAccess { name } => match (ctx.record(name@), ctx.table(name@)) {
                (Some(record), Some(table)) => Ok(
                    ValueView::Record { table: NamedView { name: name@, value: table }, record },
                ),
                _ => Err(
                    EvalErrView::UnknownTable {
                        name: name@,
                        did_you_mean_hint: ctx.hint(name@),
                    },
                ),
            },
            Expr::FnCall { name, args } => if name@ == "now"@ && args@.len() == 0 {
                Ok(ValueView::Field(FieldValueView::Timestamp(ctx.now)))
            } else if name@ == "str_len"@ {
                if args@.len() != 1 {
                    Err(
                        EvalErrView::InvalidFunctionArgCount {
                            name: name@,
                            found: args@.len() as usize,
                            expected: 1,
                        },
                    )
                } else {
                    match args@[0].spec_eval(ctx) {
                        Ok(ValueView::Field(FieldValueView::Text(text))) => if encode_utf8(
                            text,
                        ).len() <= i32::MAX {
                            Ok(
                                ValueView::Field(
                                    FieldValueView::Int(encode_utf8(text).len() as i32),
                                ),
                            )
                        } else {
                            Err(EvalErrView::Overflow)
                        },
                        Ok(other) => Err(
                            EvalErrView::MissmatchedTypes {
                                found: other.ty(),
                                expected: Some(TyView::Field(FieldTyView::Text)),
                            },
                        ),
                        Err(err) => Err(err),
                    }
                }
            } else {
                Err(EvalErrView::UnknownFunction { name: name@ })
            },
        }
    }

    /// Evaluates the expression in the context given.
    pub fn eval(&self, ctx: &EvalCtx) -> (out: Result<Value, EvalErr>)
        ensures
            outcome_view(out) == self.spec_eval(ctx.deep_view()),
        decreases self,
    {
        match self {
            Expr::Literal(value) => Ok(Value::Field(value.clone())),
            Expr::BinaryOp { a, op, b } => {
                let a = match a.eval(ctx) {
                    Ok(a) => a,
                    Err(err) => {
                        return Err(err);
                    },
                };
                let b = match b.eval(ctx) {
                    Ok(b) => b,
                    Err(err) => {
                        return Err(err);
                    },
                };
                match op.eval(a, b) {
                    Ok(value) => Ok(Value::Field(value)),
                    Err(err) => Err(err),
                }
            },
            Expr::UnaryOp { op, value } => {
                match value.eval(ctx) {
                    Ok(value) => op.eval(value),
                    Err(err) => Err(err),
                }
            },
            Expr::FieldAccess { value, field } => {
                let value = match value.eval(ctx) {
                    Ok(value) => value,
                    Err(err) => {
                        return Err(err);
                    },
                };
                match value {
                    Value::Record { table, record } => {
                        match table.value.field(field.as_str()) {
                            Some(found) => match record.get_field(found) {
                                Some(value) => Ok(Value::Field(value)),
                                None => Err(EvalErr::Bytepack),
                            },
                            None => Err(
                                EvalErr::UnknownField {
                                    name: field.clone(),
                                    table_name: table.name.clone(),
                                },
                            ),
                        }
                    },
                    other => Err(EvalErr::MissmatchedTypes { found: other.ty(), expected: None }),
                }
            },
            Expr::TableAccess { name } => {
                match (ctx.record(name.as_str()), ctx.table(name.as_str())) {
                    (Some(record), Some(table)) => Ok(
                        Value::Record {
                            table: Named { name: name.clone(), value: table.clone() },
                            record: record.clone(),
                        },
                    ),
                    _ => Err(
                        EvalErr::UnknownTable {
                            name: name.clone(),
                            did_you_mean_hint: ctx.hint(name.as_str()),
                        },
                    ),
                }
            },
            Expr::FnCall { name, args } => {
                if str_eq(name.as_str(), "now") && args.len() == 0 {
                    Ok(Value::Field(FieldValue::Timestamp(ctx.now)))
                } else if str_eq(name.as_str(), "str_len") {
                    if args.len() != 1 {
                        return Err(
                            EvalErr::InvalidFunctionArgCount {
                                name: name.clone(),
                                found: args.len(),
                                expected: 1,
                            },
                        );
                    }
                    let arg = match args[0].eval(ctx) {
                        Ok(arg) => arg,
                        Err(err) => {
                            return Err(err);
                        },
                    };
                    match arg {
                        Value::Field(FieldValue::Text(input)) => {
                            let len = input.as_str().as_bytes().len();
                            if len <= i32::MAX as usize {
                                Ok(Value::Field(FieldValue::Int(len as i32)))
                            } else {
                                Err(EvalErr::Overflow)
                            }
                        },
                        other => Err(
                            EvalErr::MissmatchedTypes {
                                found: other.ty(),
                                expected: Some(Ty::Field(FieldTy::Text)),
                            },
                        ),
                    }
                } else {
                    Err(EvalErr::UnknownFunction { name: name.clone() })
                }
            },
        }
    }
}

} // verus!

verus! {

/// What an [`Expr`] stands for.
#[allow(inconsistent_fields)]
pub enum ExprView {
    Literal(FieldValueView),
    BinaryOp { a: Box<ExprView>, op: BinaryOp, b: Box<ExprView> },
    UnaryOp { op: UnaryOp, value: Box<ExprView> },
    FieldAccess { value: Box<ExprView>, field: Seq<char> },
    TableAccess { name: Seq<char> },
    FnCall { name: Seq<char>, args: Seq<ExprView> },
}

/// What an expression stands for.
pub open spec fn expr_view(expr: Expr) -> ExprView
    decreases expr,
{
    match expr {
        Expr::Literal(value) => ExprView::Literal(value.deep_view()),
        Expr::BinaryOp { a, op, b } => ExprView::BinaryOp {
            a: Box::new(expr_view(*a)),
            op,
            b: Box::new(expr_view(*b)),
        },
        Expr::UnaryOp { op, value } => ExprView::UnaryOp { op, value: Box::new(expr_view(*value)) },
        Expr::FieldAccess { value, field } => ExprView::FieldAccess {
            value: Box::new(expr_view(*value)),
            field: field@,
        },
        Expr::TableAccess { name } => ExprView::TableAccess { name: name@ },
        Expr::FnCall { name, args } => ExprView::FnCall {
            name: name@,
            args: Seq::new(
                args@.len(),
                |i: int|
                    if 0 <= i < args@.len() {
                        expr_view(args[i])
                    } else {
                        ExprView::TableAccess { name: Seq::empty() }
                    },
            ),
        },
    }
}

impl DeepView for Expr {
    type V = ExprView;

    open spec fn deep_view(&self) -> ExprView {
        expr_view(*self)
    }
}

} // verus!
