//! The operators, their typing rules and what they compute.

use vstd::prelude::*;

use crate::bytepack::extern_types::Timestamp;
use crate::db_core::expr::error::{EvalErr, EvalErrView};
use crate::db_core::ty::{FieldTy, FieldTyView, Ty, TyView};
use crate::db_core::value::{FieldValue, FieldValueView, Value, ValueView};
use crate::names::str_eq;

verus! {

#[derive(Debug, Clone, Copy, PartialEq, Eq, Structural)]
pub enum UnaryOp {
    Negate,
    LogicNot,
}

#[derive(Debug, Clone, Copy, PartialEq, Eq, Structural)]
pub enum BinaryOp {
    Math(MathOp),
    Logic(LogicOp),
    Compare(CompareOp),
    Eq(EqOp),
}

#[derive(Debug, Clone, Copy, PartialEq, Eq, Structural)]
pub enum MathOp {
    Add,
    Sub,
    Mul,
    Div,
}

#[derive(Debug, Clone, Copy, PartialEq, Eq, Structural)]
pub enum LogicOp {
    And,
    Or,
}

#[derive(Debug, Clone, Copy, PartialEq, Eq, Structural)]
pub enum CompareOp {
    Less,
    LessEq,
    Greater,
    GreaterEq,
}

#[derive(Debug, Clone, Copy, PartialEq, Eq, Structural)]
pub enum EqOp {
    Eq,
    Neq,
}

/// The distance of a number from zero.
pub open spec fn magnitude(a: int) -> int {
    if a < 0 {
        -a
    } else {
        a
    }
}

impl MathOp {
    /// The exact result of the operation on integers; division rounds
    /// towards zero. Division by zero has no result.
    pub open spec fn exact(self, a: int, b: int) -> int {
        match self {
            MathOp::Add => a + b,
            MathOp::Sub => a - b,
            MathOp::Mul => a * b,
            MathOp::Div => {
                let quotient = magnitude(a) / magnitude(b);
                if (a < 0) != (b < 0) {
                    -quotient
                } else {
                    quotient
                }
            },
        }
    }

    /// What the operation gives on two 32-bit integers.
    pub open spec fn spec_eval(self, a: i32, b: i32) -> Result<FieldValueView, EvalErrView> {
        if self == MathOp::Div && b == 0 {
            Err(EvalErrView::DivisionByZero)
        } else if i32::MIN <= self.exact(a as int, b as int) <= i32::MAX {
            Ok(FieldValueView::Int(self.exact(a as int, b as int) as i32))
        } else {
            Err(EvalErrView::Overflow)
        }
    }

    /// Computes the operation on two 32-bit integers.
    pub fn eval(&self, a: i32, b: i32) -> (out: Result<FieldValue, EvalErr>)
        ensures
            crate::db_core::expr::op::field_outcome_view(out) == self.spec_eval(a, b),
    {
        let wide: i64 = match self {
            MathOp::Add => a as i64 + b as i64,
            MathOp::Sub => a as i64 - b as i64,
            MathOp::Mul => {
                assert(-0x8000_0000 * 0x8000_0000 <= a * b <= 0x8000_0000 * 0x8000_0000)
                    by (nonlinear_arith)
                    requires
                        -0x8000_0000 <= a < 0x8000_0000,
                        -0x8000_0000 <= b < 0x8000_0000,
                ;
                a as i64 * b as i64
            },
            MathOp::Div => {
                if b == 0 {
                    return Err(EvalErr::DivisionByZero);
                }
                let x: i64 = if a < 0 {
                    -(a as i64)
                } else {
                    a as i64
                };
                let y: i64 = if b < 0 {
                    -(b as i64)
                } else {
                    b as i64
                };
                let quotient = x / y;
                if (a < 0) != (b < 0) {
                    -quotient
                } else {
                    quotient
                }
            },
        };
        if wide < i32::MIN as i64 || wide > i32::MAX as i64 {
            Err(EvalErr::Overflow)
        } else {
            Ok(FieldValue::Int(wide as i32))
        }
    }
}

/// What the outcome of an operation on field values stands for.
pub open spec fn field_outcome_view(outcome: Result<FieldValue, EvalErr>) -> Result<
    FieldValueView,
    EvalErrView,
> {
    match outcome {
        Ok(value) => Ok(value.deep_view()),
        Err(err) => Err(err.deep_view()),
    }
}

impl LogicOp {
    pub open spec fn spec_eval(self, a: bool, b: bool) -> bool {
        match self {
            LogicOp::And => a && b,
            LogicOp::Or => a || b,
        }
    }

    pub fn eval(&self, a: bool, b: bool) -> (out: bool)
        ensures
            out == self.spec_eval(a, b),
    {
        match self {
            LogicOp::And => a && b,
            LogicOp::Or => a || b,
        }
    }
}

impl CompareOp {
    pub open spec fn spec_eval(self, a: int, b: int) -> bool {
        match self {
            CompareOp::Less => a < b,
            CompareOp::LessEq => a <= b,
            CompareOp::Greater => a > b,
            CompareOp::GreaterEq => a >= b,
        }
    }

    pub fn eval(&self, a: i64, b: i64) -> (out: bool)
        ensures
            out == self.spec_eval(a as int, b as int),
    {
        match self {
            CompareOp::Less => a < b,
            CompareOp::LessEq => a <= b,
            CompareOp::Greater => a > b,
            CompareOp::GreaterEq => a >= b,
        }
    }
}

impl EqOp {
    /// What the operator makes of two values, given whether they are the
    /// same.
    pub open spec fn spec_eval(self, same: bool) -> bool {
        match self {
            EqOp::Eq => same,
            EqOp::Neq => !same,
        }
    }

    pub fn eval(&self, same: bool) -> (out: bool)
        ensures
            out == self.spec_eval(same),
    {
        match self {
            EqOp::Eq => same,
            EqOp::Neq => !same,
        }
    }
}

impl BinaryOp {
    /// The type of the operation's result on operands of the types given:
    /// arithmetic takes integers to an integer, logic takes booleans to a
    /// boolean, comparison takes two integers or two timestamps to a
    /// boolean, and equality takes two values of one type to a boolean.
    pub open spec fn spec_ty(self, a: FieldTyView, b: FieldTyView) -> Option<FieldTyView> {
        match self {
            BinaryOp::Math(_) => if a is IntI32 && b is IntI32 {
                Some(FieldTyView::IntI32)
            } else {
                None
            },
            BinaryOp::Logic(_) => if a is Bool && b is Bool {
                Some(FieldTyView::Bool)
            } else {
                None
            },
            BinaryOp::Compare(_) => if (a is IntI32 && b is IntI32) || (a is Timestamp
                && b is Timestamp) {
                Some(FieldTyView::Bool)
            } else {
                None
            },
            BinaryOp::Eq(_) => if a == b {
                Some(FieldTyView::Bool)
            } else {
                None
            },
        }
    }

    /// The type of the operation's result, if it takes operands of the
    /// types given.
    pub fn ty(&self, a: &FieldTy, b: &FieldTy) -> (ty: Option<FieldTy>)
        ensures
            ty.deep_view() == self.spec_ty(a.deep_view(), b.deep_view()),
    {
        match self {
            BinaryOp::Math(_) => {
                if a.same(&FieldTy::IntI32) && b.same(&FieldTy::IntI32) {
                    Some(FieldTy::IntI32)
                } else {
                    None
                }
            },
            BinaryOp::Logic(_) => {
                if a.same(&FieldTy::Bool) && b.same(&FieldTy::Bool) {
                    Some(FieldTy::Bool)
                } else {
                    None
                }
            },
            BinaryOp::Compare(_) => {
                if a.same(&FieldTy::IntI32) && b.same(&FieldTy::IntI32) || a.same(
                    &FieldTy::Timestamp,
                ) && b.same(&FieldTy::Timestamp) {
                    Some(FieldTy::Bool)
                } else {
                    None
                }
            },
            BinaryOp::Eq(_) => {
                if a.same(b) {
                    Some(FieldTy::Bool)
                } else {
                    None
                }
            },
        }
    }

    /// The error that tells of operands of the wrong types.
    pub open spec fn type_error(self, a: ValueView, b: ValueView) -> EvalErrView {
        EvalErrView::InvalidTypeForBinaryOp { op: self, a: a.ty(), b: b.ty() }
    }

    /// What the operation gives on two values. Operands of types that the
    /// operation does not take are an error; so is a division by zero, and
    /// so is a result that is no 32-bit integer. Two values of one type
    /// are equal if they are the same; two references are of one type if
    /// they refer to the same table, and equal if they name the same
    /// record.
    pub open spec fn spec_eval(self, a: ValueView, b: ValueView) -> Result<
        FieldValueView,
        EvalErrView,
    > {
        match (self, a, b) {
            (
                BinaryOp::Math(op),
                ValueView::Field(FieldValueView::Int(x)),
                ValueView::Field(FieldValueView::Int(y)),
            ) => op.spec_eval(x, y),
            (
                BinaryOp::Logic(op),
                ValueView::Field(FieldValueView::Bool(x)),
                ValueView::Field(FieldValueView::Bool(y)),
            ) => Ok(FieldValueView::Bool(op.spec_eval(x, y))),
            (
                BinaryOp::Compare(op),
                ValueView::Field(FieldValueView::Int(x)),
                ValueView::Field(FieldValueView::Int(y)),
            ) => Ok(FieldValueView::Bool(op.spec_eval(x as int, y as int))),
            (
                BinaryOp::Compare(op),
                ValueView::Field(FieldValueView::Timestamp(x)),
                ValueView::Field(FieldValueView::Timestamp(y)),
            ) => Ok(FieldValueView::Bool(op.spec_eval(x.0 as int, y.0 as int))),
            (
                BinaryOp::Eq(op),
                ValueView::Field(FieldValueView::Int(x)),
                ValueView::Field(FieldValueView::Int(y)),
            ) => Ok(FieldValueView::Bool(op.spec_eval(x == y))),
            (
                BinaryOp::Eq(op),
                ValueView::Field(FieldValueView::Bool(x)),
                ValueView::Field(FieldValueView::Bool(y)),
            ) => Ok(FieldValueView::Bool(op.spec_eval(x == y))),
            (
                BinaryOp::Eq(op),
                ValueView::Field(FieldValueView::Timestamp(x)),
                ValueView::Field(FieldValueView::Timestamp(y)),
            ) => Ok(FieldValueView::Bool(op.spec_eval(x == y))),
            (
                BinaryOp::Eq(op),
                ValueView::Field(FieldValueView::Text(x)),
                ValueView::Field(FieldValueView::Text(y)),
            ) => Ok(FieldValueView::Bool(op.spec_eval(x == y))),
            (
                BinaryOp::Eq(op),
                ValueView::Field(FieldValueView::RecordId { id: x, table_name: s }),
                ValueView::Field(FieldValueView::RecordId { id: y, table_name: t }),
            ) => if s == t {
                Ok(FieldValueView::Bool(op.spec_eval(x == y)))
            } else {
                Err(self.type_error(a, b))
            },
            _ => Err(self.type_error(a, b)),
        }
    }

    /// Computes the operation on two values.
    pub fn eval(&self, a: Value, b: Value) -> (out: Result<FieldValue, EvalErr>)
        ensures
            field_outcome_view(out) == self.spec_eval(a.deep_view(), b.deep_view()),
    {
        match (self, &a, &b) {
            (
                BinaryOp::Math(math_op),
                Value::Field(FieldValue::Int(x)),
                Value::Field(FieldValue::Int(y)),
            ) => math_op.eval(*x, *y),
            (
                BinaryOp::Logic(logic_op),
                Value::Field(FieldValue::Bool(x)),
                Value::Field(FieldValue::Bool(y)),
            ) => Ok(FieldValue::Bool(logic_op.eval(*x, *y))),
            (
                BinaryOp::Compare(compare_op),
                Value::Field(FieldValue::Int(x)),
                Value::Field(FieldValue::Int(y)),
            ) => Ok(FieldValue::Bool(compare_op.eval(*x as i64, *y as i64))),
            (
                BinaryOp::Compare(compare_op),
                Value::Field(FieldValue::Timestamp(x)),
                Value::Field(FieldValue::Timestamp(y)),
            ) => Ok(FieldValue::Bool(compare_op.eval(x.0, y.0))),
            (
                BinaryOp::Eq(eq_op),
                Value::Field(FieldValue::Int(x)),
                Value::Field(FieldValue::Int(y)),
            ) => Ok(FieldValue::Bool(eq_op.eval(*x == *y))),
            (
                BinaryOp::Eq(eq_op),
                Value::Field(FieldValue::Bool(x)),
                Value::Field(FieldValue::Bool(y)),
            ) => Ok(FieldValue::Bool(eq_op.eval(*x == *y))),
            (
                BinaryOp::Eq(eq_op),
                Value::Field(FieldValue::Timestamp(x)),
                Value::Field(FieldValue::Timestamp(y)),
            ) => Ok(FieldValue::Bool(eq_op.eval(x.0 == y.0))),
            (
                BinaryOp::Eq(eq_op),
                Value::Field(FieldValue::Text(x)),
                Value::Field(FieldValue::Text(y)),
            ) => Ok(FieldValue::Bool(eq_op.eval(str_eq(x.as_str(), y.as_str())))),
            (
                BinaryOp::Eq(eq_op),
                Value::Field(FieldValue::RecordId { id: x, table_name: s }),
                Value::Field(FieldValue::RecordId { id: y, table_name: t }),
            ) => {
                if str_eq(s.as_str(), t.as_str()) {
                    Ok(FieldValue::Bool(eq_op.eval(x.0 == y.0)))
                } else {
                    Err(EvalErr::InvalidTypeForBinaryOp { op: *self, a: a.ty(), b: b.ty() })
                }
            },
            _ => Err(EvalErr::InvalidTypeForBinaryOp { op: *self, a: a.ty(), b: b.ty() }),
        }
    }

    /// Typing and evaluation agree on field values: operands that the
    /// operation has no type for give the error that tells of their
    /// types, and operands that it has a type for give a value of that
    /// type, or, in arithmetic, the error of a division by zero or of a
    /// result out of range.
    pub proof fn lemma_eval_follows_ty(self, x: FieldValueView, y: FieldValueView)
        ensures
            match self.spec_ty(x.ty(), y.ty()) {
                None => self.spec_eval(ValueView::Field(x), ValueView::Field(y)) == Err::<
                    FieldValueView,
                    EvalErrView,
                >(self.type_error(ValueView::Field(x), ValueView::Field(y))),
                Some(ty) => match self.spec_eval(ValueView::Field(x), ValueView::Field(y)) {
                    Ok(value) => value.ty() == ty,
                    Err(err) => self is Math && (err is DivisionByZero || err is Overflow),
                },
            },
    {
    }
}

impl UnaryOp {
    /// The type of the operation's result on an operand of the type given:
    /// negation takes an integer to an integer, and logical negation takes
    /// a boolean to a boolean.
    pub open spec fn spec_ty(self, value: FieldTyView) -> Option<FieldTyView> {
        match self {
            UnaryOp::Negate => if value is IntI32 {
                Some(FieldTyView::IntI32)
            } else {
                None
            },
            UnaryOp::LogicNot => if value is Bool {
                Some(FieldTyView::Bool)
            } else {
                None
            },
        }
    }

    /// The type of the operation's result, if it takes an operand of the
    /// type given.
    pub fn ty(&self, value: &FieldTy) -> (ty: Option<FieldTy>)
        ensures
            ty.deep_view() == self.spec_ty(value.deep_view()),
    {
        match self {
            UnaryOp::Negate => {
                if value.same(&FieldTy::IntI32) {
                    Some(FieldTy::IntI32)
                } else {
                    None
                }
            },
            UnaryOp::LogicNot => {
                if value.same(&FieldTy::Bool) {
                    Some(FieldTy::Bool)
                } else {
                    None
                }
            },
        }
    }

    /// What the operation gives on a value. An operand of a type that the
    /// operation does not take is an error, and so is the negation of the
    /// least 32-bit integer.
    pub open spec fn spec_eval(self, value: ValueView) -> Result<ValueView, EvalErrView> {
        match (self, value) {
            (UnaryOp::Negate, ValueView::Field(FieldValueView::Int(x))) => if x == i32::MIN {
                Err(EvalErrView::Overflow)
            } else {
                Ok(ValueView::Field(FieldValueView::Int((-x) as i32)))
            },
            (UnaryOp::LogicNot, ValueView::Field(FieldValueView::Bool(x))) => Ok(
                ValueView::Field(FieldValueView::Bool(!x)),
            ),
            _ => Err(EvalErrView::InvalidTypeForUnaryOp { op: self, ty: value.ty() }),
        }
    }

    /// Computes the operation on a value.
    pub fn eval(&self, value: Value) -> (out: Result<Value, EvalErr>)
        ensures
            crate::db_core::expr::error::outcome_view(out) == self.spec_eval(value.deep_view()),
    {
        match (self, &value) {
            (UnaryOp::Negate, Value::Field(FieldValue::Int(x))) => {
                if *x == i32::MIN {
                    Err(EvalErr::Overflow)
                } else {
                    Ok(Value::Field(FieldValue::Int(-*x)))
                }
            },
            (UnaryOp::LogicNot, Value::Field(FieldValue::Bool(x))) => Ok(
                Value::Field(FieldValue::Bool(!*x)),
            ),
            _ => Err(EvalErr::InvalidTypeForUnaryOp { op: *self, ty: value.ty() }),
        }
    }
}

} // verus!
