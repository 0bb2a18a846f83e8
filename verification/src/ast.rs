use vstd::prelude::*;

verus! {

/// A binary operator of the expression language.
#[derive(Clone, Copy, Debug, PartialEq, Eq)]
pub enum OpType {
    Add,
    Subtract,
    Multiply,
    Divide,
    Modulo,
}

/// An expression tree. Every node owns its children; trees are finite and
/// acyclic by construction.
#[derive(Debug, PartialEq, Eq)]
pub enum Expr {
    /// A signed 32-bit literal.
    Integer(i32),
    /// Negation of exactly one operand.
    UnaryMinus(Box<Expr>),
    /// A binary operation on exactly two operands.
    BinOp { lhs: Box<Expr>, op: OpType, rhs: Box<Expr> },
}

/// Everything that can go wrong while reading or evaluating one line.
#[derive(Clone, Copy, Debug, PartialEq, Eq)]
pub enum CalcError {
    /// The line does not match the expression grammar; carries the character
    /// position at which matching failed.
    GrammarMismatch(usize),
    /// A digit sequence does not fit the signed 32-bit range.
    InvalidLiteral,
    /// Division or modulo with a zero right operand; carries the operator.
    DivisionByZero(OpType),
    /// An addition, subtraction, multiplication or negation left the signed
    /// 32-bit range.
    ArithmeticOverflow,
}

pub open spec fn abs_int(a: int) -> int {
    if a < 0 {
        -a
    } else {
        a
    }
}

/// Truncating (toward-zero) quotient: the magnitudes are divided and the
/// quotient is negated exactly when the operands' signs differ.
pub open spec fn div_trunc(a: int, b: int) -> int
    recommends
        b != 0,
{
    let q = abs_int(a) / abs_int(b);
    if (a < 0) != (b < 0) {
        -q
    } else {
        q
    }
}

/// The remainder matching `div_trunc`, so that
/// `div_trunc(a, b) * b + rem_trunc(a, b) == a`.
pub open spec fn rem_trunc(a: int, b: int) -> int
    recommends
        b != 0,
{
    a - b * div_trunc(a, b)
}

pub open spec fn fits_i32(v: int) -> bool {
    i32::MIN <= v && v <= i32::MAX
}

/// Wraps a mathematical result as a 32-bit value, or reports overflow.
pub open spec fn checked_i32(v: int) -> Result<i32, CalcError> {
    if fits_i32(v) {
        Ok(v as i32)
    } else {
        Err(CalcError::ArithmeticOverflow)
    }
}

/// What one binary operation returns on already-evaluated operands.
pub open spec fn apply_op_spec(op: OpType, a: i32, b: i32) -> Result<i32, CalcError> {
    match op {
        OpType::Add => checked_i32(a + b),
        OpType::Subtract => checked_i32(a - b),
        OpType::Multiply => checked_i32(a * b),
        OpType::Divide => if b == 0 {
            Err(CalcError::DivisionByZero(OpType::Divide))
        } else {
            checked_i32(div_trunc(a as int, b as int))
        },
        OpType::Modulo => if b == 0 {
            Err(CalcError::DivisionByZero(OpType::Modulo))
        } else {
            checked_i32(rem_trunc(a as int, b as int))
        },
    }
}

/// Post-order evaluation of a tree: the left operand is reduced first, so the
/// leftmost error of the tree is the one reported.
pub open spec fn eval_spec(e: Expr) -> Result<i32, CalcError>
    decreases e,
{
    match e {
        Expr::Integer(v) => Ok(v),
        Expr::UnaryMinus(inner) => match eval_spec(*inner) {
            Ok(v) => checked_i32(-(v as int)),
            Err(er) => Err(er),
        },
        Expr::BinOp { lhs, op, rhs } => match eval_spec(*lhs) {
            Ok(a) => match eval_spec(*rhs) {
                Ok(b) => apply_op_spec(op, a, b),
                Err(er) => Err(er),
            },
            Err(er) => Err(er),
        },
    }
}

} // verus!
