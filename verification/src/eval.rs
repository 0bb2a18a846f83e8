use vstd::prelude::*;

use crate::ast::CalcError;
use crate::ast::Expr;
use crate::ast::OpType;
use crate::ast::abs_int;
use crate::ast::apply_op_spec;
use crate::ast::div_trunc;
use crate::ast::eval_spec;
use crate::ast::rem_trunc;

verus! {

/// The magnitude of a 32-bit value; the magnitude of `i32::MIN` still fits
/// an unsigned 32-bit word.
fn magnitude(a: i32) -> (r: u32)
    ensures
        r as int == abs_int(a as int),
{
    if a < 0 {
        (-(a as i64)) as u32
    } else {
        a as u32
    }
}

/// The unsigned quotient is at most the dividend, and nonnegative.
proof fn lemma_div_le_dividend(a: int, b: int)
    requires
        0 <= a,
        0 < b,
    ensures
        0 <= a / b <= a,
{
    vstd::arithmetic::div_mod::lemma_div_pos_is_pos(a, b);
    vstd::arithmetic::div_mod::lemma_div_nonincreasing(a, b);
}

/// The truncating remainder is the remainder of the magnitudes, negated when
/// the dividend is negative.
proof fn lemma_rem_trunc_magnitudes(a: int, b: int)
    requires
        b != 0,
    ensures
        0 <= abs_int(a) % abs_int(b) < abs_int(b),
        rem_trunc(a, b) == if a < 0 {
            -(abs_int(a) % abs_int(b))
        } else {
            abs_int(a) % abs_int(b)
        },
{
    let x = abs_int(a);
    let m = abs_int(b);
    let q = x / m;
    let r = x % m;
    vstd::arithmetic::div_mod::lemma_mod_bound(x, m);
    vstd::arithmetic::div_mod::lemma_fundamental_div_mod(x, m);
    assert(x == m * q + r);
    if a < 0 {
        if b < 0 {
            // div_trunc == q, b == -m
            assert(b * div_trunc(a, b) == (-m) * q);
            assert((-m) * q == -(m * q)) by (nonlinear_arith);
            assert(rem_trunc(a, b) == -x + m * q);
        } else {
            // div_trunc == -q, b == m
            assert(b * div_trunc(a, b) == m * (-q));
            assert(m * (-q) == -(m * q)) by (nonlinear_arith);
            assert(rem_trunc(a, b) == -x + m * q);
        }
        assert(rem_trunc(a, b) == -r);
    } else {
        if b < 0 {
            // div_trunc == -q, b == -m
            assert(b * div_trunc(a, b) == (-m) * (-q));
            assert((-m) * (-q) == m * q) by (nonlinear_arith);
        } else {
            assert(b * div_trunc(a, b) == m * q);
        }
        assert(rem_trunc(a, b) == x - m * q);
    }
}

/// Law: for every `b != 0`, the truncating quotient and remainder give the
/// dividend back: `div_trunc(a, b) * b + rem_trunc(a, b) == a`.
pub proof fn lemma_div_rem_identity(a: int, b: int)
    requires
        b != 0,
    ensures
        div_trunc(a, b) * b + rem_trunc(a, b) == a,
{
    vstd::arithmetic::mul::lemma_mul_is_commutative(div_trunc(a, b), b);
}

/// Law: whenever the library's division succeeds on 32-bit operands, its
/// modulo succeeds as well and `(a / b) * b + a % b == a` holds.
pub proof fn lemma_div_rem_identity_i32(a: i32, b: i32)
    requires
        b != 0,
        apply_op_spec(OpType::Divide, a, b) is Ok,
    ensures
        apply_op_spec(OpType::Modulo, a, b) is Ok,
        apply_op_spec(OpType::Divide, a, b)->Ok_0 * b + apply_op_spec(
            OpType::Modulo,
            a,
            b,
        )->Ok_0 == a,
{
    lemma_rem_trunc_magnitudes(a as int, b as int);
    lemma_div_rem_identity(a as int, b as int);
}

fn eval_add(a: i32, b: i32) -> (r: Result<i32, CalcError>)
    ensures
        r == apply_op_spec(OpType::Add, a, b),
{
    let s: i64 = a as i64 + b as i64;
    if s < -0x8000_0000i64 || s > 0x7fff_ffffi64 {
        Err(CalcError::ArithmeticOverflow)
    } else {
        Ok(s as i32)
    }
}

fn eval_sub(a: i32, b: i32) -> (r: Result<i32, CalcError>)
    ensures
        r == apply_op_spec(OpType::Subtract, a, b),
{
    let s: i64 = a as i64 - b as i64;
    if s < -0x8000_0000i64 || s > 0x7fff_ffffi64 {
        Err(CalcError::ArithmeticOverflow)
    } else {
        Ok(s as i32)
    }
}

fn eval_mul(a: i32, b: i32) -> (r: Result<i32, CalcError>)
    ensures
        r == apply_op_spec(OpType::Multiply, a, b),
{
    proof {
        assert(-0x4000_0000_0000_0000 <= (a as int) * (b as int)
            && (a as int) * (b as int) <= 0x4000_0000_0000_0000) by (nonlinear_arith)
            requires
                -0x8000_0000 <= a as int <= 0x7fff_ffff,
                -0x8000_0000 <= b as int <= 0x7fff_ffff,
        ;
    }
    let m: i64 = (a as i64) * (b as i64);
    if m < -0x8000_0000i64 || m > 0x7fff_ffffi64 {
        Err(CalcError::ArithmeticOverflow)
    } else {
        Ok(m as i32)
    }
}

fn eval_div(a: i32, b: i32) -> (r: Result<i32, CalcError>)
    requires
        b != 0,
    ensures
        r == apply_op_spec(OpType::Divide, a, b),
{
    let ua = magnitude(a);
    let ub = magnitude(b);
    proof {
        lemma_div_le_dividend(ua as int, ub as int);
    }
    let uq: u32 = ua / ub;
    if (a < 0) != (b < 0) {
        Ok((-(uq as i64)) as i32)
    } else {
        if uq > 0x7fff_ffffu32 {
            Err(CalcError::ArithmeticOverflow)
        } else {
            Ok(uq as i32)
        }
    }
}

fn eval_rem(a: i32, b: i32) -> (r: Result<i32, CalcError>)
    requires
        b != 0,
    ensures
        r == apply_op_spec(OpType::Modulo, a, b),
{
    let ua = magnitude(a);
    let ub = magnitude(b);
    proof {
        lemma_rem_trunc_magnitudes(a as int, b as int);
    }
    let ur: u32 = ua % ub;
    if a < 0 {
        Ok((-(ur as i64)) as i32)
    } else {
        Ok(ur as i32)
    }
}

impl Expr {
    /// Reduces the tree to a single 32-bit value, reporting division or
    /// modulo by zero and any arithmetic overflow instead of wrapping.
    pub fn evaluate(&self) -> (r: Result<i32, CalcError>)
        ensures
            r == eval_spec(*self),
        decreases *self,
    {
        match self {
            Expr::Integer(v) => Ok(*v),
            Expr::UnaryMinus(inner) => match inner.evaluate() {
                Ok(v) => if v == i32::MIN {
                    Err(CalcError::ArithmeticOverflow)
                } else {
                    Ok(-v)
                },
                Err(er) => Err(er),
            },
            Expr::BinOp { lhs, op, rhs } => match lhs.evaluate() {
                Ok(a) => match rhs.evaluate() {
                    Ok(b) => match op {
                        OpType::Add => eval_add(a, b),
                        OpType::Subtract => eval_sub(a, b),
                        OpType::Multiply => eval_mul(a, b),
                        OpType::Divide => if b == 0 {
                            Err(CalcError::DivisionByZero(OpType::Divide))
                        } else {
                            eval_div(a, b)
                        },
                        OpType::Modulo => if b == 0 {
                            Err(CalcError::DivisionByZero(OpType::Modulo))
                        } else {
                            eval_rem(a, b)
                        },
                    },
                    Err(er) => Err(er),
                },
                Err(er) => Err(er),
            },
        }
    }
}

} // verus!
