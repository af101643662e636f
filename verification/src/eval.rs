//! Evaluation: an AST to a 64-bit signed integer, by a post-order walk.
//!
//! Division and modulo truncate toward zero and fail on a zero divisor.
//! Exponentiation with a non-negative exponent is repeated multiplication;
//! with a negative exponent it is `1 / base^|exponent|` under truncating
//! integer division, which is 0 for any base of magnitude above 1 and a
//! division-by-zero failure for base 0. An `Assign` node evaluates to its
//! right-hand side; an identifier leaf fails, since no symbol table exists.
//! Every intermediate value must stay in the 64-bit signed range; one that
//! leaves it is an overflow failure, never a panic.

use vstd::prelude::*;

use crate::error::{Error, ErrorModel};
use crate::parser::{ExprModel, Expression};
use crate::tokenizer::{Atomic, AtomicModel};

verus! {

/// Whether `x` fits in a signed 64-bit integer.
pub open spec fn in_i64(x: int) -> bool {
    i64::MIN <= x <= i64::MAX
}

/// Division truncating toward zero, as the machine's signed division does.
pub open spec fn trunc_div(x: int, d: int) -> int {
    if x == 0 {
        0
    } else if x > 0 && d > 0 {
        x / d
    } else if x < 0 && d < 0 {
        (x * -1) / (d * -1)
    } else if x < 0 {
        ((x * -1) / d) * -1
    } else {
        (x / (d * -1)) * -1
    }
}

/// Remainder with the dividend's sign, as the machine's signed remainder
/// does.
pub open spec fn trunc_rem(x: int, d: int) -> int {
    if x == 0 {
        0
    } else if x > 0 && d > 0 {
        x % d
    } else if x < 0 && d < 0 {
        ((x * -1) % (d * -1)) * -1
    } else if x < 0 {
        ((x * -1) % d) * -1
    } else {
        x % (d * -1)
    }
}

/// The mathematical power `b^e`.
pub open spec fn pow_int(b: int, e: nat) -> int
    decreases e,
{
    if e == 0 {
        1
    } else {
        pow_int(b, (e - 1) as nat) * b
    }
}

/// Repeated multiplication under the 64-bit bound: `b^e`, or the overflow
/// error at the first product that leaves the range.
pub open spec fn spec_pow_checked(b: int, e: nat) -> Result<int, ErrorModel>
    decreases e,
{
    if e == 0 {
        Ok(1)
    } else {
        match spec_pow_checked(b, (e - 1) as nat) {
            Ok(p) => if in_i64(p * b) {
                Ok(p * b)
            } else {
                Err(ErrorModel::Overflow)
            },
            Err(er) => Err(er),
        }
    }
}

/// The value of an atomic leaf: its integer, or the unsupported-evaluation
/// error for an identifier.
pub open spec fn spec_eval_atomic(a: AtomicModel) -> Result<int, ErrorModel> {
    match a {
        AtomicModel::Integer(n) => Ok(n),
        AtomicModel::Ident(s) => Err(ErrorModel::EvaluationUnsupported { name: s }),
    }
}

/// The value of an expression under truncating 64-bit integer semantics.
/// The left operand is evaluated before the right one, so the leftmost
/// failure surfaces.
pub open spec fn spec_eval(e: ExprModel) -> Result<int, ErrorModel>
    decreases e,
{
    match e {
        ExprModel::Add { left, right } => match (spec_eval(*left), spec_eval(*right)) {
            (Err(er), _) => Err(er),
            (Ok(_), Err(er)) => Err(er),
            (Ok(a), Ok(b)) => if in_i64(a + b) {
                Ok(a + b)
            } else {
                Err(ErrorModel::Overflow)
            },
        },
        ExprModel::Subtract { left, right } => match (spec_eval(*left), spec_eval(*right)) {
            (Err(er), _) => Err(er),
            (Ok(_), Err(er)) => Err(er),
            (Ok(a), Ok(b)) => if in_i64(a - b) {
                Ok(a - b)
            } else {
                Err(ErrorModel::Overflow)
            },
        },
        ExprModel::Negate { right } => match spec_eval(*right) {
            Err(er) => Err(er),
            Ok(a) => if in_i64(-a) {
                Ok(-a)
            } else {
                Err(ErrorModel::Overflow)
            },
        },
        ExprModel::Multiply { left, right } => match (spec_eval(*left), spec_eval(*right)) {
            (Err(er), _) => Err(er),
            (Ok(_), Err(er)) => Err(er),
            (Ok(a), Ok(b)) => if in_i64(a * b) {
                Ok(a * b)
            } else {
                Err(ErrorModel::Overflow)
            },
        },
        ExprModel::Divide { left, right } => match (spec_eval(*left), spec_eval(*right)) {
            (Err(er), _) => Err(er),
            (Ok(_), Err(er)) => Err(er),
            (Ok(a), Ok(b)) => if b == 0 {
                Err(ErrorModel::DivisionByZero)
            } else if in_i64(trunc_div(a, b)) {
                Ok(trunc_div(a, b))
            } else {
                Err(ErrorModel::Overflow)
            },
        },
        ExprModel::Modulo { left, right } => match (spec_eval(*left), spec_eval(*right)) {
            (Err(er), _) => Err(er),
            (Ok(_), Err(er)) => Err(er),
            (Ok(a), Ok(b)) => if b == 0 {
                Err(ErrorModel::DivisionByZero)
            } else if a == i64::MIN && b == -1 {
                Err(ErrorModel::Overflow)
            } else {
                Ok(trunc_rem(a, b))
            },
        },
        ExprModel::Exponent { left, right } => match (spec_eval(*left), spec_eval(*right)) {
            (Err(er), _) => Err(er),
            (Ok(_), Err(er)) => Err(er),
            (Ok(a), Ok(b)) => if b < 0 {
                if a == 0 {
                    Err(ErrorModel::DivisionByZero)
                } else {
                    Ok(trunc_div(1, pow_int(a, (-b) as nat)))
                }
            } else {
                spec_pow_checked(a, b as nat)
            },
        },
        ExprModel::Assign { left, right } => spec_eval(*right),
        ExprModel::Leaf(a) => spec_eval_atomic(a),
    }
}

impl Atomic {
    /// The value of this leaf: its integer, or the unsupported-evaluation
    /// error for an identifier.
    pub fn evaluate(&self) -> (r: Result<i64, Error>)
        ensures
            match r {
                Ok(v) => spec_eval_atomic(self@) == Ok::<int, ErrorModel>(v as int),
                Err(er) => spec_eval_atomic(self@) == Err::<int, ErrorModel>(er@),
            },
    {
        match self {
            Atomic::Integer(i) => Ok(*i),
            Atomic::Ident(s) => Err(Error::EvaluationUnsupported { name: s.clone() }),
        }
    }
}

/// `1^e == 1`.
proof fn lemma_pow_one(e: nat)
    ensures
        pow_int(1, e) == 1,
    decreases e,
{
    if e > 0 {
        lemma_pow_one((e - 1) as nat);
    }
}

/// `(-1)^e` alternates between 1 and -1 with the parity of `e`.
proof fn lemma_pow_neg_one(e: nat)
    ensures
        pow_int(-1, e) == if e % 2 == 0 { 1int } else { -1int },
    decreases e,
{
    if e > 0 {
        lemma_pow_neg_one((e - 1) as nat);
    }
}

/// A base of magnitude at least 2 raised to a positive power has magnitude
/// at least 2.
proof fn lemma_pow_big(b: int, e: nat)
    requires
        b >= 2 || b <= -2,
        e >= 1,
    ensures
        pow_int(b, e) >= 2 || pow_int(b, e) <= -2,
    decreases e,
{
    if e == 1 {
        assert(pow_int(b, 1) == pow_int(b, 0) * b);
    } else {
        lemma_pow_big(b, (e - 1) as nat);
        let p = pow_int(b, (e - 1) as nat);
        assert(pow_int(b, e) == p * b);
        assert(p * b >= 2 || p * b <= -2) by (nonlinear_arith)
            requires
                p >= 2 || p <= -2,
                b >= 2 || b <= -2,
        ;
    }
}

/// `1 / x` truncated toward zero, by the magnitude of `x`.
proof fn lemma_one_div(x: int)
    requires
        x != 0,
    ensures
        x == 1 ==> trunc_div(1, x) == 1,
        x == -1 ==> trunc_div(1, x) == -1,
        (x >= 2 || x <= -2) ==> trunc_div(1, x) == 0,
{
    if x >= 2 {
        vstd::arithmetic::div_mod::lemma_basic_div(1, x);
    } else if x <= -2 {
        vstd::arithmetic::div_mod::lemma_basic_div(1, x * -1);
    }
}

/// Compute `b^e` by repeated multiplication, `e >= 0`, failing at the first
/// product outside the 64-bit range.
fn pow_checked(b: i64, e: i64) -> (r: Result<i64, Error>)
    requires
        e >= 0,
    ensures
        match r {
            Ok(v) => spec_pow_checked(b as int, e as nat) == Ok::<int, ErrorModel>(v as int),
            Err(er) => spec_pow_checked(b as int, e as nat) == Err::<int, ErrorModel>(er@),
        },
{
    let mut acc: i64 = 1;
    let mut k: i64 = 0;
    while k < e
        invariant
            0 <= k <= e,
            spec_pow_checked(b as int, k as nat) == Ok::<int, ErrorModel>(acc as int),
        decreases e - k,
    {
        acc = match acc.checked_mul(b) {
            Some(x) => x,
            None => {
                proof {
                    lemma_pow_checked_err(b as int, (k + 1) as nat, e as nat);
                }
                return Err(Error::Overflow);
            },
        };
        k = k + 1;
    }
    Ok(acc)
}

/// Once repeated multiplication has overflowed, it stays overflowed.
proof fn lemma_pow_checked_err(b: int, k: nat, e: nat)
    requires
        k <= e,
        spec_pow_checked(b, k) == Err::<int, ErrorModel>(ErrorModel::Overflow),
    ensures
        spec_pow_checked(b, e) == Err::<int, ErrorModel>(ErrorModel::Overflow),
    decreases e - k,
{
    if k < e {
        lemma_pow_checked_err(b, (k + 1) as nat, e);
    }
}

impl Expression {
    /// The value of this expression: exactly `spec_eval` of its model. The
    /// same tree always evaluates to the same outcome.
    pub fn evaluate(&self) -> (r: Result<i64, Error>)
        ensures
            match r {
                Ok(v) => spec_eval(self@) == Ok::<int, ErrorModel>(v as int),
                Err(er) => spec_eval(self@) == Err::<int, ErrorModel>(er@),
            },
        decreases self,
    {
        match self {
            Expression::Add { left, right } => {
                let a = match left.evaluate() {
                    Ok(v) => v,
                    Err(er) => return Err(er),
                };
                let b = match right.evaluate() {
                    Ok(v) => v,
                    Err(er) => return Err(er),
                };
                match a.checked_add(b) {
                    Some(v) => Ok(v),
                    None => Err(Error::Overflow),
                }
            },
            Expression::Subtract { left, right } => {
                let a = match left.evaluate() {
                    Ok(v) => v,
                    Err(er) => return Err(er),
                };
                let b = match right.evaluate() {
                    Ok(v) => v,
                    Err(er) => return Err(er),
                };
                match a.checked_sub(b) {
                    Some(v) => Ok(v),
                    None => Err(Error::Overflow),
                }
            },
            Expression::Negate { right } => {
                let a = match right.evaluate() {
                    Ok(v) => v,
                    Err(er) => return Err(er),
                };
                match (0i64).checked_sub(a) {
                    Some(v) => Ok(v),
                    None => Err(Error::Overflow),
                }
            },
            Expression::Multiply { left, right } => {
                let a = match left.evaluate() {
                    Ok(v) => v,
                    Err(er) => return Err(er),
                };
                let b = match right.evaluate() {
                    Ok(v) => v,
                    Err(er) => return Err(er),
                };
                match a.checked_mul(b) {
                    Some(v) => Ok(v),
                    None => Err(Error::Overflow),
                }
            },
            Expression::Divide { left, right } => {
                let a = match left.evaluate() {
                    Ok(v) => v,
                    Err(er) => return Err(er),
                };
                let b = match right.evaluate() {
                    Ok(v) => v,
                    Err(er) => return Err(er),
                };
                if b == 0 {
                    return Err(Error::DivisionByZero);
                }
                match a.checked_div(b) {
                    Some(v) => Ok(v),
                    None => Err(Error::Overflow),
                }
            },
            Expression::Modulo { left, right } => {
                let a = match left.evaluate() {
                    Ok(v) => v,
                    Err(er) => return Err(er),
                };
                let b = match right.evaluate() {
                    Ok(v) => v,
                    Err(er) => return Err(er),
                };
                if b == 0 {
                    return Err(Error::DivisionByZero);
                }
                match a.checked_rem(b) {
                    Some(v) => Ok(v),
                    None => Err(Error::Overflow),
                }
            },
            Expression::Exponent { left, right } => {
                let a = match left.evaluate() {
                    Ok(v) => v,
                    Err(er) => return Err(er),
                };
                let b = match right.evaluate() {
                    Ok(v) => v,
                    Err(er) => return Err(er),
                };
                if b < 0 {
                    proof {
                        lemma_one_div_pow(a as int, (-(b as int)) as nat);
                    }
                    if a == 0 {
                        Err(Error::DivisionByZero)
                    } else if a == 1 {
                        Ok(1)
                    } else if a == -1 {
                        let even = match b.checked_rem(2) {
                            Some(rm) => rm == 0,
                            None => false,
                        };
                        Ok(if even { 1 } else { -1 })
                    } else {
                        Ok(0)
                    }
                } else {
                    pow_checked(a, b)
                }
            },
            Expression::Assign { left: _, right } => right.evaluate(),
            Expression::Leaf(a) => a.evaluate(),
        }
    }
}

/// `1 / a^e` truncated toward zero, by the magnitude of `a`: 1 for base 1,
/// alternating 1 and -1 for base -1, and 0 for any larger magnitude.
pub proof fn lemma_one_div_pow(a: int, e: nat)
    requires
        e >= 1,
    ensures
        a == 1 ==> trunc_div(1, pow_int(a, e)) == 1,
        a == -1 ==> trunc_div(1, pow_int(a, e)) == (if e % 2 == 0 { 1int } else { -1int }),
        (a >= 2 || a <= -2) ==> trunc_div(1, pow_int(a, e)) == 0,
{
    if a == 1 {
        lemma_pow_one(e);
    } else if a == -1 {
        lemma_pow_neg_one(e);
    } else if a >= 2 || a <= -2 {
        lemma_pow_big(a, e);
        lemma_one_div(pow_int(a, e));
    }
}

} // verus!
