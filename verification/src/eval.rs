//! What an expression is worth.

use vstd::prelude::*;
use crate::parser::AstNode;

verus! {

/// The quotient of `a` by `b`, rounded toward zero, for `b != 0`.
pub open spec fn quotient(a: int, b: int) -> int {
    if a >= 0 && b > 0 {
        a / b
    } else if a >= 0 {
        -(a / (-b))
    } else if b > 0 {
        -((-a) / b)
    } else {
        (-a) / (-b)
    }
}

/// 1 for `true` and 0 for `false`.
pub open spec fn truth(holds: bool) -> int {
    if holds {
        1
    } else {
        0
    }
}

/// The value of a node with two operands, from the values of the operands.
/// A division by zero has none.
pub open spec fn apply(t: AstNode, x: int, y: int) -> Option<int> {
    match t {
        AstNode::Add(_, _) => Some(x + y),
        AstNode::Sub(_, _) => Some(x - y),
        AstNode::Mul(_, _) => Some(x * y),
        AstNode::Div(_, _) => if y != 0 {
            Some(quotient(x, y))
        } else {
            None
        },
        AstNode::Eq(_, _) => Some(truth(x == y)),
        AstNode::Ne(_, _) => Some(truth(x != y)),
        AstNode::Lt(_, _) => Some(truth(x < y)),
        AstNode::Le(_, _) => Some(truth(x <= y)),
        _ => None,
    }
}

impl AstNode {
    /// The value of the expression in the integers, where every value,
    /// from the literals up to the whole expression, has to lie between `lo`
    /// and `hi`: `None` where one leaves that range, and where a divisor is
    /// zero.
    pub open spec fn eval_within(self, lo: int, hi: int) -> Option<int>
        decreases self,
    {
        let value = match self {
            AstNode::Num(v) => Some(v as int),
            AstNode::Neg(a) => match a.eval_within(lo, hi) {
                Some(x) => Some(-x),
                None => None,
            },
            AstNode::Add(a, b)
            | AstNode::Sub(a, b)
            | AstNode::Mul(a, b)
            | AstNode::Div(a, b)
            | AstNode::Eq(a, b)
            | AstNode::Ne(a, b)
            | AstNode::Lt(a, b)
            | AstNode::Le(a, b) => match (a.eval_within(lo, hi), b.eval_within(lo, hi)) {
                (Some(x), Some(y)) => apply(self, x, y),
                _ => None,
            },
        };
        match value {
            Some(v) => if lo <= v <= hi {
                Some(v)
            } else {
                None
            },
            None => None,
        }
    }

    /// The value of the expression in the integers: `None` where a divisor
    /// is zero.
    ///
    /// Division rounds toward zero, and a comparison gives 1 where it holds
    /// and 0 where it does not.
    pub open spec fn value(self) -> Option<int>
        decreases self,
    {
        match self {
            AstNode::Num(v) => Some(v as int),
            AstNode::Neg(a) => match a.value() {
                Some(x) => Some(-x),
                None => None,
            },
            AstNode::Add(a, b)
            | AstNode::Sub(a, b)
            | AstNode::Mul(a, b)
            | AstNode::Div(a, b)
            | AstNode::Eq(a, b)
            | AstNode::Ne(a, b)
            | AstNode::Lt(a, b)
            | AstNode::Le(a, b) => match (a.value(), b.value()) {
                (Some(x), Some(y)) => apply(self, x, y),
                _ => None,
            },
        }
    }

    /// The value of the expression in signed 32-bit arithmetic that does
    /// not overflow.
    pub open spec fn eval(self) -> Option<int> {
        self.eval_within(i32::MIN as int, i32::MAX as int)
    }

    /// The value of the expression in signed 64-bit arithmetic that does
    /// not overflow.
    pub open spec fn eval64(self) -> Option<int> {
        self.eval_within(i64::MIN as int, i64::MAX as int)
    }

    /// Evaluates the expression in signed 32-bit arithmetic. There is no
    /// value where a divisor is zero or a result does not fit in 32 bits.
    pub fn evaluate(&self) -> (value: Option<i32>)
        ensures
            match value {
                Some(v) => self.eval() == Some(v as int),
                None => self.eval() is None,
            },
        decreases self,
    {
        match self {
            AstNode::Num(v) => Some(*v),
            AstNode::Neg(a) => match a.evaluate() {
                Some(x) => 0i32.checked_sub(x),
                None => None,
            },
            AstNode::Add(a, b) => match (a.evaluate(), b.evaluate()) {
                (Some(x), Some(y)) => x.checked_add(y),
                _ => None,
            },
            AstNode::Sub(a, b) => match (a.evaluate(), b.evaluate()) {
                (Some(x), Some(y)) => x.checked_sub(y),
                _ => None,
            },
            AstNode::Mul(a, b) => match (a.evaluate(), b.evaluate()) {
                (Some(x), Some(y)) => x.checked_mul(y),
                _ => None,
            },
            AstNode::Div(a, b) => match (a.evaluate(), b.evaluate()) {
                (Some(x), Some(y)) => x.checked_div(y),
                _ => None,
            },
            AstNode::Eq(a, b) => match (a.evaluate(), b.evaluate()) {
                (Some(x), Some(y)) => Some(if x == y { 1 } else { 0 }),
                _ => None,
            },
            AstNode::Ne(a, b) => match (a.evaluate(), b.evaluate()) {
                (Some(x), Some(y)) => Some(if x != y { 1 } else { 0 }),
                _ => None,
            },
            AstNode::Lt(a, b) => match (a.evaluate(), b.evaluate()) {
                (Some(x), Some(y)) => Some(if x < y { 1 } else { 0 }),
                _ => None,
            },
            AstNode::Le(a, b) => match (a.evaluate(), b.evaluate()) {
                (Some(x), Some(y)) => Some(if x <= y { 1 } else { 0 }),
                _ => None,
            },
        }
    }
}

/// Where an expression has a value within a range, that is its value in
/// the integers.
pub proof fn lemma_eval_within_is_value(t: AstNode, lo: int, hi: int)
    requires
        t.eval_within(lo, hi) is Some,
    ensures
        t.value() == t.eval_within(lo, hi),
    decreases t,
{
    match t {
        AstNode::Num(_) => {},
        AstNode::Neg(a) => {
            lemma_eval_within_is_value(*a, lo, hi);
        },
        AstNode::Add(a, b)
        | AstNode::Sub(a, b)
        | AstNode::Mul(a, b)
        | AstNode::Div(a, b)
        | AstNode::Eq(a, b)
        | AstNode::Ne(a, b)
        | AstNode::Lt(a, b)
        | AstNode::Le(a, b) => {
            lemma_eval_within_is_value(*a, lo, hi);
            lemma_eval_within_is_value(*b, lo, hi);
        },
    }
}

} // verus!
