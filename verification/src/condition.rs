//! Conditions that guard choices and line parts: comparisons over
//! expressions, joined by and/or with negation.

use vstd::prelude::*;

use crate::error::{InklingErrV, InklingError};
use crate::expression::{spec_eval, ExprV, Expression};
use crate::follow::{data_wf, FollowData};
use crate::variable::{spec_equal, spec_less_than, spec_op_err, OpKind, VarV, Variable};

verus! {

/// A predicate tree over expressions.
///
/// Leaves compare two expressions or test a single expression for
/// truthiness; `not`, `and` and `or` combine them, with short-circuit
/// evaluation left to right.
#[derive(Debug, PartialEq)]
pub enum Condition {
    /// Two expressions under a comparison operator.
    Comparison { lhs: Expression, op: OpKind, rhs: Expression },
    /// A bare expression: true when its value is truthy.
    Truthy(Expression),
    /// Negation of an inner condition.
    Not(Box<Condition>),
    /// Both sides must hold; the right side is not evaluated when the left
    /// side is false.
    And(Box<Condition>, Box<Condition>),
    /// Either side must hold; the right side is not evaluated when the left
    /// side is true.
    Or(Box<Condition>, Box<Condition>),
}

/// The mathematical value of a `Condition`.
#[verifier::ext_equal]
pub enum CondV {
    Comparison { lhs: ExprV, op: OpKind, rhs: ExprV },
    Truthy(ExprV),
    Not(Box<CondV>),
    And(Box<CondV>, Box<CondV>),
    Or(Box<CondV>, Box<CondV>),
}

/// The mathematical value of a condition tree.
pub open spec fn view_condition(c: Condition) -> CondV
    decreases c,
{
    match c {
        Condition::Comparison { lhs, op, rhs } => CondV::Comparison {
            lhs: lhs@,
            op,
            rhs: rhs@,
        },
        Condition::Truthy(e) => CondV::Truthy(e@),
        Condition::Not(inner) => CondV::Not(Box::new(view_condition(*inner))),
        Condition::And(left, right) => CondV::And(
            Box::new(view_condition(*left)),
            Box::new(view_condition(*right)),
        ),
        Condition::Or(left, right) => CondV::Or(
            Box::new(view_condition(*left)),
            Box::new(view_condition(*right)),
        ),
    }
}

impl View for Condition {
    type V = CondV;

    open spec fn view(&self) -> CondV {
        view_condition(*self)
    }
}

/// Whether a resolved value counts as true in boolean context: zero and the
/// empty string are false, a divert is an error, everything else is true.
pub open spec fn spec_truthiness(v: VarV) -> Result<bool, InklingErrV> {
    match v {
        VarV::Int(x) => Ok(x != 0),
        VarV::Bool(b) => Ok(b),
        VarV::String(s) => Ok(s.len() > 0),
        _ => Err(spec_op_err(OpKind::NotEqual, v, VarV::Int(0))),
    }
}

/// What a comparison operator gives on resolved operands. An arithmetic
/// operator is refused here.
pub open spec fn spec_compare(op: OpKind, a: VarV, b: VarV) -> Result<bool, InklingErrV> {
    match op {
        OpKind::Equal => spec_equal(a, b),
        OpKind::NotEqual => match spec_equal(a, b) {
            Ok(v) => Ok(!v),
            Err(_) => Err(spec_op_err(op, a, b)),
        },
        OpKind::LessThan => spec_less_than(a, b),
        OpKind::GreaterThan => match spec_less_than(b, a) {
            Ok(v) => Ok(v),
            Err(_) => Err(spec_op_err(op, a, b)),
        },
        OpKind::LessThanOrEqual => match spec_less_than(b, a) {
            Ok(v) => Ok(!v),
            Err(_) => Err(spec_op_err(op, a, b)),
        },
        OpKind::GreaterThanOrEqual => match spec_less_than(a, b) {
            Ok(v) => Ok(!v),
            Err(_) => Err(spec_op_err(op, a, b)),
        },
        _ => Err(spec_op_err(op, a, b)),
    }
}

/// What evaluating a condition gives: short-circuit left to right, `not`
/// above `and` above `or` in binding order.
pub open spec fn spec_eval_condition(c: CondV, d: FollowData) -> Result<bool, InklingErrV>
    decreases c,
{
    match c {
        CondV::Comparison { lhs, op, rhs } => match spec_eval(lhs, d) {
            Ok(a) => match spec_eval(rhs, d) {
                Ok(b) => spec_compare(op, a, b),
                Err(e2) => Err(e2),
            },
            Err(e1) => Err(e1),
        },
        CondV::Truthy(e) => match spec_eval(e, d) {
            Ok(a) => spec_truthiness(a),
            Err(e1) => Err(e1),
        },
        CondV::Not(inner) => match spec_eval_condition(*inner, d) {
            Ok(b) => Ok(!b),
            Err(e1) => Err(e1),
        },
        CondV::And(left, right) => match spec_eval_condition(*left, d) {
            Ok(true) => spec_eval_condition(*right, d),
            Ok(false) => Ok(false),
            Err(e1) => Err(e1),
        },
        CondV::Or(left, right) => match spec_eval_condition(*left, d) {
            Ok(true) => Ok(true),
            Ok(false) => spec_eval_condition(*right, d),
            Err(e1) => Err(e1),
        },
    }
}

/// Whether a variable value counts as true in boolean context.
fn truthiness(v: &Variable) -> (r: Result<bool, InklingError>)
    ensures
        match spec_truthiness(v@) {
            Ok(b) => r is Ok && r->Ok_0 == b,
            Err(e) => r is Err && r->Err_0@ == e,
        },
{
    match v {
        Variable::Int(x) => Ok(*x != 0),
        Variable::Bool(b) => Ok(*b),
        Variable::String(s) => Ok(s.as_str().unicode_len() > 0),
        _ => Err(
            InklingError::InvalidExpression {
                operator: OpKind::NotEqual,
                left_kind: v.kind(),
                right_kind: crate::variable::VariableKind::Int,
            },
        ),
    }
}

/// Apply a comparison operator to two resolved values.
fn compare(op: &OpKind, a: &Variable, b: &Variable) -> (r: Result<bool, InklingError>)
    ensures
        match spec_compare(*op, a@, b@) {
            Ok(v) => r is Ok && r->Ok_0 == v,
            Err(e) => r is Err && r->Err_0@ == e,
        },
{
    let err = InklingError::InvalidExpression {
        operator: *op,
        left_kind: a.kind(),
        right_kind: b.kind(),
    };
    match op {
        OpKind::Equal => a.equal_to(b),
        OpKind::NotEqual => match a.equal_to(b) {
            Ok(v) => Ok(!v),
            Err(_) => Err(err),
        },
        OpKind::LessThan => a.less_than(b),
        OpKind::GreaterThan => match b.less_than(a) {
            Ok(v) => Ok(v),
            Err(_) => Err(err),
        },
        OpKind::LessThanOrEqual => match b.less_than(a) {
            Ok(v) => Ok(!v),
            Err(_) => Err(err),
        },
        OpKind::GreaterThanOrEqual => match a.less_than(b) {
            Ok(v) => Ok(!v),
            Err(_) => Err(err),
        },
        _ => Err(err),
    }
}

impl Condition {
    /// A copy of this condition with the same mathematical value.
    pub fn duplicate(&self) -> (r: Condition)
        ensures
            r@ == self@,
        decreases *self,
    {
        match self {
            Condition::Comparison { lhs, op, rhs } => Condition::Comparison {
                lhs: lhs.duplicate(),
                op: *op,
                rhs: rhs.duplicate(),
            },
            Condition::Truthy(e) => Condition::Truthy(e.duplicate()),
            Condition::Not(inner) => Condition::Not(Box::new(inner.duplicate())),
            Condition::And(left, right) => Condition::And(
                Box::new(left.duplicate()),
                Box::new(right.duplicate()),
            ),
            Condition::Or(left, right) => Condition::Or(
                Box::new(left.duplicate()),
                Box::new(right.duplicate()),
            ),
        }
    }

    /// Evaluate this condition against the runtime data.
    pub fn evaluate(&self, data: &FollowData) -> (r: Result<bool, InklingError>)
        requires
            data_wf(*data),
        ensures
            match spec_eval_condition(self@, *data) {
                Ok(b) => r is Ok && r->Ok_0 == b,
                Err(e) => r is Err && r->Err_0@ == e,
            },
        decreases *self,
    {
        match self {
            Condition::Comparison { lhs, op, rhs } => {
                let a = match lhs.evaluate(data) {
                    Ok(a) => a,
                    Err(e) => {
                        return Err(e);
                    },
                };
                let b = match rhs.evaluate(data) {
                    Ok(b) => b,
                    Err(e) => {
                        return Err(e);
                    },
                };
                compare(op, &a, &b)
            },
            Condition::Truthy(e) => {
                match e.evaluate(data) {
                    Ok(a) => truthiness(&a),
                    Err(err) => Err(err),
                }
            },
            Condition::Not(inner) => {
                match inner.evaluate(data) {
                    Ok(b) => Ok(!b),
                    Err(err) => Err(err),
                }
            },
            Condition::And(left, right) => {
                match left.evaluate(data) {
                    Ok(true) => right.evaluate(data),
                    Ok(false) => Ok(false),
                    Err(err) => Err(err),
                }
            },
            Condition::Or(left, right) => {
                match left.evaluate(data) {
                    Ok(true) => Ok(true),
                    Ok(false) => right.evaluate(data),
                    Err(err) => Err(err),
                }
            },
        }
    }
}


/// Evaluating a condition fails only with errors the walk can produce.
pub proof fn lemma_eval_condition_err(c: CondV, d: FollowData)
    ensures
        spec_eval_condition(c, d) is Err ==> crate::error::walk_err(
            spec_eval_condition(c, d)->Err_0,
        ),
    decreases c,
{
    match c {
        CondV::Comparison { lhs, op, rhs } => {
            crate::expression::lemma_eval_err(lhs, d);
            crate::expression::lemma_eval_err(rhs, d);
            if spec_eval(lhs, d) is Ok && spec_eval(rhs, d) is Ok {
                crate::variable::lemma_op_errs(spec_eval(lhs, d)->Ok_0, spec_eval(rhs, d)->Ok_0);
                crate::variable::lemma_op_errs(spec_eval(rhs, d)->Ok_0, spec_eval(lhs, d)->Ok_0);
            }
        },
        CondV::Truthy(e) => {
            crate::expression::lemma_eval_err(e, d);
        },
        CondV::Not(inner) => {
            lemma_eval_condition_err(*inner, d);
        },
        CondV::And(left, right) => {
            lemma_eval_condition_err(*left, d);
            lemma_eval_condition_err(*right, d);
        },
        CondV::Or(left, right) => {
            lemma_eval_condition_err(*left, d);
            lemma_eval_condition_err(*right, d);
        },
    }
}

} // verus!
