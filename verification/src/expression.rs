//! Expressions over variables, evaluated when lines and conditions need
//! numbers or text.

use vstd::prelude::*;

use crate::address::{AddressErrV, AddressKindV, AddressV};
use crate::error::{InklingErrV, InklingError, InternalErrV, InternalError};
use crate::follow::{
    counts_wf, data_wf, get_num_visited, get_variable_value, spec_get_num_visited, vars_map,
    vars_wf, FollowData,
};
use crate::variable::{
    kind_of, spec_divided_by, spec_minus, spec_negated, spec_op_err, spec_plus, spec_remainder,
    spec_times, OpKind, VarV, Variable,
};

verus! {

/// A tree of variables and operators that evaluates to a variable against
/// the runtime data.
#[derive(Debug, PartialEq)]
pub enum Expression {
    /// A leaf value. An address leaf evaluates to a visit count or to the
    /// value of a global variable.
    Variable(Variable),
    /// A binary arithmetic operation.
    Binary(OpKind, Box<Expression>, Box<Expression>),
    /// Arithmetic negation.
    Negate(Box<Expression>),
    /// A parenthesised sub-expression.
    Parens(Box<Expression>),
}

/// The mathematical value of an `Expression`.
#[verifier::ext_equal]
pub enum ExprV {
    Variable(VarV),
    Binary(OpKind, Box<ExprV>, Box<ExprV>),
    Negate(Box<ExprV>),
    Parens(Box<ExprV>),
}

/// The mathematical value of an expression tree.
pub open spec fn view_expr(e: Expression) -> ExprV
    decreases e,
{
    match e {
        Expression::Variable(v) => ExprV::Variable(v@),
        Expression::Binary(op, left, right) => ExprV::Binary(
            op,
            Box::new(view_expr(*left)),
            Box::new(view_expr(*right)),
        ),
        Expression::Negate(inner) => ExprV::Negate(Box::new(view_expr(*inner))),
        Expression::Parens(inner) => ExprV::Parens(Box::new(view_expr(*inner))),
    }
}

impl View for Expression {
    type V = ExprV;

    open spec fn view(&self) -> ExprV {
        view_expr(*self)
    }
}

/// What resolving a leaf value gives: a location address becomes its visit
/// count, a global-variable address becomes the variable's value (itself
/// resolved one step when it is a location address), and plain values stand
/// for themselves.
pub open spec fn spec_resolve_value(v: VarV, d: FollowData) -> Result<VarV, InklingErrV> {
    match v {
        VarV::Address(a) => match a {
            AddressV::Validated(AddressKindV::Location { .. }) => match spec_get_num_visited(a, d) {
                Ok(c) => Ok(VarV::Int(c as i32)),
                Err(e) => Err(e),
            },
            AddressV::Validated(AddressKindV::GlobalVariable { name }) => if vars_map(
                d,
            ).dom().contains(name) {
                match vars_map(d)[name]@ {
                    VarV::Address(a2) => match a2 {
                        AddressV::Validated(AddressKindV::Location { .. }) => match
                        spec_get_num_visited(a2, d) {
                            Ok(c) => Ok(VarV::Int(c as i32)),
                            Err(e) => Err(e),
                        },
                        _ => Err(InklingErrV::Internal(InternalErrV::AddressIsNotLocation)),
                    },
                    other => Ok(other),
                }
            } else {
                Err(InklingErrV::InvalidAddress(AddressErrV::UnknownTarget { name }))
            },
            AddressV::Validated(_) => Err(
                InklingErrV::Internal(InternalErrV::AddressIsNotLocation),
            ),
            AddressV::Raw(_) => Err(InklingErrV::Internal(InternalErrV::UseOfUnvalidatedAddress)),
        },
        other => Ok(other),
    }
}

/// What an arithmetic operator gives on resolved operands. A comparison
/// operator is not arithmetic and is refused here.
pub open spec fn spec_apply_op(op: OpKind, a: VarV, b: VarV) -> Result<VarV, InklingErrV> {
    match op {
        OpKind::Plus => spec_plus(a, b),
        OpKind::Minus => spec_minus(a, b),
        OpKind::Times => spec_times(a, b),
        OpKind::DividedBy => spec_divided_by(a, b),
        OpKind::Remainder => spec_remainder(a, b),
        _ => Err(spec_op_err(op, a, b)),
    }
}

/// What evaluating an expression against the runtime data gives.
pub open spec fn spec_eval(e: ExprV, d: FollowData) -> Result<VarV, InklingErrV>
    decreases e,
{
    match e {
        ExprV::Variable(v) => spec_resolve_value(v, d),
        ExprV::Binary(op, left, right) => match spec_eval(*left, d) {
            Ok(a) => match spec_eval(*right, d) {
                Ok(b) => spec_apply_op(op, a, b),
                Err(e2) => Err(e2),
            },
            Err(e1) => Err(e1),
        },
        ExprV::Negate(inner) => match spec_eval(*inner, d) {
            Ok(a) => spec_negated(a),
            Err(e1) => Err(e1),
        },
        ExprV::Parens(inner) => spec_eval(*inner, d),
    }
}

/// Resolve a leaf variable against the runtime data.
fn resolve_value(v: &Variable, data: &FollowData) -> (r: Result<Variable, InklingError>)
    requires
        data_wf(*data),
    ensures
        match spec_resolve_value(v@, *data) {
            Ok(rv) => r is Ok && r->Ok_0@ == rv,
            Err(e) => r is Err && r->Err_0@ == e,
        },
{
    match v {
        Variable::Address(a) => {
            match a {
                crate::address::Address::Validated(kind) => match kind {
                    crate::address::AddressKind::Location { .. } => {
                        match get_num_visited(a, data) {
                            Ok(c) => Ok(Variable::Int(c as i32)),
                            Err(e) => Err(e),
                        }
                    },
                    crate::address::AddressKind::GlobalVariable { name } => {
                        match get_variable_value(data, name.as_str()) {
                            Some(value) => match &value {
                                Variable::Address(a2) => match a2 {
                                    crate::address::Address::Validated(
                                        crate::address::AddressKind::Location { .. },
                                    ) => {
                                        match get_num_visited(a2, data) {
                                            Ok(c) => Ok(Variable::Int(c as i32)),
                                            Err(e) => Err(e),
                                        }
                                    },
                                    _ => Err(
                                        InklingError::Internal(InternalError::AddressIsNotLocation),
                                    ),
                                },
                                _ => Ok(value.duplicate()),
                            },
                            None => Err(
                                InklingError::InvalidAddress(
                                    crate::error::InvalidAddressError::UnknownTarget {
                                        name: name.clone(),
                                    },
                                ),
                            ),
                        }
                    },
                    _ => Err(InklingError::Internal(InternalError::AddressIsNotLocation)),
                },
                crate::address::Address::Raw(_) => Err(
                    InklingError::Internal(InternalError::UseOfUnvalidatedAddress),
                ),
            }
        },
        other => Ok(other.duplicate()),
    }
}

impl Expression {
    /// A copy of this expression with the same mathematical value.
    pub fn duplicate(&self) -> (r: Expression)
        ensures
            r@ == self@,
        decreases *self,
    {
        match self {
            Expression::Variable(v) => Expression::Variable(v.duplicate()),
            Expression::Binary(op, left, right) => Expression::Binary(
                *op,
                Box::new(left.duplicate()),
                Box::new(right.duplicate()),
            ),
            Expression::Negate(inner) => Expression::Negate(Box::new(inner.duplicate())),
            Expression::Parens(inner) => Expression::Parens(Box::new(inner.duplicate())),
        }
    }

    /// Evaluate this expression against the runtime data.
    ///
    /// Address leaves resolve to visit counts or variable values before any
    /// operator applies; any operator on a divert value is an error.
    pub fn evaluate(&self, data: &FollowData) -> (r: Result<Variable, InklingError>)
        requires
            data_wf(*data),
        ensures
            match spec_eval(self@, *data) {
                Ok(rv) => r is Ok && r->Ok_0@ == rv,
                Err(e) => r is Err && r->Err_0@ == e,
            },
        decreases *self,
    {
        match self {
            Expression::Variable(v) => resolve_value(v, data),
            Expression::Binary(op, left, right) => {
                let a = match left.evaluate(data) {
                    Ok(a) => a,
                    Err(e) => {
                        return Err(e);
                    },
                };
                let b = match right.evaluate(data) {
                    Ok(b) => b,
                    Err(e) => {
                        return Err(e);
                    },
                };
                match op {
                    OpKind::Plus => a.plus(&b),
                    OpKind::Minus => a.minus(&b),
                    OpKind::Times => a.times(&b),
                    OpKind::DividedBy => a.divided_by(&b),
                    OpKind::Remainder => a.remainder(&b),
                    _ => Err(
                        InklingError::InvalidExpression {
                            operator: *op,
                            left_kind: a.kind(),
                            right_kind: b.kind(),
                        },
                    ),
                }
            },
            Expression::Negate(inner) => {
                match inner.evaluate(data) {
                    Ok(a) => a.negated(),
                    Err(e) => Err(e),
                }
            },
            Expression::Parens(inner) => inner.evaluate(data),
        }
    }
}


/// Evaluating an expression fails only with errors the walk can produce.
pub proof fn lemma_eval_err(e: ExprV, d: FollowData)
    ensures
        spec_eval(e, d) is Err ==> crate::error::walk_err(spec_eval(e, d)->Err_0),
    decreases e,
{
    match e {
        ExprV::Variable(_) => {},
        ExprV::Binary(op, left, right) => {
            lemma_eval_err(*left, d);
            lemma_eval_err(*right, d);
            if spec_eval(*left, d) is Ok && spec_eval(*right, d) is Ok {
                crate::variable::lemma_op_errs(
                    spec_eval(*left, d)->Ok_0,
                    spec_eval(*right, d)->Ok_0,
                );
            }
        },
        ExprV::Negate(inner) => {
            lemma_eval_err(*inner, d);
            if spec_eval(*inner, d) is Ok {
                crate::variable::lemma_op_errs(
                    spec_eval(*inner, d)->Ok_0,
                    spec_eval(*inner, d)->Ok_0,
                );
            }
        },
        ExprV::Parens(inner) => {
            lemma_eval_err(*inner, d);
        },
    }
}

} // verus!
