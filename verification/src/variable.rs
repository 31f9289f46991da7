//! Types of variables used in a story.

use vstd::prelude::*;

use crate::address::{Address, AddressV};
use crate::error::{InklingErrV, InklingError};
use crate::follow::{spec_get_num_visited, counts_wf, get_num_visited, FollowData};
use crate::text::{dec_str, dec_str_signed, i32_to_string, lex_lt, str_lt, string_eq, u32_to_string};

verus! {

/// The kind of a variable, as named in expression errors.
#[derive(Clone, Copy, Debug, PartialEq, Eq, Structural)]
pub enum VariableKind {
    Address,
    Bool,
    Divert,
    Int,
    String,
}

/// The operator that an expression error points at.
#[derive(Clone, Copy, Debug, PartialEq, Eq, Structural)]
pub enum OpKind {
    Plus,
    Minus,
    Times,
    DividedBy,
    Remainder,
    Negate,
    Equal,
    NotEqual,
    LessThan,
    LessThanOrEqual,
    GreaterThan,
    GreaterThanOrEqual,
}

/// Variables in a story.
///
/// Not all of these evaluate to a string when used as text in a line.
/// Numbers and strings make perfect sense to print; a divert to another
/// location, not as much: rendering one raises an error.
#[derive(Clone, Debug, PartialEq)]
pub enum Variable {
    /// Address of a stitch; evaluates to the number of times it has been
    /// visited.
    Address(Address),
    /// True or false; evaluates to 1 for true and 0 for false.
    Bool(bool),
    /// Divert to another address. *Cannot be printed.*
    Divert(Address),
    /// Integer number.
    Int(i32),
    /// Text string.
    String(String),
}

/// The mathematical value of a `Variable`.
#[verifier::ext_equal]
pub enum VarV {
    Address(AddressV),
    Bool(bool),
    Divert(AddressV),
    Int(i32),
    String(Seq<char>),
}

impl View for Variable {
    type V = VarV;

    open spec fn view(&self) -> VarV {
        match self {
            Variable::Address(a) => VarV::Address(a@),
            Variable::Bool(b) => VarV::Bool(*b),
            Variable::Divert(a) => VarV::Divert(a@),
            Variable::Int(x) => VarV::Int(*x),
            Variable::String(s) => VarV::String(s@),
        }
    }
}

impl Variable {
    /// The kind of this variable.
    pub open spec fn kind_spec(&self) -> VariableKind {
        match self {
            Variable::Address(_) => VariableKind::Address,
            Variable::Bool(_) => VariableKind::Bool,
            Variable::Divert(_) => VariableKind::Divert,
            Variable::Int(_) => VariableKind::Int,
            Variable::String(_) => VariableKind::String,
        }
    }

    /// The kind of this variable.
    #[verifier::when_used_as_spec(kind_spec)]
    pub fn kind(&self) -> (k: VariableKind)
        ensures
            k == self.kind_spec(),
    {
        match self {
            Variable::Address(_) => VariableKind::Address,
            Variable::Bool(_) => VariableKind::Bool,
            Variable::Divert(_) => VariableKind::Divert,
            Variable::Int(_) => VariableKind::Int,
            Variable::String(_) => VariableKind::String,
        }
    }

    /// An exact copy of this variable.
    pub fn duplicate(&self) -> (r: Variable)
        ensures
            r == *self,
    {
        match self {
            Variable::Address(a) => Variable::Address(a.duplicate()),
            Variable::Bool(b) => Variable::Bool(*b),
            Variable::Divert(a) => Variable::Divert(a.duplicate()),
            Variable::Int(x) => Variable::Int(*x),
            Variable::String(s) => Variable::String(s.clone()),
        }
    }

    /// Return a string representation of the variable.
    ///
    /// Addresses print as their visit count; booleans as `1` or `0`;
    /// diverts cannot be printed and give `PrintInvalidVariable`.
    pub fn to_string(&self, data: &FollowData) -> (r: Result<String, InklingError>)
        requires
            counts_wf(*data),
        ensures
            match spec_variable_text(self@, *data) {
                Ok(t) => r is Ok && r->Ok_0@ == t,
                Err(e) => r is Err && r->Err_0@ == e,
            },
    {
        match self {
            Variable::Address(address) => {
                match get_num_visited(address, data) {
                    Ok(num_visited) => Ok(u32_to_string(num_visited)),
                    Err(err) => Err(err),
                }
            },
            Variable::Bool(value) => {
                proof {
                    reveal_strlit("1");
                    reveal_strlit("0");
                }
                if *value {
                    Ok("1".to_owned())
                } else {
                    Ok("0".to_owned())
                }
            },
            Variable::Divert(_) => Err(
                InklingError::PrintInvalidVariable { name: String::new(), value: self.duplicate() },
            ),
            Variable::Int(value) => Ok(i32_to_string(*value)),
            Variable::String(content) => Ok(content.clone()),
        }
    }
}

/// What rendering a variable as text gives.
pub open spec fn spec_variable_text(v: VarV, d: FollowData) -> Result<Seq<char>, InklingErrV> {
    match v {
        VarV::Address(a) => match spec_get_num_visited(a, d) {
            Ok(c) => Ok(dec_str(c as nat)),
            Err(e) => Err(e),
        },
        VarV::Bool(b) => Ok(if b {
            "1"@
        } else {
            "0"@
        }),
        VarV::Divert(_) => Err(InklingErrV::PrintInvalidVariable { name: Seq::empty(), value: v }),
        VarV::Int(x) => Ok(dec_str_signed(x as int)),
        VarV::String(s) => Ok(s),
    }
}

/// The kind of a variable value.
pub open spec fn kind_of(v: VarV) -> VariableKind {
    match v {
        VarV::Address(_) => VariableKind::Address,
        VarV::Bool(_) => VariableKind::Bool,
        VarV::Divert(_) => VariableKind::Divert,
        VarV::Int(_) => VariableKind::Int,
        VarV::String(_) => VariableKind::String,
    }
}

/// The expression error for an operator applied to these operands.
pub open spec fn spec_op_err(op: OpKind, a: VarV, b: VarV) -> InklingErrV {
    InklingErrV::InvalidExpression { operator: op, left_kind: kind_of(a), right_kind: kind_of(b) }
}

/// What `plus` gives: wrapping addition of integers, or concatenation when
/// the left side is a string, with the right side coerced to its print form.
pub open spec fn spec_plus(a: VarV, b: VarV) -> Result<VarV, InklingErrV> {
    match (a, b) {
        (VarV::Int(x), VarV::Int(y)) => Ok(VarV::Int(i32::wrapping_add(x, y))),
        (VarV::String(s), VarV::String(t)) => Ok(VarV::String(s + t)),
        (VarV::String(s), VarV::Int(y)) => Ok(VarV::String(s + dec_str_signed(y as int))),
        (VarV::String(s), VarV::Bool(bb)) => Ok(
            VarV::String(
                s + if bb {
                    "1"@
                } else {
                    "0"@
                },
            ),
        ),
        _ => Err(spec_op_err(OpKind::Plus, a, b)),
    }
}

/// What `minus` gives: wrapping subtraction of integers.
pub open spec fn spec_minus(a: VarV, b: VarV) -> Result<VarV, InklingErrV> {
    match (a, b) {
        (VarV::Int(x), VarV::Int(y)) => Ok(VarV::Int(i32::wrapping_sub(x, y))),
        _ => Err(spec_op_err(OpKind::Minus, a, b)),
    }
}

/// What `times` gives: wrapping multiplication of integers.
pub open spec fn spec_times(a: VarV, b: VarV) -> Result<VarV, InklingErrV> {
    match (a, b) {
        (VarV::Int(x), VarV::Int(y)) => Ok(VarV::Int(i32::wrapping_mul(x, y))),
        _ => Err(spec_op_err(OpKind::Times, a, b)),
    }
}

/// Truncated division as the machine performs it, wrapping on the one
/// overflowing pair.
pub open spec fn spec_div_i32(x: i32, y: i32) -> i32
    recommends
        y != 0,
{
    match i32::checked_div(x, y) {
        Some(q) => q,
        None => i32::MIN,
    }
}

/// Truncated remainder as the machine performs it, wrapping on the one
/// overflowing pair.
pub open spec fn spec_rem_i32(x: i32, y: i32) -> i32
    recommends
        y != 0,
{
    match i32::checked_rem(x, y) {
        Some(q) => q,
        None => 0,
    }
}

/// What `divided_by` gives: truncated integer division; dividing by zero is
/// an error, never a silent value.
pub open spec fn spec_divided_by(a: VarV, b: VarV) -> Result<VarV, InklingErrV> {
    match (a, b) {
        (VarV::Int(x), VarV::Int(y)) => if y == 0 {
            Err(InklingErrV::DivisionByZero)
        } else {
            Ok(VarV::Int(spec_div_i32(x, y)))
        },
        _ => Err(spec_op_err(OpKind::DividedBy, a, b)),
    }
}

/// What `remainder` gives: truncated integer remainder; a zero divisor is
/// an error.
pub open spec fn spec_remainder(a: VarV, b: VarV) -> Result<VarV, InklingErrV> {
    match (a, b) {
        (VarV::Int(x), VarV::Int(y)) => if y == 0 {
            Err(InklingErrV::DivisionByZero)
        } else {
            Ok(VarV::Int(spec_rem_i32(x, y)))
        },
        _ => Err(spec_op_err(OpKind::Remainder, a, b)),
    }
}

/// What `negated` gives: wrapping negation of an integer.
pub open spec fn spec_negated(a: VarV) -> Result<VarV, InklingErrV> {
    match a {
        VarV::Int(x) => Ok(VarV::Int(i32::wrapping_sub(0i32, x))),
        _ => Err(spec_op_err(OpKind::Negate, a, a)),
    }
}

/// What `equal_to` gives: equality on matching kinds, an error on the rest.
pub open spec fn spec_equal(a: VarV, b: VarV) -> Result<bool, InklingErrV> {
    match (a, b) {
        (VarV::Int(x), VarV::Int(y)) => Ok(x == y),
        (VarV::Bool(x), VarV::Bool(y)) => Ok(x == y),
        (VarV::String(s), VarV::String(t)) => Ok(s == t),
        _ => Err(spec_op_err(OpKind::Equal, a, b)),
    }
}

/// What `less_than` gives: numeric order on integers, lexicographic order
/// by code point on strings.
pub open spec fn spec_less_than(a: VarV, b: VarV) -> Result<bool, InklingErrV> {
    match (a, b) {
        (VarV::Int(x), VarV::Int(y)) => Ok(x < y),
        (VarV::String(s), VarV::String(t)) => Ok(lex_lt(s, t)),
        _ => Err(spec_op_err(OpKind::LessThan, a, b)),
    }
}

impl Variable {
    /// Add this variable to another: numeric addition, or string
    /// concatenation when the left side is a string.
    pub fn plus(&self, other: &Variable) -> (r: Result<Variable, InklingError>)
        ensures
            match spec_plus(self@, other@) {
                Ok(v) => r is Ok && r->Ok_0@ == v,
                Err(e) => r is Err && r->Err_0@ == e,
            },
    {
        match (self, other) {
            (Variable::Int(x), Variable::Int(y)) => Ok(Variable::Int(x.wrapping_add(*y))),
            (Variable::String(s), Variable::String(t)) => {
                let mut out = s.clone();
                out.append(t.as_str());
                Ok(Variable::String(out))
            },
            (Variable::String(s), Variable::Int(y)) => {
                let mut out = s.clone();
                let num = i32_to_string(*y);
                out.append(num.as_str());
                Ok(Variable::String(out))
            },
            (Variable::String(s), Variable::Bool(bb)) => {
                proof {
                    reveal_strlit("1");
                    reveal_strlit("0");
                }
                let mut out = s.clone();
                if *bb {
                    out.append("1");
                } else {
                    out.append("0");
                }
                Ok(Variable::String(out))
            },
            _ => Err(
                InklingError::InvalidExpression {
                    operator: OpKind::Plus,
                    left_kind: self.kind(),
                    right_kind: other.kind(),
                },
            ),
        }
    }

    /// Subtract another variable from this one.
    pub fn minus(&self, other: &Variable) -> (r: Result<Variable, InklingError>)
        ensures
            match spec_minus(self@, other@) {
                Ok(v) => r is Ok && r->Ok_0@ == v,
                Err(e) => r is Err && r->Err_0@ == e,
            },
    {
        match (self, other) {
            (Variable::Int(x), Variable::Int(y)) => Ok(Variable::Int(x.wrapping_sub(*y))),
            _ => Err(
                InklingError::InvalidExpression {
                    operator: OpKind::Minus,
                    left_kind: self.kind(),
                    right_kind: other.kind(),
                },
            ),
        }
    }

    /// Multiply this variable by another.
    pub fn times(&self, other: &Variable) -> (r: Result<Variable, InklingError>)
        ensures
            match spec_times(self@, other@) {
                Ok(v) => r is Ok && r->Ok_0@ == v,
                Err(e) => r is Err && r->Err_0@ == e,
            },
    {
        match (self, other) {
            (Variable::Int(x), Variable::Int(y)) => Ok(Variable::Int(x.wrapping_mul(*y))),
            _ => Err(
                InklingError::InvalidExpression {
                    operator: OpKind::Times,
                    left_kind: self.kind(),
                    right_kind: other.kind(),
                },
            ),
        }
    }

    /// Divide this variable by another. Division by zero is an error.
    pub fn divided_by(&self, other: &Variable) -> (r: Result<Variable, InklingError>)
        ensures
            match spec_divided_by(self@, other@) {
                Ok(v) => r is Ok && r->Ok_0@ == v,
                Err(e) => r is Err && r->Err_0@ == e,
            },
    {
        match (self, other) {
            (Variable::Int(x), Variable::Int(y)) => {
                if *y == 0 {
                    Err(InklingError::DivisionByZero)
                } else {
                    match x.checked_div(*y) {
                        Some(q) => Ok(Variable::Int(q)),
                        None => Ok(Variable::Int(i32::MIN)),
                    }
                }
            },
            _ => Err(
                InklingError::InvalidExpression {
                    operator: OpKind::DividedBy,
                    left_kind: self.kind(),
                    right_kind: other.kind(),
                },
            ),
        }
    }

    /// The remainder of dividing this variable by another. A zero divisor
    /// is an error.
    pub fn remainder(&self, other: &Variable) -> (r: Result<Variable, InklingError>)
        ensures
            match spec_remainder(self@, other@) {
                Ok(v) => r is Ok && r->Ok_0@ == v,
                Err(e) => r is Err && r->Err_0@ == e,
            },
    {
        match (self, other) {
            (Variable::Int(x), Variable::Int(y)) => {
                if *y == 0 {
                    Err(InklingError::DivisionByZero)
                } else {
                    match x.checked_rem(*y) {
                        Some(q) => Ok(Variable::Int(q)),
                        None => Ok(Variable::Int(0)),
                    }
                }
            },
            _ => Err(
                InklingError::InvalidExpression {
                    operator: OpKind::Remainder,
                    left_kind: self.kind(),
                    right_kind: other.kind(),
                },
            ),
        }
    }

    /// The arithmetic negation of this variable.
    pub fn negated(&self) -> (r: Result<Variable, InklingError>)
        ensures
            match spec_negated(self@) {
                Ok(v) => r is Ok && r->Ok_0@ == v,
                Err(e) => r is Err && r->Err_0@ == e,
            },
    {
        match self {
            Variable::Int(x) => Ok(Variable::Int(0i32.wrapping_sub(*x))),
            _ => Err(
                InklingError::InvalidExpression {
                    operator: OpKind::Negate,
                    left_kind: self.kind(),
                    right_kind: self.kind(),
                },
            ),
        }
    }

    /// Whether this variable equals another of the same kind. Comparing
    /// incompatible kinds is an error.
    pub fn equal_to(&self, other: &Variable) -> (r: Result<bool, InklingError>)
        ensures
            match spec_equal(self@, other@) {
                Ok(v) => r is Ok && r->Ok_0 == v,
                Err(e) => r is Err && r->Err_0@ == e,
            },
    {
        match (self, other) {
            (Variable::Int(x), Variable::Int(y)) => Ok(*x == *y),
            (Variable::Bool(x), Variable::Bool(y)) => Ok(*x == *y),
            (Variable::String(s), Variable::String(t)) => Ok(string_eq(s, t)),
            _ => Err(
                InklingError::InvalidExpression {
                    operator: OpKind::Equal,
                    left_kind: self.kind(),
                    right_kind: other.kind(),
                },
            ),
        }
    }

    /// Whether this variable orders strictly below another of the same
    /// kind: numerically for integers, lexicographically for strings.
    pub fn less_than(&self, other: &Variable) -> (r: Result<bool, InklingError>)
        ensures
            match spec_less_than(self@, other@) {
                Ok(v) => r is Ok && r->Ok_0 == v,
                Err(e) => r is Err && r->Err_0@ == e,
            },
    {
        match (self, other) {
            (Variable::Int(x), Variable::Int(y)) => Ok(*x < *y),
            (Variable::String(s), Variable::String(t)) => Ok(str_lt(s.as_str(), t.as_str())),
            _ => Err(
                InklingError::InvalidExpression {
                    operator: OpKind::LessThan,
                    left_kind: self.kind(),
                    right_kind: other.kind(),
                },
            ),
        }
    }
}


/// Rendering a variable fails only with errors the walk can produce.
pub proof fn lemma_variable_text_err(v: VarV, d: FollowData)
    ensures
        spec_variable_text(v, d) is Err ==> crate::error::walk_err(
            spec_variable_text(v, d)->Err_0,
        ),
{
}

/// The variable operators fail only with errors the walk can produce.
pub proof fn lemma_op_errs(a: VarV, b: VarV)
    ensures
        spec_plus(a, b) is Err ==> crate::error::walk_err(spec_plus(a, b)->Err_0),
        spec_minus(a, b) is Err ==> crate::error::walk_err(spec_minus(a, b)->Err_0),
        spec_times(a, b) is Err ==> crate::error::walk_err(spec_times(a, b)->Err_0),
        spec_divided_by(a, b) is Err ==> crate::error::walk_err(spec_divided_by(a, b)->Err_0),
        spec_remainder(a, b) is Err ==> crate::error::walk_err(spec_remainder(a, b)->Err_0),
        spec_negated(a) is Err ==> crate::error::walk_err(spec_negated(a)->Err_0),
        spec_equal(a, b) is Err ==> crate::error::walk_err(spec_equal(a, b)->Err_0),
        spec_less_than(a, b) is Err ==> crate::error::walk_err(spec_less_than(a, b)->Err_0),
{
}

} // verus!
