//! Errors from creating or walking through stories.

use vstd::prelude::*;

use crate::address::AddressErrV;
use crate::text::{dec_str, push_u32};
use crate::variable::{OpKind, VarV, Variable, VariableKind};

verus! {

/// Information about the origin of an item.
///
/// Points back at the line of the script that an item was read from, so that
/// errors and warnings can say where they came from.
#[derive(Clone, Debug, PartialEq, Eq, Structural)]
pub struct MetaData {
    /// Which line in the original story the item originated from.
    pub line_index: u32,
}

impl MetaData {
    /// Get the line number of the corresponding data in a file.
    ///
    /// # Indexing
    /// Line numbers start from 1; the stored index starts from 0.
    pub fn line(&self) -> (n: u32)
        requires
            self.line_index < u32::MAX,
        ensures
            n == self.line_index + 1,
    {
        self.line_index + 1
    }
}

impl From<usize> for MetaData {
    fn from(line_index: usize) -> (r: MetaData) {
        MetaData { line_index: line_index as u32 }
    }
}

impl vstd::std_specs::convert::FromSpecImpl<usize> for MetaData {
    open spec fn obeys_from_spec() -> bool {
        true
    }

    open spec fn from_spec(line_index: usize) -> MetaData {
        MetaData { line_index: line_index as u32 }
    }
}

/// Write meta data information for a line or piece of content in a story.
///
/// Appends `"(line N) "` to the buffer, where `N` is the one-based line number.
pub fn write_line_information(buffer: &mut String, meta_data: &MetaData)
    requires
        meta_data.line_index < u32::MAX,
    ensures
        final(buffer)@ == old(buffer)@ + line_information(*meta_data),
{
    proof {
        reveal_strlit("(line ");
        reveal_strlit(") ");
    }
    buffer.append("(line ");
    let n = meta_data.line();
    push_u32(buffer, n);
    buffer.append(") ");
    proof {
        assert(buffer@ =~= old(buffer)@ + line_information(*meta_data));
    }
}

/// The text that `write_line_information` appends for a given origin.
pub open spec fn line_information(meta_data: MetaData) -> Seq<char> {
    "(line "@ + dec_str((meta_data.line_index + 1) as nat) + ") "@
}

/// The slot of the position stack that an internal stack error points at.
#[derive(Clone, Copy, Debug, PartialEq, Eq, Structural)]
pub enum IncorrectNodeStackError {
    /// The position stack was empty where an index was needed.
    EmptyStack,
    /// A stack slot indexed past the items or branches it points into.
    OutOfBounds { index: usize, len: usize },
    /// A stack slot pointed at an item that is not a branching point
    /// where a branch had to be selected.
    ExpectedBranchingPoint { index: usize },
}

/// A broken internal invariant: an implementation bug, not a script error.
#[derive(Clone, Debug, PartialEq)]
pub enum InternalError {
    /// The position stack does not fit the node graph.
    IncorrectNodeStack(IncorrectNodeStackError),
    /// A visit count was asked for a location that the story does not hold.
    UnknownLocation { knot: String, stitch: String },
    /// An address that should have been validated was still raw.
    UseOfUnvalidatedAddress,
    /// A location was needed but the address points at something else.
    AddressIsNotLocation,
}

/// The mathematical value of an `InternalError`.
#[verifier::ext_equal]
pub enum InternalErrV {
    IncorrectNodeStack(IncorrectNodeStackError),
    UnknownLocation { knot: Seq<char>, stitch: Seq<char> },
    UseOfUnvalidatedAddress,
    AddressIsNotLocation,
}

impl View for InternalError {
    type V = InternalErrV;

    open spec fn view(&self) -> InternalErrV {
        match self {
            InternalError::IncorrectNodeStack(e) => InternalErrV::IncorrectNodeStack(*e),
            InternalError::UnknownLocation { knot, stitch } => InternalErrV::UnknownLocation {
                knot: knot@,
                stitch: stitch@,
            },
            InternalError::UseOfUnvalidatedAddress => InternalErrV::UseOfUnvalidatedAddress,
            InternalError::AddressIsNotLocation => InternalErrV::AddressIsNotLocation,
        }
    }
}

/// An address in the script could not be resolved.
#[derive(Clone, Debug, PartialEq)]
pub enum InvalidAddressError {
    /// No knot with this name exists in the story.
    UnknownKnot { knot_name: String },
    /// The knot exists but holds no stitch with this name.
    UnknownStitch { knot_name: String, stitch_name: String },
    /// A bare name matched no stitch, knot, variable or reserved word.
    UnknownTarget { name: String },
    /// An address was used where a validated address was required
    /// before validation ran: an internal bug, not a script error.
    ValidatedAddressUsedBeforeValidation,
}

/// Errors from walking through a story.
#[derive(Clone, Debug, PartialEq)]
pub enum InklingError {
    /// An address could not be resolved, at validation or at run time.
    InvalidAddress(InvalidAddressError),
    /// A broken internal invariant: a bug in the processor, not the script.
    Internal(InternalError),
    /// The host passed an index outside the presented choice list
    /// to `make_choice`.
    InvalidChoice { presented_index: usize, presented_len: usize },
    /// A divert value was rendered as text.
    PrintInvalidVariable { name: String, value: Variable },
    /// An operator was applied to operand kinds it does not accept.
    InvalidExpression { operator: OpKind, left_kind: VariableKind, right_kind: VariableKind },
    /// A division or remainder by zero.
    DivisionByZero,
    /// `resume` was called before `start`.
    ResumedBeforeStart,
    /// `start` was called on a story that had already started.
    CannotStartTwice,
    /// `make_choice` was called while no choice was being asked for.
    MadeChoiceWithoutChoice,
    /// More diverts fired in one `resume` call than the loop guard allows.
    InfiniteLoop { divert_chain_length: u32 },
    /// `set_variable` tried to change the kind that the first assignment
    /// of the variable fixed.
    SetVariableWrongKind { name: String },
    /// `set_variable` tried to store a divert value.
    SetVariableToDivert { name: String },
}

/// The mathematical value of an `InklingError`.
#[verifier::ext_equal]
pub enum InklingErrV {
    InvalidAddress(AddressErrV),
    Internal(InternalErrV),
    InvalidChoice { presented_index: usize, presented_len: usize },
    PrintInvalidVariable { name: Seq<char>, value: VarV },
    InvalidExpression { operator: OpKind, left_kind: VariableKind, right_kind: VariableKind },
    DivisionByZero,
    ResumedBeforeStart,
    CannotStartTwice,
    MadeChoiceWithoutChoice,
    InfiniteLoop { divert_chain_length: u32 },
    SetVariableWrongKind { name: Seq<char> },
    SetVariableToDivert { name: Seq<char> },
}

impl View for InklingError {
    type V = InklingErrV;

    open spec fn view(&self) -> InklingErrV {
        match self {
            InklingError::InvalidAddress(e) => InklingErrV::InvalidAddress(e@),
            InklingError::Internal(e) => InklingErrV::Internal(e@),
            InklingError::InvalidChoice { presented_index, presented_len } => InklingErrV::InvalidChoice {
                presented_index: *presented_index,
                presented_len: *presented_len,
            },
            InklingError::PrintInvalidVariable { name, value } => InklingErrV::PrintInvalidVariable {
                name: name@,
                value: value@,
            },
            InklingError::InvalidExpression { operator, left_kind, right_kind } => InklingErrV::InvalidExpression {
                operator: *operator,
                left_kind: *left_kind,
                right_kind: *right_kind,
            },
            InklingError::DivisionByZero => InklingErrV::DivisionByZero,
            InklingError::ResumedBeforeStart => InklingErrV::ResumedBeforeStart,
            InklingError::CannotStartTwice => InklingErrV::CannotStartTwice,
            InklingError::MadeChoiceWithoutChoice => InklingErrV::MadeChoiceWithoutChoice,
            InklingError::InfiniteLoop { divert_chain_length } => InklingErrV::InfiniteLoop {
                divert_chain_length: *divert_chain_length,
            },
            InklingError::SetVariableWrongKind { name } => InklingErrV::SetVariableWrongKind {
                name: name@,
            },
            InklingError::SetVariableToDivert { name } => InklingErrV::SetVariableToDivert {
                name: name@,
            },
        }
    }
}


/// Whether an error is one the walk itself can produce: an evaluation,
/// rendering, address or internal failure — never a host-protocol error and
/// never the divert-loop guard.
pub open spec fn walk_err(e: InklingErrV) -> bool {
    match e {
        InklingErrV::InvalidAddress(_) => true,
        InklingErrV::Internal(_) => true,
        InklingErrV::PrintInvalidVariable { .. } => true,
        InklingErrV::InvalidExpression { .. } => true,
        InklingErrV::DivisionByZero => true,
        _ => false,
    }
}

} // verus!
