//! Addresses to locations (knots and stitches) or variables in a story.

use vstd::prelude::*;

use crate::error::InvalidAddressError;
use crate::text::{find_char, first_index_of, lemma_first_index_of, str_eq};

verus! {

/// What a validated address points at.
#[derive(Clone, Debug, PartialEq)]
pub enum AddressKind {
    /// A stitch in a knot. A bare knot address resolves to the knot's
    /// default stitch, whose name is the empty string.
    Location { knot: String, stitch: String },
    /// A global variable of the story.
    GlobalVariable { name: String },
    /// The reserved end-of-story target `END`.
    End,
    /// The reserved end-of-story target `DONE`.
    Done,
}

/// An address as written in the script (raw) or resolved against the
/// story's name tables (validated).
///
/// After validation every address reachable from the node graph is in the
/// `Validated` state.
#[derive(Clone, Debug, PartialEq)]
pub enum Address {
    /// The target text as typed: `knot`, `knot.stitch` or `.stitch`.
    Raw(String),
    /// A resolved target.
    Validated(AddressKind),
}

/// The mathematical value of an `AddressKind`.
#[verifier::ext_equal]
pub enum AddressKindV {
    Location { knot: Seq<char>, stitch: Seq<char> },
    GlobalVariable { name: Seq<char> },
    End,
    Done,
}

/// The mathematical value of an `Address`.
#[verifier::ext_equal]
pub enum AddressV {
    Raw(Seq<char>),
    Validated(AddressKindV),
}

impl View for AddressKind {
    type V = AddressKindV;

    open spec fn view(&self) -> AddressKindV {
        match self {
            AddressKind::Location { knot, stitch } => AddressKindV::Location {
                knot: knot@,
                stitch: stitch@,
            },
            AddressKind::GlobalVariable { name } => AddressKindV::GlobalVariable { name: name@ },
            AddressKind::End => AddressKindV::End,
            AddressKind::Done => AddressKindV::Done,
        }
    }
}

impl View for Address {
    type V = AddressV;

    open spec fn view(&self) -> AddressV {
        match self {
            Address::Raw(s) => AddressV::Raw(s@),
            Address::Validated(kind) => AddressV::Validated(kind@),
        }
    }
}

/// The mathematical value of an `InvalidAddressError`.
#[verifier::ext_equal]
pub enum AddressErrV {
    UnknownKnot { knot_name: Seq<char> },
    UnknownStitch { knot_name: Seq<char>, stitch_name: Seq<char> },
    UnknownTarget { name: Seq<char> },
    UsedBeforeValidation,
}

impl View for InvalidAddressError {
    type V = AddressErrV;

    open spec fn view(&self) -> AddressErrV {
        match self {
            InvalidAddressError::UnknownKnot { knot_name } => AddressErrV::UnknownKnot {
                knot_name: knot_name@,
            },
            InvalidAddressError::UnknownStitch { knot_name, stitch_name } => AddressErrV::UnknownStitch {
                knot_name: knot_name@,
                stitch_name: stitch_name@,
            },
            InvalidAddressError::UnknownTarget { name } => AddressErrV::UnknownTarget { name: name@ },
            InvalidAddressError::ValidatedAddressUsedBeforeValidation => AddressErrV::UsedBeforeValidation,
        }
    }
}

/// The names that address validation resolves against: every knot with its
/// stitch names, and every global variable name.
pub struct KnotNameEntry {
    /// Name of the knot.
    pub knot: String,
    /// Names of the knot's stitches, in script order.
    pub stitches: Vec<String>,
}

/// Name tables extracted from a story, used to resolve raw addresses.
pub struct ValidationData {
    /// Every knot with its stitch names.
    pub knots: Vec<KnotNameEntry>,
    /// Every global variable name.
    pub variables: Vec<String>,
}

/// Whether the table holds a knot with this name.
pub open spec fn table_has_knot(t: ValidationData, name: Seq<char>) -> bool {
    exists|i: int| 0 <= i < t.knots@.len() && t.knots@[i].knot@ == name
}

/// Whether the table holds this stitch in this knot.
pub open spec fn table_has_stitch(t: ValidationData, knot: Seq<char>, stitch: Seq<char>) -> bool {
    exists|i: int, j: int|
        0 <= i < t.knots@.len() && t.knots@[i].knot@ == knot && 0 <= j
            < t.knots@[i].stitches@.len() && t.knots@[i].stitches@[j]@ == stitch
}

/// Whether the table holds a global variable with this name.
pub open spec fn table_has_variable(t: ValidationData, name: Seq<char>) -> bool {
    exists|i: int| 0 <= i < t.variables@.len() && t.variables@[i]@ == name
}

fn table_contains_knot(data: &ValidationData, name: &str) -> (r: bool)
    ensures
        r == table_has_knot(*data, name@),
{
    let n = data.knots.len();
    let mut i: usize = 0;
    while i < n
        invariant
            n == data.knots@.len(),
            0 <= i <= n,
            forall|j: int| 0 <= j < i ==> data.knots@[j].knot@ != name@,
        decreases n - i,
    {
        if str_eq(data.knots[i].knot.as_str(), name) {
            return true;
        }
        i += 1;
    }
    false
}

fn table_contains_stitch(data: &ValidationData, knot: &str, stitch: &str) -> (r: bool)
    ensures
        r == table_has_stitch(*data, knot@, stitch@),
{
    let n = data.knots.len();
    let mut i: usize = 0;
    while i < n
        invariant
            n == data.knots@.len(),
            0 <= i <= n,
            forall|ii: int, j: int|
                0 <= ii < i && data.knots@[ii].knot@ == knot@ && 0 <= j
                    < data.knots@[ii].stitches@.len() ==> data.knots@[ii].stitches@[j]@ != stitch@,
        decreases n - i,
    {
        if str_eq(data.knots[i].knot.as_str(), knot) {
            let entry = &data.knots[i];
            let m = entry.stitches.len();
            let mut j: usize = 0;
            while j < m
                invariant
                    0 <= i < data.knots@.len(),
                    *entry == data.knots@[i as int],
                    entry.knot@ == knot@,
                    m == entry.stitches@.len(),
                    0 <= j <= m,
                    forall|jj: int| 0 <= jj < j ==> entry.stitches@[jj]@ != stitch@,
                decreases m - j,
            {
                if str_eq(entry.stitches[j].as_str(), stitch) {
                    proof {
                        let ii = i as int;
                        let jj = j as int;
                        assert(0 <= ii < data.knots@.len() && data.knots@[ii].knot@ == knot@ && 0
                            <= jj < data.knots@[ii].stitches@.len()
                            && data.knots@[ii].stitches@[jj]@ == stitch@);
                    }
                    return true;
                }
                j += 1;
            }
        }
        i += 1;
    }
    false
}

fn table_contains_variable(data: &ValidationData, name: &str) -> (r: bool)
    ensures
        r == table_has_variable(*data, name@),
{
    let n = data.variables.len();
    let mut i: usize = 0;
    while i < n
        invariant
            n == data.variables@.len(),
            0 <= i <= n,
            forall|j: int| 0 <= j < i ==> data.variables@[j]@ != name@,
        decreases n - i,
    {
        if str_eq(data.variables[i].as_str(), name) {
            return true;
        }
        i += 1;
    }
    false
}

/// What resolving a raw target against the tables gives, following the
/// tie-break order for a bare name: stitch of the current knot, then knot,
/// then global variable, then the reserved words `END` and `DONE`.
pub open spec fn spec_resolve(raw: Seq<char>, cur_knot: Seq<char>, t: ValidationData) -> Result<
    AddressKindV,
    AddressErrV,
> {
    let dot = first_index_of(raw, '.');
    if dot == 0 {
        let stitch = raw.subrange(1, raw.len() as int);
        if table_has_stitch(t, cur_knot, stitch) {
            Ok(AddressKindV::Location { knot: cur_knot, stitch })
        } else {
            Err(AddressErrV::UnknownStitch { knot_name: cur_knot, stitch_name: stitch })
        }
    } else if dot > 0 {
        let knot = raw.subrange(0, dot);
        let stitch = raw.subrange(dot + 1, raw.len() as int);
        if !table_has_knot(t, knot) {
            Err(AddressErrV::UnknownKnot { knot_name: knot })
        } else if table_has_stitch(t, knot, stitch) {
            Ok(AddressKindV::Location { knot, stitch })
        } else {
            Err(AddressErrV::UnknownStitch { knot_name: knot, stitch_name: stitch })
        }
    } else {
        if table_has_stitch(t, cur_knot, raw) {
            Ok(AddressKindV::Location { knot: cur_knot, stitch: raw })
        } else if table_has_knot(t, raw) {
            if table_has_stitch(t, raw, Seq::<char>::empty()) {
                Ok(AddressKindV::Location { knot: raw, stitch: Seq::<char>::empty() })
            } else {
                Err(AddressErrV::UnknownStitch { knot_name: raw, stitch_name: Seq::<char>::empty() })
            }
        } else if table_has_variable(t, raw) {
            Ok(AddressKindV::GlobalVariable { name: raw })
        } else if raw == "END"@ {
            Ok(AddressKindV::End)
        } else if raw == "DONE"@ {
            Ok(AddressKindV::Done)
        } else {
            Err(AddressErrV::UnknownTarget { name: raw })
        }
    }
}

/// What `Address::validate` does: an already validated address stays as it
/// is; a raw one is resolved against the tables, from the location that the
/// story is currently at.
pub open spec fn spec_validate(a: AddressV, current: AddressV, t: ValidationData) -> Result<
    AddressKindV,
    AddressErrV,
> {
    match a {
        AddressV::Validated(kind) => Ok(kind),
        AddressV::Raw(raw) => match current {
            AddressV::Validated(AddressKindV::Location { knot, .. }) => spec_resolve(raw, knot, t),
            _ => Err(AddressErrV::UsedBeforeValidation),
        },
    }
}

impl Address {
    /// Build a validated location address directly, without consulting any
    /// name table. `None` as the stitch denotes the knot's default stitch.
    pub fn from_parts_unchecked(knot: &str, stitch: Option<&str>) -> (r: Address)
        ensures
            r@ == AddressV::Validated(
                AddressKindV::Location {
                    knot: knot@,
                    stitch: match stitch {
                        Some(s) => s@,
                        None => Seq::<char>::empty(),
                    },
                },
            ),
    {
        let stitch_name: String = match stitch {
            Some(s) => s.to_owned(),
            None => String::new(),
        };
        Address::Validated(AddressKind::Location { knot: knot.to_owned(), stitch: stitch_name })
    }

    /// An exact copy of this address.
    pub fn duplicate(&self) -> (r: Address)
        ensures
            r == *self,
    {
        match self {
            Address::Raw(s) => Address::Raw(s.clone()),
            Address::Validated(kind) => Address::Validated(
                match kind {
                    AddressKind::Location { knot, stitch } => AddressKind::Location {
                        knot: knot.clone(),
                        stitch: stitch.clone(),
                    },
                    AddressKind::GlobalVariable { name } => AddressKind::GlobalVariable {
                        name: name.clone(),
                    },
                    AddressKind::End => AddressKind::End,
                    AddressKind::Done => AddressKind::Done,
                },
            ),
        }
    }

    /// Whether this address has been validated.
    pub fn is_validated(&self) -> (r: bool)
        ensures
            r == (self@ is Validated),
    {
        match self {
            Address::Validated(_) => true,
            Address::Raw(_) => false,
        }
    }

    /// Resolve this address against the story's name tables.
    ///
    /// A raw target is replaced by its resolved form; a validated address is
    /// left as it is. `current` names the location whose knot resolves
    /// stitch-local targets.
    pub fn validate(&mut self, current: &Address, data: &ValidationData) -> (r: Result<
        (),
        InvalidAddressError,
    >)
        ensures
            match spec_validate(old(self)@, current@, *data) {
                Ok(kind) => r is Ok && final(self)@ == AddressV::Validated(kind),
                Err(e) => r is Err && r->Err_0@ == e && final(self)@ == old(self)@,
            },
    {
        let raw_string: String = match &*self {
            Address::Validated(_) => {
                return Ok(());
            },
            Address::Raw(s) => s.clone(),
        };
        let cur_knot: String = match current {
            Address::Validated(AddressKind::Location { knot, .. }) => knot.clone(),
            _ => {
                return Err(InvalidAddressError::ValidatedAddressUsedBeforeValidation);
            },
        };
        let raw = raw_string.as_str();
        let n = raw.unicode_len();
        proof {
            lemma_first_index_of(raw@, '.');
        }
        let ghost expected = spec_resolve(raw@, cur_knot@, *data);
        let outcome: Result<AddressKind, InvalidAddressError> = match find_char(raw, '.') {
            Some(dot) => {
                if dot == 0 {
                    let stitch = raw.substring_char(1, n);
                    if table_contains_stitch(data, cur_knot.as_str(), stitch) {
                        Ok(AddressKind::Location { knot: cur_knot, stitch: stitch.to_owned() })
                    } else {
                        Err(InvalidAddressError::UnknownStitch {
                            knot_name: cur_knot,
                            stitch_name: stitch.to_owned(),
                        })
                    }
                } else {
                    let knot = raw.substring_char(0, dot);
                    let stitch = raw.substring_char(dot + 1, n);
                    if !table_contains_knot(data, knot) {
                        Err(InvalidAddressError::UnknownKnot { knot_name: knot.to_owned() })
                    } else if table_contains_stitch(data, knot, stitch) {
                        Ok(AddressKind::Location { knot: knot.to_owned(), stitch: stitch.to_owned() })
                    } else {
                        Err(InvalidAddressError::UnknownStitch {
                            knot_name: knot.to_owned(),
                            stitch_name: stitch.to_owned(),
                        })
                    }
                }
            },
            None => {
                proof {
                    reveal_strlit("");
                    assert(""@ =~= Seq::<char>::empty());
                }
                if table_contains_stitch(data, cur_knot.as_str(), raw) {
                    Ok(AddressKind::Location { knot: cur_knot, stitch: raw_string.clone() })
                } else if table_contains_knot(data, raw) {
                    if table_contains_stitch(data, raw, "") {
                        Ok(AddressKind::Location { knot: raw_string.clone(), stitch: String::new() })
                    } else {
                        Err(InvalidAddressError::UnknownStitch {
                            knot_name: raw_string.clone(),
                            stitch_name: String::new(),
                        })
                    }
                } else if table_contains_variable(data, raw) {
                    Ok(AddressKind::GlobalVariable { name: raw_string.clone() })
                } else if str_eq(raw, "END") {
                    Ok(AddressKind::End)
                } else if str_eq(raw, "DONE") {
                    Ok(AddressKind::Done)
                } else {
                    Err(InvalidAddressError::UnknownTarget { name: raw_string.clone() })
                }
            },
        };
        match outcome {
            Ok(kind) => {
                proof {
                    assert(expected is Ok && kind@ =~= expected->Ok_0);
                }
                *self = Address::Validated(kind);
                Ok(())
            },
            Err(e) => {
                proof {
                    assert(expected is Err && e@ =~= expected->Err_0);
                }
                Err(e)
            },
        }
    }
}

} // verus!
