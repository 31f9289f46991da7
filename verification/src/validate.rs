//! The post-parse validation pass: resolve every address in the tree
//! against the story's name tables, collecting all failures in one batch
//! rather than stopping at the first.

use vstd::prelude::*;

use crate::address::{spec_validate, Address, AddressV, ValidationData};
use crate::choice::InternalChoice;
use crate::condition::{CondV, Condition};
use crate::error::{InvalidAddressError, MetaData};
use crate::expression::{ExprV, Expression};
use crate::line::{view_chunk, view_chunks, ChunkV, InternalLine, InternalLineV, LineChunk};
use crate::log::{Logger, Warning};
use crate::node::{
    lemma_view_branches, lemma_view_items, view_branch, view_branches, view_item, view_items,
    Branch, BranchV, ItemV, NodeItem, RootNode,
};
use crate::variable::{VarV, Variable};

verus! {

/// The batch of address failures that one validation pass gathered.
pub struct ValidationError {
    /// Every unresolved address, in traversal order.
    pub invalid_addresses: Vec<InvalidAddressError>,
}

impl ValidationError {
    /// An empty batch.
    pub fn new() -> (r: ValidationError)
        ensures
            r.invalid_addresses@.len() == 0,
    {
        ValidationError { invalid_addresses: Vec::new() }
    }

    /// How many failures the batch holds.
    pub fn num_errors(&self) -> (n: usize)
        ensures
            n == self.invalid_addresses@.len(),
    {
        self.invalid_addresses.len()
    }
}

/// Whether a variable value holds only validated addresses.
pub open spec fn var_addresses_valid(v: VarV) -> bool {
    match v {
        VarV::Address(a) => a is Validated,
        VarV::Divert(a) => a is Validated,
        _ => true,
    }
}

/// Whether an expression holds only validated addresses.
pub open spec fn expr_addresses_valid(e: ExprV) -> bool
    decreases e,
{
    match e {
        ExprV::Variable(v) => var_addresses_valid(v),
        ExprV::Binary(_, left, right) => expr_addresses_valid(*left) && expr_addresses_valid(
            *right,
        ),
        ExprV::Negate(inner) => expr_addresses_valid(*inner),
        ExprV::Parens(inner) => expr_addresses_valid(*inner),
    }
}

/// Whether a condition holds only validated addresses.
pub open spec fn cond_addresses_valid(c: CondV) -> bool
    decreases c,
{
    match c {
        CondV::Comparison { lhs, op, rhs } => expr_addresses_valid(lhs)
            && expr_addresses_valid(rhs),
        CondV::Truthy(e) => expr_addresses_valid(e),
        CondV::Not(inner) => cond_addresses_valid(*inner),
        CondV::And(left, right) => cond_addresses_valid(*left)
            && cond_addresses_valid(*right),
        CondV::Or(left, right) => cond_addresses_valid(*left)
            && cond_addresses_valid(*right),
    }
}

/// Whether a chunk holds only validated addresses.
pub open spec fn chunk_addresses_valid(c: ChunkV) -> bool
    decreases c,
{
    match c {
        ChunkV::Text(_) => true,
        ChunkV::Expression(e) => expr_addresses_valid(e),
        ChunkV::Alternative { entries, .. } => forall|i: int|
            0 <= i < entries.len() ==> chunk_addresses_valid(#[trigger] entries[i]),
        ChunkV::Conditional { condition, if_chunk, else_chunk } => {
            &&& cond_addresses_valid(condition)
            &&& chunk_addresses_valid(*if_chunk)
            &&& match else_chunk {
                Some(c2) => chunk_addresses_valid(*c2),
                None => true,
            }
        },
    }
}

/// Whether a line holds only validated addresses.
pub open spec fn line_addresses_valid(l: InternalLineV) -> bool {
    &&& forall|i: int| 0 <= i < l.chunks.len() ==> chunk_addresses_valid(#[trigger] l.chunks[i])
    &&& match l.divert {
        Some(a) => a is Validated,
        None => true,
    }
}

/// Whether a choice holds only validated addresses.
pub open spec fn choice_addresses_valid(c: crate::choice::InternalChoiceV) -> bool {
    &&& line_addresses_valid(c.selection_text)
    &&& line_addresses_valid(c.display_text)
    &&& match c.condition {
        Some(cd) => cond_addresses_valid(cd),
        None => true,
    }
}

/// Whether a node item holds only validated addresses.
pub open spec fn item_addresses_valid(item: ItemV) -> bool
    decreases item,
{
    match item {
        ItemV::Line(l) => line_addresses_valid(l),
        ItemV::BranchingPoint(branches) => forall|i: int|
            0 <= i < branches.len() ==> branch_addresses_valid(#[trigger] branches[i]),
    }
}

/// Whether a branch holds only validated addresses.
pub open spec fn branch_addresses_valid(b: BranchV) -> bool
    decreases b,
{
    &&& choice_addresses_valid(b.choice)
    &&& forall|i: int| 0 <= i < b.items.len() ==> item_addresses_valid(#[trigger] b.items[i])
}

/// Whether every chunk of a list holds only validated addresses.
pub open spec fn chunks_addresses_valid(s: Seq<ChunkV>) -> bool {
    forall|i: int| 0 <= i < s.len() ==> chunk_addresses_valid(#[trigger] s[i])
}

/// Whether every branch of a list holds only validated addresses.
pub open spec fn branches_addresses_valid(s: Seq<BranchV>) -> bool {
    forall|i: int| 0 <= i < s.len() ==> branch_addresses_valid(#[trigger] s[i])
}

/// Whether every item from position `start` on holds only validated
/// addresses.
pub open spec fn items_addresses_valid_from(s: Seq<ItemV>, start: int) -> bool {
    forall|i: int| start <= i < s.len() ==> item_addresses_valid(#[trigger] s[i])
}

/// Whether every chunk before position `i` holds only validated addresses.
pub open spec fn chunks_prefix_valid(s: Seq<ChunkV>, i: int) -> bool {
    forall|j: int| 0 <= j < i && j < s.len() ==> chunk_addresses_valid(#[trigger] s[j])
}

/// Whether every branch before position `i` holds only validated addresses.
pub open spec fn branches_prefix_valid(s: Seq<BranchV>, i: int) -> bool {
    forall|j: int| 0 <= j < i && j < s.len() ==> branch_addresses_valid(#[trigger] s[j])
}

/// Whether every item in positions `start..i` holds only validated
/// addresses.
pub open spec fn items_prefix_valid(s: Seq<ItemV>, start: int, i: int) -> bool {
    forall|j: int| start <= j < i && j < s.len() ==> item_addresses_valid(#[trigger] s[j])
}


/// Whether one address resolves against the tables from this location.
pub open spec fn addr_resolvable(a: AddressV, cur: AddressV, t: ValidationData) -> bool {
    spec_validate(a, cur, t) is Ok
}

/// Whether the address a variable may hold resolves.
pub open spec fn var_resolvable(v: VarV, cur: AddressV, t: ValidationData) -> bool {
    match v {
        VarV::Address(a) => addr_resolvable(a, cur, t),
        VarV::Divert(a) => addr_resolvable(a, cur, t),
        _ => true,
    }
}

/// Whether every address in an expression resolves.
pub open spec fn expr_resolvable(e: ExprV, cur: AddressV, t: ValidationData) -> bool
    decreases e,
{
    match e {
        ExprV::Variable(v) => var_resolvable(v, cur, t),
        ExprV::Binary(_, left, right) => expr_resolvable(*left, cur, t) && expr_resolvable(
            *right,
            cur,
            t,
        ),
        ExprV::Negate(inner) => expr_resolvable(*inner, cur, t),
        ExprV::Parens(inner) => expr_resolvable(*inner, cur, t),
    }
}

/// Whether every address in a condition resolves.
pub open spec fn cond_resolvable(c: CondV, cur: AddressV, t: ValidationData) -> bool
    decreases c,
{
    match c {
        CondV::Comparison { lhs, op, rhs } => expr_resolvable(lhs, cur, t) && expr_resolvable(
            rhs,
            cur,
            t,
        ),
        CondV::Truthy(e) => expr_resolvable(e, cur, t),
        CondV::Not(inner) => cond_resolvable(*inner, cur, t),
        CondV::And(left, right) => cond_resolvable(*left, cur, t) && cond_resolvable(
            *right,
            cur,
            t,
        ),
        CondV::Or(left, right) => cond_resolvable(*left, cur, t) && cond_resolvable(*right, cur, t),
    }
}

/// Whether every address in a chunk resolves.
pub open spec fn chunk_resolvable(c: ChunkV, cur: AddressV, t: ValidationData) -> bool
    decreases c,
{
    match c {
        ChunkV::Text(_) => true,
        ChunkV::Expression(e) => expr_resolvable(e, cur, t),
        ChunkV::Alternative { entries, .. } => forall|i: int|
            0 <= i < entries.len() ==> chunk_resolvable(#[trigger] entries[i], cur, t),
        ChunkV::Conditional { condition, if_chunk, else_chunk } => {
            &&& cond_resolvable(condition, cur, t)
            &&& chunk_resolvable(*if_chunk, cur, t)
            &&& match else_chunk {
                Some(c2) => chunk_resolvable(*c2, cur, t),
                None => true,
            }
        },
    }
}

/// Whether every chunk in positions up to `i` resolves.
pub open spec fn chunks_prefix_resolvable(
    s: Seq<ChunkV>,
    i: int,
    cur: AddressV,
    t: ValidationData,
) -> bool {
    forall|j: int| 0 <= j < i && j < s.len() ==> chunk_resolvable(#[trigger] s[j], cur, t)
}

/// Whether every address in a line resolves.
pub open spec fn line_resolvable(l: InternalLineV, cur: AddressV, t: ValidationData) -> bool {
    &&& chunks_prefix_resolvable(l.chunks, l.chunks.len() as int, cur, t)
    &&& match l.divert {
        Some(a) => addr_resolvable(a, cur, t),
        None => true,
    }
}

/// Whether every address in a choice resolves.
pub open spec fn choice_resolvable(
    c: crate::choice::InternalChoiceV,
    cur: AddressV,
    t: ValidationData,
) -> bool {
    &&& line_resolvable(c.selection_text, cur, t)
    &&& line_resolvable(c.display_text, cur, t)
    &&& match c.condition {
        Some(cd) => cond_resolvable(cd, cur, t),
        None => true,
    }
}

/// Whether every address under an item resolves.
pub open spec fn item_resolvable(item: ItemV, cur: AddressV, t: ValidationData) -> bool
    decreases item,
{
    match item {
        ItemV::Line(l) => line_resolvable(l, cur, t),
        ItemV::BranchingPoint(branches) => forall|i: int|
            0 <= i < branches.len() ==> branch_resolvable(#[trigger] branches[i], cur, t),
    }
}

/// Whether every address under a branch resolves.
pub open spec fn branch_resolvable(b: BranchV, cur: AddressV, t: ValidationData) -> bool
    decreases b,
{
    &&& choice_resolvable(b.choice, cur, t)
    &&& forall|i: int| 0 <= i < b.items.len() ==> item_resolvable(#[trigger] b.items[i], cur, t)
}

/// Whether every item in positions `start..i` resolves.
pub open spec fn items_prefix_resolvable(
    s: Seq<ItemV>,
    start: int,
    i: int,
    cur: AddressV,
    t: ValidationData,
) -> bool {
    forall|j: int| start <= j < i && j < s.len() ==> item_resolvable(#[trigger] s[j], cur, t)
}

/// Whether every branch in positions up to `i` resolves.
pub open spec fn branches_prefix_resolvable(
    s: Seq<BranchV>,
    i: int,
    cur: AddressV,
    t: ValidationData,
) -> bool {
    forall|j: int| 0 <= j < i && j < s.len() ==> branch_resolvable(#[trigger] s[j], cur, t)
}

/// An error batch only grows: prefix extension is reflexive.
pub proof fn lemma_errors_prefix_refl(s: Seq<InvalidAddressError>)
    ensures
        s.is_prefix_of(s),
{
    assert(s =~= s.subrange(0, s.len() as int));
}

/// An error batch only grows: prefix extension is transitive.
pub proof fn lemma_errors_prefix_trans(
    a: Seq<InvalidAddressError>,
    b: Seq<InvalidAddressError>,
    c: Seq<InvalidAddressError>,
)
    requires
        a.is_prefix_of(b),
        b.is_prefix_of(c),
    ensures
        a.is_prefix_of(c),
{
    assert forall|i: int| 0 <= i < a.len() implies a[i] == c.subrange(0, a.len() as int)[i] by {
        assert(a[i] == b.subrange(0, a.len() as int)[i]);
        assert(b[i] == c.subrange(0, b.len() as int)[i]);
    }
    assert(a =~= c.subrange(0, a.len() as int));
}

/// Appending to an error batch keeps the old entries as a prefix.
pub proof fn lemma_errors_prefix_push(a: Seq<InvalidAddressError>, e: InvalidAddressError)
    ensures
        a.is_prefix_of(a.push(e)),
{
    assert(a =~= a.push(e).subrange(0, a.len() as int));
}


/// How many unresolved addresses one address contributes: one or none.
pub open spec fn addr_error_count(a: AddressV, cur: AddressV, t: ValidationData) -> nat {
    if addr_resolvable(a, cur, t) {
        0nat
    } else {
        1nat
    }
}

/// How many unresolved addresses a variable holds.
pub open spec fn var_error_count(v: VarV, cur: AddressV, t: ValidationData) -> nat {
    match v {
        VarV::Address(a) => addr_error_count(a, cur, t),
        VarV::Divert(a) => addr_error_count(a, cur, t),
        _ => 0nat,
    }
}

/// How many unresolved addresses an expression holds.
pub open spec fn expr_error_count(e: ExprV, cur: AddressV, t: ValidationData) -> nat
    decreases e,
{
    match e {
        ExprV::Variable(v) => var_error_count(v, cur, t),
        ExprV::Binary(_, left, right) => expr_error_count(*left, cur, t) + expr_error_count(
            *right,
            cur,
            t,
        ),
        ExprV::Negate(inner) => expr_error_count(*inner, cur, t),
        ExprV::Parens(inner) => expr_error_count(*inner, cur, t),
    }
}

/// How many unresolved addresses a condition holds.
pub open spec fn cond_error_count(c: CondV, cur: AddressV, t: ValidationData) -> nat
    decreases c,
{
    match c {
        CondV::Comparison { lhs, op, rhs } => expr_error_count(lhs, cur, t) + expr_error_count(
            rhs,
            cur,
            t,
        ),
        CondV::Truthy(e) => expr_error_count(e, cur, t),
        CondV::Not(inner) => cond_error_count(*inner, cur, t),
        CondV::And(left, right) => cond_error_count(*left, cur, t) + cond_error_count(
            *right,
            cur,
            t,
        ),
        CondV::Or(left, right) => cond_error_count(*left, cur, t) + cond_error_count(
            *right,
            cur,
            t,
        ),
    }
}

/// How many unresolved addresses a chunk holds.
pub open spec fn chunk_error_count(c: ChunkV, cur: AddressV, t: ValidationData) -> nat
    decreases c, 1int,
{
    match c {
        ChunkV::Text(_) => 0nat,
        ChunkV::Expression(e) => expr_error_count(e, cur, t),
        ChunkV::Alternative { entries, .. } => chunks_error_count(entries, 0, cur, t),
        ChunkV::Conditional { condition, if_chunk, else_chunk } => cond_error_count(
            condition,
            cur,
            t,
        ) + chunk_error_count(*if_chunk, cur, t) + match else_chunk {
            Some(c2) => chunk_error_count(*c2, cur, t),
            None => 0nat,
        },
    }
}

/// How many unresolved addresses the chunks from position `i` on hold.
pub open spec fn chunks_error_count(s: Seq<ChunkV>, i: int, cur: AddressV, t: ValidationData) -> nat
    decreases s, s.len() - i, 0int,
{
    if i < 0 || i >= s.len() {
        0nat
    } else {
        chunk_error_count(s[i], cur, t) + chunks_error_count(s, i + 1, cur, t)
    }
}

/// How many unresolved addresses a line holds.
pub open spec fn line_error_count(l: InternalLineV, cur: AddressV, t: ValidationData) -> nat {
    chunks_error_count(l.chunks, 0, cur, t) + match l.divert {
        Some(a) => addr_error_count(a, cur, t),
        None => 0nat,
    }
}

/// How many unresolved addresses a choice holds.
pub open spec fn choice_error_count(
    c: crate::choice::InternalChoiceV,
    cur: AddressV,
    t: ValidationData,
) -> nat {
    line_error_count(c.selection_text, cur, t) + line_error_count(c.display_text, cur, t)
        + match c.condition {
        Some(cd) => cond_error_count(cd, cur, t),
        None => 0nat,
    }
}

/// How many unresolved addresses an item holds.
pub open spec fn item_error_count(item: ItemV, cur: AddressV, t: ValidationData) -> nat
    decreases item, 2int,
{
    match item {
        ItemV::Line(l) => line_error_count(l, cur, t),
        ItemV::BranchingPoint(branches) => branches_error_count(branches, 0, cur, t),
    }
}

/// How many unresolved addresses the branches from position `i` on hold.
pub open spec fn branches_error_count(
    s: Seq<BranchV>,
    i: int,
    cur: AddressV,
    t: ValidationData,
) -> nat
    decreases s, s.len() - i, 0int,
{
    if i < 0 || i >= s.len() {
        0nat
    } else {
        branch_error_count(s[i], cur, t) + branches_error_count(s, i + 1, cur, t)
    }
}

/// How many errors validating a branch reports: its choice's, then its
/// items' — the first item skipped exactly when the choice had any, so the
/// copied display-text line is never reported twice.
pub open spec fn branch_error_count(b: BranchV, cur: AddressV, t: ValidationData) -> nat
    decreases b, 3int,
{
    let c = choice_error_count(b.choice, cur, t);
    c + items_error_count(
        b.items,
        if c == 0 {
            0int
        } else {
            1int
        },
        cur,
        t,
    )
}

/// How many unresolved addresses the items from position `i` on hold.
pub open spec fn items_error_count(s: Seq<ItemV>, i: int, cur: AddressV, t: ValidationData) -> nat
    decreases s, s.len() - i, 1int,
{
    if i < 0 || i >= s.len() {
        0nat
    } else {
        item_error_count(s[i], cur, t) + items_error_count(s, i + 1, cur, t)
    }
}

/// Resolve one address, pushing any failure onto the batch.
fn validate_address(
    a: &mut Address,
    error: &mut ValidationError,
    current_location: &Address,
    data: &ValidationData,
)
    ensures
        old(error).invalid_addresses@.is_prefix_of(final(error).invalid_addresses@),
        match spec_validate(old(a)@, current_location@, *data) {
            Ok(kind) => {
                &&& final(a)@ == AddressV::Validated(kind)
                &&& final(error).invalid_addresses@ == old(error).invalid_addresses@
            },
            Err(e) => {
                &&& final(a)@ == old(a)@
                &&& final(error).invalid_addresses@.len() == old(error).invalid_addresses@.len()
                    + 1
                &&& final(error).invalid_addresses@.last()@ == e
                &&& final(error).invalid_addresses@.drop_last() == old(error).invalid_addresses@
            },
        },
        final(error).invalid_addresses@.len() == old(error).invalid_addresses@.len()
            <==> addr_resolvable(old(a)@, current_location@, *data),
        final(error).invalid_addresses@.len() == old(error).invalid_addresses@.len()
            + addr_error_count(old(a)@, current_location@, *data),
        final(error).invalid_addresses@.len() == old(error).invalid_addresses@.len()
            ==> final(a)@ is Validated,
{
    match a.validate(current_location, data) {
        Ok(()) => {
            proof {
                lemma_errors_prefix_refl(error.invalid_addresses@);
            }
        },
        Err(e) => {
            let ghost pre = error.invalid_addresses@;
            error.invalid_addresses.push(e);
            proof {
                lemma_errors_prefix_push(pre, error.invalid_addresses@.last());
                assert(error.invalid_addresses@.drop_last() =~= pre);
            }
        },
    }
}

impl Variable {
    /// Resolve the address held by an address or divert variable; other
    /// kinds hold none and stay as they are. The result is exactly the held
    /// address's own resolution.
    pub fn validate(&mut self, current_address: &Address, data: &ValidationData) -> (r: Result<
        (),
        InvalidAddressError,
    >)
        ensures
            match old(self)@ {
                VarV::Address(a) => match spec_validate(a, current_address@, *data) {
                    Ok(kind) => r is Ok && final(self)@ == VarV::Address(
                        AddressV::Validated(kind),
                    ),
                    Err(e) => r is Err && r->Err_0@ == e && final(self)@ == old(self)@,
                },
                VarV::Divert(a) => match spec_validate(a, current_address@, *data) {
                    Ok(kind) => r is Ok && final(self)@ == VarV::Divert(
                        AddressV::Validated(kind),
                    ),
                    Err(e) => r is Err && r->Err_0@ == e && final(self)@ == old(self)@,
                },
                _ => r is Ok && final(self)@ == old(self)@,
            },
            r is Ok ==> var_addresses_valid(final(self)@),
    {
        match self {
            Variable::Address(address) => {
                match address.validate(current_address, data) {
                    Ok(()) => Ok(()),
                    Err(e) => Err(e),
                }
            },
            Variable::Divert(address) => {
                match address.validate(current_address, data) {
                    Ok(()) => Ok(()),
                    Err(e) => Err(e),
                }
            },
            _ => Ok(()),
        }
    }
}

/// Resolve every address in an expression.
fn validate_expression(
    e: &mut Expression,
    error: &mut ValidationError,
    current_location: &Address,
    data: &ValidationData,
)
    ensures
        old(error).invalid_addresses@.is_prefix_of(final(error).invalid_addresses@),
        final(error).invalid_addresses@.len() >= old(error).invalid_addresses@.len(),
        final(error).invalid_addresses@.len() == old(error).invalid_addresses@.len()
            <==> expr_resolvable(old(e)@, current_location@, *data),
        final(error).invalid_addresses@.len() == old(error).invalid_addresses@.len()
            + expr_error_count(old(e)@, current_location@, *data),
        final(error).invalid_addresses@.len() == old(error).invalid_addresses@.len()
            ==> expr_addresses_valid(final(e)@),
    decreases *old(e),
{
    match e {
        Expression::Variable(v) => {
            match v.validate(current_location, data) {
                Ok(()) => {
                    proof {
                        lemma_errors_prefix_refl(error.invalid_addresses@);
                    }
                },
                Err(err) => {
                    let ghost pre = error.invalid_addresses@;
                    error.invalid_addresses.push(err);
                    proof {
                        lemma_errors_prefix_push(pre, error.invalid_addresses@.last());
                    }
                },
            }
        },
        Expression::Binary(_, left, right) => {
            let ghost mid = error.invalid_addresses@;
            validate_expression(left, error, current_location, data);
            let ghost mid2 = error.invalid_addresses@;
            validate_expression(right, error, current_location, data);
            proof {
                lemma_errors_prefix_trans(mid, mid2, error.invalid_addresses@);
            }
        },
        Expression::Negate(inner) => {
            validate_expression(inner, error, current_location, data);
        },
        Expression::Parens(inner) => {
            validate_expression(inner, error, current_location, data);
        },
    }
}

/// Resolve every address in a condition.
fn validate_condition(
    c: &mut Condition,
    error: &mut ValidationError,
    current_location: &Address,
    data: &ValidationData,
)
    ensures
        old(error).invalid_addresses@.is_prefix_of(final(error).invalid_addresses@),
        final(error).invalid_addresses@.len() >= old(error).invalid_addresses@.len(),
        final(error).invalid_addresses@.len() == old(error).invalid_addresses@.len()
            <==> cond_resolvable(old(c)@, current_location@, *data),
        final(error).invalid_addresses@.len() == old(error).invalid_addresses@.len()
            + cond_error_count(old(c)@, current_location@, *data),
        final(error).invalid_addresses@.len() == old(error).invalid_addresses@.len()
            ==> cond_addresses_valid(final(c)@),
    decreases *old(c),
{
    let mut taken = Condition::Truthy(Expression::Variable(Variable::Int(0)));
    core::mem::swap(c, &mut taken);
    let rebuilt = match taken {
        Condition::Comparison { mut lhs, op, mut rhs } => {
            let ghost mid = error.invalid_addresses@;
            validate_expression(&mut lhs, error, current_location, data);
            let ghost mid2 = error.invalid_addresses@;
            validate_expression(&mut rhs, error, current_location, data);
            proof {
                lemma_errors_prefix_trans(mid, mid2, error.invalid_addresses@);
            }
            Condition::Comparison { lhs, op, rhs }
        },
        Condition::Truthy(mut e) => {
            validate_expression(&mut e, error, current_location, data);
            Condition::Truthy(e)
        },
        Condition::Not(mut inner) => {
            validate_condition(&mut inner, error, current_location, data);
            Condition::Not(inner)
        },
        Condition::And(mut left, mut right) => {
            let ghost mid = error.invalid_addresses@;
            validate_condition(&mut left, error, current_location, data);
            let ghost mid2 = error.invalid_addresses@;
            validate_condition(&mut right, error, current_location, data);
            proof {
                lemma_errors_prefix_trans(mid, mid2, error.invalid_addresses@);
            }
            Condition::And(left, right)
        },
        Condition::Or(mut left, mut right) => {
            let ghost mid = error.invalid_addresses@;
            validate_condition(&mut left, error, current_location, data);
            let ghost mid2 = error.invalid_addresses@;
            validate_condition(&mut right, error, current_location, data);
            proof {
                lemma_errors_prefix_trans(mid, mid2, error.invalid_addresses@);
            }
            Condition::Or(left, right)
        },
    };
    *c = rebuilt;
}

/// Resolve every address in a chunk.
fn validate_chunk(
    c: &mut LineChunk,
    error: &mut ValidationError,
    current_location: &Address,
    data: &ValidationData,
)
    ensures
        old(error).invalid_addresses@.is_prefix_of(final(error).invalid_addresses@),
        final(error).invalid_addresses@.len() >= old(error).invalid_addresses@.len(),
        final(error).invalid_addresses@.len() == old(error).invalid_addresses@.len()
            <==> chunk_resolvable(old(c)@, current_location@, *data),
        final(error).invalid_addresses@.len() == old(error).invalid_addresses@.len()
            + chunk_error_count(old(c)@, current_location@, *data),
        final(error).invalid_addresses@.len() == old(error).invalid_addresses@.len()
            ==> chunk_addresses_valid(final(c)@),
    decreases *old(c), 1int,
{
    let mut taken = LineChunk::Text(String::new());
    core::mem::swap(c, &mut taken);
    let rebuilt = match taken {
        LineChunk::Text(s) => {
            proof {
                lemma_errors_prefix_refl(error.invalid_addresses@);
            }
            LineChunk::Text(s)
        },
        LineChunk::Expression(mut e) => {
            let ghost pre_errors = error.invalid_addresses@;
            let ghost ev = e@;
            validate_expression(&mut e, error, current_location, data);
            proof {
                assert(old(c)@ == ChunkV::Expression(ev));
                assert((error.invalid_addresses@.len() == pre_errors.len()) == expr_resolvable(
                    ev,
                    current_location@,
                    *data,
                ));
                assert(chunk_resolvable(old(c)@, current_location@, *data) == expr_resolvable(
                    ev,
                    current_location@,
                    *data,
                ));
            }
            LineChunk::Expression(e)
        },
        LineChunk::Alternative { kind, mut entries } => {
            let ghost pre_errors = error.invalid_addresses@;
            let ghost ev = view_chunks(entries@);
            proof {
                crate::line::lemma_view_chunks(entries@);
            }
            validate_chunks(&mut entries, error, current_location, data);
            proof {
                crate::line::lemma_view_chunks(entries@);
                assert(old(c)@ == ChunkV::Alternative { kind, entries: ev });
                assert((error.invalid_addresses@.len() == pre_errors.len())
                    == chunks_prefix_resolvable(ev, ev.len() as int, current_location@, *data));
                if chunks_prefix_resolvable(ev, ev.len() as int, current_location@, *data) {
                    assert forall|i: int| 0 <= i < ev.len() implies chunk_resolvable(
                        #[trigger] ev[i],
                        current_location@,
                        *data,
                    ) by {}
                    assert(chunk_resolvable(old(c)@, current_location@, *data));
                } else {
                    let bad = choose|j: int|
                        0 <= j < ev.len() && j < ev.len() && !chunk_resolvable(
                            ev[j],
                            current_location@,
                            *data,
                        );
                    assert(0 <= bad < ev.len() && !chunk_resolvable(
                        ev[bad],
                        current_location@,
                        *data,
                    )) by {
                        assert(!chunks_prefix_resolvable(
                            ev,
                            ev.len() as int,
                            current_location@,
                            *data,
                        ));
                    }
                    assert((ChunkV::Alternative { kind, entries: ev })->Alternative_entries == ev);
                    assert(!chunk_resolvable(
                        (ChunkV::Alternative { kind, entries: ev })->Alternative_entries[bad],
                        current_location@,
                        *data,
                    ));
                    assert(!chunk_resolvable(
                        ChunkV::Alternative { kind, entries: ev },
                        current_location@,
                        *data,
                    ));
                    assert(!chunk_resolvable(old(c)@, current_location@, *data));
                }
            }
            LineChunk::Alternative { kind, entries }
        },
        LineChunk::Conditional { mut condition, mut if_chunk, else_chunk } => {
            let ghost mid = error.invalid_addresses@;
            validate_condition(&mut condition, error, current_location, data);
            let ghost mid2 = error.invalid_addresses@;
            validate_chunk(&mut if_chunk, error, current_location, data);
            proof {
                lemma_errors_prefix_trans(mid, mid2, error.invalid_addresses@);
            }
            let ghost mid3 = error.invalid_addresses@;
            let else_done = match else_chunk {
                Some(mut c2) => {
                    validate_chunk(&mut c2, error, current_location, data);
                    Some(c2)
                },
                None => None,
            };
            proof {
                lemma_errors_prefix_trans(mid, mid3, error.invalid_addresses@);
            }
            LineChunk::Conditional { condition, if_chunk, else_chunk: else_done }
        },
    };
    *c = rebuilt;
}

/// Resolve every address in a chunk list.
fn validate_chunks(
    chunks: &mut Vec<LineChunk>,
    error: &mut ValidationError,
    current_location: &Address,
    data: &ValidationData,
)
    ensures
        old(error).invalid_addresses@.is_prefix_of(final(error).invalid_addresses@),
        final(error).invalid_addresses@.len() >= old(error).invalid_addresses@.len(),
        final(chunks)@.len() == old(chunks)@.len(),
        final(error).invalid_addresses@.len() == old(error).invalid_addresses@.len()
            <==> chunks_prefix_resolvable(
            view_chunks(old(chunks)@),
            old(chunks)@.len() as int,
            current_location@,
            *data,
        ),
        final(error).invalid_addresses@.len() == old(error).invalid_addresses@.len()
            + chunks_error_count(view_chunks(old(chunks)@), 0, current_location@, *data),
        final(error).invalid_addresses@.len() == old(error).invalid_addresses@.len()
            ==> chunks_addresses_valid(view_chunks(final(chunks)@)),
    decreases *old(chunks), 0int,
{
    let ghost entry_errors = error.invalid_addresses@.len();
    let n = chunks.len();
    let mut i: usize = 0;
    while i < n
        invariant
            n == chunks@.len(),
            n == old(chunks)@.len(),
            0 <= i <= n,
            forall|j: int| i <= j < n ==> chunks@[j] == old(chunks)@[j],
            error.invalid_addresses@.len() >= entry_errors,
            old(error).invalid_addresses@.is_prefix_of(error.invalid_addresses@),
            error.invalid_addresses@.len() == entry_errors ==> chunks_prefix_valid(
                view_chunks(chunks@),
                i as int,
            ),
            error.invalid_addresses@.len() == entry_errors <==> chunks_prefix_resolvable(
                view_chunks(old(chunks)@),
                i as int,
                current_location@,
                *data,
            ),
            error.invalid_addresses@.len() + chunks_error_count(
                view_chunks(old(chunks)@),
                i as int,
                current_location@,
                *data,
            ) == entry_errors + chunks_error_count(
                view_chunks(old(chunks)@),
                0,
                current_location@,
                *data,
            ),
            entry_errors == old(error).invalid_addresses@.len(),
        decreases n - i,
    {
        proof {
            crate::line::lemma_view_chunks(old(chunks)@);
            assert(chunks@[i as int] == old(chunks)@[i as int]);
            assert(decreases_to!(*old(chunks) => old(chunks)@));
            assert(decreases_to!(old(chunks)@ => old(chunks)@[i as int]));
        }
        let ghost pre = chunks@;
        let ghost pre_errors = error.invalid_addresses@;
        let c = &mut chunks[i];
        validate_chunk(c, error, current_location, data);
        i += 1;
        proof {
            crate::line::lemma_view_chunks(pre);
            crate::line::lemma_view_chunks(chunks@);
            crate::line::lemma_view_chunks(old(chunks)@);
            lemma_errors_prefix_trans(
                old(error).invalid_addresses@,
                pre_errors,
                error.invalid_addresses@,
            );
            assert forall|j: int| i <= j < n implies chunks@[j] == old(chunks)@[j] by {
                assert(chunks@[j] == pre[j]);
            }
            if error.invalid_addresses@.len() == entry_errors {
                assert forall|j: int|
                    0 <= j < i && j < n implies chunk_addresses_valid(
                    #[trigger] view_chunks(chunks@)[j],
                ) by {
                    if j < i - 1 {
                        assert(chunks@[j] == pre[j]);
                        assert(chunk_addresses_valid(view_chunks(pre)[j]));
                    }
                }
            }
            assert(view_chunks(old(chunks)@)[i - 1] == view_chunk(old(chunks)@[i - 1]));
            if error.invalid_addresses@.len() == entry_errors {
                assert forall|j: int|
                    0 <= j < i && j < n implies chunk_resolvable(
                    #[trigger] view_chunks(old(chunks)@)[j],
                    current_location@,
                    *data,
                ) by {}
            } else {
                if pre_errors.len() == entry_errors {
                    assert(!chunk_resolvable(
                        view_chunks(old(chunks)@)[i - 1],
                        current_location@,
                        *data,
                    ));
                }
            }
        }
    }
    proof {
        crate::line::lemma_view_chunks(chunks@);
        crate::line::lemma_view_chunks(old(chunks)@);
    }
}

impl InternalLine {
    /// Resolve every address in the line: its chunks and its trailing
    /// divert.
    pub fn validate(
        &mut self,
        error: &mut ValidationError,
        current_location: &Address,
        data: &ValidationData,
    )
        ensures
            old(error).invalid_addresses@.is_prefix_of(final(error).invalid_addresses@),
            final(error).invalid_addresses@.len() >= old(error).invalid_addresses@.len(),
            final(error).invalid_addresses@.len() == old(error).invalid_addresses@.len()
                <==> line_resolvable(old(self)@, current_location@, *data),
            final(error).invalid_addresses@.len() == old(error).invalid_addresses@.len()
                + line_error_count(old(self)@, current_location@, *data),
            final(error).invalid_addresses@.len() == old(error).invalid_addresses@.len()
                ==> line_addresses_valid(final(self)@),
    {
        proof {
            crate::line::lemma_view_chunks(self.chunks@);
        }
        let ghost mid = error.invalid_addresses@;
        validate_chunks(&mut self.chunks, error, current_location, data);
        let ghost mid2 = error.invalid_addresses@;
        match &mut self.divert {
            Some(address) => {
                validate_address(address, error, current_location, data);
            },
            None => {
                proof {
                    lemma_errors_prefix_refl(error.invalid_addresses@);
                }
            },
        }
        proof {
            lemma_errors_prefix_trans(mid, mid2, error.invalid_addresses@);
            crate::line::lemma_view_chunks(self.chunks@);
        }
    }
}

impl InternalChoice {
    /// Resolve every address in the choice: both its lines and its
    /// condition.
    pub fn validate(
        &mut self,
        error: &mut ValidationError,
        current_location: &Address,
        data: &ValidationData,
    )
        ensures
            old(error).invalid_addresses@.is_prefix_of(final(error).invalid_addresses@),
            final(error).invalid_addresses@.len() >= old(error).invalid_addresses@.len(),
            final(error).invalid_addresses@.len() == old(error).invalid_addresses@.len()
                <==> choice_resolvable(old(self)@, current_location@, *data),
            final(error).invalid_addresses@.len() == old(error).invalid_addresses@.len()
                + choice_error_count(old(self)@, current_location@, *data),
            final(error).invalid_addresses@.len() == old(error).invalid_addresses@.len()
                ==> choice_addresses_valid(final(self)@),
    {
        let ghost mid = error.invalid_addresses@;
        self.selection_text.validate(error, current_location, data);
        let ghost mid2 = error.invalid_addresses@;
        self.display_text.validate(error, current_location, data);
        proof {
            lemma_errors_prefix_trans(mid, mid2, error.invalid_addresses@);
        }
        let ghost mid3 = error.invalid_addresses@;
        match &mut self.condition {
            Some(condition) => {
                validate_condition(condition, error, current_location, data);
            },
            None => {},
        }
        proof {
            lemma_errors_prefix_trans(mid, mid3, error.invalid_addresses@);
        }
    }
}

impl NodeItem {
    /// Resolve every address under this item.
    ///
    /// A branching point is also checked for two script smells that go to
    /// the log: a fallback that can never be taken because an unconditional
    /// sticky choice stands before it, and a choice condition that is the
    /// literal false.
    pub fn validate(
        &mut self,
        error: &mut ValidationError,
        log: &mut Logger,
        current_location: &Address,
        meta_data: &MetaData,
        data: &ValidationData,
    )
        ensures
            old(error).invalid_addresses@.is_prefix_of(final(error).invalid_addresses@),
            final(error).invalid_addresses@.len() >= old(error).invalid_addresses@.len(),
            final(error).invalid_addresses@.len() == old(error).invalid_addresses@.len()
                <==> item_resolvable(old(self)@, current_location@, *data),
            final(error).invalid_addresses@.len() == old(error).invalid_addresses@.len()
                + item_error_count(old(self)@, current_location@, *data),
            final(error).invalid_addresses@.len() == old(error).invalid_addresses@.len()
                ==> item_addresses_valid(final(self)@),
        decreases *old(self), 2int,
    {
        match self {
            NodeItem::BranchingPoint(branches) => {
                let ghost bv = view_branches(branches@);
                let ghost pre_errors = error.invalid_addresses@;
                proof {
                    lemma_view_branches(branches@);
                    assert(old(self)@ == ItemV::BranchingPoint(bv));
                }
                let ghost bseq = branches@;
                let mut saw_unconditional_sticky = false;
                let bn = branches.len();
                let mut bi: usize = 0;
                while bi < bn
                    invariant
                        branches@ == bseq,
                        bn == branches@.len(),
                        0 <= bi <= bn,
                    decreases bn - bi,
                {
                    let b = &branches[bi];
                    if b.choice.is_fallback && saw_unconditional_sticky {
                        log.push(Warning::UnreachableFallback);
                    }
                    match &b.choice.condition {
                        Some(Condition::Truthy(Expression::Variable(Variable::Bool(false)))) => {
                            log.push(Warning::AlwaysFalseChoiceCondition);
                        },
                        _ => {},
                    }
                    if b.choice.is_sticky && b.choice.condition.is_none() && !b.choice.is_fallback {
                        saw_unconditional_sticky = true;
                    }
                    bi += 1;
                }
                validate_branches(branches, error, log, current_location, meta_data, data);
                proof {
                    lemma_view_branches(branches@);
                    if error.invalid_addresses@.len() == pre_errors.len() {
                        assert forall|i: int| 0 <= i < bv.len() implies branch_resolvable(
                            #[trigger] bv[i],
                            current_location@,
                            *data,
                        ) by {}
                        assert((ItemV::BranchingPoint(bv))->BranchingPoint_0 == bv);
                        assert(item_resolvable(old(self)@, current_location@, *data));
                    } else {
                        let bad = choose|j: int|
                            0 <= j < bv.len() && !branch_resolvable(
                                bv[j],
                                current_location@,
                                *data,
                            );
                        assert(0 <= bad < bv.len() && !branch_resolvable(
                            bv[bad],
                            current_location@,
                            *data,
                        )) by {
                            assert(!branches_prefix_resolvable(
                                bv,
                                bv.len() as int,
                                current_location@,
                                *data,
                            ));
                        }
                        assert((ItemV::BranchingPoint(bv))->BranchingPoint_0 == bv);
                        assert(!branch_resolvable(
                            (ItemV::BranchingPoint(bv))->BranchingPoint_0[bad],
                            current_location@,
                            *data,
                        ));
                        assert(!item_resolvable(ItemV::BranchingPoint(bv), current_location@, *data));
                        assert(!item_resolvable(old(self)@, current_location@, *data));
                    }
                }
            },
            NodeItem::Line(line) => {
                line.validate(error, current_location, data);
            },
        }
    }
}

/// Resolve every address in a branch list.
fn validate_branches(
    branches: &mut Vec<Branch>,
    error: &mut ValidationError,
    log: &mut Logger,
    current_location: &Address,
    meta_data: &MetaData,
    data: &ValidationData,
)
    ensures
        old(error).invalid_addresses@.is_prefix_of(final(error).invalid_addresses@),
        final(error).invalid_addresses@.len() >= old(error).invalid_addresses@.len(),
        final(branches)@.len() == old(branches)@.len(),
        final(error).invalid_addresses@.len() == old(error).invalid_addresses@.len()
            <==> branches_prefix_resolvable(
            view_branches(old(branches)@),
            old(branches)@.len() as int,
            current_location@,
            *data,
        ),
        final(error).invalid_addresses@.len() == old(error).invalid_addresses@.len()
            + branches_error_count(view_branches(old(branches)@), 0, current_location@, *data),
        final(error).invalid_addresses@.len() == old(error).invalid_addresses@.len()
            ==> branches_addresses_valid(view_branches(final(branches)@)),
    decreases *old(branches), 0int,
{
    let ghost entry_errors = error.invalid_addresses@.len();
    let n = branches.len();
    let mut i: usize = 0;
    while i < n
        invariant
            n == branches@.len(),
            n == old(branches)@.len(),
            0 <= i <= n,
            forall|j: int| i <= j < n ==> branches@[j] == old(branches)@[j],
            error.invalid_addresses@.len() >= entry_errors,
            old(error).invalid_addresses@.is_prefix_of(error.invalid_addresses@),
            error.invalid_addresses@.len() == entry_errors ==> branches_prefix_valid(
                view_branches(branches@),
                i as int,
            ),
            error.invalid_addresses@.len() == entry_errors <==> branches_prefix_resolvable(
                view_branches(old(branches)@),
                i as int,
                current_location@,
                *data,
            ),
            error.invalid_addresses@.len() + branches_error_count(
                view_branches(old(branches)@),
                i as int,
                current_location@,
                *data,
            ) == entry_errors + branches_error_count(
                view_branches(old(branches)@),
                0,
                current_location@,
                *data,
            ),
            entry_errors == old(error).invalid_addresses@.len(),
        decreases n - i,
    {
        proof {
            lemma_view_branches(old(branches)@);
            assert(branches@[i as int] == old(branches)@[i as int]);
            assert(decreases_to!(*old(branches) => old(branches)@));
            assert(decreases_to!(old(branches)@ => old(branches)@[i as int]));
        }
        let ghost pre = branches@;
        let ghost pre_errors = error.invalid_addresses@;
        let b = &mut branches[i];
        b.validate(error, log, current_location, meta_data, data);
        i += 1;
        proof {
            lemma_view_branches(pre);
            lemma_view_branches(branches@);
            lemma_view_branches(old(branches)@);
            lemma_errors_prefix_trans(
                old(error).invalid_addresses@,
                pre_errors,
                error.invalid_addresses@,
            );
            assert forall|j: int| i <= j < n implies branches@[j] == old(branches)@[j] by {
                assert(branches@[j] == pre[j]);
            }
            if error.invalid_addresses@.len() == entry_errors {
                assert forall|j: int|
                    0 <= j < i && j < n implies branch_addresses_valid(
                    #[trigger] view_branches(branches@)[j],
                ) by {
                    if j < i - 1 {
                        assert(branches@[j] == pre[j]);
                        assert(branch_addresses_valid(view_branches(pre)[j]));
                    }
                }
            }
            assert(view_branches(old(branches)@)[i - 1] == view_branch(old(branches)@[i - 1]));
            if error.invalid_addresses@.len() != entry_errors && pre_errors.len() == entry_errors {
                assert(!branch_resolvable(
                    view_branches(old(branches)@)[i - 1],
                    current_location@,
                    *data,
                ));
            }
        }
    }
    proof {
        lemma_view_branches(branches@);
        lemma_view_branches(old(branches)@);
    }
}

impl Branch {
    /// Resolve every address under this branch.
    ///
    /// The first item is the display-text line copied from the choice. If
    /// validating the choice found errors, that line is skipped, so that its
    /// errors are not reported twice; when the choice was clean, the copy is
    /// validated like everything else.
    pub fn validate(
        &mut self,
        error: &mut ValidationError,
        log: &mut Logger,
        current_location: &Address,
        meta_data: &MetaData,
        data: &ValidationData,
    )
        ensures
            old(error).invalid_addresses@.is_prefix_of(final(error).invalid_addresses@),
            final(error).invalid_addresses@.len() >= old(error).invalid_addresses@.len(),
            final(error).invalid_addresses@.len() == old(error).invalid_addresses@.len()
                <==> branch_resolvable(old(self)@, current_location@, *data),
            final(error).invalid_addresses@.len() == old(error).invalid_addresses@.len()
                + branch_error_count(old(self)@, current_location@, *data),
            final(error).invalid_addresses@.len() == old(error).invalid_addresses@.len()
                ==> branch_addresses_valid(final(self)@),
            !choice_resolvable(old(self)@.choice, current_location@, *data) && old(
                self,
            ).items@.len() >= 1 ==> view_items(final(self).items@)[0] == view_items(
                old(self).items@,
            )[0],
        decreases *old(self), 3int,
    {
        let ghost pre_items = view_items(self.items@);
        proof {
            lemma_view_items(self.items@);
            assert(old(self)@.items == pre_items);
        }
        let num_errors = error.num_errors();
        self.choice.validate(error, current_location, data);
        let clean = error.num_errors() == num_errors;
        proof {
            assert(decreases_to!(*self => self.items));
            assert(clean == choice_resolvable(old(self)@.choice, current_location@, *data));
        }
        let ghost mid_errors = error.invalid_addresses@;
        validate_items_from(
            &mut self.items,
            if clean {
                0
            } else {
                1
            },
            error,
            log,
            current_location,
            meta_data,
            data,
        );
        proof {
            lemma_view_items(self.items@);
            lemma_errors_prefix_trans(
                old(error).invalid_addresses@,
                mid_errors,
                error.invalid_addresses@,
            );
            let b = old(self)@;
            if clean && error.invalid_addresses@.len() == old(error).invalid_addresses@.len() {
                assert forall|i: int| 0 <= i < b.items.len() implies item_resolvable(
                    #[trigger] b.items[i],
                    current_location@,
                    *data,
                ) by {
                    assert(items_prefix_resolvable(
                        pre_items,
                        0,
                        pre_items.len() as int,
                        current_location@,
                        *data,
                    ));
                }
                assert(branch_resolvable(b, current_location@, *data));
            }
            if error.invalid_addresses@.len() == old(error).invalid_addresses@.len() {
            } else {
                if !clean {
                    assert(!branch_resolvable(b, current_location@, *data));
                } else {
                    assert(!items_prefix_resolvable(
                        pre_items,
                        0,
                        pre_items.len() as int,
                        current_location@,
                        *data,
                    ));
                    let bad = choose|j: int|
                        0 <= j < pre_items.len() && !item_resolvable(
                            pre_items[j],
                            current_location@,
                            *data,
                        );
                    assert(0 <= bad < pre_items.len() && !item_resolvable(
                        pre_items[bad],
                        current_location@,
                        *data,
                    ));
                    assert(b.items == pre_items);
                    assert(!item_resolvable(b.items[bad], current_location@, *data));
                    assert(!branch_resolvable(b, current_location@, *data));
                }
            }
        }
    }
}

/// Resolve every address in the items from position `start` on.
fn validate_items_from(
    items: &mut Vec<NodeItem>,
    start: usize,
    error: &mut ValidationError,
    log: &mut Logger,
    current_location: &Address,
    meta_data: &MetaData,
    data: &ValidationData,
)
    ensures
        old(error).invalid_addresses@.is_prefix_of(final(error).invalid_addresses@),
        final(error).invalid_addresses@.len() >= old(error).invalid_addresses@.len(),
        final(items)@.len() == old(items)@.len(),
        forall|j: int| 0 <= j < start && j < old(items)@.len() ==> final(items)@[j] == old(
            items,
        )@[j],
        final(error).invalid_addresses@.len() == old(error).invalid_addresses@.len()
            <==> items_prefix_resolvable(
            view_items(old(items)@),
            start as int,
            old(items)@.len() as int,
            current_location@,
            *data,
        ),
        final(error).invalid_addresses@.len() == old(error).invalid_addresses@.len()
            + items_error_count(view_items(old(items)@), start as int, current_location@, *data),
        final(error).invalid_addresses@.len() == old(error).invalid_addresses@.len()
            ==> items_addresses_valid_from(view_items(final(items)@), start as int),
        forall|j: int|
            start <= j < old(items)@.len() && item_error_count(
                view_items(old(items)@)[j],
                current_location@,
                *data,
            ) == 0 ==> item_addresses_valid(#[trigger] view_items(final(items)@)[j]),
    decreases *old(items), 0int,
{
    let ghost entry_errors = error.invalid_addresses@.len();
    let n = items.len();
    let mut i: usize = start;
    if i > n {
        proof {
            lemma_view_items(items@);
            lemma_errors_prefix_refl(error.invalid_addresses@);
        }
        return ;
    }
    while i < n
        invariant
            n == items@.len(),
            n == old(items)@.len(),
            start <= i <= n,
            forall|j: int| i <= j < n ==> items@[j] == old(items)@[j],
            forall|j: int| 0 <= j < start && j < n ==> items@[j] == old(items)@[j],
            error.invalid_addresses@.len() >= entry_errors,
            old(error).invalid_addresses@.is_prefix_of(error.invalid_addresses@),
            error.invalid_addresses@.len() == entry_errors ==> items_prefix_valid(
                view_items(items@),
                start as int,
                i as int,
            ),
            error.invalid_addresses@.len() == entry_errors <==> items_prefix_resolvable(
                view_items(old(items)@),
                start as int,
                i as int,
                current_location@,
                *data,
            ),
            error.invalid_addresses@.len() + items_error_count(
                view_items(old(items)@),
                i as int,
                current_location@,
                *data,
            ) == entry_errors + items_error_count(
                view_items(old(items)@),
                start as int,
                current_location@,
                *data,
            ),
            forall|j: int|
                start <= j < i && item_error_count(
                    view_items(old(items)@)[j],
                    current_location@,
                    *data,
                ) == 0 ==> item_addresses_valid(#[trigger] view_items(items@)[j]),
            entry_errors == old(error).invalid_addresses@.len(),
        decreases n - i,
    {
        proof {
            lemma_view_items(old(items)@);
            assert(items@[i as int] == old(items)@[i as int]);
            assert(decreases_to!(*old(items) => old(items)@));
            assert(decreases_to!(old(items)@ => old(items)@[i as int]));
        }
        let ghost pre = items@;
        let ghost pre_errors = error.invalid_addresses@;
        let item = &mut items[i];
        item.validate(error, log, current_location, meta_data, data);
        i += 1;
        proof {
            lemma_view_items(pre);
            lemma_view_items(items@);
            lemma_view_items(old(items)@);
            lemma_errors_prefix_trans(
                old(error).invalid_addresses@,
                pre_errors,
                error.invalid_addresses@,
            );
            assert forall|j: int| i <= j < n implies items@[j] == old(items)@[j] by {
                assert(items@[j] == pre[j]);
            }
            assert forall|j: int| 0 <= j < start && j < n implies items@[j] == old(items)@[j] by {
                assert(items@[j] == pre[j]);
            }
            if error.invalid_addresses@.len() == entry_errors {
                assert forall|j: int|
                    start <= j < i && j < n implies item_addresses_valid(
                    #[trigger] view_items(items@)[j],
                ) by {
                    if j < i - 1 {
                        assert(items@[j] == pre[j]);
                        assert(item_addresses_valid(view_items(pre)[j]));
                    }
                }
            }
            assert forall|j: int|
                start <= j < i && item_error_count(
                    view_items(old(items)@)[j],
                    current_location@,
                    *data,
                ) == 0 implies item_addresses_valid(#[trigger] view_items(items@)[j]) by {
                if j < i - 1 {
                    assert(items@[j] == pre[j]);
                    assert(item_addresses_valid(view_items(pre)[j]));
                } else {
                    assert(view_items(old(items)@)[j] == view_item(old(items)@[j]));
                    assert(view_items(items@)[j] == view_item(items@[j]));
                }
            }
            assert(view_items(old(items)@)[i - 1] == view_item(old(items)@[i - 1]));
            if error.invalid_addresses@.len() != entry_errors && pre_errors.len() == entry_errors {
                assert(!item_resolvable(
                    view_items(old(items)@)[i - 1],
                    current_location@,
                    *data,
                ));
            }
        }
    }
    proof {
        lemma_view_items(items@);
        lemma_view_items(old(items)@);
    }
}

impl RootNode {
    /// Resolve every address under this stitch.
    pub fn validate(
        &mut self,
        error: &mut ValidationError,
        log: &mut Logger,
        current_location: &Address,
        meta_data: &MetaData,
        data: &ValidationData,
    )
        ensures
            old(error).invalid_addresses@.is_prefix_of(final(error).invalid_addresses@),
            final(error).invalid_addresses@.len() >= old(error).invalid_addresses@.len(),
            final(error).invalid_addresses@.len() == old(error).invalid_addresses@.len()
                <==> items_prefix_resolvable(
                view_items(old(self).items@),
                0,
                old(self).items@.len() as int,
                current_location@,
                *data,
            ),
            final(error).invalid_addresses@.len() == old(error).invalid_addresses@.len()
                + items_error_count(view_items(old(self).items@), 0, current_location@, *data),
            final(error).invalid_addresses@.len() == old(error).invalid_addresses@.len()
                ==> items_addresses_valid_from(view_items(final(self).items@), 0),
            forall|j: int|
                0 <= j < old(self).items@.len() && item_error_count(
                    view_items(old(self).items@)[j],
                    current_location@,
                    *data,
                ) == 0 ==> item_addresses_valid(#[trigger] view_items(final(self).items@)[j]),
    {
        validate_items_from(&mut self.items, 0, error, log, current_location, meta_data, data);
    }
}

} // verus!
