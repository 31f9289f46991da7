//! Runtime data that the follow engine reads and updates: visit counts for
//! every stitch, and the story's global variables.

use vstd::prelude::*;

use crate::address::{Address, AddressKindV, AddressV};
use crate::choice::{view_choices, Choice, ChoiceV};
use crate::condition::spec_eval_condition;
use crate::error::{
    IncorrectNodeStackError, InklingErrV, InklingError, InternalErrV, InternalError,
};
use crate::line::{
    append_line, duplicate_strings, spec_append_line, spec_render_chunks_from, spec_render_line,
    view_buffer, view_strings, Line, LineV,
};
use crate::log::Logger;
use crate::node::{
    branch_counts_only, branch_wf, item_counts_only, item_wf, items_counts_only, items_wf,
    lemma_view_branches, lemma_view_items, view_branch, view_branches, view_item, view_items,
    Branch, BranchV, ItemV, NodeItem,
};
use crate::text::str_eq;
use crate::variable::Variable;

verus! {

/// The visit count of one stitch.
#[derive(Debug)]
pub struct StitchCount {
    /// Name of the stitch.
    pub stitch: String,
    /// How many times the stitch has been entered.
    pub count: u32,
}

/// The visit counts of every stitch in one knot.
#[derive(Debug)]
pub struct KnotCounts {
    /// Name of the knot.
    pub knot: String,
    /// One counter per stitch of the knot.
    pub stitches: Vec<StitchCount>,
}

/// One global variable with its current value.
#[derive(Debug)]
pub struct VariableEntry {
    /// Name of the variable.
    pub name: String,
    /// Its current value.
    pub var: Variable,
}

/// Runtime data that lines, conditions and expressions are evaluated
/// against: how many times each stitch has been visited, and the values of
/// the global variables.
///
/// Both tables are association lists with unique keys; their mathematical
/// values are the maps `counts_map` and `vars_map`.
#[derive(Debug)]
pub struct FollowData {
    /// Visit count per knot and stitch.
    pub knot_visit_counts: Vec<KnotCounts>,
    /// The global variables.
    pub variables: Vec<VariableEntry>,
}

/// Key uniqueness of the visit-count table.
pub open spec fn counts_wf(d: FollowData) -> bool {
    &&& forall|i: int, k: int|
        0 <= i < k < d.knot_visit_counts@.len() ==> #[trigger] d.knot_visit_counts@[i].knot@
            != #[trigger] d.knot_visit_counts@[k].knot@
    &&& forall|i: int, j: int, k: int|
        0 <= i < d.knot_visit_counts@.len() && 0 <= j < k
            < d.knot_visit_counts@[i].stitches@.len()
            ==> #[trigger] d.knot_visit_counts@[i].stitches@[j].stitch@
            != #[trigger] d.knot_visit_counts@[i].stitches@[k].stitch@
}

/// Key uniqueness of the variable table.
pub open spec fn vars_wf(d: FollowData) -> bool {
    forall|i: int, k: int|
        0 <= i < k < d.variables@.len() ==> #[trigger] d.variables@[i].name@
            != #[trigger] d.variables@[k].name@
}

/// Key uniqueness of both tables of the follow data.
pub open spec fn data_wf(d: FollowData) -> bool {
    counts_wf(d) && vars_wf(d)
}

/// The visit counts of one knot entry, as a map from stitch name to count.
pub open spec fn entry_counts(e: KnotCounts) -> Map<Seq<char>, u32> {
    Map::new(
        |s: Seq<char>| exists|j: int| 0 <= j < e.stitches@.len() && e.stitches@[j].stitch@ == s,
        |s: Seq<char>|
            {
                let j = choose|j: int| 0 <= j < e.stitches@.len() && e.stitches@[j].stitch@ == s;
                e.stitches@[j].count
            },
    )
}

/// The visit-count table as a map from knot name to a map from stitch name
/// to count.
pub open spec fn counts_map(d: FollowData) -> Map<Seq<char>, Map<Seq<char>, u32>> {
    Map::new(
        |k: Seq<char>|
            exists|i: int|
                0 <= i < d.knot_visit_counts@.len() && d.knot_visit_counts@[i].knot@ == k,
        |k: Seq<char>|
            {
                let i = choose|i: int|
                    0 <= i < d.knot_visit_counts@.len() && d.knot_visit_counts@[i].knot@ == k;
                entry_counts(d.knot_visit_counts@[i])
            },
    )
}

/// The variable table as a map from name to value.
pub open spec fn vars_map(d: FollowData) -> Map<Seq<char>, Variable> {
    Map::new(
        |n: Seq<char>| exists|i: int| 0 <= i < d.variables@.len() && d.variables@[i].name@ == n,
        |n: Seq<char>|
            {
                let i = choose|i: int| 0 <= i < d.variables@.len() && d.variables@[i].name@ == n;
                d.variables@[i].var
            },
    )
}

/// Whether the data holds a visit count for this knot and stitch.
pub open spec fn has_count(d: FollowData, knot: Seq<char>, stitch: Seq<char>) -> bool {
    counts_map(d).dom().contains(knot) && counts_map(d)[knot].dom().contains(stitch)
}

/// The stored visit count of this knot and stitch.
pub open spec fn spec_num_visited(d: FollowData, knot: Seq<char>, stitch: Seq<char>) -> u32 {
    counts_map(d)[knot][stitch]
}

/// Ties a concrete table position to the value of `counts_map`.
pub proof fn lemma_counts_map_at(d: FollowData, i: int, j: int)
    requires
        counts_wf(d),
        0 <= i < d.knot_visit_counts@.len(),
        0 <= j < d.knot_visit_counts@[i].stitches@.len(),
    ensures
        has_count(d, d.knot_visit_counts@[i].knot@, d.knot_visit_counts@[i].stitches@[j].stitch@),
        spec_num_visited(
            d,
            d.knot_visit_counts@[i].knot@,
            d.knot_visit_counts@[i].stitches@[j].stitch@,
        ) == d.knot_visit_counts@[i].stitches@[j].count,
{
    let knot = d.knot_visit_counts@[i].knot@;
    let stitch = d.knot_visit_counts@[i].stitches@[j].stitch@;
    let ci = choose|ii: int|
        0 <= ii < d.knot_visit_counts@.len() && d.knot_visit_counts@[ii].knot@ == knot;
    assert(d.knot_visit_counts@[i].knot@ == knot);
    assert(ci == i);
    let e = d.knot_visit_counts@[i];
    assert(e.stitches@[j].stitch@ == stitch);
    let cj = choose|jj: int| 0 <= jj < e.stitches@.len() && e.stitches@[jj].stitch@ == stitch;
    assert(cj == j);
}

/// Ties the value of `vars_map` to a concrete table position.
pub proof fn lemma_vars_map_at(d: FollowData, i: int)
    requires
        vars_wf(d),
        0 <= i < d.variables@.len(),
    ensures
        vars_map(d).dom().contains(d.variables@[i].name@),
        vars_map(d)[d.variables@[i].name@] == d.variables@[i].var,
{
    let name = d.variables@[i].name@;
    let ci = choose|ii: int| 0 <= ii < d.variables@.len() && d.variables@[ii].name@ == name;
    assert(d.variables@[i].name@ == name);
    assert(ci == i);
}

/// What looking a visit count up for an address gives: a count for a
/// validated location that the data holds, an internal error otherwise.
pub open spec fn spec_get_num_visited(a: AddressV, d: FollowData) -> Result<u32, InklingErrV> {
    match a {
        AddressV::Validated(AddressKindV::Location { knot, stitch }) => if has_count(
            d,
            knot,
            stitch,
        ) {
            Ok(spec_num_visited(d, knot, stitch))
        } else {
            Err(InklingErrV::Internal(InternalErrV::UnknownLocation { knot, stitch }))
        },
        AddressV::Validated(_) => Err(InklingErrV::Internal(InternalErrV::AddressIsNotLocation)),
        AddressV::Raw(_) => Err(InklingErrV::Internal(InternalErrV::UseOfUnvalidatedAddress)),
    }
}

/// Find the table position of a knot and stitch.
pub(crate) fn find_count_pos(data: &FollowData, knot: &str, stitch: &str) -> (r: Option<(usize, usize)>)
    requires
        counts_wf(*data),
    ensures
        match r {
            Some(p) => {
                &&& p.0 < data.knot_visit_counts@.len()
                &&& data.knot_visit_counts@[p.0 as int].knot@ == knot@
                &&& p.1 < data.knot_visit_counts@[p.0 as int].stitches@.len()
                &&& data.knot_visit_counts@[p.0 as int].stitches@[p.1 as int].stitch@ == stitch@
            },
            None => !has_count(*data, knot@, stitch@),
        },
{
    let n = data.knot_visit_counts.len();
    let mut i: usize = 0;
    while i < n
        invariant
            counts_wf(*data),
            n == data.knot_visit_counts@.len(),
            0 <= i <= n,
            forall|ii: int| 0 <= ii < i ==> data.knot_visit_counts@[ii].knot@ != knot@,
        decreases n - i,
    {
        if str_eq(data.knot_visit_counts[i].knot.as_str(), knot) {
            let entry = &data.knot_visit_counts[i];
            let m = entry.stitches.len();
            let mut j: usize = 0;
            while j < m
                invariant
                    counts_wf(*data),
                    0 <= i < data.knot_visit_counts@.len(),
                    *entry == data.knot_visit_counts@[i as int],
                    entry.knot@ == knot@,
                    m == entry.stitches@.len(),
                    0 <= j <= m,
                    forall|jj: int| 0 <= jj < j ==> entry.stitches@[jj].stitch@ != stitch@,
                decreases m - j,
            {
                if str_eq(entry.stitches[j].stitch.as_str(), stitch) {
                    return Some((i, j));
                }
                j += 1;
            }
            // The knot was found and its stitch table exhausted: with unique
            // knot names no other entry can hold this stitch.
            proof {
                assert forall|ii: int, jj: int|
                    0 <= ii < data.knot_visit_counts@.len() && data.knot_visit_counts@[ii].knot@
                        == knot@ && 0 <= jj
                        < data.knot_visit_counts@[ii].stitches@.len() implies data.knot_visit_counts@[ii].stitches@[jj].stitch@
                    != stitch@ by {
                    assert(ii == i);
                }
                assert(!counts_map(*data).dom().contains(knot@) || !counts_map(
                    *data,
                )[knot@].dom().contains(stitch@));
            }
            return None;
        }
        i += 1;
    }
    proof {
        assert(!counts_map(*data).dom().contains(knot@));
    }
    None
}

/// Get the number of times a stitch has been visited.
///
/// The address must be a validated location held by the data; anything else
/// is an internal error.
pub fn get_num_visited(address: &Address, data: &FollowData) -> (r: Result<u32, InklingError>)
    requires
        counts_wf(*data),
    ensures
        match spec_get_num_visited(address@, *data) {
            Ok(c) => r is Ok && r->Ok_0 == c,
            Err(e) => r is Err && r->Err_0@ == e,
        },
{
    let location = match address {
        Address::Validated(kind) => kind,
        Address::Raw(_) => {
            return Err(InklingError::Internal(InternalError::UseOfUnvalidatedAddress));
        },
    };
    match location {
        crate::address::AddressKind::Location { knot, stitch } => {
            match find_count_pos(data, knot.as_str(), stitch.as_str()) {
                Some(pos) => {
                    proof {
                        lemma_counts_map_at(*data, pos.0 as int, pos.1 as int);
                    }
                    Ok(data.knot_visit_counts[pos.0].stitches[pos.1].count)
                },
                None => Err(
                    InklingError::Internal(
                        InternalError::UnknownLocation { knot: knot.clone(), stitch: stitch.clone() },
                    ),
                ),
            }
        },
        _ => Err(InklingError::Internal(InternalError::AddressIsNotLocation)),
    }
}

/// How one increment changes the visit-count table: the addressed counter
/// is one higher (saturating), everything else is unchanged.
pub open spec fn counts_bumped(
    d0: FollowData,
    d1: FollowData,
    knot: Seq<char>,
    stitch: Seq<char>,
) -> bool {
    &&& counts_map(d1).dom() =~= counts_map(d0).dom()
    &&& forall|k: Seq<char>|
        counts_map(d0).dom().contains(k) ==> #[trigger] counts_map(d1)[k].dom() =~= counts_map(
            d0,
        )[k].dom()
    &&& forall|k: Seq<char>, s: Seq<char>|
        has_count(d0, k, s) && !(k == knot && s == stitch) ==> #[trigger] spec_num_visited(d1, k, s)
            == spec_num_visited(d0, k, s)
    &&& spec_num_visited(d1, knot, stitch) == sat_inc(spec_num_visited(d0, knot, stitch))
}

/// A saturating increment: visit counts stop at the largest value rather
/// than wrap.
pub open spec fn sat_inc(c: u32) -> u32 {
    if c == u32::MAX {
        c
    } else {
        (c + 1) as u32
    }
}

/// Step the visit count of a stitch, the first time its node is entered.
///
/// The address must be a validated location held by the data; anything else
/// is an internal error, and the data is unchanged.
pub fn increment_num_visited(address: &Address, data: &mut FollowData) -> (r: Result<
    (),
    InklingError,
>)
    requires
        counts_wf(*old(data)),
    ensures
        match spec_get_num_visited(address@, *old(data)) {
            Ok(_) => {
                &&& r is Ok
                &&& counts_wf(*final(data))
                &&& final(data).variables == old(data).variables
                &&& address@ matches AddressV::Validated(AddressKindV::Location { knot, stitch })
                    && counts_bumped(*old(data), *final(data), knot, stitch)
            },
            Err(e) => r is Err && r->Err_0@ == e && *final(data) == *old(data),
        },
{
    let location = match address {
        Address::Validated(kind) => kind,
        Address::Raw(_) => {
            return Err(InklingError::Internal(InternalError::UseOfUnvalidatedAddress));
        },
    };
    match location {
        crate::address::AddressKind::Location { knot, stitch } => {
            match find_count_pos(data, knot.as_str(), stitch.as_str()) {
                Some(pos) => {
                    let i = pos.0;
                    let j = pos.1;
                    let old_count = data.knot_visit_counts[i].stitches[j].count;
                    let new_count = if old_count == u32::MAX {
                        old_count
                    } else {
                        old_count + 1
                    };
                    let entry = &mut data.knot_visit_counts[i];
                    let slot = &mut entry.stitches[j];
                    slot.count = new_count;
                    proof {
                        lemma_counts_bumped(*old(data), *data, i as int, j as int);
                    }
                    Ok(())
                },
                None => Err(
                    InklingError::Internal(
                        InternalError::UnknownLocation { knot: knot.clone(), stitch: stitch.clone() },
                    ),
                ),
            }
        },
        _ => Err(InklingError::Internal(InternalError::AddressIsNotLocation)),
    }
}

/// A table whose one slot `(i, j)` stepped its count, and nothing else
/// changed, realises `counts_bumped` for that slot's names.
proof fn lemma_counts_bumped(d0: FollowData, d1: FollowData, i: int, j: int)
    requires
        counts_wf(d0),
        0 <= i < d0.knot_visit_counts@.len(),
        0 <= j < d0.knot_visit_counts@[i].stitches@.len(),
        d1.knot_visit_counts@.len() == d0.knot_visit_counts@.len(),
        forall|ii: int|
            0 <= ii < d0.knot_visit_counts@.len() && ii != i ==> d1.knot_visit_counts@[ii]
                == d0.knot_visit_counts@[ii],
        d1.knot_visit_counts@[i].knot@ == d0.knot_visit_counts@[i].knot@,
        d1.knot_visit_counts@[i].stitches@.len() == d0.knot_visit_counts@[i].stitches@.len(),
        forall|jj: int|
            0 <= jj < d0.knot_visit_counts@[i].stitches@.len() && jj != j
                ==> d1.knot_visit_counts@[i].stitches@[jj] == d0.knot_visit_counts@[i].stitches@[jj],
        d1.knot_visit_counts@[i].stitches@[j].stitch@ == d0.knot_visit_counts@[i].stitches@[j].stitch@,
        d1.knot_visit_counts@[i].stitches@[j].count == sat_inc(
            d0.knot_visit_counts@[i].stitches@[j].count,
        ),
    ensures
        counts_wf(d1),
        counts_bumped(
            d0,
            d1,
            d0.knot_visit_counts@[i].knot@,
            d0.knot_visit_counts@[i].stitches@[j].stitch@,
        ),
{
    let knot = d0.knot_visit_counts@[i].knot@;
    let stitch = d0.knot_visit_counts@[i].stitches@[j].stitch@;
    assert forall|ii: int, jj: int|
        0 <= ii < d1.knot_visit_counts@.len() && 0 <= jj
            < d1.knot_visit_counts@[ii].stitches@.len() implies d1.knot_visit_counts@[ii].stitches@[jj].stitch@
        == d0.knot_visit_counts@[ii].stitches@[jj].stitch@ by {}
    assert(counts_wf(d1));
    assert(counts_map(d1).dom() =~= counts_map(d0).dom());
    assert forall|k: Seq<char>| counts_map(d0).dom().contains(k) implies counts_map(
        d1,
    )[k].dom() =~= counts_map(d0)[k].dom() by {
        let ci = choose|ii: int|
            0 <= ii < d0.knot_visit_counts@.len() && d0.knot_visit_counts@[ii].knot@ == k;
        let ci1 = choose|ii: int|
            0 <= ii < d1.knot_visit_counts@.len() && d1.knot_visit_counts@[ii].knot@ == k;
        assert(d1.knot_visit_counts@[ci].knot@ == k);
        assert(ci1 == ci);
    }
    assert forall|k: Seq<char>, s: Seq<char>|
        has_count(d0, k, s) && !(k == knot && s == stitch) implies #[trigger] spec_num_visited(
        d1,
        k,
        s,
    ) == spec_num_visited(d0, k, s) by {
        let ci = choose|ii: int|
            0 <= ii < d0.knot_visit_counts@.len() && d0.knot_visit_counts@[ii].knot@ == k;
        let ci1 = choose|ii: int|
            0 <= ii < d1.knot_visit_counts@.len() && d1.knot_visit_counts@[ii].knot@ == k;
        assert(d1.knot_visit_counts@[ci].knot@ == k);
        assert(ci1 == ci);
        let e0 = d0.knot_visit_counts@[ci];
        let e1 = d1.knot_visit_counts@[ci];
        let cj = choose|jj: int| 0 <= jj < e0.stitches@.len() && e0.stitches@[jj].stitch@ == s;
        let cj1 = choose|jj: int| 0 <= jj < e1.stitches@.len() && e1.stitches@[jj].stitch@ == s;
        assert(e1.stitches@[cj].stitch@ == s);
        assert(cj1 == cj);
        if ci == i && cj == j {
            assert(k == knot && s == stitch);
        }
    }
    lemma_counts_map_at(d0, i, j);
    lemma_counts_map_at(d1, i, j);
}

/// Look a global variable up by name.
pub fn get_variable_value(data: &FollowData, name: &str) -> (r: Option<Variable>)
    requires
        vars_wf(*data),
    ensures
        match r {
            Some(v) => vars_map(*data).dom().contains(name@) && v == vars_map(*data)[name@],
            None => !vars_map(*data).dom().contains(name@),
        },
{
    let n = data.variables.len();
    let mut i: usize = 0;
    while i < n
        invariant
            vars_wf(*data),
            n == data.variables@.len(),
            0 <= i <= n,
            forall|j: int| 0 <= j < i ==> data.variables@[j].name@ != name@,
        decreases n - i,
    {
        if str_eq(data.variables[i].name.as_str(), name) {
            proof {
                lemma_vars_map_at(*data, i as int);
            }
            return Some(data.variables[i].var.duplicate());
        }
        i += 1;
    }
    None
}


/// What one step of following a node gives: the node completed, a divert
/// fired, or a branching point was reached.
pub enum Next {
    /// The node's items are exhausted.
    Done,
    /// A line carried a trailing divert.
    Divert(Address),
    /// A branching point was reached: the eligible choices, their branch
    /// indices, and the eligible fallback if one exists.
    ChoiceSet(ChoiceSetData),
}

/// The outcome of presenting one branching point.
#[derive(Debug)]
pub struct ChoiceSetData {
    /// The eligible non-fallback choices, rendered, in branch order.
    pub choices: Vec<Choice>,
    /// For each presented choice, the index of its branch in the branching
    /// point's branch list.
    pub branch_indices: Vec<usize>,
    /// The branch index of the eligible fallback, when one exists.
    pub fallback: Option<usize>,
}

/// The positions of a `usize` list as mathematical integers.
pub open spec fn usizes_as_ints(s: Seq<usize>) -> Seq<int> {
    Seq::new(s.len(), |i: int| s[i] as int)
}

/// Whether a branch is eligible: its condition (if any) holds, and it is
/// sticky or not yet taken. An error in the condition propagates.
pub open spec fn spec_eligible(b: BranchV, d: FollowData) -> Result<bool, InklingErrV> {
    match b.choice.condition {
        Some(c) => match spec_eval_condition(c, d) {
            Ok(cond) => Ok(cond && (b.choice.is_sticky || b.num_visited == 0)),
            Err(e) => Err(e),
        },
        None => Ok(b.choice.is_sticky || b.num_visited == 0),
    }
}

/// What presenting the branches from position `i` on gives: the rendered
/// eligible non-fallback choices with their branch indices, and the branch
/// index of the first eligible fallback.
///
/// The selection text of each choice is rendered with the branch's own
/// visit count, so inline alternatives in choice text vary with how often
/// the choice has been taken.
pub open spec fn spec_present(branches: Seq<BranchV>, i: int, d: FollowData) -> Result<
    (Seq<ChoiceV>, Seq<int>, Option<int>),
    InklingErrV,
>
    decreases branches.len() - i,
{
    if i < 0 || i >= branches.len() {
        Ok((Seq::empty(), Seq::empty(), None::<int>))
    } else {
        match spec_eligible(branches[i], d) {
            Err(e) => Err(e),
            Ok(false) => spec_present(branches, i + 1, d),
            Ok(true) => {
                if branches[i].choice.is_fallback {
                    match spec_present(branches, i + 1, d) {
                        Ok(rest) => Ok((rest.0, rest.1, Some(i))),
                        Err(e) => Err(e),
                    }
                } else {
                    match spec_render_chunks_from(
                        branches[i].choice.selection_text.chunks,
                        0,
                        branches[i].num_visited,
                        d,
                    ) {
                        Ok(rendered) => match spec_present(branches, i + 1, d) {
                            Ok(rest) => Ok(
                                (
                                    seq![
                                        ChoiceV {
                                            text: rendered.0,
                                            tags: branches[i].choice.tags,
                                        },
                                    ] + rest.0,
                                    seq![i] + rest.1,
                                    rest.2,
                                ),
                            ),
                            Err(e) => Err(e),
                        },
                        Err(e) => Err(e),
                    }
                }
            },
        }
    }
}

/// Present the branches from position `i` on.
fn present_from(branches: &Vec<Branch>, i: usize, data: &FollowData, log: &mut Logger) -> (r:
    Result<ChoiceSetData, InklingError>)
    requires
        data_wf(*data),
    ensures
        old(log)@.is_prefix_of(final(log)@),
        match spec_present(view_branches(branches@), i as int, *data) {
            Ok(p) => {
                &&& r is Ok
                &&& view_choices(r->Ok_0.choices@) == p.0
                &&& usizes_as_ints(r->Ok_0.branch_indices@) == p.1
                &&& match r->Ok_0.fallback {
                    Some(f) => p.2 == Some(f as int),
                    None => p.2 is None,
                }
            },
            Err(e) => r is Err && r->Err_0@ == e && crate::error::walk_err(e),
        },
    decreases branches@.len() - i,
{
    proof {
        lemma_view_branches(branches@);
    }
    if i >= branches.len() {
        let r = ChoiceSetData { choices: Vec::new(), branch_indices: Vec::new(), fallback: None };
        proof {
            assert(view_choices(r.choices@) =~= Seq::<ChoiceV>::empty());
            assert(usizes_as_ints(r.branch_indices@) =~= Seq::<int>::empty());
        }
        return Ok(r);
    }
    let b = &branches[i];
    let cond_ok = match &b.choice.condition {
        Some(c) => match c.evaluate(data) {
            Ok(v) => v,
            Err(e) => {
                proof {
                    crate::condition::lemma_eval_condition_err(c@, *data);
                }
                return Err(e);
            },
        },
        None => true,
    };
    let eligible = cond_ok && (b.choice.is_sticky || b.num_visited == 0);
    if !eligible {
        return present_from(branches, i + 1, data, log);
    }
    if b.choice.is_fallback {
        let mut rest = match present_from(branches, i + 1, data, log) {
            Ok(rest) => rest,
            Err(e) => {
                return Err(e);
            },
        };
        rest.fallback = Some(i);
        Ok(rest)
    } else {
        let mut text = String::new();
        match crate::line::render_chunks_from(
            &b.choice.selection_text.chunks,
            0,
            b.num_visited,
            data,
            &mut text,
            log,
        ) {
            Ok(()) => {},
            Err(e) => {
                proof {
                    crate::line::lemma_render_chunks_from_err(
                        crate::line::view_chunks(b.choice.selection_text.chunks@),
                        0,
                        b.num_visited,
                        *data,
                    );
                }
                return Err(e);
            },
        }
        let mut rest = match present_from(branches, i + 1, data, log) {
            Ok(rest) => rest,
            Err(e) => {
                return Err(e);
            },
        };
        let tags = duplicate_strings(&b.choice.tags);
        rest.choices.insert(0, Choice { text, tags });
        rest.branch_indices.insert(0, i);
        proof {
            let p = spec_present(view_branches(branches@), i as int, *data)->Ok_0;
            assert(view_choices(rest.choices@) =~= p.0);
            assert(usizes_as_ints(rest.branch_indices@) =~= p.1);
        }
        Ok(rest)
    }
}

/// Present one branching point: the eligible non-fallback choices with
/// their branch indices, and the eligible fallback if any.
pub(crate) fn present_choices(branches: &Vec<Branch>, data: &FollowData, log: &mut Logger) -> (r:
    Result<ChoiceSetData, InklingError>)
    requires
        data_wf(*data),
    ensures
        old(log)@.is_prefix_of(final(log)@),
        match spec_present(view_branches(branches@), 0, *data) {
            Ok(p) => {
                &&& r is Ok
                &&& view_choices(r->Ok_0.choices@) == p.0
                &&& usizes_as_ints(r->Ok_0.branch_indices@) == p.1
                &&& match r->Ok_0.fallback {
                    Some(f) => p.2 == Some(f as int),
                    None => p.2 is None,
                }
            },
            Err(e) => r is Err && r->Err_0@ == e && crate::error::walk_err(e),
        },
{
    present_from(branches, 0, data, log)
}


/// Whether a position stack addresses the node graph correctly from
/// `depth` on: even slots index items, odd slots index branches, and the
/// last slot may sit one past the end of its item list.
pub open spec fn stack_fits(items: Seq<ItemV>, stack: Seq<usize>, depth: int) -> bool
    decreases stack.len() - depth,
{
    &&& 0 <= depth <= stack.len() - 1
    &&& if depth == stack.len() - 1 {
        stack[depth] <= items.len()
    } else {
        &&& depth + 2 <= stack.len() - 1
        &&& stack[depth] < items.len()
        &&& items[stack[depth] as int] is BranchingPoint
        &&& stack[depth + 1] < items[stack[depth] as int]->BranchingPoint_0.len()
        &&& stack_fits(
            items[stack[depth] as int]->BranchingPoint_0[stack[depth + 1] as int].items,
            stack,
            depth + 2,
        )
    }
}

/// The item list of the node that the stack's deepest level walks.
pub open spec fn node_items_at(items: Seq<ItemV>, stack: Seq<usize>, depth: int) -> Seq<ItemV>
    decreases stack.len() - depth,
{
    if depth >= stack.len() - 1 {
        items
    } else {
        node_items_at(
            items[stack[depth] as int]->BranchingPoint_0[stack[depth + 1] as int].items,
            stack,
            depth + 2,
        )
    }
}

/// The pairs of item and branch indices that lead from `depth` down to the
/// branch that selecting `choice` enters.
pub open spec fn spec_selection_path(stack: Seq<usize>, depth: int, choice: int) -> Seq<int>
    decreases stack.len() - depth,
{
    if depth >= stack.len() - 1 {
        seq![stack[depth] as int, choice]
    } else {
        seq![stack[depth] as int, stack[depth + 1] as int] + spec_selection_path(
            stack,
            depth + 2,
            choice,
        )
    }
}

/// How selecting one branch changes the node graph: along the path of item
/// and branch indices, everything is unchanged except that the selected
/// branch's visit count steps up by one (saturating).
pub open spec fn bumped_at(pre: Seq<ItemV>, post: Seq<ItemV>, path: Seq<int>) -> bool
    decreases path.len(),
{
    if path.len() < 2 {
        false
    } else {
        let ii = path[0];
        let bi = path[1];
        &&& post.len() == pre.len()
        &&& 0 <= ii < pre.len()
        &&& forall|j: int| 0 <= j < pre.len() && j != ii ==> post[j] == pre[j]
        &&& pre[ii] is BranchingPoint
        &&& post[ii] is BranchingPoint
        &&& {
            let bs0 = pre[ii]->BranchingPoint_0;
            let bs1 = post[ii]->BranchingPoint_0;
            &&& bs1.len() == bs0.len()
            &&& 0 <= bi < bs0.len()
            &&& forall|j: int| 0 <= j < bs0.len() && j != bi ==> bs1[j] == bs0[j]
            &&& bs1[bi].choice == bs0[bi].choice
            &&& if path.len() == 2 {
                bs1[bi].num_visited == sat_inc(bs0[bi].num_visited) && bs1[bi].items == bs0[bi].items
            } else {
                bs1[bi].num_visited == bs0[bi].num_visited && bumped_at(
                    bs0[bi].items,
                    bs1[bi].items,
                    path.skip(2),
                )
            }
        }
    }
}

/// A bump along a valid path keeps the graph's structural invariants.
pub proof fn lemma_bumped_wf(pre: Seq<ItemV>, post: Seq<ItemV>, path: Seq<int>)
    requires
        items_wf(pre),
        bumped_at(pre, post, path),
    ensures
        items_wf(post),
    decreases path.len(),
{
    let ii = path[0];
    let bi = path[1];
    let bs0 = pre[ii]->BranchingPoint_0;
    let bs1 = post[ii]->BranchingPoint_0;
    if path.len() > 2 {
        assert(item_wf(pre[ii]));
        assert(branch_wf(bs0[bi]));
        lemma_bumped_wf(bs0[bi].items, bs1[bi].items, path.skip(2));
    }
    assert forall|j: int| 0 <= j < post.len() implies item_wf(#[trigger] post[j]) by {
        assert(item_wf(pre[j]));
        if j == ii {
            assert forall|k: int| 0 <= k < bs1.len() implies branch_wf(#[trigger] bs1[k]) by {
                assert(branch_wf(bs0[k]));
                if k == bi {
                    if path.len() == 2 {
                        assert(bs1[k] =~= BranchV {
                            num_visited: bs1[k].num_visited,
                            ..bs0[k]
                        });
                    } else {
                        assert(items_wf(bs1[k].items));
                        assert(bs1[k].items.len() == bs0[k].items.len());
                        assert(bs1[k].items[0] == bs0[k].items[0] || bs1[k].items[0] is BranchingPoint);
                    }
                }
            }
        }
    }
}


/// What one step of the spec-level walk ends with.
#[verifier::ext_equal]
pub enum WalkNextV {
    Done,
    Divert(AddressV),
    Choices,
}

/// The spec-level outcome a `Next` value corresponds to.
pub open spec fn walk_next_of(n: Next) -> WalkNextV {
    match n {
        Next::Done => WalkNextV::Done,
        Next::Divert(a) => WalkNextV::Divert(a@),
        Next::ChoiceSet(_) => WalkNextV::Choices,
    }
}

/// The walk over one node's items, as a mathematical function: from
/// position `idx` on, each line is rendered and appended to the buffer
/// (joining at glue boundaries), a trailing divert or a branching point
/// stops the walk, and running off the end is `Done`. The result is the
/// final buffer, the final position, and how the walk stopped; an
/// evaluation failure in a line or in a choice condition is the error of
/// the whole walk.
pub open spec fn spec_follow_items(
    items: Seq<ItemV>,
    idx: int,
    vc: u32,
    d: FollowData,
    buf: Seq<LineV>,
) -> Result<(Seq<LineV>, int, WalkNextV), InklingErrV>
    decreases items.len() - idx,
{
    if idx < 0 || idx >= items.len() {
        Ok((buf, idx, WalkNextV::Done))
    } else {
        match items[idx] {
            ItemV::Line(l) => match spec_render_line(l, vc, d) {
                Ok(res) => {
                    let buf2 = spec_append_line(buf, res.0, l.tags, l.glue_begin);
                    match l.divert {
                        Some(a) => Ok((buf2, idx + 1, WalkNextV::Divert(a))),
                        None => spec_follow_items(items, idx + 1, vc, d, buf2),
                    }
                },
                Err(e) => Err(e),
            },
            ItemV::BranchingPoint(bs) => match spec_present(bs, 0, d) {
                Ok(_) => Ok((buf, idx, WalkNextV::Choices)),
                Err(e) => Err(e),
            },
        }
    }
}

/// Follow the items of one node from the position at the top of the stack:
/// render and emit lines, stop at a divert or a branching point, or run off
/// the end.
///
/// The node's own visit count was stepped by the caller when the node was
/// entered; it drives the inline alternatives of the node's lines.
pub(crate) fn follow_items(
    items: &Vec<NodeItem>,
    node_visit_count: u32,
    stack: &mut Vec<usize>,
    data: &FollowData,
    buffer: &mut Vec<Line>,
    log: &mut Logger,
) -> (r: Result<Next, InklingError>)
    requires
        data_wf(*data),
        items_wf(view_items(items@)),
        old(stack)@.len() >= 1,
        old(stack)@.last() <= items@.len(),
    ensures
        final(stack)@.len() == old(stack)@.len(),
        final(stack)@.drop_last() == old(stack)@.drop_last(),
        old(stack)@.last() <= final(stack)@.last() <= items@.len(),
        buffer_extended(view_buffer(old(buffer)@), view_buffer(final(buffer)@)),
        old(log)@.is_prefix_of(final(log)@),
        match r {
            Err(ref e) => spec_follow_items(
                view_items(items@),
                old(stack)@.last() as int,
                node_visit_count,
                *data,
                view_buffer(old(buffer)@),
            ) == Err::<(Seq<LineV>, int, WalkNextV), InklingErrV>(e@),
            Ok(ref next) => spec_follow_items(
                view_items(items@),
                old(stack)@.last() as int,
                node_visit_count,
                *data,
                view_buffer(old(buffer)@),
            ) == Ok::<(Seq<LineV>, int, WalkNextV), InklingErrV>(
                (view_buffer(final(buffer)@), final(stack)@.last() as int, walk_next_of(*next)),
            ),
        },
        match r {
            Err(e) => crate::error::walk_err(e@),
            Ok(next) => match next {
                Next::Done => final(stack)@.last() == items@.len(),
                Next::Divert(a) => final(stack)@.last() >= 1 && (view_items(
                    items@,
                )[final(stack)@.last() - 1] matches ItemV::Line(l) && l.divert == Some(a@)),
                Next::ChoiceSet(ref csd) => {
                    &&& final(stack)@.last() < items@.len()
                    &&& view_items(items@)[final(stack)@.last() as int] matches ItemV::BranchingPoint(bs)
                        && spec_present(bs, 0, *data) matches Ok(p) && view_choices(csd.choices@)
                        == p.0 && usizes_as_ints(csd.branch_indices@) == p.1 && (match csd.fallback {
                        Some(f) => p.2 == Some(f as int),
                        None => p.2 is None,
                    })
                },
            },
        },
{
    proof {
        lemma_view_items(items@);
        lemma_buffer_extended_refl(view_buffer(buffer@));
        crate::log::lemma_log_prefix_refl(log@);
    }
    let n = items.len();
    loop
        invariant
            data_wf(*data),
            items_wf(view_items(items@)),
            n == items@.len(),
            view_items(items@).len() == n,
            forall|i: int| 0 <= i < n ==> view_items(items@)[i] == view_item(items@[i]),
            stack@.len() == old(stack)@.len(),
            stack@.len() >= 1,
            stack@.drop_last() == old(stack)@.drop_last(),
            old(stack)@.last() <= stack@.last() <= n,
            buffer_extended(view_buffer(old(buffer)@), view_buffer(buffer@)),
            old(log)@.is_prefix_of(log@),
            spec_follow_items(
                view_items(items@),
                old(stack)@.last() as int,
                node_visit_count,
                *data,
                view_buffer(old(buffer)@),
            ) == spec_follow_items(
                view_items(items@),
                stack@.last() as int,
                node_visit_count,
                *data,
                view_buffer(buffer@),
            ),
        decreases n - stack@.last(),
    {
        let k = stack.len() - 1;
        let idx = stack[k];
        if idx >= n {
            return Ok(Next::Done);
        }
        match &items[idx] {
            NodeItem::Line(line) => {
                let ghost log_before = log@;
                let text = match line.render(node_visit_count, data, log) {
                    Ok(text) => text,
                    Err(e) => {
                        proof {
                            crate::log::lemma_log_prefix_trans(old(log)@, log_before, log@);
                            crate::line::lemma_render_line_err(line@, node_visit_count, *data);
                            assert(view_items(items@)[idx as int] == ItemV::Line(line@));
                        }
                        return Err(e);
                    },
                };
                proof {
                    crate::log::lemma_log_prefix_app(log_before, log@.skip(log_before.len() as int));
                    assert(log_before + log@.skip(log_before.len() as int) =~= log@);
                    crate::log::lemma_log_prefix_trans(old(log)@, log_before, log@);
                }
                let tags = duplicate_strings(&line.tags);
                let ghost buf_before = view_buffer(buffer@);
                append_line(buffer, text, tags, line.glue_begin);
                proof {
                    lemma_buffer_extended_append(buf_before, view_buffer(buffer@));
                    lemma_buffer_extended_trans(
                        view_buffer(old(buffer)@),
                        buf_before,
                        view_buffer(buffer@),
                    );
                }
                stack[k] = idx + 1;
                proof {
                    assert(stack@.drop_last() =~= old(stack)@.drop_last());
                    assert(view_items(items@)[idx as int] == ItemV::Line(line@));
                    assert(view_buffer(buffer@) == spec_append_line(
                        buf_before,
                        spec_render_line(line@, node_visit_count, *data)->Ok_0.0,
                        line@.tags,
                        line@.glue_begin,
                    ));
                }
                match &line.divert {
                    Some(addr) => {
                        return Ok(Next::Divert(addr.duplicate()));
                    },
                    None => {},
                }
            },
            NodeItem::BranchingPoint(branches) => {
                let ghost log_before = log@;
                proof {
                    assert(view_items(items@)[idx as int] == ItemV::BranchingPoint(
                        view_branches(branches@),
                    ));
                }
                match present_choices(branches, data, log) {
                    Ok(csd) => {
                        proof {
                            crate::log::lemma_log_prefix_trans(old(log)@, log_before, log@);
                        }
                        return Ok(Next::ChoiceSet(csd));
                    },
                    Err(e) => {
                        proof {
                            crate::log::lemma_log_prefix_trans(old(log)@, log_before, log@);
                        }
                        return Err(e);
                    },
                }
            },
        }
    }
}

/// A buffer only grows, and only the newline at the previous boundary may
/// be removed by glue: entries before the boundary are unchanged, and the
/// boundary entry either stands or has lost its trailing newline.
pub open spec fn buffer_extended(pre: Seq<LineV>, post: Seq<LineV>) -> bool {
    &&& post.len() >= pre.len()
    &&& forall|i: int| 0 <= i < pre.len() - 1 ==> post[i] == pre[i]
    &&& pre.len() >= 1 ==> {
        let k = pre.len() - 1;
        ||| post[k] == pre[k]
        ||| (post[k].tags == pre[k].tags && post[k].text == pre[k].text.drop_last() && post.len()
            > pre.len())
    }
}

/// Buffer extension is reflexive.
pub proof fn lemma_buffer_extended_refl(s: Seq<LineV>)
    ensures
        buffer_extended(s, s),
{
}

/// Buffer extension is transitive.
pub proof fn lemma_buffer_extended_trans(a: Seq<LineV>, b: Seq<LineV>, c: Seq<LineV>)
    requires
        buffer_extended(a, b),
        buffer_extended(b, c),
    ensures
        buffer_extended(a, c),
{
    if a.len() >= 1 {
        let k = a.len() - 1;
        if b[k] != a[k] {
            assert(b.len() > a.len());
            assert(c[k] == b[k]);
        }
    }
}

/// Appending one line extends the buffer.
pub proof fn lemma_buffer_extended_append(pre: Seq<LineV>, post: Seq<LineV>)
    requires
        exists|t: Seq<char>, g: Seq<Seq<char>>, gb: bool| post == spec_append_line(pre, t, g, gb),
    ensures
        buffer_extended(pre, post),
{
}



/// The walk that selecting a branch performs, as a mathematical function:
/// descend along the stack, step the selected branch's visit count, walk
/// the branch, and when it completes, step past the branching point and
/// keep walking the caller's items. The result is the new graph, the new
/// stack, the new buffer, and how the walk stopped.
pub open spec fn spec_follow_with_choice(
    items: Seq<ItemV>,
    choice: int,
    depth: int,
    vc: u32,
    stack: Seq<usize>,
    d: FollowData,
    buf: Seq<LineV>,
) -> Result<(Seq<ItemV>, Seq<usize>, Seq<LineV>, WalkNextV), InklingErrV>
    decreases stack.len() - depth,
{
    if depth < 0 || depth > stack.len() - 1 {
        Err(
            InklingErrV::Internal(
                InternalErrV::IncorrectNodeStack(IncorrectNodeStackError::EmptyStack),
            ),
        )
    } else if depth == stack.len() - 1 {
        let ii = stack[depth] as int;
        if ii >= items.len() {
            Err(
                InklingErrV::Internal(
                    InternalErrV::IncorrectNodeStack(
                        IncorrectNodeStackError::OutOfBounds {
                            index: stack[depth],
                            len: items.len() as usize,
                        },
                    ),
                ),
            )
        } else {
            match items[ii] {
                ItemV::BranchingPoint(bs) => {
                    if choice < 0 || choice >= bs.len() {
                        Err(
                            InklingErrV::Internal(
                                InternalErrV::IncorrectNodeStack(
                                    IncorrectNodeStackError::OutOfBounds {
                                        index: choice as usize,
                                        len: bs.len() as usize,
                                    },
                                ),
                            ),
                        )
                    } else {
                        let b = bs[choice];
                        let newc = sat_inc(b.num_visited);
                        let items2 = items.update(
                            ii,
                            ItemV::BranchingPoint(
                                bs.update(
                                    choice,
                                    BranchV { choice: b.choice, items: b.items, num_visited: newc },
                                ),
                            ),
                        );
                        match spec_follow_items(b.items, 0, newc, d, buf) {
                            Err(e) => Err(e),
                            Ok(r1) => {
                                if r1.2 is Done {
                                    match spec_follow_items(items2, ii + 1, vc, d, r1.0) {
                                        Err(e) => Err(e),
                                        Ok(r2) => Ok(
                                            (
                                                items2,
                                                stack.update(depth, r2.1 as usize),
                                                r2.0,
                                                r2.2,
                                            ),
                                        ),
                                    }
                                } else {
                                    Ok(
                                        (
                                            items2,
                                            stack.push(choice as usize).push(r1.1 as usize),
                                            r1.0,
                                            r1.2,
                                        ),
                                    )
                                }
                            },
                        }
                    }
                },
                _ => Err(
                    InklingErrV::Internal(
                        InternalErrV::IncorrectNodeStack(
                            IncorrectNodeStackError::ExpectedBranchingPoint { index: stack[depth] },
                        ),
                    ),
                ),
            }
        }
    } else {
        let ii = stack[depth] as int;
        let bi = stack[depth + 1] as int;
        if ii >= items.len() {
            Err(
                InklingErrV::Internal(
                    InternalErrV::IncorrectNodeStack(IncorrectNodeStackError::EmptyStack),
                ),
            )
        } else {
            match items[ii] {
                ItemV::BranchingPoint(bs) => {
                    if bi >= bs.len() {
                        Err(
                            InklingErrV::Internal(
                                InternalErrV::IncorrectNodeStack(
                                    IncorrectNodeStackError::EmptyStack,
                                ),
                            ),
                        )
                    } else {
                        let b = bs[bi];
                        match spec_follow_with_choice(
                            b.items,
                            choice,
                            depth + 2,
                            b.num_visited,
                            stack,
                            d,
                            buf,
                        ) {
                            Err(e) => Err(e),
                            Ok(r1) => {
                                let items2 = items.update(
                                    ii,
                                    ItemV::BranchingPoint(
                                        bs.update(
                                            bi,
                                            BranchV {
                                                choice: b.choice,
                                                items: r1.0,
                                                num_visited: b.num_visited,
                                            },
                                        ),
                                    ),
                                );
                                if r1.3 is Done {
                                    match spec_follow_items(items2, ii + 1, vc, d, r1.2) {
                                        Err(e) => Err(e),
                                        Ok(r2) => Ok(
                                            (
                                                items2,
                                                stack.subrange(0, depth + 1).update(
                                                    depth,
                                                    r2.1 as usize,
                                                ),
                                                r2.0,
                                                r2.2,
                                            ),
                                        ),
                                    }
                                } else {
                                    Ok((items2, r1.1, r1.2, r1.3))
                                }
                            },
                        }
                    }
                },
                _ => Err(
                    InklingErrV::Internal(
                        InternalErrV::IncorrectNodeStack(
                            IncorrectNodeStackError::ExpectedBranchingPoint { index: stack[depth] },
                        ),
                    ),
                ),
            }
        }
    }
}

/// Updating one item of a list updates its value pointwise.
pub proof fn lemma_view_items_update(s: Seq<NodeItem>, i: int, v: NodeItem)
    requires
        0 <= i < s.len(),
    ensures
        view_items(s.update(i, v)) =~= view_items(s).update(i, view_item(v)),
{
    lemma_view_items(s);
    lemma_view_items(s.update(i, v));
}

/// Updating one branch of a list updates its value pointwise.
pub proof fn lemma_view_branches_update(s: Seq<Branch>, i: int, v: Branch)
    requires
        0 <= i < s.len(),
    ensures
        view_branches(s.update(i, v)) =~= view_branches(s).update(i, view_branch(v)),
{
    lemma_view_branches(s);
    lemma_view_branches(s.update(i, v));
}

/// Select a branch and keep following.
///
/// `stack_depth` names the level of the stack this call works at; below the
/// last level the call descends along the stack, at the last level it
/// selects branch `choice_idx` of the branching point the stack is frozen
/// at, steps that branch's visit count, and follows the branch. When the
/// branch completes, the walk steps past the branching point and the
/// caller's remaining items execute.
#[verifier::rlimit(100)]
pub(crate) fn follow_with_choice(
    items: &mut Vec<NodeItem>,
    choice_idx: usize,
    stack_depth: usize,
    node_visit_count: u32,
    stack: &mut Vec<usize>,
    data: &FollowData,
    buffer: &mut Vec<Line>,
    log: &mut Logger,
) -> (r: Result<Next, InklingError>)
    requires
        data_wf(*data),
        items_wf(view_items(old(items)@)),
        stack_fits(view_items(old(items)@), old(stack)@, stack_depth as int),
        (old(stack)@.len() - stack_depth) % 2 == 1,
    ensures
        items_wf(view_items(final(items)@)),
        final(items)@.len() == old(items)@.len(),
        final(stack)@.len() >= stack_depth + 1,
        (final(stack)@.len() - stack_depth) % 2 == 1,
        final(stack)@.subrange(0, stack_depth as int) == old(stack)@.subrange(
            0,
            stack_depth as int,
        ),
        stack_fits(view_items(final(items)@), final(stack)@, stack_depth as int),
        buffer_extended(view_buffer(old(buffer)@), view_buffer(final(buffer)@)),
        old(log)@.is_prefix_of(final(log)@),
        view_items(final(items)@) == view_items(old(items)@) || bumped_at(
            view_items(old(items)@),
            view_items(final(items)@),
            spec_selection_path(old(stack)@, stack_depth as int, choice_idx as int),
        ),
        match r {
            Ok(next) => {
                &&& bumped_at(
                    view_items(old(items)@),
                    view_items(final(items)@),
                    spec_selection_path(old(stack)@, stack_depth as int, choice_idx as int),
                )
                &&& match next {
                    Next::Done => final(stack)@.len() == stack_depth + 1 && final(stack)@.last()
                        == final(items)@.len(),
                    Next::Divert(a) => {
                        let its = node_items_at(
                            view_items(final(items)@),
                            final(stack)@,
                            stack_depth as int,
                        );
                        &&& final(stack)@.last() >= 1
                        &&& final(stack)@.last() <= its.len()
                        &&& (its[final(stack)@.last() - 1] matches ItemV::Line(l) && l.divert
                            == Some(a@))
                    },
                    Next::ChoiceSet(ref csd) => {
                        let its = node_items_at(
                            view_items(final(items)@),
                            final(stack)@,
                            stack_depth as int,
                        );
                        &&& final(stack)@.last() < its.len()
                        &&& (its[final(stack)@.last() as int] matches ItemV::BranchingPoint(bs)
                            && spec_present(bs, 0, *data) matches Ok(p) && view_choices(
                            csd.choices@,
                        ) == p.0 && usizes_as_ints(csd.branch_indices@) == p.1 && (
                        match csd.fallback {
                            Some(f) => p.2 == Some(f as int),
                            None => p.2 is None,
                        }))
                    },
                }
            },
            Err(e) => crate::error::walk_err(e@),
        },
        match r {
            Ok(ref next) => spec_follow_with_choice(
                view_items(old(items)@),
                choice_idx as int,
                stack_depth as int,
                node_visit_count,
                old(stack)@,
                *data,
                view_buffer(old(buffer)@),
            ) == Ok::<(Seq<ItemV>, Seq<usize>, Seq<LineV>, WalkNextV), InklingErrV>(
                (
                    view_items(final(items)@),
                    final(stack)@,
                    view_buffer(final(buffer)@),
                    walk_next_of(*next),
                ),
            ),
            Err(ref e) => spec_follow_with_choice(
                view_items(old(items)@),
                choice_idx as int,
                stack_depth as int,
                node_visit_count,
                old(stack)@,
                *data,
                view_buffer(old(buffer)@),
            ) == Err::<(Seq<ItemV>, Seq<usize>, Seq<LineV>, WalkNextV), InklingErrV>(e@),
        },
    decreases old(stack)@.len() - stack_depth,
{
    proof {
        lemma_view_items(items@);
        lemma_buffer_extended_refl(view_buffer(buffer@));
        crate::log::lemma_log_prefix_refl(log@);
    }
    let ghost pre_items = view_items(old(items)@);
    let ghost pre_stack = old(stack)@;
    let ghost path = spec_selection_path(old(stack)@, stack_depth as int, choice_idx as int);
    let n = items.len();
    let last_level = stack_depth == stack.len() - 1;
    let i_idx = stack[stack_depth];

    if !last_level {
        // Descend along the stack to the level below.
        let b_idx = stack[stack_depth + 1];
        let ghost mut pre_bs: Seq<BranchV> = Seq::empty();
        let ghost mut sub_path: Seq<int> = Seq::empty();
        let sub_result = {
            let item = &mut items[i_idx];
            match item {
                NodeItem::BranchingPoint(branches) => {
                    proof {
                        lemma_view_branches(branches@);
                        pre_bs = view_branches(branches@);
                        assert(old(items)@[i_idx as int] == NodeItem::BranchingPoint(*branches));
                        assert(pre_items[i_idx as int] == ItemV::BranchingPoint(pre_bs));
                        assert(branch_wf(pre_bs[b_idx as int]));
                    }
                    let ghost bs_seq = branches@;
                    let branch = &mut branches[b_idx];
                    let branch_count = branch.num_visited;
                    proof {
                        sub_path = spec_selection_path(
                            stack@,
                            stack_depth + 2 as int,
                            choice_idx as int,
                        );
                        assert(view_branch(*branch) == pre_bs[b_idx as int]);
                    }
                    let ghost pre_branch = *branch;
                    let r = follow_with_choice(
                        &mut branch.items,
                        choice_idx,
                        stack_depth + 2,
                        branch_count,
                        stack,
                        data,
                        buffer,
                        log,
                    );
                    proof {
                        assert(branch.choice == pre_branch.choice);
                        assert(branch.num_visited == pre_branch.num_visited);
                        lemma_view_branches_update(bs_seq, b_idx as int, *branch);
                        assert(branches@ == bs_seq.update(b_idx as int, *branch));
                        assert(view_branches(branches@) =~= pre_bs.update(
                            b_idx as int,
                            view_branch(*branch),
                        ));
                    }
                    r
                },
                _ => Err(
                    InklingError::Internal(
                        InternalError::IncorrectNodeStack(
                            IncorrectNodeStackError::ExpectedBranchingPoint { index: i_idx },
                        ),
                    ),
                ),
            }
        };
        proof {
            lemma_view_items(items@);
            lemma_view_items_update(old(items)@, i_idx as int, items@[i_idx as int]);
            assert(items@ == old(items)@.update(i_idx as int, items@[i_idx as int]));
            assert(view_items(items@) =~= pre_items.update(
                i_idx as int,
                view_item(items@[i_idx as int]),
            ));
            // The graph changed only along the bump path, or not at all.
            let post_items = view_items(items@);
            let bs1 = post_items[i_idx as int]->BranchingPoint_0;
            assert(path == seq![i_idx as int, b_idx as int] + sub_path);
            assert(path.skip(2) =~= sub_path);
            if post_items[i_idx as int]->BranchingPoint_0[b_idx as int].items
                == pre_items[i_idx as int]->BranchingPoint_0[b_idx as int].items {
                assert(bs1 =~= pre_items[i_idx as int]->BranchingPoint_0);
                assert(post_items[i_idx as int] =~= pre_items[i_idx as int]);
                assert(post_items =~= pre_items);
            } else {
                assert(bumped_at(pre_items, post_items, path));
            }
            if bumped_at(pre_items, post_items, path) {
                lemma_bumped_wf(pre_items, post_items, path);
            }
            assert(items_wf(view_items(items@)));
            // The stack below this level still fits the graph.
            assert(stack@.subrange(0, stack_depth + 2 as int) == pre_stack.subrange(
                0,
                stack_depth + 2 as int,
            ));
            assert(stack@[stack_depth as int] == stack@.subrange(
                0,
                stack_depth + 2 as int,
            )[stack_depth as int]);
            assert(stack@[stack_depth + 1] == stack@.subrange(0, stack_depth + 2 as int)[stack_depth
                + 1]);
            assert(stack@[stack_depth as int] == i_idx && stack@[stack_depth + 1] == b_idx as usize);
            assert(post_items[i_idx as int] is BranchingPoint);
            assert(bs1.len() == pre_items[i_idx as int]->BranchingPoint_0.len());
            assert(stack_fits(
                bs1[b_idx as int].items,
                stack@,
                stack_depth + 2 as int,
            ));
            assert(stack_fits(view_items(items@), stack@, stack_depth as int));
            // The graph after the step is the one the spec-level walk builds.
            let b = pre_bs[b_idx as int];
            let bs1 = view_items(items@)[i_idx as int]->BranchingPoint_0;
            let items2 = pre_items.update(
                i_idx as int,
                ItemV::BranchingPoint(
                    pre_bs.update(
                        b_idx as int,
                        BranchV {
                            choice: b.choice,
                            items: bs1[b_idx as int].items,
                            num_visited: b.num_visited,
                        },
                    ),
                ),
            );
            assert(view_items(items@) =~~= items2);
        }
        match sub_result {
            Err(e) => Err(e),
            Ok(Next::Done) => {
                proof {
                    assert(stack@.len() == stack_depth + 3);
                }
                stack.pop();
                stack.pop();
                let k2 = stack.len() - 1;
                let cur = stack[k2];
                proof {
                    assert(k2 == stack_depth);
                    assert(cur == i_idx);
                }
                stack[k2] = cur + 1;
                proof {
                    assert(stack@ =~= pre_stack.subrange(0, stack_depth as int).push(
                        (i_idx + 1) as usize,
                    ));
                    assert(stack@.last() == i_idx + 1 <= items@.len());
                    assert(stack@.drop_last() =~= pre_stack.subrange(0, stack_depth as int));
                }
                let ghost mid_stack = stack@;
                let ghost mid_buffer = view_buffer(buffer@);
                let ghost mid_log = log@;
                let sub2 = follow_items(&*items, node_visit_count, stack, data, buffer, log);
                proof {
                    assert(stack@.drop_last() =~= mid_stack.drop_last());
                    assert(stack@.subrange(0, stack_depth as int) =~= pre_stack.subrange(
                        0,
                        stack_depth as int,
                    ));
                    assert(stack@.len() == stack_depth + 1);
                    assert(node_items_at(view_items(items@), stack@, stack_depth as int)
                        == view_items(items@));
                    lemma_buffer_extended_trans(
                        view_buffer(old(buffer)@),
                        mid_buffer,
                        view_buffer(buffer@),
                    );
                    crate::log::lemma_log_prefix_trans(old(log)@, mid_log, log@);
                    assert forall|j: int| 0 <= j < stack_depth implies stack@[j] == pre_stack[j] by {
                        assert(stack@.subrange(0, stack_depth as int)[j] == pre_stack.subrange(
                            0,
                            stack_depth as int,
                        )[j]);
                    }
                    assert(stack@ =~= pre_stack.subrange(0, stack_depth + 1).update(
                        stack_depth as int,
                        stack@.last(),
                    ));
                }
                sub2
            },
            Ok(other) => {
                proof {
                    assert(stack@.len() >= stack_depth + 3);
                    assert(node_items_at(view_items(items@), stack@, stack_depth as int)
                        == node_items_at(
                        view_items(items@)[i_idx as int]->BranchingPoint_0[b_idx as int].items,
                        stack@,
                        stack_depth + 2 as int,
                    ));
                }
                Ok(other)
            },
        }
    } else {
        follow_select(
            items,
            choice_idx,
            stack_depth,
            node_visit_count,
            stack,
            data,
            buffer,
            log,
        )
    }
}

/// Select branch `choice_idx` at the branching point the stack's last level
/// is frozen at, step its visit count, follow it, and on completion step
/// past the branching point and keep following this node.
#[verifier::rlimit(100)]
fn follow_select(
    items: &mut Vec<NodeItem>,
    choice_idx: usize,
    stack_depth: usize,
    node_visit_count: u32,
    stack: &mut Vec<usize>,
    data: &FollowData,
    buffer: &mut Vec<Line>,
    log: &mut Logger,
) -> (r: Result<Next, InklingError>)
    requires
        data_wf(*data),
        items_wf(view_items(old(items)@)),
        stack_fits(view_items(old(items)@), old(stack)@, stack_depth as int),
        stack_depth == old(stack)@.len() - 1,
    ensures
        items_wf(view_items(final(items)@)),
        final(items)@.len() == old(items)@.len(),
        final(stack)@.len() >= stack_depth + 1,
        (final(stack)@.len() - stack_depth) % 2 == 1,
        final(stack)@.subrange(0, stack_depth as int) == old(stack)@.subrange(
            0,
            stack_depth as int,
        ),
        stack_fits(view_items(final(items)@), final(stack)@, stack_depth as int),
        buffer_extended(view_buffer(old(buffer)@), view_buffer(final(buffer)@)),
        old(log)@.is_prefix_of(final(log)@),
        view_items(final(items)@) == view_items(old(items)@) || bumped_at(
            view_items(old(items)@),
            view_items(final(items)@),
            spec_selection_path(old(stack)@, stack_depth as int, choice_idx as int),
        ),
        match r {
            Ok(next) => {
                &&& bumped_at(
                    view_items(old(items)@),
                    view_items(final(items)@),
                    spec_selection_path(old(stack)@, stack_depth as int, choice_idx as int),
                )
                &&& match next {
                    Next::Done => final(stack)@.len() == stack_depth + 1 && final(stack)@.last()
                        == final(items)@.len(),
                    Next::Divert(a) => {
                        let its = node_items_at(
                            view_items(final(items)@),
                            final(stack)@,
                            stack_depth as int,
                        );
                        &&& final(stack)@.last() >= 1
                        &&& final(stack)@.last() <= its.len()
                        &&& (its[final(stack)@.last() - 1] matches ItemV::Line(l) && l.divert
                            == Some(a@))
                    },
                    Next::ChoiceSet(ref csd) => {
                        let its = node_items_at(
                            view_items(final(items)@),
                            final(stack)@,
                            stack_depth as int,
                        );
                        &&& final(stack)@.last() < its.len()
                        &&& (its[final(stack)@.last() as int] matches ItemV::BranchingPoint(bs)
                            && spec_present(bs, 0, *data) matches Ok(p) && view_choices(
                            csd.choices@,
                        ) == p.0 && usizes_as_ints(csd.branch_indices@) == p.1 && (
                        match csd.fallback {
                            Some(f) => p.2 == Some(f as int),
                            None => p.2 is None,
                        }))
                    },
                }
            },
            Err(e) => crate::error::walk_err(e@),
        },
        match r {
            Ok(ref next) => spec_follow_with_choice(
                view_items(old(items)@),
                choice_idx as int,
                stack_depth as int,
                node_visit_count,
                old(stack)@,
                *data,
                view_buffer(old(buffer)@),
            ) == Ok::<(Seq<ItemV>, Seq<usize>, Seq<LineV>, WalkNextV), InklingErrV>(
                (
                    view_items(final(items)@),
                    final(stack)@,
                    view_buffer(final(buffer)@),
                    walk_next_of(*next),
                ),
            ),
            Err(ref e) => spec_follow_with_choice(
                view_items(old(items)@),
                choice_idx as int,
                stack_depth as int,
                node_visit_count,
                old(stack)@,
                *data,
                view_buffer(old(buffer)@),
            ) == Err::<(Seq<ItemV>, Seq<usize>, Seq<LineV>, WalkNextV), InklingErrV>(e@),
        },
{
    proof {
        lemma_view_items(items@);
        lemma_buffer_extended_refl(view_buffer(buffer@));
        crate::log::lemma_log_prefix_refl(log@);
    }
    let ghost pre_items = view_items(old(items)@);
    let ghost pre_stack = old(stack)@;
    let ghost path = spec_selection_path(old(stack)@, stack_depth as int, choice_idx as int);
    let n = items.len();
    let i_idx = stack[stack_depth];
    // The stack's last level: select the branch.
    if i_idx >= n {
        return Err(
            InklingError::Internal(
                InternalError::IncorrectNodeStack(
                    IncorrectNodeStackError::OutOfBounds { index: i_idx, len: n },
                ),
            ),
        );
    }
    let ghost mut pre_bs: Seq<BranchV> = Seq::empty();
    let ghost mut selected = false;
    let sub_result = {
        let item = &mut items[i_idx];
        match item {
            NodeItem::BranchingPoint(branches) => {
                proof {
                    lemma_view_branches(branches@);
                    pre_bs = view_branches(branches@);
                    assert(old(items)@[i_idx as int] == NodeItem::BranchingPoint(*branches));
                    assert(pre_items[i_idx as int] == ItemV::BranchingPoint(pre_bs));
                    assert(item_wf(pre_items[i_idx as int]));
                }
                if choice_idx >= branches.len() {
                    Err(
                        InklingError::Internal(
                            InternalError::IncorrectNodeStack(
                                IncorrectNodeStackError::OutOfBounds {
                                    index: choice_idx,
                                    len: branches.len(),
                                },
                            ),
                        ),
                    )
                } else {
                    let ghost bs_seq = branches@;
                    let branch = &mut branches[choice_idx];
                    proof {
                        assert(view_branch(*branch) == pre_bs[choice_idx as int]);
                        assert(branch_wf(pre_bs[choice_idx as int]));
                    }
                    let ghost pre_branch = *branch;
                    let newc = if branch.num_visited == u32::MAX {
                        branch.num_visited
                    } else {
                        branch.num_visited + 1
                    };
                    branch.num_visited = newc;
                    stack.push(choice_idx);
                    stack.push(0);
                    proof {
                        selected = true;
                        assert(newc == sat_inc(pre_branch.num_visited));
                        assert(view_items(branch.items@) == pre_bs[choice_idx as int].items);
                        assert(items_wf(view_items(branch.items@)));
                    }
                    let r = follow_items(&branch.items, newc, stack, data, buffer, log);
                    proof {
                        lemma_view_items(branch.items@);
                        assert(branch.choice == pre_branch.choice);
                        assert(branch.num_visited == newc);
                        assert(branch.items == pre_branch.items);
                        assert(view_branch(*branch).items == view_items(branch.items@));
                        assert(view_branch(*branch).items.len() == branch.items@.len());
                        assert(stack@.last() <= view_branch(*branch).items.len());
                        lemma_view_branches_update(bs_seq, choice_idx as int, *branch);
                        assert(branches@ == bs_seq.update(choice_idx as int, *branch));
                        assert(view_branches(branches@) =~= pre_bs.update(
                            choice_idx as int,
                            view_branch(*branch),
                        ));
                    }
                    r
                }
            },
            _ => Err(
                InklingError::Internal(
                    InternalError::IncorrectNodeStack(
                        IncorrectNodeStackError::ExpectedBranchingPoint { index: i_idx },
                    ),
                ),
            ),
        }
    };
    proof {
        lemma_view_items(items@);
        lemma_view_items_update(old(items)@, i_idx as int, items@[i_idx as int]);
        assert(items@ == old(items)@.update(i_idx as int, items@[i_idx as int]));
        assert(view_items(items@) =~= pre_items.update(
            i_idx as int,
            view_item(items@[i_idx as int]),
        ));
        let post_items = view_items(items@);
        assert(path == seq![i_idx as int, choice_idx as int]);
        if selected {
            assert(bumped_at(pre_items, post_items, path));
            lemma_bumped_wf(pre_items, post_items, path);
        } else {
            assert(post_items[i_idx as int] =~= pre_items[i_idx as int]);
            assert(post_items =~= pre_items);
        }
        assert(items_wf(view_items(items@)));
    }
    match sub_result {
        Err(e) => {
            proof {
                if selected {
                    assert(stack@.len() == stack_depth + 3);
                    assert(stack@.drop_last() =~= pre_stack.push(choice_idx));
                    assert(stack@[stack_depth as int] == stack@.drop_last()[stack_depth as int]);
                    assert(stack@[stack_depth as int] == i_idx);
                    assert(stack@[stack_depth + 1] == stack@.drop_last()[stack_depth + 1]);
                    assert(stack@[stack_depth + 1] == choice_idx);
                    assert(stack@.subrange(0, stack_depth as int) =~= pre_stack.subrange(
                        0,
                        stack_depth as int,
                    ));
                    let post_items = view_items(items@);
                    let bs1 = post_items[i_idx as int]->BranchingPoint_0;
                    assert(bs1[choice_idx as int].items == pre_bs[choice_idx as int].items);
                    assert(stack_fits(bs1[choice_idx as int].items, stack@, stack_depth
                        + 2 as int));
                    assert(stack_fits(view_items(items@), stack@, stack_depth as int));
                } else {
                    assert(stack@ == pre_stack);
                    assert(stack_fits(view_items(items@), stack@, stack_depth as int));
                }
            }
            Err(e)
        },
        Ok(Next::Done) => {
            proof {
                assert(stack@.len() == stack_depth + 3);
            }
            stack.pop();
            stack.pop();
            let k2 = stack.len() - 1;
            let cur = stack[k2];
            proof {
                assert(k2 == stack_depth);
                assert(cur == i_idx);
            }
            stack[k2] = cur + 1;
            proof {
                assert(stack@ =~= pre_stack.subrange(0, stack_depth as int).push(
                    (i_idx + 1) as usize,
                ));
                assert(stack@.last() == i_idx + 1 <= items@.len());
            }
            let ghost mid_stack = stack@;
            let ghost mid_buffer = view_buffer(buffer@);
            let ghost mid_log = log@;
            let sub2 = follow_items(&*items, node_visit_count, stack, data, buffer, log);
            proof {
                assert(stack@.drop_last() =~= mid_stack.drop_last());
                assert(stack@.subrange(0, stack_depth as int) =~= pre_stack.subrange(
                    0,
                    stack_depth as int,
                ));
                assert(stack@.len() == stack_depth + 1);
                assert(node_items_at(view_items(items@), stack@, stack_depth as int)
                    == view_items(items@));
                lemma_buffer_extended_trans(
                    view_buffer(old(buffer)@),
                    mid_buffer,
                    view_buffer(buffer@),
                );
                crate::log::lemma_log_prefix_trans(old(log)@, mid_log, log@);
                let b = pre_bs[choice_idx as int];
                let items2 = pre_items.update(
                    i_idx as int,
                    ItemV::BranchingPoint(
                        pre_bs.update(
                            choice_idx as int,
                            BranchV {
                                choice: b.choice,
                                items: b.items,
                                num_visited: sat_inc(b.num_visited),
                            },
                        ),
                    ),
                );
                assert(view_items(items@) =~~= items2);
                assert forall|j: int| 0 <= j < stack_depth implies stack@[j] == pre_stack[j] by {
                    assert(stack@.subrange(0, stack_depth as int)[j] == pre_stack.subrange(
                        0,
                        stack_depth as int,
                    )[j]);
                }
                assert(stack@ =~= pre_stack.update(stack_depth as int, stack@.last()));
            }
            sub2
        },
        Ok(other) => {
            proof {
                assert(stack@.len() == stack_depth + 3);
                assert(stack@.drop_last() =~= pre_stack.push(choice_idx));
                assert(stack@[stack_depth as int] == stack@.drop_last()[stack_depth as int]);
                assert(stack@[stack_depth as int] == i_idx);
                assert(stack@[stack_depth + 1] == stack@.drop_last()[stack_depth + 1]);
                assert(stack@[stack_depth + 1] == choice_idx);
                assert(stack@.subrange(0, stack_depth as int) =~= pre_stack.subrange(
                    0,
                    stack_depth as int,
                ));
                let post_items = view_items(items@);
                let bs1 = post_items[i_idx as int]->BranchingPoint_0;
                assert(bs1[choice_idx as int].items == pre_bs[choice_idx as int].items);
                assert(stack_fits(bs1[choice_idx as int].items, stack@, stack_depth + 2 as int));
                assert(stack_fits(view_items(items@), stack@, stack_depth as int));
                assert(node_items_at(bs1[choice_idx as int].items, stack@, stack_depth + 2 as int)
                    == bs1[choice_idx as int].items);
                assert(node_items_at(view_items(items@), stack@, stack_depth as int)
                    == node_items_at(bs1[choice_idx as int].items, stack@, stack_depth + 2 as int));
                let b = pre_bs[choice_idx as int];
                let items2 = pre_items.update(
                    i_idx as int,
                    ItemV::BranchingPoint(
                        pre_bs.update(
                            choice_idx as int,
                            BranchV {
                                choice: b.choice,
                                items: b.items,
                                num_visited: sat_inc(b.num_visited),
                            },
                        ),
                    ),
                );
                assert(view_items(items@) =~~= items2);
                assert(stack@ =~= pre_stack.push(choice_idx).push(stack@.last()));
            }
            Ok(other)
        },
    }
}



/// Two well-formed tables with the same names and counts have the same
/// count map.
pub proof fn lemma_counts_map_congruent(d0: FollowData, d1: FollowData)
    requires
        counts_wf(d0),
        d1.knot_visit_counts@.len() == d0.knot_visit_counts@.len(),
        forall|i: int|
            0 <= i < d0.knot_visit_counts@.len() ==> (#[trigger] d1.knot_visit_counts@[i]).knot@
                == d0.knot_visit_counts@[i].knot@ && d1.knot_visit_counts@[i].stitches@
                == d0.knot_visit_counts@[i].stitches@,
    ensures
        counts_map(d1) =~~= counts_map(d0),
{
    assert forall|k: Seq<char>|
        counts_map(d1).dom().contains(k) == counts_map(d0).dom().contains(k) by {
        if counts_map(d0).dom().contains(k) {
            let i = choose|i: int|
                0 <= i < d0.knot_visit_counts@.len() && d0.knot_visit_counts@[i].knot@ == k;
            assert(d1.knot_visit_counts@[i].knot@ == k);
        }
        if counts_map(d1).dom().contains(k) {
            let i = choose|i: int|
                0 <= i < d1.knot_visit_counts@.len() && d1.knot_visit_counts@[i].knot@ == k;
            assert(d0.knot_visit_counts@[i].knot@ == k);
        }
    }
    assert(counts_map(d1).dom() =~= counts_map(d0).dom());
    assert forall|k: Seq<char>| counts_map(d0).dom().contains(k) implies counts_map(d1)[k]
        =~= counts_map(d0)[k] by {
        let i0 = choose|i: int|
            0 <= i < d0.knot_visit_counts@.len() && d0.knot_visit_counts@[i].knot@ == k;
        let i1 = choose|i: int|
            0 <= i < d1.knot_visit_counts@.len() && d1.knot_visit_counts@[i].knot@ == k;
        let e0 = d0.knot_visit_counts@[i0];
        let e0b = d0.knot_visit_counts@[i1];
        let e1 = d1.knot_visit_counts@[i1];
        assert(e1.stitches@ == e0b.stitches@);
        assert(entry_counts(e1) =~= entry_counts(e0b));
        assert(entry_counts(e0b) =~= entry_counts(e0)) by {
            assert(d1.knot_visit_counts@[i0].knot@ == k);
            assert forall|a: int, b: int|
                0 <= a < d1.knot_visit_counts@.len() && 0 <= b < d1.knot_visit_counts@.len()
                    && d1.knot_visit_counts@[a].knot@ == k && d1.knot_visit_counts@[b].knot@
                    == k implies a == b by {
                assert(d0.knot_visit_counts@[a].knot@ == k);
                assert(d0.knot_visit_counts@[b].knot@ == k);
            }
        }
    }
}

/// Two tables with the same variable entries have the same variable map.
pub proof fn lemma_vars_map_congruent(d0: FollowData, d1: FollowData)
    requires
        d1.variables@ == d0.variables@,
    ensures
        vars_map(d1) =~= vars_map(d0),
{
}

impl FollowData {
    /// A copy of this data whose count and variable maps are the same.
    pub fn duplicate(&self) -> (r: FollowData)
        requires
            counts_wf(*self),
        ensures
            counts_wf(r),
            vars_wf(r) == vars_wf(*self),
            counts_map(r) =~~= counts_map(*self),
            vars_map(r) =~= vars_map(*self),
            r.variables@ == self.variables@,
    {
        let n = self.knot_visit_counts.len();
        let mut counts: Vec<KnotCounts> = Vec::new();
        let mut i: usize = 0;
        while i < n
            invariant
                n == self.knot_visit_counts@.len(),
                0 <= i <= n,
                counts@.len() == i,
                forall|j: int|
                    0 <= j < i ==> (#[trigger] counts@[j]).knot@
                        == self.knot_visit_counts@[j].knot@ && counts@[j].stitches@
                        == self.knot_visit_counts@[j].stitches@,
            decreases n - i,
        {
            let entry = &self.knot_visit_counts[i];
            let m = entry.stitches.len();
            let mut stitches: Vec<StitchCount> = Vec::new();
            let mut j: usize = 0;
            while j < m
                invariant
                    0 <= i < self.knot_visit_counts@.len(),
                    *entry == self.knot_visit_counts@[i as int],
                    m == entry.stitches@.len(),
                    0 <= j <= m,
                    stitches@.len() == j,
                    forall|jj: int| 0 <= jj < j ==> #[trigger] stitches@[jj] == entry.stitches@[jj],
                decreases m - j,
            {
                let sc = StitchCount {
                    stitch: entry.stitches[j].stitch.clone(),
                    count: entry.stitches[j].count,
                };
                stitches.push(sc);
                j += 1;
            }
            proof {
                assert(stitches@ =~= entry.stitches@);
            }
            let kc = KnotCounts { knot: entry.knot.clone(), stitches };
            counts.push(kc);
            i += 1;
        }
        let mut variables: Vec<VariableEntry> = Vec::new();
        let vn = self.variables.len();
        let mut i2: usize = 0;
        while i2 < vn
            invariant
                vn == self.variables@.len(),
                0 <= i2 <= vn,
                variables@.len() == i2,
                forall|j: int| 0 <= j < i2 ==> #[trigger] variables@[j] == self.variables@[j],
            decreases vn - i2,
        {
            let entry = VariableEntry {
                name: self.variables[i2].name.clone(),
                var: self.variables[i2].var.duplicate(),
            };
            variables.push(entry);
            i2 += 1;
        }
        let r = FollowData { knot_visit_counts: counts, variables };
        proof {
            assert(r.variables@ =~= self.variables@);
            assert forall|a: int, b: int|
                0 <= a < b < r.knot_visit_counts@.len() implies (#[trigger] r.knot_visit_counts@[a]).knot@
                != (#[trigger] r.knot_visit_counts@[b]).knot@ by {
                assert(self.knot_visit_counts@[a].knot@ != self.knot_visit_counts@[b].knot@);
            }
            assert(counts_wf(r));
            lemma_counts_map_congruent(*self, r);
            lemma_vars_map_congruent(*self, r);
        }
        r
    }
}


/// Set or create a global variable, keeping the table's keys unique.
pub(crate) fn upsert_variable(data: &mut FollowData, name: &str, value: Variable)
    requires
        data_wf(*old(data)),
    ensures
        vars_wf(*final(data)),
        counts_wf(*final(data)),
        final(data).knot_visit_counts == old(data).knot_visit_counts,
        counts_map(*final(data)) =~~= counts_map(*old(data)),
        vars_map(*final(data)) =~= vars_map(*old(data)).insert(name@, value),
{
    let ghost pre = *data;
    let n = data.variables.len();
    let mut i: usize = 0;
    while i < n
        invariant
            pre == *old(data),
            *data == pre,
            data_wf(pre),
            n == data.variables@.len(),
            0 <= i <= n,
            forall|j: int| 0 <= j < i ==> pre.variables@[j].name@ != name@,
        decreases n - i,
    {
        if str_eq(data.variables[i].name.as_str(), name) {
            let slot = &mut data.variables[i];
            slot.var = value;
            proof {
                assert(data.variables@ =~= pre.variables@.update(
                    i as int,
                    VariableEntry { var: data.variables@[i as int].var, ..pre.variables@[i as int] },
                ));
                assert forall|a: int, b: int|
                    0 <= a < b < data.variables@.len() implies (#[trigger] data.variables@[a]).name@
                    != (#[trigger] data.variables@[b]).name@ by {
                    assert(pre.variables@[a].name@ != pre.variables@[b].name@);
                }
                assert forall|k: Seq<char>|
                    vars_map(*data).dom().contains(k) == vars_map(pre).insert(
                        name@,
                        value,
                    ).dom().contains(k) by {
                    if k == name@ {
                        assert(data.variables@[i as int].name@ == k);
                    } else {
                        if vars_map(pre).dom().contains(k) {
                            let a = choose|a: int|
                                0 <= a < pre.variables@.len() && pre.variables@[a].name@ == k;
                            assert(data.variables@[a].name@ == k);
                        }
                        if vars_map(*data).dom().contains(k) {
                            let a = choose|a: int|
                                0 <= a < data.variables@.len() && data.variables@[a].name@ == k;
                            assert(pre.variables@[a].name@ == k);
                        }
                    }
                }
                assert forall|k: Seq<char>| vars_map(*data).dom().contains(k) implies vars_map(
                    *data,
                )[k] == vars_map(pre).insert(name@, value)[k] by {
                    let a = choose|a: int|
                        0 <= a < data.variables@.len() && data.variables@[a].name@ == k;
                    if k == name@ {
                        lemma_vars_map_at(*data, i as int);
                    } else {
                        assert(a != i);
                        lemma_vars_map_at(*data, a);
                        lemma_vars_map_at(pre, a);
                    }
                }
            }
            proof {
                assert(data.knot_visit_counts == pre.knot_visit_counts);
        assert(counts_wf(*data)) by {
            assert forall|a: int, b: int|
                0 <= a < b < data.knot_visit_counts@.len() implies (
            #[trigger] data.knot_visit_counts@[a]).knot@ != (
            #[trigger] data.knot_visit_counts@[b]).knot@ by {
                assert(pre.knot_visit_counts@[a].knot@ != pre.knot_visit_counts@[b].knot@);
            }
            assert forall|a: int, b: int, c: int|
                0 <= a < data.knot_visit_counts@.len() && 0 <= b < c
                    < data.knot_visit_counts@[a].stitches@.len() implies (
            #[trigger] data.knot_visit_counts@[a].stitches@[b]).stitch@ != (
            #[trigger] data.knot_visit_counts@[a].stitches@[c]).stitch@ by {
                assert(pre.knot_visit_counts@[a].stitches@[b].stitch@
                    != pre.knot_visit_counts@[a].stitches@[c].stitch@);
            }
        }
                lemma_counts_map_congruent(pre, *data);
            }
            return ;
        }
        i += 1;
    }
    data.variables.push(VariableEntry { name: name.to_owned(), var: value });
    proof {
        assert(data.knot_visit_counts == pre.knot_visit_counts);
        assert(counts_wf(*data)) by {
            assert forall|a: int, b: int|
                0 <= a < b < data.knot_visit_counts@.len() implies (
            #[trigger] data.knot_visit_counts@[a]).knot@ != (
            #[trigger] data.knot_visit_counts@[b]).knot@ by {
                assert(pre.knot_visit_counts@[a].knot@ != pre.knot_visit_counts@[b].knot@);
            }
            assert forall|a: int, b: int, c: int|
                0 <= a < data.knot_visit_counts@.len() && 0 <= b < c
                    < data.knot_visit_counts@[a].stitches@.len() implies (
            #[trigger] data.knot_visit_counts@[a].stitches@[b]).stitch@ != (
            #[trigger] data.knot_visit_counts@[a].stitches@[c]).stitch@ by {
                assert(pre.knot_visit_counts@[a].stitches@[b].stitch@
                    != pre.knot_visit_counts@[a].stitches@[c].stitch@);
            }
        }
        lemma_counts_map_congruent(pre, *data);
        assert forall|a: int, b: int|
            0 <= a < b < data.variables@.len() implies (#[trigger] data.variables@[a]).name@
            != (#[trigger] data.variables@[b]).name@ by {
            if b < pre.variables@.len() {
                assert(pre.variables@[a].name@ != pre.variables@[b].name@);
            } else {
                assert(data.variables@[b].name@ == name@);
                assert(pre.variables@[a].name@ != name@);
            }
        }
        let last = data.variables@.len() - 1;
        assert forall|k: Seq<char>|
            vars_map(*data).dom().contains(k) == vars_map(pre).insert(name@, value).dom().contains(
                k,
            ) by {
            if k == name@ {
                assert(data.variables@[last].name@ == k);
            } else {
                if vars_map(pre).dom().contains(k) {
                    let a = choose|a: int|
                        0 <= a < pre.variables@.len() && pre.variables@[a].name@ == k;
                    assert(data.variables@[a].name@ == k);
                }
                if vars_map(*data).dom().contains(k) {
                    let a = choose|a: int|
                        0 <= a < data.variables@.len() && data.variables@[a].name@ == k;
                    assert(a < pre.variables@.len());
                    assert(pre.variables@[a].name@ == k);
                }
            }
        }
        assert forall|k: Seq<char>| vars_map(*data).dom().contains(k) implies vars_map(*data)[k]
            == vars_map(pre).insert(name@, value)[k] by {
            let a = choose|a: int|
                0 <= a < data.variables@.len() && data.variables@[a].name@ == k;
            if k == name@ {
                lemma_vars_map_at(*data, last);
            } else {
                assert(a < pre.variables@.len());
                lemma_vars_map_at(*data, a);
                lemma_vars_map_at(pre, a);
            }
        }
    }
}


/// Law: selecting a branch steps exactly that branch's visit count by one
/// (saturating), and changes nothing else in the graph. Along a nested
/// path, the same holds of the branching point the path ends at.
pub proof fn lemma_selection_bumps_exactly_one_count(
    pre: Seq<ItemV>,
    post: Seq<ItemV>,
    path: Seq<int>,
)
    requires
        bumped_at(pre, post, path),
        path.len() == 2,
    ensures
        post.len() == pre.len(),
        forall|j: int| 0 <= j < pre.len() && j != path[0] ==> post[j] == pre[j],
        post[path[0]]->BranchingPoint_0[path[1]].num_visited == sat_inc(
            pre[path[0]]->BranchingPoint_0[path[1]].num_visited,
        ),
        post[path[0]]->BranchingPoint_0[path[1]].items == pre[path[0]]->BranchingPoint_0[path[1]].items,
        post[path[0]]->BranchingPoint_0[path[1]].choice == pre[path[0]]->BranchingPoint_0[path[1]].choice,
        forall|j: int|
            0 <= j < pre[path[0]]->BranchingPoint_0.len() && j != path[1]
                ==> post[path[0]]->BranchingPoint_0[j] == pre[path[0]]->BranchingPoint_0[j],
{
}

/// Law: stepping a stitch's visit count leaves every other stitch's count
/// unchanged, and the stepped one is exactly one higher (saturating).
pub proof fn lemma_entering_bumps_only_this_stitch(
    d0: FollowData,
    d1: FollowData,
    knot: Seq<char>,
    stitch: Seq<char>,
)
    requires
        counts_bumped(d0, d1, knot, stitch),
    ensures
        spec_num_visited(d1, knot, stitch) == sat_inc(spec_num_visited(d0, knot, stitch)),
        forall|k: Seq<char>, s: Seq<char>|
            has_count(d0, k, s) && !(k == knot && s == stitch) ==> #[trigger] spec_num_visited(
                d1,
                k,
                s,
            ) == spec_num_visited(d0, k, s),
{
}

/// Law: when a branching point holds an eligible fallback, presenting it
/// always reports that fallback. Together with the contract of `resume`,
/// which takes a reported fallback silently whenever no choice can be
/// offered, no choice prompt is ever emitted for such a point.
pub proof fn lemma_eligible_fallback_is_reported(
    branches: Seq<BranchV>,
    i: int,
    d: FollowData,
    k: int,
)
    requires
        0 <= i <= k < branches.len(),
        branches[k].choice.is_fallback,
        spec_eligible(branches[k], d) == Ok::<bool, InklingErrV>(true),
        spec_present(branches, i, d) is Ok,
    ensures
        spec_present(branches, i, d)->Ok_0.2 is Some,
    decreases branches.len() - i,
{
    if i < k {
        lemma_eligible_fallback_is_reported(branches, i + 1, d, k);
    }
}


/// A bump along a path changes visit counts only.
pub proof fn lemma_bumped_counts_only(pre: Seq<ItemV>, post: Seq<ItemV>, path: Seq<int>)
    requires
        bumped_at(pre, post, path),
    ensures
        items_counts_only(pre, post),
    decreases path.len(),
{
    let ii = path[0];
    let bi = path[1];
    let bs0 = pre[ii]->BranchingPoint_0;
    let bs1 = post[ii]->BranchingPoint_0;
    if path.len() > 2 {
        lemma_bumped_counts_only(bs0[bi].items, bs1[bi].items, path.skip(2));
    } else {
        crate::node::lemma_items_counts_only_refl(bs0[bi].items);
    }
    assert forall|j: int| 0 <= j < pre.len() implies item_counts_only(
        #[trigger] pre[j],
        post[j],
    ) by {
        if j != ii {
            crate::node::lemma_item_counts_only_refl(pre[j]);
        } else {
            assert forall|k: int| 0 <= k < bs0.len() implies branch_counts_only(
                #[trigger] bs0[k],
                bs1[k],
            ) by {
                if k != bi {
                    crate::node::lemma_branch_counts_only_refl(bs0[k]);
                } else {
                    assert(items_counts_only(bs0[bi].items, bs1[bi].items));
                    assert forall|m: int| 0 <= m < bs0[bi].items.len() implies item_counts_only(
                        #[trigger] bs0[bi].items[m],
                        bs1[bi].items[m],
                    ) by {}
                }
            }
        }
    }
}

/// Whether the count tables of two data values cover the same locations,
/// with every count at least as high in the second.
pub open spec fn counts_preserved(d0: FollowData, d1: FollowData) -> bool {
    &&& counts_map(d1).dom() =~= counts_map(d0).dom()
    &&& forall|k: Seq<char>|
        counts_map(d0).dom().contains(k) ==> #[trigger] counts_map(d1)[k].dom() =~= counts_map(
            d0,
        )[k].dom()
    &&& forall|k: Seq<char>, s: Seq<char>|
        has_count(d0, k, s) ==> #[trigger] spec_num_visited(d1, k, s) >= spec_num_visited(d0, k, s)
}

/// Count preservation is reflexive.
pub proof fn lemma_counts_preserved_refl(d: FollowData)
    ensures
        counts_preserved(d, d),
{
}

/// Count preservation is transitive.
pub proof fn lemma_counts_preserved_trans(d0: FollowData, d1: FollowData, d2: FollowData)
    ensures
        counts_preserved(d0, d1) && counts_preserved(d1, d2) ==> counts_preserved(d0, d2),
{
}

/// One bump preserves the count tables' coverage and never lowers a count.
pub proof fn lemma_bump_counts_preserved(
    d0: FollowData,
    d1: FollowData,
    knot: Seq<char>,
    stitch: Seq<char>,
)
    requires
        counts_bumped(d0, d1, knot, stitch),
    ensures
        counts_preserved(d0, d1),
{
}


/// Check executably whether a position stack addresses a node graph.
pub fn check_stack_fits(items: &Vec<NodeItem>, stack: &Vec<usize>, depth: usize) -> (r: bool)
    ensures
        r == (depth < stack@.len() && stack_fits(view_items(items@), stack@, depth as int)),
    decreases stack@.len() - depth,
{
    proof {
        lemma_view_items(items@);
    }
    if depth >= stack.len() {
        return false;
    }
    let idx = stack[depth];
    if depth == stack.len() - 1 {
        idx <= items.len()
    } else {
        if stack.len() - depth < 3 {
            return false;
        }
        if idx >= items.len() {
            return false;
        }
        match &items[idx] {
            NodeItem::BranchingPoint(branches) => {
                proof {
                    lemma_view_branches(branches@);
                }
                let b_idx = stack[depth + 1];
                if b_idx >= branches.len() {
                    return false;
                }
                let r = check_stack_fits(&branches[b_idx].items, stack, depth + 2);
                proof {
                    assert(view_items(items@)[idx as int] == ItemV::BranchingPoint(
                        view_branches(branches@),
                    ));
                    assert(view_branches(branches@)[b_idx as int].items == view_items(
                        branches@[b_idx as int].items@,
                    ));
                }
                r
            },
            _ => false,
        }
    }
}


/// Check executably that both tables of the follow data have unique keys.
pub fn check_data_wf(data: &FollowData) -> (r: bool)
    ensures
        r == data_wf(*data),
{
    let n = data.knot_visit_counts.len();
    let mut i: usize = 0;
    while i < n
        invariant
            n == data.knot_visit_counts@.len(),
            0 <= i <= n,
            forall|a: int, b: int|
                0 <= a < b < i ==> (#[trigger] data.knot_visit_counts@[a]).knot@ != (
                #[trigger] data.knot_visit_counts@[b]).knot@,
            forall|a: int, b: int, c: int|
                0 <= a < i && 0 <= b < c < (#[trigger] data.knot_visit_counts@[a]).stitches@.len()
                    ==> (#[trigger] data.knot_visit_counts@[a].stitches@[b]).stitch@ != (
                #[trigger] data.knot_visit_counts@[a].stitches@[c]).stitch@,
        decreases n - i,
    {
        let mut a: usize = 0;
        while a < i
            invariant
                n == data.knot_visit_counts@.len(),
                0 <= a <= i < n,
                forall|b: int|
                    0 <= b < a ==> (#[trigger] data.knot_visit_counts@[b]).knot@
                        != data.knot_visit_counts@[i as int].knot@,
            decreases i - a,
        {
            if str_eq(
                data.knot_visit_counts[a].knot.as_str(),
                data.knot_visit_counts[i].knot.as_str(),
            ) {
                return false;
            }
            a += 1;
        }
        let entry = &data.knot_visit_counts[i];
        let m = entry.stitches.len();
        let mut b: usize = 0;
        while b < m
            invariant
                n == data.knot_visit_counts@.len(),
                0 <= i < n,
                *entry == data.knot_visit_counts@[i as int],
                m == entry.stitches@.len(),
                0 <= b <= m,
                forall|p: int, q: int|
                    0 <= p < q < b ==> (#[trigger] entry.stitches@[p]).stitch@ != (
                    #[trigger] entry.stitches@[q]).stitch@,
            decreases m - b,
        {
            let mut p: usize = 0;
            while p < b
                invariant
                    n == data.knot_visit_counts@.len(),
                    0 <= i < n,
                    *entry == data.knot_visit_counts@[i as int],
                    m == entry.stitches@.len(),
                    0 <= p <= b < m,
                    forall|q: int|
                        0 <= q < p ==> (#[trigger] entry.stitches@[q]).stitch@
                            != entry.stitches@[b as int].stitch@,
                decreases b - p,
            {
                if str_eq(entry.stitches[p].stitch.as_str(), entry.stitches[b].stitch.as_str()) {
                    return false;
                }
                p += 1;
            }
            b += 1;
        }
        i += 1;
    }
    let vn = data.variables.len();
    let mut vi: usize = 0;
    while vi < vn
        invariant
            counts_wf(*data),
            vn == data.variables@.len(),
            0 <= vi <= vn,
            forall|a: int, b: int|
                0 <= a < b < vi ==> (#[trigger] data.variables@[a]).name@ != (
                #[trigger] data.variables@[b]).name@,
        decreases vn - vi,
    {
        let mut a: usize = 0;
        while a < vi
            invariant
                counts_wf(*data),
                vn == data.variables@.len(),
                0 <= a <= vi < vn,
                forall|b: int|
                    0 <= b < a ==> (#[trigger] data.variables@[b]).name@
                        != data.variables@[vi as int].name@,
            decreases vi - a,
        {
            if str_eq(data.variables[a].name.as_str(), data.variables[vi].name.as_str()) {
                return false;
            }
            a += 1;
        }
        vi += 1;
    }
    true
}

} // verus!
