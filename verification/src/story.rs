//! The story: the public interface that hosts drive.
//!
//! A story wraps the knot set, the position stack, the runtime data and the
//! pending-choice protocol. Hosts call [`Story::start`], then alternate
//! [`Story::resume`] and [`Story::make_choice`] until the story ends.

use vstd::prelude::*;

use crate::address::{Address, AddressKindV, AddressV};
use crate::choice::{duplicate_choices, view_choices, Choice, ChoiceV};
use crate::error::{InklingErrV, InklingError, InternalError};
use crate::follow::{
    check_data_wf, check_stack_fits, counts_bumped, counts_map, counts_wf, data_wf, find_count_pos,
    follow_items, follow_with_choice, get_num_visited, get_variable_value, has_count,
    increment_num_visited, node_items_at, spec_follow_items, spec_follow_with_choice, spec_num_visited,
    spec_present, stack_fits, upsert_variable, usizes_as_ints, vars_map, vars_wf, walk_next_of,
    buffer_extended, ChoiceSetData, FollowData, KnotCounts, Next, StitchCount, VariableEntry,
    WalkNextV,
};
use crate::follow::{
    counts_preserved, lemma_bump_counts_preserved, lemma_bumped_counts_only,
    lemma_counts_preserved_refl, lemma_counts_preserved_trans,
};
use crate::knot::{
    has_knot, has_location, knot_has_stitch, knot_pos, knot_set_wf, knots_counts_only,
    knots_unique, lemma_knots_counts_only_refl, lemma_knots_counts_only_trans, stitch_pos,
    view_knots, view_stitches, Knot, KnotSet, KnotV,
};
use crate::line::{view_buffer, Line, LineBuffer, LineV};
use crate::log::{Logger, WarningV};
use crate::node::{check_items_wf, items_wf, view_items, ItemV};
use crate::text::str_eq;
use crate::variable::Variable;

verus! {

/// What `resume` hands back: the story waits at a set of choices, or it has
/// come to an end.
#[derive(Clone, Debug, PartialEq)]
pub enum Prompt {
    /// The story reached a branching point: the host must pick one of these
    /// choices with `make_choice`, then call `resume` again.
    Choice(Vec<Choice>),
    /// The story ended.
    Done,
}

impl Prompt {
    /// The choices of a `Choice` prompt, or nothing for `Done`.
    pub fn get_choices(self) -> (r: Option<Vec<Choice>>)
        ensures
            match self {
                Prompt::Choice(cs) => r == Some(cs),
                Prompt::Done => r is None,
            },
    {
        match self {
            Prompt::Choice(cs) => Some(cs),
            Prompt::Done => None,
        }
    }
}

/// A failure to build a story from a knot set: the set is empty, or names
/// collide.
#[derive(Clone, Debug, PartialEq)]
pub enum StoryBuildError {
    /// The knot set holds no knot, or the first knot holds no stitch.
    EmptyStory,
    /// Two knots, or two stitches of one knot, share a name.
    DuplicateName { name: String },
    /// A branching point in some stitch breaks the node-graph invariants.
    MalformedNodeGraph,
}

/// How a story came to its end.
#[derive(Clone, Copy, Debug, PartialEq, Eq, Structural)]
pub enum StoryEnd {
    /// A divert to the reserved target `END`: an explicit end.
    ExplicitEnd,
    /// A divert to the reserved target `DONE`.
    DoneDivert,
    /// The last stitch of the current knot ran out of content.
    Exhausted,
}

/// A story prepared for following.
#[derive(Debug)]
pub struct Story {
    /// The knots of the story.
    pub knots: KnotSet,
    /// The position stack within the current stitch.
    pub stack: Vec<usize>,
    /// Name of the knot the story is at.
    pub current_knot: String,
    /// Name of the stitch the story is at.
    pub current_stitch: String,
    /// Visit counts and variables.
    pub data: FollowData,
    /// The choice set presented by the last prompt, while a choice is owed.
    pub last_choices: Option<ChoiceSetData>,
    /// The branch index selected by `make_choice`, until the next `resume`
    /// applies it.
    pub pending_choice: Option<usize>,
    /// Whether `start` has been called.
    pub started: bool,
    /// Whether the story has ended.
    pub done: bool,
    /// How the story ended, once it has.
    pub ending: Option<StoryEnd>,
    /// Warnings gathered while validating and running.
    pub log: Logger,
}

/// The item list of the stitch the story is currently at.
pub open spec fn story_current_items(s: Story) -> Seq<ItemV> {
    let ks = s.knots@;
    let k = ks[knot_pos(ks, s.current_knot@)];
    k.stitches[stitch_pos(k, s.current_stitch@)].root.items
}

/// The visit-count table covers every stitch of every knot.
pub open spec fn story_counts_cover(s: Story) -> bool {
    forall|i: int, j: int|
        0 <= i < s.knots@.len() && 0 <= j < (#[trigger] s.knots@[i]).stitches.len() ==> has_count(
            s.data,
            s.knots@[i].name,
            (#[trigger] s.knots@[i].stitches[j]).name,
        )
}

/// The invariant of a story between host calls: the knot set and data are
/// well formed, the counts cover every stitch, and once started the current
/// location exists and the position stack addresses its node graph with odd
/// length.
pub open spec fn story_wf(s: Story) -> bool {
    &&& knot_set_wf(s.knots@)
    &&& s.knots@.len() >= 1
    &&& s.knots@[0].stitches.len() >= 1
    &&& data_wf(s.data)
    &&& story_counts_cover(s)
    &&& s.started ==> {
        &&& has_location(s.knots@, s.current_knot@, s.current_stitch@)
        &&& s.stack@.len() % 2 == 1
        &&& stack_fits(story_current_items(s), s.stack@, 0)
    }
    &&& !s.started ==> s.pending_choice is None && s.last_choices is None && !s.done
    &&& s.done <==> s.ending is Some
    &&& s.last_choices matches Some(csd) ==> (csd.choices@.len() == 0 ==> csd.fallback is None)
}

/// Whether a knot set can be made into a story: at least one knot with at
/// least one stitch, unique names, and every node graph well formed.
pub open spec fn story_buildable(ks: Seq<KnotV>) -> bool {
    &&& ks.len() >= 1
    &&& ks[0].stitches.len() >= 1
    &&& knot_set_wf(ks)
}

/// The variable table that a list of starting entries yields after its
/// first `i` entries are installed, a later assignment to the same name
/// winning over an earlier one.
pub open spec fn spec_initial_vars(entries: Seq<VariableEntry>, i: int) -> Map<Seq<char>, Variable>
    decreases i,
{
    if i <= 0 {
        Map::empty()
    } else {
        spec_initial_vars(entries, i - 1).insert(entries[i - 1].name@, entries[i - 1].var)
    }
}

/// Whether two knot-set values have the same knot and stitch names in the
/// same places.
pub open spec fn knots_names_eq(a: Seq<KnotV>, b: Seq<KnotV>) -> bool {
    &&& b.len() == a.len()
    &&& forall|i: int|
        0 <= i < a.len() ==> (#[trigger] b[i]).name == a[i].name && b[i].stitches.len()
            == a[i].stitches.len()
    &&& forall|i: int, j: int|
        0 <= i < a.len() && 0 <= j < a[i].stitches.len() ==> (#[trigger] b[i].stitches[j]).name
            == a[i].stitches[j].name
}

/// A position with a matching name is the one that `knot_pos` picks.
pub proof fn lemma_knot_pos(ks: Seq<KnotV>, i: int)
    requires
        knots_unique(ks),
        0 <= i < ks.len(),
    ensures
        has_knot(ks, ks[i].name),
        knot_pos(ks, ks[i].name) == i,
{
    let name = ks[i].name;
    assert(has_knot(ks, name));
    let c = knot_pos(ks, name);
    assert(ks[c].name == name);
    assert(c == i);
}

/// A position with a matching name is the one that `stitch_pos` picks.
pub proof fn lemma_stitch_pos(ks: Seq<KnotV>, i: int, j: int)
    requires
        knots_unique(ks),
        0 <= i < ks.len(),
        0 <= j < ks[i].stitches.len(),
    ensures
        knot_has_stitch(ks[i], ks[i].stitches[j].name),
        stitch_pos(ks[i], ks[i].stitches[j].name) == j,
{
    let k = ks[i];
    let name = k.stitches[j].name;
    assert(knot_has_stitch(k, name));
    let c = stitch_pos(k, name);
    assert(k.stitches[c].name == name);
    assert(c == j);
}

/// Check that knot names, and stitch names within each knot, are unique.
fn check_names_unique(knots: &KnotSet) -> (r: bool)
    ensures
        r == knots_unique(knots@),
{
    let n = knots.knots.len();
    let mut i: usize = 0;
    while i < n
        invariant
            n == knots.knots@.len(),
            0 <= i <= n,
            forall|a: int, b: int|
                0 <= a < b < i ==> (#[trigger] view_knots(knots.knots@)[a]).name != (
                #[trigger] view_knots(knots.knots@)[b]).name,
            forall|a: int, b: int, c: int|
                0 <= a < i && 0 <= b < c < view_knots(knots.knots@)[a].stitches.len() ==> (
                #[trigger] view_knots(knots.knots@)[a].stitches[b]).name != (
                #[trigger] view_knots(knots.knots@)[a].stitches[c]).name,
        decreases n - i,
    {
        let mut a: usize = 0;
        while a < i
            invariant
                n == knots.knots@.len(),
                0 <= a <= i < n,
                forall|b: int|
                    0 <= b < a ==> (#[trigger] view_knots(knots.knots@)[b]).name != view_knots(
                        knots.knots@,
                    )[i as int].name,
            decreases i - a,
        {
            if str_eq(knots.knots[a].name.as_str(), knots.knots[i].name.as_str()) {
                proof {
                    assert((view_knots(knots.knots@)[a as int]).name == (view_knots(
                        knots.knots@,
                    )[i as int]).name);
                }
                return false;
            }
            a += 1;
        }
        let entry = &knots.knots[i];
        let m = entry.stitches.len();
        let mut b: usize = 0;
        while b < m
            invariant
                n == knots.knots@.len(),
                0 <= i < n,
                *entry == knots.knots@[i as int],
                m == entry.stitches@.len(),
                0 <= b <= m,
                forall|p: int, q: int|
                    0 <= p < q < b ==> (#[trigger] view_stitches(entry.stitches@)[p]).name != (
                    #[trigger] view_stitches(entry.stitches@)[q]).name,
            decreases m - b,
        {
            let mut p: usize = 0;
            while p < b
                invariant
                    0 <= i < n,
                    n == knots.knots@.len(),
                    *entry == knots.knots@[i as int],
                    m == entry.stitches@.len(),
                    0 <= p <= b < m,
                    forall|q: int|
                        0 <= q < p ==> (#[trigger] view_stitches(entry.stitches@)[q]).name
                            != view_stitches(entry.stitches@)[b as int].name,
                decreases b - p,
            {
                if str_eq(entry.stitches[p].name.as_str(), entry.stitches[b].name.as_str()) {
                    proof {
                        assert((view_knots(knots.knots@)[i as int]).stitches[p as int].name == (
                        view_knots(knots.knots@)[i as int]).stitches[b as int].name);
                    }
                    return false;
                }
                p += 1;
            }
            b += 1;
        }
        i += 1;
    }
    true
}

/// Build the visit-count table for a knot set, with every count at zero.
fn build_counts(knots: &KnotSet) -> (r: Vec<KnotCounts>)
    ensures
        r@.len() == knots@.len(),
        forall|i: int|
            0 <= i < r@.len() ==> (#[trigger] r@[i]).knot@ == knots@[i].name && r@[i].stitches@.len()
                == knots@[i].stitches.len(),
        forall|i: int, j: int|
            0 <= i < r@.len() && 0 <= j < (#[trigger] r@[i]).stitches@.len() ==> (
            #[trigger] r@[i].stitches@[j]).stitch@ == knots@[i].stitches[j].name
                && r@[i].stitches@[j].count == 0,
{
    let n = knots.knots.len();
    let mut r: Vec<KnotCounts> = Vec::new();
    let mut i: usize = 0;
    while i < n
        invariant
            n == knots.knots@.len(),
            0 <= i <= n,
            r@.len() == i,
            forall|a: int|
                0 <= a < i ==> (#[trigger] r@[a]).knot@ == view_knots(knots.knots@)[a].name
                    && r@[a].stitches@.len() == view_knots(knots.knots@)[a].stitches.len(),
            forall|a: int, j: int|
                0 <= a < i && 0 <= j < (#[trigger] r@[a]).stitches@.len() ==> (
                #[trigger] r@[a].stitches@[j]).stitch@ == view_knots(
                    knots.knots@,
                )[a].stitches[j].name && r@[a].stitches@[j].count == 0,
        decreases n - i,
    {
        let entry = &knots.knots[i];
        let m = entry.stitches.len();
        let mut stitches: Vec<StitchCount> = Vec::new();
        let mut j: usize = 0;
        while j < m
            invariant
                0 <= i < n,
                n == knots.knots@.len(),
                *entry == knots.knots@[i as int],
                m == entry.stitches@.len(),
                0 <= j <= m,
                stitches@.len() == j,
                forall|b: int|
                    0 <= b < j ==> (#[trigger] stitches@[b]).stitch@ == view_stitches(
                        entry.stitches@,
                    )[b].name && stitches@[b].count == 0,
            decreases m - j,
        {
            stitches.push(StitchCount { stitch: entry.stitches[j].name.clone(), count: 0 });
            j += 1;
        }
        r.push(KnotCounts { knot: entry.name.clone(), stitches });
        i += 1;
    }
    r
}

impl Story {
    /// Prepare a story from its knot set and starting variables.
    ///
    /// Checks that at least one knot with at least one stitch exists, that
    /// names are unique, and that every branching point keeps the node-graph
    /// invariants; builds the visit-count table with every count at zero and
    /// installs the starting variables, a later assignment to the same name
    /// winning.
    pub fn new(knots: KnotSet, variables: Vec<VariableEntry>) -> (r: Result<Story, StoryBuildError>)
        ensures
            r is Ok <==> story_buildable(knots@),
            match r {
                Ok(s) => {
                    &&& story_wf(s)
                    &&& !s.started
                    &&& !s.done
                    &&& s.knots@ == knots@
                    &&& forall|k: Seq<char>, sn: Seq<char>|
                        has_count(s.data, k, sn) ==> crate::follow::spec_num_visited(
                            s.data,
                            k,
                            sn,
                        ) == 0
                    &&& vars_map(s.data) =~= spec_initial_vars(variables@, variables@.len() as int)
                    &&& s.log@ =~= Seq::<WarningV>::empty()
                },
                Err(e) => match e {
                    StoryBuildError::EmptyStory => knots@.len() == 0 || knots@[0].stitches.len()
                        == 0,
                    StoryBuildError::DuplicateName { .. } => knots@.len() >= 1
                        && knots@[0].stitches.len() >= 1 && !knots_unique(knots@),
                    StoryBuildError::MalformedNodeGraph => knots@.len() >= 1
                        && knots@[0].stitches.len() >= 1 && knots_unique(knots@)
                        && !knot_set_wf(knots@),
                },
            },
    {
        if knots.knots.len() == 0 {
            return Err(StoryBuildError::EmptyStory);
        }
        if knots.knots[0].stitches.len() == 0 {
            return Err(StoryBuildError::EmptyStory);
        }
        if !check_names_unique(&knots) {
            return Err(StoryBuildError::DuplicateName { name: String::new() });
        }
        // Check the node graph of every stitch.
        let n = knots.knots.len();
        let mut i: usize = 0;
        while i < n
            invariant
                n == knots.knots@.len(),
                n >= 1,
                view_knots(knots.knots@)[0].stitches.len() >= 1,
                knots_unique(view_knots(knots.knots@)),
                0 <= i <= n,
                forall|a: int, b: int|
                    0 <= a < i && 0 <= b < view_knots(knots.knots@)[a].stitches.len() ==> items_wf(
                        (#[trigger] view_knots(knots.knots@)[a].stitches[b]).root.items,
                    ),
            decreases n - i,
        {
            let entry = &knots.knots[i];
            let m = entry.stitches.len();
            let mut j: usize = 0;
            while j < m
                invariant
                    0 <= i < n,
                    n == knots.knots@.len(),
                    n >= 1,
                    view_knots(knots.knots@)[0].stitches.len() >= 1,
                    knots_unique(view_knots(knots.knots@)),
                    *entry == knots.knots@[i as int],
                    m == entry.stitches@.len(),
                    0 <= j <= m,
                    forall|b: int|
                        0 <= b < j ==> items_wf(
                            (#[trigger] view_stitches(entry.stitches@)[b]).root.items,
                        ),
                decreases m - j,
            {
                if !check_items_wf(&entry.stitches[j].root.items) {
                    proof {
                        let ks = view_knots(knots.knots@);
                        assert(ks[i as int].stitches[j as int].root.items == crate::node::view_items(
                            entry.stitches@[j as int].root.items@,
                        ));
                        assert(!items_wf(ks[i as int].stitches[j as int].root.items));
                        assert(!knot_set_wf(ks));
                    }
                    return Err(StoryBuildError::MalformedNodeGraph);
                }
                j += 1;
            }
            i += 1;
        }
        let counts = build_counts(&knots);
        let mut data = FollowData { knot_visit_counts: counts, variables: Vec::new() };
        proof {
            assert(counts_wf(data)) by {
                assert forall|a: int, b: int|
                    0 <= a < b < data.knot_visit_counts@.len() implies (
                #[trigger] data.knot_visit_counts@[a]).knot@ != (
                #[trigger] data.knot_visit_counts@[b]).knot@ by {
                    assert(view_knots(knots.knots@)[a].name != view_knots(knots.knots@)[b].name);
                }
                assert forall|a: int, b: int, c: int|
                    0 <= a < data.knot_visit_counts@.len() && 0 <= b < c
                        < data.knot_visit_counts@[a].stitches@.len() implies (
                #[trigger] data.knot_visit_counts@[a].stitches@[b]).stitch@ != (
                #[trigger] data.knot_visit_counts@[a].stitches@[c]).stitch@ by {
                    assert(view_knots(knots.knots@)[a].stitches[b].name != view_knots(
                        knots.knots@,
                    )[a].stitches[c].name);
                }
            }
            assert(vars_wf(data));
        }
        // Install the starting variables, last assignment winning.
        proof {
            assert(vars_map(data) =~= Map::<Seq<char>, Variable>::empty());
            assert(vars_map(data) =~= spec_initial_vars(variables@, 0));
        }
        let vn = variables.len();
        let mut vi: usize = 0;
        let vars = variables;
        while vi < vn
            invariant
                vn == vars@.len(),
                vars@ == variables@,
                0 <= vi <= vn,
                vars_map(data) =~= spec_initial_vars(vars@, vi as int),
                data_wf(data),
                data.knot_visit_counts@.len() == knots.knots@.len(),
                forall|a: int|
                    0 <= a < data.knot_visit_counts@.len() ==> (
                    #[trigger] data.knot_visit_counts@[a]).knot@ == view_knots(
                        knots.knots@,
                    )[a].name && data.knot_visit_counts@[a].stitches@.len() == view_knots(
                        knots.knots@,
                    )[a].stitches.len(),
                forall|a: int, j: int|
                    0 <= a < data.knot_visit_counts@.len() && 0 <= j < (
                    #[trigger] data.knot_visit_counts@[a]).stitches@.len() ==> (
                    #[trigger] data.knot_visit_counts@[a].stitches@[j]).stitch@ == view_knots(
                        knots.knots@,
                    )[a].stitches[j].name && data.knot_visit_counts@[a].stitches@[j].count == 0,
            decreases vn - vi,
        {
            let entry = &vars[vi];
            upsert_variable(&mut data, entry.name.as_str(), entry.var.duplicate());
            vi += 1;
            proof {
                assert(vars_map(data) =~= spec_initial_vars(vars@, vi as int));
            }
        }
        let story = Story {
            knots,
            stack: Vec::new(),
            current_knot: String::new(),
            current_stitch: String::new(),
            data,
            last_choices: None,
            pending_choice: None,
            started: false,
            done: false,
            ending: None,
            log: Logger::new(),
        };
        proof {
            assert forall|k: Seq<char>, sn: Seq<char>|
                has_count(story.data, k, sn) implies crate::follow::spec_num_visited(
                story.data,
                k,
                sn,
            ) == 0 by {
                let d = story.data;
                let ci = choose|a: int|
                    0 <= a < d.knot_visit_counts@.len() && d.knot_visit_counts@[a].knot@ == k;
                let e = d.knot_visit_counts@[ci];
                let cj = choose|b: int| 0 <= b < e.stitches@.len() && e.stitches@[b].stitch@ == sn;
                assert(e.stitches@[cj].count == 0);
            }
            assert(story_counts_cover(story)) by {
                assert forall|i2: int, j2: int|
                    0 <= i2 < story.knots@.len() && 0 <= j2 < (
                #[trigger] story.knots@[i2]).stitches.len() implies has_count(
                    story.data,
                    story.knots@[i2].name,
                    (#[trigger] story.knots@[i2].stitches[j2]).name,
                ) by {
                    crate::follow::lemma_counts_map_at(story.data, i2, j2);
                }
            }
        }
        Ok(story)
    }

    /// Mark the story as ready to follow from the first knot's first stitch.
    ///
    /// Fails with `CannotStartTwice` when the story has already started.
    pub fn start(&mut self) -> (r: Result<(), InklingError>)
        requires
            story_wf(*old(self)),
        ensures
            story_wf(*final(self)),
            old(self).started ==> r is Err && r->Err_0@ == InklingErrV::CannotStartTwice
                && *final(self) == *old(self),
            !old(self).started ==> {
                &&& r is Ok
                &&& final(self).started
                &&& !final(self).done
                &&& final(self).stack@ =~= seq![0usize]
                &&& final(self).current_knot@ == old(self).knots@[0].name
                &&& final(self).current_stitch@ == old(self).knots@[0].stitches[0].name
                &&& final(self).knots == old(self).knots
                &&& final(self).data == old(self).data
            },
    {
        if self.started {
            return Err(InklingError::CannotStartTwice);
        }
        self.current_knot = self.knots.knots[0].name.clone();
        self.current_stitch = self.knots.knots[0].stitches[0].name.clone();
        let mut stack: Vec<usize> = Vec::new();
        stack.push(0);
        self.stack = stack;
        self.started = true;
        proof {
            assert(self.stack@ =~= seq![0usize]);
            lemma_knot_pos(self.knots@, 0);
            lemma_stitch_pos(self.knots@, 0, 0);
            crate::node::lemma_view_items(
                self.knots.knots@[0].stitches@[0].root.items@,
            );
        }
        Ok(())
    }

    /// Look up a global variable by name.
    pub fn get_variable(&self, name: &str) -> (r: Option<Variable>)
        requires
            story_wf(*self),
        ensures
            match r {
                Some(v) => vars_map(self.data).dom().contains(name@) && v == vars_map(
                    self.data,
                )[name@],
                None => !vars_map(self.data).dom().contains(name@),
            },
    {
        get_variable_value(&self.data, name)
    }

    /// Set a global variable.
    ///
    /// The first assignment fixes the variable's kind; later assignments
    /// must keep it. A divert value cannot be stored at all.
    pub fn set_variable(&mut self, name: &str, value: Variable) -> (r: Result<(), InklingError>)
        requires
            story_wf(*old(self)),
        ensures
            story_wf(*final(self)),
            match r {
                Ok(_) => {
                    &&& !(value@ is Divert)
                    &&& (vars_map(old(self).data).dom().contains(name@) ==> vars_map(
                        old(self).data,
                    )[name@].kind_spec() == value.kind_spec())
                    &&& vars_map(final(self).data) =~= vars_map(old(self).data).insert(name@, value)
                    &&& final(self).knots == old(self).knots
                    &&& counts_map(final(self).data) =~~= counts_map(old(self).data)
                },
                Err(e) => {
                    &&& *final(self) == *old(self)
                    &&& (value@ is Divert ==> e@ == InklingErrV::SetVariableToDivert {
                        name: name@,
                    })
                    &&& (!(value@ is Divert) ==> e@ == InklingErrV::SetVariableWrongKind {
                        name: name@,
                    } && vars_map(old(self).data).dom().contains(name@) && vars_map(
                        old(self).data,
                    )[name@].kind_spec() != value.kind_spec())
                },
            },
    {
        match &value {
            Variable::Divert(_) => {
                return Err(InklingError::SetVariableToDivert { name: name.to_owned() });
            },
            _ => {},
        }
        match get_variable_value(&self.data, name) {
            Some(existing) => {
                let existing_kind = existing.kind();
                if existing_kind != value.kind() {
                    return Err(InklingError::SetVariableWrongKind { name: name.to_owned() });
                }
            },
            None => {},
        }
        upsert_variable(&mut self.data, name, value);
        Ok(())
    }

    /// Select one of the last presented choices by its position in that
    /// list. The selection is applied by the next `resume`.
    pub fn make_choice(&mut self, selection: usize) -> (r: Result<(), InklingError>)
        requires
            story_wf(*old(self)),
        ensures
            story_wf(*final(self)),
            match old(self).last_choices {
                None => r is Err && r->Err_0@ == InklingErrV::MadeChoiceWithoutChoice
                    && *final(self) == *old(self),
                Some(csd) => {
                    if selection < csd.choices@.len() && selection < csd.branch_indices@.len() {
                        &&& r is Ok
                        &&& final(self).pending_choice == Some(csd.branch_indices@[selection as int])
                        &&& final(self).last_choices is None
                        &&& final(self).knots == old(self).knots
                        &&& final(self).data == old(self).data
                        &&& final(self).stack == old(self).stack
                    } else {
                        &&& r is Err
                        &&& r->Err_0@ == InklingErrV::InvalidChoice {
                            presented_index: selection,
                            presented_len: csd.choices@.len() as usize,
                        }
                        &&& *final(self) == *old(self)
                    }
                },
            },
    {
        let (valid, actual, len) = match &self.last_choices {
            None => {
                return Err(InklingError::MadeChoiceWithoutChoice);
            },
            Some(csd) => {
                if selection < csd.choices.len() && selection < csd.branch_indices.len() {
                    (true, csd.branch_indices[selection], csd.choices.len())
                } else {
                    (false, 0usize, csd.choices.len())
                }
            },
        };
        if valid {
            self.pending_choice = Some(actual);
            self.last_choices = None;
            Ok(())
        } else {
            Err(InklingError::InvalidChoice { presented_index: selection, presented_len: len })
        }
    }
}


impl Story {
    /// Follow the story at the current stitch: apply a pending selection, or
    /// walk on from the position the stack holds, stepping the stitch's
    /// visit count when its node is entered afresh.
    #[verifier::rlimit(100)]
    fn follow_current(
        &mut self,
        ki: usize,
        si: usize,
        selection: Option<usize>,
        line_buffer: &mut Vec<Line>,
    ) -> (r: Result<Next, InklingError>)
        requires
            story_wf(*old(self)),
            old(self).started,
            ki < old(self).knots@.len(),
            si < old(self).knots@[ki as int].stitches.len(),
            old(self).knots@[ki as int].name == old(self).current_knot@,
            old(self).knots@[ki as int].stitches[si as int].name == old(self).current_stitch@,
            selection is None ==> old(self).stack@.len() == 1,
        ensures
            story_wf(*final(self)),
            final(self).started == old(self).started,
            final(self).done == old(self).done,
            final(self).current_knot == old(self).current_knot,
            final(self).current_stitch == old(self).current_stitch,
            final(self).last_choices == old(self).last_choices,
            final(self).pending_choice == old(self).pending_choice,
            final(self).data.variables == old(self).data.variables,
            knots_names_eq(old(self).knots@, final(self).knots@),
            knots_counts_only(old(self).knots@, final(self).knots@),
            counts_preserved(old(self).data, final(self).data),
            buffer_extended(view_buffer(old(line_buffer)@), view_buffer(final(line_buffer)@)),
            selection matches Some(actual) ==> final(self).data == old(self).data && (
            r matches Ok(next) ==> spec_follow_with_choice(
                story_current_items(*old(self)),
                actual as int,
                0,
                spec_num_visited(
                    old(self).data,
                    old(self).current_knot@,
                    old(self).current_stitch@,
                ),
                old(self).stack@,
                old(self).data,
                view_buffer(old(line_buffer)@),
            ) == Ok::<(Seq<ItemV>, Seq<usize>, Seq<LineV>, WalkNextV), InklingErrV>(
                (
                    story_current_items(*final(self)),
                    final(self).stack@,
                    view_buffer(final(line_buffer)@),
                    walk_next_of(next),
                ),
            )),
            selection is None ==> {
                &&& (old(self).stack@ == seq![0usize] ==> counts_bumped(
                    old(self).data,
                    final(self).data,
                    old(self).current_knot@,
                    old(self).current_stitch@,
                ))
                &&& (old(self).stack@ != seq![0usize] ==> final(self).data == old(self).data)
                &&& (r matches Ok(next) ==> spec_follow_items(
                    story_current_items(*old(self)),
                    old(self).stack@.last() as int,
                    spec_num_visited(
                        final(self).data,
                        old(self).current_knot@,
                        old(self).current_stitch@,
                    ),
                    final(self).data,
                    view_buffer(old(line_buffer)@),
                ) == Ok::<(Seq<LineV>, int, WalkNextV), InklingErrV>(
                    (
                        view_buffer(final(line_buffer)@),
                        final(self).stack@.last() as int,
                        walk_next_of(next),
                    ),
                ))
            },
            match r {
                Err(e) => crate::error::walk_err(e@),
                Ok(Next::Done) => final(self).stack@.len() == 1 && final(self).stack@.last()
                    == story_current_items(*final(self)).len(),
                Ok(Next::ChoiceSet(ref csd)) => {
                    let its = node_items_at(
                        story_current_items(*final(self)),
                        final(self).stack@,
                        0,
                    );
                    &&& final(self).stack@.last() < its.len()
                    &&& (its[final(self).stack@.last() as int] matches ItemV::BranchingPoint(bs)
                        && spec_present(bs, 0, final(self).data) matches Ok(p) && view_choices(
                        csd.choices@,
                    ) == p.0 && usizes_as_ints(csd.branch_indices@) == p.1 && (
                    match csd.fallback {
                        Some(f) => p.2 == Some(f as int),
                        None => p.2 is None,
                    }))
                },
                Ok(Next::Divert(ref a)) => {
                    let its = node_items_at(
                        story_current_items(*final(self)),
                        final(self).stack@,
                        0,
                    );
                    &&& final(self).stack@.last() >= 1
                    &&& final(self).stack@.last() <= its.len()
                    &&& (its[final(self).stack@.last() - 1] matches ItemV::Line(l) && l.divert
                        == Some(a@))
                },
            },
    {
        proof {
            lemma_knot_pos(self.knots@, ki as int);
            lemma_stitch_pos(self.knots@, ki as int, si as int);
            crate::follow::lemma_buffer_extended_refl(view_buffer(line_buffer@));
        }
        let addr = Address::from_parts_unchecked(
            self.current_knot.as_str(),
            Some(self.current_stitch.as_str()),
        );
        match selection {
            None => {
                proof {
                    lemma_knots_counts_only_refl(old(self).knots@);
                    lemma_counts_preserved_refl(old(self).data);
                    if self.stack@[0] == 0 {
                        assert(self.stack@ =~= seq![0usize]);
                    } else {
                        assert(self.stack@ != seq![0usize]) by {
                            assert(seq![0usize][0] == 0usize);
                        }
                    }
                }
                if self.stack.len() == 1 && self.stack[0] == 0 {
                    let ghost pre_data = self.data;
                    match increment_num_visited(&addr, &mut self.data) {
                        Ok(()) => {
                            proof {
                                lemma_bump_counts_preserved(
                                    pre_data,
                                    self.data,
                                    self.current_knot@,
                                    self.current_stitch@,
                                );
                                assert(story_counts_cover(*self)) by {
                                    assert forall|a: int, b: int|
                                        0 <= a < self.knots@.len() && 0 <= b < (
                                    #[trigger] self.knots@[a]).stitches.len() implies has_count(
                                        self.data,
                                        self.knots@[a].name,
                                        (#[trigger] self.knots@[a].stitches[b]).name,
                                    ) by {
                                        assert(has_count(
                                            pre_data,
                                            self.knots@[a].name,
                                            self.knots@[a].stitches[b].name,
                                        ));
                                    }
                                }
                            }
                        },
                        Err(e) => {
                            return Err(e);
                        },
                    }
                }
                let vc = match get_num_visited(&addr, &self.data) {
                    Ok(c) => c,
                    Err(e) => {
                        return Err(e);
                    },
                };
                let items = &self.knots.knots[ki].stitches[si].root.items;
                let ghost itemsv = view_items(items@);
                proof {
                    assert(view_items(items@) == story_current_items(*self));
                    assert(story_current_items(*self) == story_current_items(*old(self)));
                    assert(self.stack@.len() >= 1);
                    assert(self.stack@.last() <= view_items(items@).len());
                    crate::node::lemma_view_items(items@);
                }
                let r = follow_items(items, vc, &mut self.stack, &self.data, line_buffer, &mut self.log);
                proof {
                    assert(story_current_items(*self) == itemsv);
                    assert(stack_fits(story_current_items(*self), self.stack@, 0));
                    assert(self.stack@.len() == 1);
                    assert(node_items_at(story_current_items(*self), self.stack@, 0)
                        == story_current_items(*self));
                }
                r
            },
            Some(actual) => {
                proof {
                    lemma_counts_preserved_refl(old(self).data);
                }
                let vc = match get_num_visited(&addr, &self.data) {
                    Ok(c) => c,
                    Err(e) => {
                        return Err(e);
                    },
                };
                let ghost pre_knots = self.knots@;
                let ghost pre_stack = self.stack@;
                let ghost pre_stitch_items = story_current_items(*self);
                let result = {
                    let knot = &mut self.knots.knots[ki];
                    let stitch = &mut knot.stitches[si];
                    proof {
                        assert(view_items(stitch.root.items@) == pre_stitch_items);
                        assert(items_wf(view_items(stitch.root.items@)));
                        assert(stack_fits(view_items(stitch.root.items@), self.stack@, 0));
                    }
                    let ghost pre_stitch = *stitch;
                    let r = follow_with_choice(
                        &mut stitch.root.items,
                        actual,
                        0,
                        vc,
                        &mut self.stack,
                        &self.data,
                        line_buffer,
                        &mut self.log,
                    );
                    proof {
                        assert(stitch.name == pre_stitch.name);
                        assert(stitch.root.address == pre_stitch.root.address);
                    }
                    r
                };
                proof {
                    let ks1 = self.knots@;
                    assert(self.knots.knots@.len() == old(self).knots.knots@.len());
                    assert(ks1.len() == pre_knots.len());
                    assert forall|i: int| 0 <= i < ks1.len() && i != ki implies ks1[i]
                        == pre_knots[i] by {
                        assert(self.knots.knots@[i] == old(self).knots.knots@[i]);
                    }
                    assert(ks1[ki as int].name == pre_knots[ki as int].name);
                    assert(ks1[ki as int].stitches.len() == pre_knots[ki as int].stitches.len());
                    assert forall|j: int|
                        0 <= j < ks1[ki as int].stitches.len() && j != si implies ks1[ki as int].stitches[j]
                        == pre_knots[ki as int].stitches[j] by {
                        assert(self.knots.knots@[ki as int].stitches@[j] == old(
                            self,
                        ).knots.knots@[ki as int].stitches@[j]);
                    }
                    assert(ks1[ki as int].stitches[si as int].name == pre_knots[ki as int].stitches[
                        si as int].name);
                    assert(knots_names_eq(pre_knots, ks1));
                    assert(knots_unique(ks1)) by {
                        assert forall|a: int, b: int| 0 <= a < b < ks1.len() implies (
                        #[trigger] ks1[a]).name != (#[trigger] ks1[b]).name by {
                            assert(pre_knots[a].name != pre_knots[b].name);
                        }
                        assert forall|a: int, p: int, q: int|
                            0 <= a < ks1.len() && 0 <= p < q < ks1[a].stitches.len() implies (
                        #[trigger] ks1[a].stitches[p]).name != (#[trigger] ks1[a].stitches[q]).name by {
                            assert(pre_knots[a].stitches[p].name != pre_knots[a].stitches[q].name);
                        }
                    }
                    assert(knot_set_wf(ks1)) by {
                        assert forall|a: int, b: int|
                            0 <= a < ks1.len() && 0 <= b < ks1[a].stitches.len() implies items_wf(
                            (#[trigger] ks1[a].stitches[b]).root.items,
                        ) by {
                            if a != ki || b != si {
                                assert(items_wf(pre_knots[a].stitches[b].root.items));
                            }
                        }
                    }
                    assert(story_counts_cover(*self)) by {
                        assert forall|a: int, b: int|
                            0 <= a < ks1.len() && 0 <= b < (#[trigger] ks1[a]).stitches.len() implies has_count(
                            self.data,
                            ks1[a].name,
                            (#[trigger] ks1[a].stitches[b]).name,
                        ) by {
                            assert(has_count(
                                self.data,
                                pre_knots[a].name,
                                pre_knots[a].stitches[b].name,
                            ));
                        }
                    }
                    lemma_knot_pos(ks1, ki as int);
                    lemma_stitch_pos(ks1, ki as int, si as int);
                    assert(story_current_items(*self) == view_items(
                        self.knots.knots@[ki as int].stitches@[si as int].root.items@,
                    ));
                    crate::node::lemma_view_items(
                        self.knots.knots@[ki as int].stitches@[si as int].root.items@,
                    );
                    assert(stack_fits(story_current_items(*self), self.stack@, 0));
                    // Only visit counts may have changed anywhere in the set.
                    assert(ks1[ki as int].tags == pre_knots[ki as int].tags);
                    assert forall|a: int, b: int|
                        0 <= a < pre_knots.len() && 0 <= b
                            < pre_knots[a].stitches.len() implies (
                    #[trigger] ks1[a].stitches[b]).name == pre_knots[a].stitches[b].name
                        && ks1[a].stitches[b].root.address == pre_knots[a].stitches[b].root.address
                        && crate::node::items_counts_only(
                        pre_knots[a].stitches[b].root.items,
                        ks1[a].stitches[b].root.items,
                    ) by {
                        if a == ki && b == si {
                            if ks1[a].stitches[b].root.items == pre_knots[a].stitches[b].root.items {
                                crate::node::lemma_items_counts_only_refl(
                                    pre_knots[a].stitches[b].root.items,
                                );
                            } else {
                                lemma_bumped_counts_only(
                                    pre_knots[a].stitches[b].root.items,
                                    ks1[a].stitches[b].root.items,
                                    crate::follow::spec_selection_path(
                                        pre_stack,
                                        0,
                                        actual as int,
                                    ),
                                );
                            }
                        } else {
                            assert(ks1[a].stitches[b] == pre_knots[a].stitches[b]);
                            crate::node::lemma_items_counts_only_refl(
                                pre_knots[a].stitches[b].root.items,
                            );
                        }
                    }
                    assert(knots_counts_only(pre_knots, ks1));
                }
                result
            },
        }
    }
}


impl Story {
    /// Walk the story until it needs a choice or ends, filling the buffer
    /// with the rendered lines passed on the way.
    ///
    /// Diverts and automatic fallback selections are followed on the spot,
    /// at most a thousand of them per call before `InfiniteLoop` is
    /// returned. When a branching point offers choices, they are stored for
    /// `make_choice` and returned; when no choice is eligible and a fallback
    /// exists, the fallback is taken silently and the walk goes on.
    #[verifier::rlimit(100)]
    pub fn resume(&mut self, line_buffer: &mut LineBuffer) -> (r: Result<Prompt, InklingError>)
        requires
            story_wf(*old(self)),
        ensures
            story_wf(*final(self)),
            buffer_extended(view_buffer(old(line_buffer)@), view_buffer(final(line_buffer)@)),
            final(self).data.variables == old(self).data.variables,
            knots_counts_only(old(self).knots@, final(self).knots@),
            counts_preserved(old(self).data, final(self).data),
            !old(self).started ==> r is Err && r->Err_0@ == InklingErrV::ResumedBeforeStart
                && *final(self) == *old(self),
            old(self).started && old(self).done ==> r == Ok::<Prompt, InklingError>(Prompt::Done)
                && *final(self) == *old(self),
            old(self).started && !old(self).done && old(self).pending_choice is None && old(
                self,
            ).last_choices is Some ==> {
                &&& r is Ok
                &&& (r->Ok_0 matches Prompt::Choice(cs) && view_choices(cs@) == view_choices(
                    old(self).last_choices->Some_0.choices@,
                ))
                &&& *final(self) == *old(self)
            },
            match r {
                Ok(Prompt::Done) => final(self).done && (old(self).done || (
                final(self).ending matches Some(end) && match end {
                    StoryEnd::Exhausted => {
                        &&& final(self).stack@.len() == 1
                        &&& final(self).stack@.last() == story_current_items(*final(self)).len()
                        &&& {
                            let ks = final(self).knots@;
                            let k = ks[knot_pos(ks, final(self).current_knot@)];
                            stitch_pos(k, final(self).current_stitch@) == k.stitches.len() - 1
                        }
                    },
                    StoryEnd::ExplicitEnd => {
                        let its = node_items_at(
                            story_current_items(*final(self)),
                            final(self).stack@,
                            0,
                        );
                        &&& 1 <= final(self).stack@.last() <= its.len()
                        &&& (its[final(self).stack@.last() - 1] matches ItemV::Line(l) && l.divert
                            == Some(AddressV::Validated(AddressKindV::End)))
                    },
                    StoryEnd::DoneDivert => {
                        let its = node_items_at(
                            story_current_items(*final(self)),
                            final(self).stack@,
                            0,
                        );
                        &&& 1 <= final(self).stack@.last() <= its.len()
                        &&& (its[final(self).stack@.last() - 1] matches ItemV::Line(l) && l.divert
                            == Some(AddressV::Validated(AddressKindV::Done)))
                    },
                })),
                Ok(Prompt::Choice(cs)) => {
                    &&& final(self).last_choices is Some
                    &&& view_choices(cs@) == view_choices(
                        final(self).last_choices->Some_0.choices@,
                    )
                    &&& final(self).pending_choice is None
                    &&& (view_choices(cs@).len() == 0
                        ==> final(self).last_choices->Some_0.fallback is None)
                    &&& (!(old(self).pending_choice is None && old(self).last_choices is Some)
                        ==> {
                        let its = node_items_at(
                            story_current_items(*final(self)),
                            final(self).stack@,
                            0,
                        );
                        &&& final(self).stack@.last() < its.len()
                        &&& (its[final(self).stack@.last() as int] matches ItemV::BranchingPoint(
                            bs,
                        ) && spec_present(bs, 0, final(self).data) matches Ok(p) && p.0
                            == view_choices(cs@) && p.1 == usizes_as_ints(
                            final(self).last_choices->Some_0.branch_indices@,
                        ) && (match final(self).last_choices->Some_0.fallback {
                            Some(f) => p.2 == Some(f as int),
                            None => p.2 is None,
                        }) && (p.0.len() == 0 ==> p.2 is None))
                    })
                },
                Err(e) => e@ matches InklingErrV::InfiniteLoop { divert_chain_length }
                    ==> divert_chain_length == 1000,
            },
    {
        proof {
            crate::follow::lemma_buffer_extended_refl(view_buffer(line_buffer@));
            lemma_knots_counts_only_refl(self.knots@);
            lemma_counts_preserved_refl(self.data);
        }
        if !self.started {
            return Err(InklingError::ResumedBeforeStart);
        }
        if self.done {
            return Ok(Prompt::Done);
        }
        if self.pending_choice.is_none() {
            match &self.last_choices {
                Some(csd) => {
                    // A choice is still owed: present the same set again.
                    let cs = duplicate_choices(&csd.choices);
                    proof {
                        assert(view_choices(cs@).len() == view_choices(csd.choices@).len());
                    }
                    return Ok(Prompt::Choice(cs));
                },
                None => {},
            }
        }
        let mut ki = match self.knots.find_knot(self.current_knot.as_str()) {
            Some(k) => k,
            None => {
                return Err(
                    InklingError::Internal(
                        InternalError::UnknownLocation {
                            knot: self.current_knot.clone(),
                            stitch: self.current_stitch.clone(),
                        },
                    ),
                );
            },
        };
        let mut si = match self.knots.knots[ki].find_stitch(self.current_stitch.as_str()) {
            Some(s) => s,
            None => {
                return Err(
                    InklingError::Internal(
                        InternalError::UnknownLocation {
                            knot: self.current_knot.clone(),
                            stitch: self.current_stitch.clone(),
                        },
                    ),
                );
            },
        };
        if self.pending_choice.is_none() && self.stack.len() != 1 {
            let len = self.stack.len();
            return Err(
                InklingError::Internal(
                    InternalError::IncorrectNodeStack(
                        crate::error::IncorrectNodeStackError::OutOfBounds { index: len, len: 1 },
                    ),
                ),
            );
        }
        self.last_choices = None;
        let mut guard: u32 = 0;
        loop
            invariant
                old(self).started,
                !old(self).done,
                story_wf(*self),
                self.started,
                !self.done,
                self.last_choices is None,
                ki < self.knots@.len(),
                si < self.knots@[ki as int].stitches.len(),
                self.knots@[ki as int].name == self.current_knot@,
                self.knots@[ki as int].stitches[si as int].name == self.current_stitch@,
                self.pending_choice is None ==> self.stack@.len() == 1,
                !(old(self).pending_choice is None && old(self).last_choices is Some),
                self.data.variables == old(self).data.variables,
                knots_counts_only(old(self).knots@, self.knots@),
                counts_preserved(old(self).data, self.data),
                guard <= 1000,
                buffer_extended(view_buffer(old(line_buffer)@), view_buffer(line_buffer@)),
            decreases 1000 - guard, self.knots@[ki as int].stitches.len() - si,
        {
            let pending = self.pending_choice;
            self.pending_choice = None;
            let ghost buf_mid = view_buffer(line_buffer@);
            let ghost it_knots = self.knots@;
            let ghost it_data = self.data;
            let next = match self.follow_current(ki, si, pending, line_buffer) {
                Ok(nx) => nx,
                Err(e) => {
                    proof {
                        crate::follow::lemma_buffer_extended_trans(
                            view_buffer(old(line_buffer)@),
                            buf_mid,
                            view_buffer(line_buffer@),
                        );
                        lemma_knots_counts_only_trans(old(self).knots@, it_knots, self.knots@);
                        lemma_counts_preserved_trans(old(self).data, it_data, self.data);
                    }
                    return Err(e);
                },
            };
            proof {
                crate::follow::lemma_buffer_extended_trans(
                    view_buffer(old(line_buffer)@),
                    buf_mid,
                    view_buffer(line_buffer@),
                );
                lemma_knots_counts_only_trans(old(self).knots@, it_knots, self.knots@);
                lemma_counts_preserved_trans(old(self).data, it_data, self.data);
            }
            match next {
                Next::Done => {
                    // Fall through to the next stitch of the knot, in script
                    // order; the story ends when none is left.
                    let stitch_count = self.knots.knots[ki].stitches.len();
                    if si < stitch_count - 1 {
                        si = si + 1;
                        self.current_stitch = self.knots.knots[ki].stitches[si].name.clone();
                        let mut fresh: Vec<usize> = Vec::new();
                        fresh.push(0);
                        self.stack = fresh;
                        proof {
                            assert(self.stack@ =~= seq![0usize]);
                            lemma_knot_pos(self.knots@, ki as int);
                            lemma_stitch_pos(self.knots@, ki as int, si as int);
                        }
                    } else {
                        let ghost pre_items = story_current_items(*self);
                        let ghost pre_stack = self.stack@;
                        self.done = true;
                        self.ending = Some(StoryEnd::Exhausted);
                        proof {
                            assert(story_current_items(*self) == pre_items);
                            assert(self.stack@ == pre_stack);
                            lemma_knot_pos(self.knots@, ki as int);
                            lemma_stitch_pos(self.knots@, ki as int, si as int);
                        }
                        return Ok(Prompt::Done);
                    }
                },
                Next::Divert(address) => {
                    match address {
                        Address::Validated(kind) => match kind {
                            crate::address::AddressKind::End => {
                                let ghost pre_items = story_current_items(*self);
                                let ghost pre_stack = self.stack@;
                                self.done = true;
                                self.ending = Some(StoryEnd::ExplicitEnd);
                                proof {
                                    assert(story_current_items(*self) == pre_items);
                                    assert(self.stack@ == pre_stack);
                                }
                                return Ok(Prompt::Done);
                            },
                            crate::address::AddressKind::Done => {
                                let ghost pre_items = story_current_items(*self);
                                let ghost pre_stack = self.stack@;
                                self.done = true;
                                self.ending = Some(StoryEnd::DoneDivert);
                                proof {
                                    assert(story_current_items(*self) == pre_items);
                                    assert(self.stack@ == pre_stack);
                                }
                                return Ok(Prompt::Done);
                            },
                            crate::address::AddressKind::Location { knot, stitch } => {
                                let new_ki = match self.knots.find_knot(knot.as_str()) {
                                    Some(k) => k,
                                    None => {
                                        return Err(
                                            InklingError::InvalidAddress(
                                                crate::error::InvalidAddressError::UnknownKnot {
                                                    knot_name: knot,
                                                },
                                            ),
                                        );
                                    },
                                };
                                let new_si = match self.knots.knots[new_ki].find_stitch(
                                    stitch.as_str(),
                                ) {
                                    Some(s) => s,
                                    None => {
                                        return Err(
                                            InklingError::InvalidAddress(
                                                crate::error::InvalidAddressError::UnknownStitch {
                                                    knot_name: knot,
                                                    stitch_name: stitch,
                                                },
                                            ),
                                        );
                                    },
                                };
                                if guard >= 1000 {
                                    return Err(
                                        InklingError::InfiniteLoop { divert_chain_length: guard },
                                    );
                                }
                                guard = guard + 1;
                                ki = new_ki;
                                si = new_si;
                                self.current_knot = knot;
                                self.current_stitch = stitch;
                                let mut fresh: Vec<usize> = Vec::new();
                                fresh.push(0);
                                self.stack = fresh;
                                proof {
                                    assert(self.stack@ =~= seq![0usize]);
                                    lemma_knot_pos(self.knots@, ki as int);
                                    lemma_stitch_pos(self.knots@, ki as int, si as int);
                                }
                            },
                            _ => {
                                return Err(
                                    InklingError::Internal(InternalError::AddressIsNotLocation),
                                );
                            },
                        },
                        Address::Raw(_) => {
                            return Err(
                                InklingError::Internal(InternalError::UseOfUnvalidatedAddress),
                            );
                        },
                    }
                },
                Next::ChoiceSet(csd) => {
                    if csd.choices.len() == 0 {
                        match csd.fallback {
                            Some(fallback_idx) => {
                                // No choice can be offered but a fallback
                                // exists: take it silently.
                                if guard >= 1000 {
                                    return Err(
                                        InklingError::InfiniteLoop { divert_chain_length: guard },
                                    );
                                }
                                guard = guard + 1;
                                self.pending_choice = Some(fallback_idx);
                            },
                            None => {
                                let cs = duplicate_choices(&csd.choices);
                                let ghost pre_items = story_current_items(*self);
                                let ghost pre_stack = self.stack@;
                                let ghost pre_data = self.data;
                                proof {
                                    assert(view_choices(cs@).len() == 0);
                                }
                                self.last_choices = Some(csd);
                                proof {
                                    assert(story_current_items(*self) == pre_items);
                                    assert(self.stack@ == pre_stack);
                                    assert(self.data == pre_data);
                                }
                                return Ok(Prompt::Choice(cs));
                            },
                        }
                    } else {
                        let cs = duplicate_choices(&csd.choices);
                        let ghost pre_items = story_current_items(*self);
                        let ghost pre_stack = self.stack@;
                        let ghost pre_data = self.data;
                        proof {
                            assert(view_choices(cs@).len() == view_choices(csd.choices@).len());
                            assert(view_choices(cs@).len() > 0);
                        }
                        self.last_choices = Some(csd);
                        proof {
                            assert(story_current_items(*self) == pre_items);
                            assert(self.stack@ == pre_stack);
                            assert(self.data == pre_data);
                        }
                        return Ok(Prompt::Choice(cs));
                    }
                },
            }
        }
    }
}


/// The mathematical state of a story: everything a snapshot must keep.
#[verifier::ext_equal]
pub struct StoryV {
    pub knots: Seq<KnotV>,
    pub stack: Seq<usize>,
    pub current_knot: Seq<char>,
    pub current_stitch: Seq<char>,
    pub counts: Map<Seq<char>, Map<Seq<char>, u32>>,
    pub vars: Map<Seq<char>, Variable>,
    pub presented: Option<(Seq<ChoiceV>, Seq<int>, Option<int>)>,
    pub pending_choice: Option<usize>,
    pub started: bool,
    pub done: bool,
    pub ending: Option<StoryEnd>,
    pub log: Seq<WarningV>,
}

/// The mathematical state of a story.
pub open spec fn story_model(s: Story) -> StoryV {
    StoryV {
        knots: s.knots@,
        stack: s.stack@,
        current_knot: s.current_knot@,
        current_stitch: s.current_stitch@,
        counts: counts_map(s.data),
        vars: vars_map(s.data),
        presented: match s.last_choices {
            Some(csd) => Some(
                (
                    view_choices(csd.choices@),
                    usizes_as_ints(csd.branch_indices@),
                    match csd.fallback {
                        Some(f) => Some(f as int),
                        None => None,
                    },
                ),
            ),
            None => None,
        },
        pending_choice: s.pending_choice,
        started: s.started,
        done: s.done,
        ending: s.ending,
        log: s.log@,
    }
}

impl Story {
    /// Take a snapshot of the story: a second story with the same
    /// mathematical state, which a host can keep and later hand to
    /// `restore`.
    ///
    /// Restoring the snapshot and continuing behaves like continuing the
    /// story it was taken from: every operation's contract depends only on
    /// the state that `story_model` captures.
    pub fn snapshot(&self) -> (r: Story)
        requires
            story_wf(*self),
        ensures
            story_wf(r),
            story_model(r) == story_model(*self),
    {
        let last_choices: Option<ChoiceSetData> = match &self.last_choices {
            Some(csd) => {
                let mut idxs: Vec<usize> = Vec::new();
                let bn = csd.branch_indices.len();
                let mut bi: usize = 0;
                while bi < bn
                    invariant
                        bn == csd.branch_indices@.len(),
                        0 <= bi <= bn,
                        idxs@.len() == bi,
                        forall|j: int| 0 <= j < bi ==> #[trigger] idxs@[j] == csd.branch_indices@[j],
                    decreases bn - bi,
                {
                    let v = csd.branch_indices[bi];
                    idxs.push(v);
                    bi += 1;
                }
                proof {
                    assert(idxs@ =~= csd.branch_indices@);
                }
                Some(
                    ChoiceSetData {
                        choices: duplicate_choices(&csd.choices),
                        branch_indices: idxs,
                        fallback: csd.fallback,
                    },
                )
            },
            None => None,
        };
        let mut stack: Vec<usize> = Vec::new();
        let sn = self.stack.len();
        let mut sj: usize = 0;
        while sj < sn
            invariant
                sn == self.stack@.len(),
                0 <= sj <= sn,
                stack@.len() == sj,
                forall|j: int| 0 <= j < sj ==> #[trigger] stack@[j] == self.stack@[j],
            decreases sn - sj,
        {
            let v = self.stack[sj];
            stack.push(v);
            sj += 1;
        }
        proof {
            assert(stack@ =~= self.stack@);
        }
        let mut warnings: Vec<crate::log::Warning> = Vec::new();
        let wn = self.log.warnings.len();
        let mut wj: usize = 0;
        while wj < wn
            invariant
                wn == self.log.warnings@.len(),
                0 <= wj <= wn,
                warnings@.len() == wj,
                forall|j: int| 0 <= j < wj ==> (#[trigger] warnings@[j])@ == self.log.warnings@[j]@,
            decreases wn - wj,
        {
            let w = duplicate_warning(&self.log.warnings[wj]);
            warnings.push(w);
            wj += 1;
        }
        let r = Story {
            knots: self.knots.duplicate(),
            stack,
            current_knot: self.current_knot.clone(),
            current_stitch: self.current_stitch.clone(),
            data: self.data.duplicate(),
            last_choices,
            pending_choice: self.pending_choice,
            started: self.started,
            done: self.done,
            ending: self.ending,
            log: Logger { warnings },
        };
        proof {
            assert(r.log@ =~= self.log@);
            assert(story_model(r) =~~= story_model(*self));
            assert(story_counts_cover(r)) by {
                assert forall|i: int, j: int|
                    0 <= i < r.knots@.len() && 0 <= j < (#[trigger] r.knots@[i]).stitches.len() implies has_count(
                    r.data,
                    r.knots@[i].name,
                    (#[trigger] r.knots@[i].stitches[j]).name,
                ) by {
                    assert(has_count(
                        self.data,
                        self.knots@[i].name,
                        self.knots@[i].stitches[j].name,
                    ));
                }
            }
            assert(r.knots@ == self.knots@);
            assert(story_current_items(r) == story_current_items(*self));
            assert(r.stack@ == self.stack@);
            if r.last_choices is Some {
                let csd2 = r.last_choices->Some_0;
                let csd = self.last_choices->Some_0;
                assert(view_choices(csd2.choices@) == view_choices(csd.choices@));
                assert(view_choices(csd2.choices@).len() == view_choices(csd.choices@).len());
            }
            assert(story_wf(r));
        }
        r
    }

    /// Replace the story's state with a snapshot taken earlier.
    pub fn restore(&mut self, snapshot: Story)
        requires
            story_wf(snapshot),
        ensures
            story_wf(*final(self)),
            *final(self) == snapshot,
    {
        *self = snapshot;
    }
}

/// An exact copy of one warning.
fn duplicate_warning(w: &crate::log::Warning) -> (r: crate::log::Warning)
    ensures
        r@ == w@,
{
    match w {
        crate::log::Warning::PrintedDivertAsText => crate::log::Warning::PrintedDivertAsText,
        crate::log::Warning::TodoComment { comment } => crate::log::Warning::TodoComment {
            comment: comment.clone(),
        },
        crate::log::Warning::UnreachableFallback => crate::log::Warning::UnreachableFallback,
        crate::log::Warning::AlwaysFalseChoiceCondition => crate::log::Warning::AlwaysFalseChoiceCondition,
    }
}

/// The concatenated text of a buffer of rendered lines, from position `i`.
pub open spec fn spec_buffer_text(s: Seq<LineV>, i: int) -> Seq<char>
    decreases s.len() - i,
{
    if i < 0 || i >= s.len() {
        Seq::empty()
    } else {
        s[i].text + spec_buffer_text(s, i + 1)
    }
}

/// Append the text of the lines from position `i` on to `out`.
fn copy_lines_from(buffer: &Vec<Line>, i: usize, out: &mut String)
    ensures
        final(out)@ == old(out)@ + spec_buffer_text(view_buffer(buffer@), i as int),
    decreases buffer@.len() - i,
{
    if i >= buffer.len() {
        proof {
            assert(out@ =~= old(out)@ + spec_buffer_text(view_buffer(buffer@), i as int));
        }
        return ;
    }
    out.append(buffer[i].text.as_str());
    copy_lines_from(buffer, i + 1, out);
    proof {
        assert(out@ =~= old(out)@ + spec_buffer_text(view_buffer(buffer@), i as int));
    }
}

/// Join the text of all lines in the buffer into one string.
pub fn copy_lines_into_string(buffer: &LineBuffer) -> (r: String)
    ensures
        r@ == spec_buffer_text(view_buffer(buffer@), 0),
{
    let mut out = String::new();
    copy_lines_from(buffer, 0, &mut out);
    proof {
        assert(out@ =~= spec_buffer_text(view_buffer(buffer@), 0));
    }
    out
}


/// Law: at every boundary where the host sees the story — after `start`,
/// between `resume` and `make_choice`, and at the final state — the position
/// stack's length is odd: item indices and branch indices alternate, ending
/// on an item index.
pub proof fn lemma_position_stack_length_is_odd(s: Story)
    requires
        story_wf(s),
        s.started,
    ensures
        s.stack@.len() % 2 == 1,
{
}


impl Story {
    /// Check that the visit-count table covers every stitch of every knot.
    fn check_counts_cover(&self) -> (r: bool)
        requires
            counts_wf(self.data),
        ensures
            r == story_counts_cover(*self),
    {
        let n = self.knots.knots.len();
        let mut i: usize = 0;
        while i < n
            invariant
                counts_wf(self.data),
                n == self.knots.knots@.len(),
                0 <= i <= n,
                forall|a: int, b: int|
                    0 <= a < i && 0 <= b < (#[trigger] self.knots@[a]).stitches.len() ==> has_count(
                        self.data,
                        self.knots@[a].name,
                        (#[trigger] self.knots@[a].stitches[b]).name,
                    ),
            decreases n - i,
        {
            let entry = &self.knots.knots[i];
            let m = entry.stitches.len();
            let mut j: usize = 0;
            while j < m
                invariant
                    counts_wf(self.data),
                    n == self.knots.knots@.len(),
                    0 <= i < n,
                    *entry == self.knots.knots@[i as int],
                    m == entry.stitches@.len(),
                    0 <= j <= m,
                    forall|b: int|
                        0 <= b < j ==> has_count(
                            self.data,
                            self.knots@[i as int].name,
                            (#[trigger] self.knots@[i as int].stitches[b]).name,
                        ),
                decreases m - j,
            {
                match find_count_pos(&self.data, entry.name.as_str(), entry.stitches[j].name.as_str()) {
                    Some(pos) => {
                        proof {
                            crate::follow::lemma_counts_map_at(
                                self.data,
                                pos.0 as int,
                                pos.1 as int,
                            );
                        }
                    },
                    None => {
                        proof {
                            assert(!has_count(
                                self.data,
                                self.knots@[i as int].name,
                                self.knots@[i as int].stitches[j as int].name,
                            ));
                        }
                        return false;
                    },
                }
                j += 1;
            }
            i += 1;
        }
        true
    }

    /// Check executably that this story satisfies the invariant every
    /// operation relies on: well-formed knot set and data, covered counts,
    /// and a position stack that addresses the current stitch's graph.
    ///
    /// A story built by `Story::new` and driven only through this interface
    /// always satisfies it; the check is for stories a host assembled or
    /// deserialised itself.
    pub fn is_well_formed(&self) -> (r: bool)
        ensures
            r == story_wf(*self),
    {
        if self.knots.knots.len() == 0 {
            return false;
        }
        if self.knots.knots[0].stitches.len() == 0 {
            return false;
        }
        if !check_names_unique(&self.knots) {
            return false;
        }
        let n = self.knots.knots.len();
        let mut i: usize = 0;
        while i < n
            invariant
                n == self.knots.knots@.len(),
                0 <= i <= n,
                forall|a: int, b: int|
                    0 <= a < i && 0 <= b < view_knots(self.knots.knots@)[a].stitches.len()
                        ==> items_wf(
                        (#[trigger] view_knots(self.knots.knots@)[a].stitches[b]).root.items,
                    ),
            decreases n - i,
        {
            let entry = &self.knots.knots[i];
            let m = entry.stitches.len();
            let mut j: usize = 0;
            while j < m
                invariant
                    0 <= i < n,
                    n == self.knots.knots@.len(),
                    *entry == self.knots.knots@[i as int],
                    m == entry.stitches@.len(),
                    0 <= j <= m,
                    forall|b: int|
                        0 <= b < j ==> items_wf(
                            (#[trigger] view_stitches(entry.stitches@)[b]).root.items,
                        ),
                decreases m - j,
            {
                if !check_items_wf(&entry.stitches[j].root.items) {
                    proof {
                        let ks = view_knots(self.knots.knots@);
                        assert(ks[i as int].stitches[j as int].root.items
                            == crate::node::view_items(entry.stitches@[j as int].root.items@));
                        assert(!items_wf(ks[i as int].stitches[j as int].root.items));
                        assert(!knot_set_wf(ks));
                    }
                    return false;
                }
                j += 1;
            }
            i += 1;
        }
        if !check_data_wf(&self.data) {
            return false;
        }
        if !self.check_counts_cover() {
            return false;
        }
        if self.started {
            let ki = match self.knots.find_knot(self.current_knot.as_str()) {
                Some(k) => k,
                None => {
                    return false;
                },
            };
            let si = match self.knots.knots[ki].find_stitch(self.current_stitch.as_str()) {
                Some(s) => s,
                None => {
                    proof {
                        lemma_knot_pos(self.knots@, ki as int);
                    }
                    return false;
                },
            };
            if self.stack.len() % 2 != 1 {
                proof {
                    lemma_knot_pos(self.knots@, ki as int);
                }
                return false;
            }
            let fits = check_stack_fits(
                &self.knots.knots[ki].stitches[si].root.items,
                &self.stack,
                0,
            );
            proof {
                lemma_knot_pos(self.knots@, ki as int);
                lemma_stitch_pos(self.knots@, ki as int, si as int);
                assert(story_current_items(*self) == crate::node::view_items(
                    self.knots.knots@[ki as int].stitches@[si as int].root.items@,
                ));
            }
            if !fits {
                return false;
            }
        } else {
            if self.pending_choice.is_some() || self.last_choices.is_some() || self.done {
                return false;
            }
        }
        if self.done != self.ending.is_some() {
            return false;
        }
        match &self.last_choices {
            Some(csd) => {
                if csd.choices.len() == 0 && csd.fallback.is_some() {
                    return false;
                }
            },
            None => {},
        }
        true
    }
}

} // verus!
