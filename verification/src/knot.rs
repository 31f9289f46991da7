//! Knots and stitches: the named sections of a story.

use vstd::prelude::*;

use crate::node::{
    items_counts_only, items_wf, lemma_items_counts_only_refl, lemma_items_counts_only_trans,
    RootNode, RootNodeV,
};
use crate::text::str_eq;

verus! {

/// One stitch: an addressable unit of story content.
///
/// The default stitch of a knot has the empty string as its name.
#[derive(Debug, PartialEq)]
pub struct Stitch {
    /// Name of the stitch; empty for the knot's default stitch.
    pub name: String,
    /// The content of the stitch.
    pub root: RootNode,
}

/// A knot: a named collection of stitches, in script order.
#[derive(Debug, PartialEq)]
pub struct Knot {
    /// Name of the knot.
    pub name: String,
    /// Tags set on the knot.
    pub tags: Vec<String>,
    /// The stitches, in script order. Script order resolves the fall-through
    /// from one stitch to the next.
    pub stitches: Vec<Stitch>,
}

/// All knots of a story, in script order. The first knot is where the story
/// starts.
#[derive(Debug, PartialEq)]
pub struct KnotSet {
    /// The knots, in script order.
    pub knots: Vec<Knot>,
}

/// The mathematical value of a `Stitch`.
#[verifier::ext_equal]
pub struct StitchV {
    pub name: Seq<char>,
    pub root: RootNodeV,
}

/// The mathematical value of a `Knot`.
#[verifier::ext_equal]
pub struct KnotV {
    pub name: Seq<char>,
    pub tags: Seq<Seq<char>>,
    pub stitches: Seq<StitchV>,
}

impl View for Stitch {
    type V = StitchV;

    open spec fn view(&self) -> StitchV {
        StitchV { name: self.name@, root: self.root@ }
    }
}

/// The mathematical value of a stitch list.
pub open spec fn view_stitches(s: Seq<Stitch>) -> Seq<StitchV> {
    Seq::new(s.len(), |i: int| s[i]@)
}

impl View for Knot {
    type V = KnotV;

    open spec fn view(&self) -> KnotV {
        KnotV {
            name: self.name@,
            tags: crate::line::view_strings(self.tags@),
            stitches: view_stitches(self.stitches@),
        }
    }
}

/// The mathematical value of a knot list.
pub open spec fn view_knots(s: Seq<Knot>) -> Seq<KnotV> {
    Seq::new(s.len(), |i: int| s[i]@)
}

impl View for KnotSet {
    type V = Seq<KnotV>;

    open spec fn view(&self) -> Seq<KnotV> {
        view_knots(self.knots@)
    }
}

/// Key uniqueness of a knot set: knot names are unique, and stitch names are
/// unique within each knot.
pub open spec fn knots_unique(ks: Seq<KnotV>) -> bool {
    &&& forall|i: int, k: int| 0 <= i < k < ks.len() ==> (#[trigger] ks[i]).name != (#[trigger] ks[k]).name
    &&& forall|i: int, j: int, k: int|
        0 <= i < ks.len() && 0 <= j < k < ks[i].stitches.len() ==> (#[trigger] ks[i].stitches[j]).name
            != (#[trigger] ks[i].stitches[k]).name
}

/// Structural well-formedness of a knot set: unique names, and every
/// stitch's node graph well formed.
pub open spec fn knot_set_wf(ks: Seq<KnotV>) -> bool {
    &&& knots_unique(ks)
    &&& forall|i: int, j: int|
        0 <= i < ks.len() && 0 <= j < ks[i].stitches.len() ==> items_wf(
            (#[trigger] ks[i].stitches[j]).root.items,
        )
}

/// Whether the set holds a knot with this name.
pub open spec fn has_knot(ks: Seq<KnotV>, name: Seq<char>) -> bool {
    exists|i: int| 0 <= i < ks.len() && ks[i].name == name
}

/// The position of the knot with this name.
pub open spec fn knot_pos(ks: Seq<KnotV>, name: Seq<char>) -> int {
    choose|i: int| 0 <= i < ks.len() && ks[i].name == name
}

/// Whether the knot at this position holds a stitch with this name.
pub open spec fn knot_has_stitch(k: KnotV, stitch: Seq<char>) -> bool {
    exists|j: int| 0 <= j < k.stitches.len() && k.stitches[j].name == stitch
}

/// The position of the stitch with this name in a knot.
pub open spec fn stitch_pos(k: KnotV, stitch: Seq<char>) -> int {
    choose|j: int| 0 <= j < k.stitches.len() && k.stitches[j].name == stitch
}

/// Whether the set holds this knot and stitch.
pub open spec fn has_location(ks: Seq<KnotV>, knot: Seq<char>, stitch: Seq<char>) -> bool {
    has_knot(ks, knot) && knot_has_stitch(ks[knot_pos(ks, knot)], stitch)
}

impl KnotSet {
    /// An empty knot set.
    pub fn new() -> (r: KnotSet)
        ensures
            r@ =~= Seq::<KnotV>::empty(),
    {
        let r = KnotSet { knots: Vec::new() };
        proof {
            assert(r@ =~= Seq::<KnotV>::empty());
        }
        r
    }

    /// Add a knot at the end of the set.
    pub fn add_knot(&mut self, knot: Knot)
        ensures
            final(self)@ =~= old(self)@.push(knot@),
    {
        self.knots.push(knot);
        proof {
            assert(self@ =~= old(self)@.push(self.knots@.last()@));
        }
    }

    /// Find the position of the knot with this name.
    pub fn find_knot(&self, name: &str) -> (r: Option<usize>)
        ensures
            match r {
                Some(i) => i < self@.len() && self@[i as int].name == name@,
                None => !has_knot(self@, name@),
            },
    {
        let n = self.knots.len();
        let mut i: usize = 0;
        while i < n
            invariant
                n == self.knots@.len(),
                0 <= i <= n,
                forall|j: int| 0 <= j < i ==> (#[trigger] view_knots(self.knots@)[j]).name != name@,
            decreases n - i,
        {
            if str_eq(self.knots[i].name.as_str(), name) {
                return Some(i);
            }
            i += 1;
        }
        None
    }
}

impl Knot {
    /// A knot with this name and no stitches yet.
    pub fn new(name: &str) -> (r: Knot)
        ensures
            r@.name == name@,
            r@.tags =~= Seq::<Seq<char>>::empty(),
            r@.stitches =~= Seq::<StitchV>::empty(),
    {
        let r = Knot { name: name.to_owned(), tags: Vec::new(), stitches: Vec::new() };
        proof {
            assert(r@.tags =~= Seq::<Seq<char>>::empty());
            assert(r@.stitches =~= Seq::<StitchV>::empty());
        }
        r
    }

    /// Add a stitch at the end of the knot.
    pub fn add_stitch(&mut self, name: &str, root: RootNode)
        ensures
            final(self)@.name == old(self)@.name,
            final(self)@.tags == old(self)@.tags,
            final(self)@.stitches =~= old(self)@.stitches.push(
                StitchV { name: name@, root: root@ },
            ),
    {
        let ghost root_v = root@;
        self.stitches.push(Stitch { name: name.to_owned(), root });
        proof {
            assert(self@.stitches =~= old(self)@.stitches.push(
                StitchV { name: name@, root: root_v },
            ));
        }
    }

    /// Find the position of the stitch with this name.
    pub fn find_stitch(&self, name: &str) -> (r: Option<usize>)
        ensures
            match r {
                Some(j) => j < self@.stitches.len() && self@.stitches[j as int].name == name@,
                None => !knot_has_stitch(self@, name@),
            },
    {
        let n = self.stitches.len();
        let mut i: usize = 0;
        while i < n
            invariant
                n == self.stitches@.len(),
                0 <= i <= n,
                forall|j: int|
                    0 <= j < i ==> (#[trigger] view_stitches(self.stitches@)[j]).name != name@,
            decreases n - i,
        {
            if str_eq(self.stitches[i].name.as_str(), name) {
                return Some(i);
            }
            i += 1;
        }
        None
    }
}


impl Stitch {
    /// A copy of this stitch with the same mathematical value.
    pub fn duplicate(&self) -> (r: Stitch)
        ensures
            r@ == self@,
    {
        Stitch { name: self.name.clone(), root: crate::node::duplicate_root(&self.root) }
    }
}

impl Knot {
    /// A copy of this knot with the same mathematical value.
    pub fn duplicate(&self) -> (r: Knot)
        ensures
            r@ == self@,
    {
        let n = self.stitches.len();
        let mut stitches: Vec<Stitch> = Vec::new();
        let mut i: usize = 0;
        while i < n
            invariant
                n == self.stitches@.len(),
                0 <= i <= n,
                stitches@.len() == i,
                forall|j: int| 0 <= j < i ==> (#[trigger] stitches@[j])@ == self.stitches@[j]@,
            decreases n - i,
        {
            let copy = self.stitches[i].duplicate();
            stitches.push(copy);
            i += 1;
        }
        let r = Knot {
            name: self.name.clone(),
            tags: crate::line::duplicate_strings(&self.tags),
            stitches,
        };
        proof {
            assert(view_stitches(r.stitches@) =~= view_stitches(self.stitches@));
            assert(r@ =~= self@);
        }
        r
    }
}

impl KnotSet {
    /// A copy of this knot set with the same mathematical value.
    pub fn duplicate(&self) -> (r: KnotSet)
        ensures
            r@ == self@,
    {
        let n = self.knots.len();
        let mut knots: Vec<Knot> = Vec::new();
        let mut i: usize = 0;
        while i < n
            invariant
                n == self.knots@.len(),
                0 <= i <= n,
                knots@.len() == i,
                forall|j: int| 0 <= j < i ==> (#[trigger] knots@[j])@ == self.knots@[j]@,
            decreases n - i,
        {
            let copy = self.knots[i].duplicate();
            knots.push(copy);
            i += 1;
        }
        let r = KnotSet { knots };
        proof {
            assert(r@ =~= self@);
        }
        r
    }
}


/// Whether two knot-set values differ at most in visit counts: same names,
/// tags, addresses and content everywhere, only `num_visited` fields free.
pub open spec fn knots_counts_only(a: Seq<KnotV>, b: Seq<KnotV>) -> bool {
    &&& b.len() == a.len()
    &&& forall|i: int|
        0 <= i < a.len() ==> (#[trigger] b[i]).name == a[i].name && b[i].tags == a[i].tags
            && b[i].stitches.len() == a[i].stitches.len()
    &&& forall|i: int, j: int|
        0 <= i < a.len() && 0 <= j < a[i].stitches.len() ==> (#[trigger] b[i].stitches[j]).name
            == a[i].stitches[j].name && b[i].stitches[j].root.address
            == a[i].stitches[j].root.address && items_counts_only(
            a[i].stitches[j].root.items,
            b[i].stitches[j].root.items,
        )
}

/// Differing at most in visit counts is reflexive, over a knot set.
pub proof fn lemma_knots_counts_only_refl(a: Seq<KnotV>)
    ensures
        knots_counts_only(a, a),
{
    assert forall|i: int, j: int|
        0 <= i < a.len() && 0 <= j < a[i].stitches.len() implies (#[trigger] a[i].stitches[j]).name
        == a[i].stitches[j].name && a[i].stitches[j].root.address == a[i].stitches[j].root.address
        && items_counts_only(a[i].stitches[j].root.items, a[i].stitches[j].root.items) by {
        lemma_items_counts_only_refl(a[i].stitches[j].root.items);
    }
}

/// Differing at most in visit counts is transitive, over a knot set.
pub proof fn lemma_knots_counts_only_trans(a: Seq<KnotV>, b: Seq<KnotV>, c: Seq<KnotV>)
    requires
        knots_counts_only(a, b),
        knots_counts_only(b, c),
    ensures
        knots_counts_only(a, c),
{
    assert forall|i: int, j: int|
        0 <= i < a.len() && 0 <= j < a[i].stitches.len() implies (#[trigger] c[i].stitches[j]).name
        == a[i].stitches[j].name && c[i].stitches[j].root.address == a[i].stitches[j].root.address
        && items_counts_only(a[i].stitches[j].root.items, c[i].stitches[j].root.items) by {
        assert(b[i].stitches[j].name == a[i].stitches[j].name);
        assert(c[i].stitches[j].name == b[i].stitches[j].name);
        lemma_items_counts_only_trans(
            a[i].stitches[j].root.items,
            b[i].stitches[j].root.items,
            c[i].stitches[j].root.items,
        );
    }
}

} // verus!
