//! Node tree structure for branching content.

use vstd::prelude::*;

use crate::address::{Address, AddressKind, AddressV};
use crate::choice::{InternalChoice, InternalChoiceV};
use crate::line::{ChunkV, InternalLine, InternalLineV, LineChunk};

verus! {

/// Root of a single stitch, containing all text and branching content
/// belonging to it.
#[derive(Debug, PartialEq)]
pub struct RootNode {
    /// Address of the stitch that this node belongs to.
    pub address: Address,
    /// Content grouped under this stitch.
    pub items: Vec<NodeItem>,
}

/// Branch from a set of choices in a stitch.
///
/// Largely identical to `RootNode` but also carries the choice leading to
/// it. The first item is always the display-text line of that choice.
#[derive(Debug, PartialEq)]
pub struct Branch {
    /// Choice which represents selecting this branch from a set.
    pub choice: InternalChoice,
    /// Content grouped under this branch.
    pub items: Vec<NodeItem>,
    /// Number of times the branch has been selected in the story.
    pub num_visited: u32,
}

/// Every item that a stitch contains is either a line of text or a
/// branching point at which the user selects a branch to continue.
#[derive(Debug, PartialEq)]
pub enum NodeItem {
    Line(InternalLine),
    BranchingPoint(Vec<Branch>),
}

/// The mathematical value of a `NodeItem`.
#[verifier::ext_equal]
pub enum ItemV {
    Line(InternalLineV),
    BranchingPoint(Seq<BranchV>),
}

/// The mathematical value of a `Branch`.
#[verifier::ext_equal]
pub struct BranchV {
    pub choice: InternalChoiceV,
    pub items: Seq<ItemV>,
    pub num_visited: u32,
}

/// The mathematical value of a `RootNode`.
#[verifier::ext_equal]
pub struct RootNodeV {
    pub address: AddressV,
    pub items: Seq<ItemV>,
}

/// The mathematical value of a node item.
pub open spec fn view_item(item: NodeItem) -> ItemV
    decreases item,
{
    match item {
        NodeItem::Line(line) => ItemV::Line(line@),
        NodeItem::BranchingPoint(branches) => ItemV::BranchingPoint(view_branches(branches@)),
    }
}

/// The mathematical value of an item list.
pub open spec fn view_items(s: Seq<NodeItem>) -> Seq<ItemV>
    decreases s,
{
    if s.len() == 0 {
        Seq::empty()
    } else {
        seq![view_item(s[0])] + view_items(s.drop_first())
    }
}

/// The mathematical value of a branch.
pub open spec fn view_branch(b: Branch) -> BranchV
    decreases b,
{
    BranchV { choice: b.choice@, items: view_items(b.items@), num_visited: b.num_visited }
}

/// The mathematical value of a branch list.
pub open spec fn view_branches(s: Seq<Branch>) -> Seq<BranchV>
    decreases s,
{
    if s.len() == 0 {
        Seq::empty()
    } else {
        seq![view_branch(s[0])] + view_branches(s.drop_first())
    }
}

/// `view_items` maps `view_item` over the list.
pub proof fn lemma_view_items(s: Seq<NodeItem>)
    ensures
        view_items(s).len() == s.len(),
        forall|i: int| 0 <= i < s.len() ==> view_items(s)[i] == view_item(s[i]),
    decreases s.len(),
{
    if s.len() > 0 {
        lemma_view_items(s.drop_first());
        assert forall|i: int| 0 <= i < s.len() implies view_items(s)[i] == view_item(s[i]) by {
            if i > 0 {
                assert(view_items(s.drop_first())[i - 1] == view_item(s.drop_first()[i - 1]));
                assert(s.drop_first()[i - 1] == s[i]);
            }
        }
    }
}

/// `view_branches` maps `view_branch` over the list.
pub proof fn lemma_view_branches(s: Seq<Branch>)
    ensures
        view_branches(s).len() == s.len(),
        forall|i: int| 0 <= i < s.len() ==> view_branches(s)[i] == view_branch(s[i]),
    decreases s.len(),
{
    if s.len() > 0 {
        lemma_view_branches(s.drop_first());
        assert forall|i: int| 0 <= i < s.len() implies view_branches(s)[i] == view_branch(s[i]) by {
            if i > 0 {
                assert(view_branches(s.drop_first())[i - 1] == view_branch(s.drop_first()[i - 1]));
                assert(s.drop_first()[i - 1] == s[i]);
            }
        }
    }
}

impl View for NodeItem {
    type V = ItemV;

    open spec fn view(&self) -> ItemV {
        view_item(*self)
    }
}

impl View for Branch {
    type V = BranchV;

    open spec fn view(&self) -> BranchV {
        view_branch(*self)
    }
}

impl View for RootNode {
    type V = RootNodeV;

    open spec fn view(&self) -> RootNodeV {
        RootNodeV { address: self.address@, items: view_items(self.items@) }
    }
}

impl NodeItem {
    /// Whether this item is a branching point.
    pub fn is_branching_choice(&self) -> (r: bool)
        ensures
            r == (self@ is BranchingPoint),
    {
        match self {
            NodeItem::BranchingPoint(..) => true,
            _ => false,
        }
    }

    /// Whether this item is a line of text.
    pub fn is_line(&self) -> (r: bool)
        ensures
            r == (self@ is Line),
    {
        match self {
            NodeItem::Line(..) => true,
            _ => false,
        }
    }
}

/// Structural invariants of an item: every branching point has at least one
/// branch, at most one fallback which stands last, and every branch starts
/// with its choice's display-text line.
pub open spec fn item_wf(item: ItemV) -> bool
    decreases item,
{
    match item {
        ItemV::Line(_) => true,
        ItemV::BranchingPoint(branches) => {
            &&& branches.len() >= 1
            &&& forall|i: int| 0 <= i < branches.len() ==> branch_wf(#[trigger] branches[i])
            &&& forall|i: int|
                0 <= i < branches.len() && (#[trigger] branches[i]).choice.is_fallback ==> i
                    == branches.len() - 1
        },
    }
}

/// Structural invariants of a branch: it has at least one item, the first
/// item is a line, and all nested items are well formed.
pub open spec fn branch_wf(b: BranchV) -> bool
    decreases b,
{
    &&& b.items.len() >= 1
    &&& b.items[0] is Line
    &&& forall|i: int| 0 <= i < b.items.len() ==> item_wf(#[trigger] b.items[i])
}

/// Structural invariants of an item list.
pub open spec fn items_wf(items: Seq<ItemV>) -> bool {
    forall|i: int| 0 <= i < items.len() ==> item_wf(#[trigger] items[i])
}

/// Check the structural invariants of one item.
pub fn check_item_wf(item: &NodeItem) -> (r: bool)
    ensures
        r == item_wf(item@),
    decreases *item, 0int,
{
    match item {
        NodeItem::Line(_) => true,
        NodeItem::BranchingPoint(branches) => {
            proof {
                lemma_view_branches(branches@);
            }
            let n = branches.len();
            if n == 0 {
                return false;
            }
            let mut i: usize = 0;
            while i < n
                invariant
                    *item == NodeItem::BranchingPoint(*branches),
                    item@ == ItemV::BranchingPoint(view_branches(branches@)),
                    n >= 1,
                    n == branches@.len(),
                    n == view_branches(branches@).len(),
                    forall|j: int|
                        0 <= j < n ==> view_branches(branches@)[j] == view_branch(branches@[j]),
                    0 <= i <= n,
                    forall|j: int| 0 <= j < i ==> branch_wf(#[trigger] view_branches(branches@)[j]),
                    forall|j: int|
                        0 <= j < i && (#[trigger] view_branches(branches@)[j]).choice.is_fallback
                            ==> j == n - 1,
                decreases n - i,
            {
                proof {
                    assert(decreases_to!(*item => *branches));
                    assert(decreases_to!(*branches => branches@));
                    assert(decreases_to!(branches@ => branches@[i as int]));
                }
                if !check_branch_wf(&branches[i]) {
                    proof {
                        assert(!branch_wf(view_branches(branches@)[i as int]));
                    }
                    return false;
                }
                if branches[i].choice.is_fallback && i != n - 1 {
                    proof {
                        assert(view_branches(branches@)[i as int].choice.is_fallback);
                    }
                    return false;
                }
                i += 1;
            }
            true
        },
    }
}

/// Check the structural invariants of one branch.
pub fn check_branch_wf(b: &Branch) -> (r: bool)
    ensures
        r == branch_wf(b@),
    decreases *b, 0int,
{
    proof {
        lemma_view_items(b.items@);
    }
    let n = b.items.len();
    if n == 0 {
        return false;
    }
    let first_is_line = b.items[0].is_line();
    if !first_is_line {
        return false;
    }
    check_items_wf_from(&b.items, 0)
}

/// Check the structural invariants of the items from position `i` on.
pub fn check_items_wf_from(items: &Vec<NodeItem>, i: usize) -> (r: bool)
    ensures
        r == forall|j: int|
            i <= j < items@.len() ==> item_wf(#[trigger] view_items(items@)[j]),
    decreases *items, items@.len() - i,
{
    proof {
        lemma_view_items(items@);
    }
    if i >= items.len() {
        return true;
    }
    if !check_item_wf(&items[i]) {
        proof {
            assert(!item_wf(view_items(items@)[i as int]));
        }
        return false;
    }
    check_items_wf_from(items, i + 1)
}

/// Check the structural invariants of an item list.
pub fn check_items_wf(items: &Vec<NodeItem>) -> (r: bool)
    ensures
        r == items_wf(view_items(items@)),
{
    proof {
        lemma_view_items(items@);
    }
    check_items_wf_from(items, 0)
}

/// Builder for a `RootNode`.
///
/// Performs no validation of the content; the story constructor checks the
/// finished graph.
pub struct RootNodeBuilder {
    /// Address of the stitch under construction.
    pub address: Address,
    /// Content gathered so far.
    pub items: Vec<NodeItem>,
}

impl RootNodeBuilder {
    /// A builder for the stitch at this knot and stitch name.
    pub fn from_address(knot: &str, stitch: &str) -> (r: RootNodeBuilder)
        ensures
            r.address@ == AddressV::Validated(
                crate::address::AddressKindV::Location { knot: knot@, stitch: stitch@ },
            ),
            r.items@ =~= Seq::<NodeItem>::empty(),
    {
        let address = Address::Validated(
            AddressKind::Location { knot: knot.to_owned(), stitch: stitch.to_owned() },
        );
        RootNodeBuilder { address, items: Vec::new() }
    }

    /// A builder for an anonymous stitch, useful as a scratch node.
    pub fn empty() -> (r: RootNodeBuilder)
        ensures
            r.address@ == AddressV::Validated(
                crate::address::AddressKindV::Location {
                    knot: Seq::<char>::empty(),
                    stitch: Seq::<char>::empty(),
                },
            ),
            r.items@ =~= Seq::<NodeItem>::empty(),
    {
        proof {
            reveal_strlit("");
            assert(""@ =~= Seq::<char>::empty());
        }
        RootNodeBuilder::from_address("", "")
    }

    /// Finish the node.
    pub fn build(self) -> (r: RootNode)
        ensures
            r@.address == self.address@,
            r@.items == view_items(self.items@),
    {
        RootNode { address: self.address, items: self.items }
    }

    /// Add a branching point holding this branch set.
    pub fn add_branching_choice(&mut self, branching_set: Vec<Branch>)
        ensures
            final(self).address == old(self).address,
            final(self).items@ == old(self).items@.push(NodeItem::BranchingPoint(branching_set)),
    {
        self.add_item(NodeItem::BranchingPoint(branching_set));
    }

    /// Add one item.
    pub fn add_item(&mut self, item: NodeItem)
        ensures
            final(self).address == old(self).address,
            final(self).items@ == old(self).items@.push(item),
    {
        self.items.push(item);
    }

    /// Add a line of text.
    pub fn add_line(&mut self, line: InternalLine)
        ensures
            final(self).address == old(self).address,
            final(self).items@ == old(self).items@.push(NodeItem::Line(line)),
    {
        self.add_item(NodeItem::Line(line));
    }

    /// Add one item, builder style.
    pub fn with_item(self, item: NodeItem) -> (r: RootNodeBuilder)
        ensures
            r.address == self.address,
            r.items@ == self.items@.push(item),
    {
        let mut items = self.items;
        items.push(item);
        RootNodeBuilder { address: self.address, items }
    }

    /// Add a branching point, builder style.
    pub fn with_branching_choice(self, branching_choice_set: NodeItem) -> (r: RootNodeBuilder)
        ensures
            r.address == self.address,
            r.items@ == self.items@.push(branching_choice_set),
    {
        self.with_item(branching_choice_set)
    }

    /// Add a line holding one chunk, builder style.
    pub fn with_line_chunk(self, chunk: LineChunk) -> (r: RootNodeBuilder)
        ensures
            r.address == self.address,
            r.items@.len() == self.items@.len() + 1,
            r.items@.subrange(0, self.items@.len() as int) == self.items@,
            view_item(r.items@.last()) matches ItemV::Line(l) && l.chunks =~= seq![chunk@] && l.divert is None
                && !l.glue_begin && !l.glue_end && l.tags =~= Seq::<Seq<char>>::empty(),
    {
        let line = InternalLine::from_chunk(chunk);
        let r = self.with_item(NodeItem::Line(line));
        proof {
            assert(r.items@.subrange(0, r.items@.len() - 1) =~= r.items@.drop_last());
        }
        r
    }

    /// Add a line of plain text, builder style.
    pub fn with_text_line_chunk(self, content: &str) -> (r: RootNodeBuilder)
        ensures
            r.address == self.address,
            r.items@.len() == self.items@.len() + 1,
            r.items@.subrange(0, self.items@.len() as int) == self.items@,
            view_item(r.items@.last()) matches ItemV::Line(l) && l.chunks =~= seq![
                ChunkV::Text(content@),
            ] && l.divert is None
                && !l.glue_begin && !l.glue_end && l.tags =~= Seq::<Seq<char>>::empty(),
    {
        let line = InternalLine::from_string(content);
        let r = self.with_item(NodeItem::Line(line));
        proof {
            assert(r.items@.subrange(0, r.items@.len() - 1) =~= r.items@.drop_last());
        }
        r
    }
}

/// Builder for a `Branch`.
///
/// Created from the choice that spawns the branch. The display-text line of
/// the choice becomes the branch's first item, and the visit count starts
/// at zero.
pub struct BranchBuilder {
    /// The choice leading to the branch.
    pub choice: InternalChoice,
    /// Content gathered so far.
    pub items: Vec<NodeItem>,
}

impl BranchBuilder {
    /// A builder seeded with the display-text line of the choice.
    pub fn from_choice(choice: InternalChoice) -> (r: BranchBuilder)
        ensures
            r.choice@ == choice@,
            view_items(r.items@) =~= seq![ItemV::Line(choice@.display_text)],
    {
        let line = choice.display_text.duplicate();
        let mut items: Vec<NodeItem> = Vec::new();
        items.push(NodeItem::Line(line));
        let r = BranchBuilder { choice, items };
        proof {
            lemma_view_items(r.items@);
        }
        r
    }

    /// Finish the branch, with its visit count at zero.
    pub fn build(self) -> (r: Branch)
        ensures
            r@.choice == self.choice@,
            r@.items == view_items(self.items@),
            r@.num_visited == 0,
    {
        Branch { choice: self.choice, items: self.items, num_visited: 0 }
    }

    /// Add a branching point holding this branch set.
    pub fn add_branching_choice(&mut self, branching_set: Vec<Branch>)
        ensures
            final(self).choice == old(self).choice,
            final(self).items@ == old(self).items@.push(NodeItem::BranchingPoint(branching_set)),
    {
        self.add_item(NodeItem::BranchingPoint(branching_set));
    }

    /// Add one item.
    pub fn add_item(&mut self, item: NodeItem)
        ensures
            final(self).choice == old(self).choice,
            final(self).items@ == old(self).items@.push(item),
    {
        self.items.push(item);
    }

    /// Add a line of text.
    pub fn add_line(&mut self, line: InternalLine)
        ensures
            final(self).choice == old(self).choice,
            final(self).items@ == old(self).items@.push(NodeItem::Line(line)),
    {
        self.add_item(NodeItem::Line(line));
    }

    /// Add one item, builder style.
    pub fn with_item(self, item: NodeItem) -> (r: BranchBuilder)
        ensures
            r.choice == self.choice,
            r.items@ == self.items@.push(item),
    {
        let mut items = self.items;
        items.push(item);
        BranchBuilder { choice: self.choice, items }
    }

    /// Add a branching point, builder style.
    pub fn with_branching_choice(self, branching_choice_set: NodeItem) -> (r: BranchBuilder)
        ensures
            r.choice == self.choice,
            r.items@ == self.items@.push(branching_choice_set),
    {
        self.with_item(branching_choice_set)
    }

    /// Add a line of plain text, builder style.
    pub fn with_text_line_chunk(self, content: &str) -> (r: BranchBuilder)
        ensures
            r.choice == self.choice,
            r.items@.len() == self.items@.len() + 1,
            r.items@.subrange(0, self.items@.len() as int) == self.items@,
            view_item(r.items@.last()) matches ItemV::Line(l) && l.chunks =~= seq![
                ChunkV::Text(content@),
            ] && l.divert is None
                && !l.glue_begin && !l.glue_end && l.tags =~= Seq::<Seq<char>>::empty(),
    {
        let line = InternalLine::from_string(content);
        let r = self.with_item(NodeItem::Line(line));
        proof {
            assert(r.items@.subrange(0, r.items@.len() - 1) =~= r.items@.drop_last());
        }
        r
    }
}

/// Builder for the branch set of one branching point.
pub struct BranchingPointBuilder {
    /// The branches gathered so far.
    pub items: Vec<Branch>,
}

impl BranchingPointBuilder {
    /// An empty branch set.
    pub fn new() -> (r: BranchingPointBuilder)
        ensures
            r.items@ =~= Seq::<Branch>::empty(),
    {
        BranchingPointBuilder { items: Vec::new() }
    }

    /// Add one branch, builder style.
    pub fn with_branch(self, choice: Branch) -> (r: BranchingPointBuilder)
        ensures
            r.items@ == self.items@.push(choice),
    {
        let mut items = self.items;
        items.push(choice);
        BranchingPointBuilder { items }
    }

    /// Finish the branching point.
    pub fn build(self) -> (r: NodeItem)
        ensures
            r == NodeItem::BranchingPoint(self.items),
    {
        NodeItem::BranchingPoint(self.items)
    }
}


/// A copy of a node item with the same mathematical value.
pub fn duplicate_item(item: &NodeItem) -> (r: NodeItem)
    ensures
        r@ == item@,
    decreases *item, 1int,
{
    match item {
        NodeItem::Line(line) => NodeItem::Line(line.duplicate()),
        NodeItem::BranchingPoint(branches) => {
            proof {
                assert(decreases_to!(*item => *branches));
            }
            NodeItem::BranchingPoint(duplicate_branches(branches))
        },
    }
}

/// A copy of a branch with the same mathematical value.
pub fn duplicate_branch(b: &Branch) -> (r: Branch)
    ensures
        r@ == b@,
    decreases *b, 1int,
{
    let r = Branch {
        choice: b.choice.duplicate(),
        items: duplicate_items(&b.items),
        num_visited: b.num_visited,
    };
    proof {
        assert(r@ =~= b@);
    }
    r
}

/// A copy of an item list with the same mathematical value.
pub fn duplicate_items(v: &Vec<NodeItem>) -> (r: Vec<NodeItem>)
    ensures
        view_items(r@) == view_items(v@),
    decreases *v, 0int,
{
    let n = v.len();
    let mut r: Vec<NodeItem> = Vec::new();
    let mut i: usize = 0;
    while i < n
        invariant
            n == v@.len(),
            0 <= i <= n,
            r@.len() == i,
            forall|j: int| 0 <= j < i ==> view_item(#[trigger] r@[j]) == view_item(v@[j]),
        decreases n - i,
    {
        proof {
            assert(decreases_to!(*v => v@));
            assert(decreases_to!(v@ => v@[i as int]));
        }
        let copy = duplicate_item(&v[i]);
        r.push(copy);
        i += 1;
    }
    proof {
        lemma_view_items(r@);
        lemma_view_items(v@);
        assert(view_items(r@) =~= view_items(v@));
    }
    r
}

/// A copy of a branch list with the same mathematical value.
pub fn duplicate_branches(v: &Vec<Branch>) -> (r: Vec<Branch>)
    ensures
        view_branches(r@) == view_branches(v@),
    decreases *v, 0int,
{
    let n = v.len();
    let mut r: Vec<Branch> = Vec::new();
    let mut i: usize = 0;
    while i < n
        invariant
            n == v@.len(),
            0 <= i <= n,
            r@.len() == i,
            forall|j: int| 0 <= j < i ==> view_branch(#[trigger] r@[j]) == view_branch(v@[j]),
        decreases n - i,
    {
        proof {
            assert(decreases_to!(*v => v@));
            assert(decreases_to!(v@ => v@[i as int]));
        }
        let copy = duplicate_branch(&v[i]);
        r.push(copy);
        i += 1;
    }
    proof {
        lemma_view_branches(r@);
        lemma_view_branches(v@);
        assert(view_branches(r@) =~= view_branches(v@));
    }
    r
}

/// A copy of a root node with the same mathematical value.
pub fn duplicate_root(node: &RootNode) -> (r: RootNode)
    ensures
        r@ == node@,
{
    let r = RootNode { address: node.address.duplicate(), items: duplicate_items(&node.items) };
    proof {
        assert(r@ =~= node@);
    }
    r
}


/// Whether two items differ at most in visit counts: same lines, same
/// choices, same structure everywhere.
pub open spec fn item_counts_only(a: ItemV, b: ItemV) -> bool
    decreases a,
{
    match (a, b) {
        (ItemV::Line(l1), ItemV::Line(l2)) => l2 == l1,
        (ItemV::BranchingPoint(x), ItemV::BranchingPoint(y)) => x.len() == y.len() && forall|
            i: int,
        | 0 <= i < x.len() ==> branch_counts_only(#[trigger] x[i], y[i]),
        _ => false,
    }
}

/// Whether two branches differ at most in visit counts.
pub open spec fn branch_counts_only(a: BranchV, b: BranchV) -> bool
    decreases a,
{
    &&& b.choice == a.choice
    &&& b.items.len() == a.items.len()
    &&& forall|i: int| 0 <= i < a.items.len() ==> item_counts_only(#[trigger] a.items[i], b.items[i])
}

/// Whether two item lists differ at most in visit counts.
pub open spec fn items_counts_only(a: Seq<ItemV>, b: Seq<ItemV>) -> bool {
    &&& b.len() == a.len()
    &&& forall|i: int| 0 <= i < a.len() ==> item_counts_only(#[trigger] a[i], b[i])
}

/// Differing at most in visit counts is reflexive.
pub proof fn lemma_item_counts_only_refl(a: ItemV)
    ensures
        item_counts_only(a, a),
    decreases a, 1int,
{
    match a {
        ItemV::Line(_) => {},
        ItemV::BranchingPoint(x) => {
            assert forall|i: int| 0 <= i < x.len() implies branch_counts_only(
                #[trigger] x[i],
                x[i],
            ) by {
                lemma_branch_counts_only_refl(x[i]);
            }
        },
    }
}

/// Differing at most in visit counts is reflexive.
pub proof fn lemma_branch_counts_only_refl(a: BranchV)
    ensures
        branch_counts_only(a, a),
    decreases a, 0int,
{
    assert forall|i: int| 0 <= i < a.items.len() implies item_counts_only(
        #[trigger] a.items[i],
        a.items[i],
    ) by {
        lemma_item_counts_only_refl(a.items[i]);
    }
}

/// Differing at most in visit counts is transitive.
pub proof fn lemma_item_counts_only_trans(a: ItemV, b: ItemV, c: ItemV)
    requires
        item_counts_only(a, b),
        item_counts_only(b, c),
    ensures
        item_counts_only(a, c),
    decreases a, 1int,
{
    match (a, b, c) {
        (ItemV::BranchingPoint(x), ItemV::BranchingPoint(y), ItemV::BranchingPoint(z)) => {
            assert forall|i: int| 0 <= i < x.len() implies branch_counts_only(
                #[trigger] x[i],
                z[i],
            ) by {
                assert(branch_counts_only(x[i], y[i]));
                assert(branch_counts_only(y[i], z[i]));
                lemma_branch_counts_only_trans(x[i], y[i], z[i]);
            }
        },
        _ => {},
    }
}

/// Differing at most in visit counts is transitive.
pub proof fn lemma_branch_counts_only_trans(a: BranchV, b: BranchV, c: BranchV)
    requires
        branch_counts_only(a, b),
        branch_counts_only(b, c),
    ensures
        branch_counts_only(a, c),
    decreases a, 0int,
{
    assert forall|i: int| 0 <= i < a.items.len() implies item_counts_only(
        #[trigger] a.items[i],
        c.items[i],
    ) by {
        assert(item_counts_only(a.items[i], b.items[i]));
        assert(item_counts_only(b.items[i], c.items[i]));
        lemma_item_counts_only_trans(a.items[i], b.items[i], c.items[i]);
    }
}

/// Differing at most in visit counts is reflexive, over a whole list.
pub proof fn lemma_items_counts_only_refl(a: Seq<ItemV>)
    ensures
        items_counts_only(a, a),
{
    assert forall|i: int| 0 <= i < a.len() implies item_counts_only(#[trigger] a[i], a[i]) by {
        lemma_item_counts_only_refl(a[i]);
    }
}

/// Differing at most in visit counts is transitive, over a whole list.
pub proof fn lemma_items_counts_only_trans(a: Seq<ItemV>, b: Seq<ItemV>, c: Seq<ItemV>)
    requires
        items_counts_only(a, b),
        items_counts_only(b, c),
    ensures
        items_counts_only(a, c),
{
    assert forall|i: int| 0 <= i < a.len() implies item_counts_only(#[trigger] a[i], c[i]) by {
        assert(item_counts_only(a[i], b[i]));
        assert(item_counts_only(b[i], c[i]));
        lemma_item_counts_only_trans(a[i], b[i], c[i]);
    }
}

} // verus!
