//! Choices: what a branch offers the user, and what the host is shown.

use vstd::prelude::*;

use crate::condition::{CondV, Condition};
use crate::line::{duplicate_strings, view_strings, InternalLine, InternalLineV};

verus! {

/// All data of one choice in a branching point.
///
/// `selection_text` is what the user is shown when the choice is offered;
/// `display_text` is what is added to the story text when it is taken. The
/// two may differ: in the script, `visible[only-in-menu] after` selects as
/// `visible only-in-menu` and displays as `visible after`.
#[derive(Debug, PartialEq)]
pub struct InternalChoice {
    /// The line shown when the choice is offered.
    pub selection_text: InternalLine,
    /// The line added to the output when the choice is taken.
    pub display_text: InternalLine,
    /// The condition under which the choice is offered at all.
    pub condition: Option<Condition>,
    /// A sticky choice stays selectable after being taken.
    pub is_sticky: bool,
    /// A fallback choice is never offered: it is taken by itself when no
    /// other choice is eligible.
    pub is_fallback: bool,
    /// The tags of the choice.
    pub tags: Vec<String>,
}

/// The mathematical value of an `InternalChoice`.
#[verifier::ext_equal]
pub struct InternalChoiceV {
    pub selection_text: InternalLineV,
    pub display_text: InternalLineV,
    pub condition: Option<CondV>,
    pub is_sticky: bool,
    pub is_fallback: bool,
    pub tags: Seq<Seq<char>>,
}

impl View for InternalChoice {
    type V = InternalChoiceV;

    open spec fn view(&self) -> InternalChoiceV {
        InternalChoiceV {
            selection_text: self.selection_text@,
            display_text: self.display_text@,
            condition: match &self.condition {
                Some(c) => Some(c@),
                None => None,
            },
            is_sticky: self.is_sticky,
            is_fallback: self.is_fallback,
            tags: view_strings(self.tags@),
        }
    }
}

impl InternalChoice {
    /// A copy of this choice with the same mathematical value.
    pub fn duplicate(&self) -> (r: InternalChoice)
        ensures
            r@ == self@,
    {
        let r = InternalChoice {
            selection_text: self.selection_text.duplicate(),
            display_text: self.display_text.duplicate(),
            condition: match &self.condition {
                Some(c) => Some(c.duplicate()),
                None => None,
            },
            is_sticky: self.is_sticky,
            is_fallback: self.is_fallback,
            tags: duplicate_strings(&self.tags),
        };
        proof {
            assert(r@ =~= self@);
        }
        r
    }
}

/// A choice as presented to the host: its rendered text and its tags.
#[derive(Clone, Debug, PartialEq)]
pub struct Choice {
    /// The rendered selection text.
    pub text: String,
    /// The tags of the choice.
    pub tags: Vec<String>,
}

/// The mathematical value of a presented `Choice`.
#[verifier::ext_equal]
pub struct ChoiceV {
    pub text: Seq<char>,
    pub tags: Seq<Seq<char>>,
}

impl View for Choice {
    type V = ChoiceV;

    open spec fn view(&self) -> ChoiceV {
        ChoiceV { text: self.text@, tags: view_strings(self.tags@) }
    }
}

/// The mathematical value of a presented choice list.
pub open spec fn view_choices(s: Seq<Choice>) -> Seq<ChoiceV> {
    Seq::new(s.len(), |i: int| s[i]@)
}

impl Choice {
    /// A copy of this presented choice with the same mathematical value.
    pub fn duplicate(&self) -> (r: Choice)
        ensures
            r@ == self@,
    {
        let r = Choice { text: self.text.clone(), tags: duplicate_strings(&self.tags) };
        proof {
            assert(r@ =~= self@);
        }
        r
    }
}

/// A copy of a presented choice list with the same mathematical value.
pub fn duplicate_choices(v: &Vec<Choice>) -> (r: Vec<Choice>)
    ensures
        view_choices(r@) == view_choices(v@),
{
    let n = v.len();
    let mut r: Vec<Choice> = Vec::new();
    let mut i: usize = 0;
    while i < n
        invariant
            n == v@.len(),
            0 <= i <= n,
            r@.len() == i,
            forall|j: int| 0 <= j < i ==> (#[trigger] r@[j])@ == v@[j]@,
        decreases n - i,
    {
        let copy = v[i].duplicate();
        r.push(copy);
        i += 1;
    }
    proof {
        assert(view_choices(r@) =~= view_choices(v@));
    }
    r
}

} // verus!
