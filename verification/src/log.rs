//! Warnings and to-do notes gathered while validating and running a story.
//!
//! Warnings never abort processing: they are recorded here for the host to
//! inspect.

use vstd::prelude::*;

verus! {

/// A non-fatal message about the script or its run.
#[derive(Clone, Debug, PartialEq)]
pub enum Warning {
    /// A divert value stood where text was rendered; it was replaced by
    /// empty text.
    PrintedDivertAsText,
    /// A to-do note found in the script.
    TodoComment { comment: String },
    /// A fallback choice that can never be taken, because an unconditional
    /// sticky choice stands before it.
    UnreachableFallback,
    /// A choice condition that can never be true.
    AlwaysFalseChoiceCondition,
}

/// The mathematical value of a `Warning`.
#[verifier::ext_equal]
pub enum WarningV {
    PrintedDivertAsText,
    TodoComment { comment: Seq<char> },
    UnreachableFallback,
    AlwaysFalseChoiceCondition,
}

impl View for Warning {
    type V = WarningV;

    open spec fn view(&self) -> WarningV {
        match self {
            Warning::PrintedDivertAsText => WarningV::PrintedDivertAsText,
            Warning::TodoComment { comment } => WarningV::TodoComment { comment: comment@ },
            Warning::UnreachableFallback => WarningV::UnreachableFallback,
            Warning::AlwaysFalseChoiceCondition => WarningV::AlwaysFalseChoiceCondition,
        }
    }
}

/// The mathematical value of a warning list.
pub open spec fn view_warnings(s: Seq<Warning>) -> Seq<WarningV> {
    Seq::new(s.len(), |i: int| s[i]@)
}

/// The log of warnings that validation and running have gathered.
#[derive(Debug)]
pub struct Logger {
    /// The warnings, oldest first.
    pub warnings: Vec<Warning>,
}

impl View for Logger {
    type V = Seq<WarningV>;

    open spec fn view(&self) -> Seq<WarningV> {
        view_warnings(self.warnings@)
    }
}

impl Logger {
    /// An empty log.
    pub fn new() -> (r: Logger)
        ensures
            r@ == Seq::<WarningV>::empty(),
    {
        let r = Logger { warnings: Vec::new() };
        proof {
            assert(r@ =~= Seq::<WarningV>::empty());
        }
        r
    }

    /// Record one warning at the end of the log.
    pub fn push(&mut self, warning: Warning)
        ensures
            final(self)@ == old(self)@.push(warning@),
    {
        self.warnings.push(warning);
        proof {
            assert(self@ =~= old(self)@.push(warning@));
        }
    }

    /// How many warnings the log holds.
    pub fn len(&self) -> (n: usize)
        ensures
            n == self@.len(),
    {
        self.warnings.len()
    }
}


/// A log only grows: prefix extension is reflexive.
pub proof fn lemma_log_prefix_refl(s: Seq<WarningV>)
    ensures
        s.is_prefix_of(s),
{
    assert(s =~= s.subrange(0, s.len() as int));
}

/// A log only grows: prefix extension is transitive.
pub proof fn lemma_log_prefix_trans(a: Seq<WarningV>, b: Seq<WarningV>, c: Seq<WarningV>)
    requires
        a.is_prefix_of(b),
        b.is_prefix_of(c),
    ensures
        a.is_prefix_of(c),
{
    assert forall|i: int| 0 <= i < a.len() implies a[i] == c.subrange(0, a.len() as int)[i] by {
        assert(a[i] == b.subrange(0, a.len() as int)[i]);
        assert(b[i] == c.subrange(0, b.len() as int)[i]);
    }
    assert(a =~= c.subrange(0, a.len() as int));
}

/// Appending to a log keeps the old entries as a prefix.
pub proof fn lemma_log_prefix_app(a: Seq<WarningV>, w: Seq<WarningV>)
    ensures
        a.is_prefix_of(a + w),
{
    assert(a =~= (a + w).subrange(0, a.len() as int));
}

} // verus!
