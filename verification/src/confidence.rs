//! Confidence tiers: a closed, totally ordered classification of how likely a
//! raw pattern hit is a genuine instance of its format.

use vstd::prelude::*;

verus! {

/// How likely a match is a true positive. `High` implies the fewest false positives.
#[derive(Clone, Copy, Debug, PartialEq, Eq, Structural)]
pub enum Confidence {
    Low,
    Medium,
    High,
}

impl Confidence {
    /// Position of the tier in the total order: `Low` is 0, `High` is 2.
    pub open spec fn rank(self) -> nat {
        match self {
            Confidence::Low => 0,
            Confidence::Medium => 1,
            Confidence::High => 2,
        }
    }

    /// The tier's display text.
    pub open spec fn label_text(self) -> Seq<char> {
        match self {
            Confidence::Low => "low"@,
            Confidence::Medium => "medium"@,
            Confidence::High => "high"@,
        }
    }

    /// The tier as a display string: `low`, `medium` or `high`.
    pub fn label(self) -> (s: String)
        ensures
            s@ == self.label_text(),
    {
        match self {
            Confidence::Low => "low".to_owned(),
            Confidence::Medium => "medium".to_owned(),
            Confidence::High => "high".to_owned(),
        }
    }

    /// Executable counterpart of [`Confidence::rank`].
    pub fn level(self) -> (r: u8)
        ensures
            r == self.rank(),
    {
        match self {
            Confidence::Low => 0,
            Confidence::Medium => 1,
            Confidence::High => 2,
        }
    }
}

} // verus!
