use vstd::prelude::*;
use linfa::dataset::Pr;

verus! {

/// `linfa::dataset::Pr`, a probability. A verdict only carries such values
/// through; nothing here reads what is inside one.
#[verifier::external_type_specification]
#[verifier::external_body]
pub struct ExPr(Pr);

/// The result of an evaluation: whether the request is safe, the threshold
/// that decided it, and the score that the model gave.
pub struct WarmVerdict {
    safe: bool,
    used_threshold: Pr,
    score: Pr,
}

impl WarmVerdict {
    /// Whether the verdict calls the request safe.
    pub closed spec fn spec_safe(&self) -> bool {
        self.safe
    }

    /// The threshold that the verdict was reached with.
    pub closed spec fn spec_used_threshold(&self) -> Pr {
        self.used_threshold
    }

    /// The score that the verdict was reached with.
    pub closed spec fn spec_score(&self) -> Pr {
        self.score
    }

    /// A verdict holding the three given values.
    pub fn new(safe: bool, used_threshold: Pr, score: Pr) -> (v: Self)
        ensures
            v.spec_safe() == safe,
            v.spec_used_threshold() == used_threshold,
            v.spec_score() == score,
    {
        WarmVerdict { safe, used_threshold, score }
    }

    /// Whether the evaluated request is safe.
    pub fn is_safe(&self) -> (r: bool)
        ensures
            r == self.spec_safe(),
    {
        self.safe
    }

    /// The score that the model gave the request; a high one marks a malicious request.
    pub fn get_score(&self) -> (r: Pr)
        ensures
            r == self.spec_score(),
    {
        self.score
    }

    /// The threshold that decided whether the request is safe.
    pub fn get_used_threshold(&self) -> (r: Pr)
        ensures
            r == self.spec_used_threshold(),
    {
        self.used_threshold
    }
}

} // verus!
