use vstd::prelude::*;

verus! {

/// The significance levels at which a tally can be judged: 10 %, 5 % and 1 %.
/// Each carries a critical value for the distance score, and its own size as
/// a share, for display.
#[derive(Clone, Copy, Debug, PartialEq, Eq, Structural)]
pub enum SignificanceLevel {
    Adot1,
    Adot05,
    Adot01,
}

/// The critical value of a level, in thousandths: 1.21, 1.33 and 1.569.
pub open spec fn critical_thousandths(level: SignificanceLevel) -> nat {
    match level {
        SignificanceLevel::Adot1 => 1210,
        SignificanceLevel::Adot05 => 1330,
        SignificanceLevel::Adot01 => 1569,
    }
}

/// The size of a level, in hundredths: 0.1, 0.05 and 0.01.
pub open spec fn share_hundredths(level: SignificanceLevel) -> nat {
    match level {
        SignificanceLevel::Adot1 => 10,
        SignificanceLevel::Adot05 => 5,
        SignificanceLevel::Adot01 => 1,
    }
}

impl SignificanceLevel {
    /// The critical value of the level, in thousandths. A score passes at the
    /// level where it is strictly below this value.
    pub fn value_thousandths(&self) -> (r: u32)
        ensures
            r == critical_thousandths(*self),
    {
        match self {
            Self::Adot1 => 1210,
            Self::Adot05 => 1330,
            Self::Adot01 => 1569,
        }
    }

    /// The size of the level, in hundredths.
    pub fn perc_hundredths(&self) -> (r: u32)
        ensures
            r == share_hundredths(*self),
    {
        match self {
            Self::Adot1 => 10,
            Self::Adot05 => 5,
            Self::Adot01 => 1,
        }
    }
}

/// The smaller the level, the larger its critical value: a score that is
/// below the critical value of one level is below that of every smaller one.
pub proof fn lemma_smaller_level_larger_value(a: SignificanceLevel, b: SignificanceLevel)
    requires
        share_hundredths(a) < share_hundredths(b),
    ensures
        critical_thousandths(a) > critical_thousandths(b),
{
}

} // verus!
