use vstd::prelude::*;

verus! {

/// The error correction level of a QR Code symbol.
#[derive(Clone, Copy, PartialEq, Eq, Structural, Debug)]
pub enum EccLevel {
    /// Tolerates about 7% erroneous codewords.
    Low,
    /// Tolerates about 15% erroneous codewords.
    Medium,
    /// Tolerates about 25% erroneous codewords.
    Quartile,
    /// Tolerates about 30% erroneous codewords.
    High,
}

impl EccLevel {
    /// The row of this level in the capacity tables (0 to 3).
    pub open spec fn spec_ordinal(self) -> usize {
        match self {
            EccLevel::Low => 0,
            EccLevel::Medium => 1,
            EccLevel::Quartile => 2,
            EccLevel::High => 3,
        }
    }

    /// Returns the row of this level in the capacity tables (0 to 3).
    #[verifier::when_used_as_spec(spec_ordinal)]
    pub fn ordinal(self) -> (r: usize)
        ensures
            r == self.spec_ordinal(),
    {
        match self {
            EccLevel::Low => 0,
            EccLevel::Medium => 1,
            EccLevel::Quartile => 2,
            EccLevel::High => 3,
        }
    }
}

} // verus!
