//! The rule table that maps content statistics and system load to a storage
//! precision.
use vstd::prelude::*;

verus! {

/// Numeric width at which cached values are stored.
#[derive(Clone, Copy, Debug, PartialEq, Eq, Structural)]
pub enum PrecisionLevel {
    Int4,
    Int8,
    Float16,
}

/// Load below this (in thousandths) favours the smallest width.
pub const LOW_LOAD: u32 = 300;

/// Load at or above this (in thousandths) caps the width at eight bits.
pub const HIGH_LOAD: u32 = 700;

/// Entropy above this (in thousandths) asks for the widest format.
pub const HIGH_ENTROPY: u32 = 800;

/// Locality below this (in thousandths) asks for the widest format.
pub const TIGHT_LOCALITY: u32 = 200;

/// The rule table, first match wins: resource pressure outranks the
/// content statistics.
pub open spec fn decide_spec(entropy: int, locality: int, load: int) -> PrecisionLevel {
    if load < LOW_LOAD {
        PrecisionLevel::Int4
    } else if load >= HIGH_LOAD {
        PrecisionLevel::Int8
    } else if entropy > HIGH_ENTROPY || locality < TIGHT_LOCALITY {
        PrecisionLevel::Float16
    } else {
        PrecisionLevel::Int8
    }
}

/// Picks the precision for one update. All three inputs are in thousandths.
pub fn decide(entropy: u32, locality: u32, load: u32) -> (p: PrecisionLevel)
    ensures
        p == decide_spec(entropy as int, locality as int, load as int),
{
    if load < LOW_LOAD {
        PrecisionLevel::Int4
    } else if load >= HIGH_LOAD {
        PrecisionLevel::Int8
    } else if entropy > HIGH_ENTROPY || locality < TIGHT_LOCALITY {
        PrecisionLevel::Float16
    } else {
        PrecisionLevel::Int8
    }
}

/// A named precision policy.
pub struct PrecisionPlan {
    pub name: String,
    pub description: String,
}

impl PrecisionPlan {
    pub fn new(name: &str, description: &str) -> (p: PrecisionPlan)
        ensures
            p.name@ == name@,
            p.description@ == description@,
    {
        PrecisionPlan { name: name.to_owned(), description: description.to_owned() }
    }

    /// The precision this plan gives for the statistics of one layer.
    pub fn compute_plan(&self, entropy: u32, locality: u32, load: u32) -> (p: PrecisionLevel)
        ensures
            p == decide_spec(entropy as int, locality as int, load as int),
    {
        decide(entropy, locality, load)
    }
}

} // verus!
