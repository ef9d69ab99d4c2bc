use vstd::prelude::*;

verus! {

/// Types with a known, finite number of values.
pub trait HasCardinality {
    /// How many distinct values the type has.
    const CARDINALITY: usize;
}

impl HasCardinality for u8 {
    /// 2 to the power of the 8 bits of a `u8`.
    const CARDINALITY: usize = 256;
}

} // verus!
