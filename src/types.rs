use vstd::prelude::*;

verus! {

/// Nanoseconds.
pub type Timestamp = u64;

/// Fixed point, scaled by 10^8.
pub type Price = i64;

/// Fixed point, scaled by 10^8.
pub type Quantity = u64;

#[derive(Debug, Clone, Copy, PartialEq, Eq, Structural)]
pub enum InstrumentType {
    Spot,
    Perpetual,
    Future,
}

} // verus!
