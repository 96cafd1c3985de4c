use vstd::prelude::*;

verus! {

/// Number of fixed-point units in one whole unit (a score of 1.0, one dollar).
pub const SCALE: u64 = 1_000_000;

/// Largest price, volume or holding value that the engine accepts, in
/// fixed-point units. Below 2^53, so every such value is also an exact double.
pub const MAX_AMOUNT: u64 = 0x1F_FFFF_FFFF_FFFF;

/// Largest number of points that a price series may hold.
pub const MAX_POINTS: usize = 0x100_0000;

/// One observation of a token's market: a time in seconds, a price and a
/// traded volume, both in fixed-point units.
#[derive(Clone, Copy, Debug, PartialEq, Eq, Structural)]
pub struct PricePoint {
    pub timestamp: i64,
    pub price: u64,
    pub volume: u64,
}

/// Prices and volumes within the engine's limits, and a length within
/// `MAX_POINTS`: what the indicator arithmetic needs to stay exact.
pub open spec fn within_limits(s: Seq<PricePoint>) -> bool {
    &&& s.len() <= MAX_POINTS
    &&& forall|i: int| 0 <= i < s.len() ==> #[trigger] s[i].price <= MAX_AMOUNT && s[i].volume
        <= MAX_AMOUNT
}

/// A well-formed token series: within limits, with strictly increasing timestamps.
pub open spec fn valid_series(s: Seq<PricePoint>) -> bool {
    &&& within_limits(s)
    &&& forall|i: int| 0 < i < s.len() ==> #[trigger] s[i].timestamp > s[i - 1].timestamp
}

} // verus!
