//! The presentation-level summary published to subscribers.

use vstd::prelude::*;

verus! {

/// One ranked level, ready for presentation: the reporting exchange by
/// display name, its price and its quantity.
#[derive(Clone, Debug)]
pub struct Level {
    pub exchange: String,
    pub price: u64,
    pub amount: u64,
}

/// A published top-of-book: the spread and the ranked levels of both sides.
/// The spread is best-ask price minus best-bid price; it is negative for a
/// crossed market, which is not an error.
#[derive(Clone, Debug)]
pub struct Summary {
    pub spread: i128,
    pub bids: Vec<Level>,
    pub asks: Vec<Level>,
}

impl Summary {
    /// Whether the summary may be delivered to subscribers: both sides must
    /// be populated.
    pub fn is_publishable(&self) -> (r: bool)
        ensures
            r == (self.bids@.len() > 0 && self.asks@.len() > 0),
    {
        !self.bids.is_empty() && !self.asks.is_empty()
    }
}

} // verus!
