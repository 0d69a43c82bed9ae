//! Data model shared by the merge engine and the aggregator.
//!
//! Prices and quantities are fixed-point integers: the caller picks one scale
//! for the whole process and converts every quote before it reaches the
//! library. Only the order of prices and the difference of two prices matter
//! here, and both survive that conversion.

use vstd::prelude::*;
use vstd::relations::total_ordering;

verus! {

/// One price level reported by a single exchange.
#[derive(Clone, Copy, Debug, PartialEq, Eq, Structural)]
pub struct ExchangeQuote {
    pub price: u64,
    pub qty: u64,
}

/// A full replacement of one exchange's visible levels for both sides.
///
/// `bid_changes` must be sorted by strictly descending price and
/// `ask_changes` by strictly ascending price; an update without an
/// `exchange_id` is invalid and is dropped by the aggregator.
#[derive(Clone, Debug)]
pub struct OrderBookUpdate {
    pub exchange_id: Option<usize>,
    pub bid_changes: Vec<ExchangeQuote>,
    pub ask_changes: Vec<ExchangeQuote>,
}

/// A quote tagged with the exchange that reported it.
#[derive(Clone, Copy, Debug, PartialEq, Eq, Hash, Structural)]
pub struct AggregatedBookQuote {
    pub exchange: usize,
    pub price: u64,
    pub qty: u64,
}

/// The strict total order used everywhere ranking matters: by price, then by
/// quantity, then by exchange id, all ascending. Two distinct tagged quotes
/// from the same exchange differ in price or quantity, and quotes from
/// different exchanges differ in the tag, so ties mean equality.
pub open spec fn quote_lt(a: AggregatedBookQuote, b: AggregatedBookQuote) -> bool {
    ||| a.price < b.price
    ||| (a.price == b.price && a.qty < b.qty)
    ||| (a.price == b.price && a.qty == b.qty && a.exchange < b.exchange)
}

/// Reflexive closure of [`quote_lt`].
pub open spec fn quote_leq(a: AggregatedBookQuote, b: AggregatedBookQuote) -> bool {
    quote_lt(a, b) || a == b
}

/// The ranking comparator with the side's direction folded in: "x ranks no
/// worse than y". With `reverse` (bids) a higher quote ranks first, without
/// it (asks) a lower one does.
pub open spec fn ranking_leq(reverse: bool) -> spec_fn(
    AggregatedBookQuote,
    AggregatedBookQuote,
) -> bool {
    |a: AggregatedBookQuote, b: AggregatedBookQuote|
        if reverse {
            quote_leq(b, a)
        } else {
            quote_leq(a, b)
        }
}

/// [`ranking_leq`] is a total ordering for either direction.
pub proof fn lemma_ranking_leq_total_ordering(reverse: bool)
    ensures
        total_ordering(ranking_leq(reverse)),
{
    let leq = ranking_leq(reverse);
    assert forall|x: AggregatedBookQuote, y: AggregatedBookQuote| #[trigger]
        leq(x, y) && #[trigger] leq(y, x) implies x == y by {};
    assert forall|x: AggregatedBookQuote, y: AggregatedBookQuote, z: AggregatedBookQuote| #[trigger]
        leq(x, y) && #[trigger] leq(y, z) implies leq(x, z) by {};
    assert forall|x: AggregatedBookQuote, y: AggregatedBookQuote| #[trigger]
        leq(x, y) || #[trigger] leq(y, x) by {};
}

impl AggregatedBookQuote {
    /// Three-way comparison realising [`quote_lt`].
    pub fn cmp(&self, other: &Self) -> (r: core::cmp::Ordering)
        ensures
            r == core::cmp::Ordering::Less <==> quote_lt(*self, *other),
            r == core::cmp::Ordering::Equal <==> *self == *other,
            r == core::cmp::Ordering::Greater <==> quote_lt(*other, *self),
    {
        if self.price < other.price {
            core::cmp::Ordering::Less
        } else if other.price < self.price {
            core::cmp::Ordering::Greater
        } else if self.qty < other.qty {
            core::cmp::Ordering::Less
        } else if other.qty < self.qty {
            core::cmp::Ordering::Greater
        } else if self.exchange < other.exchange {
            core::cmp::Ordering::Less
        } else if other.exchange < self.exchange {
            core::cmp::Ordering::Greater
        } else {
            core::cmp::Ordering::Equal
        }
    }
}

/// Decides `ranking_leq(reverse)(a, b)` executably.
pub(crate) fn ranking_le(a: &AggregatedBookQuote, b: &AggregatedBookQuote, reverse: bool) -> (r:
    bool)
    ensures
        r == ranking_leq(reverse)(*a, *b),
{
    let (lo, hi) = if reverse {
        (b, a)
    } else {
        (a, b)
    };
    if lo.price != hi.price {
        lo.price < hi.price
    } else if lo.qty != hi.qty {
        lo.qty < hi.qty
    } else {
        lo.exchange <= hi.exchange
    }
}

/// A per-exchange snapshot is well formed for a side when its prices are
/// strictly monotone in the side's direction: descending for bids
/// (`reverse`), ascending for asks.
pub open spec fn book_sorted(book: Seq<ExchangeQuote>, reverse: bool) -> bool {
    forall|i: int, j: int| #![trigger book[i], book[j]]
        0 <= i < j < book.len() ==> if reverse {
            book[j].price < book[i].price
        } else {
            book[i].price < book[j].price
        }
}

} // verus!
