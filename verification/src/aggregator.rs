//! The order-book aggregator: per-exchange state for both sides, driven by
//! a merge strategy, publishing a summary only when the visible top changed.

use std::collections::HashMap;

use vstd::prelude::*;

use crate::merge_spec::books_sorted;
use crate::merge_spec::books_view;
use crate::merge_spec::lemma_ranked_top_empty_books;
use crate::merge_spec::lemma_ranked_top_exchange;
use crate::merge_spec::ranked_top;
use crate::model::book_sorted;
use crate::model::AggregatedBookQuote;
use crate::model::ExchangeQuote;
use crate::model::OrderBookUpdate;
use crate::orderbook::Level;
use crate::orderbook::Summary;
use crate::quote_merge::MergeQuotes;

verus! {

/// An update the aggregator may be fed: a carried exchange id is a valid
/// index, and each side's levels arrive sorted strictly in the direction the
/// side is merged (bids by descending price, asks by ascending price).
pub open spec fn update_wf(u: OrderBookUpdate, exchanges_number: usize) -> bool {
    u.exchange_id matches Option::Some(id) ==> {
        &&& id < exchanges_number
        &&& book_sorted(u.bid_changes@, true)
        &&& book_sorted(u.ask_changes@, false)
    }
}

/// One level of a summary presents one ranked quote: same price and
/// quantity, and the exchange's display name from the mapping.
pub open spec fn level_matches(l: Level, q: AggregatedBookQuote, names: Map<usize, String>) -> bool {
    &&& l.price == q.price
    &&& l.amount == q.qty
    &&& names.contains_key(q.exchange)
    &&& l.exchange@ == names[q.exchange]@
}

/// A summary presents two non-empty ranked tops: each side level for level
/// in ranking order, and the spread as best-ask price minus best-bid price.
pub open spec fn summary_matches(
    s: Summary,
    bid_top: Seq<AggregatedBookQuote>,
    ask_top: Seq<AggregatedBookQuote>,
    names: Map<usize, String>,
) -> bool {
    &&& s.bids@.len() == bid_top.len()
    &&& forall|i: int| 0 <= i < bid_top.len() ==> level_matches(#[trigger] s.bids@[i], bid_top[i], names)
    &&& s.asks@.len() == ask_top.len()
    &&& forall|i: int| 0 <= i < ask_top.len() ==> level_matches(#[trigger] s.asks@[i], ask_top[i], names)
    &&& bid_top.len() > 0 && ask_top.len() > 0
    &&& s.spread == ask_top[0].price - bid_top[0].price
}

/// Owns both sides' per-exchange books and the last published tops; every
/// update replaces one exchange's lists wholesale and re-ranks both sides
/// through the merge strategy.
pub struct OrderBookAggregator<T: MergeQuotes> {
    exchanges_bids: Vec<Vec<ExchangeQuote>>,
    exchanges_asks: Vec<Vec<ExchangeQuote>>,
    bid_book_top: Vec<AggregatedBookQuote>,
    ask_book_top: Vec<AggregatedBookQuote>,
    exchanges_number: usize,
    top_book_depth: usize,
    quotes_merger: T,
    exchanges_id_mapping: HashMap<usize, String>,
}

impl<T: MergeQuotes> OrderBookAggregator<T> {
    /// The stored bid books, one per exchange.
    pub closed spec fn books_bids(&self) -> Seq<Seq<ExchangeQuote>> {
        books_view(self.exchanges_bids@)
    }

    /// The stored ask books, one per exchange.
    pub closed spec fn books_asks(&self) -> Seq<Seq<ExchangeQuote>> {
        books_view(self.exchanges_asks@)
    }

    /// The last published ranked bid top.
    pub closed spec fn bid_top(&self) -> Seq<AggregatedBookQuote> {
        self.bid_book_top@
    }

    /// The last published ranked ask top.
    pub closed spec fn ask_top(&self) -> Seq<AggregatedBookQuote> {
        self.ask_book_top@
    }

    /// The number of exchanges, fixed at construction.
    pub closed spec fn n_exchanges(&self) -> usize {
        self.exchanges_number
    }

    /// The configured ranked-top depth.
    pub closed spec fn depth(&self) -> usize {
        self.top_book_depth
    }

    /// The fixed exchange-id-to-display-name mapping.
    pub closed spec fn names(&self) -> Map<usize, String> {
        self.exchanges_id_mapping@
    }

    /// The aggregator's invariant: both side-state arrays have one slot per
    /// exchange, every stored book is sorted for its side, each stored top
    /// is the ranked top of its side's books, the merge strategy fits this
    /// configuration, and every exchange id has a display name.
    pub closed spec fn wf(&self) -> bool {
        &&& self.exchanges_bids@.len() == self.exchanges_number
        &&& self.exchanges_asks@.len() == self.exchanges_number
        &&& books_sorted(self.books_bids(), true)
        &&& books_sorted(self.books_asks(), false)
        &&& self.bid_book_top@ == ranked_top(self.books_bids(), self.top_book_depth as int, true)
        &&& self.ask_book_top@ == ranked_top(self.books_asks(), self.top_book_depth as int, false)
        &&& self.quotes_merger.wf()
        &&& self.quotes_merger.depth() == self.top_book_depth
        &&& self.quotes_merger.accepts(self.exchanges_number as nat)
        &&& forall|e: usize| e < self.exchanges_number ==> self.exchanges_id_mapping@.contains_key(e)
    }

    /// A fresh aggregator: empty books on both sides for every exchange and
    /// empty published tops.
    pub fn new(
        quotes_merger: T,
        exchanges_number: usize,
        top_book_depth: usize,
        exchanges_id_mapping: HashMap<usize, String>,
    ) -> (s: Self)
        requires
            quotes_merger.wf(),
            quotes_merger.depth() == top_book_depth,
            quotes_merger.accepts(exchanges_number as nat),
            forall|e: usize| e < exchanges_number ==> exchanges_id_mapping@.contains_key(e),
        ensures
            s.wf(),
            s.n_exchanges() == exchanges_number,
            s.depth() == top_book_depth,
            s.names() == exchanges_id_mapping@,
            s.bid_top() == Seq::<AggregatedBookQuote>::empty(),
            s.ask_top() == Seq::<AggregatedBookQuote>::empty(),
            forall|e: int| 0 <= e < exchanges_number ==> (#[trigger] s.books_bids()[e]).len() == 0,
            forall|e: int| 0 <= e < exchanges_number ==> (#[trigger] s.books_asks()[e]).len() == 0,
    {
        let mut exchanges_bids: Vec<Vec<ExchangeQuote>> = Vec::new();
        let mut exchanges_asks: Vec<Vec<ExchangeQuote>> = Vec::new();
        let mut e: usize = 0;
        while e < exchanges_number
            invariant
                e <= exchanges_number,
                exchanges_bids@.len() == e,
                exchanges_asks@.len() == e,
                forall|t: int| 0 <= t < e ==> (#[trigger] exchanges_bids@[t])@.len() == 0,
                forall|t: int| 0 <= t < e ==> (#[trigger] exchanges_asks@[t])@.len() == 0,
            decreases exchanges_number - e,
        {
            exchanges_bids.push(Vec::new());
            exchanges_asks.push(Vec::new());
            e += 1;
        }

        let bid_book_top: Vec<AggregatedBookQuote> = Vec::new();
        let ask_book_top: Vec<AggregatedBookQuote> = Vec::new();

        let s = Self {
            exchanges_bids,
            exchanges_asks,
            bid_book_top,
            ask_book_top,
            exchanges_number,
            top_book_depth,
            quotes_merger,
            exchanges_id_mapping,
        };
        proof {
            lemma_ranked_top_empty_books(s.books_bids(), top_book_depth as int, true);
            lemma_ranked_top_empty_books(s.books_asks(), top_book_depth as int, false);
            assert(s.bid_book_top@ =~= Seq::<AggregatedBookQuote>::empty());
            assert(s.ask_book_top@ =~= Seq::<AggregatedBookQuote>::empty());
        }
        s
    }

    /// What one call of [`Self::process`] does: an update without an
    /// exchange id is dropped untouched; otherwise that exchange's books
    /// are replaced wholesale, both sides are re-ranked, and a summary is
    /// returned exactly when a side changed and both tops are non-empty.
    pub open spec fn process_post(pre: Self, post: Self, u: OrderBookUpdate, r: Option<Summary>) -> bool {
        &&& post.n_exchanges() == pre.n_exchanges()
        &&& post.depth() == pre.depth()
        &&& post.names() == pre.names()
        &&& match u.exchange_id {
            Option::None => {
                &&& r is None
                &&& post.books_bids() == pre.books_bids()
                &&& post.books_asks() == pre.books_asks()
                &&& post.bid_top() == pre.bid_top()
                &&& post.ask_top() == pre.ask_top()
            },
            Option::Some(id) => {
                let nb = pre.books_bids().update(id as int, u.bid_changes@);
                let na = pre.books_asks().update(id as int, u.ask_changes@);
                let rb = ranked_top(nb, pre.depth() as int, true);
                let ra = ranked_top(na, pre.depth() as int, false);
                let changed = rb != pre.bid_top() || ra != pre.ask_top();
                &&& post.books_bids() == nb
                &&& post.books_asks() == na
                &&& post.bid_top() == rb
                &&& post.ask_top() == ra
                &&& if changed && rb.len() > 0 && ra.len() > 0 {
                    match r {
                        Option::Some(s) => summary_matches(s, rb, ra, pre.names()),
                        Option::None => false,
                    }
                } else {
                    r is None
                }
            },
        }
    }

    /// Feed one update through the aggregator.
    pub fn process(&mut self, order_book_update: OrderBookUpdate) -> (r: Option<Summary>)
        requires
            old(self).wf(),
            update_wf(order_book_update, old(self).n_exchanges()),
        ensures
            final(self).wf(),
            Self::process_post(*old(self), *final(self), order_book_update, r),
    {
        let exchange_id = match order_book_update.exchange_id {
            Some(val) => val,
            None => {
                return None;
            },
        };

        let mut top_changed = false;

        self.exchanges_asks[exchange_id] = order_book_update.ask_changes;
        self.exchanges_bids[exchange_id] = order_book_update.bid_changes;

        proof {
            assert forall|e: int| 0 <= e < self.books_bids().len() implies book_sorted(
                #[trigger] self.books_bids()[e],
                true,
            ) by {
                if e != exchange_id {
                    assert(self.books_bids()[e] == old(self).books_bids()[e]);
                }
            }
            assert forall|e: int| 0 <= e < self.books_asks().len() implies book_sorted(
                #[trigger] self.books_asks()[e],
                false,
            ) by {
                if e != exchange_id {
                    assert(self.books_asks()[e] == old(self).books_asks()[e]);
                }
            }
            assert(self.books_bids() =~= old(self).books_bids().update(
                exchange_id as int,
                order_book_update.bid_changes@,
            ));
            assert(self.books_asks() =~= old(self).books_asks().update(
                exchange_id as int,
                order_book_update.ask_changes@,
            ));
        }

        if let Some(val) = self.quotes_merger.merge_quotes(
            self.exchanges_bids.as_slice(),
            self.bid_book_top.as_slice(),
            true,
        ) {
            top_changed = true;
            self.bid_book_top = val;
        }

        if let Some(val) = self.quotes_merger.merge_quotes(
            self.exchanges_asks.as_slice(),
            self.ask_book_top.as_slice(),
            false,
        ) {
            top_changed = true;
            self.ask_book_top = val;
        }

        if top_changed {
            return self.get_summary();
        }

        None
    }

    /// Derive the presentation summary from the current tops: nothing while
    /// either side is empty, else named levels in ranking order and the
    /// spread of the two best prices.
    fn get_summary(&self) -> (r: Option<Summary>)
        requires
            self.wf(),
        ensures
            match r {
                Option::Some(s) => summary_matches(s, self.bid_top(), self.ask_top(), self.names()),
                Option::None => self.bid_top().len() == 0 || self.ask_top().len() == 0,
            },
    {
        broadcast use vstd::std_specs::hash::group_hash_axioms;

        if self.bid_book_top.is_empty() || self.ask_book_top.is_empty() {
            return None;
        }

        proof {
            lemma_ranked_top_exchange(self.books_bids(), self.top_book_depth as int, true);
            lemma_ranked_top_exchange(self.books_asks(), self.top_book_depth as int, false);
        }

        let mut bids: Vec<Level> = Vec::new();
        let mut asks: Vec<Level> = Vec::new();

        let mut i: usize = 0;
        while i < self.bid_book_top.len()
            invariant
                i <= self.bid_top().len(),
                bids@.len() == i,
                self.wf(),
                forall|t: int|
                    0 <= t < i ==> level_matches(#[trigger] bids@[t], self.bid_top()[t], self.names()),
                forall|t: int|
                    0 <= t < self.bid_top().len() ==> (#[trigger] self.bid_top()[t]).exchange
                        < self.n_exchanges(),
            decreases self.bid_top().len() - i,
        {
            broadcast use vstd::std_specs::hash::group_hash_axioms;

            let bid = &self.bid_book_top[i];
            let name = self.exchanges_id_mapping.get(&bid.exchange).unwrap().clone();
            bids.push(Level { exchange: name, price: bid.price, amount: bid.qty });
            i += 1;
        }

        let mut i: usize = 0;
        while i < self.ask_book_top.len()
            invariant
                i <= self.ask_top().len(),
                asks@.len() == i,
                self.wf(),
                forall|t: int|
                    0 <= t < i ==> level_matches(#[trigger] asks@[t], self.ask_top()[t], self.names()),
                forall|t: int|
                    0 <= t < self.ask_top().len() ==> (#[trigger] self.ask_top()[t]).exchange
                        < self.n_exchanges(),
            decreases self.ask_top().len() - i,
        {
            broadcast use vstd::std_specs::hash::group_hash_axioms;

            let ask = &self.ask_book_top[i];
            let name = self.exchanges_id_mapping.get(&ask.exchange).unwrap().clone();
            asks.push(Level { exchange: name, price: ask.price, amount: ask.qty });
            i += 1;
        }

        let spread = (self.ask_book_top[0].price as i128) - (self.bid_book_top[0].price as i128);

        Some(Summary { spread, bids, asks })
    }

    /// Law: replaying the snapshots an exchange already delivered changes
    /// nothing, so the second of two identical updates yields no summary.
    pub proof fn lemma_process_snapshot_twice(
        pre: Self,
        mid: Self,
        post: Self,
        u: OrderBookUpdate,
        r1: Option<Summary>,
        r2: Option<Summary>,
    )
        requires
            u.exchange_id matches Option::Some(id) && id < pre.n_exchanges(),
            pre.wf(),
            mid.wf(),
            Self::process_post(pre, mid, u, r1),
            Self::process_post(mid, post, u, r2),
        ensures
            r2 is None,
    {
        let id = u.exchange_id->Some_0;
        assert(mid.books_bids().update(id as int, u.bid_changes@) =~= mid.books_bids());
        assert(mid.books_asks().update(id as int, u.ask_changes@) =~= mid.books_asks());
    }
}

} // verus!
