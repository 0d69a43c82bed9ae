use lob::aggregator::OrderBookAggregator;
use lob::quote_merge::IterativeMergeQuotes;
use lob::quote_merge::VecSortMergeQuotes;
use lob::ExchangeQuote;
use lob::OrderBookUpdate;
use std::collections::HashMap;

// Fixed-point values with three decimal places: 1.25 is written 1250.

fn mapping() -> HashMap<usize, String> {
    let mut exchange_id_mapping = HashMap::new();
    exchange_id_mapping.insert(0, "binance".to_string());
    exchange_id_mapping.insert(1, "bitstamp".to_string());
    exchange_id_mapping
}

fn iterative_aggregator(depth: usize) -> OrderBookAggregator<IterativeMergeQuotes> {
    let merger = IterativeMergeQuotes::new(depth, 2);
    OrderBookAggregator::new(merger, 2, depth, mapping())
}

fn update(
    exchange_id: Option<usize>,
    bids: Vec<(u64, u64)>,
    asks: Vec<(u64, u64)>,
) -> OrderBookUpdate {
    OrderBookUpdate {
        exchange_id,
        bid_changes: bids.into_iter().map(|(price, qty)| ExchangeQuote { price, qty }).collect(),
        ask_changes: asks.into_iter().map(|(price, qty)| ExchangeQuote { price, qty }).collect(),
    }
}

#[test]
fn missing_exchange_id_is_dropped() {
    let mut aggregator = iterative_aggregator(10);
    let result = aggregator.process(update(None, vec![(1000, 1000)], vec![(1100, 1000)]));
    assert!(result.is_none());

    // the dropped update left no trace: the first valid update still sees
    // empty books for both exchanges
    let summary = aggregator
        .process(update(Some(0), vec![(990, 500)], vec![(1010, 700)]))
        .unwrap();
    assert_eq!(summary.bids.len(), 1);
    assert_eq!(summary.asks.len(), 1);
}

#[test]
fn spread_is_best_ask_minus_best_bid() {
    let mut aggregator = iterative_aggregator(10);
    let summary = aggregator
        .process(update(Some(0), vec![(990, 500), (980, 200)], vec![(1010, 700), (1020, 100)]))
        .unwrap();
    assert_eq!(summary.spread, 20);
    assert_eq!(summary.bids[0].price, 990);
    assert_eq!(summary.bids[0].exchange, "binance");
    assert_eq!(summary.asks[0].price, 1010);
    assert_eq!(summary.asks[0].exchange, "binance");

    // a crossed book yields a negative spread, which is not an error
    let summary = aggregator
        .process(update(Some(1), vec![(1050, 300)], vec![(1200, 300)]))
        .unwrap();
    assert_eq!(summary.bids[0].price, 1050);
    assert_eq!(summary.bids[0].exchange, "bitstamp");
    assert_eq!(summary.spread, 1010 - 1050);
    assert_eq!(summary.spread, -40);
}

#[test]
fn identical_snapshot_twice_yields_nothing() {
    let mut aggregator = iterative_aggregator(10);
    let first = aggregator.process(update(Some(0), vec![(990, 500)], vec![(1010, 700)]));
    assert!(first.is_some());
    let second = aggregator.process(update(Some(0), vec![(990, 500)], vec![(1010, 700)]));
    assert!(second.is_none());
}

#[test]
fn reset_of_one_exchange_rebuilds_top_from_the_rest() {
    let mut aggregator = iterative_aggregator(10);
    let first = aggregator.process(update(Some(0), vec![(995, 500)], vec![(1005, 700)]));
    assert!(first.is_some());
    let second = aggregator
        .process(update(Some(1), vec![(990, 400)], vec![(1010, 600)]))
        .unwrap();
    assert_eq!(second.bids.len(), 2);
    assert_eq!(second.asks.len(), 2);

    // exchange 0 resets: its levels vanish and the top is rebuilt from
    // exchange 1 alone, reported as a change
    let after_reset = aggregator.process(update(Some(0), vec![], vec![])).unwrap();
    assert_eq!(after_reset.bids.len(), 1);
    assert_eq!(after_reset.asks.len(), 1);
    assert_eq!(after_reset.bids[0].exchange, "bitstamp");
    assert_eq!(after_reset.bids[0].price, 990);
    assert_eq!(after_reset.asks[0].price, 1010);

    // resetting the other exchange as well empties a side, so no summary
    // can be derived
    let all_gone = aggregator.process(update(Some(1), vec![], vec![]));
    assert!(all_gone.is_none());
}

#[test]
fn top_is_cut_to_depth_per_side() {
    let mut aggregator = iterative_aggregator(2);
    let summary = aggregator
        .process(update(
            Some(0),
            vec![(990, 1), (980, 2), (970, 3)],
            vec![(1010, 1), (1020, 2), (1030, 3)],
        ))
        .unwrap();
    assert_eq!(summary.bids.len(), 2);
    assert_eq!(summary.asks.len(), 2);
    assert_eq!(summary.bids[0].price, 990);
    assert_eq!(summary.bids[1].price, 980);
    assert_eq!(summary.asks[0].price, 1010);
    assert_eq!(summary.asks[1].price, 1020);
}

#[test]
fn one_sided_book_publishes_no_summary() {
    let mut aggregator = iterative_aggregator(10);
    let only_bids = aggregator.process(update(Some(0), vec![(990, 500)], vec![]));
    assert!(only_bids.is_none());
    let both = aggregator.process(update(Some(1), vec![], vec![(1010, 700)]));
    assert!(both.is_some());
}

#[test]
fn aggregator_agrees_across_strategies() {
    let mut with_iterative = iterative_aggregator(10);
    let merger = VecSortMergeQuotes::new(10, 2);
    let mut with_full_rebuild = OrderBookAggregator::new(merger, 2, 10, mapping());

    let updates = vec![
        update(Some(0), vec![(995, 500), (990, 100)], vec![(1005, 700)]),
        update(Some(1), vec![(996, 300)], vec![(1004, 100), (1006, 50)]),
        update(Some(0), vec![], vec![]),
        update(Some(0), vec![(997, 80)], vec![(1003, 60)]),
    ];

    for u in updates {
        let a = with_iterative.process(u.clone());
        let b = with_full_rebuild.process(u);
        match (a, b) {
            (None, None) => {}
            (Some(x), Some(y)) => {
                assert_eq!(x.spread, y.spread);
                assert_eq!(x.bids.len(), y.bids.len());
                assert_eq!(x.asks.len(), y.asks.len());
                for (l, r) in x.bids.iter().zip(y.bids.iter()) {
                    assert_eq!(l.exchange, r.exchange);
                    assert_eq!(l.price, r.price);
                    assert_eq!(l.amount, r.amount);
                }
                for (l, r) in x.asks.iter().zip(y.asks.iter()) {
                    assert_eq!(l.exchange, r.exchange);
                    assert_eq!(l.price, r.price);
                    assert_eq!(l.amount, r.amount);
                }
            }
            (a, b) => panic!("strategies disagree: {:?} {:?}", a, b),
        }
    }
}

#[test]
fn summary_is_publishable_only_with_both_sides() {
    let mut aggregator = iterative_aggregator(10);
    let summary = aggregator
        .process(update(Some(0), vec![(990, 500)], vec![(1010, 700)]))
        .unwrap();
    assert!(summary.is_publishable());

    let empty = lob::Summary { spread: 0, bids: vec![], asks: vec![] };
    assert!(!empty.is_publishable());
}
