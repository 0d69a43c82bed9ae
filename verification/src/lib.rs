//! Aggregated limit-order-book library.
//!
//! Per-exchange order-book snapshots are combined into one depth-limited,
//! totally ordered top-of-book view. Prices and quantities are fixed-point
//! integers supplied by the caller; the library never touches the wire.

pub mod model;
pub mod merge_spec;
pub mod quote_merge;
pub mod aggregator;
pub mod orderbook;
pub mod connectors;

pub use aggregator::OrderBookAggregator;
pub use connectors::BinanceOrderBookListener;
pub use connectors::BitstampOrderBookListener;
pub use connectors::Connector;
pub use model::AggregatedBookQuote;
pub use model::ExchangeQuote;
pub use model::OrderBookUpdate;
pub use orderbook::Level;
pub use orderbook::Summary;
pub use quote_merge::IterativeMergeQuotes;
pub use quote_merge::MergeQuotes;
pub use quote_merge::VecSortMergeQuotes;
