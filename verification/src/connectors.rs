//! Per-exchange feed configuration.
//!
//! A listener holds what one exchange's feed session needs: the trading
//! pair in the exchange's symbol form (no slash) and the exchange id under
//! which its updates enter the aggregator. The session itself (socket,
//! subscription, reconnection) lives outside the library.

use vstd::prelude::*;
use vstd::string::StrSliceExecFns;
use vstd::string::StringExecFns;

verus! {

/// Implemented by exchange feed connectors.
pub trait Connector {

}

/// Keeps every character of a trading pair but the slash.
pub open spec fn non_slash() -> spec_fn(char) -> bool {
    |c: char| c != '/'
}

/// The exchange symbol of a trading pair: the pair with every '/' removed.
fn normalize_pair(pair: &str) -> (out: String)
    ensures
        out@ == pair@.filter(non_slash()),
{
    let n = pair.unicode_len();
    let mut out = String::new();
    let mut i: usize = 0;
    while i < n
        invariant
            i <= n,
            n == pair@.len(),
            out@ == pair@.take(i as int).filter(non_slash()),
        decreases n - i,
    {
        let ghost pre_out = out@;
        let c = pair.get_char(i);
        if c != '/' {
            let piece = pair.substring_char(i, i + 1);
            proof {
                assert(piece@ =~= seq![c]);
            }
            out.append(piece);
            proof {
                assert(out@ =~= pre_out.push(c));
            }
        }
        proof {
            let pred = non_slash();
            let pre = pair@.take(i as int);
            let cur = pair@.take(i + 1);
            assert(cur =~= pre.push(c));
            assert(cur.len() == i + 1);
            assert(cur.drop_last() =~= pre);
            assert(cur.last() == c);
            reveal_with_fuel(Seq::filter, 2);
            assert(cur.filter(pred) == if pred(c) {
                pre.filter(pred).push(c)
            } else {
                pre.filter(pred)
            });
        }
        i += 1;
    }
    proof {
        assert(pair@.take(n as int) =~= pair@);
    }
    out
}

/// Feed configuration for the Binance order-book stream.
pub struct BinanceOrderBookListener {
    exchange_symbol: String,
    exchange_id: usize,
}

impl BinanceOrderBookListener {
    /// The symbol whose book this listener follows, in exchange form.
    pub closed spec fn symbol_spec(&self) -> Seq<char> {
        self.exchange_symbol@
    }

    /// The id under which this exchange's updates are aggregated.
    pub closed spec fn id_spec(&self) -> usize {
        self.exchange_id
    }

    /// A listener for the given trading pair and exchange id.
    pub fn new(pair: &str, exchange_id: usize) -> (s: Self)
        ensures
            s.symbol_spec() == pair@.filter(non_slash()),
            s.id_spec() == exchange_id,
    {
        let exchange_symbol = normalize_pair(pair);
        Self { exchange_symbol, exchange_id }
    }

    /// The normalised exchange symbol.
    pub fn exchange_symbol(&self) -> (r: &String)
        ensures
            r@ == self.symbol_spec(),
    {
        &self.exchange_symbol
    }

    /// The exchange id.
    pub fn exchange_id(&self) -> (r: usize)
        ensures
            r == self.id_spec(),
    {
        self.exchange_id
    }
}

/// Feed configuration for the Bitstamp order-book stream.
pub struct BitstampOrderBookListener {
    exchange_symbol: String,
    exchange_id: usize,
}

impl BitstampOrderBookListener {
    /// The symbol whose book this listener follows, in exchange form.
    pub closed spec fn symbol_spec(&self) -> Seq<char> {
        self.exchange_symbol@
    }

    /// The id under which this exchange's updates are aggregated.
    pub closed spec fn id_spec(&self) -> usize {
        self.exchange_id
    }

    /// A listener for the given trading pair and exchange id.
    pub fn new(pair: &str, exchange_id: usize) -> (s: Self)
        ensures
            s.symbol_spec() == pair@.filter(non_slash()),
            s.id_spec() == exchange_id,
    {
        let exchange_symbol = normalize_pair(pair);
        Self { exchange_symbol, exchange_id }
    }

    /// The normalised exchange symbol.
    pub fn exchange_symbol(&self) -> (r: &String)
        ensures
            r@ == self.symbol_spec(),
    {
        &self.exchange_symbol
    }

    /// The exchange id.
    pub fn exchange_id(&self) -> (r: usize)
        ensures
            r == self.id_spec(),
    {
        self.exchange_id
    }
}

} // verus!
