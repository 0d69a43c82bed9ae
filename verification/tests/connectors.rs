use lob::connectors::BinanceOrderBookListener;
use lob::connectors::BitstampOrderBookListener;

#[test]
fn binance_listener_normalizes_pair() {
    let listener = BinanceOrderBookListener::new("BTC/USDT", 0);
    assert_eq!(listener.exchange_symbol().as_str(), "BTCUSDT");
    assert_eq!(listener.exchange_id(), 0);
}

#[test]
fn bitstamp_listener_normalizes_pair() {
    let listener = BitstampOrderBookListener::new("BTC/USDT", 1);
    assert_eq!(listener.exchange_symbol().as_str(), "BTCUSDT");
    assert_eq!(listener.exchange_id(), 1);

    let plain = BitstampOrderBookListener::new("BTCUSDT", 1);
    assert_eq!(plain.exchange_symbol().as_str(), "BTCUSDT");
}
