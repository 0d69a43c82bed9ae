use lob::AggregatedBookQuote;
use std::cmp::Ordering;

// Fixed-point values with three decimal places: 1.001 is written 1001.

#[test]
fn aggregated_quote_cmp() {
    {
        let q_bigger = AggregatedBookQuote { exchange: 0, price: 1001, qty: 2000 };

        let q_smaller = AggregatedBookQuote { exchange: 2, price: 1000, qty: 2000 };

        assert_eq!(q_bigger.cmp(&q_smaller), Ordering::Greater);
    }

    {
        let q_bigger = AggregatedBookQuote { exchange: 0, price: 1001, qty: 2500 };
        let q_smaller = AggregatedBookQuote { exchange: 2, price: 1001, qty: 2000 };
        assert_eq!(q_bigger.cmp(&q_smaller), Ordering::Greater);
    }

    {
        let q_bigger = AggregatedBookQuote { exchange: 2, price: 1001, qty: 2500 };
        let q_smaller = AggregatedBookQuote { exchange: 0, price: 1001, qty: 2500 };
        assert_eq!(q_bigger.cmp(&q_smaller), Ordering::Greater);
    }
}

#[test]
fn aggregated_quote_cmp_less_and_equal() {
    let a = AggregatedBookQuote { exchange: 0, price: 1000, qty: 2000 };
    let b = AggregatedBookQuote { exchange: 1, price: 1000, qty: 2000 };
    assert_eq!(a.cmp(&b), Ordering::Less);
    assert_eq!(a.cmp(&a), Ordering::Equal);
    assert_eq!(b.cmp(&a), Ordering::Greater);
}
