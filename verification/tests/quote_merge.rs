use lob::quote_merge::IterativeMergeQuotes;
use lob::quote_merge::MergeQuotes;
use lob::quote_merge::VecSortMergeQuotes;
use lob::ExchangeQuote;
use std::cmp::Ordering;

// Prices and quantities are fixed-point integers with three decimal places:
// 1.25 is written 1250.

fn exchanges_quotes_asks_fixture() -> Vec<Vec<ExchangeQuote>> {
    let changes1 = vec![
        ExchangeQuote { price: 1000, qty: 2000 },
        ExchangeQuote { price: 1200, qty: 2200 },
        ExchangeQuote { price: 1250, qty: 2200 },
        ExchangeQuote { price: 1350, qty: 2200 },
        ExchangeQuote { price: 1450, qty: 2200 },
        ExchangeQuote { price: 1650, qty: 2200 },
        ExchangeQuote { price: 1680, qty: 2200 },
        ExchangeQuote { price: 1690, qty: 2200 },
        ExchangeQuote { price: 1750, qty: 2250 },
        ExchangeQuote { price: 1830, qty: 250 },
        ExchangeQuote { price: 1930, qty: 250 },
    ];

    let changes2 = vec![
        ExchangeQuote { price: 1100, qty: 2000 },
        ExchangeQuote { price: 1200, qty: 2400 },
        ExchangeQuote { price: 1250, qty: 1900 },
        ExchangeQuote { price: 1360, qty: 2200 },
        ExchangeQuote { price: 1460, qty: 2200 },
        ExchangeQuote { price: 1550, qty: 5000 },
        ExchangeQuote { price: 1650, qty: 2200 },
        ExchangeQuote { price: 1680, qty: 2200 },
        ExchangeQuote { price: 1690, qty: 2200 },
        ExchangeQuote { price: 1740, qty: 2250 },
        ExchangeQuote { price: 1840, qty: 250 },
        ExchangeQuote { price: 1930, qty: 250 },
    ];

    vec![changes1, changes2]
}

fn exchanges_quotes_bids_fixture() -> Vec<Vec<ExchangeQuote>> {
    let changes1 = vec![
        ExchangeQuote { price: 1000, qty: 2000 },
        ExchangeQuote { price: 980, qty: 2000 },
        ExchangeQuote { price: 975, qty: 2000 },
        ExchangeQuote { price: 970, qty: 2000 },
        ExchangeQuote { price: 940, qty: 2000 },
        ExchangeQuote { price: 920, qty: 3000 },
        ExchangeQuote { price: 915, qty: 5000 },
        ExchangeQuote { price: 910, qty: 2000 },
        ExchangeQuote { price: 900, qty: 2000 },
        ExchangeQuote { price: 800, qty: 12000 },
        ExchangeQuote { price: 700, qty: 12000 },
        ExchangeQuote { price: 400, qty: 42000 },
    ];

    let changes2 = vec![
        ExchangeQuote { price: 1100, qty: 2000 },
        ExchangeQuote { price: 980, qty: 5000 },
        ExchangeQuote { price: 970, qty: 3000 },
        ExchangeQuote { price: 960, qty: 2000 },
        ExchangeQuote { price: 940, qty: 2000 },
        ExchangeQuote { price: 925, qty: 5000 },
        ExchangeQuote { price: 912, qty: 5000 },
        ExchangeQuote { price: 911, qty: 2000 },
        ExchangeQuote { price: 900, qty: 2000 },
        ExchangeQuote { price: 850, qty: 12000 },
        ExchangeQuote { price: 710, qty: 12000 },
        ExchangeQuote { price: 460, qty: 42000 },
    ];

    vec![changes1, changes2]
}

#[test]
fn iterative_merge() {
    let top_book_depth = 10;
    let order_books = exchanges_quotes_asks_fixture();
    let n_exchanges = order_books.len();
    let old_top = vec![];
    let mut merger = IterativeMergeQuotes::new(top_book_depth, n_exchanges);
    let top_book = merger.merge_quotes(&order_books, &old_top, false);
    assert!(top_book.is_some());

    let top_book = top_book.unwrap();
    assert_eq!(top_book.len(), top_book_depth);

    let mut best_quote = &top_book[0];
    for quote in &top_book[1..] {
        assert_eq!(
            quote.cmp(best_quote),
            Ordering::Greater,
            "{:?} {:?}",
            quote,
            best_quote
        );
        best_quote = quote;
    }

    let top_book_after_same_quotes = merger.merge_quotes(&order_books, &top_book, false);
    assert!(top_book_after_same_quotes.is_none());
}

#[test]
fn iterative_merge_inverse_ordering() {
    let top_book_depth = 10;
    let order_books = exchanges_quotes_bids_fixture();
    let n_exchanges = order_books.len();
    let old_top = vec![];
    let mut merger = IterativeMergeQuotes::new(top_book_depth, n_exchanges);
    let top_book = merger.merge_quotes(&order_books, &old_top, true);
    assert!(top_book.is_some());

    let top_book = top_book.unwrap();
    assert_eq!(top_book.len(), top_book_depth);
    println!("{:#?}", &top_book);

    let mut best_quote = &top_book[0];
    for quote in &top_book[1..] {
        assert_eq!(
            quote.cmp(best_quote),
            Ordering::Less,
            "{:?} {:?}",
            quote,
            best_quote
        );
        best_quote = quote;
    }

    let top_book_after_same_quotes = merger.merge_quotes(&order_books, &top_book, true);
    assert!(top_book_after_same_quotes.is_none());
}

#[test]
fn vec_sort_merge() {
    let top_book_depth = 10;
    let order_books = exchanges_quotes_asks_fixture();
    let n_exchanges = order_books.len();
    let old_top = vec![];
    let mut merger = VecSortMergeQuotes::new(top_book_depth, n_exchanges);
    let top_book = merger.merge_quotes(&order_books, &old_top, false);
    assert!(top_book.is_some());

    let top_book = top_book.unwrap();
    assert_eq!(top_book.len(), top_book_depth);

    let mut best_quote = &top_book[0];
    for quote in &top_book[1..] {
        assert_eq!(
            quote.cmp(best_quote),
            Ordering::Greater,
            "{:?} {:?}",
            quote,
            best_quote
        );
        best_quote = quote;
    }

    let top_book_after_same_quotes = merger.merge_quotes(&order_books, &top_book, false);
    assert!(top_book_after_same_quotes.is_none());
}

#[test]
fn vec_sort_merge_inverse_ordering() {
    let top_book_depth = 10;
    let order_books = exchanges_quotes_bids_fixture();
    let n_exchanges = order_books.len();
    let old_top = vec![];
    let mut merger = VecSortMergeQuotes::new(top_book_depth, n_exchanges);
    let top_book = merger.merge_quotes(&order_books, &old_top, true);
    assert!(top_book.is_some());

    let top_book = top_book.unwrap();
    assert_eq!(top_book.len(), top_book_depth);
    println!("{:#?}", &top_book);

    let mut best_quote = &top_book[0];
    for quote in &top_book[1..] {
        assert_eq!(
            quote.cmp(best_quote),
            Ordering::Less,
            "{:?} {:?}",
            quote,
            best_quote
        );
        best_quote = quote;
    }

    let top_book_after_same_quotes = merger.merge_quotes(&order_books, &top_book, true);
    assert!(top_book_after_same_quotes.is_none());
}

#[test]
fn strategies_agree_on_fixtures() {
    let top_book_depth = 10;
    let asks = exchanges_quotes_asks_fixture();
    let bids = exchanges_quotes_bids_fixture();
    let old_top = vec![];

    let mut iterative = IterativeMergeQuotes::new(top_book_depth, asks.len());
    let mut full = VecSortMergeQuotes::new(top_book_depth, asks.len());

    let a1 = iterative.merge_quotes(&asks, &old_top, false).unwrap();
    let a2 = full.merge_quotes(&asks, &old_top, false).unwrap();
    assert_eq!(a1, a2);

    let b1 = iterative.merge_quotes(&bids, &old_top, true).unwrap();
    let b2 = full.merge_quotes(&bids, &old_top, true).unwrap();
    assert_eq!(b1, b2);
}

#[test]
fn interleaving_takes_lowest_ask_first() {
    let order_books = exchanges_quotes_asks_fixture();
    let old_top = vec![];
    let mut merger = IterativeMergeQuotes::new(10, order_books.len());
    let top_book = merger.merge_quotes(&order_books, &old_top, false).unwrap();

    // lowest price 1.000 from the first exchange beats 1.100 from the second
    assert_eq!(top_book[0].price, 1000);
    assert_eq!(top_book[0].exchange, 0);
    assert_eq!(top_book[1].price, 1100);
    assert_eq!(top_book[1].exchange, 1);
    // equal prices break the tie on quantity, then exchange id
    assert_eq!(top_book[2].price, 1200);
    assert_eq!(top_book[2].qty, 2200);
    assert_eq!(top_book[2].exchange, 0);
    assert_eq!(top_book[3].price, 1200);
    assert_eq!(top_book[3].qty, 2400);
    assert_eq!(top_book[3].exchange, 1);
}

#[test]
fn shorter_top_than_depth_and_empty_books() {
    let mut merger = IterativeMergeQuotes::new(10, 2);
    let books = vec![
        vec![ExchangeQuote { price: 5, qty: 1 }],
        vec![],
    ];
    let old_top = vec![];
    let top = merger.merge_quotes(&books, &old_top, false).unwrap();
    assert_eq!(top.len(), 1);
    assert_eq!(top[0].price, 5);

    // all books empty: the empty top is a reported change against the old one
    let empty_books: Vec<Vec<ExchangeQuote>> = vec![vec![], vec![]];
    let shrunk = merger.merge_quotes(&empty_books, &top, false);
    assert!(shrunk.is_some());
    assert!(shrunk.unwrap().is_empty());

    // and no change when the previous top was already empty
    let unchanged = merger.merge_quotes(&empty_books, &vec![], false);
    assert!(unchanged.is_none());
}
