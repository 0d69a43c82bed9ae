//! Mathematical definition of the ranked top-of-book and the contract that
//! every merge strategy must satisfy.
//!
//! The canonical result is [`ranked_top`]: tag the first `depth` levels of
//! every exchange, order the union by the side's comparator and keep the
//! first `depth` entries. A strategy reports the canonical result exactly
//! when it differs from the previously published top ([`merge_post`]).

use vstd::multiset::Multiset;
use vstd::prelude::*;
use vstd::relations::sorted_by;

use crate::model::book_sorted;
use crate::model::lemma_ranking_leq_total_ordering;
use crate::model::quote_lt;
use crate::model::ranking_leq;
use crate::model::AggregatedBookQuote;
use crate::model::ExchangeQuote;

verus! {

/// The view of a borrowed array of per-exchange level lists.
pub open spec fn books_view(books: Seq<Vec<ExchangeQuote>>) -> Seq<Seq<ExchangeQuote>> {
    books.map_values(|b: Vec<ExchangeQuote>| b@)
}

/// One exchange's contribution to the merge: its first `depth` levels, each
/// tagged with the exchange id. The cap is a safety bound; well-formed feeds
/// never supply more than `depth` levels at a time.
pub open spec fn tagged_book(book: Seq<ExchangeQuote>, exchange: int, depth: int) -> Seq<
    AggregatedBookQuote,
> {
    Seq::new(
        vstd::math::min(depth, book.len() as int) as nat,
        |i: int|
            AggregatedBookQuote {
                exchange: exchange as usize,
                price: book[i].price,
                qty: book[i].qty,
            },
    )
}

/// Every exchange's contribution, in exchange order.
pub open spec fn all_tagged(books: Seq<Seq<ExchangeQuote>>, depth: int) -> Seq<AggregatedBookQuote>
    decreases books.len(),
{
    if books.len() == 0 {
        Seq::empty()
    } else {
        all_tagged(books.drop_last(), depth) + tagged_book(books.last(), books.len() - 1, depth)
    }
}

/// The canonical ranked top: all contributions, ordered by the side's
/// comparator, cut to `depth` entries.
pub open spec fn ranked_top(books: Seq<Seq<ExchangeQuote>>, depth: int, reverse: bool) -> Seq<
    AggregatedBookQuote,
> {
    let all = all_tagged(books, depth);
    all.sort_by(ranking_leq(reverse)).take(vstd::math::min(depth, all.len() as int))
}

/// Every per-exchange list is sorted strictly in the side's direction.
pub open spec fn books_sorted(books: Seq<Seq<ExchangeQuote>>, reverse: bool) -> bool {
    forall|e: int| 0 <= e < books.len() ==> book_sorted(#[trigger] books[e], reverse)
}

/// The shared contract of the merge strategies: the result is the canonical
/// ranked top exactly when it differs from the previous one, and nothing
/// otherwise. Change detection therefore covers both a changed entry and a
/// changed length, including a shrink to the empty top.
pub open spec fn merge_post(
    books: Seq<Seq<ExchangeQuote>>,
    old_top: Seq<AggregatedBookQuote>,
    depth: int,
    reverse: bool,
    result: Option<Seq<AggregatedBookQuote>>,
) -> bool {
    let new_top = ranked_top(books, depth, reverse);
    match result {
        Option::None => new_top == old_top,
        Option::Some(v) => v == new_top && new_top != old_top,
    }
}

/// Every tagged quote carries the id of the exchange it came from, and that
/// id is an index into `books`.
pub proof fn lemma_all_tagged_exchange(books: Seq<Seq<ExchangeQuote>>, depth: int)
    ensures
        forall|k: int|
            0 <= k < all_tagged(books, depth).len() ==> (#[trigger] all_tagged(books, depth)[k]).exchange
                < books.len(),
    decreases books.len(),
{
    if books.len() > 0 {
        lemma_all_tagged_exchange(books.drop_last(), depth);
        let prev = all_tagged(books.drop_last(), depth);
        let last = tagged_book(books.last(), books.len() - 1, depth);
        assert forall|k: int| 0 <= k < all_tagged(books, depth).len() implies (
        #[trigger] all_tagged(books, depth)[k]).exchange < books.len() by {
            if k < prev.len() {
                assert(all_tagged(books, depth)[k] == prev[k]);
            } else {
                assert(all_tagged(books, depth)[k] == last[k - prev.len()]);
            }
        }
    }
}

/// Books that hold nothing contribute nothing: their ranked top is empty.
pub proof fn lemma_ranked_top_empty_books(books: Seq<Seq<ExchangeQuote>>, depth: int, reverse: bool)
    requires
        depth >= 0,
        forall|e: int| 0 <= e < books.len() ==> (#[trigger] books[e]).len() == 0,
    ensures
        ranked_top(books, depth, reverse) == Seq::<AggregatedBookQuote>::empty(),
{
    assert(all_tagged(books, depth) =~= Seq::<AggregatedBookQuote>::empty()) by {
        lemma_all_tagged_no_levels(books, depth);
    }
    assert(ranked_top(books, depth, reverse) =~= Seq::<AggregatedBookQuote>::empty());
}

proof fn lemma_all_tagged_no_levels(books: Seq<Seq<ExchangeQuote>>, depth: int)
    requires
        depth >= 0,
        forall|e: int| 0 <= e < books.len() ==> (#[trigger] books[e]).len() == 0,
    ensures
        all_tagged(books, depth).len() == 0,
    decreases books.len(),
{
    if books.len() > 0 {
        let prev = books.drop_last();
        assert forall|e: int| 0 <= e < prev.len() implies (#[trigger] prev[e]).len() == 0 by {
            assert(prev[e] == books[e]);
        }
        lemma_all_tagged_no_levels(prev, depth);
        assert(books[books.len() - 1].len() == 0);
        assert(tagged_book(books.last(), books.len() - 1, depth).len() == 0);
    }
}

/// A ranked list is strictly ordered in the side's direction: each entry
/// strictly beats the next under the comparator.
pub open spec fn strictly_ranked(top: Seq<AggregatedBookQuote>, reverse: bool) -> bool {
    forall|i: int, j: int| #![trigger top[i], top[j]]
        0 <= i < j < top.len() ==> if reverse {
            quote_lt(top[j], top[i])
        } else {
            quote_lt(top[i], top[j])
        }
}

/// Sorting keeps the length.
pub proof fn lemma_sort_by_len(s: Seq<AggregatedBookQuote>, reverse: bool)
    ensures
        s.sort_by(ranking_leq(reverse)).len() == s.len(),
{
    lemma_ranking_leq_total_ordering(reverse);
    s.lemma_sort_by_ensures(ranking_leq(reverse));
    broadcast use vstd::seq_lib::group_to_multiset_ensures;

    assert(s.sort_by(ranking_leq(reverse)).to_multiset().len() == s.to_multiset().len());
}

/// A well-formed book's contribution is strictly ordered in the direction it
/// will be merged.
pub proof fn lemma_tagged_book_strict(book: Seq<ExchangeQuote>, exchange: int, depth: int, reverse: bool)
    requires
        depth >= 0,
        book_sorted(book, reverse),
    ensures
        strictly_ranked(tagged_book(book, exchange, depth), reverse),
        sorted_by(tagged_book(book, exchange, depth), ranking_leq(reverse)),
        tagged_book(book, exchange, depth).no_duplicates(),
{
    let t = tagged_book(book, exchange, depth);
    assert forall|i: int, j: int| #![trigger t[i], t[j]] 0 <= i < j < t.len() implies (if reverse {
        quote_lt(t[j], t[i])
    } else {
        quote_lt(t[i], t[j])
    }) by {
        if reverse {
            assert(book[j].price < book[i].price);
        } else {
            assert(book[i].price < book[j].price);
        }
    }
    assert forall|i: int, j: int| 0 <= i < j < t.len() implies ranking_leq(reverse)(
        #[trigger] t[i],
        #[trigger] t[j],
    ) by {}
    assert forall|i: int, j: int| #![trigger t[i], t[j]]
        0 <= i < t.len() && 0 <= j < t.len() && i != j implies t[i] != t[j] by {}
}

/// The union of well-formed books' contributions holds no duplicate: within
/// one exchange the prices differ, across exchanges the tags do.
pub proof fn lemma_all_tagged_no_duplicates(
    books: Seq<Seq<ExchangeQuote>>,
    depth: int,
    reverse: bool,
)
    requires
        depth >= 0,
        books.len() <= usize::MAX,
        books_sorted(books, reverse),
    ensures
        all_tagged(books, depth).no_duplicates(),
    decreases books.len(),
{
    if books.len() > 0 {
        let prev_books = books.drop_last();
        assert(books_sorted(prev_books, reverse)) by {
            assert forall|e: int| 0 <= e < prev_books.len() implies book_sorted(
                #[trigger] prev_books[e],
                reverse,
            ) by {
                assert(prev_books[e] == books[e]);
            }
        }
        lemma_all_tagged_no_duplicates(prev_books, depth, reverse);
        let prev = all_tagged(prev_books, depth);
        let last = tagged_book(books.last(), books.len() - 1, depth);
        assert(book_sorted(books[books.len() - 1], reverse));
        lemma_tagged_book_strict(books.last(), books.len() - 1, depth, reverse);
        lemma_all_tagged_exchange(prev_books, depth);
        assert forall|i: int, j: int| 0 <= i < prev.len() && 0 <= j < last.len() implies prev[i]
            != last[j] by {
            assert(prev[i].exchange < books.len() - 1);
            assert(last[j].exchange == books.len() - 1);
        }
        vstd::seq_lib::lemma_no_dup_in_concat(prev, last);
    }
}

/// Law: for well-formed books the ranked top is strictly ordered in the
/// requested direction: strictly non-increasing under `reverse`, strictly
/// non-decreasing otherwise.
pub proof fn lemma_ranked_top_strictly_ordered(
    books: Seq<Seq<ExchangeQuote>>,
    depth: int,
    reverse: bool,
)
    requires
        depth >= 0,
        books.len() <= usize::MAX,
        books_sorted(books, reverse),
    ensures
        strictly_ranked(ranked_top(books, depth, reverse), reverse),
{
    let all = all_tagged(books, depth);
    let leq = ranking_leq(reverse);
    let sorted = all.sort_by(leq);
    let top = ranked_top(books, depth, reverse);
    lemma_ranking_leq_total_ordering(reverse);
    all.lemma_sort_by_ensures(leq);
    broadcast use vstd::seq_lib::group_to_multiset_ensures;

    lemma_sort_by_len(all, reverse);
    lemma_all_tagged_no_duplicates(books, depth, reverse);
    all.lemma_multiset_has_no_duplicates();
    assert forall|x: AggregatedBookQuote| sorted.to_multiset().contains(x) implies sorted
        .to_multiset()
        .count(x) == 1 by {
        assert(all.to_multiset().contains(x));
    }
    sorted.lemma_multiset_has_no_duplicates_conv();
    assert forall|i: int, j: int| 0 <= i < j < top.len() implies (if reverse {
        quote_lt(#[trigger] top[j], #[trigger] top[i])
    } else {
        quote_lt(top[i], top[j])
    }) by {
        assert(top[i] == sorted[i] && top[j] == sorted[j]);
        assert(leq(sorted[i], sorted[j]));
        assert(sorted[i] != sorted[j]);
    }
}

/// Every entry of the ranked top is tagged with a valid exchange index.
pub proof fn lemma_ranked_top_exchange(books: Seq<Seq<ExchangeQuote>>, depth: int, reverse: bool)
    requires
        depth >= 0,
    ensures
        forall|k: int|
            0 <= k < ranked_top(books, depth, reverse).len() ==> (#[trigger] ranked_top(
                books,
                depth,
                reverse,
            )[k]).exchange < books.len(),
{
    let all = all_tagged(books, depth);
    let leq = ranking_leq(reverse);
    let sorted = all.sort_by(leq);
    let top = ranked_top(books, depth, reverse);
    lemma_ranking_leq_total_ordering(reverse);
    all.lemma_sort_by_ensures(leq);
    lemma_all_tagged_exchange(books, depth);
    broadcast use vstd::seq_lib::group_to_multiset_ensures;

    lemma_sort_by_len(all, reverse);
    assert forall|k: int| 0 <= k < top.len() implies (#[trigger] top[k]).exchange < books.len() by {
        assert(top[k] == sorted[k]);
        assert(sorted.contains(sorted[k]));
        assert(sorted.to_multiset().contains(sorted[k]));
        assert(all.to_multiset().contains(sorted[k]));
        assert(all.contains(sorted[k]));
        let i = choose|i: int| 0 <= i < all.len() && all[i] == sorted[k];
        assert(all[i].exchange < books.len());
    }
}

/// The first entry of a ranking-sorted sequence ranks no worse than anything
/// the sequence holds.
pub(crate) proof fn lemma_sorted_head_least(
    s: Seq<AggregatedBookQuote>,
    reverse: bool,
    x: AggregatedBookQuote,
)
    requires
        sorted_by(s, ranking_leq(reverse)),
        s.to_multiset().contains(x),
    ensures
        s.len() > 0,
        ranking_leq(reverse)(s[0], x),
{
    broadcast use vstd::seq_lib::group_to_multiset_ensures;

    lemma_ranking_leq_total_ordering(reverse);
    assert(s.contains(x));
    let i = choose|i: int| 0 <= i < s.len() && s[i] == x;
    if i > 0 {
        assert(ranking_leq(reverse)(s[0], s[i]));
    }
}

/// Dropping one more entry from the front removes exactly that entry from
/// the remainder's multiset.
pub(crate) proof fn lemma_skip_succ_multiset(s: Seq<AggregatedBookQuote>, k: int)
    requires
        0 <= k < s.len(),
    ensures
        s.skip(k).to_multiset() =~= s.skip(k + 1).to_multiset().insert(s[k]),
{
    broadcast use vstd::seq_lib::group_to_multiset_ensures;
    broadcast use vstd::multiset::group_multiset_axioms;

    assert(s.skip(k) =~= seq![s[k]] + s.skip(k + 1));
    vstd::seq_lib::lemma_multiset_commutative(seq![s[k]], s.skip(k + 1));
    assert(seq![s[k]] =~= Seq::empty().push(s[k]));
    assert(seq![s[k]].to_multiset() =~= Multiset::empty().insert(s[k]));
}

/// A suffix of a ranking-sorted sequence is ranking-sorted.
pub(crate) proof fn lemma_sorted_skip(s: Seq<AggregatedBookQuote>, reverse: bool, k: int)
    requires
        sorted_by(s, ranking_leq(reverse)),
        0 <= k <= s.len(),
    ensures
        sorted_by(s.skip(k), ranking_leq(reverse)),
{
    let t = s.skip(k);
    assert forall|i: int, j: int| 0 <= i < j < t.len() implies ranking_leq(reverse)(
        #[trigger] t[i],
        #[trigger] t[j],
    ) by {
        assert(t[i] == s[k + i] && t[j] == s[k + j]);
        assert(ranking_leq(reverse)(s[k + i], s[k + j]));
    }
}

/// Taking one more book appends exactly that book's contribution.
pub(crate) proof fn lemma_all_tagged_take_succ(
    books: Seq<Seq<ExchangeQuote>>,
    depth: int,
    e: int,
)
    requires
        0 <= e < books.len(),
    ensures
        all_tagged(books.take(e + 1), depth) == all_tagged(books.take(e), depth) + tagged_book(
            books[e],
            e,
            depth,
        ),
{
    let t = books.take(e + 1);
    assert(t.len() == e + 1);
    assert(t.drop_last() =~= books.take(e));
    assert(t.last() == books[e]);
}

/// Inserting an entry anywhere adds exactly that entry to the multiset.
pub(crate) proof fn lemma_insert_multiset(
    s: Seq<AggregatedBookQuote>,
    i: int,
    x: AggregatedBookQuote,
)
    requires
        0 <= i <= s.len(),
    ensures
        s.insert(i, x).to_multiset() =~= s.to_multiset().insert(x),
{
    broadcast use vstd::seq_lib::group_to_multiset_ensures;
    broadcast use vstd::multiset::group_multiset_axioms;

    let ins = s.insert(i, x);
    assert(ins =~= s.take(i) + (seq![x] + s.skip(i)));
    vstd::seq_lib::lemma_multiset_commutative(s.take(i), seq![x] + s.skip(i));
    vstd::seq_lib::lemma_multiset_commutative(seq![x], s.skip(i));
    assert(seq![x] =~= Seq::empty().push(x));
    assert(seq![x].to_multiset() =~= Multiset::empty().insert(x));
    assert(s =~= s.take(i) + s.skip(i));
    vstd::seq_lib::lemma_multiset_commutative(s.take(i), s.skip(i));
    assert forall|y: AggregatedBookQuote| true implies ins.to_multiset().count(y) == s
        .to_multiset()
        .insert(x)
        .count(y) by {
        assert(ins.to_multiset().count(y) == s.take(i).to_multiset().count(y) + (seq![
            x,
        ].to_multiset().count(y) + s.skip(i).to_multiset().count(y)));
        assert(s.to_multiset().count(y) == s.take(i).to_multiset().count(y) + s.skip(
            i,
        ).to_multiset().count(y));
    }
}

/// Law: the merge contract determines the result. Any two strategies that
/// meet it return the same answer on the same books, previous top, depth and
/// direction.
pub proof fn lemma_merge_post_deterministic(
    books: Seq<Seq<ExchangeQuote>>,
    old_top: Seq<AggregatedBookQuote>,
    depth: int,
    reverse: bool,
    r1: Option<Seq<AggregatedBookQuote>>,
    r2: Option<Seq<AggregatedBookQuote>>,
)
    requires
        merge_post(books, old_top, depth, reverse, r1),
        merge_post(books, old_top, depth, reverse, r2),
    ensures
        r1 == r2,
{
}

/// Law: merging the books whose ranked top was already published reports no
/// change.
pub proof fn lemma_merge_post_no_change(
    books: Seq<Seq<ExchangeQuote>>,
    old_top: Seq<AggregatedBookQuote>,
    depth: int,
    reverse: bool,
    result: Option<Seq<AggregatedBookQuote>>,
)
    requires
        merge_post(books, old_top, depth, reverse, result),
        old_top == ranked_top(books, depth, reverse),
    ensures
        result is None,
{
}

/// Law: the ranked top never holds more than `depth` entries, whatever the
/// books hold.
pub proof fn lemma_ranked_top_depth(books: Seq<Seq<ExchangeQuote>>, depth: int, reverse: bool)
    requires
        depth >= 0,
    ensures
        ranked_top(books, depth, reverse).len() <= depth,
        ranked_top(books, depth, reverse).len() == vstd::math::min(
            depth,
            all_tagged(books, depth).len() as int,
        ),
{
    let all = all_tagged(books, depth);
    let leq = ranking_leq(reverse);
    lemma_ranking_leq_total_ordering(reverse);
    all.lemma_sort_by_ensures(leq);
    broadcast use vstd::seq_lib::group_to_multiset_ensures;

    assert(all.sort_by(leq).to_multiset().len() == all.to_multiset().len());
}

} // verus!
