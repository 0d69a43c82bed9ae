//! The two interchangeable merge strategies.
//!
//! Both meet the same contract, [`crate::merge_spec::merge_post`]: return
//! the canonical ranked top when it differs from the previously published
//! one, nothing otherwise. [`VecSortMergeQuotes`] rebuilds and sorts the
//! whole union on every call; [`IterativeMergeQuotes`] runs a k-way merge
//! over the pre-sorted lists with one cursor per exchange.

use vstd::multiset::Multiset;
use vstd::prelude::*;
use vstd::relations::sorted_by;

use crate::merge_spec::all_tagged;
use crate::merge_spec::books_sorted;
use crate::merge_spec::books_view;
use crate::merge_spec::lemma_all_tagged_take_succ;
use crate::merge_spec::lemma_insert_multiset;
use crate::merge_spec::lemma_skip_succ_multiset;
use crate::merge_spec::lemma_sort_by_len;
use crate::merge_spec::merge_post;
use crate::merge_spec::ranked_top;
use crate::merge_spec::tagged_book;
use crate::model::lemma_ranking_leq_total_ordering;
use crate::model::ranking_le;
use crate::model::ranking_leq;
use crate::model::AggregatedBookQuote;
use crate::model::ExchangeQuote;

verus! {

/// A merge strategy: combines per-exchange sorted level lists into one
/// ranked top and detects whether it differs from the previous one.
pub trait MergeQuotes: Sized {
    /// The strategy's scratch state is ready for the next call.
    spec fn wf(&self) -> bool;

    /// The configured ranked-top depth.
    spec fn depth(&self) -> usize;

    /// Whether the strategy accepts `n` per-exchange lists in one call.
    spec fn accepts(&self, n: nat) -> bool;

    /// Merge the books and report the new ranked top when it differs from
    /// `old_top`. Never mutates the books or `old_top`.
    fn merge_quotes(
        &mut self,
        exchanges_quotes: &[Vec<ExchangeQuote>],
        old_top: &[AggregatedBookQuote],
        reverse_ordering: bool,
    ) -> (r: Option<Vec<AggregatedBookQuote>>)
        requires
            old(self).wf(),
            old(self).accepts(exchanges_quotes@.len() as nat),
            books_sorted(books_view(exchanges_quotes@), reverse_ordering),
        ensures
            final(self).wf(),
            final(self).depth() == old(self).depth(),
            forall|n: nat| final(self).accepts(n) == old(self).accepts(n),
            merge_post(
                books_view(exchanges_quotes@),
                old_top@,
                old(self).depth() as int,
                reverse_ordering,
                match r {
                    Option::Some(v) => Option::Some(v@),
                    Option::None => Option::None,
                },
            ),
    ;
}

/// Where `x` belongs in a ranking-sorted list: the first position whose
/// entry does not rank before `x`.
fn insert_position(out: &Vec<AggregatedBookQuote>, x: &AggregatedBookQuote, reverse: bool) -> (j:
    usize)
    requires
        sorted_by(out@, ranking_leq(reverse)),
    ensures
        j <= out@.len(),
        forall|t: int| 0 <= t < j ==> ranking_leq(reverse)(#[trigger] out@[t], *x),
        j < out@.len() ==> ranking_leq(reverse)(*x, out@[j as int]),
{
    let mut j: usize = 0;
    while j < out.len()
        invariant
            j <= out@.len(),
            sorted_by(out@, ranking_leq(reverse)),
            forall|t: int| 0 <= t < j ==> ranking_leq(reverse)(#[trigger] out@[t], *x),
        decreases out@.len() - j,
    {
        if !ranking_le(&out[j], x, reverse) {
            proof {
                lemma_ranking_leq_total_ordering(reverse);
            }
            return j;
        }
        j += 1;
    }
    j
}

/// Inserts `x` into a ranking-sorted list, keeping it sorted.
fn sorted_insert(out: &mut Vec<AggregatedBookQuote>, x: AggregatedBookQuote, reverse: bool)
    requires
        sorted_by(old(out)@, ranking_leq(reverse)),
        old(out)@.len() < usize::MAX,
    ensures
        sorted_by(final(out)@, ranking_leq(reverse)),
        final(out)@.to_multiset() == old(out)@.to_multiset().insert(x),
        final(out)@.len() == old(out)@.len() + 1,
{
    let j = insert_position(out, &x, reverse);
    let ghost pre = out@;
    out.insert(j, x);
    proof {
        lemma_ranking_leq_total_ordering(reverse);
        pre.insert_ensures(j as int, x);
        let leq = ranking_leq(reverse);
        let cur = out@;
        assert forall|a: int, b: int| 0 <= a < b < cur.len() implies leq(
            #[trigger] cur[a],
            #[trigger] cur[b],
        ) by {
            if a < j && b < j {
                assert(cur[a] == pre[a] && cur[b] == pre[b]);
            } else if a < j && b == j {
                assert(cur[a] == pre[a] && cur[b] == x);
            } else if a < j && b > j {
                assert(cur[a] == pre[a] && cur[b] == pre[b - 1]);
                assert(leq(pre[a], pre[b - 1]));
            } else if a == j && b > j {
                assert(cur[a] == x && cur[b] == pre[b - 1]);
                assert(j < pre.len());
                assert(leq(x, pre[j as int]));
                if b - 1 > j {
                    assert(leq(pre[j as int], pre[b - 1]));
                }
            } else {
                assert(cur[a] == pre[a - 1] && cur[b] == pre[b - 1]);
                assert(leq(pre[a - 1], pre[b - 1]));
            }
        }
        lemma_insert_multiset(pre, j as int, x);
    }
}

/// A ranking-sorted copy of `v`, equal to the specification-level sort.
fn sort_quotes(v: &Vec<AggregatedBookQuote>, reverse: bool) -> (out: Vec<AggregatedBookQuote>)
    ensures
        out@ == v@.sort_by(ranking_leq(reverse)),
{
    broadcast use vstd::seq_lib::group_to_multiset_ensures;

    let mut out: Vec<AggregatedBookQuote> = Vec::new();
    let mut i: usize = 0;
    while i < v.len()
        invariant
            i <= v@.len(),
            out@.len() == i,
            sorted_by(out@, ranking_leq(reverse)),
            out@.to_multiset() == v@.take(i as int).to_multiset(),
        decreases v@.len() - i,
    {
        let x = v[i];
        sorted_insert(&mut out, x, reverse);
        proof {
            assert(v@.take(i + 1) =~= v@.take(i as int).push(v@[i as int]));
            vstd::seq_lib::to_multiset_build(v@.take(i as int), v@[i as int]);
        }
        i += 1;
    }
    proof {
        assert(v@.take(v@.len() as int) =~= v@);
        lemma_ranking_leq_total_ordering(reverse);
        v@.lemma_sort_by_ensures(ranking_leq(reverse));
        vstd::seq_lib::lemma_sorted_unique(
            out@,
            v@.sort_by(ranking_leq(reverse)),
            ranking_leq(reverse),
        );
    }
    out
}

/// The full-rebuild strategy: tag every level of every exchange, sort the
/// union by the side's comparator and cut it to the configured depth.
pub struct VecSortMergeQuotes {
    storage: Vec<AggregatedBookQuote>,
    top_book_depth: usize,
}

impl VecSortMergeQuotes {
    /// A strategy for the given depth. The number of exchanges only sizes
    /// the scratch space, which grows on demand.
    pub fn new(top_book_depth: usize, _n_exchanges: usize) -> (s: Self)
        ensures
            s.wf(),
            s.depth() == top_book_depth,
            forall|n: nat| s.accepts(n),
    {
        let storage = Vec::new();
        Self { storage, top_book_depth }
    }
}

impl MergeQuotes for VecSortMergeQuotes {
    closed spec fn wf(&self) -> bool {
        true
    }

    closed spec fn depth(&self) -> usize {
        self.top_book_depth
    }

    closed spec fn accepts(&self, n: nat) -> bool {
        true
    }

    fn merge_quotes(
        &mut self,
        exchanges_quotes: &[Vec<ExchangeQuote>],
        old_top: &[AggregatedBookQuote],
        reverse_ordering: bool,
    ) -> (r: Option<Vec<AggregatedBookQuote>>) {
        let ghost books = books_view(exchanges_quotes@);
        let depth = self.top_book_depth;
        self.storage.clear();

        let n = exchanges_quotes.len();
        let mut e: usize = 0;
        while e < n
            invariant
                e <= n,
                n == books.len(),
                books == books_view(exchanges_quotes@),
                depth == self.top_book_depth,
                self.storage@ == all_tagged(books.take(e as int), depth as int),
            decreases n - e,
        {
            let book = &exchanges_quotes[e];
            let cap = if book.len() < depth {
                book.len()
            } else {
                depth
            };
            let ghost tagged = tagged_book(books[e as int], e as int, depth as int);
            assert(cap == tagged.len());
            let mut i: usize = 0;
            while i < cap
                invariant
                    i <= cap,
                    e < n,
                    n == books.len(),
                    books == books_view(exchanges_quotes@),
                    depth == self.top_book_depth,
                    cap == tagged.len(),
                    tagged == tagged_book(books[e as int], e as int, depth as int),
                    book == &exchanges_quotes@[e as int],
                    cap <= book@.len(),
                    self.storage@ == all_tagged(books.take(e as int), depth as int) + tagged.take(
                        i as int,
                    ),
                decreases cap - i,
            {
                let q = &book[i];
                self.storage.push(
                    AggregatedBookQuote { exchange: e, price: q.price, qty: q.qty },
                );
                proof {
                    assert(tagged.take(i + 1) =~= tagged.take(i as int).push(tagged[i as int]));
                    assert(tagged[i as int] == AggregatedBookQuote {
                        exchange: e,
                        price: book@[i as int].price,
                        qty: book@[i as int].qty,
                    });
                }
                i += 1;
            }
            proof {
                lemma_all_tagged_take_succ(books, depth as int, e as int);
                assert(tagged.take(cap as int) =~= tagged);
            }
            e += 1;
        }
        proof {
            assert(books.take(n as int) =~= books);
        }

        let sorted = sort_quotes(&self.storage, reverse_ordering);
        self.storage = sorted;
        proof {
            lemma_sort_by_len(all_tagged(books, depth as int), reverse_ordering);
        }
        self.storage.truncate(depth);
        assert(self.storage@ == ranked_top(books, depth as int, reverse_ordering));

        let mut top_changed = false;
        if self.storage.len() != old_top.len() {
            top_changed = true;
        } else {
            let mut idx: usize = 0;
            while idx < self.storage.len() && !top_changed
                invariant
                    idx <= self.storage@.len(),
                    self.storage@.len() == old_top@.len(),
                    !top_changed ==> forall|t: int|
                        0 <= t < idx ==> #[trigger] self.storage@[t] == old_top@[t],
                    top_changed ==> self.storage@ != old_top@,
                decreases self.storage@.len() - idx,
            {
                if !(self.storage[idx] == old_top[idx]) {
                    top_changed = true;
                }
                idx += 1;
            }
        }

        if top_changed {
            let mut new_top = Vec::new();
            new_top.append(&mut self.storage);
            Some(new_top)
        } else {
            proof {
                assert(self.storage@ =~= old_top@);
            }
            None
        }
    }
}

/// What one exchange's cursor still has to offer: the suffix of its
/// contribution from the cursor on, nothing once exhausted.
spec fn cursor_rem(
    books: Seq<Seq<ExchangeQuote>>,
    depth: int,
    cursors: Seq<Option<usize>>,
    e: int,
) -> Seq<AggregatedBookQuote> {
    match cursors[e] {
        Option::None => Seq::empty(),
        Option::Some(i) => if i <= tagged_book(books[e], e, depth).len() {
            tagged_book(books[e], e, depth).skip(i as int)
        } else {
            Seq::empty()
        },
    }
}

/// Everything the cursors below `upto` still hold, as one multiset.
spec fn rem_union(
    books: Seq<Seq<ExchangeQuote>>,
    depth: int,
    cursors: Seq<Option<usize>>,
    upto: int,
) -> Multiset<AggregatedBookQuote>
    decreases upto,
{
    if upto <= 0 {
        Multiset::empty()
    } else {
        rem_union(books, depth, cursors, upto - 1).add(
            cursor_rem(books, depth, cursors, upto - 1).to_multiset(),
        )
    }
}

/// The union only depends on the cursors below `upto`.
proof fn lemma_rem_union_frame(
    books: Seq<Seq<ExchangeQuote>>,
    depth: int,
    c1: Seq<Option<usize>>,
    c2: Seq<Option<usize>>,
    upto: int,
)
    requires
        forall|e: int| 0 <= e < upto ==> c1[e] == c2[e],
    ensures
        rem_union(books, depth, c1, upto) == rem_union(books, depth, c2, upto),
    decreases upto,
{
    if upto > 0 {
        lemma_rem_union_frame(books, depth, c1, c2, upto - 1);
        assert(cursor_rem(books, depth, c1, upto - 1) == cursor_rem(books, depth, c2, upto - 1));
    }
}

/// Everything in the union comes from some cursor.
proof fn lemma_rem_union_member(
    books: Seq<Seq<ExchangeQuote>>,
    depth: int,
    cursors: Seq<Option<usize>>,
    upto: int,
    x: AggregatedBookQuote,
)
    requires
        rem_union(books, depth, cursors, upto).contains(x),
    ensures
        exists|e: int|
            0 <= e < upto && (#[trigger] cursor_rem(books, depth, cursors, e)).to_multiset()
                .contains(x),
    decreases upto,
{
    broadcast use vstd::multiset::group_multiset_axioms;

    if upto > 0 {
        if cursor_rem(books, depth, cursors, upto - 1).to_multiset().contains(x) {
        } else {
            lemma_rem_union_member(books, depth, cursors, upto - 1, x);
        }
    }
}

/// Whatever one cursor holds, the union holds.
proof fn lemma_rem_union_at_least(
    books: Seq<Seq<ExchangeQuote>>,
    depth: int,
    cursors: Seq<Option<usize>>,
    upto: int,
    e: int,
    x: AggregatedBookQuote,
)
    requires
        0 <= e < upto,
        cursor_rem(books, depth, cursors, e).to_multiset().contains(x),
    ensures
        rem_union(books, depth, cursors, upto).contains(x),
    decreases upto,
{
    broadcast use vstd::multiset::group_multiset_axioms;

    if e < upto - 1 {
        lemma_rem_union_at_least(books, depth, cursors, upto - 1, e, x);
    }
}

/// Dead cursors hold nothing.
proof fn lemma_rem_union_empty(
    books: Seq<Seq<ExchangeQuote>>,
    depth: int,
    cursors: Seq<Option<usize>>,
    upto: int,
)
    requires
        forall|e: int| 0 <= e < upto ==> (#[trigger] cursors[e]) is None,
    ensures
        rem_union(books, depth, cursors, upto) == Multiset::<AggregatedBookQuote>::empty(),
    decreases upto,
{
    broadcast use vstd::multiset::group_multiset_axioms;

    if upto > 0 {
        lemma_rem_union_empty(books, depth, cursors, upto - 1);
        assert(cursor_rem(books, depth, cursors, upto - 1) == Seq::<AggregatedBookQuote>::empty());
        assert(cursor_rem(books, depth, cursors, upto - 1).to_multiset().len() == 0) by {
            broadcast use vstd::seq_lib::group_to_multiset_ensures;

        }
        assert(rem_union(books, depth, cursors, upto) =~= Multiset::empty());
    }
}

/// Fresh cursors hold exactly the whole union of contributions.
proof fn lemma_rem_union_full(
    books: Seq<Seq<ExchangeQuote>>,
    depth: int,
    cursors: Seq<Option<usize>>,
    upto: int,
)
    requires
        0 <= upto <= books.len(),
        forall|e: int|
            0 <= e < upto ==> (#[trigger] cursor_rem(books, depth, cursors, e)) == tagged_book(
                books[e],
                e,
                depth,
            ),
    ensures
        rem_union(books, depth, cursors, upto) == all_tagged(books.take(upto), depth).to_multiset(),
    decreases upto,
{
    broadcast use vstd::multiset::group_multiset_axioms;

    if upto <= 0 {
        assert(all_tagged(books.take(0), depth).to_multiset().len() == 0) by {
            broadcast use vstd::seq_lib::group_to_multiset_ensures;

        }
        assert(rem_union(books, depth, cursors, upto) =~= all_tagged(
            books.take(upto),
            depth,
        ).to_multiset());
    } else {
        lemma_rem_union_full(books, depth, cursors, upto - 1);
        lemma_all_tagged_take_succ(books, depth, upto - 1);
        vstd::seq_lib::lemma_multiset_commutative(
            all_tagged(books.take(upto - 1), depth),
            tagged_book(books[upto - 1], upto - 1, depth),
        );
        assert(rem_union(books, depth, cursors, upto) =~= all_tagged(
            books.take(upto),
            depth,
        ).to_multiset());
    }
}

/// Advancing one cursor past its head removes exactly that head from the
/// union.
proof fn lemma_rem_union_advance(
    books: Seq<Seq<ExchangeQuote>>,
    depth: int,
    c1: Seq<Option<usize>>,
    c2: Seq<Option<usize>>,
    e: int,
    h: AggregatedBookQuote,
    upto: int,
)
    requires
        0 <= e < upto,
        forall|t: int| 0 <= t < upto && t != e ==> c1[t] == c2[t],
        cursor_rem(books, depth, c1, e).to_multiset() == cursor_rem(
            books,
            depth,
            c2,
            e,
        ).to_multiset().insert(h),
    ensures
        rem_union(books, depth, c1, upto) == rem_union(books, depth, c2, upto).insert(h),
    decreases upto,
{
    broadcast use vstd::multiset::group_multiset_axioms;

    if e == upto - 1 {
        lemma_rem_union_frame(books, depth, c1, c2, upto - 1);
        assert(rem_union(books, depth, c1, upto) =~= rem_union(books, depth, c2, upto).insert(h));
    } else {
        lemma_rem_union_advance(books, depth, c1, c2, e, h, upto - 1);
        assert(cursor_rem(books, depth, c1, upto - 1) == cursor_rem(books, depth, c2, upto - 1));
        assert(rem_union(books, depth, c1, upto) =~= rem_union(books, depth, c2, upto).insert(h));
    }
}

/// The incremental k-way merge strategy: one cursor per exchange, advanced
/// as its quotes win; each round selects the best cursor head under the
/// side's comparator. No sorting is needed because the lists arrive sorted.
pub struct IterativeMergeQuotes {
    top_of_book: Vec<AggregatedBookQuote>,
    indexes: Vec<Option<usize>>,
    empty_indexes: Vec<usize>,
    top_book_depth: usize,
    exchanges_number: usize,
}

impl IterativeMergeQuotes {
    /// A strategy for the given depth and number of exchanges.
    pub fn new(top_book_depth: usize, exchanges_number: usize) -> (s: Self)
        ensures
            s.wf(),
            s.depth() == top_book_depth,
            forall|n: nat| s.accepts(n) <==> n == exchanges_number,
    {
        let top_of_book = Vec::new();
        let indexes = Vec::new();
        let empty_indexes = Vec::new();
        Self { top_of_book, indexes, empty_indexes, top_book_depth, exchanges_number }
    }
}

impl MergeQuotes for IterativeMergeQuotes {
    closed spec fn wf(&self) -> bool {
        true
    }

    closed spec fn depth(&self) -> usize {
        self.top_book_depth
    }

    closed spec fn accepts(&self, n: nat) -> bool {
        n == self.exchanges_number
    }

    #[verifier::loop_isolation(false)]
    fn merge_quotes(
        &mut self,
        exchanges_quotes: &[Vec<ExchangeQuote>],
        old_top: &[AggregatedBookQuote],
        reverse_ordering: bool,
    ) -> (r: Option<Vec<AggregatedBookQuote>>) {
        let ghost books = books_view(exchanges_quotes@);
        let depth = self.top_book_depth;
        let n = exchanges_quotes.len();
        self.top_of_book.clear();
        self.empty_indexes.clear();
        self.indexes.clear();

        let mut e: usize = 0;
        while e < n
            invariant
                e <= n,
                self.indexes@.len() == e,
                self.top_of_book@.len() == 0,
                self.top_book_depth == depth,
                self.exchanges_number == old(self).exchanges_number,
                forall|t: int|
                    0 <= t < e ==> #[trigger] self.indexes@[t] == (if books[t].len() > 0 {
                        Option::Some(0usize)
                    } else {
                        Option::<usize>::None
                    }),
            decreases n - e,
        {
            if exchanges_quotes[e].len() == 0 {
                self.indexes.push(None);
                self.empty_indexes.push(e);
            } else {
                self.indexes.push(Some(0));
            }
            e += 1;
        }

        let ghost all = all_tagged(books, depth as int);
        let ghost leq = ranking_leq(reverse_ordering);
        let ghost sorted_all = all.sort_by(leq);
        let ghost m_len = vstd::math::min(depth as int, all.len() as int);

        proof {
            assert forall|t: int| 0 <= t < n implies #[trigger] cursor_rem(
                books,
                depth as int,
                self.indexes@,
                t,
            ) == tagged_book(books[t], t, depth as int) by {
                if books[t].len() == 0 {
                    assert(tagged_book(books[t], t, depth as int) =~= Seq::<
                        AggregatedBookQuote,
                    >::empty());
                } else {
                    assert(tagged_book(books[t], t, depth as int).skip(0) =~= tagged_book(
                        books[t],
                        t,
                        depth as int,
                    ));
                }
            }
            lemma_rem_union_full(books, depth as int, self.indexes@, n as int);
            assert(books.take(n as int) =~= books);
            lemma_ranking_leq_total_ordering(reverse_ordering);
            all.lemma_sort_by_ensures(leq);
            lemma_sort_by_len(all, reverse_ordering);
            assert(sorted_all.skip(0) =~= sorted_all);
            assert(sorted_all.take(0) =~= Seq::<AggregatedBookQuote>::empty());
            assert(old_top@.take(0) =~= Seq::<AggregatedBookQuote>::empty());
            assert(self.top_of_book@ =~= Seq::<AggregatedBookQuote>::empty());
        }

        let mut top_changed = false;
        let mut exhausted = false;

        while self.top_of_book.len() < depth && !exhausted
            invariant
                rem_union(books, depth as int, self.indexes@, n as int) == sorted_all.skip(
                    self.top_of_book@.len() as int,
                ).to_multiset(),
                exhausted ==> self.top_of_book@.len() == m_len,
                self.indexes@.len() == n,
                self.top_book_depth == depth,
                self.exchanges_number == old(self).exchanges_number,
                self.top_of_book@.len() <= m_len,
                self.top_of_book@ == sorted_all.take(self.top_of_book@.len() as int),
                forall|t: int|
                    0 <= t < n ==> ((#[trigger] self.indexes@[t]) matches Option::Some(i)
                        ==> i < books[t].len() && i <= self.top_of_book@.len()),
                top_changed == !(self.top_of_book@.len() <= old_top@.len() && old_top@.take(
                    self.top_of_book@.len() as int,
                ) == self.top_of_book@),
            decreases
                depth - self.top_of_book@.len(),
                if exhausted {
                    0int
                } else {
                    1int
                },
        {
            let ghost k = self.top_of_book@.len() as int;
            let mut best: Option<AggregatedBookQuote> = None;
            let mut best_exchange: usize = 0;
            let mut best_index: usize = 0;
            let mut e2: usize = 0;
            while e2 < n
                invariant
                    e2 <= n,
                    best matches Option::None ==> forall|t: int|
                        0 <= t < e2 ==> (#[trigger] self.indexes@[t]) is None,
                    best matches Option::Some(b) ==> {
                        &&& best_exchange < e2
                        &&& self.indexes@[best_exchange as int] == Option::Some(best_index)
                        &&& best_index < tagged_book(
                            books[best_exchange as int],
                            best_exchange as int,
                            depth as int,
                        ).len()
                        &&& b == tagged_book(
                            books[best_exchange as int],
                            best_exchange as int,
                            depth as int,
                        )[best_index as int]
                    },
                    best matches Option::Some(b) ==> forall|t: int|
                        0 <= t < e2 ==> ((#[trigger] self.indexes@[t]) matches Option::Some(i)
                            ==> leq(
                            b,
                            tagged_book(books[t], t, depth as int)[i as int],
                        )),
                decreases n - e2,
            {
                let cursor = self.indexes[e2];
                if let Some(index) = cursor {
                    let ghost te = e2 as int;
                    let ghost tag_e = tagged_book(books[te], te, depth as int);
                    proof {
                        assert(self.indexes@[te] == cursor);
                        assert(index < books[te].len());
                        assert(index < self.top_of_book@.len() + 1);
                        assert(index < tag_e.len());
                    }
                    let q = &exchanges_quotes[e2][index];
                    let agg = AggregatedBookQuote { exchange: e2, price: q.price, qty: q.qty };
                    proof {
                        assert(agg == tag_e[index as int]);
                        lemma_ranking_leq_total_ordering(reverse_ordering);
                    }
                    match best {
                        Some(b) => {
                            let replace = match agg.cmp(&b) {
                                core::cmp::Ordering::Less => !reverse_ordering,
                                core::cmp::Ordering::Greater => reverse_ordering,
                                core::cmp::Ordering::Equal => false,
                            };
                            if replace {
                                best = Some(agg);
                                best_exchange = e2;
                                best_index = index;
                            }
                        }
                        None => {
                            best = Some(agg);
                            best_exchange = e2;
                            best_index = index;
                        }
                    }
                }
                e2 += 1;
            }

            let k_exec = self.top_of_book.len();
            let ghost cursors_pre = self.indexes@;

            match best {
                None => {
                    proof {
                        lemma_rem_union_empty(books, depth as int, cursors_pre, n as int);
                        broadcast use vstd::seq_lib::group_to_multiset_ensures;
                        broadcast use vstd::multiset::group_multiset_axioms;

                        assert(sorted_all.skip(k).to_multiset().len() == 0);
                        assert(sorted_all.skip(k).len() == 0);
                        assert(k == sorted_all.len());
                    }
                    exhausted = true;
                }
                Some(b) => {
                    proof {
                        lemma_ranking_leq_total_ordering(reverse_ordering);
                        let m = rem_union(books, depth as int, cursors_pre, n as int);
                        assert forall|x: AggregatedBookQuote| m.contains(x) implies leq(b, x) by {
                            broadcast use vstd::seq_lib::group_to_multiset_ensures;
                            broadcast use vstd::multiset::group_multiset_axioms;

                            lemma_rem_union_member(books, depth as int, cursors_pre, n as int, x);
                            let t = choose|t: int|
                                0 <= t < n && (#[trigger] cursor_rem(
                                    books,
                                    depth as int,
                                    cursors_pre,
                                    t,
                                )).to_multiset().contains(x);
                            let rem_t = cursor_rem(books, depth as int, cursors_pre, t);
                            let tag_t = tagged_book(books[t], t, depth as int);
                            if cursors_pre[t] is None {
                                assert(rem_t.to_multiset().len() == 0);
                                assert(false);
                            }
                            let i = cursors_pre[t]->Some_0;
                            assert(i < books[t].len());
                            assert(i < tag_t.len());
                            if i > tag_t.len() {
                                assert(rem_t.to_multiset().len() == 0);
                                assert(false);
                            }
                            crate::merge_spec::lemma_tagged_book_strict(
                                books[t],
                                t,
                                depth as int,
                                reverse_ordering,
                            );
                            crate::merge_spec::lemma_sorted_skip(
                                tag_t,
                                reverse_ordering,
                                i as int,
                            );
                            crate::merge_spec::lemma_sorted_head_least(
                                tag_t.skip(i as int),
                                reverse_ordering,
                                x,
                            );
                            assert(tag_t.skip(i as int)[0] == tag_t[i as int]);
                            assert(leq(tag_t[i as int], x));
                            assert(leq(b, tag_t[i as int]));
                        }
                        let tag_b = tagged_book(
                            books[best_exchange as int],
                            best_exchange as int,
                            depth as int,
                        );
                        let rem_b = cursor_rem(books, depth as int, cursors_pre, best_exchange as int);
                        assert(rem_b == tag_b.skip(best_index as int));
                        assert(rem_b[0] == b);
                        assert(rem_b.contains(b));
                        assert(rem_b.to_multiset().contains(b)) by {
                            broadcast use vstd::seq_lib::group_to_multiset_ensures;

                        }
                        lemma_rem_union_at_least(
                            books,
                            depth as int,
                            cursors_pre,
                            n as int,
                            best_exchange as int,
                            b,
                        );
                        lemma_selected_best(sorted_all, reverse_ordering, k, b);
                    }
                    let ghost top_pre = self.top_of_book@;
                    let ghost changed_pre = top_changed;
                    if k_exec >= old_top.len() || !(old_top[k_exec] == b) {
                        top_changed = true;
                    }
                    self.top_of_book.push(b);
                    proof {
                        assert(sorted_all.take(k + 1) =~= sorted_all.take(k).push(sorted_all[k]));
                        assert(self.top_of_book@ == sorted_all.take(k + 1));
                        assert(k + 1 <= m_len);
                        // the running change flag matches the prefix comparison
                        if changed_pre {
                            if k + 1 <= old_top@.len() && old_top@.take(k + 1)
                                == self.top_of_book@ {
                                assert(old_top@.take(k + 1).take(k) =~= old_top@.take(k));
                                assert(self.top_of_book@.take(k) =~= top_pre);
                                assert(false);
                            }
                        } else {
                            if k < old_top@.len() && old_top@[k] == b {
                                assert(old_top@.take(k + 1) =~= old_top@.take(k).push(old_top@[k]));
                                assert(old_top@.take(k + 1) == self.top_of_book@);
                            } else if k >= old_top@.len() {
                            } else {
                                if k + 1 <= old_top@.len() && old_top@.take(k + 1)
                                    == self.top_of_book@ {
                                    assert(old_top@.take(k + 1)[k] == old_top@[k]);
                                    assert(false);
                                }
                            }
                        }
                    }
                    let next = best_index + 1;
                    let ghost tag_b = tagged_book(
                        books[best_exchange as int],
                        best_exchange as int,
                        depth as int,
                    );
                    if next >= exchanges_quotes[best_exchange].len() {
                        self.indexes[best_exchange] = None;
                        self.empty_indexes.push(best_exchange);
                        proof {
                            assert(best_index == books[best_exchange as int].len() - 1);
                            assert(tag_b.len() == books[best_exchange as int].len());
                            assert(tag_b.skip(best_index as int) =~= Seq::<
                                AggregatedBookQuote,
                            >::empty().push(b));
                            broadcast use vstd::seq_lib::group_to_multiset_ensures;
                            broadcast use vstd::multiset::group_multiset_axioms;

                            assert(Seq::<AggregatedBookQuote>::empty().to_multiset().len() == 0);
                            assert(Seq::<AggregatedBookQuote>::empty().to_multiset()
                                =~= Multiset::<AggregatedBookQuote>::empty());
                            assert(cursor_rem(books, depth as int, cursors_pre, best_exchange as int)
                                .to_multiset() == cursor_rem(
                                books,
                                depth as int,
                                self.indexes@,
                                best_exchange as int,
                            ).to_multiset().insert(b));
                        }
                    } else {
                        self.indexes[best_exchange] = Some(next);
                        proof {
                            assert(next <= tag_b.len());
                            lemma_skip_succ_multiset(tag_b, best_index as int);
                            assert(cursor_rem(books, depth as int, cursors_pre, best_exchange as int)
                                .to_multiset() == cursor_rem(
                                books,
                                depth as int,
                                self.indexes@,
                                best_exchange as int,
                            ).to_multiset().insert(b));
                        }
                    }
                    proof {
                        lemma_rem_union_advance(
                            books,
                            depth as int,
                            cursors_pre,
                            self.indexes@,
                            best_exchange as int,
                            b,
                            n as int,
                        );
                        lemma_skip_succ_multiset(sorted_all, k);
                        broadcast use vstd::multiset::group_multiset_axioms;

                        let m_new = rem_union(books, depth as int, self.indexes@, n as int);
                        let m_next = sorted_all.skip(k + 1).to_multiset();
                        assert(m_new.insert(b) == m_next.insert(b));
                        assert forall|v: AggregatedBookQuote| true implies m_new.count(v)
                            == m_next.count(v) by {
                            assert(m_new.insert(b).count(v) == m_next.insert(b).count(v));
                        }
                        assert(m_new =~= m_next);
                    }
                }
            }
        }

        if self.top_of_book.len() != old_top.len() {
            top_changed = true;
        }

        proof {
            assert(ranked_top(books, depth as int, reverse_ordering) == sorted_all.take(m_len));
        }

        if top_changed {
            let mut new_top = Vec::new();
            new_top.append(&mut self.top_of_book);
            proof {
                if new_top@ == old_top@ {
                    assert(old_top@.take(m_len) =~= old_top@);
                    assert(false);
                }
            }
            Some(new_top)
        } else {
            proof {
                assert(old_top@.take(m_len) =~= old_top@);
                assert(self.top_of_book@ =~= old_top@);
            }
            None
        }
    }
}

/// A candidate that sits in the remainder and ranks no worse than all of it
/// is precisely the next entry of the sorted union.
proof fn lemma_selected_best(
    sorted_all: Seq<AggregatedBookQuote>,
    reverse: bool,
    k: int,
    b: AggregatedBookQuote,
)
    requires
        sorted_by(sorted_all, ranking_leq(reverse)),
        0 <= k <= sorted_all.len(),
        sorted_all.skip(k).to_multiset().contains(b),
        forall|x: AggregatedBookQuote|
            sorted_all.skip(k).to_multiset().contains(x) ==> ranking_leq(reverse)(b, x),
    ensures
        k < sorted_all.len(),
        b == sorted_all[k],
{
    broadcast use vstd::seq_lib::group_to_multiset_ensures;

    lemma_ranking_leq_total_ordering(reverse);
    let s = sorted_all.skip(k);
    crate::merge_spec::lemma_sorted_skip(sorted_all, reverse, k);
    crate::merge_spec::lemma_sorted_head_least(s, reverse, b);
    assert(s[0] == sorted_all[k]);
    assert(s.contains(s[0]));
    assert(s.to_multiset().contains(s[0]));
    assert(ranking_leq(reverse)(b, s[0]));
}

} // verus!
