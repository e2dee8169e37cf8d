//! Running totals over finished downloads.
use vstd::prelude::*;
use dashmap::DashMap;
use crate::config::{Span, Strategy};

verus! {

broadcast use {
    vstd::seq_lib::group_to_multiset_ensures,
    vstd::multiset::group_multiset_axioms,
    vstd::multiset::group_multiset_properties,
};

#[verifier::external_type_specification]
#[verifier::external_body]
#[verifier::reject_recursive_types(K)]
#[verifier::reject_recursive_types(V)]
#[verifier::reject_recursive_types(S)]
pub struct ExDashMap<K, V, S>(DashMap<K, V, S>);

/// A map from strategies to counts.
pub type StrategyCounts = DashMap<Strategy, u64>;

/// What a strategy-count map holds: each strategy seen and its count.
pub uninterp spec fn count_entries(m: StrategyCounts) -> Map<Strategy, u64>;

/// `DashMap::new`: an empty map.
#[verifier::external_body]
fn counts_new() -> (r: StrategyCounts)
    ensures
        count_entries(r).dom() == Set::<Strategy>::empty(),
{
    DashMap::new()
}

/// `DashMap::get`, copying the value out: the count stored for `k`, if any.
#[verifier::external_body]
fn counts_get(m: &StrategyCounts, k: Strategy) -> (r: Option<u64>)
    ensures
        r == (if count_entries(*m).contains_key(k) {
            Some(count_entries(*m)[k])
        } else {
            None
        }),
{
    m.get(&k).map(|v| *v)
}

/// `DashMap::insert`: stores `v` for `k`, replacing any earlier value.
#[verifier::external_body]
fn counts_insert(m: &mut StrategyCounts, k: Strategy, v: u64)
    ensures
        count_entries(*final(m)) == count_entries(*old(m)).insert(k, v),
{
    m.insert(k, v);
}

/// The sum of `a` and `b` modulo 2^64, as an atomic counter adds.
pub open spec fn wrapped_sum(a: u64, b: u64) -> u64 {
    ((a + b) % 0x1_0000_0000_0000_0000int) as u64
}

/// The download total after `n` more downloads are recorded, starting from
/// `start`: `record_download` adds one each time.
pub open spec fn downloads_after(start: u64, n: nat) -> u64
    decreases n,
{
    if n == 0 {
        start
    } else {
        wrapped_sum(downloads_after(start, (n - 1) as nat), 1)
    }
}

/// The byte total after downloads of the given sizes are recorded, in
/// order, starting from `start`.
pub open spec fn bytes_after(start: u64, sizes: Seq<u64>) -> u64
    decreases sizes.len(),
{
    if sizes.len() == 0 {
        start
    } else {
        wrapped_sum(bytes_after(start, sizes.drop_last()), sizes.last())
    }
}

/// The sum of the sizes.
pub open spec fn size_sum(sizes: Seq<u64>) -> int
    decreases sizes.len(),
{
    if sizes.len() == 0 {
        0
    } else {
        size_sum(sizes.drop_last()) + sizes.last()
    }
}

/// The count stored for `s` in a strategy-count map, 0 when absent.
pub open spec fn count_in(m: Map<Strategy, u64>, s: Strategy) -> u64 {
    if m.contains_key(s) {
        m[s]
    } else {
        0
    }
}

/// The strategy counts after downloads made with the given strategies are
/// recorded, in order, starting from `start`.
pub open spec fn counts_after(start: Map<Strategy, u64>, strategies: Seq<Strategy>) -> Map<Strategy, u64>
    decreases strategies.len(),
{
    if strategies.len() == 0 {
        start
    } else {
        let m = counts_after(start, strategies.drop_last());
        let s = strategies.last();
        m.insert(s, (count_in(m, s) + 1) as u64)
    }
}

/// 2^64, where the totals wrap.
pub open spec fn total_modulus() -> int {
    0x1_0000_0000_0000_0000int
}

/// Removing one size from a list takes it off the sum.
proof fn lemma_sum_remove(sizes: Seq<u64>, j: int)
    requires
        0 <= j < sizes.len(),
    ensures
        size_sum(sizes) == size_sum(sizes.remove(j)) + sizes[j],
    decreases sizes.len(),
{
    if j < sizes.len() - 1 {
        let d = sizes.drop_last();
        lemma_sum_remove(d, j);
        assert(sizes.remove(j).drop_last() =~= d.remove(j));
        assert(sizes.remove(j).last() == sizes.last());
    } else {
        assert(sizes.remove(j) =~= sizes.drop_last());
    }
}

/// Sizes that are the same up to order have the same sum.
proof fn lemma_sum_order(a: Seq<u64>, b: Seq<u64>)
    requires
        a.to_multiset() == b.to_multiset(),
    ensures
        size_sum(a) == size_sum(b),
    decreases a.len(),
{
    if a.len() == 0 {
        assert(b.to_multiset().len() == 0);
        assert(b.len() == 0);
    } else {
        let x = a.last();
        let a1 = a.drop_last();
        assert(a1.push(x) =~= a);
        assert(a.to_multiset() == a1.to_multiset().insert(x));
        assert(b.to_multiset().count(x) > 0);
        assert(b.contains(x));
        let j = choose|j: int| 0 <= j < b.len() && b[j] == x;
        let b1 = b.remove(j);
        assert(b1.to_multiset() == b.to_multiset().remove(x));
        assert(a1.to_multiset() =~= b1.to_multiset());
        lemma_sum_order(a1, b1);
        lemma_sum_remove(b, j);
    }
}

/// The byte total wraps the sum: starting from `start`, it is
/// `start` plus the sizes, modulo 2^64.
proof fn lemma_bytes_after(start: u64, sizes: Seq<u64>)
    ensures
        bytes_after(start, sizes) == (start + size_sum(sizes)) % total_modulus(),
    decreases sizes.len(),
{
    if sizes.len() == 0 {
        vstd::arithmetic::div_mod::lemma_small_mod(start as nat, total_modulus() as nat);
    } else {
        let d = sizes.drop_last();
        let x = sizes.last();
        lemma_bytes_after(start, d);
        vstd::arithmetic::div_mod::lemma_small_mod(x as nat, total_modulus() as nat);
        vstd::arithmetic::div_mod::lemma_add_mod_noop(start + size_sum(d), x as int, total_modulus());
    }
}

/// The download total counts up by one per download, wrapping at 2^64.
proof fn lemma_downloads_after(start: u64, n: nat)
    ensures
        downloads_after(start, n) == (start + n) % total_modulus(),
    decreases n,
{
    if n == 0 {
        vstd::arithmetic::div_mod::lemma_small_mod(start as nat, total_modulus() as nat);
    } else {
        lemma_downloads_after(start, (n - 1) as nat);
        vstd::arithmetic::div_mod::lemma_small_mod(1, total_modulus() as nat);
        vstd::arithmetic::div_mod::lemma_add_mod_noop(start + n - 1, 1, total_modulus());
    }
}

/// Each strategy's count is how often it occurs among the recorded
/// downloads, while that stays below 2^64.
proof fn lemma_counts_after(strategies: Seq<Strategy>)
    requires
        strategies.len() < total_modulus(),
    ensures
        forall|s: Strategy| #[trigger] count_in(counts_after(Map::empty(), strategies), s) == strategies.to_multiset().count(s),
    decreases strategies.len(),
{
    if strategies.len() == 0 {
        assert(strategies.to_multiset().len() == 0);
    } else {
        let d = strategies.drop_last();
        let x = strategies.last();
        lemma_counts_after(d);
        assert(d.push(x) =~= strategies);
        assert(strategies.to_multiset() == d.to_multiset().insert(x));
        assert(d.to_multiset().count(x) <= d.to_multiset().len());
        let m = counts_after(Map::empty(), d);
        assert forall|s: Strategy| #[trigger] count_in(counts_after(Map::empty(), strategies), s) == strategies.to_multiset().count(s) by {
            assert(count_in(m, s) == d.to_multiset().count(s));
            if s == x {
                assert(count_in(m, x) + 1 < total_modulus());
            }
        }
    }
}

/// No recorded download is lost and the order of recording does not
/// matter: starting from fresh metrics, after `record_download` has been
/// called once for each download, the download total is the number of
/// downloads (below 2^64), the byte total is the sum of their sizes modulo
/// 2^64, each strategy's count is how many of them used it, and downloads
/// recorded in another order give the same totals.
pub proof fn lemma_totals(sizes: Seq<u64>, strategies: Seq<Strategy>, sizes2: Seq<u64>, strategies2: Seq<Strategy>)
    requires
        sizes.len() == strategies.len(),
        strategies.len() < total_modulus(),
        sizes2.to_multiset() == sizes.to_multiset(),
        strategies2.to_multiset() == strategies.to_multiset(),
    ensures
        downloads_after(0, strategies.len()) == strategies.len(),
        bytes_after(0, sizes) == size_sum(sizes) % total_modulus(),
        forall|s: Strategy| #[trigger] count_in(counts_after(Map::empty(), strategies), s) == strategies.to_multiset().count(s),
        bytes_after(0, sizes2) == bytes_after(0, sizes),
        counts_after(Map::empty(), strategies2) == counts_after(Map::empty(), strategies),
{
    lemma_downloads_after(0, strategies.len());
    vstd::arithmetic::div_mod::lemma_small_mod(strategies.len(), total_modulus() as nat);
    lemma_bytes_after(0, sizes);
    lemma_bytes_after(0, sizes2);
    lemma_sum_order(sizes2, sizes);
    lemma_counts_after(strategies);
    assert(strategies2.len() == strategies.len()) by {
        assert(strategies2.len() == strategies2.to_multiset().len());
        assert(strategies.len() == strategies.to_multiset().len());
    }
    lemma_counts_after(strategies2);
    assert(counts_after(Map::empty(), strategies2) =~= counts_after(Map::empty(), strategies)) by {
        lemma_counts_domain(strategies);
        lemma_counts_domain(strategies2);
        assert forall|s: Strategy| counts_after(Map::empty(), strategies2).contains_key(s) implies
            counts_after(Map::empty(), strategies2)[s] == counts_after(Map::empty(), strategies)[s] by {
            assert(count_in(counts_after(Map::empty(), strategies2), s) == count_in(counts_after(Map::empty(), strategies), s));
        }
    }
}

/// A strategy has an entry exactly when it was recorded.
proof fn lemma_counts_domain(strategies: Seq<Strategy>)
    ensures
        forall|s: Strategy| #[trigger] counts_after(Map::empty(), strategies).contains_key(s) <==> strategies.to_multiset().count(s) > 0,
    decreases strategies.len(),
{
    if strategies.len() == 0 {
        assert(strategies.to_multiset().len() == 0);
    } else {
        let d = strategies.drop_last();
        let x = strategies.last();
        lemma_counts_domain(d);
        assert(d.push(x) =~= strategies);
        assert(strategies.to_multiset() == d.to_multiset().insert(x));
        let m = counts_after(Map::empty(), d);
        assert forall|s: Strategy| #[trigger] counts_after(Map::empty(), strategies).contains_key(s) <==> strategies.to_multiset().count(s) > 0 by {
            assert(m.contains_key(s) <==> d.to_multiset().count(s) > 0);
        }
    }
}

/// Totals over the downloads recorded so far.
pub struct DownloadMetrics {
    total_bytes: u64,
    total_downloads: u64,
    strategy_counts: StrategyCounts,
}

impl DownloadMetrics {
    /// Bytes downloaded in all, modulo 2^64.
    pub closed spec fn bytes(&self) -> u64 {
        self.total_bytes
    }

    /// Downloads recorded, modulo 2^64.
    pub closed spec fn downloads(&self) -> u64 {
        self.total_downloads
    }

    /// How many downloads finished with each strategy (absent: none).
    pub closed spec fn counts(&self) -> Map<Strategy, u64> {
        count_entries(self.strategy_counts)
    }

    /// How many downloads finished with strategy `s`.
    pub open spec fn count_of(&self, s: Strategy) -> u64 {
        if self.counts().contains_key(s) {
            self.counts()[s]
        } else {
            0
        }
    }

    /// No download recorded yet.
    pub fn new() -> (r: Self)
        ensures
            r.bytes() == 0,
            r.downloads() == 0,
            r.counts().dom() == Set::<Strategy>::empty(),
    {
        DownloadMetrics { total_bytes: 0, total_downloads: 0, strategy_counts: counts_new() }
    }

    /// Records a finished download of `size` bytes made with `strategy`: the
    /// byte and download totals grow as atomic counters do (wrapping at 2^64)
    /// and the strategy's count goes up by one (which must not overflow).
    pub fn record_download(&mut self, _url: &str, size: u64, _duration: Span, strategy: &Strategy)
        requires
            old(self).count_of(*strategy) < u64::MAX,
        ensures
            final(self).bytes() == wrapped_sum(old(self).bytes(), size),
            final(self).downloads() == wrapped_sum(old(self).downloads(), 1),
            final(self).counts() == old(self).counts().insert(*strategy, (old(self).count_of(*strategy) + 1) as u64),
            final(self).downloads() == downloads_after(old(self).downloads(), 1),
            final(self).bytes() == bytes_after(old(self).bytes(), seq![size]),
            final(self).counts() == counts_after(old(self).counts(), seq![*strategy]),
    {
        proof {
            assert(seq![size].drop_last() =~= Seq::<u64>::empty());
            assert(seq![*strategy].drop_last() =~= Seq::<Strategy>::empty());
            assert(downloads_after(self.total_downloads, 0) == self.total_downloads);
            assert(bytes_after(self.total_bytes, Seq::<u64>::empty()) == self.total_bytes);
            assert(counts_after(self.counts(), Seq::<Strategy>::empty()) == self.counts());
            assert(count_in(self.counts(), *strategy) == self.count_of(*strategy));
        }
        self.total_bytes = self.total_bytes.wrapping_add(size);
        self.total_downloads = self.total_downloads.wrapping_add(1);
        let current = match counts_get(&self.strategy_counts, *strategy) {
            Some(n) => n,
            None => 0,
        };
        counts_insert(&mut self.strategy_counts, *strategy, current + 1);
    }

    /// Bytes downloaded in all.
    pub fn get_total_bytes(&self) -> (r: u64)
        ensures
            r == self.bytes(),
    {
        self.total_bytes
    }

    /// Downloads recorded.
    pub fn get_total_downloads(&self) -> (r: u64)
        ensures
            r == self.downloads(),
    {
        self.total_downloads
    }

    /// How many downloads finished with strategy `s`.
    pub fn strategy_count(&self, s: Strategy) -> (r: u64)
        ensures
            r == self.count_of(s),
    {
        match counts_get(&self.strategy_counts, s) {
            Some(n) => n,
            None => 0,
        }
    }

}

} // verus!
