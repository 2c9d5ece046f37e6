//! The handle to the compactor, and the summaries it has at hand.
//!
//! A summary is kept under the hash of the messages it stands for, so that the
//! same messages are not summarized again.  Handles that were cloned from one
//! another work on one cache.

use vstd::prelude::*;
use crate::compression::config::CompressionConfig;

verus! {

/// The caches of all compactors, each known by its number.
pub struct SummaryCaches {
    caches: Vec<Vec<(u64, String)>>,
}

/// The summary kept under `hash`: the latest that was put there.
pub open spec fn kept_summary(cache: Seq<(u64, Seq<char>)>, hash: u64) -> Option<Seq<char>>
    decreases cache.len(),
{
    if cache.len() == 0 {
        None
    } else if cache.last().0 == hash {
        Some(cache.last().1)
    } else {
        kept_summary(cache.drop_last(), hash)
    }
}

pub open spec fn cache_view(cache: Seq<(u64, String)>) -> Seq<(u64, Seq<char>)> {
    Seq::new(cache.len(), |i: int| (cache[i].0, cache[i].1@))
}

impl View for SummaryCaches {
    type V = Seq<Seq<(u64, Seq<char>)>>;

    closed spec fn view(&self) -> Seq<Seq<(u64, Seq<char>)>> {
        Seq::new(self.caches@.len(), |i: int| cache_view(self.caches@[i]@))
    }
}

impl SummaryCaches {
    /// No caches yet.
    pub fn new() -> (r: Self)
        ensures
            r@ == Seq::<Seq<(u64, Seq<char>)>>::empty(),
    {
        let r = SummaryCaches { caches: Vec::new() };
        assert(r@ =~= Seq::empty());
        r
    }
}

/// A handle to a compactor.
pub struct ContextCompactor {
    config: CompressionConfig,
    cache: usize,
}

impl ContextCompactor {
    /// The configuration this compactor works by.
    pub closed spec fn spec_config(&self) -> CompressionConfig {
        self.config
    }

    /// The number of the cache this compactor works on.
    pub closed spec fn cache_number(&self) -> int {
        self.cache as int
    }

    /// Whether this compactor's cache is among `caches`.
    pub open spec fn works_on(&self, caches: SummaryCaches) -> bool {
        0 <= self.cache_number() < caches@.len()
    }

    /// What this compactor's cache holds.
    pub open spec fn cached(&self, caches: SummaryCaches) -> Seq<(u64, Seq<char>)> {
        caches@[self.cache_number()]
    }

    /// A compactor with a cache of its own, empty.
    pub fn new(config: CompressionConfig, caches: &mut SummaryCaches) -> (r: Self)
        ensures
            r.spec_config() == config,
            r.cache_number() == old(caches)@.len(),
            final(caches)@ == old(caches)@.push(Seq::empty()),
    {
        let cache: usize = caches.caches.len();
        let empty: Vec<(u64, String)> = Vec::new();
        assert(cache_view(empty@) =~= Seq::empty());
        caches.caches.push(empty);
        assert(caches@ =~= old(caches)@.push(Seq::empty()));
        ContextCompactor { config, cache }
    }

    pub fn config(&self) -> (r: &CompressionConfig)
        ensures
            *r == self.spec_config(),
    {
        &self.config
    }

    /// Another handle to the same compactor: the configuration and the cache
    /// are the same.
    pub fn clone_handle(&self) -> (r: Self)
        ensures
            r.spec_config() == self.spec_config(),
            r.cache_number() == self.cache_number(),
            r == *self,
    {
        ContextCompactor { config: self.config, cache: self.cache }
    }

    /// The summary kept under `hash`, if there is one.
    pub fn cached_summary(&self, caches: &SummaryCaches, hash: u64) -> (r: Option<String>)
        requires
            self.works_on(*caches),
        ensures
            match r {
                Some(s) => kept_summary(self.cached(*caches), hash) == Some(s@),
                None => kept_summary(self.cached(*caches), hash) is None,
            },
    {
        let cache = &caches.caches[self.cache];
        let ghost all = cache_view(cache@);
        assert(all == self.cached(*caches));
        let mut n: usize = cache.len();
        assert(all.take(n as int) == all);
        while n > 0
            invariant
                n <= cache@.len(),
                all == cache_view(cache@),
                all == self.cached(*caches),
                kept_summary(all, hash) == kept_summary(all.take(n as int), hash),
            decreases n,
        {
            assert(all.take(n as int).drop_last() == all.take(n - 1));
            if cache[n - 1].0 == hash {
                return Some(cache[n - 1].1.clone());
            }
            n -= 1;
        }
        None
    }

    /// Keeps a summary under `hash`.
    pub fn keep_summary(&self, caches: &mut SummaryCaches, hash: u64, summary: String)
        requires
            self.works_on(*old(caches)),
        ensures
            final(caches)@ == old(caches)@.update(
                self.cache_number(),
                self.cached(*old(caches)).push((hash, summary@)),
            ),
    {
        let ghost before = caches.caches@[self.cache as int]@;
        let cache = &mut caches.caches[self.cache];
        cache.push((hash, summary));
        assert(cache_view(caches.caches@[self.cache as int]@) =~= cache_view(before).push(
            (hash, summary@),
        ));
        assert(caches@ =~= old(caches)@.update(
            self.cache_number(),
            self.cached(*old(caches)).push((hash, summary@)),
        ));
    }

    /// Empties this compactor's cache.
    pub fn clear_cache(&self, caches: &mut SummaryCaches)
        requires
            self.works_on(*old(caches)),
        ensures
            final(caches)@ == old(caches)@.update(self.cache_number(), Seq::empty()),
    {
        let empty: Vec<(u64, String)> = Vec::new();
        assert(cache_view(empty@) =~= Seq::empty());
        caches.caches.set(self.cache, empty);
        assert(caches@ =~= old(caches)@.update(self.cache_number(), Seq::empty()));
    }
}

/// Two handles with one cache number see the same summaries, and clearing the
/// cache through either empties it for both; the caches of other compactors
/// stay as they are.
pub proof fn law_handles_share_their_cache(
    a: ContextCompactor,
    b: ContextCompactor,
    before: SummaryCaches,
    after: SummaryCaches,
    other: ContextCompactor,
)
    requires
        a.cache_number() == b.cache_number(),
        a.works_on(before),
        after@ == before@.update(a.cache_number(), Seq::empty()),
    ensures
        a.cached(before) == b.cached(before),
        a.cached(after).len() == 0,
        b.cached(after).len() == 0,
        forall|hash: u64| kept_summary(b.cached(after), hash) is None,
        other.works_on(before) && other.cache_number() != a.cache_number() ==> other.cached(after)
            == other.cached(before),
{
}

/// What was kept is found, and nothing else changes.
pub proof fn law_kept_summaries_are_found(
    cache: Seq<(u64, Seq<char>)>,
    hash: u64,
    summary: Seq<char>,
    other: u64,
)
    ensures
        kept_summary(cache.push((hash, summary)), hash) == Some(summary),
        other != hash ==> kept_summary(cache.push((hash, summary)), other) == kept_summary(
            cache,
            other,
        ),
{
    assert(cache.push((hash, summary)).drop_last() =~= cache);
}

} // verus!
