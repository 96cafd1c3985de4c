use vstd::prelude::*;
use crate::model::PricePoint;

verus! {

/// How long a fetched series stays fresh, in seconds.
pub const DEFAULT_TTL: i64 = 300;

/// How long an entry may go unused before it can be purged, in seconds.
pub const DEFAULT_EVICTION_HORIZON: i64 = 3600;

/// What the cache knows of one token address.
pub struct CacheEntry {
    pub token_address: String,
    pub has_series: bool,
    pub fetched_at: i64,
    pub last_used: i64,
    pub in_flight: bool,
}

/// What a caller of `get` is to do.
#[derive(Clone, Copy, Debug, PartialEq, Eq, Structural)]
pub enum CacheDecision {
    /// A fresh series is cached: read it.
    Serve,
    /// A fetch for this address is under way: wait for it.
    Join,
    /// Nobody is fetching this address: fetch it and report with `complete_fetch`.
    Fetch,
}

/// How a fetch ended, for the callers that waited on it.
#[derive(Clone, Copy, Debug, PartialEq, Eq, Structural)]
pub enum FetchOutcome {
    /// The new series is cached.
    Fresh,
    /// The fetch failed; an older series is served instead.
    Degraded,
    /// The fetch failed and no series is known.
    DataUnavailable,
}

/// Per-token series, fetched on demand with at most one fetch under way per
/// address. `entries[i]` describes `series[i]`.
pub struct HistoricalSeriesCache {
    pub entries: Vec<CacheEntry>,
    pub series: Vec<Vec<PricePoint>>,
    pub ttl: i64,
    pub eviction_horizon: i64,
}

/// Index of the first entry from `i` on whose address is `key`, or -1.
pub open spec fn find_from(es: Seq<CacheEntry>, key: Seq<char>, i: int) -> int
    decreases es.len() - i,
{
    if i < 0 || i >= es.len() {
        -1
    } else if es[i].token_address@ == key {
        i
    } else {
        find_from(es, key, i + 1)
    }
}

/// Index of the entry for `key`, or -1.
pub open spec fn find(es: Seq<CacheEntry>, key: Seq<char>) -> int {
    find_from(es, key, 0)
}

/// An entry holds a series fetched less than `ttl` seconds before `now`.
pub open spec fn is_fresh(e: CacheEntry, now: i64, ttl: i64) -> bool {
    e.has_series && now - e.fetched_at < ttl
}

/// The decision `get` takes on `key` at `now`.
pub open spec fn decide(es: Seq<CacheEntry>, key: Seq<char>, now: i64, ttl: i64) -> CacheDecision {
    let k = find(es, key);
    if k < 0 {
        CacheDecision::Fetch
    } else if is_fresh(es[k], now, ttl) {
        CacheDecision::Serve
    } else if es[k].in_flight {
        CacheDecision::Join
    } else {
        CacheDecision::Fetch
    }
}

/// The entries after `get` on `key` at `now`: the entry is marked used, and
/// marked in flight when a fetch is to start; an unknown address gets a new
/// entry, in flight and without a series.
pub open spec fn after_get(es: Seq<CacheEntry>, key: String, now: i64, ttl: i64) -> Seq<
    CacheEntry,
> {
    let k = find(es, key@);
    if k < 0 {
        es.push(
            CacheEntry {
                token_address: key,
                has_series: false,
                fetched_at: 0,
                last_used: now,
                in_flight: true,
            },
        )
    } else {
        let e = es[k];
        es.update(
            k,
            CacheEntry {
                last_used: now,
                in_flight: e.in_flight || decide(es, key@, now, ttl) == CacheDecision::Fetch,
                ..e
            },
        )
    }
}

proof fn lemma_find_from_range(es: Seq<CacheEntry>, key: Seq<char>, i: int)
    requires
        0 <= i,
    ensures
        find_from(es, key, i) == -1 || (i <= find_from(es, key, i) < es.len() && es[find_from(
            es,
            key,
            i,
        )].token_address@ == key),
        find_from(es, key, i) == -1 ==> forall|j: int|
            i <= j < es.len() ==> #[trigger] es[j].token_address@ != key,
    decreases es.len() - i,
{
    if i < es.len() && es[i].token_address@ != key {
        lemma_find_from_range(es, key, i + 1);
    }
}

/// No two entries are for the same address.
pub open spec fn unique_addresses(es: Seq<CacheEntry>) -> bool {
    forall|i: int, j: int|
        0 <= i < j < es.len() ==> #[trigger] es[i].token_address@ != #[trigger] es[j].token_address@
}

proof fn lemma_find_push(es: Seq<CacheEntry>, e: CacheEntry, key: Seq<char>, i: int)
    requires
        0 <= i <= es.len(),
        find_from(es, key, i) == -1,
        e.token_address@ == key,
    ensures
        find_from(es.push(e), key, i) == es.len(),
    decreases es.len() - i,
{
    if i < es.len() {
        lemma_find_push(es, e, key, i + 1);
    }
}

proof fn lemma_find_update(es: Seq<CacheEntry>, k: int, e: CacheEntry, key: Seq<char>, i: int)
    requires
        0 <= i <= k < es.len(),
        find_from(es, key, i) == k,
        e.token_address@ == key,
    ensures
        find_from(es.update(k, e), key, i) == k,
    decreases k - i,
{
    if i < k {
        lemma_find_update(es, k, e, key, i + 1);
    }
}

impl HistoricalSeriesCache {
    /// The cache's own consistency: one series slot per entry.
    pub open spec fn wf(&self) -> bool {
        &&& self.series@.len() == self.entries@.len()
        &&& unique_addresses(self.entries@)
    }

    /// An empty cache with the default freshness and eviction times.
    pub fn new() -> (r: HistoricalSeriesCache)
        ensures
            r.wf(),
            r.entries@.len() == 0,
            r.ttl == DEFAULT_TTL,
            r.eviction_horizon == DEFAULT_EVICTION_HORIZON,
    {
        HistoricalSeriesCache {
            entries: Vec::new(),
            series: Vec::new(),
            ttl: DEFAULT_TTL,
            eviction_horizon: DEFAULT_EVICTION_HORIZON,
        }
    }

    /// Index of the entry for `key`, if any.
    pub fn lookup(&self, key: &String) -> (r: Option<usize>)
        ensures
            r is None <==> find(self.entries@, key@) < 0,
            r is Some ==> r->Some_0 == find(self.entries@, key@),
            r is Some ==> r->Some_0 < self.entries@.len(),
    {
        let mut i: usize = 0;
        while i < self.entries.len()
            invariant
                i <= self.entries@.len(),
                find(self.entries@, key@) == find_from(self.entries@, key@, i as int),
            decreases self.entries@.len() - i,
        {
            if self.entries[i].token_address == *key {
                return Some(i);
            }
            i = i + 1;
        }
        None
    }

    /// Asks for the series of `key` at `now`: serve a fresh one, join the
    /// fetch under way, or start the one fetch for this address.
    pub fn get(&mut self, key: &String, now: i64) -> (r: CacheDecision)
        requires
            old(self).wf(),
        ensures
            final(self).wf(),
            r == decide(old(self).entries@, key@, now, old(self).ttl),
            final(self).entries@ == after_get(old(self).entries@, *key, now, old(self).ttl),
            final(self).ttl == old(self).ttl,
            final(self).eviction_horizon == old(self).eviction_horizon,
            forall|i: int| 0 <= i < old(self).series@.len() ==> #[trigger] final(self).series@[i] == old(self).series@[i],
    {
        match self.lookup(key) {
            None => {
                self.entries.push(
                    CacheEntry {
                        token_address: key.clone(),
                        has_series: false,
                        fetched_at: 0,
                        last_used: now,
                        in_flight: true,
                    },
                );
                self.series.push(Vec::new());
                proof {
                    lemma_find_from_range(old(self).entries@, key@, 0);
                    assert forall|i: int, j: int|
                        0 <= i < j < self.entries@.len() implies #[trigger] self.entries@[i].token_address@
                        != #[trigger] self.entries@[j].token_address@ by {
                        if j == self.entries@.len() - 1 {
                            assert(old(self).entries@[i].token_address@ != key@);
                        } else {
                            assert(old(self).entries@[i].token_address@ != old(self).entries@[j].token_address@);
                        }
                    }
                }
                CacheDecision::Fetch
            },
            Some(k) => {
                let fresh = self.entries[k].has_series && (now as i128) - (
                self.entries[k].fetched_at as i128) < self.ttl as i128;
                let decision = if fresh {
                    CacheDecision::Serve
                } else if self.entries[k].in_flight {
                    CacheDecision::Join
                } else {
                    CacheDecision::Fetch
                };
                self.entries[k].last_used = now;
                if decision == CacheDecision::Fetch {
                    self.entries[k].in_flight = true;
                }
                proof {
                    assert forall|i: int, j: int|
                        0 <= i < j < self.entries@.len() implies #[trigger] self.entries@[i].token_address@
                        != #[trigger] self.entries@[j].token_address@ by {
                        assert(self.entries@[i].token_address == old(self).entries@[i].token_address);
                        assert(self.entries@[j].token_address == old(self).entries@[j].token_address);
                        assert(old(self).entries@[i].token_address@ != old(self).entries@[j].token_address@);
                    }
                }
                decision
            },
        }
    }

    /// Records how the fetch for `key` ended at `now`: `Some` series on
    /// success, `None` on failure. The entry is no longer in flight; on
    /// failure an older series stays and is served as degraded.
    pub fn complete_fetch(&mut self, key: &String, fetched: Option<Vec<PricePoint>>, now: i64) -> (r:
        FetchOutcome)
        requires
            old(self).wf(),
        ensures
            final(self).wf(),
            r == outcome_of(old(self).entries@, key@, fetched is Some),
            final(self).entries@ == after_complete(old(self).entries@, *key, fetched is Some, now),
            final(self).ttl == old(self).ttl,
            final(self).eviction_horizon == old(self).eviction_horizon,
            fetched is Some ==> final(self).series@[find(final(self).entries@, key@)]@
                == fetched->Some_0@,
            fetched is None ==> final(self).series@ == old(self).series@,
            forall|i: int|
                0 <= i < old(self).series@.len() && i != find(old(self).entries@, key@)
                    ==> #[trigger] final(self).series@[i] == old(self).series@[i],
    {
        let ghost es = self.entries@;
        proof {
            lemma_find_from_range(es, key@, 0);
        }
        match self.lookup(key) {
            None => match fetched {
                Some(points) => {
                    self.entries.push(
                        CacheEntry {
                            token_address: key.clone(),
                            has_series: true,
                            fetched_at: now,
                            last_used: now,
                            in_flight: false,
                        },
                    );
                    self.series.push(points);
                    proof {
                        assert(self.entries@ =~= es.push(self.entries@.last()));
                        lemma_find_push(es, self.entries@.last(), key@, 0);
                        assert forall|i: int, j: int|
                            0 <= i < j < self.entries@.len() implies #[trigger] self.entries@[i].token_address@
                            != #[trigger] self.entries@[j].token_address@ by {
                            if j == self.entries@.len() - 1 {
                                assert(es[i].token_address@ != key@);
                            } else {
                                assert(es[i].token_address@ != es[j].token_address@);
                            }
                        }
                    }
                    FetchOutcome::Fresh
                },
                None => FetchOutcome::DataUnavailable,
            },
            Some(k) => {
                self.entries[k].in_flight = false;
                let had_series = self.entries[k].has_series;
                let ghost e = self.entries@[k as int];
                proof {
                    lemma_find_update(es, k as int, e, key@, 0);
                }
                let outcome = match fetched {
                    Some(points) => {
                        self.entries[k].has_series = true;
                        self.entries[k].fetched_at = now;
                        self.series[k] = points;
                        proof {
                            assert(self.entries@ =~= es.update(k as int, self.entries@[k as int]));
                            lemma_find_update(es, k as int, self.entries@[k as int], key@, 0);
                        }
                        FetchOutcome::Fresh
                    },
                    None => if had_series {
                        FetchOutcome::Degraded
                    } else {
                        FetchOutcome::DataUnavailable
                    },
                };
                proof {
                    assert forall|i: int, j: int|
                        0 <= i < j < self.entries@.len() implies #[trigger] self.entries@[i].token_address@
                        != #[trigger] self.entries@[j].token_address@ by {
                        assert(self.entries@[i].token_address == es[i].token_address);
                        assert(self.entries@[j].token_address == es[j].token_address);
                        assert(es[i].token_address@ != es[j].token_address@);
                    }
                }
                outcome
            },
        }
    }

    /// Purges the entries that are not in flight and were last used more
    /// than `eviction_horizon` seconds before `now`, with their series.
    pub fn evict(&mut self, now: i64)
        requires
            old(self).wf(),
        ensures
            final(self).wf(),
            slots(final(self)) == slots(old(self)).filter(
                |p: (CacheEntry, Vec<PricePoint>)| keeps(p.0, now, old(self).eviction_horizon),
            ),
            final(self).ttl == old(self).ttl,
            final(self).eviction_horizon == old(self).eviction_horizon,
    {
        let ghost orig = slots(self);
        let ghost pred = |p: (CacheEntry, Vec<PricePoint>)| keeps(p.0, now, self.eviction_horizon);
        let mut old_entries: Vec<CacheEntry> = Vec::new();
        let mut old_series: Vec<Vec<PricePoint>> = Vec::new();
        std::mem::swap(&mut old_entries, &mut self.entries);
        std::mem::swap(&mut old_series, &mut self.series);
        let n = old_entries.len();
        let mut i: usize = 0;
        let ghost mut src: Seq<int> = Seq::empty();
        proof {
            reveal(Seq::filter);
            assert(orig.subrange(0, 0) =~= Seq::<(CacheEntry, Vec<PricePoint>)>::empty());
            assert(slots(self) =~= orig.subrange(0, 0).filter(pred));
        }
        while i < n
            invariant
                i <= n == old_entries@.len() == old_series@.len() == orig.len(),
                self.wf(),
                self.ttl == old(self).ttl,
                self.eviction_horizon == old(self).eviction_horizon,
                forall|j: int| 0 <= j < n ==> #[trigger] old_entries@[j] == orig[j].0,
                forall|j: int| i <= j < n ==> #[trigger] old_series@[j] == orig[j].1,
                slots(self) == orig.subrange(0, i as int).filter(pred),
                unique_addresses(old(self).entries@),
                orig == slots(old(self)),
                src.len() == self.entries@.len(),
                forall|k: int|
                    0 <= k < src.len() ==> 0 <= #[trigger] src[k] < i && self.entries@[k]
                        == orig[src[k]].0,
                forall|a: int, b: int| 0 <= a < b < src.len() ==> #[trigger] src[a] < #[trigger] src[b],
                pred == (|p: (CacheEntry, Vec<PricePoint>)| keeps(p.0, now, self.eviction_horizon)),
            decreases n - i,
        {
            let e = &old_entries[i];
            let keep = e.in_flight || (now as i128) - (e.last_used as i128) <= self.eviction_horizon as i128;
            let ghost before = slots(self);
            proof {
                reveal(Seq::filter);
                assert(orig.subrange(0, i + 1).drop_last() =~= orig.subrange(0, i as int));
                assert(orig.subrange(0, i + 1).last() == orig[i as int]);
            }
            if keep {
                let entry = CacheEntry {
                    token_address: e.token_address.clone(),
                    has_series: e.has_series,
                    fetched_at: e.fetched_at,
                    last_used: e.last_used,
                    in_flight: e.in_flight,
                };
                let mut taken: Vec<PricePoint> = Vec::new();
                std::mem::swap(&mut taken, &mut old_series[i]);
                let ghost prev = self.entries@;
                self.entries.push(entry);
                self.series.push(taken);
                proof {
                    assert(slots(self) =~= before.push(orig[i as int]));
                    let ghost old_src = src;
                    src = src.push(i as int);
                    assert forall|x: int, y: int|
                        0 <= x < y < self.entries@.len() implies #[trigger] self.entries@[x].token_address@
                        != #[trigger] self.entries@[y].token_address@ by {
                        assert(orig[src[x]].0 == old(self).entries@[src[x]]);
                        assert(orig[src[y]].0 == old(self).entries@[src[y]]);
                        assert(src[x] < src[y]);
                    }
                }
            }
            i = i + 1;
        }
        proof {
            assert(orig.subrange(0, n as int) =~= orig);
        }
    }

    /// The series held for the entry at `k`.
    pub fn series_at(&self, k: usize) -> (r: &Vec<PricePoint>)
        requires
            self.wf(),
            k < self.entries@.len(),
        ensures
            *r == self.series@[k as int],
    {
        &self.series[k]
    }
}

/// The entries and their series, side by side.
pub open spec fn slots(c: &HistoricalSeriesCache) -> Seq<(CacheEntry, Vec<PricePoint>)> {
    Seq::new(c.entries@.len(), |i: int| (c.entries@[i], c.series@[i]))
}

/// An entry survives eviction at `now`: it is in flight, or was used
/// within `horizon` seconds.
pub open spec fn keeps(e: CacheEntry, now: i64, horizon: i64) -> bool {
    e.in_flight || now - e.last_used <= horizon
}

/// How a fetch for `key` that succeeded (`ok`) or failed ends.
pub open spec fn outcome_of(es: Seq<CacheEntry>, key: Seq<char>, ok: bool) -> FetchOutcome {
    let k = find(es, key);
    if ok {
        FetchOutcome::Fresh
    } else if k >= 0 && es[k].has_series {
        FetchOutcome::Degraded
    } else {
        FetchOutcome::DataUnavailable
    }
}

/// The entries after a fetch for `key` ends at `now`.
pub open spec fn after_complete(es: Seq<CacheEntry>, key: String, ok: bool, now: i64) -> Seq<
    CacheEntry,
> {
    let k = find(es, key@);
    if k < 0 {
        if ok {
            es.push(
                CacheEntry {
                    token_address: key,
                    has_series: true,
                    fetched_at: now,
                    last_used: now,
                    in_flight: false,
                },
            )
        } else {
            es
        }
    } else {
        let e = es[k];
        es.update(
            k,
            CacheEntry {
                has_series: e.has_series || ok,
                fetched_at: if ok {
                    now
                } else {
                    e.fetched_at
                },
                in_flight: false,
                ..e
            },
        )
    }
}

/// Number of fetches that a run of `get` calls on `key`, at the given
/// times and with no fetch completing meanwhile, starts.
pub open spec fn fetches_started(es: Seq<CacheEntry>, key: String, times: Seq<i64>, ttl: i64) -> nat
    decreases times.len(),
{
    if times.len() == 0 {
        0
    } else {
        (if decide(es, key@, times[0], ttl) == CacheDecision::Fetch {
            1nat
        } else {
            0nat
        }) + fetches_started(after_get(es, key, times[0], ttl), key, times.drop_first(), ttl)
    }
}

proof fn lemma_no_fetch_while_in_flight(es: Seq<CacheEntry>, key: String, times: Seq<i64>, ttl: i64)
    requires
        find(es, key@) >= 0,
        es[find(es, key@)].in_flight,
        !es[find(es, key@)].has_series,
    ensures
        fetches_started(es, key, times, ttl) == 0,
    decreases times.len(),
{
    if times.len() > 0 {
        let k = find(es, key@);
        lemma_find_from_range(es, key@, 0);
        let next = after_get(es, key, times[0], ttl);
        lemma_find_update(es, k, next[k], key@, 0);
        lemma_no_fetch_while_in_flight(next, key, times.drop_first(), ttl);
    }
}

/// Single flight: however many `get` calls arrive for an address that the
/// cache has never seen, before the fetch completes, exactly one of them is
/// told to fetch.
pub proof fn lemma_single_flight(es: Seq<CacheEntry>, key: String, times: Seq<i64>, ttl: i64)
    requires
        find(es, key@) < 0,
        times.len() >= 1,
    ensures
        fetches_started(es, key, times, ttl) == 1,
{
    let next = after_get(es, key, times[0], ttl);
    lemma_find_from_range(es, key@, 0);
    lemma_find_push(es, next.last(), key@, 0);
    lemma_no_fetch_while_in_flight(next, key, times.drop_first(), ttl);
}

} // verus!
