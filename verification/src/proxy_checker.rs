//! The health checker: scores probe outcomes, recomputes fail counts and
//! blacklist flags, and writes one page's worth of results back to the
//! proxy registry. The probes themselves are network work the boundary
//! layer performs; it hands their outcomes in as plain values.

use vstd::prelude::*;

verus! {

use crate::config::ProxyCheckerSettings;
use crate::logger::Logger;
use crate::proxies::MAX_RATING;
use crate::proxies::Proxies;
use crate::proxies::Proxy;
use crate::proxies::spec_after;
use crate::proxies::spec_update_many;
use crate::proxies::spec_batch_has_endpoint;
use crate::proxies::endpoint_matches;
use crate::proxies::spec_update_one;

/// What the boundary layer reports for one probed page record: whether the
/// probe came back at all, and after how many seconds.
pub struct ProbeOutcome {
    pub proxy: Proxy,
    pub success: bool,
    pub elapsed_secs: u64,
}

/// A successful probe's score in rating thousandths: the seconds left
/// within the timeout budget, floored at zero.
pub open spec fn spec_probe_score(timeout: int, elapsed: int) -> int {
    if elapsed >= timeout {
        0
    } else {
        (timeout - elapsed) * 1000
    }
}

/// The probe score blended with the stored rating, clamped at the ceiling.
pub open spec fn spec_blend(new_score: int, old_rating: int) -> int {
    let b = (new_score + old_rating) / 2;
    if b > MAX_RATING as int {
        MAX_RATING as int
    } else {
        b
    }
}

/// The record one probe outcome merges to. A success takes the blended
/// rating and, when that rating is non-zero, pays one fail back (floored
/// at zero). A failure keeps the rating and adds one fail (saturating).
/// Either way the record is blacklisted exactly when the resulting fail
/// count reaches the threshold.
pub open spec fn spec_check_one(o: ProbeOutcome, timeout: int, max_fails: u32) -> Proxy {
    let p = o.proxy;
    if o.success {
        let r = spec_blend(spec_probe_score(timeout, o.elapsed_secs as int), p.rating as int);
        let f: u32 = if r != 0 && p.fails > 0 {
            (p.fails - 1) as u32
        } else {
            p.fails
        };
        Proxy { rating: r as u32, fails: f, blacklisted: f >= max_fails, ..p }
    } else {
        let f: u32 = if p.fails < u32::MAX {
            (p.fails + 1) as u32
        } else {
            p.fails
        };
        Proxy { fails: f, blacklisted: f >= max_fails, ..p }
    }
}

/// The whole merged batch of one health-check run, outcome by outcome.
pub open spec fn spec_check_page(outcomes: Seq<ProbeOutcome>, timeout: int, max_fails: u32) -> Seq<
    Proxy,
> {
    outcomes.map_values(|o: ProbeOutcome| spec_check_one(o, timeout, max_fails))
}

/// Blending never leaves the rating scale: whatever score a probe reached,
/// the blended rating stays at most the ceiling, and a non-negative score
/// keeps it at least zero.
pub proof fn lemma_rating_ceiling(new_score: int, old_rating: int)
    requires
        0 <= old_rating <= MAX_RATING as int,
    ensures
        spec_blend(new_score, old_rating) <= MAX_RATING as int,
        new_score >= 0 ==> spec_blend(new_score, old_rating) >= 0,
{
}

/// Scores one successful probe: the rating becomes the blend of the
/// probe's score with the stored rating; endpoint, schema and fail count
/// stay; the record comes back un-blacklisted, as the merge recomputes
/// that flag.
pub fn score_proxy(timeout: u64, proxy: &Proxy, elapsed_secs: u64) -> (scored: Proxy)
    requires
        proxy.valid(),
    ensures
        scored.rating as int == spec_blend(
            spec_probe_score(timeout as int, elapsed_secs as int),
            proxy.rating as int,
        ),
        scored.schema == proxy.schema,
        scored.address == proxy.address,
        scored.port == proxy.port,
        scored.fails == proxy.fails,
        scored.blacklisted == false,
        scored.valid(),
{
    let new_score: u64 = if elapsed_secs >= timeout {
        0
    } else {
        let d = timeout - elapsed_secs;
        if d >= 20 {
            20_000
        } else {
            d * 1000
        }
    };
    proof {
        let s = spec_probe_score(timeout as int, elapsed_secs as int);
        if elapsed_secs < timeout && timeout - elapsed_secs >= 20 {
            assert(s == (timeout - elapsed_secs) * 1000);
            assert(s >= 20 * 1000);
            assert(spec_blend(s, proxy.rating as int) == MAX_RATING as int);
        } else {
            assert(new_score as int == s);
        }
    }
    let sum: u64 = new_score + (proxy.rating as u64);
    let b = sum / 2;
    let rating: u32 = if b > (MAX_RATING as u64) {
        MAX_RATING
    } else {
        b as u32
    };
    Proxy {
        schema: proxy.schema.clone(),
        address: proxy.address.clone(),
        port: proxy.port,
        rating,
        fails: proxy.fails,
        blacklisted: false,
    }
}

/// The health checker. It reads one page of the registry per run, has the
/// boundary layer probe it, and merges the outcomes back.
pub struct ProxyChecker {
    pub pcs: ProxyCheckerSettings,
    pub logger: Logger,
}

impl ProxyChecker {
    pub fn new(pcs: ProxyCheckerSettings, logger: Logger) -> (c: Self)
        ensures
            c.pcs == pcs,
    {
        ProxyChecker { pcs, logger }
    }

    /// The page of proxies one run evaluates: the registry is read from
    /// cursor 0 every run, so each run sees the first page only.
    pub fn current_page(&self, proxies: &Proxies) -> (page: Vec<(u32, Proxy)>)
        requires
            proxies.wf(),
        ensures
            page@ == spec_after(proxies@, 0, self.pcs.pagination as int),
    {
        proxies.after(0, self.pcs.pagination)
    }

    /// Merges one run's probe outcomes into the registry: every outcome
    /// yields an updated record (scored on success, one more fail on
    /// failure, blacklist flag recomputed either way), and the whole batch
    /// lands in one transactional write. Returns whether there was any
    /// work.
    pub fn update(&self, proxies: &mut Proxies, outcomes: &Vec<ProbeOutcome>) -> (found: bool)
        requires
            old(proxies).wf(),
            forall|k: int| 0 <= k < outcomes@.len() ==> (#[trigger] outcomes@[k]).proxy.valid(),
        ensures
            final(proxies)@ == spec_update_many(
                old(proxies)@,
                spec_check_page(outcomes@, self.pcs.timeout as int, self.pcs.max_fails),
            ),
            final(proxies).wf(),
            found == (outcomes@.len() > 0),
    {
        let merged = self.merge(outcomes);
        let n = outcomes.len();
        let _stored = proxies.update_proxies(merged);
        n > 0
    }

    /// The records one run's probe outcomes merge to, outcome by outcome:
    /// what `update` writes back.
    pub fn merge(&self, outcomes: &Vec<ProbeOutcome>) -> (merged: Vec<Proxy>)
        requires
            forall|k: int| 0 <= k < outcomes@.len() ==> (#[trigger] outcomes@[k]).proxy.valid(),
        ensures
            merged@ == spec_check_page(outcomes@, self.pcs.timeout as int, self.pcs.max_fails),
            forall|k: int| 0 <= k < merged@.len() ==> (#[trigger] merged@[k]).valid(),
    {
        let ghost merged_spec = spec_check_page(
            outcomes@,
            self.pcs.timeout as int,
            self.pcs.max_fails,
        );
        let mut merged: Vec<Proxy> = Vec::new();
        let n = outcomes.len();
        for i in 0..n
            invariant
                n == outcomes@.len(),
                forall|k: int| 0 <= k < outcomes@.len() ==> (#[trigger] outcomes@[k]).proxy.valid(),
                merged_spec == spec_check_page(
                    outcomes@,
                    self.pcs.timeout as int,
                    self.pcs.max_fails,
                ),
                merged@.len() == i,
                forall|k: int| 0 <= k < i ==> #[trigger] merged@[k] == merged_spec[k],
                forall|k: int| 0 <= k < i ==> (#[trigger] merged@[k]).valid(),
        {
            let o = &outcomes[i];
            let rec = if o.success {
                let scored = score_proxy(self.pcs.timeout, &o.proxy, o.elapsed_secs);
                let fails: u32 = if scored.rating != 0 && o.proxy.fails > 0 {
                    o.proxy.fails - 1
                } else {
                    o.proxy.fails
                };
                Proxy {
                    schema: scored.schema,
                    address: scored.address,
                    port: scored.port,
                    rating: scored.rating,
                    fails,
                    blacklisted: fails >= self.pcs.max_fails,
                }
            } else {
                let fails: u32 = if o.proxy.fails < u32::MAX {
                    o.proxy.fails + 1
                } else {
                    o.proxy.fails
                };
                Proxy {
                    schema: o.proxy.schema.clone(),
                    address: o.proxy.address.clone(),
                    port: o.proxy.port,
                    rating: o.proxy.rating,
                    fails,
                    blacklisted: fails >= self.pcs.max_fails,
                }
            };
            proof {
                assert(rec == spec_check_one(
                    outcomes@[i as int],
                    self.pcs.timeout as int,
                    self.pcs.max_fails,
                ));
                assert(merged_spec[i as int] == rec);
            }
            merged.push(rec);
        }
        proof {
            assert(merged@ =~= merged_spec);
        }
        merged
    }
}

/// After a health-check run, a record the run touched is blacklisted
/// exactly when its persisted fail count has reached the threshold; one
/// whose endpoint the run did not touch is unchanged.
pub proof fn lemma_blacklist_threshold(
    rows: Seq<(u32, Proxy)>,
    outcomes: Seq<ProbeOutcome>,
    timeout: int,
    max_fails: u32,
    t: int,
)
    requires
        0 <= t < rows.len(),
    ensures
        ({
            let batch = spec_check_page(outcomes, timeout, max_fails);
            let fin = spec_update_many(rows, batch);
            &&& fin.len() == rows.len()
            &&& spec_batch_has_endpoint(batch, rows[t].1) ==> (fin[t].1.blacklisted <==> fin[
                t
            ].1.fails >= max_fails)
            &&& !spec_batch_has_endpoint(batch, rows[t].1) ==> fin[t] == rows[t]
        }),
{
    let batch = spec_check_page(outcomes, timeout, max_fails);
    assert forall|k: int| 0 <= k < batch.len() implies (#[trigger] batch[k]).blacklisted <==> batch[k].fails
        >= max_fails by {
        assert(batch[k] == spec_check_one(outcomes[k], timeout, max_fails));
    }
    lemma_update_many_pointwise(rows, batch, max_fails, t);
}

/// Pointwise effect of a bulk update whose batch records all carry the
/// blacklist flag demanded by the threshold: a row the batch names keeps
/// its id and endpoint and ends with such a flag; every other row stays.
proof fn lemma_update_many_pointwise(rows: Seq<(u32, Proxy)>, ps: Seq<Proxy>, max_fails: u32, t: int)
    requires
        0 <= t < rows.len(),
        forall|k: int| 0 <= k < ps.len() ==> ((#[trigger] ps[k]).blacklisted <==> ps[k].fails
            >= max_fails),
    ensures
        ({
            let fin = spec_update_many(rows, ps);
            &&& fin.len() == rows.len()
            &&& spec_batch_has_endpoint(ps, rows[t].1) ==> (fin[t].1.blacklisted <==> fin[
                t
            ].1.fails >= max_fails)
            &&& !spec_batch_has_endpoint(ps, rows[t].1) ==> fin[t] == rows[t]
        }),
    decreases ps.len(),
{
    if ps.len() == 0 {
    } else {
        let rows1 = spec_update_one(rows, ps[0]);
        assert(rows1.len() == rows.len());
        assert(rows1[t].1.address@ == rows[t].1.address@ && rows1[t].1.port == rows[t].1.port);
        lemma_update_many_pointwise(rows1, ps.drop_first(), max_fails, t);
        assert(spec_update_many(rows, ps) == spec_update_many(rows1, ps.drop_first()));
        if spec_batch_has_endpoint(ps, rows[t].1) {
            if spec_batch_has_endpoint(ps.drop_first(), rows1[t].1) {
            } else {
                // only the first batch record can have named this row
                let w = choose|w: int|
                    0 <= w < ps.len() && endpoint_matches(#[trigger] ps[w], rows[t].1);
                if w > 0 {
                    assert(ps.drop_first()[w - 1] == ps[w]);
                    assert(endpoint_matches(ps.drop_first()[w - 1], rows1[t].1));
                    assert(false);
                }
                assert(endpoint_matches(ps[0], rows[t].1));
                assert(rows1[t].1.blacklisted == ps[0].blacklisted && rows1[t].1.fails
                    == ps[0].fails);
            }
        } else {
            assert forall|w: int| 0 <= w < ps.drop_first().len() implies !endpoint_matches(
                #[trigger] ps.drop_first()[w],
                rows1[t].1,
            ) by {
                assert(ps.drop_first()[w] == ps[w + 1]);
            }
            assert(!endpoint_matches(ps[0], rows[t].1));
            assert(rows1[t] == rows[t]);
        }
    }
}

} // verus!
