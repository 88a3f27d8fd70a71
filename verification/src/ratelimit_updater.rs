//! The rate-limit sweeper: pages through the whole ban registry, collects
//! every entry whose ban has expired (evaluated concurrently per page via
//! the parallel filter), and deletes the collected set in one bulk
//! transaction.

use vstd::prelude::*;

verus! {

use crate::lemma_filter_all;
use crate::lemma_filter_congruent;
use crate::lemma_filter_none;
use crate::logger::Logger;
use crate::ratelimited::RateLimitEntry;
use crate::ratelimited::RateLimited;
use crate::ratelimited::ban_key_matches;
use crate::ratelimited::ban_rows_wf;
use crate::ratelimited::par_filter_expired;
use crate::ratelimited::spec_batch_has_ban_key;
use crate::ratelimited::spec_expired;

/// What a sweep leaves behind: exactly the rows whose ban still runs.
pub open spec fn spec_sweep(rows: Seq<(u32, RateLimitEntry)>, now: u64) -> Seq<
    (u32, RateLimitEntry),
> {
    rows.filter(|r: (u32, RateLimitEntry)| r.1.until > now)
}

/// The rate-limit sweeper.
pub struct RatelimitUpdater {
    pub logger: Logger,
}

impl RatelimitUpdater {
    pub fn new(logger: Logger) -> (u: Self) {
        RatelimitUpdater { logger }
    }

    /// One sweep: reads every page of the registry, collects the expired
    /// entries, and removes them in one bulk delete. Afterwards the
    /// registry holds exactly the bans that still run. Returns how many
    /// entries were removed.
    pub fn update(&self, ratelimited: &mut RateLimited, now: u64) -> (removed: usize)
        requires
            old(ratelimited).wf(),
        ensures
            final(ratelimited)@ == spec_sweep(old(ratelimited)@, now),
            final(ratelimited).wf(),
            removed == spec_expired(old(ratelimited)@, now).len(),
    {
        broadcast use vstd::seq_lib::group_filter_ensures;

        let ghost rows = ratelimited@;
        let entries = ratelimited.read_ratelimited(100);
        let expired = par_filter_expired(&entries, now);
        let removed = expired.len();
        proof {
            vstd::seq_lib::to_multiset_len(expired@);
            vstd::seq_lib::to_multiset_len(spec_expired(rows, now));
            lemma_expired_batch_matches(
                rows,
                ratelimited.spec_next_id() as int,
                expired@,
                now,
            );
            let keep = |r: (u32, RateLimitEntry)| !spec_batch_has_ban_key(expired@, r.1);
            let live = |r: (u32, RateLimitEntry)| r.1.until > now;
            lemma_filter_congruent(rows, keep, live);
        }
        let _removed_ok = ratelimited.remove(expired);
        removed
    }
}

/// A batch that holds the expired entries (in any order) names exactly the
/// ban keys of the expired rows: triples are unique in the registry, so a
/// key match singles the row itself out.
proof fn lemma_expired_batch_matches(
    rows: Seq<(u32, RateLimitEntry)>,
    next_id: int,
    expired: Seq<RateLimitEntry>,
    now: u64,
)
    requires
        ban_rows_wf(rows, next_id),
        expired.to_multiset() == spec_expired(rows, now).to_multiset(),
    ensures
        forall|m: int|
            0 <= m < rows.len() ==> (spec_batch_has_ban_key(expired, (#[trigger] rows[m]).1) <==> rows[
                m
            ].1.until <= now),
{
    broadcast use vstd::seq_lib::group_filter_ensures;

    let mapped = rows.map_values(|r: (u32, RateLimitEntry)| r.1);
    let p = |e: RateLimitEntry| e.until <= now;
    assert forall|m: int|
        0 <= m < rows.len() implies (spec_batch_has_ban_key(expired, (#[trigger] rows[m]).1) <==> rows[
        m
    ].1.until <= now) by {
        if spec_batch_has_ban_key(expired, rows[m].1) {
            // some expired entry has this row's key; it is an expired row,
            // and keys are unique, so it is this row
            let w = choose|w: int|
                0 <= w < expired.len() && ban_key_matches(#[trigger] expired[w], rows[m].1);
            let e = expired[w];
            assert(expired.contains(e));
            vstd::seq_lib::to_multiset_contains(expired, e);
            vstd::seq_lib::to_multiset_contains(spec_expired(rows, now), e);
            assert(spec_expired(rows, now).contains(e));
            Seq::lemma_filter_contains_rev(mapped, p, e);
            assert(mapped.contains(e));
            let q = choose|q: int| 0 <= q < mapped.len() && mapped[q] == e;
            assert(rows[q].1 == e);
            let fi = choose|fi: int|
                0 <= fi < spec_expired(rows, now).len() && spec_expired(rows, now)[fi] == e;
            assert(p(spec_expired(rows, now)[fi]));
            assert(e.until <= now);
            if q != m {
                assert(ban_key_matches(rows[q].1, rows[m].1) || ban_key_matches(
                    rows[m].1,
                    rows[q].1,
                ));
                assert(false);
            }
            assert(rows[m].1.until <= now);
        }
        if rows[m].1.until <= now {
            assert(mapped[m] == rows[m].1);
            assert(p(mapped[m]));
            Seq::lemma_filter_contains(mapped, p, m);
            assert(spec_expired(rows, now).contains(rows[m].1));
            vstd::seq_lib::to_multiset_contains(spec_expired(rows, now), rows[m].1);
            vstd::seq_lib::to_multiset_contains(expired, rows[m].1);
            assert(expired.contains(rows[m].1));
            let w = choose|w: int| 0 <= w < expired.len() && expired[w] == rows[m].1;
            assert(ban_key_matches(expired[w], rows[m].1));
            assert(spec_batch_has_ban_key(expired, rows[m].1));
        }
    }
}

/// Sweeping is idempotent: a second sweep at the same moment, with no new
/// bans added, finds nothing expired and leaves the registry as it was.
pub proof fn lemma_sweep_idempotent(rows: Seq<(u32, RateLimitEntry)>, now: u64)
    ensures
        spec_sweep(spec_sweep(rows, now), now) == spec_sweep(rows, now),
        spec_expired(spec_sweep(rows, now), now) == Seq::<RateLimitEntry>::empty(),
{
    broadcast use vstd::seq_lib::group_filter_ensures;

    let live = |r: (u32, RateLimitEntry)| r.1.until > now;
    let sw = spec_sweep(rows, now);
    assert(forall|i: int| 0 <= i < sw.len() ==> live(#[trigger] sw[i]));
    lemma_filter_all(sw, live);
    let mapped = sw.map_values(|r: (u32, RateLimitEntry)| r.1);
    let p = |e: RateLimitEntry| e.until <= now;
    assert forall|i: int| 0 <= i < mapped.len() implies !p(#[trigger] mapped[i]) by {
        assert(mapped[i] == sw[i].1);
        assert(live(sw[i]));
    }
    lemma_filter_none(mapped, p);
}

} // verus!
