//! The proxy registry: a store of proxy records with cursor-paginated
//! reads, rating-ordered queries, and atomic (all-or-nothing) bulk writes.

use vstd::prelude::*;

verus! {

use crate::StoreError;
use crate::lemma_filter_push;

/// Ratings run from 0 to 10 and are held in thousandths, so the
/// ceiling of the scale is 10_000.
pub const MAX_RATING: u32 = 10_000;

/// One tracked forward-proxy endpoint with its health metadata.
/// `rating` is in thousandths: a stored value of 9_000 means 9.0.
#[derive(Clone, Debug)]
pub struct Proxy {
    pub schema: String,
    pub address: String,
    pub port: u16,
    pub rating: u32,
    pub fails: u32,
    pub blacklisted: bool,
}

impl Proxy {
    /// A record is valid when its rating is on the 0 to 10 scale.
    pub open spec fn valid(self) -> bool {
        self.rating <= MAX_RATING
    }
}

/// Two records describe the same endpoint when host and port agree.
pub open spec fn endpoint_matches(p: Proxy, q: Proxy) -> bool {
    p.address@ == q.address@ && p.port == q.port
}

/// Some row of `rows` describes the same endpoint as `p`.
pub open spec fn spec_has_endpoint(rows: Seq<(u32, Proxy)>, p: Proxy) -> bool {
    exists|i: int| 0 <= i < rows.len() && endpoint_matches(#[trigger] rows[i].1, p)
}

/// Well-formedness of the registry contents: row ids are at least 1,
/// strictly increasing, below the id counter, endpoints are unique among
/// rows, and every stored rating is on the scale.
pub open spec fn rows_wf(rows: Seq<(u32, Proxy)>, next_id: int) -> bool {
    &&& forall|i: int, j: int| #![trigger rows[i], rows[j]]
        0 <= i < j < rows.len() ==> rows[i].0 < rows[j].0 && !endpoint_matches(
            rows[i].1,
            rows[j].1,
        )
    &&& forall|i: int| #![trigger rows[i]]
        0 <= i < rows.len() ==> 1 <= rows[i].0 && rows[i].0 < next_id && rows[i].1.valid()
    &&& 1 <= next_id
}

/// The effect of one `INSERT OR IGNORE`-style bulk insert: records whose
/// endpoint is already present are skipped, the rest are appended in order
/// with fresh ascending ids. Returns the new rows and the new id counter.
pub open spec fn spec_insert_many(rows: Seq<(u32, Proxy)>, next: int, ps: Seq<Proxy>) -> (
    Seq<(u32, Proxy)>,
    int,
)
    decreases ps.len(),
{
    if ps.len() == 0 {
        (rows, next)
    } else if spec_has_endpoint(rows, ps[0]) {
        spec_insert_many(rows, next, ps.drop_first())
    } else {
        spec_insert_many(rows.push((next as u32, ps[0])), next + 1, ps.drop_first())
    }
}

/// The effect of updating one record: every row with the same endpoint
/// takes the new rating, fail count and blacklist flag; id, schema and
/// endpoint stay as stored.
pub open spec fn spec_update_one(rows: Seq<(u32, Proxy)>, p: Proxy) -> Seq<(u32, Proxy)> {
    Seq::new(
        rows.len(),
        |i: int|
            if endpoint_matches(rows[i].1, p) {
                (
                    rows[i].0,
                    Proxy {
                        rating: p.rating,
                        fails: p.fails,
                        blacklisted: p.blacklisted,
                        ..rows[i].1
                    },
                )
            } else {
                rows[i]
            },
    )
}

/// The effect of a bulk update, applied row by row in batch order.
pub open spec fn spec_update_many(rows: Seq<(u32, Proxy)>, ps: Seq<Proxy>) -> Seq<(u32, Proxy)>
    decreases ps.len(),
{
    if ps.len() == 0 {
        rows
    } else {
        spec_update_many(spec_update_one(rows, ps[0]), ps.drop_first())
    }
}

/// The batch `ps` names the endpoint of `q`.
pub open spec fn spec_batch_has_endpoint(ps: Seq<Proxy>, q: Proxy) -> bool {
    exists|i: int| 0 <= i < ps.len() && endpoint_matches(#[trigger] ps[i], q)
}

/// The effect of a bulk delete: every row whose endpoint appears in the
/// batch is removed.
pub open spec fn spec_delete_many(rows: Seq<(u32, Proxy)>, ps: Seq<Proxy>) -> Seq<(u32, Proxy)> {
    rows.filter(|r: (u32, Proxy)| !spec_batch_has_endpoint(ps, r.1))
}

/// One cursor page: the rows after the cursor id, blacklisted ones
/// excluded, cut to the page size. Rows are already in ascending id order.
pub open spec fn spec_after(rows: Seq<(u32, Proxy)>, from: int, pag: int) -> Seq<(u32, Proxy)> {
    let qualifying = rows.filter(|r: (u32, Proxy)| r.0 > from && !r.1.blacklisted);
    if qualifying.len() <= pag {
        qualifying
    } else {
        qualifying.take(pag)
    }
}

/// The proxy registry. Writes go through bulk operations that land as a
/// unit, mirroring a transactional store.
pub struct Proxies {
    rows: Vec<(u32, Proxy)>,
    next_id: u32,
}

impl View for Proxies {
    type V = Seq<(u32, Proxy)>;

    closed spec fn view(&self) -> Seq<(u32, Proxy)> {
        self.rows@
    }
}

impl Proxies {
    /// The next id the registry will assign.
    pub closed spec fn spec_next_id(&self) -> u32 {
        self.next_id
    }

    /// The registry invariant; every operation keeps it.
    pub open spec fn wf(&self) -> bool {
        rows_wf(self@, self.spec_next_id() as int)
    }

    /// An empty registry; ids start at 1.
    pub fn new() -> (s: Self)
        ensures
            s@ =~= Seq::<(u32, Proxy)>::empty(),
            s.spec_next_id() == 1,
            s.wf(),
    {
        Proxies { rows: Vec::new(), next_id: 1 }
    }

    /// Whether some live row has this record's endpoint.
    fn contains_endpoint(&self, p: &Proxy) -> (b: bool)
        ensures
            b == spec_has_endpoint(self@, *p),
    {
        let n = self.rows.len();
        for i in 0..n
            invariant
                n == self@.len(),
                forall|k: int| 0 <= k < i ==> !endpoint_matches(#[trigger] self@[k].1, *p),
        {
            if self.rows[i].1.address == p.address && self.rows[i].1.port == p.port {
                return true;
            }
        }
        false
    }

    /// Transactional bulk insert; a duplicate endpoint inside the registry
    /// or earlier in the batch is silently ignored. Returns how many
    /// records were inserted.
    pub fn insert_proxies(&mut self, proxies: Vec<Proxy>) -> (count: usize)
        requires
            old(self).wf(),
            forall|k: int| 0 <= k < proxies@.len() ==> (#[trigger] proxies@[k]).valid(),
            old(self).spec_next_id() + proxies@.len() <= u32::MAX,
        ensures
            final(self)@ == spec_insert_many(
                old(self)@,
                old(self).spec_next_id() as int,
                proxies@,
            ).0,
            final(self).spec_next_id() as int == spec_insert_many(
                old(self)@,
                old(self).spec_next_id() as int,
                proxies@,
            ).1,
            final(self).wf(),
            count == final(self).spec_next_id() - old(self).spec_next_id(),
    {
        let ghost orig_rows = self@;
        let ghost orig_next = self.next_id as int;
        let start_id = self.next_id;
        let n = proxies.len();
        let mut i: usize = 0;
        proof {
            assert(proxies@.skip(0) =~= proxies@);
        }
        while i < n
            invariant
                i <= n,
                n == proxies@.len(),
                forall|k: int| 0 <= k < proxies@.len() ==> (#[trigger] proxies@[k]).valid(),
                rows_wf(self@, self.next_id as int),
                start_id == orig_next,
                start_id <= self.next_id,
                self.next_id as int <= orig_next + i,
                orig_next + proxies@.len() <= u32::MAX,
                spec_insert_many(orig_rows, orig_next, proxies@) == spec_insert_many(
                    self@,
                    self.next_id as int,
                    proxies@.skip(i as int),
                ),
            decreases n - i,
        {
            let ghost pre_rows = self@;
            let ghost pre_next = self.next_id as int;
            proof {
                assert(proxies@.skip(i as int).len() > 0);
                assert(proxies@.skip(i as int)[0] == proxies@[i as int]);
                assert(proxies@.skip(i as int).drop_first() =~= proxies@.skip(i as int + 1));
            }
            let p = &proxies[i];
            if !self.contains_endpoint(p) {
                let fresh = (
                    self.next_id,
                    Proxy {
                        schema: p.schema.clone(),
                        address: p.address.clone(),
                        port: p.port,
                        rating: p.rating,
                        fails: p.fails,
                        blacklisted: p.blacklisted,
                    },
                );
                proof {
                    assert(fresh.1 == proxies@[i as int]);
                }
                self.rows.push(fresh);
                self.next_id = self.next_id + 1;
                proof {
                    assert(self@ =~= pre_rows.push((pre_next as u32, proxies@[i as int])));
                    assert forall|a: int, b: int|
                        0 <= a < b < self@.len() implies self@[a].0 < self@[b].0
                        && !endpoint_matches(self@[a].1, self@[b].1) by {
                        if b < self@.len() - 1 {
                            assert(self@[a] == pre_rows[a] && self@[b] == pre_rows[b]);
                        } else {
                            assert(self@[a] == pre_rows[a]);
                            assert(!spec_has_endpoint(pre_rows, proxies@[i as int]));
                            assert(!endpoint_matches(pre_rows[a].1, proxies@[i as int]));
                        }
                    }
                    assert(rows_wf(self@, self.next_id as int));
                }
            }
            i = i + 1;
        }
        proof {
            assert(proxies@.skip(n as int) =~= Seq::<Proxy>::empty());
        }
        (self.next_id - start_id) as usize
    }

    /// Transactional bulk update: each record in the batch replaces the
    /// rating, fail count and blacklist flag of the stored row with the
    /// same endpoint, in batch order; a record whose endpoint is no longer
    /// stored is a no-op. The whole batch lands, or on a store failure
    /// nothing does; in memory it always lands.
    pub fn update_proxies(&mut self, proxies: Vec<Proxy>) -> (r: Result<(), StoreError>)
        requires
            old(self).wf(),
            forall|k: int| 0 <= k < proxies@.len() ==> (#[trigger] proxies@[k]).valid(),
        ensures
            r is Ok,
            final(self)@ == spec_update_many(old(self)@, proxies@),
            final(self).spec_next_id() == old(self).spec_next_id(),
            final(self).wf(),
    {
        let ghost orig_rows = self@;
        let n = proxies.len();
        let mut i: usize = 0;
        proof {
            assert(proxies@.skip(0) =~= proxies@);
        }
        while i < n
            invariant
                i <= n,
                n == proxies@.len(),
                forall|k: int| 0 <= k < proxies@.len() ==> (#[trigger] proxies@[k]).valid(),
                rows_wf(self@, self.next_id as int),
                self.next_id == old(self).spec_next_id(),
                spec_update_many(orig_rows, proxies@) == spec_update_many(
                    self@,
                    proxies@.skip(i as int),
                ),
            decreases n - i,
        {
            let ghost pre_rows = self@;
            proof {
                assert(proxies@.skip(i as int).len() > 0);
                assert(proxies@.skip(i as int)[0] == proxies@[i as int]);
                assert(proxies@.skip(i as int).drop_first() =~= proxies@.skip(i as int + 1));
            }
            self.apply_update(&proxies[i]);
            proof {
                assert(self@ =~= spec_update_one(pre_rows, proxies@[i as int]));
            }
            i = i + 1;
        }
        proof {
            assert(proxies@.skip(n as int) =~= Seq::<Proxy>::empty());
        }
        Ok(())
    }

    /// Applies one record of an update batch to the stored rows.
    fn apply_update(&mut self, p: &Proxy)
        requires
            rows_wf(old(self)@, old(self).spec_next_id() as int),
            p.valid(),
        ensures
            final(self)@ =~= spec_update_one(old(self)@, *p),
            final(self).spec_next_id() == old(self).spec_next_id(),
            rows_wf(final(self)@, final(self).spec_next_id() as int),
    {
        let ghost rows0 = self@;
        let n = self.rows.len();
        for j in 0..n
            invariant
                n == self@.len(),
                self@.len() == rows0.len(),
                self.next_id == old(self).spec_next_id(),
                rows_wf(rows0, self.next_id as int),
                p.valid(),
                forall|k: int| 0 <= k < j ==> self@[k] == spec_update_one(rows0, *p)[k],
                forall|k: int| j <= k < rows0.len() ==> self@[k] == rows0[k],
        {
            if self.rows[j].1.address == p.address && self.rows[j].1.port == p.port {
                let id = self.rows[j].0;
                let updated = Proxy {
                    schema: self.rows[j].1.schema.clone(),
                    address: self.rows[j].1.address.clone(),
                    port: self.rows[j].1.port,
                    rating: p.rating,
                    fails: p.fails,
                    blacklisted: p.blacklisted,
                };
                self.rows[j] = (id, updated);
            }
        }
        proof {
            assert(self@ =~= spec_update_one(rows0, *p));
            assert forall|a: int, b: int| #![trigger self@[a], self@[b]]
                0 <= a < b < self@.len() implies self@[a].0 < self@[b].0 && !endpoint_matches(
                self@[a].1,
                self@[b].1,
            ) by {
                assert(self@[a].0 == rows0[a].0 && self@[b].0 == rows0[b].0);
                assert(self@[a].1.address@ == rows0[a].1.address@);
                assert(self@[a].1.port == rows0[a].1.port);
                assert(self@[b].1.address@ == rows0[b].1.address@);
                assert(self@[b].1.port == rows0[b].1.port);
            }
        }
    }

    /// Models a bulk update whose transaction fails before row
    /// `fail_before` of the batch is written: the transaction is rolled
    /// back, so the registry is left exactly as it was -- no partial batch
    /// is ever observable.
    pub fn update_proxies_with_failure(&mut self, proxies: &Vec<Proxy>, fail_before: usize) -> (r:
        Result<(), StoreError>)
        requires
            old(self).wf(),
            forall|k: int| 0 <= k < proxies@.len() ==> (#[trigger] proxies@[k]).valid(),
            fail_before <= proxies@.len(),
        ensures
            r is Err,
            final(self)@ == old(self)@,
            final(self).spec_next_id() == old(self).spec_next_id(),
            final(self).wf(),
    {
        let mut staged = Proxies { rows: Vec::new(), next_id: self.next_id };
        let n = self.rows.len();
        for j in 0..n
            invariant
                n == self@.len(),
                staged@ =~= self@.take(j as int),
                staged.next_id == self.next_id,
                self.wf(),
        {
            let id = self.rows[j].0;
            let copied = Proxy {
                schema: self.rows[j].1.schema.clone(),
                address: self.rows[j].1.address.clone(),
                port: self.rows[j].1.port,
                rating: self.rows[j].1.rating,
                fails: self.rows[j].1.fails,
                blacklisted: self.rows[j].1.blacklisted,
            };
            proof {
                assert(copied == self@[j as int].1);
                assert(self@.take(j as int + 1) =~= self@.take(j as int).push(self@[j as int]));
            }
            staged.rows.push((id, copied));
        }
        proof {
            assert(staged@ =~= self@);
        }
        let mut i: usize = 0;
        while i < fail_before
            invariant
                i <= fail_before,
                fail_before <= proxies@.len(),
                forall|k: int| 0 <= k < proxies@.len() ==> (#[trigger] proxies@[k]).valid(),
                staged.wf(),
            decreases fail_before - i,
        {
            staged.apply_update(&proxies[i]);
            i = i + 1;
        }
        // the transaction aborts here: the staged rows are dropped and
        // nothing is committed back into the registry
        Err(StoreError::Unavailable)
    }

    /// Transactional bulk delete by endpoint.
    pub fn delete_proxies(&mut self, proxies: &Vec<Proxy>) -> (r: Result<(), StoreError>)
        requires
            old(self).wf(),
        ensures
            r is Ok,
            final(self)@ == spec_delete_many(old(self)@, proxies@),
            final(self).spec_next_id() == old(self).spec_next_id(),
            final(self).wf(),
    {
        let ghost orig_rows = self@;
        let ghost keep = |r: (u32, Proxy)| !spec_batch_has_endpoint(proxies@, r.1);
        let mut kept: Vec<(u32, Proxy)> = Vec::new();
        let n = self.rows.len();
        for j in 0..n
            invariant
                n == self@.len(),
                self@ == orig_rows,
                keep == (|r: (u32, Proxy)| !spec_batch_has_endpoint(proxies@, r.1)),
                kept@ =~= orig_rows.take(j as int).filter(keep),
                rows_wf(self@, self.next_id as int),
        {
            let mut matched = false;
            let m = proxies.len();
            for k in 0..m
                invariant
                    m == proxies@.len(),
                    n == self@.len(),
                    j < n,
                    self@ == orig_rows,
                    matched == exists|t: int|
                        0 <= t < k && endpoint_matches(#[trigger] proxies@[t], self@[j as int].1),
            {
                if proxies[k].address == self.rows[j].1.address && proxies[k].port
                    == self.rows[j].1.port {
                    matched = true;
                }
            }
            let id = self.rows[j].0;
            let row = Proxy {
                schema: self.rows[j].1.schema.clone(),
                address: self.rows[j].1.address.clone(),
                port: self.rows[j].1.port,
                rating: self.rows[j].1.rating,
                fails: self.rows[j].1.fails,
                blacklisted: self.rows[j].1.blacklisted,
            };
            proof {
                assert(row == orig_rows[j as int].1);
                assert(matched == spec_batch_has_endpoint(proxies@, orig_rows[j as int].1));
                assert(orig_rows.take(j as int + 1) =~= orig_rows.take(j as int).push(
                    orig_rows[j as int],
                ));
                lemma_filter_push(orig_rows.take(j as int), orig_rows[j as int], keep);
            }
            if !matched {
                kept.push((id, row));
            }
        }
        proof {
            assert(orig_rows.take(n as int) =~= orig_rows);
            lemma_filter_preserves_wf(orig_rows, keep, self.next_id as int);
        }
        self.rows = kept;
        Ok(())
    }

    /// One cursor page: rows with `id > from`, ascending by id, excluding
    /// blacklisted records, at most `pag` of them.
    pub fn after(&self, from: u32, pag: u32) -> (page: Vec<(u32, Proxy)>)
        requires
            self.wf(),
        ensures
            page@ == spec_after(self@, from as int, pag as int),
    {
        let ghost qual = |r: (u32, Proxy)| r.0 > from as int && !r.1.blacklisted;
        let mut page: Vec<(u32, Proxy)> = Vec::new();
        let n = self.rows.len();
        let mut j: usize = 0;
        while j < n && page.len() < pag as usize
            invariant
                j <= n,
                n == self@.len(),
                self.wf(),
                qual == (|r: (u32, Proxy)| r.0 > from as int && !r.1.blacklisted),
                page@.len() <= pag as int,
                page@ =~= self@.take(j as int).filter(qual),
                page@.len() < pag as int || j == n || self@.take(j as int).filter(qual).len()
                    == pag as int,
            decreases n - j,
        {
            let id = self.rows[j].0;
            let keep = id > from && !self.rows[j].1.blacklisted;
            proof {
                assert(self@.take(j as int + 1) =~= self@.take(j as int).push(self@[j as int]));
                lemma_filter_push(self@.take(j as int), self@[j as int], qual);
            }
            if keep {
                let row = Proxy {
                    schema: self.rows[j].1.schema.clone(),
                    address: self.rows[j].1.address.clone(),
                    port: self.rows[j].1.port,
                    rating: self.rows[j].1.rating,
                    fails: self.rows[j].1.fails,
                    blacklisted: self.rows[j].1.blacklisted,
                };
                proof {
                    assert(row == self@[j as int].1);
                }
                page.push((id, row));
            }
            j = j + 1;
        }
        proof {
            let whole = self@.filter(qual);
            if j == n {
                assert(self@.take(n as int) =~= self@);
                if whole.len() <= pag as int {
                    assert(page@ =~= spec_after(self@, from as int, pag as int));
                } else {
                    assert(page@ =~= whole.take(pag as int));
                }
            } else {
                // stopped because the page filled up
                lemma_filter_take_prefix(self@, qual, j as int);
                assert(page@ =~= whole.take(pag as int));
            }
        }
        page
    }
}

/// Inserting a record whose endpoint was just inserted is a no-op: after
/// one insert of `p` the registry holds the endpoint, so a second insert
/// of `p` changes neither the rows nor the id counter -- there are never
/// two live records of one endpoint.
pub proof fn lemma_insert_duplicate_is_noop(rows: Seq<(u32, Proxy)>, next: int, p: Proxy)
    ensures
        ({
            let once = spec_insert_many(rows, next, seq![p]);
            let twice = spec_insert_many(once.0, once.1, seq![p]);
            twice == once
        }),
{
    let single = seq![p];
    assert(single.len() == 1);
    assert(single[0] == p);
    assert(single.drop_first() =~= Seq::<Proxy>::empty());
    let once = spec_insert_many(rows, next, single);
    if spec_has_endpoint(rows, p) {
        assert(spec_insert_many(rows, next, Seq::<Proxy>::empty()) == (rows, next));
        assert(once == (rows, next));
        assert(spec_insert_many(once.0, once.1, single) == once);
    } else {
        let pushed = rows.push((next as u32, p));
        assert(spec_insert_many(pushed, next + 1, Seq::<Proxy>::empty()) == (pushed, next + 1));
        assert(once == (pushed, next + 1));
        assert(pushed[pushed.len() - 1].1 == p);
        assert(endpoint_matches(pushed[pushed.len() - 1].1, p));
        assert(spec_has_endpoint(pushed, p));
        assert(spec_insert_many(once.0, once.1, single) == once);
    }
}

/// A filtered prefix is a prefix of the filtered whole: taking the page
/// that a scan of the first `j` rows produced is taking the same rows off
/// the front of the fully filtered sequence.
pub proof fn lemma_filter_take_prefix<A>(s: Seq<A>, pred: spec_fn(A) -> bool, j: int)
    requires
        0 <= j <= s.len(),
    ensures
        s.filter(pred) =~= s.take(j).filter(pred) + s.skip(j).filter(pred),
{
    assert(s =~= s.take(j) + s.skip(j));
    Seq::filter_distributes_over_add(s.take(j), s.skip(j), pred);
}

/// The candidate set of a rating-ordered query: the non-blacklisted rows,
/// further restricted to ratings above the floor when one is given.
pub open spec fn spec_candidates(rows: Seq<(u32, Proxy)>, min_rating: Option<u32>) -> Seq<
    (u32, Proxy),
> {
    match min_rating {
        Option::None => rows.filter(|r: (u32, Proxy)| !r.1.blacklisted),
        Option::Some(m) => rows.filter(|r: (u32, Proxy)| !r.1.blacklisted && r.1.rating > m),
    }
}

/// Rating order of a selection: descending when `desc`, else ascending.
pub open spec fn rating_before(desc: bool, a: (u32, Proxy), b: (u32, Proxy)) -> bool {
    if desc {
        a.1.rating >= b.1.rating
    } else {
        a.1.rating <= b.1.rating
    }
}

/// What a rating-ordered, limited query returns: as many of the candidate
/// rows as the limit allows, ordered by rating, each taken from the
/// candidates (no row more often than it occurs), and every candidate left
/// out ordering no earlier than everything selected.
pub open spec fn selection_post(
    cands: Seq<(u32, Proxy)>,
    limit: int,
    desc: bool,
    out: Seq<(u32, Proxy)>,
) -> bool {
    &&& out.len() == (if cands.len() <= limit {
        cands.len() as int
    } else {
        limit
    })
    &&& forall|a: int, b: int| #![trigger out[a], out[b]]
        0 <= a < b < out.len() ==> rating_before(desc, out[a], out[b])
    &&& forall|x: (u32, Proxy)| #![trigger out.to_multiset().count(x)]
        out.to_multiset().count(x) <= cands.to_multiset().count(x)
    &&& forall|x: (u32, Proxy), k: int| #![trigger cands.to_multiset().count(x), out[k]]
        cands.to_multiset().count(x) > out.to_multiset().count(x) && 0 <= k < out.len()
            ==> rating_before(desc, out[k], x)
}

/// The contract of `top_rated`: the non-blacklisted rows, rating
/// descending, at most `limit` of them, and nothing better left behind.
pub open spec fn top_rated_post(rows: Seq<(u32, Proxy)>, limit: int, out: Seq<(u32, Proxy)>) -> bool {
    selection_post(spec_candidates(rows, Option::None), limit, true, out)
}

/// The contract of `over`: the non-blacklisted rows rated above the floor,
/// rating ascending (weakest first), at most `limit` of them, and nothing
/// weaker that still qualifies left behind.
pub open spec fn over_post(
    rows: Seq<(u32, Proxy)>,
    min_rating: u32,
    limit: int,
    out: Seq<(u32, Proxy)>,
) -> bool {
    selection_post(spec_candidates(rows, Option::Some(min_rating)), limit, false, out)
}

impl Proxies {
    /// Collects the candidate rows of a rating-ordered query.
    fn candidates(&self, min_rating: Option<u32>) -> (v: Vec<(u32, Proxy)>)
        requires
            self.wf(),
        ensures
            v@ == spec_candidates(self@, min_rating),
    {
        let ghost pred = (match min_rating {
            Option::None => |r: (u32, Proxy)| !r.1.blacklisted,
            Option::Some(m) => |r: (u32, Proxy)| !r.1.blacklisted && r.1.rating > m,
        });
        let mut v: Vec<(u32, Proxy)> = Vec::new();
        let n = self.rows.len();
        for j in 0..n
            invariant
                n == self@.len(),
                self.wf(),
                pred == (match min_rating {
                    Option::None => |r: (u32, Proxy)| !r.1.blacklisted,
                    Option::Some(m) => |r: (u32, Proxy)| !r.1.blacklisted && r.1.rating > m,
                }),
                v@ =~= self@.take(j as int).filter(pred),
        {
            let keep = !self.rows[j].1.blacklisted && (match min_rating {
                Option::None => true,
                Option::Some(m) => self.rows[j].1.rating > m,
            });
            proof {
                assert(keep == pred(self@[j as int]));
                assert(self@.take(j as int + 1) =~= self@.take(j as int).push(self@[j as int]));
                lemma_filter_push(self@.take(j as int), self@[j as int], pred);
            }
            if keep {
                let id = self.rows[j].0;
                let row = Proxy {
                    schema: self.rows[j].1.schema.clone(),
                    address: self.rows[j].1.address.clone(),
                    port: self.rows[j].1.port,
                    rating: self.rows[j].1.rating,
                    fails: self.rows[j].1.fails,
                    blacklisted: self.rows[j].1.blacklisted,
                };
                proof {
                    assert(row == self@[j as int].1);
                }
                v.push((id, row));
            }
        }
        proof {
            assert(self@.take(n as int) =~= self@);
        }
        v
    }

    /// Non-blacklisted records ordered by rating descending, at most
    /// `limit` of them: the best of the pool.
    pub fn top_rated(&self, limit: u32) -> (out: Vec<(u32, Proxy)>)
        requires
            self.wf(),
        ensures
            top_rated_post(self@, limit as int, out@),
    {
        let cands = self.candidates(None);
        select_by_rating(cands, limit, true)
    }

    /// Non-blacklisted records rated strictly above the floor, ordered by
    /// rating ascending, at most `limit` of them: the weakest that still
    /// qualify.
    pub fn over(&self, min_rating: u32, limit: u32) -> (out: Vec<(u32, Proxy)>)
        requires
            self.wf(),
        ensures
            over_post(self@, min_rating, limit as int, out@),
    {
        let cands = self.candidates(Some(min_rating));
        select_by_rating(cands, limit, false)
    }
}

/// Repeatedly moves the extreme-rated candidate (highest when `desc`,
/// lowest otherwise) into the output, until the limit is reached or the
/// candidates run out.
fn select_by_rating(cands: Vec<(u32, Proxy)>, limit: u32, desc: bool) -> (out: Vec<(u32, Proxy)>)
    ensures
        selection_post(cands@, limit as int, desc, out@),
{
    broadcast use vstd::seq_lib::group_to_multiset_ensures;
    broadcast use vstd::multiset::group_multiset_axioms;

    let ghost cands0 = cands@;
    let mut rest = cands;
    let mut out: Vec<(u32, Proxy)> = Vec::new();
    while out.len() < limit as usize && rest.len() > 0
        invariant
            out@.len() + rest@.len() == cands0.len(),
            out@.len() <= limit as int,
            out@.to_multiset().add(rest@.to_multiset()) == cands0.to_multiset(),
            forall|a: int, b: int| #![trigger out@[a], out@[b]]
                0 <= a < b < out@.len() ==> rating_before(desc, out@[a], out@[b]),
            forall|a: int, b: int| #![trigger out@[a], rest@[b]]
                0 <= a < out@.len() && 0 <= b < rest@.len() ==> rating_before(
                    desc,
                    out@[a],
                    rest@[b],
                ),
        decreases rest@.len(),
    {
        let mut idx: usize = 0;
        let m = rest.len();
        for t in 1..m
            invariant
                m == rest@.len(),
                idx < t,
                forall|u: int| 0 <= u < t ==> rating_before(desc, rest@[idx as int], #[trigger] rest@[u]),
        {
            let better = if desc {
                rest[t].1.rating > rest[idx].1.rating
            } else {
                rest[t].1.rating < rest[idx].1.rating
            };
            if better {
                idx = t;
            }
        }
        let ghost out_pre = out@;
        let ghost rest_pre = rest@;
        let x = rest.remove(idx);
        proof {
            broadcast use vstd::multiset::group_multiset_axioms;

            assert(x == rest_pre[idx as int]);
            rest_pre.remove_ensures(idx as int);
            assert(rest_pre.contains(x));
            vstd::seq_lib::to_multiset_contains(rest_pre, x);
            assert(rest_pre.to_multiset().count(x) > 0);
        }
        out.push(x);
        proof {
            broadcast use vstd::multiset::group_multiset_axioms;

            assert(out@ =~= out_pre.push(x));
            vstd::seq_lib::to_multiset_build(out_pre, x);
            assert(out@.to_multiset() == out_pre.to_multiset().insert(x));
            assert(rest@ == rest_pre.remove(idx as int));
            vstd::seq_lib::to_multiset_remove(rest_pre, idx as int);
            assert(rest@.to_multiset() == rest_pre.to_multiset().remove(x));
            assert(out@.to_multiset().add(rest@.to_multiset()) =~= out_pre.to_multiset().add(
                rest_pre.to_multiset(),
            ));
            assert forall|a: int, b: int| #![trigger out@[a], rest@[b]]
                0 <= a < out@.len() && 0 <= b < rest@.len() implies rating_before(
                desc,
                out@[a],
                rest@[b],
            ) by {
                assert(rest@[b] == if b < idx as int {
                    rest_pre[b]
                } else {
                    rest_pre[b + 1]
                });
                if a < out@.len() - 1 {
                    assert(out@[a] == out_pre[a]);
                } else {
                    assert(out@[a] == x);
                    assert(rating_before(desc, rest_pre[idx as int], rest@[b]));
                }
            }
        }
    }
    proof {
        assert forall|x: (u32, Proxy)| #![trigger out@.to_multiset().count(x)]
            out@.to_multiset().count(x) <= cands0.to_multiset().count(x) by {
            assert(cands0.to_multiset().count(x) == out@.to_multiset().count(x)
                + rest@.to_multiset().count(x));
        }
        assert forall|x: (u32, Proxy), k: int| #![trigger cands0.to_multiset().count(x), out@[k]]
            cands0.to_multiset().count(x) > out@.to_multiset().count(x) && 0 <= k
            < out@.len() implies rating_before(desc, out@[k], x) by {
            assert(cands0.to_multiset().count(x) == out@.to_multiset().count(x)
                + rest@.to_multiset().count(x));
            assert(rest@.to_multiset().count(x) > 0);
            assert(rest@.contains(x));
            let b = choose|b: int| 0 <= b < rest@.len() && rest@[b] == x;
            assert(rating_before(desc, out@[k], rest@[b]));
        }
    }
    out
}

/// Filtering rows keeps the registry invariant: the surviving rows keep
/// their relative order, ids and endpoints.
proof fn lemma_filter_preserves_wf(
    rows: Seq<(u32, Proxy)>,
    pred: spec_fn((u32, Proxy)) -> bool,
    next_id: int,
)
    requires
        rows_wf(rows, next_id),
    ensures
        rows_wf(rows.filter(pred), next_id),
    decreases rows.len(),
{
    broadcast use vstd::seq_lib::group_filter_ensures;

    let f = rows.filter(pred);
    if rows.len() > 0 {
        let rest = rows.drop_last();
        let last = rows.last();
        assert(forall|i: int| 0 <= i < rest.len() ==> rest[i] == rows[i]);
        assert(rows_wf(rest, next_id));
        lemma_filter_preserves_wf(rest, pred, next_id);
        let fd = rest.filter(pred);
        assert(rest.push(last) =~= rows);
        lemma_filter_push(rest, last, pred);
        assert forall|a: int, b: int| #![trigger f[a], f[b]]
            0 <= a < b < f.len() implies f[a].0 < f[b].0 && !endpoint_matches(f[a].1, f[b].1) by {
            if b < fd.len() {
                assert(f[a] == fd[a] && f[b] == fd[b]);
            } else {
                // b is the pushed last row of rows
                assert(f[b] == last);
                assert(fd[a] == f[a]);
                assert(fd.contains(f[a]));
                Seq::lemma_filter_contains_rev(rest, pred, f[a]);
                let m = choose|m: int| 0 <= m < rest.len() && rest[m] == f[a];
                assert(rows[m] == f[a]);
                assert(rows[rows.len() - 1] == last);
            }
        }
        assert forall|i: int| #![trigger f[i]]
            0 <= i < f.len() implies 1 <= f[i].0 && f[i].0 < next_id && f[i].1.valid() by {
            assert(f.contains(f[i]));
            Seq::lemma_filter_contains_rev(rows, pred, f[i]);
            let m = choose|m: int| 0 <= m < rows.len() && rows[m] == f[i];
            assert(rows[m] == f[i]);
        }
    }
}

} // verus!
