//! The rate-limit registry: a store of time-bounded (website, endpoint)
//! bans with cursor-paginated reads and bulk transactional writes.

use rayon::iter::IntoParallelRefIterator;
use rayon::iter::ParallelIterator;
use vstd::prelude::*;

verus! {

use vstd::string::StringExecFns;

use crate::StoreError;
use crate::lemma_filter_all;
use crate::lemma_filter_none;
use crate::lemma_filter_push;
use crate::proxies::Proxy;

/// One ban: `website` is the banned destination, `"*"` meaning every
/// destination; `until` is the unix-epoch second the ban expires at.
#[derive(Clone, Debug)]
pub struct RateLimitEntry {
    pub website: String,
    pub address: String,
    pub port: u16,
    pub until: u64,
}

/// Two entries name the same ban when website, host and port all agree.
pub open spec fn ban_key_matches(a: RateLimitEntry, b: RateLimitEntry) -> bool {
    a.website@ == b.website@ && a.address@ == b.address@ && a.port == b.port
}

/// Some row of `rows` has the same (website, address, port) key as `e`.
pub open spec fn spec_has_ban_key(rows: Seq<(u32, RateLimitEntry)>, e: RateLimitEntry) -> bool {
    exists|i: int| 0 <= i < rows.len() && ban_key_matches(#[trigger] rows[i].1, e)
}

/// The batch `es` names the ban key of `q`.
pub open spec fn spec_batch_has_ban_key(es: Seq<RateLimitEntry>, q: RateLimitEntry) -> bool {
    exists|i: int| 0 <= i < es.len() && ban_key_matches(#[trigger] es[i], q)
}

/// Well-formedness of the registry contents: ids are at least 1, strictly
/// increasing, below the id counter, and the (website, address, port)
/// triple is unique among rows.
pub open spec fn ban_rows_wf(rows: Seq<(u32, RateLimitEntry)>, next_id: int) -> bool {
    &&& forall|i: int, j: int| #![trigger rows[i], rows[j]]
        0 <= i < j < rows.len() ==> rows[i].0 < rows[j].0 && !ban_key_matches(
            rows[i].1,
            rows[j].1,
        )
    &&& forall|i: int| #![trigger rows[i]] 0 <= i < rows.len() ==> 1 <= rows[i].0 && rows[i].0 < next_id
    &&& 1 <= next_id
}

/// The proxy at (addr, port) is banned for `website`: some row matches the
/// endpoint and names either this website or every website.
pub open spec fn spec_is_banned(
    rows: Seq<(u32, RateLimitEntry)>,
    website: Seq<char>,
    addr: Seq<char>,
    port: u16,
) -> bool {
    exists|i: int|
        0 <= i < rows.len() && ((#[trigger] rows[i]).1.website@ == website || rows[i].1.website@
            == "*"@) && rows[i].1.address@ == addr && rows[i].1.port == port
}

/// The effect of one `INSERT OR IGNORE`-style bulk insert: entries whose
/// ban key is already present are skipped, the rest are appended in order
/// with fresh ascending ids. Returns the new rows and the new id counter.
pub open spec fn spec_add_many(
    rows: Seq<(u32, RateLimitEntry)>,
    next: int,
    es: Seq<RateLimitEntry>,
) -> (Seq<(u32, RateLimitEntry)>, int)
    decreases es.len(),
{
    if es.len() == 0 {
        (rows, next)
    } else if spec_has_ban_key(rows, es[0]) {
        spec_add_many(rows, next, es.drop_first())
    } else {
        spec_add_many(rows.push((next as u32, es[0])), next + 1, es.drop_first())
    }
}

/// The effect of a bulk delete: every row whose ban key appears in the
/// batch is removed.
pub open spec fn spec_remove_many(
    rows: Seq<(u32, RateLimitEntry)>,
    es: Seq<RateLimitEntry>,
) -> Seq<(u32, RateLimitEntry)> {
    rows.filter(|r: (u32, RateLimitEntry)| !spec_batch_has_ban_key(es, r.1))
}

/// One cursor page: the rows after the cursor id, cut to the page size.
pub open spec fn spec_rl_after(rows: Seq<(u32, RateLimitEntry)>, from: int, pag: int) -> Seq<
    (u32, RateLimitEntry),
> {
    let qualifying = rows.filter(|r: (u32, RateLimitEntry)| r.0 > from);
    if qualifying.len() <= pag {
        qualifying
    } else {
        qualifying.take(pag)
    }
}

/// The entries among `rows` whose ban has expired by `now`.
pub open spec fn spec_expired(rows: Seq<(u32, RateLimitEntry)>, now: u64) -> Seq<RateLimitEntry> {
    rows.map_values(|r: (u32, RateLimitEntry)| r.1).filter(|e: RateLimitEntry| e.until <= now)
}

/// The rate-limit registry.
pub struct RateLimited {
    rows: Vec<(u32, RateLimitEntry)>,
    next_id: u32,
}

impl View for RateLimited {
    type V = Seq<(u32, RateLimitEntry)>;

    closed spec fn view(&self) -> Seq<(u32, RateLimitEntry)> {
        self.rows@
    }
}

impl RateLimited {
    /// The next id the registry will assign.
    pub closed spec fn spec_next_id(&self) -> u32 {
        self.next_id
    }

    /// The registry invariant; every operation keeps it.
    pub open spec fn wf(&self) -> bool {
        ban_rows_wf(self@, self.spec_next_id() as int)
    }

    /// An empty registry; ids start at 1.
    pub fn new() -> (s: Self)
        ensures
            s@ =~= Seq::<(u32, RateLimitEntry)>::empty(),
            s.spec_next_id() == 1,
            s.wf(),
    {
        RateLimited { rows: Vec::new(), next_id: 1 }
    }

    /// Whether some row has this entry's (website, address, port) key.
    fn contains_ban_key(&self, e: &RateLimitEntry) -> (b: bool)
        ensures
            b == spec_has_ban_key(self@, *e),
    {
        let n = self.rows.len();
        for i in 0..n
            invariant
                n == self@.len(),
                forall|k: int| 0 <= k < i ==> !ban_key_matches(#[trigger] self@[k].1, *e),
        {
            if self.rows[i].1.website == e.website && self.rows[i].1.address == e.address
                && self.rows[i].1.port == e.port {
                return true;
            }
        }
        false
    }

    /// Whether the proxy at (address, port) is currently banned for
    /// `website`, by a matching entry or a global `"*"` one.
    pub fn has_ban(&self, website: &String, address: &String, port: u16) -> (b: bool)
        ensures
            b == spec_is_banned(self@, website@, address@, port),
    {
        let star = String::from_str("*");
        let n = self.rows.len();
        for i in 0..n
            invariant
                n == self@.len(),
                star@ == "*"@,
                forall|k: int| #![trigger self@[k]]
                    0 <= k < i ==> !((self@[k].1.website@ == website@ || self@[k].1.website@
                        == "*"@) && self@[k].1.address@ == address@ && self@[k].1.port == port),
        {
            if (self.rows[i].1.website == *website || self.rows[i].1.website == star)
                && self.rows[i].1.address == *address && self.rows[i].1.port == port {
                return true;
            }
        }
        false
    }

    /// Transactional bulk insert; an entry whose (website, address, port)
    /// key is already present, in the registry or earlier in the batch, is
    /// silently ignored.
    pub fn add(&mut self, entries: Vec<RateLimitEntry>) -> (r: Result<(), StoreError>)
        requires
            old(self).wf(),
            old(self).spec_next_id() + entries@.len() <= u32::MAX,
        ensures
            r is Ok,
            final(self)@ == spec_add_many(
                old(self)@,
                old(self).spec_next_id() as int,
                entries@,
            ).0,
            final(self).spec_next_id() as int == spec_add_many(
                old(self)@,
                old(self).spec_next_id() as int,
                entries@,
            ).1,
            final(self).wf(),
    {
        let ghost orig_rows = self@;
        let ghost orig_next = self.next_id as int;
        let n = entries.len();
        let mut i: usize = 0;
        proof {
            assert(entries@.skip(0) =~= entries@);
        }
        while i < n
            invariant
                i <= n,
                n == entries@.len(),
                ban_rows_wf(self@, self.next_id as int),
                self.next_id as int <= orig_next + i,
                orig_next + entries@.len() <= u32::MAX,
                spec_add_many(orig_rows, orig_next, entries@) == spec_add_many(
                    self@,
                    self.next_id as int,
                    entries@.skip(i as int),
                ),
            decreases n - i,
        {
            let ghost pre_rows = self@;
            let ghost pre_next = self.next_id as int;
            proof {
                assert(entries@.skip(i as int).len() > 0);
                assert(entries@.skip(i as int)[0] == entries@[i as int]);
                assert(entries@.skip(i as int).drop_first() =~= entries@.skip(i as int + 1));
            }
            let e = &entries[i];
            if !self.contains_ban_key(e) {
                let fresh = (
                    self.next_id,
                    RateLimitEntry {
                        website: e.website.clone(),
                        address: e.address.clone(),
                        port: e.port,
                        until: e.until,
                    },
                );
                proof {
                    assert(fresh.1 == entries@[i as int]);
                }
                self.rows.push(fresh);
                self.next_id = self.next_id + 1;
                proof {
                    assert(self@ =~= pre_rows.push((pre_next as u32, entries@[i as int])));
                    assert forall|a: int, b: int|
                        0 <= a < b < self@.len() implies self@[a].0 < self@[b].0
                        && !ban_key_matches(self@[a].1, self@[b].1) by {
                        if b < self@.len() - 1 {
                            assert(self@[a] == pre_rows[a] && self@[b] == pre_rows[b]);
                        } else {
                            assert(self@[a] == pre_rows[a]);
                            assert(!spec_has_ban_key(pre_rows, entries@[i as int]));
                            assert(!ban_key_matches(pre_rows[a].1, entries@[i as int]));
                        }
                    }
                    assert(ban_rows_wf(self@, self.next_id as int));
                }
            }
            i = i + 1;
        }
        proof {
            assert(entries@.skip(n as int) =~= Seq::<RateLimitEntry>::empty());
        }
        Ok(())
    }

    /// Transactional bulk delete by (website, address, port) key.
    pub fn remove(&mut self, entries: Vec<RateLimitEntry>) -> (r: Result<(), StoreError>)
        requires
            old(self).wf(),
        ensures
            r is Ok,
            final(self)@ == spec_remove_many(old(self)@, entries@),
            final(self).spec_next_id() == old(self).spec_next_id(),
            final(self).wf(),
    {
        let ghost orig_rows = self@;
        let ghost keep = |r: (u32, RateLimitEntry)| !spec_batch_has_ban_key(entries@, r.1);
        let mut kept: Vec<(u32, RateLimitEntry)> = Vec::new();
        let n = self.rows.len();
        for j in 0..n
            invariant
                n == self@.len(),
                self@ == orig_rows,
                keep == (|r: (u32, RateLimitEntry)| !spec_batch_has_ban_key(entries@, r.1)),
                kept@ =~= orig_rows.take(j as int).filter(keep),
                ban_rows_wf(self@, self.next_id as int),
        {
            let mut matched = false;
            let m = entries.len();
            for k in 0..m
                invariant
                    m == entries@.len(),
                    n == self@.len(),
                    j < n,
                    self@ == orig_rows,
                    matched == exists|t: int|
                        0 <= t < k && ban_key_matches(#[trigger] entries@[t], self@[j as int].1),
            {
                if entries[k].website == self.rows[j].1.website && entries[k].address
                    == self.rows[j].1.address && entries[k].port == self.rows[j].1.port {
                    matched = true;
                }
            }
            let id = self.rows[j].0;
            let row = RateLimitEntry {
                website: self.rows[j].1.website.clone(),
                address: self.rows[j].1.address.clone(),
                port: self.rows[j].1.port,
                until: self.rows[j].1.until,
            };
            proof {
                assert(row == orig_rows[j as int].1);
                assert(matched == spec_batch_has_ban_key(entries@, orig_rows[j as int].1));
                assert(orig_rows.take(j as int + 1) =~= orig_rows.take(j as int).push(
                    orig_rows[j as int],
                ));
                lemma_filter_push(orig_rows.take(j as int), orig_rows[j as int], keep);
            }
            if !matched {
                kept.push((id, row));
            }
        }
        proof {
            assert(orig_rows.take(n as int) =~= orig_rows);
            lemma_ban_filter_preserves_wf(orig_rows, keep, self.next_id as int);
        }
        self.rows = kept;
        Ok(())
    }

    /// The subset of the given records that are currently banned for
    /// `website`, in their given order.
    pub fn get_ratelimited(&self, website: &String, proxies: Vec<Proxy>) -> (r: Vec<Proxy>)
        ensures
            r@ == proxies@.filter(
                |p: Proxy| spec_is_banned(self@, website@, p.address@, p.port),
            ),
    {
        let ghost rows = self@;
        let ghost orig = proxies@;
        let ghost pred = |p: Proxy| spec_is_banned(rows, website@, p.address@, p.port);
        let mut rem = proxies;
        let mut r: Vec<Proxy> = Vec::new();
        let ghost mut i: int = 0;
        while rem.len() > 0
            invariant
                rows == self@,
                0 <= i <= orig.len(),
                rem@ =~= orig.skip(i),
                pred == (|p: Proxy| spec_is_banned(rows, website@, p.address@, p.port)),
                r@ =~= orig.take(i).filter(pred),
            decreases rem@.len(),
        {
            let ghost rem_pre = rem@;
            let p = rem.remove(0);
            proof {
                assert(p == orig[i]);
                assert(rem_pre.remove(0) =~= orig.skip(i + 1));
                assert(orig.take(i + 1) =~= orig.take(i).push(orig[i]));
                lemma_filter_push(orig.take(i), orig[i], pred);
            }
            let banned = self.has_ban(website, &p.address, p.port);
            if banned {
                r.push(p);
            }
            proof {
                i = i + 1;
            }
        }
        proof {
            assert(orig.take(i) =~= orig);
        }
        r
    }

    /// One cursor page: rows with `id > from`, ascending by id, at most
    /// `pag` of them.
    fn after(&self, from: u32, pag: u32) -> (page: Vec<(u32, RateLimitEntry)>)
        requires
            self.wf(),
        ensures
            page@ == spec_rl_after(self@, from as int, pag as int),
    {
        let ghost qual = |r: (u32, RateLimitEntry)| r.0 > from as int;
        let mut page: Vec<(u32, RateLimitEntry)> = Vec::new();
        let n = self.rows.len();
        let mut j: usize = 0;
        while j < n && page.len() < pag as usize
            invariant
                j <= n,
                n == self@.len(),
                self.wf(),
                qual == (|r: (u32, RateLimitEntry)| r.0 > from as int),
                page@.len() <= pag as int,
                page@ =~= self@.take(j as int).filter(qual),
                page@.len() < pag as int || j == n || self@.take(j as int).filter(qual).len()
                    == pag as int,
            decreases n - j,
        {
            let id = self.rows[j].0;
            let keep = id > from;
            proof {
                assert(self@.take(j as int + 1) =~= self@.take(j as int).push(self@[j as int]));
                lemma_filter_push(self@.take(j as int), self@[j as int], qual);
            }
            if keep {
                let row = RateLimitEntry {
                    website: self.rows[j].1.website.clone(),
                    address: self.rows[j].1.address.clone(),
                    port: self.rows[j].1.port,
                    until: self.rows[j].1.until,
                };
                proof {
                    assert(row == self@[j as int].1);
                }
                page.push((id, row));
            }
            j = j + 1;
        }
        proof {
            let whole = self@.filter(qual);
            if j == n {
                assert(self@.take(n as int) =~= self@);
                if whole.len() <= pag as int {
                    assert(page@ =~= spec_rl_after(self@, from as int, pag as int));
                } else {
                    assert(page@ =~= whole.take(pag as int));
                }
            } else {
                crate::proxies::lemma_filter_take_prefix(self@, qual, j as int);
                assert(page@ =~= whole.take(pag as int));
            }
        }
        page
    }

    /// Pages through the whole registry from cursor 0, advancing the
    /// cursor to the last id of each page, until a page comes back empty;
    /// returns every row, in id order.
    pub fn read_ratelimited(&self, pag: u32) -> (all: Vec<(u32, RateLimitEntry)>)
        requires
            self.wf(),
            pag >= 1,
        ensures
            all@ == self@,
    {
        let mut all: Vec<(u32, RateLimitEntry)> = Vec::new();
        let mut idx: u32 = 0;
        let ghost mut k: int = 0;
        loop
            invariant
                self.wf(),
                pag >= 1,
                0 <= k <= self@.len(),
                all@ =~= self@.take(k),
                idx as int == if k == 0 {
                    0int
                } else {
                    self@[k - 1].0 as int
                },
            decreases self@.len() - k,
        {
            let mut page = self.after(idx, pag);
            proof {
                lemma_cursor_page(self@, self.spec_next_id() as int, k, idx as int, pag as int);
            }
            if page.len() == 0 {
                proof {
                    assert(self@.skip(k).len() == 0);
                    assert(self@.take(k) =~= self@);
                }
                return all;
            }
            let last = page.len() - 1;
            idx = page[last].0;
            let ghost plen = page@.len() as int;
            proof {
                assert(page@ =~= self@.skip(k).take(plen));
                assert(forall|t: int|
                    0 <= t < plen ==> #[trigger] page@[t] == self@.skip(k)[t] && self@.skip(k)[t]
                        == self@[k + t]);
                assert(self@.take(k + plen) =~= self@.take(k) + page@);
            }
            all.append(&mut page);
            proof {
                k = k + plen;
                assert(all@ =~= self@.take(k));
            }
        }
    }
}

/// Paging from the id of the last row already seen yields exactly the next
/// rows of the registry: ids ascend, so a row qualifies if and only if it
/// lies past the cursor position.
proof fn lemma_cursor_page(
    rows: Seq<(u32, RateLimitEntry)>,
    next_id: int,
    k: int,
    idx: int,
    pag: int,
)
    requires
        ban_rows_wf(rows, next_id),
        0 <= k <= rows.len(),
        pag >= 1,
        idx == if k == 0 {
            0int
        } else {
            rows[k - 1].0 as int
        },
    ensures
        spec_rl_after(rows, idx, pag) == rows.skip(k).take(
            if rows.len() - k <= pag {
                rows.len() - k
            } else {
                pag
            },
        ),
{
    let qual = |r: (u32, RateLimitEntry)| r.0 > idx;
    assert(rows =~= rows.take(k) + rows.skip(k));
    assert(forall|t: int| 0 <= t < k ==> #[trigger] rows.take(k)[t] == rows[t]);
    assert(forall|t: int| 0 <= t < rows.len() - k ==> #[trigger] rows.skip(k)[t] == rows[k + t]);
    assert forall|t: int| 0 <= t < k implies !qual(#[trigger] rows.take(k)[t]) by {
        if k > 0 {
            assert(rows[t].0 <= rows[k - 1].0);
        }
    }
    lemma_filter_none(rows.take(k), qual);
    assert forall|t: int| 0 <= t < rows.len() - k implies qual(#[trigger] rows.skip(k)[t]) by {
        if k > 0 {
            assert(rows[k - 1].0 < rows[k + t].0);
        } else {
            assert(rows[k + t].0 >= 1);
        }
    }
    lemma_filter_all(rows.skip(k), qual);
    Seq::filter_distributes_over_add(rows.take(k), rows.skip(k), qual);
    assert(rows.filter(qual) =~= rows.skip(k));
}

/// Filtering rows keeps the registry invariant: the surviving rows keep
/// their relative order, ids and ban keys.
proof fn lemma_ban_filter_preserves_wf(
    rows: Seq<(u32, RateLimitEntry)>,
    pred: spec_fn((u32, RateLimitEntry)) -> bool,
    next_id: int,
)
    requires
        ban_rows_wf(rows, next_id),
    ensures
        ban_rows_wf(rows.filter(pred), next_id),
    decreases rows.len(),
{
    broadcast use vstd::seq_lib::group_filter_ensures;

    let f = rows.filter(pred);
    if rows.len() > 0 {
        let rest = rows.drop_last();
        let last = rows.last();
        assert(forall|i: int| 0 <= i < rest.len() ==> rest[i] == rows[i]);
        assert(ban_rows_wf(rest, next_id));
        lemma_ban_filter_preserves_wf(rest, pred, next_id);
        let fd = rest.filter(pred);
        assert(rest.push(last) =~= rows);
        lemma_filter_push(rest, last, pred);
        assert forall|a: int, b: int| #![trigger f[a], f[b]]
            0 <= a < b < f.len() implies f[a].0 < f[b].0 && !ban_key_matches(f[a].1, f[b].1) by {
            if b < fd.len() {
                assert(f[a] == fd[a] && f[b] == fd[b]);
            } else {
                assert(f[b] == last);
                assert(fd[a] == f[a]);
                assert(fd.contains(f[a]));
                Seq::lemma_filter_contains_rev(rest, pred, f[a]);
                let m = choose|m: int| 0 <= m < rest.len() && rest[m] == f[a];
                assert(rows[m] == f[a]);
                assert(rows[rows.len() - 1] == last);
            }
        }
        assert forall|i: int| #![trigger f[i]]
            0 <= i < f.len() implies 1 <= f[i].0 && f[i].0 < next_id by {
            assert(f.contains(f[i]));
            Seq::lemma_filter_contains_rev(rows, pred, f[i]);
            let m = choose|m: int| 0 <= m < rows.len() && rows[m] == f[i];
            assert(rows[m] == f[i]);
        }
    }
}

/// Whether a ban has expired by `now`.
pub fn is_expired(e: &RateLimitEntry, now: u64) -> (b: bool)
    ensures
        b == (e.until <= now),
{
    e.until <= now
}

/// Relies on rayon's parallel iterator pipeline (`par_iter`, `filter`,
/// `map`, `collect` into a `Vec`): collecting produces exactly the items
/// the sequential pipeline would, evaluating the expiry test concurrently
/// per entry; only the items, not their order, are relied on here.
#[verifier::external_body]
pub(crate) fn par_filter_expired(entries: &Vec<(u32, RateLimitEntry)>, now: u64) -> (r: Vec<
    RateLimitEntry,
>)
    ensures
        r@.to_multiset() == spec_expired(entries@, now).to_multiset(),
{
    entries.par_iter().filter(|e| is_expired(&e.1, now)).map(|e| e.1.clone()).collect()
}

} // verus!
