//! The availability query engine: selects candidate proxies by rating,
//! removes those currently banned for the requested destination, and
//! retries against the registries until enough are found or the retry
//! bound is hit. The caller never gets more than it asked for, and never
//! a banned proxy.

use vstd::prelude::*;

verus! {

use crate::lemma_filter_push;
use crate::proxies::Proxies;
use crate::proxies::Proxy;
use crate::proxies::selection_post;
use crate::proxies::spec_candidates;
use crate::ratelimited::RateLimited;
use crate::ratelimited::RateLimitEntry;
use crate::ratelimited::spec_is_banned;

/// One availability request: destination, how many proxies, and an
/// optional rating floor (in thousandths).
pub struct GetProxy {
    pub website: String,
    pub amount: u32,
    pub min_rating: Option<u32>,
}

/// What one candidate selection yields after bans: the candidate records,
/// those banned for the destination removed, capped at the requested
/// amount.
pub open spec fn spec_available(
    cands: Seq<(u32, Proxy)>,
    rlrows: Seq<(u32, RateLimitEntry)>,
    website: Seq<char>,
    amount: int,
) -> Seq<Proxy> {
    let usable = cands.map_values(|c: (u32, Proxy)| c.1).filter(
        |p: Proxy| !spec_is_banned(rlrows, website, p.address@, p.port),
    );
    if usable.len() <= amount {
        usable
    } else {
        usable.take(amount)
    }
}

/// The engine's contract: the answer is what some valid candidate
/// selection (rating-ordered, limited to the requested amount, nothing
/// better left behind) yields once the proxies banned for this destination
/// are removed and the rest is capped at the amount.
pub open spec fn get_proxy_post(
    prows: Seq<(u32, Proxy)>,
    rlrows: Seq<(u32, RateLimitEntry)>,
    website: Seq<char>,
    amount: u32,
    min_rating: Option<u32>,
    out: Seq<Proxy>,
) -> bool {
    exists|cands: Seq<(u32, Proxy)>|
        #[trigger] selection_post(
            spec_candidates(prows, min_rating),
            amount as int,
            min_rating is None,
            cands,
        ) && out == spec_available(cands, rlrows, website, amount as int)
}

/// Removes the candidates banned for `website` and caps the rest.
fn available(
    ratelimited: &RateLimited,
    website: &String,
    cands: Vec<(u32, Proxy)>,
    amount: u32,
) -> (out: Vec<Proxy>)
    ensures
        out@ == spec_available(cands@, ratelimited@, website@, amount as int),
{
    let ghost rlrows = ratelimited@;
    let ghost orig = cands@;
    let ghost flat = orig.map_values(|c: (u32, Proxy)| c.1);
    let ghost pred = |p: Proxy| !spec_is_banned(rlrows, website@, p.address@, p.port);
    let mut rem = cands;
    let mut out: Vec<Proxy> = Vec::new();
    let ghost mut i: int = 0;
    while rem.len() > 0
        invariant
            rlrows == ratelimited@,
            flat == orig.map_values(|c: (u32, Proxy)| c.1),
            pred == (|p: Proxy| !spec_is_banned(rlrows, website@, p.address@, p.port)),
            0 <= i <= orig.len(),
            rem@ =~= orig.skip(i),
            out@ =~= flat.take(i).filter(pred),
        decreases rem@.len(),
    {
        let ghost rem_pre = rem@;
        let c = rem.remove(0);
        let p = c.1;
        proof {
            assert(rem_pre[0] == orig[i]);
            assert(p == flat[i]);
            assert(rem_pre.remove(0) =~= orig.skip(i + 1));
            assert(flat.take(i + 1) =~= flat.take(i).push(flat[i]));
            lemma_filter_push(flat.take(i), flat[i], pred);
        }
        let banned = ratelimited.has_ban(website, &p.address, p.port);
        if !banned {
            out.push(p);
        }
        proof {
            i = i + 1;
        }
    }
    proof {
        assert(flat.take(i) =~= flat);
    }
    if out.len() > amount as usize {
        out.truncate(amount as usize);
        proof {
            assert(out@ =~= flat.filter(pred).take(amount as int));
        }
    }
    out
}

/// One candidate selection plus ban filtering.
fn attempt(proxies: &Proxies, ratelimited: &RateLimited, data: &GetProxy) -> (out: Vec<Proxy>)
    requires
        proxies.wf(),
    ensures
        get_proxy_post(proxies@, ratelimited@, data.website@, data.amount, data.min_rating, out@),
{
    let cands = match data.min_rating {
        Option::Some(m) => proxies.over(m, data.amount),
        Option::None => proxies.top_rated(data.amount),
    };
    available(ratelimited, &data.website, cands, data.amount)
}

/// Serves one availability request: fetches a rating-ordered candidate set
/// of the requested size, removes the candidates banned for the requested
/// destination, and returns once enough remain or five retries have been
/// spent; the answer is capped at the requested amount and may be shorter
/// when fewer qualify. Bans are not checked for expiry here: the sweeper
/// keeps the registry free of expired entries, so existence means active.
pub fn get_proxy(proxies: &Proxies, ratelimited: &RateLimited, data: &GetProxy) -> (out: Vec<
    Proxy,
>)
    requires
        proxies.wf(),
    ensures
        get_proxy_post(proxies@, ratelimited@, data.website@, data.amount, data.min_rating, out@),
        out@.len() <= data.amount as int,
        forall|k: int|
            0 <= k < out@.len() ==> !spec_is_banned(
                ratelimited@,
                data.website@,
                (#[trigger] out@[k]).address@,
                out@[k].port,
            ),
{
    broadcast use vstd::seq_lib::group_filter_ensures;

    let mut idx: u32 = 0;
    while idx < 5
        invariant
            proxies.wf(),
        decreases 5 - idx,
    {
        let out = attempt(proxies, ratelimited, data);
        if out.len() >= data.amount as usize {
            proof {
                lemma_available_bounds(
                    proxies@,
                    ratelimited@,
                    data.website@,
                    data.amount,
                    data.min_rating,
                    out@,
                );
            }
            return out;
        }
        idx = idx + 1;
    }
    let out = attempt(proxies, ratelimited, data);
    proof {
        lemma_available_bounds(
            proxies@,
            ratelimited@,
            data.website@,
            data.amount,
            data.min_rating,
            out@,
        );
    }
    out
}

/// What the engine's contract already carries, spelled out: the answer is
/// never longer than asked, and holds no proxy banned for the destination.
pub proof fn lemma_available_bounds(
    prows: Seq<(u32, Proxy)>,
    rlrows: Seq<(u32, RateLimitEntry)>,
    website: Seq<char>,
    amount: u32,
    min_rating: Option<u32>,
    out: Seq<Proxy>,
)
    requires
        get_proxy_post(prows, rlrows, website, amount, min_rating, out),
    ensures
        out.len() <= amount as int,
        forall|k: int|
            0 <= k < out.len() ==> !spec_is_banned(
                rlrows,
                website,
                (#[trigger] out[k]).address@,
                out[k].port,
            ),
{
    broadcast use vstd::seq_lib::group_filter_ensures;

    let cands = choose|cands: Seq<(u32, Proxy)>|
        #[trigger] selection_post(
            spec_candidates(prows, min_rating),
            amount as int,
            min_rating is None,
            cands,
        ) && out == spec_available(cands, rlrows, website, amount as int);
    let pred = |p: Proxy| !spec_is_banned(rlrows, website, p.address@, p.port);
    let usable = cands.map_values(|c: (u32, Proxy)| c.1).filter(pred);
    assert(selection_post(spec_candidates(prows, min_rating), amount as int, min_rating is None, cands));
    assert(cands.len() <= amount as int);
    assert(usable.len() <= cands.map_values(|c: (u32, Proxy)| c.1).len());
    assert forall|k: int| 0 <= k < out.len() implies !spec_is_banned(
        rlrows,
        website,
        (#[trigger] out[k]).address@,
        out[k].port,
    ) by {
        if usable.len() <= amount as int {
            assert(out[k] == usable[k]);
        } else {
            assert(out[k] == usable.take(amount as int)[k]);
            assert(out[k] == usable[k]);
        }
        assert(pred(usable[k]));
    }
}

/// A global ban (`website = "*"`) on an endpoint keeps that endpoint out
/// of every availability answer, whatever destination was asked for.
pub proof fn lemma_global_ban_excludes(
    prows: Seq<(u32, Proxy)>,
    rlrows: Seq<(u32, RateLimitEntry)>,
    website: Seq<char>,
    amount: u32,
    min_rating: Option<u32>,
    out: Seq<Proxy>,
    addr: Seq<char>,
    port: u16,
)
    requires
        get_proxy_post(prows, rlrows, website, amount, min_rating, out),
        exists|i: int|
            0 <= i < rlrows.len() && (#[trigger] rlrows[i]).1.website@ == "*"@ && rlrows[i].1.address@
                == addr && rlrows[i].1.port == port,
    ensures
        forall|k: int|
            0 <= k < out.len() ==> !((#[trigger] out[k]).address@ == addr && out[k].port == port),
{
    lemma_available_bounds(prows, rlrows, website, amount, min_rating, out);
    assert forall|k: int|
        0 <= k < out.len() implies !((#[trigger] out[k]).address@ == addr && out[k].port
        == port) by {
        if out[k].address@ == addr && out[k].port == port {
            let i = choose|i: int|
                0 <= i < rlrows.len() && (#[trigger] rlrows[i]).1.website@ == "*"@ && rlrows[i].1.address@
                    == addr && rlrows[i].1.port == port;
            assert(spec_is_banned(rlrows, website, out[k].address@, out[k].port));
        }
    }
}

/// A destination-specific ban reaches no other destination: when every ban
/// row for an endpoint names one website (and none names `"*"`), the
/// endpoint is banned for that website only.
pub proof fn lemma_site_ban_scoped(
    rlrows: Seq<(u32, RateLimitEntry)>,
    site: Seq<char>,
    other: Seq<char>,
    addr: Seq<char>,
    port: u16,
)
    requires
        forall|i: int|
            (0 <= i < rlrows.len() && (#[trigger] rlrows[i]).1.address@ == addr && rlrows[i].1.port
                == port) ==> rlrows[i].1.website@ == site,
        site != "*"@,
        other != site,
    ensures
        !spec_is_banned(rlrows, other, addr, port),
{
    if spec_is_banned(rlrows, other, addr, port) {
        let i = choose|i: int|
            0 <= i < rlrows.len() && ((#[trigger] rlrows[i]).1.website@ == other
                || rlrows[i].1.website@ == "*"@) && rlrows[i].1.address@ == addr && rlrows[i].1.port
                == port;
        assert(rlrows[i].1.website@ == site);
        assert(false);
    }
}

} // verus!
