//! Reporting rate-limit bans: a caller names a destination and the
//! proxies it was rate-limited on, with how long each ban runs. A global
//! destination (`"*"`) takes admin capability; malformed addresses are
//! skipped; a report in which nothing parses is rejected.

use vstd::prelude::*;

verus! {

use vstd::string::StringExecFns;

use crate::authorization::Authorization;
use crate::lemma_filter_map_push;
use crate::managers::ManagerState;
use crate::parse::parse_address;
use crate::parse::spec_parse_address;
use crate::ratelimited::RateLimitEntry;
use crate::ratelimited::RateLimited;
use crate::ratelimited::spec_add_many;
use crate::server::ApiStatus;

/// One reported proxy: its address string and how many seconds its ban
/// runs from now.
pub struct Proxy {
    pub address: String,
    pub ratelimited_for: u64,
}

/// The payload: the destination and the reported proxies.
pub struct RateLimitEntryInput {
    pub website: String,
    pub proxies: Vec<Proxy>,
}

/// The ban a report denotes: the parsed host and port, and the expiry
/// instant `now + ratelimited_for`, saturating at the largest epoch
/// second.
pub open spec fn spec_ban_parts(ps: Seq<Proxy>, now: u64) -> Seq<(Seq<char>, u16, u64)> {
    ps.filter_map(
        |p: Proxy|
            match spec_parse_address(p.address@) {
                Option::None => Option::None,
                Option::Some(t) => Option::Some(
                    (
                        t.1,
                        t.2,
                        if p.ratelimited_for > u64::MAX - now {
                            u64::MAX
                        } else {
                            (now + p.ratelimited_for) as u64
                        },
                    ),
                ),
            },
    )
}

/// The batch `entries` holds exactly the bans the report denotes, in
/// order, each for the requested website.
pub open spec fn spec_report_entries(
    ps: Seq<Proxy>,
    website: Seq<char>,
    now: u64,
    entries: Seq<RateLimitEntry>,
) -> bool {
    &&& entries.len() == spec_ban_parts(ps, now).len()
    &&& forall|i: int|
        0 <= i < entries.len() ==> {
            let t = spec_ban_parts(ps, now)[i];
            let e = #[trigger] entries[i];
            e.website@ == website && e.address@ == t.0 && e.port == t.1 && e.until == t.2
        }
}

/// Parses the reported proxies into ban entries for `website`.
fn parse_report(data: &RateLimitEntryInput, now: u64) -> (entries: Vec<RateLimitEntry>)
    ensures
        spec_report_entries(data.proxies@, data.website@, now, entries@),
        entries@.len() <= data.proxies@.len(),
{
    let ghost f = |p: Proxy|
        match spec_parse_address(p.address@) {
            Option::None => Option::None,
            Option::Some(t) => Option::Some(
                (
                    t.1,
                    t.2,
                    if p.ratelimited_for > u64::MAX - now {
                        u64::MAX
                    } else {
                        (now + p.ratelimited_for) as u64
                    },
                ),
            ),
        };
    let mut entries: Vec<RateLimitEntry> = Vec::new();
    let n = data.proxies.len();
    for i in 0..n
        invariant
            n == data.proxies@.len(),
            f == (|p: Proxy|
                match spec_parse_address(p.address@) {
                    Option::None => Option::None,
                    Option::Some(t) => Option::Some(
                        (
                            t.1,
                            t.2,
                            if p.ratelimited_for > u64::MAX - now {
                                u64::MAX
                            } else {
                                (now + p.ratelimited_for) as u64
                            },
                        ),
                    ),
                }),
            entries@.len() == data.proxies@.take(i as int).filter_map(f).len(),
            entries@.len() <= i,
            forall|k: int|
                0 <= k < entries@.len() ==> {
                    let t = data.proxies@.take(i as int).filter_map(f)[k];
                    let e = #[trigger] entries@[k];
                    e.website@ == data.website@ && e.address@ == t.0 && e.port == t.1 && e.until
                        == t.2
                },
    {
        proof {
            assert(data.proxies@.take(i as int + 1) =~= data.proxies@.take(i as int).push(
                data.proxies@[i as int],
            ));
            lemma_filter_map_push(data.proxies@.take(i as int), data.proxies@[i as int], f);
        }
        let p = &data.proxies[i];
        match parse_address(&p.address) {
            Some(t) => {
                let (_schema, host, port) = t;
                let until = if p.ratelimited_for > u64::MAX - now {
                    u64::MAX
                } else {
                    now + p.ratelimited_for
                };
                entries.push(
                    RateLimitEntry { website: data.website.clone(), address: host, port, until },
                );
            },
            None => {},
        }
    }
    proof {
        assert(data.proxies@.take(n as int) =~= data.proxies@);
    }
    entries
}

/// Stores the bans a report names: a global (`"*"`) report takes admin
/// capability; a report in which no address parses is rejected; otherwise
/// the bans land in one transaction, duplicate keys silently ignored.
pub fn add_ratelimited(
    auth: &Authorization,
    ratelimited: &mut RateLimited,
    data: &RateLimitEntryInput,
    now: u64,
) -> (st: ApiStatus)
    requires
        old(ratelimited).wf(),
        old(ratelimited).spec_next_id() + data.proxies@.len() <= u32::MAX,
    ensures
        final(ratelimited).wf(),
        data.website@ == "*"@ && auth.state != ManagerState::Admin ==> st
            == ApiStatus::Unauthorized && final(ratelimited)@ == old(ratelimited)@,
        !(data.website@ == "*"@ && auth.state != ManagerState::Admin) ==> exists|
            entries: Seq<RateLimitEntry>,
        |
            {
                &&& #[trigger] spec_report_entries(data.proxies@, data.website@, now, entries)
                &&& entries.len() == 0 ==> st == ApiStatus::BadRequest && final(ratelimited)@
                    == old(ratelimited)@
                &&& entries.len() > 0 ==> st == ApiStatus::Success && final(ratelimited)@
                    == spec_add_many(
                    old(ratelimited)@,
                    old(ratelimited).spec_next_id() as int,
                    entries,
                ).0
            },
{
    let star = String::from_str("*");
    if data.website == star && auth.state != ManagerState::Admin {
        return ApiStatus::Unauthorized;
    }
    let entries = parse_report(data, now);
    if entries.len() == 0 {
        return ApiStatus::BadRequest;
    }
    let _stored = ratelimited.add(entries);
    ApiStatus::Success
}

} // verus!
