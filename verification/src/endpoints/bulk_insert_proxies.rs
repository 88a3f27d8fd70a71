//! Bulk insertion of proxies from address strings. Admin-gated; malformed
//! addresses are skipped, and a request in which nothing parses is
//! rejected as a whole.

use vstd::prelude::*;

verus! {

use crate::authorization::Authorization;
use crate::lemma_filter_map_push;
use crate::managers::ManagerState;
use crate::parse::parse_address;
use crate::parse::spec_parse_address;
use crate::proxies::Proxies;
use crate::proxies::Proxy;
use crate::proxies::spec_insert_many;
use crate::server::ApiStatus;

/// The payload: one address string per proxy, `scheme://host:port[/]`.
pub struct BulkInsertProxies {
    pub proxies: Vec<String>,
}

/// The parses of the well-formed addresses, in order.
pub open spec fn spec_parsed_parts(addrs: Seq<String>) -> Seq<(Seq<char>, Seq<char>, u16)> {
    addrs.filter_map(|a: String| spec_parse_address(a@))
}

/// A fresh record built from one parsed address: the parsed scheme, host
/// and port, with rating zero, no fails and not blacklisted.
pub open spec fn spec_fresh_record(p: Proxy, t: (Seq<char>, Seq<char>, u16)) -> bool {
    p.schema@ == t.0 && p.address@ == t.1 && p.port == t.2 && p.rating == 0 && p.fails == 0
        && !p.blacklisted
}

/// The batch `parsed` holds exactly the fresh records of the well-formed
/// addresses, in order.
pub open spec fn spec_parsed_records(addrs: Seq<String>, parsed: Seq<Proxy>) -> bool {
    &&& parsed.len() == spec_parsed_parts(addrs).len()
    &&& forall|i: int|
        0 <= i < parsed.len() ==> spec_fresh_record(
            #[trigger] parsed[i],
            spec_parsed_parts(addrs)[i],
        )
}

/// Parses every address of the payload, skipping malformed ones, into
/// fresh records.
fn parse_proxies(addrs: &Vec<String>) -> (parsed: Vec<Proxy>)
    ensures
        spec_parsed_records(addrs@, parsed@),
        parsed@.len() <= addrs@.len(),
{
    let ghost f = |a: String| spec_parse_address(a@);
    let mut parsed: Vec<Proxy> = Vec::new();
    let n = addrs.len();
    for i in 0..n
        invariant
            n == addrs@.len(),
            f == (|a: String| spec_parse_address(a@)),
            parsed@.len() == addrs@.take(i as int).filter_map(f).len(),
            parsed@.len() <= i,
            forall|k: int|
                0 <= k < parsed@.len() ==> spec_fresh_record(
                    #[trigger] parsed@[k],
                    addrs@.take(i as int).filter_map(f)[k],
                ),
    {
        proof {
            assert(addrs@.take(i as int + 1) =~= addrs@.take(i as int).push(addrs@[i as int]));
            lemma_filter_map_push(addrs@.take(i as int), addrs@[i as int], f);
        }
        match parse_address(&addrs[i]) {
            Some(t) => {
                let (schema, host, port) = t;
                parsed.push(
                    Proxy {
                        schema,
                        address: host,
                        port,
                        rating: 0,
                        fails: 0,
                        blacklisted: false,
                    },
                );
            },
            None => {},
        }
    }
    proof {
        assert(addrs@.take(n as int) =~= addrs@);
    }
    parsed
}

/// Inserts the proxies of the payload: only an admin may; a payload in
/// which no address parses is rejected; otherwise the fresh records are
/// inserted in one transaction, duplicates silently ignored, and the
/// number of records actually inserted is returned.
pub fn bulk_insert_proxies(
    auth: &Authorization,
    proxies: &mut Proxies,
    data: &BulkInsertProxies,
) -> (r: Result<usize, ApiStatus>)
    requires
        old(proxies).wf(),
        old(proxies).spec_next_id() + data.proxies@.len() <= u32::MAX,
    ensures
        final(proxies).wf(),
        auth.state != ManagerState::Admin ==> (r matches Err(st) && st
            == ApiStatus::Unauthorized) && final(proxies)@ == old(proxies)@,
        auth.state == ManagerState::Admin ==> exists|parsed: Seq<Proxy>|
            {
                &&& #[trigger] spec_parsed_records(data.proxies@, parsed)
                &&& parsed.len() == 0 ==> (r matches Err(st) && st == ApiStatus::BadRequest)
                    && final(proxies)@ == old(proxies)@
                &&& parsed.len() > 0 ==> (r matches Ok(count) && count as int == spec_insert_many(
                    old(proxies)@,
                    old(proxies).spec_next_id() as int,
                    parsed,
                ).1 - old(proxies).spec_next_id()) && final(proxies)@ == spec_insert_many(
                    old(proxies)@,
                    old(proxies).spec_next_id() as int,
                    parsed,
                ).0
            },
{
    if !matches!(auth.state, ManagerState::Admin) {
        return Err(ApiStatus::Unauthorized);
    }
    let parsed = parse_proxies(&data.proxies);
    let ghost parsed_view = parsed@;
    if parsed.len() == 0 {
        return Err(ApiStatus::BadRequest);
    }
    proof {
        assert(forall|k: int|
            0 <= k < parsed_view.len() ==> (#[trigger] parsed_view[k]).rating == 0);
    }
    let count = proxies.insert_proxies(parsed);
    Ok(count)
}

} // verus!
