use vstd::prelude::*;

pub mod authorization;
pub mod config;
pub mod endpoints;
pub mod logger;
pub mod managers;
pub mod parse;
pub mod proxies;
pub mod proxy_checker;
pub mod ratelimit_updater;
pub mod ratelimited;
pub mod server;

use crate::managers::ManagerAuth;
use crate::proxies::Proxies;
use crate::ratelimited::RateLimited;

verus! {

/// Failure of the backing store. The in-memory registries themselves never
/// fail, but the error is part of every bulk operation's interface so that a
/// persistent store can report `Unavailable`, and so that a failed
/// transaction can be surfaced; `Conflict` reports a key collision.
#[derive(Clone, Copy, Debug, PartialEq, Eq, Structural)]
pub enum StoreError {
    Unavailable,
    Conflict,
}

/// Unfolds one step of `Seq::filter` at the pushed end.
pub proof fn lemma_filter_push<A>(s: Seq<A>, x: A, pred: spec_fn(A) -> bool)
    ensures
        s.push(x).filter(pred) == (if pred(x) {
            s.filter(pred).push(x)
        } else {
            s.filter(pred)
        }),
{
    reveal(Seq::filter);
    assert(s.push(x).drop_last() =~= s);
    assert(s.push(x).last() == x);
    if pred(x) {
        assert(s.push(x).filter(pred) =~= s.filter(pred).push(x));
    } else {
        assert(s.push(x).filter(pred) =~= s.filter(pred));
    }
}

/// A filter that accepts every element of a sequence returns it unchanged.
pub proof fn lemma_filter_all<A>(s: Seq<A>, pred: spec_fn(A) -> bool)
    requires
        forall|i: int| 0 <= i < s.len() ==> pred(#[trigger] s[i]),
    ensures
        s.filter(pred) == s,
    decreases s.len(),
{
    reveal(Seq::filter);
    if s.len() > 0 {
        assert(forall|i: int| 0 <= i < s.drop_last().len() ==> #[trigger] s.drop_last()[i] == s[i]);
        lemma_filter_all(s.drop_last(), pred);
        assert(s.filter(pred) =~= s);
    } else {
        assert(s.filter(pred) =~= s);
    }
}

/// A filter that rejects every element of a sequence returns the empty
/// sequence.
pub proof fn lemma_filter_none<A>(s: Seq<A>, pred: spec_fn(A) -> bool)
    requires
        forall|i: int| 0 <= i < s.len() ==> !pred(#[trigger] s[i]),
    ensures
        s.filter(pred) == Seq::<A>::empty(),
    decreases s.len(),
{
    reveal(Seq::filter);
    if s.len() > 0 {
        assert(forall|i: int| 0 <= i < s.drop_last().len() ==> #[trigger] s.drop_last()[i] == s[i]);
        lemma_filter_none(s.drop_last(), pred);
        assert(s.filter(pred) =~= Seq::<A>::empty());
    } else {
        assert(s.filter(pred) =~= Seq::<A>::empty());
    }
}

/// Unfolds one step of `Seq::filter_map` at the pushed end.
pub proof fn lemma_filter_map_push<A, B>(s: Seq<A>, x: A, f: spec_fn(A) -> Option<B>)
    ensures
        s.push(x).filter_map(f) == (match f(x) {
            Option::Some(b) => s.filter_map(f).push(b),
            Option::None => s.filter_map(f),
        }),
{
    assert(s.push(x).drop_last() =~= s);
    assert(s.push(x).last() == x);
    match f(x) {
        Option::Some(b) => {
            assert(s.push(x).filter_map(f) =~= s.filter_map(f).push(b));
        },
        Option::None => {
            assert(s.push(x).filter_map(f) =~= s.filter_map(f));
        },
    }
}

/// Two predicates that agree on every element of a sequence filter it to
/// the same thing.
pub proof fn lemma_filter_congruent<A>(s: Seq<A>, p1: spec_fn(A) -> bool, p2: spec_fn(A) -> bool)
    requires
        forall|i: int| 0 <= i < s.len() ==> (p1(#[trigger] s[i]) <==> p2(s[i])),
    ensures
        s.filter(p1) == s.filter(p2),
    decreases s.len(),
{
    reveal(Seq::filter);
    if s.len() > 0 {
        assert(forall|i: int| 0 <= i < s.drop_last().len() ==> #[trigger] s.drop_last()[i] == s[i]);
        lemma_filter_congruent(s.drop_last(), p1, p2);
        assert(p1(s.last()) <==> p2(s.last()));
        assert(s.filter(p1) =~= s.filter(p2));
    } else {
        assert(s.filter(p1) =~= s.filter(p2));
    }
}

/// Sets up the three registries that the pool manager works against:
/// proxy records, rate-limit bans and manager tokens, each starting empty.
pub fn setup_db() -> (r: (Proxies, RateLimited, ManagerAuth))
    ensures
        r.0@ =~= Seq::<(u32, crate::proxies::Proxy)>::empty(),
        r.0.wf(),
        r.1@ =~= Seq::<(u32, crate::ratelimited::RateLimitEntry)>::empty(),
        r.1.wf(),
        r.2@ =~= Seq::<(String, u8)>::empty(),
        r.2.wf(),
{
    (Proxies::new(), RateLimited::new(), ManagerAuth::new())
}

} // verus!
