use kildin::StoreError;
use kildin::proxies::{Proxies, Proxy};
use kildin::ratelimited::{RateLimitEntry, RateLimited};

fn record(address: &str, port: u16, rating: u32) -> Proxy {
    Proxy {
        schema: String::from("http"),
        address: String::from(address),
        port,
        rating,
        fails: 0,
        blacklisted: false,
    }
}

#[test]
fn duplicate_endpoint_insert_is_ignored() {
    let mut proxies = Proxies::new();
    let first = proxies.insert_proxies(vec![record("10.0.0.1", 8080, 5000)]);
    assert_eq!(first, 1);
    // same (address, port) again: the second insert is a no-op
    let second = proxies.insert_proxies(vec![record("10.0.0.1", 8080, 9000)]);
    assert_eq!(second, 0);
    let all = proxies.top_rated(10);
    assert_eq!(all.len(), 1);
    // the surviving record is the first one
    assert_eq!(all[0].1.rating, 5000);
}

#[test]
fn duplicate_inside_one_batch_is_ignored() {
    let mut proxies = Proxies::new();
    let count =
        proxies.insert_proxies(vec![record("10.0.0.1", 80, 0), record("10.0.0.1", 80, 0)]);
    assert_eq!(count, 1);
}

#[test]
fn same_host_other_port_is_another_endpoint() {
    let mut proxies = Proxies::new();
    let count =
        proxies.insert_proxies(vec![record("10.0.0.1", 80, 0), record("10.0.0.1", 81, 0)]);
    assert_eq!(count, 2);
}

#[test]
fn update_matches_by_endpoint() {
    let mut proxies = Proxies::new();
    proxies.insert_proxies(vec![record("a", 1, 1000), record("b", 2, 2000)]);
    let mut changed = record("b", 2, 7000);
    changed.fails = 3;
    assert!(proxies.update_proxies(vec![changed]).is_ok());
    let all = proxies.top_rated(10);
    assert_eq!(all.len(), 2);
    let b = all.iter().find(|r| r.1.port == 2).unwrap();
    assert_eq!(b.1.rating, 7000);
    assert_eq!(b.1.fails, 3);
    let a = all.iter().find(|r| r.1.port == 1).unwrap();
    assert_eq!(a.1.rating, 1000);
}

#[test]
fn update_of_missing_endpoint_is_noop() {
    let mut proxies = Proxies::new();
    proxies.insert_proxies(vec![record("a", 1, 1000)]);
    assert!(proxies.update_proxies(vec![record("gone", 9, 9000)]).is_ok());
    let all = proxies.top_rated(10);
    assert_eq!(all.len(), 1);
    assert_eq!(all[0].1.rating, 1000);
}

#[test]
fn mid_batch_store_failure_leaves_all_rows_untouched() {
    let mut proxies = Proxies::new();
    proxies.insert_proxies(vec![record("a", 1, 1000), record("b", 2, 2000), record("c", 3, 3000)]);
    let batch = vec![record("a", 1, 9000), record("b", 2, 9000), record("c", 3, 9000)];
    // the transaction fails after two of the three rows were staged:
    // either all rows land or none do -- here none
    let r = proxies.update_proxies_with_failure(&batch, 2);
    assert!(matches!(r, Err(StoreError::Unavailable)));
    let all = proxies.top_rated(10);
    assert_eq!(all.len(), 3);
    for row in &all {
        assert!(row.1.rating == 1000 || row.1.rating == 2000 || row.1.rating == 3000);
    }
}

#[test]
fn delete_removes_by_endpoint() {
    let mut proxies = Proxies::new();
    proxies.insert_proxies(vec![record("a", 1, 1000), record("b", 2, 2000)]);
    assert!(proxies.delete_proxies(&vec![record("a", 1, 0)]).is_ok());
    let all = proxies.top_rated(10);
    assert_eq!(all.len(), 1);
    assert_eq!(all[0].1.port, 2);
}

#[test]
fn page_excludes_blacklisted_and_respects_cursor() {
    let mut proxies = Proxies::new();
    let mut bad = record("bad", 9, 0);
    bad.blacklisted = true;
    proxies.insert_proxies(vec![record("a", 1, 0), bad, record("c", 3, 0)]);
    // blacklisted records never appear in a page
    let page = proxies.after(0, 10);
    assert_eq!(page.len(), 2);
    assert!(page.iter().all(|r| !r.1.blacklisted));
    // the cursor advances past already-seen ids
    let first = proxies.after(0, 1);
    assert_eq!(first.len(), 1);
    let next = proxies.after(first[0].0, 10);
    assert_eq!(next.len(), 1);
    assert!(next[0].0 > first[0].0);
}

#[test]
fn top_rated_orders_descending_and_caps() {
    let mut proxies = Proxies::new();
    proxies.insert_proxies(vec![
        record("a", 1, 5000),
        record("b", 2, 9000),
        record("c", 3, 1000),
    ]);
    let top = proxies.top_rated(2);
    assert_eq!(top.len(), 2);
    assert_eq!(top[0].1.rating, 9000);
    assert_eq!(top[1].1.rating, 5000);
}

#[test]
fn over_returns_weakest_qualifying_first() {
    let mut proxies = Proxies::new();
    proxies.insert_proxies(vec![
        record("a", 1, 5000),
        record("b", 2, 9000),
        record("c", 3, 1000),
    ]);
    let over = proxies.over(2000, 5);
    assert_eq!(over.len(), 2);
    assert_eq!(over[0].1.rating, 5000);
    assert_eq!(over[1].1.rating, 9000);
}

#[test]
fn ratelimit_duplicate_key_is_ignored() {
    let mut rl = RateLimited::new();
    let e = RateLimitEntry {
        website: String::from("site"),
        address: String::from("10.0.0.1"),
        port: 80,
        until: 100,
    };
    let mut again = e.clone();
    again.until = 999;
    assert!(rl.add(vec![e, again]).is_ok());
    let all = rl.read_ratelimited(10);
    assert_eq!(all.len(), 1);
    assert_eq!(all[0].1.until, 100);
}

#[test]
fn ratelimit_remove_deletes_by_key() {
    let mut rl = RateLimited::new();
    let a = RateLimitEntry {
        website: String::from("site"),
        address: String::from("h"),
        port: 1,
        until: 5,
    };
    let b = RateLimitEntry {
        website: String::from("other"),
        address: String::from("h"),
        port: 1,
        until: 5,
    };
    assert!(rl.add(vec![a.clone(), b]).is_ok());
    assert!(rl.remove(vec![a]).is_ok());
    let all = rl.read_ratelimited(10);
    assert_eq!(all.len(), 1);
    assert_eq!(all[0].1.website, "other");
}

#[test]
fn ban_lookup_matches_site_and_global() {
    let mut rl = RateLimited::new();
    let site_ban = RateLimitEntry {
        website: String::from("example.com"),
        address: String::from("h1"),
        port: 1,
        until: 10,
    };
    let global_ban = RateLimitEntry {
        website: String::from("*"),
        address: String::from("h2"),
        port: 2,
        until: 10,
    };
    assert!(rl.add(vec![site_ban, global_ban]).is_ok());
    // a site entry bans that site only
    assert!(rl.has_ban(&String::from("example.com"), &String::from("h1"), 1));
    assert!(!rl.has_ban(&String::from("elsewhere"), &String::from("h1"), 1));
    // a global entry bans every site
    assert!(rl.has_ban(&String::from("example.com"), &String::from("h2"), 2));
    assert!(rl.has_ban(&String::from("elsewhere"), &String::from("h2"), 2));
}

#[test]
fn get_ratelimited_returns_banned_subset() {
    let mut rl = RateLimited::new();
    let ban = RateLimitEntry {
        website: String::from("site"),
        address: String::from("a"),
        port: 1,
        until: 10,
    };
    assert!(rl.add(vec![ban]).is_ok());
    let banned = rl.get_ratelimited(
        &String::from("site"),
        vec![record("a", 1, 0), record("b", 2, 0)],
    );
    assert_eq!(banned.len(), 1);
    assert_eq!(banned[0].address, "a");
}
