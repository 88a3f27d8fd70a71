use kildin::authorization::Authorization;
use kildin::endpoints::add_manager::{add_manager, random_string, AddManager};
use kildin::endpoints::add_ratelimited_proxy::{add_ratelimited, Proxy as ReportedProxy, RateLimitEntryInput};
use kildin::endpoints::bulk_insert_proxies::{bulk_insert_proxies, BulkInsertProxies};
use kildin::endpoints::get_proxy::{get_proxy, GetProxy};
use kildin::endpoints::modify_manager::{modify_manager, ModifyManager};
use kildin::managers::{ManagerAuth, ManagerResult, ManagerState};
use kildin::proxies::{Proxies, Proxy};
use kildin::ratelimited::{RateLimitEntry, RateLimited};
use kildin::server::ApiStatus;

fn admin() -> Authorization {
    Authorization { state: ManagerState::Admin }
}

fn member() -> Authorization {
    Authorization { state: ManagerState::Enabled }
}

fn record(address: &str, port: u16, rating: u32) -> Proxy {
    Proxy {
        schema: String::from("http"),
        address: String::from(address),
        port,
        rating,
        fails: 0,
        blacklisted: false,
    }
}

#[test]
fn bulk_insert_requires_admin() {
    let mut proxies = Proxies::new();
    let data = BulkInsertProxies { proxies: vec![String::from("http://a:1")] };
    assert_eq!(bulk_insert_proxies(&member(), &mut proxies, &data), Err(ApiStatus::Unauthorized));
    assert_eq!(proxies.top_rated(10).len(), 0);
}

#[test]
fn bulk_insert_skips_malformed_and_stores_the_rest() {
    let mut proxies = Proxies::new();
    let data = BulkInsertProxies {
        proxies: vec![
            String::from("http://10.0.0.1:8080/"),
            String::from("not an address"),
            String::from("https://10.0.0.2:443"),
        ],
    };
    // two of the three addresses parse: two records inserted, and the
    // operation reports that count
    assert_eq!(bulk_insert_proxies(&admin(), &mut proxies, &data), Ok(2));
    let all = proxies.top_rated(10);
    assert_eq!(all.len(), 2);
    for row in &all {
        assert_eq!(row.1.rating, 0);
        assert_eq!(row.1.fails, 0);
        assert!(!row.1.blacklisted);
    }
}

#[test]
fn bulk_insert_of_nothing_parseable_is_rejected() {
    let mut proxies = Proxies::new();
    let data = BulkInsertProxies { proxies: vec![String::from("nope"), String::from("")] };
    assert_eq!(bulk_insert_proxies(&admin(), &mut proxies, &data), Err(ApiStatus::BadRequest));
    assert_eq!(proxies.top_rated(10).len(), 0);
}

#[test]
fn pool_of_three_returns_two_best_in_descending_order() {
    // pool rated {9.0, 5.0, 1.0}: asking for two returns 9.0 then 5.0
    let mut proxies = Proxies::new();
    proxies.insert_proxies(vec![
        record("a", 1, 9000),
        record("b", 2, 5000),
        record("c", 3, 1000),
    ]);
    let ratelimited = RateLimited::new();
    let data = GetProxy { website: String::from("site"), amount: 2, min_rating: None };
    let out = get_proxy(&proxies, &ratelimited, &data);
    assert_eq!(out.len(), 2);
    assert_eq!(out[0].rating, 9000);
    assert_eq!(out[1].rating, 5000);
}

#[test]
fn global_ban_excludes_for_every_website() {
    let mut proxies = Proxies::new();
    proxies.insert_proxies(vec![record("a", 1, 9000), record("b", 2, 5000)]);
    let mut ratelimited = RateLimited::new();
    ratelimited
        .add(vec![RateLimitEntry {
            website: String::from("*"),
            address: String::from("a"),
            port: 1,
            until: u64::MAX,
        }])
        .unwrap();
    for site in ["one.example", "two.example"] {
        let data = GetProxy { website: String::from(site), amount: 2, min_rating: None };
        let out = get_proxy(&proxies, &ratelimited, &data);
        assert!(out.iter().all(|p| !(p.address == "a" && p.port == 1)));
        assert_eq!(out.len(), 1);
    }
}

#[test]
fn site_ban_excludes_that_website_only() {
    let mut proxies = Proxies::new();
    proxies.insert_proxies(vec![record("a", 1, 9000)]);
    let mut ratelimited = RateLimited::new();
    ratelimited
        .add(vec![RateLimitEntry {
            website: String::from("example.com"),
            address: String::from("a"),
            port: 1,
            until: u64::MAX,
        }])
        .unwrap();
    let banned_here = GetProxy { website: String::from("example.com"), amount: 1, min_rating: None };
    assert_eq!(get_proxy(&proxies, &ratelimited, &banned_here).len(), 0);
    let fine_there = GetProxy { website: String::from("other.com"), amount: 1, min_rating: None };
    assert_eq!(get_proxy(&proxies, &ratelimited, &fine_there).len(), 1);
}

#[test]
fn rating_floor_returns_weakest_qualifying() {
    let mut proxies = Proxies::new();
    proxies.insert_proxies(vec![
        record("a", 1, 9000),
        record("b", 2, 5000),
        record("c", 3, 1000),
    ]);
    let ratelimited = RateLimited::new();
    let data = GetProxy { website: String::from("site"), amount: 2, min_rating: Some(2000) };
    let out = get_proxy(&proxies, &ratelimited, &data);
    assert_eq!(out.len(), 2);
    assert_eq!(out[0].rating, 5000);
    assert_eq!(out[1].rating, 9000);
}

#[test]
fn short_pool_returns_what_there_is() {
    let mut proxies = Proxies::new();
    proxies.insert_proxies(vec![record("a", 1, 9000)]);
    let ratelimited = RateLimited::new();
    let data = GetProxy { website: String::from("site"), amount: 5, min_rating: None };
    let out = get_proxy(&proxies, &ratelimited, &data);
    assert_eq!(out.len(), 1);
}

#[test]
fn global_report_requires_admin() {
    let mut ratelimited = RateLimited::new();
    let data = RateLimitEntryInput {
        website: String::from("*"),
        proxies: vec![ReportedProxy {
            address: String::from("http://a:1"),
            ratelimited_for: 60,
        }],
    };
    assert_eq!(add_ratelimited(&member(), &mut ratelimited, &data, 100), ApiStatus::Unauthorized);
    assert_eq!(ratelimited.read_ratelimited(10).len(), 0);
    assert_eq!(add_ratelimited(&admin(), &mut ratelimited, &data, 100), ApiStatus::Success);
    assert_eq!(ratelimited.read_ratelimited(10).len(), 1);
}

#[test]
fn reported_bans_store_parsed_endpoint_and_expiry() {
    let mut ratelimited = RateLimited::new();
    let data = RateLimitEntryInput {
        website: String::from("site"),
        proxies: vec![
            ReportedProxy { address: String::from("http://10.0.0.1:80/"), ratelimited_for: 60 },
            ReportedProxy { address: String::from("garbage"), ratelimited_for: 60 },
        ],
    };
    assert_eq!(add_ratelimited(&member(), &mut ratelimited, &data, 1000), ApiStatus::Success);
    let all = ratelimited.read_ratelimited(10);
    assert_eq!(all.len(), 1);
    assert_eq!(all[0].1.website, "site");
    assert_eq!(all[0].1.address, "10.0.0.1");
    assert_eq!(all[0].1.port, 80);
    assert_eq!(all[0].1.until, 1060);
}

#[test]
fn fully_malformed_report_is_rejected() {
    let mut ratelimited = RateLimited::new();
    let data = RateLimitEntryInput {
        website: String::from("site"),
        proxies: vec![ReportedProxy { address: String::from("garbage"), ratelimited_for: 60 }],
    };
    assert_eq!(add_ratelimited(&member(), &mut ratelimited, &data, 1000), ApiStatus::BadRequest);
}

#[test]
fn random_tokens_are_32_alphanumeric_characters() {
    let token = random_string(32);
    assert_eq!(token.len(), 32);
    assert!(token.chars().all(|c| c.is_ascii_alphanumeric()));
    // two draws almost surely differ; equality would mean the source is
    // handing a constant back
    assert_ne!(random_string(32), random_string(32));
}

#[test]
fn add_manager_issues_a_stored_admin_gated_token() {
    let mut manager = ManagerAuth::new();
    assert!(add_manager(&member(), &mut manager, &AddManager { state: 1 }).is_err());
    let resp = add_manager(&admin(), &mut manager, &AddManager { state: 2 }).unwrap();
    match manager.get_state(&resp.token) {
        ManagerResult::Accepted(s) => assert_eq!(s, ManagerState::Admin),
        ManagerResult::Rejected(_) => panic!("freshly issued token rejected"),
    }
}

#[test]
fn modify_manager_is_admin_gated_and_updates() {
    let mut manager = ManagerAuth::new();
    let resp = add_manager(&admin(), &mut manager, &AddManager { state: 1 }).unwrap();
    let data = ModifyManager { token: resp.token.clone(), state: 0 };
    assert_eq!(modify_manager(&member(), &mut manager, &data), ApiStatus::Unauthorized);
    assert_eq!(modify_manager(&admin(), &mut manager, &data), ApiStatus::Success);
    match manager.get_state(&resp.token) {
        ManagerResult::Accepted(s) => assert_eq!(s, ManagerState::Disabled),
        ManagerResult::Rejected(_) => panic!("stored token rejected"),
    }
}
