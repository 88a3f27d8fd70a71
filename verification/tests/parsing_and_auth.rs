use kildin::managers::{ManagerAuth, ManagerResult, ManagerState};
use kildin::parse::parse_address;
use kildin::server::get_state;
use kildin::authorization::{authorize, AuthorizationError};
use kildin::StoreError;

#[test]
fn well_formed_address_parses() {
    let parsed = parse_address(&String::from("http://10.0.0.1:8080")).unwrap();
    assert_eq!(parsed.0, "http");
    assert_eq!(parsed.1, "10.0.0.1");
    assert_eq!(parsed.2, 8080);
}

#[test]
fn trailing_slash_in_port_is_dropped() {
    let parsed = parse_address(&String::from("https://proxy.example:443/")).unwrap();
    assert_eq!(parsed.0, "https");
    assert_eq!(parsed.1, "proxy.example");
    assert_eq!(parsed.2, 443);
}

#[test]
fn malformed_addresses_parse_to_nothing() {
    // no scheme separator
    assert!(parse_address(&String::from("10.0.0.1:8080")).is_none());
    // two scheme separators
    assert!(parse_address(&String::from("http://a://b:1")).is_none());
    // no port separator
    assert!(parse_address(&String::from("http://hostonly")).is_none());
    // two port separators
    assert!(parse_address(&String::from("http://host:1:2")).is_none());
    // empty port
    assert!(parse_address(&String::from("http://host:/")).is_none());
    // not a number
    assert!(parse_address(&String::from("http://host:eighty")).is_none());
    // too large for a port
    assert!(parse_address(&String::from("http://host:65536")).is_none());
}

#[test]
fn largest_port_still_parses() {
    let parsed = parse_address(&String::from("http://h:65535")).unwrap();
    assert_eq!(parsed.2, 65535);
}

fn token32(fill: char) -> String {
    std::iter::repeat(fill).take(32).collect()
}

#[test]
fn token_lookup_validates_and_finds() {
    let mut auth = ManagerAuth::new();
    let token = token32('a');
    assert!(auth.add_token(&token, ManagerState::Admin).is_ok());
    match auth.get_state(&token) {
        ManagerResult::Accepted(s) => assert_eq!(s, ManagerState::Admin),
        ManagerResult::Rejected(_) => panic!("stored token rejected"),
    }
    // too short
    match auth.get_state(&String::from("short")) {
        ManagerResult::Rejected(m) => assert_eq!(m, "Invalid token"),
        ManagerResult::Accepted(_) => panic!("invalid token accepted"),
    }
    // right length, bad character
    let mut odd = token32('a');
    odd.pop();
    odd.push('!');
    assert!(matches!(auth.get_state(&odd), ManagerResult::Rejected(_)));
    // valid shape but never stored
    assert!(matches!(auth.get_state(&token32('b')), ManagerResult::Rejected(_)));
}

#[test]
fn duplicate_token_is_a_conflict() {
    let mut auth = ManagerAuth::new();
    let token = token32('c');
    assert!(auth.add_token(&token, ManagerState::Enabled).is_ok());
    assert!(matches!(
        auth.add_token(&token, ManagerState::Admin),
        Err(StoreError::Conflict)
    ));
}

#[test]
fn update_state_changes_stored_capability() {
    let mut auth = ManagerAuth::new();
    let token = token32('d');
    auth.add_token(&token, ManagerState::Enabled).unwrap();
    auth.update_state(&token, ManagerState::Disabled).unwrap();
    match get_state(&auth, &token) {
        ManagerResult::Accepted(s) => assert_eq!(s, ManagerState::Disabled),
        ManagerResult::Rejected(_) => panic!("stored token rejected"),
    }
}

#[test]
fn authorize_takes_exactly_one_enabled_token() {
    let mut auth = ManagerAuth::new();
    let token = token32('e');
    auth.add_token(&token, ManagerState::Enabled).unwrap();
    // the happy path
    let granted = authorize(&auth, &vec![token.clone()]).unwrap();
    assert_eq!(granted.state, ManagerState::Enabled);
    // zero or two tokens
    assert!(matches!(
        authorize(&auth, &vec![]),
        Err(AuthorizationError::InvalidToken)
    ));
    assert!(matches!(
        authorize(&auth, &vec![token.clone(), token.clone()]),
        Err(AuthorizationError::InvalidToken)
    ));
    // a disabled token is turned away
    auth.update_state(&token, ManagerState::Disabled).unwrap();
    assert!(matches!(
        authorize(&auth, &vec![token.clone()]),
        Err(AuthorizationError::InvalidToken)
    ));
    // an unknown token surfaces the registry's message
    match authorize(&auth, &vec![token32('f')]) {
        Err(AuthorizationError::Other(m)) => assert_eq!(m, "Invalid token"),
        _ => panic!("unknown token authorized"),
    }
}

#[test]
fn state_codes_round_trip() {
    assert_eq!(ManagerState::from_u8(0), ManagerState::Disabled);
    assert_eq!(ManagerState::from_u8(1), ManagerState::Enabled);
    assert_eq!(ManagerState::from_u8(2), ManagerState::Admin);
    assert_eq!(ManagerState::from_u8(77), ManagerState::Unknown);
    assert_eq!(ManagerState::Admin.to_u8(), 2);
}

#[test]
fn error_messages_read_as_expected() {
    assert_eq!(AuthorizationError::InvalidToken.message(), "Invalid token");
    assert_eq!(
        AuthorizationError::SomethingWentWrong.message(),
        "Something went wrong"
    );
    assert_eq!(
        AuthorizationError::Other(String::from("oh no")).message(),
        "oh no"
    );
}
