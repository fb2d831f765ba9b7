use hyper_function_core::server::{Server, Upgrade};

const APP: &str = "app1";

fn check(query: &str) -> Upgrade {
    Server::check_upgrade("/hfn", true, Some(query), APP)
}

#[test]
fn wrong_app_id_is_bad_request() {
    let r = Server::check_upgrade("/hfn", true, Some("aid=wrong&cid=c&sid=s&ver=1&ts=0"), APP);
    assert!(matches!(r, Upgrade::BadRequest));
    assert_eq!(r.status(), 400);
    assert_eq!(r.body(), "Bad Request");
}

#[test]
fn valid_query_is_accepted() {
    match check("aid=app1&cid=c%20d&sid=s&ver=1.2&ts=%2B42") {
        Upgrade::Accept(u) => {
            assert_eq!(u.client_id, "c d");
            assert_eq!(u.session_id, "s");
            assert_eq!(u.client_version, "1.2");
            assert_eq!(u.client_ts, 42);
        }
        _ => panic!("expected the upgrade to be accepted"),
    }
    assert_eq!(check("aid=app1&cid=c&sid=s&ver=1&ts=0").status(), 101);
}

#[test]
fn missing_parameter_is_bad_request() {
    let full = ["aid=app1", "cid=c", "sid=s", "ver=1", "ts=0"];
    for skip in 0..full.len() {
        let query: Vec<&str> = full.iter().enumerate().filter(|(i, _)| *i != skip).map(|(_, p)| *p).collect();
        assert!(matches!(check(&query.join("&")), Upgrade::BadRequest), "without {}", full[skip]);
    }
}

#[test]
fn oversize_parameter_is_bad_request() {
    let long = "x".repeat(65);
    let at_cap = "x".repeat(64);
    assert!(matches!(check(&format!("aid=app1&cid={}&sid=s&ver=1&ts=0", long)), Upgrade::BadRequest));
    assert!(matches!(check(&format!("aid=app1&cid=c&sid={}&ver=1&ts=0", long)), Upgrade::BadRequest));
    assert!(matches!(check(&format!("aid=app1&cid=c&sid=s&ver={}&ts=0", "v".repeat(17))), Upgrade::BadRequest));
    assert!(matches!(check(&format!("aid={}&cid=c&sid=s&ver=1&ts=0", long)), Upgrade::BadRequest));
    assert!(matches!(check(&format!("aid=app1&cid={}&sid={}&ver={}&ts=0", at_cap, at_cap, "v".repeat(16))), Upgrade::Accept(_)));
}

#[test]
fn bad_timestamp_is_bad_request() {
    assert!(matches!(check("aid=app1&cid=c&sid=s&ver=1&ts=abc"), Upgrade::BadRequest));
    assert!(matches!(check("aid=app1&cid=c&sid=s&ver=1&ts=-1"), Upgrade::BadRequest));
    // A "+" in a query is a space, so the value is " 5".
    assert!(matches!(check("aid=app1&cid=c&sid=s&ver=1&ts=+5"), Upgrade::BadRequest));
    assert!(matches!(check("aid=app1&cid=c&sid=s&ver=1&ts=18446744073709551616"), Upgrade::BadRequest));
    match check("aid=app1&cid=c&sid=s&ver=1&ts=18446744073709551615") {
        Upgrade::Accept(u) => assert_eq!(u.client_ts, u64::MAX),
        _ => panic!("expected the upgrade to be accepted"),
    }
}

#[test]
fn later_duplicate_wins() {
    match check("aid=app1&cid=first&cid=second&sid=s&ver=1&ts=0") {
        Upgrade::Accept(u) => assert_eq!(u.client_id, "second"),
        _ => panic!("expected the upgrade to be accepted"),
    }
}

#[test]
fn other_paths_and_plain_requests() {
    let r = Server::check_upgrade("/other", true, Some("aid=app1"), APP);
    assert!(matches!(r, Upgrade::NotFound));
    assert_eq!(r.status(), 404);
    assert_eq!(r.body(), "");
    assert!(matches!(Server::check_upgrade("/hfn", false, Some("aid=app1&cid=c&sid=s&ver=1&ts=0"), APP), Upgrade::BadRequest));
    assert!(matches!(Server::check_upgrade("/hfn", true, None, APP), Upgrade::BadRequest));
}

#[test]
fn validate_query_on_pairs() {
    let pairs = vec![
        ("aid".to_string(), "app1".to_string()),
        ("cid".to_string(), "c".to_string()),
        ("sid".to_string(), "s".to_string()),
        ("ver".to_string(), "1".to_string()),
        ("ts".to_string(), "7".to_string()),
    ];
    let u = Server::validate_query(&pairs, APP).expect("valid");
    assert_eq!(u.client_ts, 7);
    assert!(Server::validate_query(&pairs, "other").is_none());
}
