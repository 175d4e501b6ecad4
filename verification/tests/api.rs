use rustex::api::{ask, respond};
use rustex::environment::Env;

#[test]
fn ask_returns_constant_payload() {
    assert_eq!(ask(), "Hello world!");
}

#[test]
fn get_on_fixed_route_returns_greeting() {
    let r = respond("GET", "/ask");
    assert_eq!(r.status, 200);
    assert_eq!(r.body, "Hello world!");
}

#[test]
fn other_path_is_not_found() {
    for path in ["/", "/asked", "/ask/", "/other", ""] {
        let r = respond("GET", path);
        assert_eq!(r.status, 404, "path {:?} must not be served", path);
        assert_ne!(r.body, "Hello world!");
        assert_eq!(r.body, "");
    }
}

#[test]
fn other_method_is_not_allowed() {
    for method in ["POST", "PUT", "DELETE", "HEAD", "get"] {
        let r = respond(method, "/ask");
        assert_eq!(r.status, 405, "method {:?} must not be served", method);
        assert_ne!(r.body, "Hello world!");
        assert_eq!(r.body, "");
    }
}

#[test]
fn development_startup_then_ask_scenario() {
    let env = Env::init(
        Some("development".to_string()),
        vec![("ENV".to_string(), "development".to_string())],
        Some(vec![("GREETING_PORT".to_string(), "8080".to_string())]),
    );
    assert!(env.is_ok());
    let r = respond("GET", "/ask");
    assert_eq!(r.status, 200);
    assert_eq!(r.body, "Hello world!");
}

#[test]
fn production_startup_refused_before_any_reply() {
    let env = Env::init(
        Some("production".to_string()),
        vec![("ENV".to_string(), "production".to_string())],
        None,
    );
    assert!(env.is_err());
}
