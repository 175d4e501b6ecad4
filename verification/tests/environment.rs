use rustex::environment::{Env, InitError, VarError};

fn pairs(items: &[(&str, &str)]) -> Vec<(String, String)> {
    items.iter().map(|(k, v)| (k.to_string(), v.to_string())).collect()
}

#[test]
fn init_development_mode_succeeds() {
    let r = Env::init(Some("development".to_string()), pairs(&[]), None);
    assert!(r.is_ok());
}

#[test]
fn init_absent_mode_flag_succeeds() {
    let r = Env::init(None, pairs(&[("HOME", "/root")]), None);
    assert!(r.is_ok());
}

#[test]
fn init_other_mode_values_succeed() {
    for mode in ["staging", "Production", "PRODUCTION", "production ", ""] {
        let r = Env::init(Some(mode.to_string()), pairs(&[]), None);
        assert!(r.is_ok(), "mode {:?} must not be refused", mode);
    }
}

#[test]
fn init_production_mode_refused() {
    let r = Env::init(Some("production".to_string()), pairs(&[("A", "1")]), None);
    match r {
        Err(InitError::ProductionUnsupported) => {}
        Ok(_) => panic!("production mode must be refused"),
    }
}

#[test]
fn get_present_key_returns_value() {
    let env = Env::init(None, pairs(&[("A", "1"), ("B", "2")]), None).unwrap();
    assert_eq!(env.get("A"), Ok("1".to_string()));
    assert_eq!(env.get("B"), Ok("2".to_string()));
}

#[test]
fn get_absent_key_is_distinguishable() {
    let env = Env::init(None, pairs(&[("A", "1")]), None).unwrap();
    assert_eq!(env.get("C"), Err(VarError::NotPresent));
}

#[test]
fn get_on_empty_environment() {
    let env = Env::init(None, pairs(&[]), None).unwrap();
    assert_eq!(env.get("ANYTHING"), Err(VarError::NotPresent));
}

#[test]
fn file_entries_fill_gaps_only() {
    let env = Env::init(
        Some("development".to_string()),
        pairs(&[("A", "1")]),
        Some(pairs(&[("A", "2"), ("B", "3")])),
    )
    .unwrap();
    assert_eq!(env.get("A"), Ok("1".to_string()));
    assert_eq!(env.get("B"), Ok("3".to_string()));
}

#[test]
fn missing_file_loads_nothing() {
    let env = Env::init(Some("development".to_string()), pairs(&[("A", "1")]), None).unwrap();
    assert_eq!(env.get("A"), Ok("1".to_string()));
    assert_eq!(env.get("B"), Err(VarError::NotPresent));
}

#[test]
fn earlier_file_entry_wins_over_later() {
    let env = Env::init(None, pairs(&[]), Some(pairs(&[("B", "1"), ("B", "2")]))).unwrap();
    assert_eq!(env.get("B"), Ok("1".to_string()));
}
