use judge::capacity::CapacityTracker;
use judge::config::{Config, EnvSettings};

fn unset() -> EnvSettings {
    EnvSettings {
        server_host: None,
        server_port: None,
        database_url: None,
        database_ns: None,
        database_db: None,
        database_user: None,
        database_pass: None,
        max_capacity: None,
        max_claim_delay_ms: None,
        jwt_secret: None,
    }
}

#[test]
fn capacity_counts_matches() {
    let mut t = CapacityTracker::new(2, 1000);
    assert!(t.can_accept_work());
    t.increment_matches();
    t.increment_matches();
    assert!(!t.can_accept_work());
    t.decrement_matches();
    assert_eq!(t.active_matches, 1);
    t.decrement_matches();
    t.decrement_matches();
    assert_eq!(t.active_matches, 0);
    let s = t.get_stats(0);
    assert_eq!((s.active_rooms, s.active_matches, s.total_active, s.max_capacity), (0, 0, 0, 2));
}

#[test]
fn config_defaults() {
    let c = Config::from_settings(unset());
    assert_eq!(c.server_host, "0.0.0.0");
    assert_eq!(c.server_port, 8081);
    assert_eq!(c.database_url, "localhost:8000");
    assert_eq!(c.database_ns, "tournament");
    assert_eq!(c.database_db, "axel");
    assert_eq!(c.database_user, "root");
    assert_eq!(c.database_pass, "root");
    assert_eq!(c.max_capacity, 100);
    assert_eq!(c.max_claim_delay_ms, 1000);
    assert_eq!(c.jwt_secret, "supersecret");
}

#[test]
fn config_reads_values() {
    let mut e = unset();
    e.server_port = Some("9000".to_string());
    e.max_capacity = Some("7".to_string());
    e.max_claim_delay_ms = Some("x".to_string());
    e.database_db = Some("db".to_string());
    let c = Config::from_settings(e);
    assert_eq!(c.server_port, 9000);
    assert_eq!(c.max_capacity, 7);
    assert_eq!(c.max_claim_delay_ms, 1000);
    assert_eq!(c.database_db, "db");
    let mut bad = unset();
    bad.server_port = Some("70000".to_string());
    assert_eq!(Config::from_settings(bad).server_port, 8080);
}
