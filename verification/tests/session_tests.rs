use printq::session::SessionManager;
use printq::types::{PrintError, SSHAuthType, SSHConfig};

fn config(host: &str) -> SSHConfig {
    SSHConfig {
        host: host.to_string(),
        port: 22,
        username: "alice".to_string(),
        auth_type: SSHAuthType::Password { password: "SECRET-REDACTED".to_string() },
    }
}

#[test]
fn connect_then_status_reports_connected() {
    let mut m = SessionManager::new();
    assert!(!m.status());
    let msg = m.connect_established(config("sunfire.example.edu"), 1, 1000);
    assert!(m.status());
    assert_eq!(msg, "Connected to sunfire.example.edu");
}

#[test]
fn disconnect_then_status_reports_not_connected() {
    let mut m = SessionManager::new();
    m.connect_established(config("h"), 1, 5);
    assert!(m.disconnect().is_ok());
    assert!(!m.status());
}

#[test]
fn disconnect_without_session_fails() {
    let mut m = SessionManager::new();
    match m.disconnect() {
        Err(PrintError::Connection { message }) => {
            assert_eq!(message, "no active session");
        }
        _ => panic!("expected a connection error"),
    }
}

#[test]
fn probe_target_names_the_live_transport() {
    let mut m = SessionManager::new();
    m.connect_established(config("h"), 77, 5);
    assert_eq!(m.probe_target().unwrap(), 77);
}

#[test]
fn probe_success_keeps_the_session() {
    let mut m = SessionManager::new();
    m.connect_established(config("h"), 77, 5);
    m.probe_succeeded(42);
    assert!(m.status());
    assert_eq!(m.probe_target().unwrap(), 77);
}

#[test]
fn failed_probe_then_reconnect_restores_service() {
    // The stored config survives a dead session: the silent one-shot
    // reconnect uses it, and the next command sees a live session.
    let mut m = SessionManager::new();
    m.connect_established(config("sunfire.example.edu"), 1, 10);
    let cfg = m.probe_failed_take_config().expect("a session was held");
    assert!(!m.status());
    assert_eq!(cfg.host, "sunfire.example.edu");
    m.connect_established(cfg, 2, 20);
    assert!(m.status());
    assert_eq!(m.probe_target().unwrap(), 2);
}

#[test]
fn probe_on_no_session_reports_not_connected() {
    let m = SessionManager::new();
    assert!(m.probe_target().is_err());
}
