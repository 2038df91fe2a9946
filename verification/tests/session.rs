//! Tests of sessions and the hub status.

use schedula::models::SessionPayload;
use schedula::session::{bearer_token, hub_status, session_claims, SessionState, HUB_PORT};

fn payload(role: &str) -> SessionPayload {
    SessionPayload {
        user_id: 42,
        username: "ada".into(),
        display_name: "Ada".into(),
        role: role.into(),
        org_id: Some(3),
    }
}

#[test]
fn claims_of_a_session() {
    let c = session_claims(&payload("admin"), 1_000);
    assert_eq!(c.sub, "42");
    assert_eq!(c.username, "ada");
    assert_eq!(c.display_name, "Ada");
    assert_eq!(c.role, "admin");
    assert_eq!(c.org_id, Some(3));
    assert_eq!(c.exp, 1_000 + 86_400);
    assert_eq!(c.iat, 1_000);
}

#[test]
fn desktop_session_guards() {
    let mut s = SessionState::new();
    assert_eq!(s.require_session().err().unwrap(), "Not logged in");
    assert_eq!(s.require_super_admin().err().unwrap(), "Not logged in");
    s.login(payload("admin"));
    assert_eq!(s.require_session().unwrap().user_id, 42);
    assert_eq!(s.require_super_admin().err().unwrap(), "Super admin access required");
    s.login(payload("super_admin"));
    assert_eq!(s.require_super_admin().unwrap().username, "ada");
    s.logout();
    assert!(s.current.is_none());
}

#[test]
fn hub_status_has_an_address_only_while_running() {
    let on = hub_status(true, "192.168.1.5");
    assert!(on.running);
    assert_eq!(on.port, HUB_PORT);
    assert_eq!(on.url.as_deref(), Some("http://192.168.1.5:7878"));
    let off = hub_status(false, "192.168.1.5");
    assert!(!off.running);
    assert_eq!(off.url, None);
}

#[test]
fn bearer_tokens() {
    assert_eq!(bearer_token(&Some("Bearer abc".into())), "abc");
    assert_eq!(bearer_token(&Some("Basic abc".into())), "");
    assert_eq!(bearer_token(&None), "");
}
