use base64::Engine;
use redlib::auth::{
    active_session_cookie_name, csrf_cookie_name, decode_browser_token, encrypt_cookie_value, first_nonempty, flag_setting,
    jwt_payload_segment, open_cookie_value, seal_cookie_value, secure_cookies, session_cookie_name, session_key,
    ssh_strict_host_key_checking, ssh_timeout, subscriptions_cookie_name, validate_csrf_token, AuthContext, SessionData,
    SessionVault,
};

fn session(user: &str, expires_at: i64) -> SessionData {
    SessionData {
        access_token: format!("tok-{user}"),
        refresh_token: String::new(),
        username: user.to_string(),
        expires_at,
        csrf_token: format!("csrf-{user}"),
    }
}

#[test]
fn cookie_names_follow_secure_flag() {
    assert_eq!(session_cookie_name(false), "rl_session");
    assert!(session_cookie_name(true).starts_with("__Host-"));
    assert!(active_session_cookie_name(true).starts_with("__Host-"));
    assert!(!active_session_cookie_name(false).starts_with("__Host-"));
    assert!(!csrf_cookie_name(false).is_empty());
    assert!(!subscriptions_cookie_name(false).is_empty());
}

#[test]
fn flag_settings_read_on_and_true() {
    assert!(flag_setting(Some("on")));
    assert!(flag_setting(Some("true")));
    assert!(!flag_setting(Some("off")));
    assert!(!flag_setting(None));
    assert!(!secure_cookies(None));
    assert!(secure_cookies(Some("on")));
}

#[test]
fn ssh_settings_defaults() {
    assert_eq!(ssh_timeout(None), 15);
    assert_eq!(ssh_timeout(Some("40")), 40);
    assert_eq!(ssh_timeout(Some("soon")), 15);
    let _ = ssh_strict_host_key_checking(None);
}

#[test]
fn vault_add_then_get_returns_session() {
    let mut v = SessionVault::new();
    v.add(session("alice", 100));
    v.add(session("bob", 200));
    assert_eq!(v.get("alice").unwrap().expires_at, 100);
    assert_eq!(v.get("bob").unwrap().expires_at, 200);
    assert!(v.get("carol").is_none());
}

#[test]
fn vault_add_replaces_same_user() {
    let mut v = SessionVault::new();
    v.add(session("alice", 100));
    v.add(session("bob", 200));
    v.add(session("alice", 300));
    assert_eq!(v.sessions.len(), 2);
    assert_eq!(v.usenames(), vec!["bob".to_string(), "alice".to_string()]);
    assert_eq!(v.get("alice").unwrap().expires_at, 300);
}

#[test]
fn vault_remove_and_active() {
    let mut v = SessionVault::new();
    assert!(v.active_session().is_none());
    v.add(session("alice", 1));
    v.add(session("bob", 2));
    assert_eq!(v.active_session().unwrap().username, "alice");
    v.remove("alice");
    assert!(v.get("alice").is_none());
    assert_eq!(v.active_session().unwrap().username, "bob");
}

#[test]
fn jwt_payload_is_middle_segment() {
    assert_eq!(jwt_payload_segment("a.b.c"), Some("b".to_string()));
    assert_eq!(jwt_payload_segment("a.b"), Some("b".to_string()));
    assert_eq!(jwt_payload_segment("plain"), None);
}

#[test]
fn first_nonempty_skips_empty() {
    assert_eq!(first_nonempty(Some(String::new()), None, Some("c".into())), Some("c".to_string()));
    assert_eq!(first_nonempty(Some("a".into()), Some("b".into()), None), Some("a".to_string()));
    assert_eq!(first_nonempty(None, Some(String::new()), None), None);
}

#[test]
fn browser_token_reads_access_token() {
    let payload = base64::engine::general_purpose::URL_SAFE_NO_PAD.encode(br#"{"access_token":"bearer-123","exp":1}"#);
    let raw = format!("hdr.{payload}.sig");
    assert_eq!(decode_browser_token(&raw), Some("bearer-123".to_string()));
    let payload2 = base64::engine::general_purpose::URL_SAFE_NO_PAD.encode(br#"{"token":"","accessToken":"xyz"}"#);
    assert_eq!(decode_browser_token(&format!("h.{payload2}.s")), Some("xyz".to_string()));
    assert_eq!(decode_browser_token("not-a-jwt"), Some("not-a-jwt".to_string()));
    assert_eq!(decode_browser_token("plainbearer"), Some("plainbearer".to_string()));
    assert_eq!(decode_browser_token("h.!!!.s"), Some("h.!!!.s".to_string()));
    let not_json = base64::engine::general_purpose::URL_SAFE_NO_PAD.encode(b"not json");
    assert_eq!(decode_browser_token(&format!("h.{not_json}.s")), Some(format!("h.{not_json}.s")));
    let no_token = base64::engine::general_purpose::URL_SAFE_NO_PAD.encode(br#"{"sub":"x"}"#);
    assert_eq!(decode_browser_token(&format!("h.{no_token}.s")), None);
}

#[test]
fn resolve_prefers_raw_token() {
    let a = AuthContext::resolve(Some("raw"), Some("browser"), None, None, 0);
    assert_eq!(a.bearer_token(), Some("raw"));
    assert!(a.is_authenticated());
    assert!(a.username().is_none());
}

#[test]
fn resolve_browser_token_falls_back_to_raw_value() {
    let a = AuthContext::resolve(None, Some("opaque"), None, None, 0);
    assert_eq!(a.bearer_token(), Some("opaque"));
}

#[test]
fn resolve_uses_active_then_first_live_session() {
    let mut v = SessionVault::new();
    v.add(session("old", 10));
    v.add(session("alice", 1000));
    v.add(session("bob", 2000));
    let a = AuthContext::resolve(None, None, Some(&v), Some("bob"), 500);
    assert_eq!(a.username(), Some("bob"));
    let b = AuthContext::resolve(None, None, Some(&v), Some("nobody"), 500);
    assert_eq!(b.username(), Some("alice"));
    let c = AuthContext::resolve(None, None, Some(&v), None, 5000);
    assert!(c.username().is_none());
    assert!(!c.is_authenticated());
    let d = AuthContext::resolve(Some(""), None, None, None, 0);
    assert!(!d.is_authenticated());
}

#[test]
fn session_within_grace_window_is_live() {
    let mut v = SessionVault::new();
    v.add(session("alice", 100));
    assert_eq!(AuthContext::resolve(None, None, Some(&v), None, 129).username(), Some("alice"));
    assert!(AuthContext::resolve(None, None, Some(&v), None, 130).username().is_none());
}

#[test]
fn csrf_checked_only_for_sessions() {
    let user = AuthContext::UserSession(session("alice", 100));
    assert!(validate_csrf_token(&user, "csrf-alice").is_ok());
    assert_eq!(validate_csrf_token(&user, "nope"), Err("CSRF token mismatch \u{2014} request rejected".to_string()));
    assert!(validate_csrf_token(&AuthContext::Anonymous, "x").is_ok());
    assert!(validate_csrf_token(&AuthContext::RawBearer("t".into()), "x").is_ok());
    assert_eq!(user.csrf_token(), "csrf-alice");
    assert_eq!(AuthContext::Anonymous.csrf_token(), "");
}

#[test]
fn all_and_active_usernames() {
    let mut v = SessionVault::new();
    v.add(session("a", 1));
    v.add(session("b", 1));
    assert_eq!(AuthContext::all_usernames(Some(&v)), vec!["a".to_string(), "b".to_string()]);
    assert!(AuthContext::all_usernames(None).is_empty());
    assert_eq!(AuthContext::active_username(Some(&v), Some("b")), Some("b".to_string()));
    assert_eq!(AuthContext::active_username(Some(&v), None), Some("a".to_string()));
}

#[test]
fn session_key_derives_from_secret() {
    let eph = [7u8; 32];
    let k1 = session_key(Some("secret"), &eph);
    let k2 = session_key(Some("secret"), &eph);
    assert_eq!(k1.len(), 32);
    assert_eq!(k1, k2);
    assert_ne!(k1, eph.to_vec());
    assert_eq!(session_key(None, &eph), eph.to_vec());
    assert_eq!(session_key(Some(""), &eph), eph.to_vec());
}

#[test]
fn sealed_cookie_opens_back() {
    let key = [3u8; 32];
    let nonce = [9u8; 12];
    let sealed = seal_cookie_value(&key, &nonce, b"{\"sessions\":[]}").unwrap();
    assert_ne!(sealed.as_bytes(), b"{\"sessions\":[]}");
    assert_eq!(open_cookie_value(&key, &sealed), Some(b"{\"sessions\":[]}".to_vec()));
    assert_eq!(open_cookie_value(&[4u8; 32], &sealed), None);
    assert_eq!(open_cookie_value(&key, "AAAA"), None);
    assert_eq!(open_cookie_value(&key, "%%%"), None);
}

#[test]
fn encrypted_cookie_opens_back() {
    let key = [5u8; 32];
    let t = encrypt_cookie_value(&key, b"hello").unwrap();
    assert_eq!(open_cookie_value(&key, &t), Some(b"hello".to_vec()));
    let t2 = encrypt_cookie_value(&key, b"hello").unwrap();
    assert_ne!(t, t2);
}
