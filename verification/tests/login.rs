use redlib::auth::{SessionData, SessionVault};
use redlib::login::{
    add_session_to_vault, authorize_url, basic_credentials, browser_import_session, check_body_size, check_oauth_callback, check_oauth_settings,
    check_switch, me_username, oauth_client_id, oauth_login_start, oauth_session, plan_removal, refresh_request_body, refresh_response_fields,
    require_username, session_username, token_request_body, ActiveCookie, MAX_BODY_SIZE,
};

fn s(user: &str) -> SessionData {
    SessionData {
        access_token: "a".into(),
        refresh_token: "r".into(),
        username: user.into(),
        expires_at: 10,
        csrf_token: "c".into(),
    }
}

#[test]
fn body_size_limit() {
    assert!(check_body_size(MAX_BODY_SIZE).is_ok());
    assert_eq!(check_body_size(MAX_BODY_SIZE + 1), Err("Request body too large".to_string()));
}

#[test]
fn username_required() {
    assert_eq!(require_username(Some("bob")), Ok("bob".to_string()));
    assert_eq!(require_username(Some("")), Err("Username is required".to_string()));
    assert_eq!(require_username(None), Err("Username is required".to_string()));
}

#[test]
fn switch_checks_vault() {
    let mut v = SessionVault::new();
    v.add(s("alice"));
    assert!(check_switch("alice", true, Some(&v)).is_ok());
    assert_eq!(check_switch("bob", true, Some(&v)), Err("Session not found".to_string()));
    assert_eq!(check_switch("bob", true, None), Err("No sessions found".to_string()));
    assert!(check_switch("bob", false, None).is_ok());
}

#[test]
fn removal_switches_active_to_first_remaining() {
    let mut v = SessionVault::new();
    v.add(s("alice"));
    v.add(s("bob"));
    let (rest, active) = plan_removal(v, "alice", Some("alice"));
    assert_eq!(rest.sessions.len(), 1);
    match active {
        ActiveCookie::SetTo(u) => assert_eq!(u, "bob"),
        other => panic!("unexpected {other:?}"),
    }
}

#[test]
fn removal_of_inactive_account_keeps_active() {
    let mut v = SessionVault::new();
    v.add(s("alice"));
    v.add(s("bob"));
    v.add(s("carol"));
    let (rest, active) = plan_removal(v, "alice", Some("carol"));
    let names: Vec<&str> = rest.sessions.iter().map(|x| x.username.as_str()).collect();
    assert_eq!(names, vec!["bob", "carol"]);
    assert!(matches!(active, ActiveCookie::Keep));
}

#[test]
fn removal_of_only_session_clears_active() {
    let mut v = SessionVault::new();
    v.add(s("alice"));
    let (rest, active) = plan_removal(v, "alice", None);
    assert!(rest.sessions.is_empty());
    assert!(matches!(active, ActiveCookie::Clear));
    let mut w = SessionVault::new();
    w.add(s("alice"));
    w.add(s("bob"));
    let (_, keep) = plan_removal(w, "carol", Some("alice"));
    assert!(matches!(keep, ActiveCookie::Keep));
}

#[test]
fn client_id_placeholder_is_unusable() {
    assert_eq!(oauth_client_id(Some("abc")), Some("abc".to_string()));
    assert_eq!(oauth_client_id(Some("  ")), None);
    assert_eq!(oauth_client_id(Some("PlaceHolder")), None);
    assert_eq!(oauth_client_id(None), None);
}

#[test]
fn authorize_url_encodes_values() {
    assert_eq!(
        authorize_url("id-1", "st", "http://x/cb"),
        "https://www.reddit.com/api/v1/authorize?client_id=id%2D1&response_type=code&state=st&redirect_uri=http%3A%2F%2Fx%2Fcb&duration=permanent&scope=identity read vote subscribe history save submit privatemessages"
    );
}

#[test]
fn oauth_settings_each_missing() {
    assert_eq!(check_oauth_settings(None, Some("s"), Some("u")), Err("REDLIB_OAUTH_CLIENT_ID is not configured".to_string()));
    assert_eq!(check_oauth_settings(Some("c"), None, Some("u")), Err("REDLIB_OAUTH_CLIENT_SECRET is not configured".to_string()));
    assert_eq!(check_oauth_settings(Some("c"), Some("s"), None), Err("REDLIB_OAUTH_REDIRECT_URI is not configured".to_string()));
    assert!(check_oauth_settings(Some("c"), Some("s"), Some("u")).is_ok());
}

#[test]
fn callback_checks_in_order() {
    assert_eq!(check_oauth_callback(None, Some("x"), None, Some("c")), Err("Missing 'state' parameter in callback".to_string()));
    assert_eq!(
        check_oauth_callback(Some("x"), None, None, Some("c")),
        Err("Missing CSRF cookie \u{2014} possible CSRF attack or cookie expired".to_string())
    );
    assert_eq!(
        check_oauth_callback(Some("x"), Some("y"), None, Some("c")),
        Err("CSRF state mismatch \u{2014} possible CSRF attack".to_string())
    );
    assert_eq!(
        check_oauth_callback(Some("x"), Some("x"), Some("access_denied"), Some("c")),
        Err("Reddit OAuth error: access_denied".to_string())
    );
    assert_eq!(check_oauth_callback(Some("x"), Some("x"), None, None), Err("Missing 'code' parameter in callback".to_string()));
    assert_eq!(check_oauth_callback(Some("x"), Some("x"), None, Some("c0de")), Ok("c0de".to_string()));
}

#[test]
fn token_bodies() {
    assert_eq!(token_request_body("ab_c", "http://h"), "grant_type=authorization_code&code=ab%5Fc&redirect_uri=http%3A%2F%2Fh");
    assert_eq!(refresh_request_body("r.t"), "grant_type=refresh_token&refresh_token=r%2Et");
    assert_eq!(basic_credentials("id", "secret"), "Basic aWQ6c2VjcmV0");
}

#[test]
fn refresh_response_reading() {
    assert_eq!(refresh_response_fields(br#"{"access_token":"t","expires_in":60}"#), Ok(("t".to_string(), 60)));
    assert_eq!(refresh_response_fields(br#"{"access_token":"t"}"#), Ok(("t".to_string(), 3600)));
    assert_eq!(refresh_response_fields(br#"{"expires_in":60}"#), Err("Missing access_token in refresh response".to_string()));
    assert_eq!(refresh_response_fields(b"not json"), Err("Missing access_token in refresh response".to_string()));
}

#[test]
fn me_and_session_username() {
    assert_eq!(me_username(br#"{"name":"spez"}"#), Some("spez".to_string()));
    assert_eq!(me_username(b"{}"), None);
    assert_eq!(session_username(None), "unknown");
    assert_eq!(session_username(Some("x".into())), "x");
}

#[test]
fn new_sessions() {
    let b = browser_import_session("tok".into(), "u".into(), 1000, "c".into());
    assert_eq!(b.expires_at, 1000 + 6 * 3600);
    assert!(b.refresh_token.is_empty());
    let o = oauth_session("a".into(), "r".into(), "u".into(), 1000, 3600, "c".into());
    assert_eq!(o.expires_at, 4600);
    assert_eq!(o.refresh_token, "r");
}

#[test]
fn login_start_carries_state() {
    let (state, url) = oauth_login_start("cid", "http://h/cb");
    assert_eq!(state.len(), 36);
    assert_eq!(url, authorize_url("cid", &state, "http://h/cb"));
    let (state2, _) = oauth_login_start("cid", "http://h/cb");
    assert_ne!(state, state2);
}

#[test]
fn adding_a_session_keeps_other_accounts() {
    let mut v = SessionVault::new();
    v.add(s("alice"));
    v.add(s("bob"));
    let mut newer = s("alice");
    newer.access_token = "fresh".into();
    let (vault, active) = add_session_to_vault(Some(v), newer);
    let names: Vec<&str> = vault.sessions.iter().map(|x| x.username.as_str()).collect();
    assert_eq!(names, vec!["bob", "alice"]);
    assert_eq!(vault.sessions[1].access_token, "fresh");
    assert_eq!(active, "alice");
    let (only, active) = add_session_to_vault(None, s("carol"));
    assert_eq!(only.sessions.len(), 1);
    assert_eq!(active, "carol");
}
