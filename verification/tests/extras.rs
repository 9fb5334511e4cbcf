use redlib::auth::{AuthContext, SessionData};
use redlib::config::config_candidates;
use redlib::login::{login_page_defaults, logout_step, subscriptions_cookie_value, LogoutStep};
use redlib::settings::{export_env_text, form_first_value, import_json_source, restore_link};
use redlib::subreddit::{listing_cache_key, settings_signature, signature_keys};
use redlib::token_import::{chromium, firefox, HostOs};

fn user() -> AuthContext {
    AuthContext::UserSession(SessionData {
        access_token: "a".into(),
        refresh_token: String::new(),
        username: "alice".into(),
        expires_at: 1,
        csrf_token: "tok".into(),
    })
}

#[test]
fn env_export_lines() {
    let text = export_env_text("theme=dark&csrf_token=x&filter_keywords=a%22b%5Cc&logged_in=true");
    assert_eq!(
        text,
        "# Redlib user settings export (.env-style)\n# Import manually by mapping values into cookies or use /settings restore URL/JSON import.\nREDLIB_PREF_THEME=\"dark\"\nREDLIB_PREF_FILTER_KEYWORDS=\"a\\\"b\\\\c\"\n"
    );
}

#[test]
fn settings_import_sources() {
    assert_eq!(import_json_source(b"{\"theme\":\"dark\"}"), Ok("{\"theme\":\"dark\"}".to_string()));
    assert!(import_json_source(&[b'{', 0xff]).unwrap_err().starts_with("Invalid UTF-8: "));
    assert_eq!(import_json_source(b"json=%7B%7D&json=second"), Ok("{}".to_string()));
    assert_eq!(import_json_source(b"other=1"), Err("json parameter not found".to_string()));
    assert_eq!(import_json_source(&vec![b' '; 524289]), Err("Request body too large".to_string()));
    let pairs = vec![("k".to_string(), "1".to_string()), ("k".to_string(), "2".to_string())];
    assert_eq!(form_first_value(&pairs, "k"), Some("1".to_string()));
    assert_eq!(restore_link("theme=dark"), "/settings/restore/?theme=dark");
}

#[test]
fn per_user_config_files() {
    let unix = config_candidates(HostOs::Unix, false, true, true);
    assert_eq!(unix.len(), 4);
    assert_eq!(unix[0], ("XDG_CONFIG_HOME", vec!["redlibe", "redlib.toml"]));
    assert_eq!(unix[3], ("HOME", vec![".config", "redlibe", "libreddit.toml"]));
    assert!(config_candidates(HostOs::Windows, false, true, true).is_empty());
    let mac = config_candidates(HostOs::MacOs, false, true, false);
    assert_eq!(mac[1], ("HOME", vec!["Library", "Application Support", "redlibe", "libreddit.toml"]));
}

#[test]
fn browser_dirs() {
    assert_eq!(firefox::base_dir_parts(HostOs::Unix, "librewolf"), ("HOME", vec![".librewolf"]));
    assert_eq!(firefox::base_dir_parts(HostOs::Windows, "firefox"), ("APPDATA", vec!["Mozilla", "Firefox", "Profiles"]));
    assert_eq!(chromium::user_data_parts(HostOs::MacOs, "edge"), ("HOME", vec!["Library", "Application Support", "Microsoft Edge"]));
    assert_eq!(chromium::user_data_parts(HostOs::Unix, "chrome"), ("HOME", vec![".config", "google-chrome"]));
}

#[test]
fn logout_steps() {
    assert!(matches!(logout_step(&user(), b"csrf_token=tok"), Ok(LogoutStep::RemoveSession(u)) if u == "alice"));
    assert_eq!(logout_step(&user(), b"csrf_token=bad").unwrap_err(), "CSRF token mismatch \u{2014} request rejected");
    assert!(matches!(logout_step(&AuthContext::Anonymous, b""), Ok(LogoutStep::ClearCookies)));
    assert_eq!(logout_step(&AuthContext::Anonymous, &vec![b'a'; 16385]).unwrap_err(), "Request body too large");
    assert_eq!(login_page_defaults(None, None), ("kspld0".to_string(), "keith".to_string()));
    assert_eq!(login_page_defaults(Some("h"), Some("u")), ("h".to_string(), "u".to_string()));
    assert_eq!(subscriptions_cookie_value(&vec!["a".to_string(), "b".to_string()]), Some("a+b".to_string()));
    assert_eq!(subscriptions_cookie_value(&Vec::new()), None);
}

#[test]
fn listing_cache_keys() {
    let keys = signature_keys();
    assert_eq!(keys.len(), 23);
    let values: Vec<String> = keys.iter().map(|k| if *k == "theme" { "dark".to_string() } else { String::new() }).collect();
    let sig = settings_signature(&values);
    assert!(sig.starts_with("theme=dark;layout=;"));
    assert!(sig.ends_with("filter_domains=;"));
    assert_eq!(listing_cache_key(false, "/r/rust", 0xab), Some("listing:ab".to_string()));
    assert_eq!(listing_cache_key(false, "/r/rust", 0), Some("listing:0".to_string()));
    assert_eq!(listing_cache_key(true, "/r/rust", 1), None);
    assert_eq!(listing_cache_key(false, "/r/rust?after=x", 1), None);
}
