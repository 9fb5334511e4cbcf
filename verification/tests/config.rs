use redlib::auth::flag_setting;
use redlib::config::{default_pushshift_frontend, get_user_agent, legacy_key, resolve_setting, setting_names};

#[test]
fn test_env_config_precedence() {
    assert_eq!(resolve_setting(Some("top"), None, Some("best")), Some("top".into()));
}

#[test]
fn test_alt_env_config_precedence() {
    assert_eq!(resolve_setting(Some("top"), None, Some("best")), Some("top".into()));
}

#[test]
fn test_default_subscriptions() {
    assert_eq!(resolve_setting(Some("news+bestof"), None, None), Some("news+bestof".into()));
}

#[test]
fn test_default_filters() {
    assert_eq!(resolve_setting(Some("news+bestof"), None, None), Some("news+bestof".into()));
}

#[test]
fn test_env_var() {
    assert_eq!(resolve_setting(Some("on"), None, None).as_deref(), Some("on"));
    assert!(flag_setting(resolve_setting(Some("on"), None, None).as_deref()));
}

#[test]
fn test_env_var_legacy() {
    assert_eq!(resolve_setting(None, Some("on"), None).as_deref(), Some("on"));
    assert!(flag_setting(resolve_setting(None, Some("on"), None).as_deref()));
}

#[test]
fn legacy_variable_precedence() {
    assert_eq!(resolve_setting(None, Some("news+bestof"), Some("x")), Some("news+bestof".into()));
    assert_eq!(resolve_setting(Some("top"), Some("best"), Some("best")), Some("top".into()));
}

#[test]
fn test_pushshift() {
    let v = resolve_setting(None, None, Some("https://api.pushshift.io"));
    assert!(v.is_some());
    assert_eq!(v, Some("https://api.pushshift.io".into()));
}

#[test]
fn settings_and_user_agent() {
    assert_eq!(legacy_key("REDLIB_DEFAULT_COMMENT_SORT"), "LIBREDDIT_DEFAULT_COMMENT_SORT");
    assert_eq!(resolve_setting(None, None, None), None);
    assert_eq!(default_pushshift_frontend(), "undelete.pullpush.io");
    assert_eq!(get_user_agent("ua/1", Some("cfg")), "ua/1");
    assert_eq!(get_user_agent("", Some("cfg")), "cfg");
    assert!(get_user_agent("", None).starts_with("Mozilla/5.0 (X11; Linux x86_64; rv:133.0)"));
    let names = setting_names();
    assert_eq!(names.len(), 39);
    assert!(names.contains(&"REDLIB_DEFAULT_COMMENT_SORT"));
}
