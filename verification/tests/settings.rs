use redlib::settings::{form_value, pref_names, restore_redirect, set_cookies_method, CookieOp};

fn ops(plan: &[CookieOp]) -> Vec<(bool, String, String)> {
    plan.iter()
        .map(|o| match o {
            CookieOp::SetCookie(n, v) => (true, n.clone(), v.clone()),
            CookieOp::RemoveCookie(n) => (false, n.clone(), String::new()),
        })
        .collect()
}

#[test]
fn preference_names() {
    let names = pref_names();
    assert_eq!(names.len(), 28);
    assert_eq!(names[0], "theme");
    assert_eq!(names[27], "low_data");
}

#[test]
fn form_values_last_wins() {
    let pairs = vec![("a".to_string(), "1".to_string()), ("a".to_string(), "2".to_string())];
    assert_eq!(form_value(&pairs, "a"), Some("2".to_string()));
    assert_eq!(form_value(&pairs, "b"), None);
}

#[test]
fn restore_redirects() {
    assert_eq!(restore_redirect(None), "/");
    assert_eq!(restore_redirect(Some("r/rust%26x%23y")), "/r/rust&x#y");
    assert_eq!(restore_redirect(Some("/settings")), "/settings");
}

#[test]
fn update_link_sets_given_prefs_only() {
    let plan = set_cookies_method("theme=dark&redirect=settings", false, "");
    assert_eq!(plan.redirect, "/settings");
    let o = ops(&plan.ops);
    assert_eq!(o[0], (true, "theme".to_string(), "dark".to_string()));
    assert!(o.contains(&(false, "subscriptions".to_string(), String::new())));
    assert!(o.contains(&(false, "filters".to_string(), String::new())));
    assert_eq!(o.len(), 3);
}

#[test]
fn restore_link_removes_missing_prefs_and_stale_lists() {
    let plan = set_cookies_method("subscriptions=rust%2Bgo", true, "subscriptions1=old; subscriptions2=old");
    let o = ops(&plan.ops);
    assert_eq!(o.iter().filter(|x| !x.0).count(), 28 + 2 + 1);
    assert!(o.contains(&(true, "subscriptions".to_string(), "rust+go".to_string())));
    assert!(o.contains(&(false, "subscriptions1".to_string(), String::new())));
    assert!(o.contains(&(false, "subscriptions2".to_string(), String::new())));
    assert!(o.contains(&(false, "theme".to_string(), String::new())));
}
