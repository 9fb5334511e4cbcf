use base64::Engine;
use aes_gcm::aead::Aead;
use aes_gcm::{Aes256Gcm, KeyInit, Nonce};
use cbc::cipher::block_padding::Pkcs7;
use cbc::cipher::{BlockEncryptMut, KeyIvInit};
use redlib::token_import::chromium::{
    decode_cookie_plaintext, decrypt_chromium_cookie, decrypt_cookie_gcm, decrypt_cookie_legacy_cbc,
    decrypt_local_state_key, decrypt_local_state_key_with_safe_storage_password, is_plausible_token,
    legacy_pbkdf2_iterations, linux_fallback_password, lookup_step, master_key_from_local_state, token_from_row,
    LookupStep,
};
use redlib::token_import::{
    browser_family, chromium, discover_local_profiles, find_profile_path, firefox, import_local, BrowserFamily, CookieRow,
    LocalProfile, ProfileDirEntry, ProfileRead,
};

fn cbc_encrypt(password: &str, rounds: u32, plain: &[u8]) -> Vec<u8> {
    let mut key = [0u8; 16];
    pbkdf2::pbkdf2_hmac::<sha1::Sha1>(password.as_bytes(), b"saltysalt", rounds, &mut key);
    let iv = [b' '; 16];
    cbc::Encryptor::<aes::Aes128>::new_from_slices(&key, &iv).unwrap().encrypt_padded_vec_mut::<Pkcs7>(plain)
}

fn gcm_encrypt(key: &[u8; 32], nonce: &[u8; 12], plain: &[u8]) -> Vec<u8> {
    let c = Aes256Gcm::new_from_slice(key).unwrap();
    c.encrypt(Nonce::from_slice(nonce), plain).unwrap()
}

fn entry(name: &str, dir: bool, cookies: bool) -> ProfileDirEntry {
    ProfileDirEntry { name: Some(name.to_string()), path: format!("/base/{name}"), is_dir: dir, has_cookies: cookies }
}

/// What a profile with a cookie database gave.
fn read_with(row: Option<CookieRow>) -> ProfileRead {
    ProfileRead { has_db: true, row: Ok(row), master_key: Ok(None), password: None, macos: false, version: None }
}

fn firefox_row(value: &str) -> CookieRow {
    CookieRow { value: value.to_string(), encrypted_value: Vec::new(), host_key: String::new() }
}

fn chromium_row(value: &str, enc: &[u8]) -> CookieRow {
    CookieRow { value: value.to_string(), encrypted_value: enc.to_vec(), host_key: ".reddit.com".to_string() }
}

#[test]
fn firefox_discover_profiles_and_import_local_token() {
    let entries = vec![entry("abcd.default-release", true, true)];
    let profiles = firefox::discover_profiles("firefox", &entries);
    assert_eq!(profiles.len(), 1);
    assert_eq!(profiles[0].browser, "firefox");
    assert!(profiles[0].id.contains("firefox:abcd.default-release"));
    let imported =
        import_local("firefox", None, Some("/base/abcd.default-release"), &profiles, read_with(Some(firefox_row("header.payload.sig"))))
            .unwrap();
    assert_eq!(imported.bearer_token, "header.payload.sig");
    assert_eq!(imported.user_agent, None);
}

#[test]
fn firefox_import_errors_when_no_cookie_present() {
    let err = import_local("firefox", None, Some("/base/empty.default"), &Vec::new(), read_with(None)).unwrap_err();
    assert!(err.contains("token_v2"), "unexpected error: {err}");
    assert_eq!(err, "No reddit token_v2 cookie found in selected Firefox profile");
}

#[test]
fn chromium_discover_profiles_and_import_plaintext_cookie() {
    let entries = vec![entry("Default", true, true)];
    let profiles = chromium::discover_profiles("chrome", &entries);
    assert_eq!(profiles.len(), 1);
    assert_eq!(profiles[0].browser, "chrome");
    assert_eq!(profiles[0].id, "chrome:Default");
    let imported =
        import_local("chrome", None, Some("/base/Default"), &profiles, read_with(Some(chromium_row("jwt.part.sig", &[])))).unwrap();
    assert_eq!(imported.bearer_token, "jwt.part.sig");
}

#[test]
fn chromium_import_returns_clear_error_for_undecryptable_cookie() {
    let read = ProfileRead { password: Some("peanuts".to_string()), ..read_with(Some(chromium_row("", b"v10notreallyencrypted"))) };
    let err = import_local("chrome", None, Some("/base/Default"), &Vec::new(), read).unwrap_err();
    assert!(err.contains("encrypted") || err.contains("decrypted"), "unexpected error: {err}");
}

#[test]
fn chromium_profile_selection_rejects_missing_profile_id() {
    let found: Vec<LocalProfile> = Vec::new();
    let err = import_local("chrome", Some("chrome:missing"), None, &found, read_with(None)).unwrap_err();
    assert!(err.contains("Selected profile was not found") || err.contains("No Chrome profiles"), "unexpected error: {err}");
    let err = chromium::resolve_profile("chrome", Some("chrome:missing"), None, &found).unwrap_err();
    assert!(err.contains("Selected profile was not found"), "unexpected error: {err}");
}

#[test]
fn import_local_other_outcomes() {
    let no_db = ProfileRead { has_db: false, ..read_with(None) };
    assert_eq!(
        import_local("librewolf", None, Some(" /p "), &Vec::new(), no_db).unwrap_err(),
        "cookies.sqlite not found in /p"
    );
    let no_db = ProfileRead { has_db: false, ..read_with(None) };
    assert_eq!(import_local("edge", None, Some("/q"), &Vec::new(), no_db).unwrap_err(), "Cookies DB not found in /q");
    let failed = ProfileRead { row: Err("Failed to open cookie DB: locked".to_string()), ..read_with(None) };
    assert_eq!(import_local("firefox", None, Some("/p"), &Vec::new(), failed).unwrap_err(), "Failed to open cookie DB: locked");
    assert_eq!(
        import_local("safari", None, None, &Vec::new(), read_with(None)).unwrap_err(),
        "Unsupported browser: safari"
    );
    assert_eq!(
        import_local("firefox", None, None, &Vec::new(), read_with(None)).unwrap_err(),
        "No Firefox profiles with cookies.sqlite were found"
    );
    let versioned = ProfileRead { version: Some("128.0.1".to_string()), ..read_with(Some(firefox_row("t.o.k"))) };
    let s = import_local("firefox", None, Some("/p"), &Vec::new(), versioned).unwrap();
    assert_eq!(s.user_agent, Some("Mozilla/5.0 (X11; Linux x86_64; rv:128.0.1) Gecko/20100101 Firefox/128.0".to_string()));
    let mut enc = b"v10".to_vec();
    enc.extend(cbc_encrypt("peanuts", 1003, b"legacy.token.value"));
    let mac = ProfileRead { password: Some("peanuts".to_string()), macos: true, ..read_with(Some(chromium_row("", &enc))) };
    assert_eq!(import_local("chrome", None, Some("/d"), &Vec::new(), mac).unwrap().bearer_token, "legacy.token.value");
}

#[test]
fn chromium_discovery_lists_profile_dirs_with_cookies() {
    let entries = vec![entry("Default", true, true), entry("Profile 2", true, true), entry("System Profile", true, true), entry("Profile 3", true, false), entry("Profile 4", false, true)];
    let found = chromium::discover_profiles("edge", &entries);
    assert_eq!(found.len(), 2);
    assert_eq!(found[0].id, "edge:Default");
    assert_eq!(found[0].label, "Edge (Default)");
    assert_eq!(found[1].path, "/base/Profile 2");
    assert_eq!(chromium::resolve_profile("edge", Some("edge:Profile 2"), None, &found), Ok("/base/Profile 2".to_string()));
    assert_eq!(chromium::resolve_profile("edge", None, None, &found), Ok("/base/Default".to_string()));
    assert_eq!(chromium::resolve_profile("edge", None, Some("  /explicit "), &found), Ok("/explicit".to_string()));
    assert_eq!(
        chromium::resolve_profile("chrome", None, None, &Vec::new()),
        Err("No Chrome profiles with Cookies DB were found".to_string())
    );
}

#[test]
fn firefox_discovery_and_sorting() {
    let entries = vec![entry("zz.default", true, true), entry("abcd.default-release", true, true), entry("x", true, false)];
    let found = firefox::discover_profiles("firefox", &entries);
    assert_eq!(found.len(), 2);
    assert_eq!(found[1].id, "firefox:abcd.default-release");
    let sorted = discover_local_profiles(found);
    assert_eq!(sorted[0].label, "Firefox (abcd.default-release)");
    assert_eq!(find_profile_path(&sorted, "firefox:zz.default"), Some("/base/zz.default".to_string()));
    assert_eq!(
        firefox::resolve_profile("librewolf", None, None, &Vec::new()),
        Err("No LibreWolf profiles with cookies.sqlite were found".to_string())
    );
}

#[test]
fn import_local_families() {
    assert_eq!(browser_family("firefox"), Ok(BrowserFamily::Firefox));
    assert_eq!(browser_family("librewolf"), Ok(BrowserFamily::Firefox));
    assert_eq!(browser_family("edge"), Ok(BrowserFamily::Chromium));
    assert_eq!(browser_family("safari"), Err("Unsupported browser: safari".to_string()));
}

#[test]
fn plausible_tokens() {
    assert!(is_plausible_token("a.b.c"));
    assert!(is_plausible_token("Bearer x y"));
    assert!(is_plausible_token("abcDEF123"));
    assert!(!is_plausible_token("has space"));
    assert!(!is_plausible_token(""));
}

#[test]
fn plaintext_with_host_hash_prefix() {
    assert_eq!(decode_cookie_plaintext(b"\0jwt.part.sig\0", "h"), Ok("jwt.part.sig".to_string()));
    let mut v = vec![0xffu8; 32];
    v.extend_from_slice(b"tok.en");
    assert_eq!(decode_cookie_plaintext(&v, "h"), Ok("tok.en".to_string()));
    assert_eq!(
        decode_cookie_plaintext(&[0xff, 0xfe], ".reddit.com"),
        Err("Decrypted cookie did not look like a token for host .reddit.com".to_string())
    );
}

#[test]
fn legacy_cbc_cookie_round_trip() {
    let mut enc = b"v10".to_vec();
    enc.extend(cbc_encrypt("peanuts", 1, b"legacy.token.value"));
    assert_eq!(decrypt_cookie_legacy_cbc(&enc, "peanuts", 1, ".reddit.com"), Ok("legacy.token.value".to_string()));
    assert_eq!(decrypt_cookie_legacy_cbc(&enc, "wrong", 1, ".reddit.com").unwrap_err(), "AES-CBC decryption failed");
    assert_eq!(linux_fallback_password(), "peanuts");
    assert_eq!(legacy_pbkdf2_iterations(true), 1003);
    assert_eq!(legacy_pbkdf2_iterations(false), 1);
}

#[test]
fn gcm_cookie_round_trip() {
    let key = [11u8; 32];
    let nonce = [2u8; 12];
    let mut enc = b"v10".to_vec();
    enc.extend_from_slice(&nonce);
    enc.extend(gcm_encrypt(&key, &nonce, b"gcm.token.value"));
    assert_eq!(decrypt_cookie_gcm(&enc, &key, "h"), Ok("gcm.token.value".to_string()));
    assert_eq!(decrypt_cookie_gcm(&enc, &key[..16], "h"), Err("Chromium master key is not 32 bytes".to_string()));
    assert_eq!(decrypt_cookie_gcm(b"v10short", &key, "h"), Err("Encrypted Chromium cookie payload is too short".to_string()));
    assert_eq!(decrypt_cookie_gcm(&enc, &[12u8; 32], "h"), Err("AES-GCM decryption failed".to_string()));
    assert_eq!(decrypt_chromium_cookie(&enc, Ok(Some(key.to_vec())), None, 1, "h"), Ok("gcm.token.value".to_string()));
}

#[test]
fn chromium_cookie_decryption_errors() {
    let err = decrypt_chromium_cookie(b"v10notreallyencrypted", Ok(None), Some("peanuts"), 1, ".reddit.com").unwrap_err();
    assert!(err.contains("encrypted") || err.contains("decrypted"), "unexpected error: {err}");
    assert_eq!(decrypt_chromium_cookie(b"", Ok(None), None, 1, "h"), Err("Encrypted cookie value was empty".to_string()));
    assert_eq!(decrypt_chromium_cookie(b"v11xx", Err("keyring".into()), None, 1, "h"), Err("keyring".to_string()));
    assert_eq!(decrypt_chromium_cookie(b"plain", Ok(None), None, 1, "h"), Err("Unsupported Chromium cookie encryption format".to_string()));
}

#[test]
fn cookie_row_prefers_plain_value() {
    assert_eq!(token_from_row("jwt.part.sig", b"", Ok(None), None, 1, "h"), Ok("jwt.part.sig".to_string()));
    assert_eq!(
        token_from_row("", b"", Ok(None), None, 1, "h"),
        Err("No reddit token_v2 cookie found in selected Chromium profile".to_string())
    );
}

#[test]
fn local_state_key_shapes() {
    let raw = [7u8; 32];
    assert_eq!(decrypt_local_state_key(&raw, None), Ok(raw.to_vec()));
    assert_eq!(decrypt_local_state_key(b"DPAPIxxxx", None), Err("Linux Local State key used Windows DPAPI prefix unexpectedly".to_string()));
    assert_eq!(decrypt_local_state_key(b"abc", None), Err("Unsupported Linux Local State key format (3 bytes)".to_string()));
    let mut wrapped = b"v11".to_vec();
    let inner = [9u8; 40];
    wrapped.extend(cbc_encrypt("pw", 1, &inner));
    assert_eq!(decrypt_local_state_key(&wrapped, Some("pw")), Ok(vec![9u8; 32]));
    assert_eq!(
        decrypt_local_state_key(&wrapped, None),
        Err("No Safe Storage password available for Local State key unwrap".to_string())
    );
    let mut short = b"v10".to_vec();
    short.extend(cbc_encrypt("pw", 1003, &[1u8; 20]));
    assert_eq!(
        decrypt_local_state_key_with_safe_storage_password(Some("pw"), &short, 1003),
        Err("Local State unwrap produced 20 bytes, expected at least 32".to_string())
    );
}

#[test]
fn master_key_from_local_state_json() {
    let raw = [5u8; 32];
    let b64 = base64::engine::general_purpose::STANDARD.encode(raw);
    let contents = format!("{{\"os_crypt\":{{\"encrypted_key\":\"{b64}\"}}}}");
    assert_eq!(master_key_from_local_state(&contents, None), Ok(Some(raw.to_vec())));
    assert_eq!(master_key_from_local_state("{}", None), Ok(None));
    assert!(master_key_from_local_state("not json", None).unwrap_err().starts_with("Failed to parse Local State: "));
    assert!(master_key_from_local_state("{\"os_crypt\":{\"encrypted_key\":\"%%\"}}", None)
        .unwrap_err()
        .starts_with("Invalid Local State encrypted_key: "));
}

#[test]
fn keyring_lookup_steps() {
    assert!(matches!(lookup_step(true, true, "secret\n"), LookupStep::Found(_)));
    assert!(!matches!(lookup_step(false, false, ""), LookupStep::Found(_)));
}

#[test]
fn firefox_version_and_user_agent() {
    assert_eq!(firefox::version_command("librewolf"), "librewolf");
    assert_eq!(firefox::version_command("firefox"), "firefox");
    assert_eq!(firefox::version_from_output("Mozilla Firefox 128.0.3"), Some("128.0.3".to_string()));
    assert_eq!(firefox::version_from_output("nothing here"), None);
    assert!(firefox::read_firefox_user_agent(Some("128.0")).unwrap().contains("Firefox/128.0"));
}

fn profile(browser: &str, id: &str, label: &str) -> LocalProfile {
    LocalProfile { browser: browser.to_string(), id: id.to_string(), label: label.to_string(), path: format!("/p/{id}") }
}

#[test]
fn profiles_sort_by_label_stably() {
    let found = vec![
        profile("edge", "edge:Default", "Edge (Default)"),
        profile("firefox", "firefox:a", "Chrome (Default)"),
        profile("chrome", "chrome:Default", "Chrome (Default)"),
        profile("librewolf", "librewolf:x", "LibreWolf (x)"),
    ];
    let sorted = discover_local_profiles(found);
    let ids: Vec<&str> = sorted.iter().map(|p| p.id.as_str()).collect();
    assert_eq!(ids, vec!["firefox:a", "chrome:Default", "edge:Default", "librewolf:x"]);
}
