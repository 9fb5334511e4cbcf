use redlib::ssh_import::valid_ssh_host;
use redlib::subreddit::quarantine_cookie_name;
use redlib::text::{chars_of, i64_to_string, join, parse_i64, parse_u64, replace_str, split_whitespace, str_eq_ignore_ascii_case, trim, u64_to_string};
use redlib::token_import::chromium::decode_cookie_plaintext;

#[test]
fn text_helpers() {
    assert_eq!(trim("\t a b \n"), "a b");
    assert!(str_eq_ignore_ascii_case("ReDdIt", "reddit"));
    assert_eq!(split_whitespace(&chars_of(" a  b\tc ")), vec!["a", "b", "c"]);
    assert_eq!(join(&vec!["a".to_string(), "b".to_string()], "+"), "a+b");
    assert_eq!(replace_str("a--b--", "--", "-"), "a-b-");
    assert_eq!(parse_i64("-42"), Some(-42));
    assert_eq!(parse_i64("+7"), Some(7));
    assert_eq!(parse_i64("9223372036854775808"), None);
    assert_eq!(parse_u64("18446744073709551615"), Some(u64::MAX));
    assert_eq!(parse_u64("-1"), None);
    assert_eq!(parse_u64(""), None);
    assert_eq!(u64_to_string(0), "0");
    assert_eq!(i64_to_string(i64::MIN), "-9223372036854775808");
}

#[test]
fn unicode_helpers_through_callers() {
    assert_eq!(quarantine_cookie_name("ÄBC"), "allow_quaran_äbc");
    assert!(valid_ssh_host("höst"));
    assert!(!valid_ssh_host("h st"));
    assert!(decode_cookie_plaintext(&[0xff, 0xfe, 0xfd], "h").is_err());
    assert_eq!(decode_cookie_plaintext("tök.en".as_bytes(), "h"), Ok("tök.en".to_string()));
}
