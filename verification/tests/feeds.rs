use redlib::feeds::{apply_feed_form, feed_link, feed_target, feeds_with_links, normalize_sub, parse_subreddits_list, valid_feed_name, CustomFeed};

fn feed(name: &str, subs: &str) -> CustomFeed {
    CustomFeed { name: name.into(), subreddits: subs.into(), link: feed_link(name) }
}

#[test]
fn feed_names_and_subs() {
    assert!(valid_feed_name(" My Feed_1 "));
    assert!(!valid_feed_name("bad/name"));
    assert!(!valid_feed_name("   "));
    assert!(!valid_feed_name(&"a".repeat(51)));
    assert_eq!(normalize_sub(" Rust "), Some("rust".to_string()));
    assert_eq!(normalize_sub("no-dash"), None);
    assert_eq!(parse_subreddits_list("rust, Golang+rust\nzig bad-one"), vec!["golang", "rust", "zig"]);
    assert_eq!(feed_link("my feed"), "/feed/my%20feed");
}

#[test]
fn feed_form_saves_sorted() {
    let (list, err) = apply_feed_form(vec![feed("zeta", "a")], None, Some("Alpha"), Some("b, a"));
    assert_eq!(err, "");
    assert_eq!(list.len(), 2);
    assert_eq!(list[0].name, "Alpha");
    assert_eq!(list[0].subreddits, "a+b");
    assert_eq!(list[0].link, "/feed/Alpha");
    assert_eq!(list[1].name, "zeta");
    let (replaced, _) = apply_feed_form(list, None, Some("Alpha"), Some("c"));
    assert_eq!(replaced.len(), 2);
    assert_eq!(replaced[0].subreddits, "c");
    let (deleted, e2) = apply_feed_form(replaced, Some("delete"), Some("zeta"), None);
    assert_eq!(e2, "");
    assert_eq!(deleted.len(), 1);
}

#[test]
fn feed_form_errors() {
    let (l, e) = apply_feed_form(Vec::new(), None, Some("bad/name"), Some("a"));
    assert!(l.is_empty());
    assert!(e.starts_with("Feed name must be 1"));
    let (_, e2) = apply_feed_form(Vec::new(), None, Some("ok"), Some("!!"));
    assert_eq!(e2, "Add at least one subreddit.");
    let many: String = (0..101).map(|i| format!("s{i}")).collect::<Vec<_>>().join(",");
    let (_, e3) = apply_feed_form(Vec::new(), None, Some("ok"), Some(&many));
    assert_eq!(e3, "Maximum 100 subreddits per feed.");
    let thirty: Vec<CustomFeed> = (0..30).map(|i| feed(&format!("f{i}"), "a")).collect();
    let (kept, e4) = apply_feed_form(thirty, None, Some("new"), Some("a"));
    assert_eq!(e4, "Maximum 30 custom feeds.");
    assert_eq!(kept.len(), 30);
}

#[test]
fn feed_targets_and_links() {
    let feeds = vec![feed("Tech", "rust+golang")];
    assert_eq!(feed_target(&feeds, "tech"), Ok("/r/rust+golang".to_string()));
    assert_eq!(feed_target(&feeds, "none"), Err("Custom feed not found".to_string()));
    let linked = feeds_with_links(feeds);
    assert_eq!(linked[0].link, "/feed/Tech");
    assert_eq!(linked[0].feed.name, "Tech");
}

#[test]
fn saved_feed_opens_at_its_name() {
    let (list, err) = apply_feed_form(vec![feed("Other", "x")], None, Some(" News "), Some("world, politics"));
    assert_eq!(err, "");
    assert_eq!(feed_target(&list, "news"), Ok("/r/politics+world".to_string()));
    assert_eq!(feed_target(&list, "NEWS"), Ok("/r/politics+world".to_string()));
}
