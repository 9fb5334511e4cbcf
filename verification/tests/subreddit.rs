use redlib::subreddit::{
    all_filtered, apply_list_action, check_not_random, chunk_read_ids, default_feeds_notice, display_name_for, front_sub_name,
    insert_sorted_unique, join_until_size_limit, list_action, listing_cacheable, listing_error, listing_path, listing_sort,
    merge_read_ids, numbered_cookie_name, parse_read_ids, quarantine_allowed, quarantine_cookie_name, quarantine_title,
    redirect_url, render_cache_get, render_cache_metrics_snapshot, render_cache_prometheus_metrics, render_cache_put,
    split_at_char, subreddit_info_source, subreddit_parts, user_page_redirect, ListAction, ListingError, RenderCache,
    SubredditInfo,
};

fn strs(v: &[&str]) -> Vec<String> {
    v.iter().map(|s| s.to_string()).collect()
}

#[test]
fn size_limited_lists() {
    assert_eq!(join_until_size_limit(&strs(&["a", "b", "c"])), strs(&["a+b+c"]));
    assert_eq!(join_until_size_limit(&Vec::new()), strs(&[""]));
    let big = "x".repeat(2500);
    let out = join_until_size_limit(&vec![big.clone(), big.clone()]);
    assert_eq!(out.len(), 2);
    assert_eq!(out[0], format!("{big}+"));
    assert_eq!(out[1], big);
}

#[test]
fn size_limited_lists_stay_within_4000_bytes() {
    let mut items: Vec<String> = (0..999).map(|_| "a".to_string()).collect();
    items.push("b".repeat(2002));
    items.push("c".to_string());
    let out = join_until_size_limit(&items);
    assert!(out.iter().all(|c| c.len() <= 4000), "{:?}", out.iter().map(|c| c.len()).collect::<Vec<_>>());
    assert_eq!(out.concat(), items.join("+"));
    let huge = "h".repeat(5000);
    let out = join_until_size_limit(&vec![huge.clone(), "z".to_string()]);
    assert_eq!(out, vec![format!("{huge}+"), "z".to_string()]);
}

#[test]
fn read_id_chunks() {
    assert_eq!(chunk_read_ids(&strs(&["t3_a", "t3_b"])), strs(&["t3_a,t3_b"]));
    assert!(chunk_read_ids(&Vec::new()).is_empty());
    let id = "y".repeat(2500);
    let out = chunk_read_ids(&vec![id.clone(), id.clone()]);
    assert_eq!(out, vec![id.clone(), format!(",{id}")]);
    assert_eq!(numbered_cookie_name("subscriptions", 0), "subscriptions");
    assert_eq!(numbered_cookie_name("subscriptions", 3), "subscriptions3");
}

#[test]
fn render_cache_put_then_get() {
    let mut c = RenderCache::new();
    render_cache_put(&mut c, "/r/rust", "<html>".to_string(), 1_000);
    assert_eq!(render_cache_get(&mut c, "/r/rust", 2_000), Some("<html>".to_string()));
    assert_eq!(render_cache_get(&mut c, "/r/other", 2_000), None);
    assert_eq!(render_cache_get(&mut c, "/r/rust", 1_000 + 12_000_000_001), None);
    let (hits, misses, stores, size) = render_cache_metrics_snapshot(&c);
    assert_eq!((hits, misses, stores), (1, 2, 1));
    assert_eq!(size, 0);
    render_cache_put(&mut c, "k", "a".into(), 5);
    render_cache_put(&mut c, "k", "b".into(), 6);
    assert_eq!(render_cache_get(&mut c, "k", 7), Some("b".to_string()));
    assert_eq!(render_cache_metrics_snapshot(&c).3, 1);
    let text = render_cache_prometheus_metrics(&c);
    assert!(text.contains("redlib_render_cache_requests_total{result=\"hit\"} 2\n"));
    assert!(text.contains("redlib_render_cache_store_total 3\n"));
    assert!(text.ends_with("redlib_render_cache_entries 1\n"));
}

#[test]
fn cacheable_listings() {
    assert!(listing_cacheable(false, "/r/rust?sort=hot"));
    assert!(!listing_cacheable(true, "/r/rust"));
    assert!(!listing_cacheable(false, "/r/rust?after=t3_x"));
    assert!(!listing_cacheable(false, "/r/rust?before=t3_x"));
}

#[test]
fn read_ids_sorted_and_merged() {
    assert_eq!(parse_read_ids(" t3_b ,, t3_a"), strs(&["t3_b", "t3_a"]));
    let mut v = strs(&["a", "c"]);
    insert_sorted_unique(&mut v, "b");
    insert_sorted_unique(&mut v, "c");
    assert_eq!(v, strs(&["a", "b", "c"]));
    assert_eq!(merge_read_ids(&strs(&["t3_z", "t3_a"]), "t3_m,t3_a"), Some(strs(&["t3_a", "t3_m", "t3_z"])));
    assert_eq!(merge_read_ids(&strs(&["t3_z"]), " , "), None);
}

#[test]
fn list_actions_from_path() {
    let a = list_action("/r/rust/subscribe");
    assert!(a.subscribe && !a.unsubscribe && !a.filter && !a.unfilter);
    let b = list_action("/r/rust/unfilter");
    assert!(b.unfilter && !b.filter);
    assert_eq!(check_not_random("random", &a), Err("Can't subscribe to random subreddit!".to_string()));
    assert_eq!(check_not_random("randnsfw", &b), Err("Can't filter random subreddit!".to_string()));
    assert!(check_not_random("rust", &a).is_ok());
}

#[test]
fn subscribe_and_filter_lists() {
    let sub = ListAction { subscribe: true, unsubscribe: false, filter: false, unfilter: false };
    let mut subs = strs(&["zig", "Go"]);
    let mut filters = strs(&["rust", "x"]);
    assert_eq!(apply_list_action(&mut subs, &mut filters, "Rust", &sub), Some(true));
    assert_eq!(subs, strs(&["Go", "Rust", "zig"]));
    assert_eq!(filters, strs(&["x"]));
    let unsub = ListAction { subscribe: false, unsubscribe: true, filter: false, unfilter: false };
    assert_eq!(apply_list_action(&mut subs, &mut filters, "rust", &unsub), Some(false));
    assert_eq!(subs, strs(&["Go", "zig"]));
    let filt = ListAction { subscribe: false, unsubscribe: false, filter: true, unfilter: false };
    assert_eq!(apply_list_action(&mut subs, &mut filters, "go", &filt), None);
    assert_eq!(subs, strs(&["zig"]));
    assert_eq!(filters, strs(&["go", "x"]));
}

#[test]
fn listing_names_and_sorts() {
    assert_eq!(subreddit_parts("rust++golang+"), strs(&["rust", "golang"]));
    assert_eq!(split_at_char("a+b", '+'), strs(&["a", "b"]));
    assert_eq!(display_name_for("RUST", &strs(&["golang", "rust"])), Some("rust".to_string()));
    assert_eq!(display_name_for("u_spez", &Vec::new()), Some("u_spez".to_string()));
    assert_eq!(display_name_for("x", &Vec::new()), None);
    assert_eq!(front_sub_name(Some("rust"), "default", "a+b"), "rust");
    assert_eq!(front_sub_name(None, "default", ""), "popular");
    assert_eq!(front_sub_name(None, "", "a+b"), "a+b");
    assert_eq!(front_sub_name(None, "all", "a+b"), "all");
    assert_eq!(default_feeds_notice("popular", true, ""), Some("Subscribe to some subreddits! (Default feeds disabled in settings)"));
    assert_eq!(default_feeds_notice("rust", true, ""), None);
    assert_eq!(listing_sort(None, Some("top"), Some("new")), "top");
    assert_eq!(listing_sort(None, None, None), "hot");
    assert_eq!(user_page_redirect(true, "u_spez"), Some("/user/spez".to_string()));
    assert_eq!(user_page_redirect(false, "u_spez"), None);
    assert_eq!(subreddit_info_source("rust", "a+b", true), SubredditInfo::Fetch);
    assert_eq!(subreddit_info_source("a+b", "a+b", false), SubredditInfo::Empty);
    assert_eq!(subreddit_info_source("all", "a+b", true), SubredditInfo::NameOnly);
}

#[test]
fn listing_paths_and_geo_filter() {
    assert_eq!(listing_path("a+b", "hot", "t=day"), "/r/a%2Bb/hot.json?t=day&raw_json=1");
    assert_eq!(listing_path("popular", "hot", ""), "/r/popular/hot.json?&raw_json=1&geo_filter=GLOBAL");
    assert_eq!(listing_path("popular", "hot", "geo_filter=US"), "/r/popular/hot.json?geo_filter=US&raw_json=1&geo_filter=US");
    assert_eq!(redirect_url("/r/rust?sort=top&t=a+b"), "r/rust%3Fsort=top%26t=a%2Bb");
    assert!(all_filtered("a+b", &strs(&["b", "a"])));
    assert!(!all_filtered("a+c", &strs(&["b", "a"])));
}

#[test]
fn listing_errors_and_quarantine() {
    assert!(matches!(listing_error("x", "quarantined"), ListingError::Wall(w) if w == "quarantined"));
    assert!(matches!(listing_error("x", "private"), ListingError::Message(m) if m == "r/x is a private community"));
    assert!(matches!(listing_error("x", "banned"), ListingError::Message(m) if m == "r/x has been banned from Reddit"));
    assert!(matches!(listing_error("x", "oops"), ListingError::Message(m) if m == "oops"));
    assert_eq!(quarantine_cookie_name("Drugs"), "allow_quaran_drugs");
    assert!(quarantine_allowed("true"));
    assert!(!quarantine_allowed("yes"));
    assert_eq!(quarantine_title("edgy", "quarantined"), "r/edgy is quarantined");
}

#[test]
fn cookie_lists_rejoin() {
    let items: Vec<String> = (0..600).map(|i| format!("subreddit_{i}")).collect();
    let chunks = join_until_size_limit(&items);
    assert!(chunks.len() > 1);
    assert_eq!(chunks.concat(), items.join("+"));
    let ids: Vec<String> = (0..600).map(|i| format!("t3_{i:06}")).collect();
    let parts = chunk_read_ids(&ids);
    assert!(parts.len() > 1);
    assert_eq!(parts.concat(), ids.join(","));
}
