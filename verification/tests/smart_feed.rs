use redlib::smart_feed::actions::{
    back_target, ensure_sid, importable_mute_type, local_state_enabled, local_state_required, mute_scope, open_destination, parse_mute_id,
    required_field, unread_count_json, valid_mute_scope, verify_csrf,
};
use redlib::smart_feed::channel::{
    default_filter_set, parse_channel_form, parse_channel_update, parse_subreddits, rule_from_form, title_to_slug, valid_slug,
    ChannelForm, Filters, Gates,
};
use redlib::smart_feed::cluster::{cluster_id, cluster_titles, fxhash64, hamming, simhash64, title_norm, Cluster};
use redlib::smart_feed::feed::{
    admits_post, apply_filter, assign_clusters, build_fetch_subs, build_my_subs_rule, escape_plus_str, feed_counts, feed_path, find_cluster,
    new_since_visit, passes_channel_filters, passes_gates, passes_mutes, skip_archived, tag_why, FeedItem, PostFacts,
};
use redlib::smart_feed::presets::{default_preset, preset, Lens};
use redlib::smart_feed::saved::saved_item;
use redlib::state::{MuteRule, SavedPostRow};

fn strs(v: &[&str]) -> Vec<String> {
    v.iter().map(|s| s.to_string()).collect()
}

fn post(id: &str, title: &str, domain: &str, kind: &str) -> PostFacts {
    PostFacts {
        id: id.into(),
        title: title.into(),
        domain: domain.into(),
        community: "rust".into(),
        post_type: kind.into(),
        nsfw: false,
        created_ts: 100,
        num_comments: 5,
        score: 10,
    }
}

fn item(id: &str, read: bool, saved: bool, archived: bool) -> FeedItem {
    FeedItem {
        post: post(id, "t", "d", "self"),
        is_read: read,
        is_saved: saved,
        is_archived: archived,
        why: Vec::new(),
        cluster_id: None,
        cluster_size: 0,
        body_preview: String::new(),
    }
}

fn empty_form() -> ChannelForm {
    ChannelForm {
        title: None,
        slug: None,
        sources_subscriptions: None,
        sources_subreddits: None,
        gate_min_comments: None,
        gate_min_score: None,
        gate_max_age_hours: None,
        presentation_clusters: None,
        presentation_density: None,
    }
}

fn mute(kind: &str, pattern: &str) -> MuteRule {
    MuteRule { id: 1, scope: "global".into(), rule_type: kind.into(), pattern: pattern.into() }
}

#[test]
fn slugs_from_titles() {
    assert_eq!(title_to_slug("Rust & Go News!"), "rust-go-news");
    assert_eq!(title_to_slug("  --Hello--  "), "hello");
    assert_eq!(title_to_slug(&"a".repeat(60)).len(), 50);
    assert!(valid_slug("rust-go"));
    assert!(!valid_slug("my-subs"));
    assert!(!valid_slug(""));
    assert!(!valid_slug("Bad_Slug"));
    assert!(valid_slug(&title_to_slug("Some Title 2024")));
}

#[test]
fn subreddit_lists() {
    assert_eq!(parse_subreddits("rust, golang\nbad-name  r_2"), strs(&["rust", "golang", "r_2"]));
    assert!(parse_subreddits("").is_empty());
}

#[test]
fn channel_form_rules() {
    let mut f = empty_form();
    f.sources_subreddits = Some("rust".into());
    f.gate_min_comments = Some("-4".into());
    f.gate_max_age_hours = Some("x".into());
    f.presentation_clusters = Some("off".into());
    let r = rule_from_form(&f);
    assert_eq!(r.gates.min_comments, 0);
    assert_eq!(r.gates.max_age_hours, 72);
    assert_eq!(r.presentation.clusters, "off");
    assert_eq!(r.presentation.density, "balanced");
    assert_eq!(r.filters.nsfw, "hide");
    assert!(!r.sources.subscriptions);
}

#[test]
fn channel_form_errors() {
    let f = empty_form();
    assert_eq!(parse_channel_form(&f).unwrap_err(), "Channel name is required.");
    let mut g = empty_form();
    g.title = Some("x".repeat(101));
    assert_eq!(parse_channel_form(&g).unwrap_err(), "Channel name must be 100 characters or fewer.");
    let mut h = empty_form();
    h.title = Some("My Subs".into());
    h.slug = Some("my-subs".into());
    assert!(parse_channel_form(&h).unwrap_err().starts_with("Slug must be 1"));
    let mut i = empty_form();
    i.title = Some("News".into());
    assert_eq!(parse_channel_form(&i).unwrap_err(), "At least one source is required: enable subscriptions or add subreddits.");
    let mut ok = empty_form();
    ok.title = Some(" Rust News ".into());
    ok.sources_subscriptions = Some("on".into());
    let (title, slug, rule) = parse_channel_form(&ok).unwrap();
    assert_eq!(title, "Rust News");
    assert_eq!(slug, "rust-news");
    assert!(rule.sources.subscriptions);
    let _ = parse_channel_update(&ok);
}

#[test]
fn fetch_subs_merge_subscriptions() {
    let mut f = empty_form();
    f.sources_subreddits = Some("rust golang".into());
    f.sources_subscriptions = Some("on".into());
    let rule = rule_from_form(&f);
    assert_eq!(build_fetch_subs(&rule, &strs(&["Rust", "linux"])), Ok("rust+golang+linux".to_string()));
    let empty = rule_from_form(&empty_form());
    assert!(build_fetch_subs(&empty, &strs(&["x"])).unwrap_err().starts_with("No subreddits configured"));
    assert!(build_my_subs_rule(&Vec::new()).is_err());
    let (title, my) = build_my_subs_rule(&strs(&["a"])).unwrap();
    assert_eq!(title, "My Subs");
    assert!(my.sources.subscriptions);
}

#[test]
fn feed_paths() {
    assert_eq!(escape_plus_str("a+b"), "a%2Bb");
    assert_eq!(feed_path("a+b", "top", Some("day"), Some(500), Some("t3_x")), "/r/a%2Bb/top.json?limit=200&raw_json=1&t=day&after=t3_x");
    assert_eq!(feed_path("rust", "new", None, None, Some("")), "/r/rust/new.json?limit=100&raw_json=1");
}

#[test]
fn mutes_hide_posts() {
    let mutes = vec![mute("keyword", "crypto"), mute("domain", "example.com"), mute("subreddit", "memes")];
    assert!(!passes_mutes("All about CRYPTO", "x.org", "rust", &mutes));
    assert!(!passes_mutes("t", "news.example.com", "rust", &mutes));
    assert!(passes_mutes("t", "notexample.com", "rust", &mutes));
    assert!(!passes_mutes("t", "x", "Memes", &mutes));
    assert!(passes_mutes("fine", "x", "rust", &mutes));
}

#[test]
fn channel_filters() {
    let mut f: Filters = default_filter_set();
    assert!(passes_channel_filters(&post("1", "Hello", "a.com", "self"), &f));
    f.include_keywords = strs(&["rust"]);
    assert!(!passes_channel_filters(&post("1", "Hello", "a.com", "self"), &f));
    assert!(passes_channel_filters(&post("1", "Rust 2", "a.com", "self"), &f));
    f.domains_block = strs(&["a.com"]);
    assert!(!passes_channel_filters(&post("1", "Rust 2", "sub.a.com", "self"), &f));
    let mut g: Filters = default_filter_set();
    g.media_types = strs(&["image"]);
    assert!(!passes_channel_filters(&post("1", "t", "d", "self"), &g));
    let mut nsfw = post("1", "t", "d", "self");
    nsfw.nsfw = true;
    assert!(!passes_channel_filters(&nsfw, &default_filter_set()));
    assert!(passes_gates(&post("1", "t", "d", "self"), &Gates { min_comments: 5, min_score: 10, max_age_hours: 1 }));
    assert!(!passes_gates(&post("1", "t", "d", "self"), &Gates { min_comments: 6, min_score: 0, max_age_hours: 1 }));
}

#[test]
fn tagging_and_visits() {
    assert!(skip_archived(true, "unread"));
    assert!(!skip_archived(true, "archived"));
    assert!(new_since_visit(10, Some(5)));
    assert!(!new_since_visit(10, None));
    let (w, counted) = tag_why(strs(&["Top"]), true, true, false);
    assert_eq!(w, strs(&["New", "Top"]));
    assert!(counted);
    let (w2, c2) = tag_why(strs(&["Top"]), true, false, false);
    assert_eq!(w2, strs(&["Unread", "Top"]));
    assert!(!c2);
    let (w3, _) = tag_why(strs(&["Top"]), false, true, false);
    assert_eq!(w3, strs(&["Top"]));
}

#[test]
fn counts_and_filters() {
    let items = vec![item("a", false, true, false), item("b", true, false, true), item("c", false, false, false)];
    assert_eq!(feed_counts(&items), (3, 2, 1));
    let unread = apply_filter(items, "unread");
    assert_eq!(unread.iter().map(|i| i.post.id.clone()).collect::<Vec<_>>(), strs(&["a", "c"]));
    let all = apply_filter(vec![item("a", true, false, false)], "whatever");
    assert_eq!(all.len(), 1);
    let saved = apply_filter(vec![item("a", true, true, false), item("b", true, false, false)], "saved");
    assert_eq!(saved.len(), 1);
}

#[test]
fn titles_normalize_and_hash() {
    assert_eq!(title_norm("The Rust, and GO!"), "rust go");
    assert_eq!(fxhash64(b""), 0xcbf29ce484222325);
    assert_eq!(fxhash64(b"a"), 0xaf63dc4c8601ec8c);
    assert_eq!(simhash64("rust"), 0xbffedf1f6f66c727);
    assert_eq!(simhash64("rust release"), 0xbfffdf9fef6fd7ff);
    assert_eq!(simhash64(""), u64::MAX);
    assert_eq!(hamming(0b1011, 0b0001), 2);
    assert_eq!(hamming(7, 7), 0);
    assert_eq!(cluster_id(0xbffedf1f6f66c727), "cbffedf1f6f66c727");
    assert_eq!(cluster_id(1), "c0000000000000001");
}

#[test]
fn clusters_group_duplicates() {
    let items = vec![
        ("p1".to_string(), "Rust 1.80 released".to_string()),
        ("p2".to_string(), "Rust 1.80 Released!".to_string()),
        ("p3".to_string(), "Completely different topic here about gardening".to_string()),
    ];
    let cs: Vec<Cluster> = cluster_titles(&items, 3);
    let mut all: Vec<String> = cs.iter().flat_map(|c| c.members.clone()).collect();
    all.sort();
    assert_eq!(all, strs(&["p1", "p2", "p3"]));
    let with_p1 = cs.iter().find(|c| c.members.contains(&"p1".to_string())).unwrap();
    assert_eq!(with_p1.members, strs(&["p1", "p2"]));
    assert_eq!(find_cluster(&cs, "p2"), Some((with_p1.id.clone(), 2)));
    assert_eq!(find_cluster(&cs, "p3"), None);
    let mut feed = vec![item("p1", false, false, false), item("p3", false, false, false)];
    assign_clusters(&mut feed, &cs);
    assert_eq!(feed[0].cluster_size, 2);
    assert_eq!(feed[0].cluster_id, Some(with_p1.id.clone()));
    assert_eq!(feed[1].cluster_id, None);
}

#[test]
fn presets_by_lens() {
    assert_eq!(Lens::parse("research").as_str(), "research");
    assert_eq!(Lens::parse("nonsense").as_str(), "reader");
    let p = preset(Lens::parse("research"), "deepdives");
    assert_eq!(p.upstream_sort, "top");
    assert_eq!(p.upstream_t, Some("day"));
    let q = preset(Lens::parse("reader"), "deepdives");
    assert_eq!(q.slug, "digest15");
    assert_eq!(default_preset(Lens::parse("discussion")).lens.as_str(), "discussion");
}

#[test]
fn reader_actions() {
    assert!(local_state_enabled(Some("on")));
    assert!(!local_state_enabled(Some("true")));
    assert!(local_state_required().contains("REDLIB_ENABLE_LOCAL_STATE=on"));
    assert_eq!(verify_csrf(None, "x"), Err("Missing CSRF cookie".to_string()));
    assert_eq!(verify_csrf(Some("a"), "b"), Err("CSRF token mismatch".to_string()));
    assert!(verify_csrf(Some("a"), "a").is_ok());
    assert!(valid_mute_scope("channel:rust"));
    assert_eq!(mute_scope(Some("bogus")), "global");
    assert_eq!(mute_scope(Some("channel:x")), "channel:x");
    assert!(importable_mute_type("domain"));
    assert!(!importable_mute_type("user"));
    assert_eq!(required_field(Some(""), "need"), Err("need".to_string()));
    assert_eq!(parse_mute_id(Some("42")), Ok(42));
    assert_eq!(parse_mute_id(Some("x")), Err("Missing or invalid mute_id".to_string()));
    assert_eq!(back_target(None), "/reader/my-subs?lens=reader&preset=digest15");
    assert_eq!(open_destination(Some("https://evil")), "/");
    assert_eq!(open_destination(Some("/r/rust")), "/r/rust");
    assert_eq!(unread_count_json(-3), "{\"count\":-3}");
    assert_eq!(ensure_sid(false, Some("x")), None);
    assert_eq!(ensure_sid(true, Some("sid-1")), Some(("sid-1".to_string(), false)));
    let (fresh, set) = ensure_sid(true, None).unwrap();
    assert!(set);
    assert_eq!(fresh.len(), 36);
}

#[test]
fn saved_items_copy_rows() {
    let row = SavedPostRow {
        post_id: "t3_a".into(),
        title: "T".into(),
        community: "rust".into(),
        domain: "d".into(),
        permalink: "/p".into(),
        score: 3,
        comments: 4,
        created_utc: 1,
        saved_at: 2,
    };
    let it = saved_item(row, "1h ago".into(), "2h ago".into());
    assert_eq!(it.post_id, "t3_a");
    assert_eq!(it.comments, 4);
    assert_eq!(it.saved_at_display, "2h ago");
}

#[test]
fn title_norm_is_idempotent() {
    for t in ["The Rust, and GO!", "  Ünïcode ÀND Stuff 42 ", "a the an", "Hello---World  again"] {
        let r = title_norm(t);
        assert_eq!(title_norm(&r), r);
        assert!(r.chars().all(|c| c.is_ascii_lowercase() || c.is_ascii_digit() || c == ' '));
        assert!(!r.starts_with(' ') && !r.ends_with(' ') && !r.contains("  "));
    }
    assert_eq!(title_norm("a the an"), "");
}

#[test]
fn simhash_ignores_word_order_and_spacing() {
    assert_eq!(simhash64("rust release notes"), simhash64("notes  rust\trelease"));
    assert_eq!(simhash64("a b a"), simhash64("b a a"));
    assert_eq!(simhash64(""), u64::MAX);
    assert_eq!(simhash64("   "), u64::MAX);
}

#[test]
fn feed_admission_pipeline() {
    let gates = Gates { min_comments: 5, min_score: 10, max_age_hours: 0 };
    let f: Filters = default_filter_set();
    let no_mutes: Vec<MuteRule> = Vec::new();
    let p = post("1", "Rust news", "a.com", "self");
    assert!(admits_post(&p, false, "all", &no_mutes, &f, &gates));
    assert!(!admits_post(&p, true, "all", &no_mutes, &f, &gates));
    assert!(admits_post(&p, true, "archived", &no_mutes, &f, &gates));
    assert!(!admits_post(&p, false, "all", &vec![mute("keyword", "news")], &f, &gates));
    let mut picky: Filters = default_filter_set();
    picky.include_keywords = strs(&["python"]);
    assert!(!admits_post(&p, false, "all", &no_mutes, &picky, &gates));
    assert!(!admits_post(&p, false, "all", &no_mutes, &f, &Gates { min_comments: 6, min_score: 0, max_age_hours: 0 }));
}
