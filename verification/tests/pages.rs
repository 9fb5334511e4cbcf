use redlib::api::{api_comments_path, api_listing_path, api_listing_query, api_vote_request, is_allowed_param, API_MAX_BODY};
use redlib::inbox::{inbox_preview, InboxMessage};
use redlib::post::{
    collapse_action, comment_collapse_cookie, comment_collapse_ids, comment_is_removed, comment_matches, comment_search, comment_sort,
    comment_state, removed_comment_html, CollapseAction,
};
use redlib::user::{
    all_hidden_nsfw, is_account_listing, me_redirect, profile_api_path, profile_listing, profile_name, profile_return_url, profile_step,
    ProfileStep,
};

fn strs(v: &[&str]) -> Vec<String> {
    v.iter().map(|s| s.to_string()).collect()
}

#[test]
fn profile_me_redirects() {
    assert_eq!(me_redirect(None, None, None), "/login");
    assert_eq!(me_redirect(Some("alice"), None, Some("sort=top")), "/user/alice?sort=top");
    assert_eq!(me_redirect(Some("alice"), Some("saved"), None), "/user/alice/saved");
    assert_eq!(
        profile_step("ME", Some("upvoted"), Some("a=1"), Some("bob"), true, &Vec::new()),
        ProfileStep::Redirect("/user/bob/upvoted?a=1".to_string())
    );
}

#[test]
fn profile_steps() {
    let filters = strs(&["u_spam"]);
    assert_eq!(profile_step("spam", None, None, None, false, &filters), ProfileStep::Filtered);
    assert_eq!(profile_step("x", Some("saved"), None, None, false, &filters), ProfileStep::Redirect("/login".to_string()));
    assert_eq!(profile_step("x", Some("saved"), None, Some("x"), true, &filters), ProfileStep::Fetch { authed: true });
    assert_eq!(profile_step("x", None, None, None, false, &filters), ProfileStep::Fetch { authed: false });
    assert!(is_account_listing("hidden"));
    assert!(!is_account_listing("overview"));
    assert_eq!(profile_name(None), "reddit");
    assert_eq!(profile_listing(None), "overview");
    assert_eq!(profile_api_path("spez", "overview", "sort=new"), "/user/spez/overview.json?sort=new&raw_json=1");
    assert_eq!(profile_return_url("/user/spez?sort=new&t=all"), "user/spez%3Fsort=new%26t=all");
    assert!(all_hidden_nsfw(&vec![true, true], "off"));
    assert!(!all_hidden_nsfw(&vec![true, false], "off"));
    assert!(!all_hidden_nsfw(&vec![true], "on"));
    assert!(!all_hidden_nsfw(&Vec::new(), "off"));
}

#[test]
fn post_sort_and_path() {
    assert_eq!(comment_sort("/r/a/comments/x", "", Some("new".into()), "top"), ("new".to_string(), "/r/a/comments/x.json?&raw_json=1".to_string()));
    assert_eq!(comment_sort("/p", "q=1", None, "top"), ("top".to_string(), "/p.json?q=1&sort=top&raw_json=1".to_string()));
    assert_eq!(comment_sort("/p", "", None, ""), (String::new(), "/p.json?&raw_json=1".to_string()));
}

#[test]
fn comments_removed_and_collapsed() {
    assert!(comment_is_removed("[deleted]", "[removed]"));
    assert!(comment_is_removed("bob", "[ Removed by Reddit ]"));
    assert!(!comment_is_removed("bob", "[removed]"));
    assert_eq!(
        removed_comment_html("undelete.pullpush.io", "/r/a/comments/x/t/", "abc"),
        "<div class=\"md\"><p>[removed] — <a href=\"https://undelete.pullpush.io/r/a/comments/x/t/abc\">view removed comment</a></p></div>"
    );
    assert_eq!(comment_state("bob", "c1", "moderator", true, &Vec::new(), &Vec::new()), (false, true));
    assert_eq!(comment_state("bob", "c1", "", false, &strs(&["u_bob"]), &Vec::new()), (true, true));
    assert_eq!(comment_state("bob", "c1", "", false, &Vec::new(), &strs(&["t1_c1"])), (false, true));
    assert_eq!(comment_state("bob", "c1", "moderator", false, &Vec::new(), &Vec::new()), (false, false));
    assert!(comment_matches("Hello WORLD", "world"));
    assert!(!comment_matches("Hello", "bye"));
}

#[test]
fn collapse_cookie_updates() {
    assert_eq!(collapse_action("collapse"), Some(CollapseAction::Collapse));
    assert_eq!(collapse_action("other"), None);
    assert_eq!(comment_collapse_ids(&strs(&["t1_b"]), " t1_a ", "collapse"), Some(strs(&["t1_a", "t1_b"])));
    assert_eq!(comment_collapse_ids(&strs(&["t1_b", "t1_a"]), "t1_a", "expand"), Some(strs(&["t1_b"])));
    assert_eq!(comment_collapse_ids(&strs(&["t1_a"]), "t1_a", "collapse"), Some(strs(&["t1_a"])));
    assert_eq!(comment_collapse_ids(&Vec::new(), "t3_a", "collapse"), None);
    assert_eq!(comment_collapse_ids(&Vec::new(), "t1_a", "toggle"), None);
    assert_eq!(comment_collapse_ids(&Vec::new(), "  ", "collapse"), None);
    let (ids, value) = comment_collapse_cookie(&strs(&["t1_z"]), b"id=t1_m&action=collapse").unwrap();
    assert_eq!(ids, strs(&["t1_m", "t1_z"]));
    assert_eq!(value, "t1_m,t1_z");
    assert!(comment_collapse_cookie(&Vec::new(), b"action=collapse").is_none());
    let after = comment_collapse_ids(&strs(&["t1_x"]), "t1_a", "collapse").unwrap();
    assert_eq!(comment_collapse_ids(&after, "t1_a", "expand"), Some(strs(&["t1_x"])));
}

#[test]
fn comment_search_queries() {
    assert_eq!(
        comment_search("/r/a/comments/x/t/?q=hello%20world&type=comment"),
        ("hello world".to_string(), "/r/a/comments/x/t/?q=hello%20world&type=comment".to_string())
    );
    assert_eq!(
        comment_search("/r/a/comments/x/t/?q=hello&type=comment"),
        ("hello".to_string(), "/r/a/comments/x/t/".to_string())
    );
    assert_eq!(comment_search("/r/a/comments/x/t/?q=a+b&type=comment").0, "a b");
    assert_eq!(comment_search("/r/a/comments/x/t/"), (String::new(), "/r/a/comments/x/t/".to_string()));
}

#[test]
fn inbox_previews() {
    assert_eq!(inbox_preview("<p>Hello <b>there</b></p><br>friend"), "Hello b there /b friend");
    let many: String = (0..40).map(|i| format!("w{i}")).collect::<Vec<_>>().join(" ");
    let p = inbox_preview(&many);
    assert_eq!(p.split(' ').count(), 30);
    let long = "abcdefghij ".repeat(20);
    let cut = inbox_preview(&long);
    assert_eq!(cut.len(), 150);
    assert!(cut.ends_with("..."));
    assert_eq!(&cut[..147], &long.trim_end()[..147]);
    let m = InboxMessage {
        id: "1".into(),
        fullname: "t4_1".into(),
        subject: "s".into(),
        author: "a".into(),
        body_preview: p,
        created: "now".into(),
        new: true,
        kind: "t4".into(),
    };
    assert!(m.clone().new);
}

#[test]
fn api_paths() {
    assert!(is_allowed_param("showmore"));
    assert!(!is_allowed_param("q"));
    assert_eq!(api_listing_query(""), "?raw_json=1");
    assert_eq!(api_listing_query("sort=top&evil=1&t=day&limit=5"), "?sort=top&t=day&limit=5&raw_json=1");
    assert_eq!(api_listing_query("after=t3_a b"), "?after=t3%5Fa%20b&raw_json=1");
    assert_eq!(api_listing_path(None, "x=1"), "/r/popular/hot.json?raw_json=1");
    assert_eq!(api_listing_path(Some("rust".into()), "limit=2"), "/r/rust/hot.json?limit=2&raw_json=1");
    assert_eq!(api_comments_path("rust", "abc", ""), "/r/rust/comments/abc.json?raw_json=1");
    assert_eq!(api_comments_path("rust", "abc", "sort=new"), "/r/rust/comments/abc.json?sort=new&raw_json=1");
}

#[test]
fn api_votes() {
    assert_eq!(api_vote_request(false, b""), Err((401, "Authentication required".to_string())));
    assert_eq!(api_vote_request(true, &vec![b' '; API_MAX_BODY + 1]), Err((413, "Request body too large".to_string())));
    assert_eq!(api_vote_request(true, br#"{"thing_id":"t3_a","dir":1}"#), Ok("id=t3%5Fa&dir=1&rank=10".to_string()));
    assert_eq!(api_vote_request(true, b"thing_id=t1_b&dir=-1"), Ok("id=t1%5Fb&dir=-1&rank=10".to_string()));
    assert_eq!(api_vote_request(true, br#"{"dir":1}"#), Err((400, "Missing 'thing_id'".to_string())));
    assert_eq!(
        api_vote_request(true, b"thing_id=t1_b&dir=7"),
        Err((400, "Invalid 'dir' \u{2014} must be 1, 0, or -1".to_string()))
    );
    let invalid = Err((400, "Invalid 'dir' \u{2014} must be 1, 0, or -1".to_string()));
    assert_eq!(api_vote_request(true, br#"{"thing_id":"t3_a","dir":257}"#), invalid);
    assert_eq!(api_vote_request(true, br#"{"thing_id":"t3_a","dir":-2}"#), invalid);
    assert_eq!(api_vote_request(true, b"thing_id=t1_b&dir=300"), invalid);
    assert_eq!(api_vote_request(true, b"thing_id=t1_b&dir=up"), invalid);
    assert_eq!(api_vote_request(true, b"thing_id=t1_b"), Ok("id=t1%5Fb&dir=0&rank=10".to_string()));
    assert_eq!(api_vote_request(true, br#"{"thing_id":"t3_a"}"#), Ok("id=t3%5Fa&dir=0&rank=10".to_string()));
    assert_eq!(api_vote_request(true, br#"{"thing_id":"t3_a","dir":0}"#), Ok("id=t3%5Fa&dir=0&rank=10".to_string()));
}
