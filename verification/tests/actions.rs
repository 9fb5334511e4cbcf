use redlib::actions::{
    after_submit, bearer_from_header, can_submit_to, check_comment, check_edit, check_edit_text, check_message, check_submission,
    check_vote, comment_body, compose_body, edit_body, go_target, html_escape, id_body, is_thing_id, safe_return_to,
    save_endpoint, submit_body, vote_body, EditAction,
};

#[test]
fn return_targets_stay_on_site() {
    assert_eq!(safe_return_to("/r/rust"), "/r/rust");
    assert_eq!(safe_return_to("//evil.com"), "/");
    assert_eq!(safe_return_to("https://evil.com"), "/");
}

#[test]
fn html_is_escaped() {
    assert_eq!(html_escape("<a href=\"x\">&</a>"), "&lt;a href=&quot;x&quot;&gt;&amp;&lt;/a&gt;");
    assert_eq!(html_escape("plain"), "plain");
}

#[test]
fn go_box_targets() {
    assert_eq!(go_target("  rust "), Some("/r/rust".to_string()));
    assert_eq!(go_target("r/rust"), Some("/r/r_rust".to_string()));
    assert_eq!(go_target("__a b__"), Some("/r/a_b".to_string()));
    assert_eq!(go_target("   "), None);
    assert_eq!(go_target("!!!"), None);
    assert_eq!(go_target(&"a".repeat(22)), None);
}

#[test]
fn bearer_headers() {
    assert_eq!(bearer_from_header(Some("Bearer abc")), Some("abc".to_string()));
    assert_eq!(bearer_from_header(Some("Bearer ")), None);
    assert_eq!(bearer_from_header(Some("Basic abc")), None);
    assert_eq!(bearer_from_header(None), None);
}

#[test]
fn votes_checked() {
    assert!(is_thing_id("t3_abc"));
    assert!(!is_thing_id("t2_abc"));
    assert_eq!(check_vote(Some("t3_a"), Some("1")), Ok(("t3_a".to_string(), 1)));
    assert_eq!(check_vote(None, Some("1")), Err("Missing 'thing_id' in vote form".to_string()));
    assert_eq!(check_vote(Some("t3_a"), None), Err("Missing 'dir' in vote form".to_string()));
    assert_eq!(check_vote(Some("t3_a"), Some("up")), Err("Invalid vote direction 'up' \u{2014} must be 1, 0, or -1".to_string()));
    assert_eq!(check_vote(Some("t3_a"), Some("5")), Err("Invalid vote direction 5 \u{2014} must be 1, 0, or -1".to_string()));
    assert_eq!(check_vote(Some("x_a"), Some("-1")), Err("Invalid thing_id 'x_a' \u{2014} expected t1_ or t3_ prefix".to_string()));
    assert_eq!(vote_body("t3_a", -1), "id=t3%5Fa&dir=-1&rank=10");
    assert_eq!(id_body("t1_z"), "id=t1%5Fz");
    assert_eq!(save_endpoint(Some("unsave")), "/api/unsave");
    assert_eq!(save_endpoint(None), "/api/save");
}

#[test]
fn comments_checked() {
    assert_eq!(check_comment(Some(" t3_a "), Some(" hi ")), Ok(("t3_a".to_string(), "hi".to_string())));
    assert_eq!(check_comment(None, Some("x")), Err("Missing 'parent' (thing ID)".to_string()));
    assert_eq!(check_comment(Some("t3_a"), None), Err("Missing 'text'".to_string()));
    assert_eq!(check_comment(Some("u_a"), Some("x")), Err("Invalid parent: must be t1_ (comment) or t3_ (post)".to_string()));
    assert_eq!(check_comment(Some("t1_a"), Some("   ")), Err("Comment text cannot be empty".to_string()));
    assert_eq!(check_comment(Some("t1_a"), Some(&"x".repeat(10001))), Err("Comment too long (max 10000 characters)".to_string()));
    assert_eq!(comment_body("t3_a", "a b"), "api_type=json&parent=t3%5Fa&text=a%20b");
}

#[test]
fn edits_checked() {
    assert_eq!(check_edit(Some(" t1_a "), Some("DELETE")), Ok(("t1_a".to_string(), EditAction::Delete)));
    assert_eq!(check_edit(Some("t1_a"), None), Ok(("t1_a".to_string(), EditAction::Edit)));
    assert_eq!(check_edit(None, None), Err("Missing thing_id.".to_string()));
    assert_eq!(check_edit(Some("zz"), None), Err("Invalid thing_id: must be t1_ (comment) or t3_ (post).".to_string()));
    assert!(check_edit_text(&"x".repeat(40000)).is_ok());
    assert_eq!(check_edit_text(&"x".repeat(40001)), Err("Text must be at most 40000 characters.".to_string()));
    assert_eq!(edit_body("t1_a", "é"), "api_type=json&thing_id=t1%5Fa&text=%C3%A9");
}

#[test]
fn submissions_checked() {
    assert!(can_submit_to("rust"));
    assert!(!can_submit_to("all"));
    assert!(!can_submit_to("a+b"));
    assert!(!can_submit_to(""));
    let p = check_submission(Some("LINK"), Some(" T "), None, Some(" https://x.org ")).unwrap();
    assert!(p.link);
    assert_eq!(p.title, "T");
    assert_eq!(p.url, "https://x.org");
    assert_eq!(submit_body("rust", &p), "api_type=json&kind=link&sr=rust&title=T&url=https%3A%2F%2Fx%2Eorg");
    let t = check_submission(None, Some("Title"), Some("body"), None).unwrap();
    assert!(!t.link);
    assert_eq!(submit_body("rust", &t), "api_type=json&kind=self&sr=rust&title=Title&text=body");
    assert_eq!(check_submission(None, Some("  "), None, None).err(), Some("Title is required.".to_string()));
    assert_eq!(check_submission(None, Some(&"t".repeat(301)), None, None).err(), Some("Title must be at most 300 characters.".to_string()));
    assert_eq!(check_submission(Some("link"), Some("t"), None, None).err(), Some("URL is required for link posts.".to_string()));
    assert_eq!(check_submission(Some("link"), Some("t"), None, Some("ftp://x")).err(), Some("URL must start with http:// or https://.".to_string()));
    assert_eq!(after_submit("rust", Some("/r/rust/comments/x"), None), "/r/rust/comments/x");
    assert_eq!(after_submit("rust", Some("https://reddit.com/x"), Some("/r/rust")), "/r/rust");
    assert_eq!(after_submit("rust", None, None), "/r/rust");
}

#[test]
fn messages_checked() {
    assert_eq!(check_message(Some(" bob "), Some(" hi "), Some("text")), Ok(("bob".to_string(), "hi".to_string(), "text".to_string())));
    assert_eq!(check_message(None, None, Some("t")), Err("Recipient is required.".to_string()));
    assert_eq!(check_message(Some("b"), Some(&"s".repeat(101)), Some("t")), Err("Subject must be at most 100 characters.".to_string()));
    assert_eq!(check_message(Some("b"), None, Some("")), Err("Message text is required.".to_string()));
    assert_eq!(compose_body("bob", "hi", "x y"), "api_type=json&to=bob&subject=hi&text=x%20y");
}
