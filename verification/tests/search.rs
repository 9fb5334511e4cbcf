use redlib::search::{displayed_query, nsfw_param, recent_search, search_path, search_return, search_route, subreddit_search_path, SearchRoute};

fn route(q: &str) -> (bool, String) {
    match search_route(q) {
        SearchRoute::Redirect(p) => (true, p),
        SearchRoute::Search(s) => (false, s),
    }
}

#[test]
fn search_routes() {
    assert_eq!(route(""), (true, "/".to_string()));
    assert_eq!(route("r/rust"), (true, "/r/rust".to_string()));
    assert_eq!(route("R/rust"), (true, "/r/rust".to_string()));
    assert_eq!(route("u/spez"), (true, "/user/spez".to_string()));
    assert_eq!(route("user/spez"), (true, "/user/spez".to_string()));
    assert_eq!(route("https://www.reddit.com/r/rust"), (true, "/r/rust".to_string()));
    assert_eq!(route("https://old.reddit.com/"), (true, "/".to_string()));
    assert_eq!(route("rust lang"), (false, "rust lang".to_string()));
}

#[test]
fn search_paths() {
    assert_eq!(nsfw_param("on", false), "&include_over_18=on");
    assert_eq!(nsfw_param("on", true), "");
    assert_eq!(search_path("/r/a+b/search", "q=x", ""), "/r/a%2Bb/search.json?q=x&raw_json=1");
    assert_eq!(subreddit_search_path("rust lang", "sr_user"), "/subreddits/search.json?q=rust+lang&limit=50");
    assert_eq!(subreddit_search_path("x", ""), "/subreddits/search.json?q=x&limit=3");
    assert_eq!(displayed_query("say \"hi\""), "say &quot;hi&quot;");
    assert_eq!(search_return(""), "/search");
    assert_eq!(search_return("a b"), "/search?q=a%20b");
    let r = recent_search("rust".into());
    assert_eq!(r.url, "/search?q=rust");
}
