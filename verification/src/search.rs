//! Search: where a query leads, and the search listing's addresses.
use vstd::prelude::*;
use crate::crypto::{percent_encode, regex_replace_first, regex_replaced};
use crate::login::pct;
use crate::text::{
    chars_of, concat2, owned, push_str, replace_all, replace_str, starts_with_seq, str_eq, str_starts_with, string_of,
    sub_chars,
};

verus! {

/// A search kept in the recent-searches list, with the address that reruns it.
#[derive(Debug)]
pub struct RecentSearch {
    pub query: String,
    pub url: String,
}

pub fn recent_search(query: String) -> (r: RecentSearch)
    ensures
        r.query == query,
        r.url@ == "/search?q="@ + pct(query@),
{
    let url = concat2("/search?q=", percent_encode(query.as_str()).as_str());
    RecentSearch { query, url }
}

/// Where a search goes.
#[derive(Debug)]
pub enum SearchRoute {
    /// Straight to a page.
    Redirect(String),
    /// A search for this query.
    Search(String),
}

/// The pattern of a search query that is a Reddit address.
pub const REDDIT_URL_MATCH: &'static str = r"^https?://([^\./]+\.)*reddit.com/";

/// The query without a leading Reddit address (unchanged should the pattern
/// not compile).
pub open spec fn reddit_url_stripped(raw: Seq<char>) -> Seq<char> {
    match regex_replaced(REDDIT_URL_MATCH@, raw, ""@) {
        Some(q) => q,
        None => raw,
    }
}

/// The query without a leading Reddit address.
pub fn strip_reddit_url(raw: &str) -> (r: String)
    ensures
        r@ == reddit_url_stripped(raw@),
{
    match regex_replace_first(REDDIT_URL_MATCH, raw, "") {
        Some(q) => q,
        None => owned(raw),
    }
}

/// A query is first stripped of a leading Reddit URL. Empty, it leads home;
/// `r/...` and `user/...` lead to that page; `R/...` to `/r/...`; `u/...` and
/// `U/...` to `/user/...`; anything else is searched.
pub open spec fn search_route_spec(raw: Seq<char>) -> (bool, Seq<char>) {
    let q = reddit_url_stripped(raw);
    if q.len() == 0 {
        (true, "/"@)
    } else if starts_with_seq(q, "r/"@) || starts_with_seq(q, "user/"@) {
        (true, "/"@ + q)
    } else if starts_with_seq(q, "R/"@) {
        (true, "/r"@ + q.skip(1))
    } else if starts_with_seq(q, "u/"@) || starts_with_seq(q, "U/"@) {
        (true, "/user"@ + q.skip(1))
    } else {
        (false, q)
    }
}

pub open spec fn route_view(r: SearchRoute) -> (bool, Seq<char>) {
    match r {
        SearchRoute::Redirect(p) => (true, p@),
        SearchRoute::Search(q) => (false, q@),
    }
}

fn drop_first_char(s: &str) -> (r: String)
    requires
        s@.len() > 0,
    ensures
        r@ == s@.skip(1),
{
    let cs = chars_of(s);
    let n = cs.len();
    let t = sub_chars(&cs, 1, n);
    assert(t@ =~= s@.skip(1));
    string_of(&t)
}

pub fn search_route(raw: &str) -> (r: SearchRoute)
    ensures
        route_view(r) == search_route_spec(raw@),
{
    let q = strip_reddit_url(raw);
    let qs = q.as_str();
    proof {
        reveal_strlit("R/");
        reveal_strlit("u/");
        reveal_strlit("U/");
    }
    if qs.is_empty() {
        SearchRoute::Redirect(owned("/"))
    } else if str_starts_with(qs, "r/") || str_starts_with(qs, "user/") {
        SearchRoute::Redirect(concat2("/", qs))
    } else if str_starts_with(qs, "R/") {
        SearchRoute::Redirect(concat2("/r", drop_first_char(qs).as_str()))
    } else if str_starts_with(qs, "u/") || str_starts_with(qs, "U/") {
        SearchRoute::Redirect(concat2("/user", drop_first_char(qs).as_str()))
    } else {
        SearchRoute::Search(q)
    }
}

/// NSFW results are asked for only when the user shows NSFW content and the
/// instance is not SFW-only.
pub fn nsfw_param(show_nsfw: &str, sfw_only: bool) -> (r: &'static str)
    ensures
        r@ == (if show_nsfw@ == "on"@ && !sfw_only { "&include_over_18=on"@ } else { ""@ }),
{
    if str_eq(show_nsfw, "on") && !sfw_only { "&include_over_18=on" } else { "" }
}

/// The Reddit search listing for a request path and query.
pub fn search_path(uri_path: &str, query: &str, nsfw: &str) -> (r: String)
    ensures
        r@ == replace_all(uri_path@, "+"@, "%2B"@) + ".json?"@ + query@ + nsfw@ + "&raw_json=1"@,
{
    proof {
        reveal_strlit("+");
    }
    let mut p = replace_str(uri_path, "+", "%2B");
    push_str(&mut p, ".json?");
    push_str(&mut p, query);
    push_str(&mut p, nsfw);
    push_str(&mut p, "&raw_json=1");
    p
}

/// The subreddit search shown beside the results: spaces become `+`, and
/// fifty results for a subreddit-or-user search, else three.
pub fn subreddit_search_path(q: &str, typed: &str) -> (r: String)
    ensures
        r@ == "/subreddits/search.json?q="@ + replace_all(q@, " "@, "+"@) + "&limit="@
            + (if typed@ == "sr_user"@ { "50"@ } else { "3"@ }),
{
    proof {
        reveal_strlit(" ");
    }
    let mut p = owned("/subreddits/search.json?q=");
    push_str(&mut p, replace_str(q, " ", "+").as_str());
    push_str(&mut p, "&limit=");
    push_str(&mut p, if str_eq(typed, "sr_user") { "50" } else { "3" });
    p
}

/// The query as shown back in the search box, with `"` escaped.
pub fn displayed_query(q: &str) -> (r: String)
    ensures
        r@ == replace_all(q@, "\""@, "&quot;"@),
{
    proof {
        reveal_strlit("\"");
    }
    replace_str(q, "\"", "&quot;")
}

/// The address a saved or unsaved search returns to.
pub fn search_return(q: &str) -> (r: String)
    ensures
        r@ == if q@.len() == 0 { "/search"@ } else { "/search?q="@ + pct(q@) },
{
    if q.is_empty() {
        owned("/search")
    } else {
        concat2("/search?q=", percent_encode(q).as_str())
    }
}

} // verus!
