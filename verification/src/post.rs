//! A post's page: the comment sort and API path, which comments are shown
//! removed, filtered or collapsed, comment search, and the cookie of
//! comments the reader collapsed.
use vstd::prelude::*;
use vstd::set_lib::*;
use crate::text::{
    chars_of, concat2, owned, push_str, str_eq, str_starts_with, views, trim, trim_seq, starts_with_seq,
    contains_seq, unicode_lower, seq_join, join, to_lowercase, str_contains,
};
use crate::subreddit::{contains_word, strictly_sorted, insert_sorted_unique};
use crate::settings::{form_get, form_value, pair_views};

verus! {

// ----- sort and API path -----

/// The API path of a post's page: the request path with `.json`, the
/// request's query, the sort when one is added, and `raw_json=1`.
pub open spec fn item_api_spec(path: Seq<char>, query: Seq<char>, added_sort: Option<Seq<char>>) -> Seq<char> {
    match added_sort {
        Some(s) => path + ".json?"@ + query + "&sort="@ + s + "&raw_json=1"@,
        None => path + ".json?"@ + query + "&raw_json=1"@,
    }
}

/// The comment sort and the API path: a `sort` in the query wins; else the
/// reader's `comment_sort` setting, which is then added to the path; else no
/// sort.
pub fn comment_sort(path: &str, query: &str, sort_param: Option<String>, default_sort: &str) -> (r: (String, String))
    ensures
        match sort_param {
            Some(s) => r.0@ == s@ && r.1@ == item_api_spec(path@, query@, None),
            None => if default_sort@.len() == 0 {
                r.0@ == Seq::<char>::empty() && r.1@ == item_api_spec(path@, query@, None)
            } else {
                r.0@ == default_sort@ && r.1@ == item_api_spec(path@, query@, Some(default_sort@))
            },
        },
{
    let mut p = owned(path);
    push_str(&mut p, ".json?");
    push_str(&mut p, query);
    match sort_param {
        Some(s) => {
            push_str(&mut p, "&raw_json=1");
            (s, p)
        },
        None => {
            if default_sort.is_empty() {
                push_str(&mut p, "&raw_json=1");
                (String::new(), p)
            } else {
                push_str(&mut p, "&sort=");
                push_str(&mut p, default_sort);
                push_str(&mut p, "&raw_json=1");
                (owned(default_sort), p)
            }
        },
    }
}

// ----- comments -----

/// A comment shows as removed when its author was deleted and its body
/// removed, or when Reddit removed it.
pub open spec fn removed_spec(author: Seq<char>, body: Seq<char>) -> bool {
    (author == "[deleted]"@ && body == "[removed]"@) || body == "[ Removed by Reddit ]"@
}

pub fn comment_is_removed(author: &str, body: &str) -> (r: bool)
    ensures
        r == removed_spec(author@, body@),
{
    (str_eq(author, "[deleted]") && str_eq(body, "[removed]")) || str_eq(body, "[ Removed by Reddit ]")
}

/// The body shown for a removed comment: a link to it on the archive
/// front-end.
pub open spec fn removed_html_spec(frontend: Seq<char>, post_link: Seq<char>, id: Seq<char>) -> Seq<char> {
    "<div class=\"md\"><p>[removed] — <a href=\"https://"@ + frontend + post_link + id
        + "\">view removed comment</a></p></div>"@
}

pub fn removed_comment_html(frontend: &str, post_link: &str, id: &str) -> (r: String)
    ensures
        r@ == removed_html_spec(frontend@, post_link@, id@),
{
    let mut s = owned("<div class=\"md\"><p>[removed] — <a href=\"https://");
    push_str(&mut s, frontend);
    push_str(&mut s, post_link);
    push_str(&mut s, id);
    push_str(&mut s, "\">view removed comment</a></p></div>");
    s
}

/// Whether a comment's author is filtered (`u_{author}` among the filters)
/// and whether the comment starts collapsed: a stickied moderator comment,
/// a filtered author, or one the reader collapsed (`t1_{id}`).
pub open spec fn comment_state_spec(
    author: Seq<char>,
    id: Seq<char>,
    distinguished: Seq<char>,
    stickied: bool,
    filters: Seq<Seq<char>>,
    collapsed_ids: Seq<Seq<char>>,
) -> (bool, bool) {
    let filtered = filters.contains("u_"@ + author);
    (filtered, (distinguished == "moderator"@ && stickied) || filtered || collapsed_ids.contains("t1_"@ + id))
}

pub fn comment_state(
    author: &str,
    id: &str,
    distinguished: &str,
    stickied: bool,
    filters: &Vec<String>,
    collapsed_ids: &Vec<String>,
) -> (r: (bool, bool))
    ensures
        r == comment_state_spec(author@, id@, distinguished@, stickied, views(filters@), views(collapsed_ids@)),
{
    let u = concat2("u_", author);
    let filtered = contains_word(filters, u.as_str());
    let t = concat2("t1_", id);
    let mine = contains_word(collapsed_ids, t.as_str());
    (filtered, (str_eq(distinguished, "moderator") && stickied) || filtered || mine)
}

/// A comment matches a search when its body contains the query, both
/// lower-cased.
pub fn comment_matches(body: &str, query: &str) -> (r: bool)
    ensures
        r == contains_seq(unicode_lower(body@), unicode_lower(query@)),
{
    let b = to_lowercase(body);
    let q = to_lowercase(query);
    str_contains(b.as_str(), q.as_str())
}

// ----- collapsed comments -----

/// The collapse request's action.
#[derive(PartialEq, Eq, Debug, Clone, Copy)]
pub enum CollapseAction {
    Collapse,
    Expand,
}

pub open spec fn collapse_action_spec(a: Seq<char>) -> Option<CollapseAction> {
    if a == "collapse"@ {
        Some(CollapseAction::Collapse)
    } else if a == "expand"@ {
        Some(CollapseAction::Expand)
    } else {
        None
    }
}

pub fn collapse_action(a: &str) -> (r: Option<CollapseAction>)
    ensures
        r == collapse_action_spec(a@),
{
    if str_eq(a, "collapse") {
        Some(CollapseAction::Collapse)
    } else if str_eq(a, "expand") {
        Some(CollapseAction::Expand)
    } else {
        None
    }
}

/// A request is accepted when its id, trimmed, is a comment id (`t1_...`)
/// and its action is known.
pub open spec fn collapse_ok(id: Seq<char>, action: Seq<char>) -> bool {
    trim_seq(id).len() > 0 && starts_with_seq(trim_seq(id), "t1_"@) && collapse_action_spec(action) is Some
}

/// The set of collapsed ids after the request.
pub open spec fn collapsed_after(existing: Set<Seq<char>>, id: Seq<char>, action: Seq<char>) -> Set<Seq<char>> {
    if collapse_action_spec(action) == Some(CollapseAction::Collapse) {
        existing.insert(trim_seq(id))
    } else {
        existing.remove(trim_seq(id))
    }
}

/// The ids, sorted and without repeats, and without `x`.
fn sorted_without(existing: &Vec<String>, x: &str) -> (r: Vec<String>)
    ensures
        strictly_sorted(views(r@)),
        views(r@).to_set() == views(existing@).to_set().remove(x@),
{
    let mut out: Vec<String> = Vec::new();
    let mut i: usize = 0;
    assert(views(out@).to_set() =~= views(existing@).take(0).to_set().remove(x@));
    while i < existing.len()
        invariant
            i <= existing@.len(),
            strictly_sorted(views(out@)),
            views(out@).to_set() == views(existing@).take(i as int).to_set().remove(x@),
        decreases existing@.len() - i,
    {
        let ghost before = views(out@).to_set();
        assert(views(existing@).take(i + 1) =~= views(existing@).take(i as int).push(existing@[i as int]@));
        proof {
            views(existing@).take(i as int).lemma_push_to_set_commute(existing@[i as int]@);
        }
        if !str_eq(existing[i].as_str(), x) {
            insert_sorted_unique(&mut out, existing[i].as_str());
            assert(views(out@).to_set() =~= views(existing@).take(i + 1).to_set().remove(x@));
        } else {
            assert(views(out@).to_set() =~= views(existing@).take(i + 1).to_set().remove(x@));
        }
        i += 1;
    }
    assert(views(existing@).take(i as int) =~= views(existing@));
    out
}

/// The collapsed comment ids after a collapse or expand request, sorted;
/// `None` for a request that is refused (answered 400).
pub fn comment_collapse_ids(existing: &Vec<String>, id: &str, action: &str) -> (r: Option<Vec<String>>)
    ensures
        match r {
            None => !collapse_ok(id@, action@),
            Some(v) => collapse_ok(id@, action@) && strictly_sorted(views(v@))
                && views(v@).to_set() == collapsed_after(views(existing@).to_set(), id@, action@),
        },
{
    let t = trim(id);
    let act = collapse_action(action);
    if t.as_str().is_empty() || !str_starts_with(t.as_str(), "t1_") || act.is_none() {
        return None;
    }
    let mut v = sorted_without(existing, t.as_str());
    match act {
        Some(CollapseAction::Collapse) => {
            insert_sorted_unique(&mut v, t.as_str());
            let ghost e = views(existing@).to_set();
            assert(e.remove(t@).insert(t@) =~= e.insert(t@));
        },
        _ => {},
    }
    Some(v)
}

/// A collapse request's form body (`id`, `action`) applied to the ids from
/// the cookie: the new ids and the cookie's new value, the ids joined by
/// `,`; `None` for a refused request.
pub fn comment_collapse_cookie(existing: &Vec<String>, body: &[u8]) -> (r: Option<(Vec<String>, String)>)
    ensures
        ({
            let pairs = crate::crypto::urlencoded_pairs(body@);
            let id = match form_get(pairs, "id"@) {
                Some(v) => v,
                None => seq![],
            };
            let action = match form_get(pairs, "action"@) {
                Some(v) => v,
                None => seq![],
            };
            match r {
                None => !collapse_ok(id, action),
                Some((v, value)) => collapse_ok(id, action) && strictly_sorted(views(v@))
                    && views(v@).to_set() == collapsed_after(views(existing@).to_set(), id, action)
                    && value@ == seq_join(views(v@), ","@),
            }
        }),
{
    let pairs = crate::crypto::parse_urlencoded(body);
    assert(pair_views(pairs@) =~= crate::crypto::urlencoded_pairs(body@));
    let id = match form_value(&pairs, "id") {
        Some(v) => v,
        None => String::new(),
    };
    let action = match form_value(&pairs, "action") {
        Some(v) => v,
        None => String::new(),
    };
    match comment_collapse_ids(existing, id.as_str(), action.as_str()) {
        Some(v) => {
            let value = join(&v, ",");
            Some((v, value))
        },
        None => None,
    }
}

/// Collapsing a comment and then expanding it leaves the collapsed set as it
/// was, less that comment.
pub proof fn lemma_collapse_then_expand(existing: Set<Seq<char>>, id: Seq<char>)
    ensures
        collapsed_after(collapsed_after(existing, id, "collapse"@), id, "expand"@) == existing.remove(trim_seq(id)),
{
    reveal_strlit("collapse");
    reveal_strlit("expand");
    assert("expand"@.len() != "collapse"@.len());
    assert(collapse_action_spec("expand"@) == Some(CollapseAction::Expand));
    assert(existing.insert(trim_seq(id)).remove(trim_seq(id)) =~= existing.remove(trim_seq(id)));
}

/// Collapsing is idempotent.
pub proof fn lemma_collapse_twice(existing: Set<Seq<char>>, id: Seq<char>)
    ensures
        collapsed_after(collapsed_after(existing, id, "collapse"@), id, "collapse"@)
            == collapsed_after(existing, id, "collapse"@),
{
    reveal_strlit("collapse");
    reveal_strlit("expand");
    assert(existing.insert(trim_seq(id)).insert(trim_seq(id)) =~= existing.insert(trim_seq(id)));
}

// ----- comment search -----

/// `s` with every trailing repeat of `suffix` removed.
pub open spec fn trim_end_all(s: Seq<char>, suffix: Seq<char>) -> Seq<char>
    decreases s.len(),
{
    if suffix.len() > 0 && crate::text::ends_with_seq(s, suffix) {
        trim_end_all(s.take(s.len() - suffix.len()), suffix)
    } else {
        s
    }
}

fn trim_end_matches(s: &str, suffix: &str) -> (r: String)
    ensures
        r@ == trim_end_all(s@, suffix@),
{
    let mut cur = chars_of(s);
    let pat = chars_of(suffix);
    if pat.len() == 0 {
        return crate::text::string_of(&cur);
    }
    while crate::text::chars_ends_with(&cur, &pat)
        invariant
            pat@ == suffix@,
            pat@.len() > 0,
            trim_end_all(cur@, pat@) == trim_end_all(s@, suffix@),
        decreases cur@.len(),
    {
        let n = cur.len() - pat.len();
        cur = crate::text::sub_chars(&cur, 0, n);
        assert(cur@ =~= cur@.take(n as int));
    }
    crate::text::string_of(&cur)
}

/// The pattern of a comment search in a page address.
pub const COMMENT_SEARCH_CAPTURE: &'static str = r"\?q=(.*)&type=comment";

/// The comment search in a page address (`?q=...&type=comment`): the
/// captured text with `%20` and `+` read as spaces, then form-decoded.
pub open spec fn search_query_spec(url: Seq<char>) -> Seq<char> {
    let body = match crate::crypto::regex_group(COMMENT_SEARCH_CAPTURE@, 1, url) {
        Some(b) => crate::text::replace_all(crate::text::replace_all(b, "%20"@, " "@), "+"@, " "@),
        None => seq![],
    };
    let qs = "q="@ + body + "&type=comment"@;
    match form_get(crate::crypto::urlencoded_pairs(vstd::utf8::encode_utf8(qs)), "q"@) {
        Some(q) => q,
        None => seq![],
    }
}

/// The comment search of a post's page and the page address without it.
pub fn comment_search(url: &str) -> (r: (String, String))
    ensures
        r.0@ == search_query_spec(url@),
        r.1@ == trim_end_all(url@, "?q="@ + r.0@ + "&type=comment"@),
{
    let body = match crate::crypto::regex_capture(COMMENT_SEARCH_CAPTURE, 1, url) {
        Some(b) => {
            proof {
                reveal_strlit("%20");
                reveal_strlit("+");
            }
            let b1 = crate::text::replace_str(b.as_str(), "%20", " ");
            crate::text::replace_str(b1.as_str(), "+", " ")
        },
        None => String::new(),
    };
    let mut qs = owned("q=");
    push_str(&mut qs, body.as_str());
    push_str(&mut qs, "&type=comment");
    let pairs = crate::crypto::parse_urlencoded(qs.as_str().as_bytes());
    assert(pair_views(pairs@) =~= crate::crypto::urlencoded_pairs(vstd::utf8::encode_utf8(qs@)));
    let query = match form_value(&pairs, "q") {
        Some(q) => q,
        None => String::new(),
    };
    let mut suffix = owned("?q=");
    push_str(&mut suffix, query.as_str());
    push_str(&mut suffix, "&type=comment");
    let rest = trim_end_matches(url, suffix.as_str());
    (query, rest)
}

} // verus!
