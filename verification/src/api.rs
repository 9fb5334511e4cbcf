//! The JSON API: which query parameters reach Reddit, the API paths, and the
//! checks of a vote request.
use vstd::prelude::*;
use vstd::utf8::encode_utf8;
use crate::text::{owned, push_str, str_eq, seq_join, join, views, i64_to_string, dec_int, parse_i64_spec};
use crate::crypto::{urlencoded_pairs, parse_urlencoded, percent_encode, pct_bytes, json_parses, json_str_field, json_i64_field};
use crate::settings::{form_get, form_value, pair_views};

verus! {

/// Largest request body the API reads.
pub const API_MAX_BODY: usize = 65536;

/// The query parameters forwarded to Reddit; the others are dropped.
pub open spec fn allowed_param(k: Seq<char>) -> bool {
    k == "sort"@ || k == "t"@ || k == "after"@ || k == "before"@ || k == "limit"@ || k == "count"@
        || k == "depth"@ || k == "showmore"@
}

pub fn is_allowed_param(k: &str) -> (r: bool)
    ensures
        r == allowed_param(k@),
{
    str_eq(k, "sort") || str_eq(k, "t") || str_eq(k, "after") || str_eq(k, "before") || str_eq(k, "limit")
        || str_eq(k, "count") || str_eq(k, "depth") || str_eq(k, "showmore")
}

/// The allowed pairs, in order, each written `name=value` with the value
/// percent-encoded.
pub open spec fn forwarded(pairs: Seq<(Seq<char>, Seq<char>)>) -> Seq<Seq<char>>
    decreases pairs.len(),
{
    if pairs.len() == 0 {
        seq![]
    } else if allowed_param(pairs.last().0) {
        forwarded(pairs.drop_last()).push(pairs.last().0 + "="@ + pct_bytes(encode_utf8(pairs.last().1)))
    } else {
        forwarded(pairs.drop_last())
    }
}

/// The query sent to Reddit for a listing: the forwarded parameters joined
/// by `&`, then `raw_json=1`.
pub open spec fn listing_query_spec(query: Seq<char>) -> Seq<char> {
    let f = forwarded(urlencoded_pairs(encode_utf8(query)));
    if f.len() == 0 {
        "?raw_json=1"@
    } else {
        "?"@ + seq_join(f, "&"@) + "&raw_json=1"@
    }
}

pub fn api_listing_query(query: &str) -> (r: String)
    ensures
        r@ == listing_query_spec(query@),
{
    let pairs = parse_urlencoded(query.as_bytes());
    let ghost pv = urlencoded_pairs(encode_utf8(query@));
    assert(pair_views(pairs@) =~= pv);
    let mut kept: Vec<String> = Vec::new();
    let mut i: usize = 0;
    while i < pairs.len()
        invariant
            i <= pairs@.len(),
            pv == pair_views(pairs@),
            views(kept@) == forwarded(pv.take(i as int)),
        decreases pairs@.len() - i,
    {
        assert(pv.take(i + 1).drop_last() =~= pv.take(i as int));
        assert(pv.take(i + 1).last() == (pairs@[i as int].0@, pairs@[i as int].1@));
        if is_allowed_param(pairs[i].0.as_str()) {
            let mut item = owned(pairs[i].0.as_str());
            push_str(&mut item, "=");
            push_str(&mut item, percent_encode(pairs[i].1.as_str()).as_str());
            kept.push(item);
            assert(views(kept@) =~= forwarded(pv.take(i + 1)));
        }
        i += 1;
    }
    assert(pv.take(i as int) =~= pv);
    if kept.len() == 0 {
        owned("?raw_json=1")
    } else {
        let mut q = owned("?");
        push_str(&mut q, join(&kept, "&").as_str());
        push_str(&mut q, "&raw_json=1");
        q
    }
}

/// `GET /api/v1/r/{sub}`: Reddit's hot listing of the subreddit (`popular`
/// when the route names none), with the forwarded query.
pub fn api_listing_path(sub: Option<String>, query: &str) -> (r: String)
    ensures
        r@ == "/r/"@ + (match sub {
            Some(s) => s@,
            None => "popular"@,
        }) + "/hot.json"@ + listing_query_spec(query@),
{
    let s = match sub {
        Some(s) => s,
        None => owned("popular"),
    };
    let mut p = owned("/r/");
    push_str(&mut p, s.as_str());
    push_str(&mut p, "/hot.json");
    push_str(&mut p, api_listing_query(query).as_str());
    p
}

/// `GET /api/v1/r/{sub}/comments/{id}`: the post's API path, with the whole
/// request query.
pub fn api_comments_path(sub: &str, id: &str, query: &str) -> (r: String)
    ensures
        r@ == "/r/"@ + sub@ + "/comments/"@ + id@ + ".json"@ + (if query@.len() == 0 {
            "?raw_json=1"@
        } else {
            "?"@ + query@ + "&raw_json=1"@
        }),
{
    let mut p = owned("/r/");
    push_str(&mut p, sub);
    push_str(&mut p, "/comments/");
    push_str(&mut p, id);
    push_str(&mut p, ".json");
    if query.is_empty() {
        push_str(&mut p, "?raw_json=1");
    } else {
        push_str(&mut p, "?");
        push_str(&mut p, query);
        push_str(&mut p, "&raw_json=1");
    }
    p
}

/// The thing and direction of a vote body: read as JSON when it parses (a
/// missing id is empty; the direction is the integer given, 0 when it is
/// missing or no integer), else as a form (a missing id is empty; a missing
/// direction is 0, and one that is not a 64-bit integer is `None`, to be
/// refused).
pub open spec fn vote_fields(body: Seq<u8>) -> (Seq<char>, Option<i64>) {
    if json_parses(body) {
        (
            match json_str_field(body, "thing_id"@) {
                Some(t) => t,
                None => seq![],
            },
            match json_i64_field(body, "dir"@) {
                Some(d) => Some(d),
                None => Some(0i64),
            },
        )
    } else {
        let pairs = urlencoded_pairs(body);
        (
            match form_get(pairs, "thing_id"@) {
                Some(t) => t,
                None => seq![],
            },
            match form_get(pairs, "dir"@) {
                Some(d) => match parse_i64_spec(d) {
                    Some(v) => Some(v as i64),
                    None => None,
                },
                None => Some(0i64),
            },
        )
    }
}

/// A vote direction is one of -1, 0 and 1.
pub open spec fn valid_dir(d: Option<i64>) -> bool {
    d matches Some(v) && -1 <= v <= 1
}

/// What a vote request is answered before Reddit is asked: the status and
/// message of a refusal, or the body to send.
pub open spec fn api_vote_spec(authenticated: bool, body: Seq<u8>) -> Result<Seq<char>, (u16, Seq<char>)> {
    if !authenticated {
        Err((401u16, "Authentication required"@))
    } else if body.len() > API_MAX_BODY {
        Err((413u16, "Request body too large"@))
    } else {
        let (t, d) = vote_fields(body);
        if t.len() == 0 {
            Err((400u16, "Missing 'thing_id'"@))
        } else if !valid_dir(d) {
            Err((400u16, "Invalid 'dir' \u{2014} must be 1, 0, or -1"@))
        } else {
            Ok("id="@ + pct_bytes(encode_utf8(t)) + "&dir="@ + dec_int(d->0 as int) + "&rank=10"@)
        }
    }
}

fn read_vote_fields(body: &[u8]) -> (r: (String, Option<i64>))
    ensures
        (r.0@, r.1) == vote_fields(body@),
{
    if crate::crypto::json_is_value(body) {
        let t = match crate::crypto::json_field_str(body, "thing_id") {
            Some(t) => t,
            None => String::new(),
        };
        let d: i64 = match crate::crypto::json_field_i64(body, "dir") {
            Some(d) => d,
            None => 0,
        };
        (t, Some(d))
    } else {
        let pairs = parse_urlencoded(body);
        assert(pair_views(pairs@) =~= urlencoded_pairs(body@));
        let t = match form_value(&pairs, "thing_id") {
            Some(t) => t,
            None => String::new(),
        };
        let d: Option<i64> = match form_value(&pairs, "dir") {
            Some(ds) => crate::text::parse_i64(ds.as_str()),
            None => Some(0),
        };
        (t, d)
    }
}

/// `POST /api/v1/vote` up to the call to Reddit.
pub fn api_vote_request(authenticated: bool, body: &[u8]) -> (r: Result<String, (u16, String)>)
    ensures
        match r {
            Ok(b) => api_vote_spec(authenticated, body@) == Ok::<Seq<char>, (u16, Seq<char>)>(b@),
            Err((code, msg)) => api_vote_spec(authenticated, body@) == Err::<Seq<char>, (u16, Seq<char>)>((code, msg@)),
        },
{
    if !authenticated {
        return Err((401, owned("Authentication required")));
    }
    if body.len() > API_MAX_BODY {
        return Err((413, owned("Request body too large")));
    }
    let (t, d) = read_vote_fields(body);
    if t.as_str().is_empty() {
        return Err((400, owned("Missing 'thing_id'")));
    }
    let dir: i64 = match d {
        Some(v) if -1 <= v && v <= 1 => v,
        _ => {
            return Err((400, owned("Invalid 'dir' \u{2014} must be 1, 0, or -1")));
        },
    };
    let mut b = owned("id=");
    push_str(&mut b, percent_encode(t.as_str()).as_str());
    push_str(&mut b, "&dir=");
    push_str(&mut b, i64_to_string(dir).as_str());
    push_str(&mut b, "&rank=10");
    Ok(b)
}

} // verus!
