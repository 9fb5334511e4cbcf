//! Checks shared by the reader's form actions.
use vstd::prelude::*;
use crate::auth::opt_str;
use crate::text::{owned, parse_i64, parse_i64_spec, starts_with_seq, str_eq, str_starts_with};
use crate::crypto::view_string;

verus! {

/// Local reading state is on only when `REDLIB_ENABLE_LOCAL_STATE` is `on`.
pub fn local_state_enabled(setting: Option<&str>) -> (r: bool)
    ensures
        r == (opt_str(setting) == Some("on"@)),
{
    match setting {
        Some(v) => str_eq(v, "on"),
        None => false,
    }
}

/// The error when an action needs local state and it is off.
pub fn local_state_required() -> (r: &'static str)
    ensures
        r@ == "Local state is disabled (REDLIB_ENABLE_LOCAL_STATE=on required)"@,
{
    "Local state is disabled (REDLIB_ENABLE_LOCAL_STATE=on required)"
}

/// The reader's forms carry the CSRF cookie's value; it must be there and
/// match.
pub fn verify_csrf(cookie: Option<&str>, form_token: &str) -> (r: Result<(), String>)
    ensures
        match r {
            Ok(()) => opt_str(cookie) == Some(form_token@),
            Err(e) => match cookie {
                None => e@ == "Missing CSRF cookie"@,
                Some(c) => c@ != form_token@ && e@ == "CSRF token mismatch"@,
            },
        },
{
    match cookie {
        None => Err(owned("Missing CSRF cookie")),
        Some(c) => if str_eq(c, form_token) {
            Ok(())
        } else {
            Err(owned("CSRF token mismatch"))
        },
    }
}

/// A mute applies everywhere (`global`) or to one channel (`channel:...`).
pub open spec fn mute_scope_ok(scope: Seq<char>) -> bool {
    scope == "global"@ || starts_with_seq(scope, "channel:"@)
}

pub fn valid_mute_scope(scope: &str) -> (r: bool)
    ensures
        r == mute_scope_ok(scope@),
{
    str_eq(scope, "global") || str_starts_with(scope, "channel:")
}

/// The scope a new mute gets: the submitted one when valid, else `global`.
pub fn mute_scope(submitted: Option<&str>) -> (r: String)
    ensures
        r@ == match submitted {
            Some(s) => if mute_scope_ok(s@) { s@ } else { "global"@ },
            None => "global"@,
        },
{
    match submitted {
        Some(s) => if valid_mute_scope(s) { owned(s) } else { owned("global") },
        None => owned("global"),
    }
}

/// The mute kinds that can be imported.
pub fn importable_mute_type(rule_type: &str) -> (r: bool)
    ensures
        r == (rule_type@ == "keyword"@ || rule_type@ == "domain"@ || rule_type@ == "subreddit"@),
{
    str_eq(rule_type, "keyword") || str_eq(rule_type, "domain") || str_eq(rule_type, "subreddit")
}

/// A required form field: present and non-empty, else the given error.
pub fn required_field(value: Option<&str>, missing: &str) -> (r: Result<String, String>)
    ensures
        match r {
            Ok(v) => opt_str(value) == Some(v@) && v@.len() > 0,
            Err(e) => (value is None || value->0@.len() == 0) && e@ == missing@,
        },
{
    match value {
        Some(v) if !v.is_empty() => Ok(owned(v)),
        _ => Err(owned(missing)),
    }
}

/// The mute id of an unmute action.
pub fn parse_mute_id(value: Option<&str>) -> (r: Result<i64, String>)
    ensures
        match r {
            Ok(id) => value is Some && parse_i64_spec(value->0@) == Some(id as int),
            Err(e) => (value is None || parse_i64_spec(value->0@) is None) && e@ == "Missing or invalid mute_id"@,
        },
{
    match value {
        Some(v) => match parse_i64(v) {
            Some(id) => Ok(id),
            None => Err(owned("Missing or invalid mute_id")),
        },
        None => Err(owned("Missing or invalid mute_id")),
    }
}

/// Where an action returns to: the referring page, or the default reader view.
pub fn back_target(referer: Option<&str>) -> (r: String)
    ensures
        r@ == match referer {
            Some(b) => b@,
            None => "/reader/my-subs?lens=reader&preset=digest15"@,
        },
{
    match referer {
        Some(b) => owned(b),
        None => owned("/reader/my-subs?lens=reader&preset=digest15"),
    }
}

/// Where opening a post leads: only a site-relative path is followed,
/// anything else goes to `/`.
pub fn open_destination(url: Option<&str>) -> (r: String)
    ensures
        r@ == match url {
            Some(u) => if starts_with_seq(u@, "/"@) { u@ } else { "/"@ },
            None => "/"@,
        },
{
    match url {
        Some(u) => if str_starts_with(u, "/") { owned(u) } else { owned("/") },
        None => owned("/"),
    }
}

/// The body of the unread-count endpoint.
pub fn unread_count_json(count: i64) -> (r: String)
    ensures
        r@ == "{\"count\":"@ + crate::text::dec_int(count as int) + "}"@,
{
    let mut s = owned("{\"count\":");
    crate::text::push_str(&mut s, crate::text::i64_to_string(count).as_str());
    crate::text::push_str(&mut s, "}");
    s
}

/// The reader's session id: the `rl_sid` cookie when the browser has one,
/// else a fresh random UUID that the response must set (`true`); none while
/// local state is off.
pub fn ensure_sid(local_state: bool, cookie: Option<&str>) -> (r: Option<(String, bool)>)
    ensures
        !local_state ==> r is None,
        local_state ==> match cookie {
            Some(c) => r matches Some((s, set)) && s@ == c@ && !set,
            None => r matches Some((s, set)) && s@.len() == 36 && set,
        },
{
    if !local_state {
        return None;
    }
    match cookie {
        Some(c) => Some((owned(c), false)),
        None => Some((crate::crypto::new_uuid_v4(), true)),
    }
}

} // verus!
