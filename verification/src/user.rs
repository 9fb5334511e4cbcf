//! A user's page: what a request for `/user/{name}[/{listing}]` turns into
//! before anything is fetched.
use vstd::prelude::*;
use crate::text::{chars_of, concat2, owned, push_str, str_eq_ignore_ascii_case, views, eq_ignore_ascii_case};
use crate::subreddit::contains_word;

verus! {

/// The listings of the signed-in account itself, fetched with its session.
pub open spec fn account_listing(listing: Seq<char>) -> bool {
    listing == "saved"@ || listing == "upvoted"@ || listing == "hidden"@
}

pub fn is_account_listing(listing: &str) -> (r: bool)
    ensures
        r == account_listing(listing@),
{
    crate::text::str_eq(listing, "saved") || crate::text::str_eq(listing, "upvoted")
        || crate::text::str_eq(listing, "hidden")
}

/// `?{query}` when the request has a query, nothing otherwise.
pub open spec fn query_suffix(query: Option<Seq<char>>) -> Seq<char> {
    match query {
        Some(q) => "?"@ + q,
        None => seq![],
    }
}

pub open spec fn opt_view(o: Option<&str>) -> Option<Seq<char>> {
    match o {
        Some(s) => Some(s@),
        None => None,
    }
}

/// Where `/user/me[/{listing}]` leads: `/login` when nobody is signed in,
/// else the signed-in user's own page, keeping the listing and the query.
pub open spec fn me_target(signed_in: Seq<char>, listing: Seq<char>, query: Option<Seq<char>>) -> Seq<char> {
    if signed_in.len() == 0 {
        "/login"@
    } else if listing.len() == 0 {
        "/user/"@ + signed_in + query_suffix(query)
    } else {
        "/user/"@ + signed_in + "/"@ + listing + query_suffix(query)
    }
}

/// What the profile route does with its request.
#[derive(PartialEq, Eq, Debug)]
pub enum ProfileStep {
    /// Answer with a redirect to this address.
    Redirect(String),
    /// The user is filtered: render the page with no posts.
    Filtered,
    /// Fetch the listing, with the account's session when `authed`.
    Fetch { authed: bool },
}

pub open spec fn step_view(s: ProfileStep) -> (int, Seq<char>, bool) {
    match s {
        ProfileStep::Redirect(to) => (0, to@, false),
        ProfileStep::Filtered => (1, seq![], false),
        ProfileStep::Fetch { authed } => (2, seq![], authed),
    }
}

pub open spec fn or_empty(o: Option<Seq<char>>) -> Seq<char> {
    match o {
        Some(s) => s,
        None => seq![],
    }
}

/// The decision, in order: `me` (any case) resolves to the signed-in user by
/// redirect, keeping the listing as given; a user listed as `u_{name}` in the
/// filters gets an empty page; the listing (`overview` when none is named)
/// is fetched, an account listing with the session, which needs one: else
/// `/login`.
pub open spec fn profile_spec(
    name: Seq<char>,
    listing: Option<Seq<char>>,
    query: Option<Seq<char>>,
    signed_in: Option<Seq<char>>,
    authenticated: bool,
    filters: Seq<Seq<char>>,
) -> (int, Seq<char>, bool) {
    let l = match listing {
        Some(l) => l,
        None => "overview"@,
    };
    if eq_ignore_ascii_case(name, "me"@) {
        (0, me_target(or_empty(signed_in), or_empty(listing), query), false)
    } else if filters.contains("u_"@ + name) {
        (1, seq![], false)
    } else if account_listing(l) && !authenticated {
        (0, "/login"@, false)
    } else {
        (2, seq![], account_listing(l))
    }
}

/// The user named in the route, `reddit` when there is none.
pub fn profile_name(name_param: Option<String>) -> (r: String)
    ensures
        r@ == (match name_param {
            Some(n) => n@,
            None => "reddit"@,
        }),
{
    match name_param {
        Some(n) => n,
        None => owned("reddit"),
    }
}

/// The listing asked for: `overview` when the route names none.
pub fn profile_listing(listing_param: Option<String>) -> (r: String)
    ensures
        r@ == (match listing_param {
            Some(l) => l@,
            None => "overview"@,
        }),
{
    match listing_param {
        Some(l) => l,
        None => owned("overview"),
    }
}

fn with_query(mut s: String, query: Option<&str>) -> (r: String)
    ensures
        r@ == s@ + query_suffix(opt_view(query)),
{
    match query {
        Some(q) => {
            let ghost s0 = s@;
            push_str(&mut s, "?");
            push_str(&mut s, q);
            proof {
                reveal_strlit("?");
            }
            assert(s@ =~= s0 + ("?"@ + q@));
            s
        },
        None => {
            assert(s@ =~= s@ + Seq::<char>::empty());
            s
        },
    }
}

/// The redirect for `/user/me`.
pub fn me_redirect(signed_in: Option<&str>, listing: Option<&str>, query: Option<&str>) -> (r: String)
    ensures
        r@ == me_target(or_empty(opt_view(signed_in)), or_empty(opt_view(listing)), opt_view(query)),
{
    let user = match signed_in {
        Some(u) => u,
        None => "",
    };
    let lst = match listing {
        Some(l) => l,
        None => "",
    };
    proof {
        reveal_strlit("");
    }
    if user.is_empty() {
        return owned("/login");
    }
    let mut p = owned("/user/");
    push_str(&mut p, user);
    if !lst.is_empty() {
        push_str(&mut p, "/");
        push_str(&mut p, lst);
    }
    proof {
        reveal_strlit("/user/");
        reveal_strlit("/");
    }
    with_query(p, query)
}

/// What to do with a request for a user's page.
pub fn profile_step(
    name: &str,
    listing_param: Option<&str>,
    query: Option<&str>,
    signed_in: Option<&str>,
    authenticated: bool,
    filters: &Vec<String>,
) -> (r: ProfileStep)
    ensures
        step_view(r) == profile_spec(
            name@,
            opt_view(listing_param),
            opt_view(query),
            opt_view(signed_in),
            authenticated,
            views(filters@),
        ),
{
    if str_eq_ignore_ascii_case(name, "me") {
        return ProfileStep::Redirect(me_redirect(signed_in, listing_param, query));
    }
    let u = concat2("u_", name);
    if contains_word(filters, u.as_str()) {
        return ProfileStep::Filtered;
    }
    let listing = match listing_param {
        Some(l) => l,
        None => "overview",
    };
    let authed = is_account_listing(listing);
    if authed && !authenticated {
        return ProfileStep::Redirect(owned("/login"));
    }
    ProfileStep::Fetch { authed }
}

/// The Reddit API path of a user's listing.
pub open spec fn profile_api_spec(name: Seq<char>, listing: Seq<char>, query: Seq<char>) -> Seq<char> {
    "/user/"@ + name + "/"@ + listing + ".json?"@ + query + "&raw_json=1"@
}

pub fn profile_api_path(name: &str, listing: &str, query: &str) -> (r: String)
    ensures
        r@ == profile_api_spec(name@, listing@, query@),
{
    let mut p = owned("/user/");
    push_str(&mut p, name);
    push_str(&mut p, "/");
    push_str(&mut p, listing);
    push_str(&mut p, ".json?");
    push_str(&mut p, query);
    push_str(&mut p, "&raw_json=1");
    p
}

/// `?` and `&` written `%3F` and `%26`.
pub open spec fn escape_q_amp(s: Seq<char>) -> Seq<char>
    decreases s.len(),
{
    if s.len() == 0 {
        seq![]
    } else {
        escape_q_amp(s.drop_last()) + if s.last() == '?' {
            "%3F"@
        } else if s.last() == '&' {
            "%26"@
        } else {
            seq![s.last()]
        }
    }
}

/// The page's own address without its leading `/`, escaped to ride in the
/// page's links as a return address.
pub fn profile_return_url(path_and_query: &str) -> (r: String)
    requires
        path_and_query@.len() > 0,
        (path_and_query@[0] as u32) < 128,
    ensures
        r@ == escape_q_amp(path_and_query@.skip(1)),
{
    let cs = chars_of(path_and_query);
    let mut out = String::new();
    let n = cs.len();
    let mut i: usize = 1;
    assert(cs@.subrange(1, 1) =~= Seq::<char>::empty());
    while i < n
        invariant
            1 <= i <= n == cs@.len(),
            cs@ == path_and_query@,
            out@ == escape_q_amp(cs@.subrange(1, i as int)),
        decreases n - i,
    {
        assert(cs@.subrange(1, i + 1).drop_last() =~= cs@.subrange(1, i as int));
        let c = cs[i];
        let ghost before = out@;
        if c == '?' {
            push_str(&mut out, "%3F");
        } else if c == '&' {
            push_str(&mut out, "%26");
        } else {
            crate::text::push_char(&mut out, c);
        }
        assert(out@ =~= escape_q_amp(cs@.subrange(1, i + 1)));
        i += 1;
    }
    assert(cs@.subrange(1, n as int) =~= path_and_query@.skip(1));
    out
}

/// Every fetched post is NSFW and NSFW posts are hidden (the `show_nsfw`
/// setting is not `on`), so the page explains why it is empty.
pub open spec fn all_hidden_nsfw_spec(nsfw: Seq<bool>, show_nsfw: Seq<char>) -> bool {
    nsfw.len() > 0 && (forall|i: int| 0 <= i < nsfw.len() ==> nsfw[i]) && show_nsfw != "on"@
}

pub fn all_hidden_nsfw(nsfw: &Vec<bool>, show_nsfw: &str) -> (r: bool)
    ensures
        r == all_hidden_nsfw_spec(nsfw@, show_nsfw@),
{
    if nsfw.len() == 0 {
        return false;
    }
    let mut i: usize = 0;
    while i < nsfw.len()
        invariant
            i <= nsfw@.len(),
            forall|j: int| 0 <= j < i ==> nsfw@[j],
        decreases nsfw@.len() - i,
    {
        if !nsfw[i] {
            return false;
        }
        i += 1;
    }
    !crate::text::str_eq(show_nsfw, "on")
}

} // verus!
