//! Decisions of the login, logout and account-switching routes, and of the
//! OAuth exchange with Reddit.
use vstd::prelude::*;
use crate::auth::{
    AuthContext, AuthView, nonempty_opt, opt_str, vault_get, without_user, SessionData, SessionVault,
};
use crate::crypto::{
    b64_std_encode, base64_std_encode, json_field_i64, json_field_str, json_i64_field, json_str_field,
    pct_bytes, percent_encode, view_string,
};
use crate::text::{
    concat2, eq_ignore_ascii_case, owned, push_str, str_eq, str_eq_ignore_ascii_case, trim, trim_seq,
};
use vstd::utf8::encode_utf8;

verus! {

/// Largest request body the auth routes accept.
pub const MAX_BODY_SIZE: usize = 16384;

/// Scopes requested from Reddit at login.
pub open spec fn oauth_scopes() -> Seq<char> {
    "identity read vote subscribe history save submit privatemessages"@
}

/// A request body longer than `MAX_BODY_SIZE` is refused.
pub fn check_body_size(len: usize) -> (r: Result<(), String>)
    ensures
        r is Err <==> len > MAX_BODY_SIZE,
        r matches Err(e) ==> e@ == "Request body too large"@,
{
    if len > MAX_BODY_SIZE {
        Err(owned("Request body too large"))
    } else {
        Ok(())
    }
}

/// The `username` form field of the switch and remove routes; it must be
/// present and non-empty.
pub fn require_username(value: Option<&str>) -> (r: Result<String, String>)
    ensures
        match r {
            Ok(u) => nonempty_opt(opt_str(value)) && u@ == value->0@,
            Err(e) => !nonempty_opt(opt_str(value)) && e@ == "Username is required"@,
        },
{
    match value {
        Some(v) if !v.is_empty() => Ok(owned(v)),
        _ => Err(owned("Username is required")),
    }
}

/// Switching accounts: with a vault cookie present, it must decrypt (`vault`
/// is `Some`) and hold the user.
pub fn check_switch(username: &str, cookie_present: bool, vault: Option<&SessionVault>) -> (r: Result<(), String>)
    ensures
        match r {
            Ok(()) => !cookie_present || (vault matches Some(v) && vault_get(v.sessions@, username@) is Some),
            Err(e) => cookie_present && match vault {
                None => e@ == "No sessions found"@,
                Some(v) => vault_get(v.sessions@, username@) is None && e@ == "Session not found"@,
            },
        },
{
    if cookie_present {
        match vault {
            None => {
                return Err(owned("No sessions found"));
            },
            Some(v) => {
                if v.get(username).is_none() {
                    return Err(owned("Session not found"));
                }
            },
        }
    }
    Ok(())
}

/// What happens to the active-account cookie.
#[derive(Debug)]
pub enum ActiveCookie {
    /// Set it to this username.
    SetTo(String),
    /// Remove it.
    Clear,
    /// Leave it as it is.
    Keep,
}

/// The active-account cookie after removing `u`'s sessions from `ss`, where
/// `active` is the cookie's current value: when no session is left it is
/// cleared; when the removed user was the active one, the first remaining
/// session becomes active; otherwise it is kept.
pub open spec fn removal_active(ss: Seq<SessionData>, u: Seq<char>, active: Option<Seq<char>>) -> Option<Option<Seq<char>>> {
    let rest = without_user(ss, u);
    if rest.len() == 0 {
        Some(None)
    } else if vault_get(ss, u) is Some && active == Some(u) {
        Some(Some(rest[0].username@))
    } else {
        None
    }
}

/// `Some(Some(u))` for `SetTo(u)`, `Some(None)` for `Clear`, `None` for `Keep`.
pub open spec fn active_cookie_view(a: ActiveCookie) -> Option<Option<Seq<char>>> {
    match a {
        ActiveCookie::SetTo(u) => Some(Some(u@)),
        ActiveCookie::Clear => Some(None),
        ActiveCookie::Keep => None,
    }
}

/// Adds a signed-in session to the browser's vault (an empty vault when it
/// has none), replacing an older session of the same user, and names the
/// account that becomes active: the new session's.
pub fn add_session_to_vault(existing: Option<SessionVault>, session: SessionData) -> (r: (SessionVault, String))
    ensures
        r.0.sessions@ == crate::auth::vault_add(
            match existing {
                Some(v) => v.sessions@,
                None => Seq::<SessionData>::empty(),
            },
            session,
        ),
        r.1@ == session.username@,
{
    let mut vault = match existing {
        Some(v) => v,
        None => SessionVault::new(),
    };
    let active = session.username.clone();
    vault.add(session);
    (vault, active)
}

/// Removes `username` from the vault and says what to do with the
/// active-account cookie, whose current value is `active`.
pub fn plan_removal(vault: SessionVault, username: &str, active: Option<&str>) -> (r: (SessionVault, ActiveCookie))
    ensures
        r.0.sessions@ == without_user(vault.sessions@, username@),
        active_cookie_view(r.1) == removal_active(vault.sessions@, username@, opt_str(active)),
{
    let mut vault = vault;
    let had = vault.get(username).is_some();
    let was_active = match active {
        Some(a) => str_eq(a, username),
        None => false,
    };
    vault.remove(username);
    let next = if vault.sessions.len() == 0 {
        ActiveCookie::Clear
    } else if had && was_active {
        match vault.active_session() {
            Some(first) => ActiveCookie::SetTo(first.username.clone()),
            None => ActiveCookie::Clear,
        }
    } else {
        ActiveCookie::Keep
    };
    (vault, next)
}

/// The configured OAuth client id is usable when it is not blank and not the
/// word `placeholder` in any ASCII case.
pub open spec fn client_id_usable(id: Seq<char>) -> bool {
    trim_seq(id).len() > 0 && !eq_ignore_ascii_case(id, "placeholder"@)
}

pub fn oauth_client_id(configured: Option<&str>) -> (r: Option<String>)
    ensures
        view_string(r) == match configured {
            Some(id) => if client_id_usable(id@) { Some(id@) } else { None },
            None => None,
        },
{
    match configured {
        Some(id) => {
            let t = trim(id);
            if t.as_str().is_empty() || str_eq_ignore_ascii_case(id, "placeholder") {
                None
            } else {
                Some(owned(id))
            }
        },
        None => None,
    }
}

/// Percent-encoding of a string's UTF-8 bytes, letters and digits kept.
pub open spec fn pct(s: Seq<char>) -> Seq<char> {
    pct_bytes(encode_utf8(s))
}

/// Reddit's consent-page URL for a client id, CSRF state and redirect URI.
pub open spec fn authorize_url_spec(client_id: Seq<char>, state: Seq<char>, redirect_uri: Seq<char>) -> Seq<char> {
    "https://www.reddit.com/api/v1/authorize?client_id="@ + pct(client_id) + "&response_type=code&state="@ + state
        + "&redirect_uri="@ + pct(redirect_uri) + "&duration=permanent&scope="@ + oauth_scopes()
}

pub fn authorize_url(client_id: &str, state: &str, redirect_uri: &str) -> (r: String)
    ensures
        r@ == authorize_url_spec(client_id@, state@, redirect_uri@),
{
    let mut u = owned("https://www.reddit.com/api/v1/authorize?client_id=");
    push_str(&mut u, percent_encode(client_id).as_str());
    push_str(&mut u, "&response_type=code&state=");
    push_str(&mut u, state);
    push_str(&mut u, "&redirect_uri=");
    push_str(&mut u, percent_encode(redirect_uri).as_str());
    push_str(&mut u, "&duration=permanent&scope=");
    push_str(&mut u, "identity read vote subscribe history save submit privatemessages");
    u
}

/// The checks on Reddit's redirect back to `/auth/callback`, in order: the
/// `state` parameter, the CSRF cookie and their
/// equality, an `error` parameter, then the `code` parameter, which is
/// returned.
pub open spec fn callback_spec(
    state: Option<Seq<char>>,
    cookie: Option<Seq<char>>,
    error: Option<Seq<char>>,
    code: Option<Seq<char>>,
) -> Result<Seq<char>, Seq<char>> {
    if state is None {
        Err("Missing 'state' parameter in callback"@)
    } else if cookie is None {
        Err("Missing CSRF cookie \u{2014} possible CSRF attack or cookie expired"@)
    } else if state->0 != cookie->0 {
        Err("CSRF state mismatch \u{2014} possible CSRF attack"@)
    } else if error is Some {
        Err("Reddit OAuth error: "@ + error->0)
    } else if code is None {
        Err("Missing 'code' parameter in callback"@)
    } else {
        Ok(code->0)
    }
}

pub open spec fn result_view(r: Result<String, String>) -> Result<Seq<char>, Seq<char>> {
    match r {
        Ok(v) => Ok(v@),
        Err(e) => Err(e@),
    }
}

/// The OAuth settings a callback needs; each missing one is its own error.
pub fn check_oauth_settings(client_id: Option<&str>, client_secret: Option<&str>, redirect_uri: Option<&str>) -> (r: Result<(), String>)
    ensures
        match r {
            Ok(()) => client_id is Some && client_secret is Some && redirect_uri is Some,
            Err(e) => if client_id is None {
                e@ == "REDLIB_OAUTH_CLIENT_ID is not configured"@
            } else if client_secret is None {
                e@ == "REDLIB_OAUTH_CLIENT_SECRET is not configured"@
            } else {
                redirect_uri is None && e@ == "REDLIB_OAUTH_REDIRECT_URI is not configured"@
            },
        },
{
    if client_id.is_none() {
        Err(owned("REDLIB_OAUTH_CLIENT_ID is not configured"))
    } else if client_secret.is_none() {
        Err(owned("REDLIB_OAUTH_CLIENT_SECRET is not configured"))
    } else if redirect_uri.is_none() {
        Err(owned("REDLIB_OAUTH_REDIRECT_URI is not configured"))
    } else {
        Ok(())
    }
}

/// The request checks of the OAuth callback, once the settings are present.
pub fn check_oauth_callback(
    state: Option<&str>,
    cookie: Option<&str>,
    error: Option<&str>,
    code: Option<&str>,
) -> (r: Result<String, String>)
    ensures
        result_view(r) == callback_spec(opt_str(state), opt_str(cookie), opt_str(error), opt_str(code)),
{
    let st = match state {
        Some(s) => s,
        None => {
            return Err(owned("Missing 'state' parameter in callback"));
        },
    };
    let ck = match cookie {
        Some(c) => c,
        None => {
            return Err(owned("Missing CSRF cookie \u{2014} possible CSRF attack or cookie expired"));
        },
    };
    if !str_eq(st, ck) {
        return Err(owned("CSRF state mismatch \u{2014} possible CSRF attack"));
    }
    if let Some(e) = error {
        return Err(concat2("Reddit OAuth error: ", e));
    }
    match code {
        Some(c) => Ok(owned(c)),
        None => Err(owned("Missing 'code' parameter in callback")),
    }
}

/// Form body of the authorization-code exchange.
pub fn token_request_body(code: &str, redirect_uri: &str) -> (r: String)
    ensures
        r@ == "grant_type=authorization_code&code="@ + pct(code@) + "&redirect_uri="@ + pct(redirect_uri@),
{
    let mut b = owned("grant_type=authorization_code&code=");
    push_str(&mut b, percent_encode(code).as_str());
    push_str(&mut b, "&redirect_uri=");
    push_str(&mut b, percent_encode(redirect_uri).as_str());
    b
}

/// Form body of the refresh-token exchange.
pub fn refresh_request_body(refresh_token: &str) -> (r: String)
    ensures
        r@ == "grant_type=refresh_token&refresh_token="@ + pct(refresh_token@),
{
    let mut b = owned("grant_type=refresh_token&refresh_token=");
    push_str(&mut b, percent_encode(refresh_token).as_str());
    b
}

/// `Authorization` header value for the token endpoint: HTTP Basic with the
/// client id and secret.
pub fn basic_credentials(client_id: &str, client_secret: &str) -> (r: String)
    ensures
        r@ == "Basic "@ + base64_std_encode(encode_utf8(client_id@ + ":"@ + client_secret@)),
{
    let mut joined = owned(client_id);
    push_str(&mut joined, ":");
    push_str(&mut joined, client_secret);
    let enc = b64_std_encode(joined.as_str().as_bytes());
    concat2("Basic ", enc.as_str())
}

/// The new access token and its lifetime in seconds from a refresh response:
/// the `access_token` string is required, `expires_in` defaults to 3600.
pub fn refresh_response_fields(bytes: &[u8]) -> (r: Result<(String, i64), String>)
    ensures
        match json_str_field(bytes@, "access_token"@) {
            None => r matches Err(e) && e@ == "Missing access_token in refresh response"@,
            Some(t) => r matches Ok(p) && p.0@ == t && p.1 == match json_i64_field(bytes@, "expires_in"@) {
                Some(n) => n,
                None => 3600i64,
            },
        },
{
    let token = match json_field_str(bytes, "access_token") {
        Some(t) => t,
        None => {
            return Err(owned("Missing access_token in refresh response"));
        },
    };
    let expires_in = match json_field_i64(bytes, "expires_in") {
        Some(n) => n,
        None => 3600,
    };
    Ok((token, expires_in))
}

/// The `name` field of Reddit's `/api/v1/me` response.
pub fn me_username(bytes: &[u8]) -> (r: Option<String>)
    ensures
        view_string(r) == json_str_field(bytes@, "name"@),
{
    json_field_str(bytes, "name")
}

/// The username a new session is stored under: what Reddit reported, or
/// `unknown` when it could not be read.
pub fn session_username(fetched: Option<String>) -> (r: String)
    ensures
        r@ == match view_string(fetched) {
            Some(u) => u,
            None => "unknown"@,
        },
{
    match fetched {
        Some(u) => u,
        None => owned("unknown"),
    }
}

/// A session from a token imported out of a browser: no refresh token, valid
/// for six hours from `now`.
pub fn browser_import_session(bearer_token: String, username: String, now: i64, csrf_token: String) -> (r: SessionData)
    requires
        now + 21600 <= i64::MAX,
    ensures
        r.access_token == bearer_token,
        r.refresh_token@ == Seq::<char>::empty(),
        r.username == username,
        r.expires_at == now + 21600,
        r.csrf_token == csrf_token,
{
    SessionData { access_token: bearer_token, refresh_token: String::new(), username, expires_at: now + 21600, csrf_token }
}

/// A session from Reddit's token exchange, valid for `expires_in` seconds from
/// `now`.
pub fn oauth_session(
    access_token: String,
    refresh_token: String,
    username: String,
    now: i64,
    expires_in: u64,
    csrf_token: String,
) -> (r: SessionData)
    requires
        expires_in <= i64::MAX,
        now + expires_in <= i64::MAX,
    ensures
        r.access_token == access_token,
        r.refresh_token == refresh_token,
        r.username == username,
        r.expires_at == now + expires_in,
        r.csrf_token == csrf_token,
{
    SessionData { access_token, refresh_token, username, expires_at: now + (expires_in as i64), csrf_token }
}

/// The start of a Reddit login: a fresh random state (a UUID, also kept in
/// the CSRF cookie) and the consent-page URL that carries it.
pub fn oauth_login_start(client_id: &str, redirect_uri: &str) -> (r: (String, String))
    ensures
        r.0@.len() == 36,
        r.1@ == authorize_url_spec(client_id@, r.0@, redirect_uri@),
{
    let state = crate::crypto::new_uuid_v4();
    let url = authorize_url(client_id, state.as_str(), redirect_uri);
    (state, url)
}

/// The SSH host and user the login page offers: the configured ones, else
/// the built-in defaults.
pub fn login_page_defaults(ssh_host: Option<&str>, ssh_user: Option<&str>) -> (r: (String, String))
    ensures
        r.0@ == match ssh_host {
            Some(h) => h@,
            None => "kspld0"@,
        },
        r.1@ == match ssh_user {
            Some(u) => u@,
            None => "keith"@,
        },
{
    let h = match ssh_host {
        Some(h) => owned(h),
        None => owned("kspld0"),
    };
    let u = match ssh_user {
        Some(u) => owned(u),
        None => owned("keith"),
    };
    (h, u)
}

/// What logging out does.
#[derive(Debug)]
pub enum LogoutStep {
    /// Remove this account's session from the vault.
    RemoveSession(String),
    /// Remove the vault, active-account and subscriptions cookies.
    ClearCookies,
}

/// Logging out: the body must fit the limit and carry the session's CSRF
/// token (`csrf_token`, the last one when repeated; empty when missing);
/// a signed-in account's session is then removed, otherwise the cookies are
/// cleared.
pub fn logout_step(auth: &AuthContext, body: &[u8]) -> (r: Result<LogoutStep, String>)
    ensures
        ({
            let submitted = match crate::settings::form_get(crate::crypto::urlencoded_pairs(body@), "csrf_token"@) {
                Some(v) => v,
                None => Seq::<char>::empty(),
            };
            match r {
                Err(e) => if body@.len() > MAX_BODY_SIZE {
                    e@ == "Request body too large"@
                } else {
                    (auth@ matches AuthView::User(s) && submitted != s.csrf_token@)
                        && e@ == "CSRF token mismatch \u{2014} request rejected"@
                },
                Ok(LogoutStep::RemoveSession(u)) => body@.len() <= MAX_BODY_SIZE
                    && (auth@ matches AuthView::User(s) && submitted == s.csrf_token@ && u@ == s.username@),
                Ok(LogoutStep::ClearCookies) => body@.len() <= MAX_BODY_SIZE && !(auth@ is User),
            }
        }),
{
    if body.len() > MAX_BODY_SIZE {
        return Err(owned("Request body too large"));
    }
    let pairs = crate::crypto::parse_urlencoded(body);
    assert(crate::settings::pair_views(pairs@) =~= crate::crypto::urlencoded_pairs(body@));
    let submitted = match crate::settings::form_value(&pairs, "csrf_token") {
        Some(v) => v,
        None => String::new(),
    };
    match auth {
        AuthContext::UserSession(s) => {
            if !str_eq(submitted.as_str(), s.csrf_token.as_str()) {
                return Err(owned("CSRF token mismatch \u{2014} request rejected"));
            }
            Ok(LogoutStep::RemoveSession(s.username.clone()))
        },
        _ => Ok(LogoutStep::ClearCookies),
    }
}

/// The subscriptions cookie written after fetching the account's
/// subscriptions: the names joined by `+`; none when there are none.
pub fn subscriptions_cookie_value(subs: &Vec<String>) -> (r: Option<String>)
    ensures
        match r {
            Some(v) => subs@.len() > 0 && v@ == crate::text::seq_join(crate::text::views(subs@), "+"@),
            None => subs@.len() == 0,
        },
{
    if subs.len() == 0 {
        None
    } else {
        Some(crate::text::join(subs, "+"))
    }
}

} // verus!
