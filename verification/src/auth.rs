//! Sessions, the multi-account session vault, and how a request's
//! authentication is resolved.
use vstd::prelude::*;
use crate::crypto::{
    aes256gcm_open, aes256gcm_seal, b64_std_decode, b64_std_encode, b64_url_nopad_decode, base64_std_decode,
    base64_std_encode, base64_url_nopad_decode, gcm_open, gcm_p_max, gcm_seal, hkdf_sha256_32,
    hkdf_sha256_expand32, json_field_str, json_is_value, json_parses, json_str_field, random_nonce, view_bytes, view_string,
};
use vstd::slice::{slice_subrange, slice_to_vec};
use vstd::utf8::encode_utf8;
use crate::text::{
    chars_of, eq_ignore_ascii_case, find_char, first_pos, has_char, owned, parse_u64, parse_u64_spec,
    str_eq, str_eq_ignore_ascii_case, string_of, sub_chars,
};

verus! {

// ----- cookie names -----

/// Name of the session-vault cookie; the `__Host-` prefix is used when cookies
/// are marked secure.
pub fn session_cookie_name(secure: bool) -> (r: &'static str)
    ensures
        r@ == (if secure { "__Host-rl_session"@ } else { "rl_session"@ }),
{
    if secure { "__Host-rl_session" } else { "rl_session" }
}

/// Name of the cookie that records the active account's username.
pub fn active_session_cookie_name(secure: bool) -> (r: &'static str)
    ensures
        r@ == (if secure { "__Host-rl_active"@ } else { "rl_active"@ }),
{
    if secure { "__Host-rl_active" } else { "rl_active" }
}

/// Name of the OAuth state (CSRF) cookie.
pub fn csrf_cookie_name(secure: bool) -> (r: &'static str)
    ensures
        r@ == (if secure { "__Host-rl_csrf"@ } else { "rl_csrf"@ }),
{
    if secure { "__Host-rl_csrf" } else { "rl_csrf" }
}

/// Name of the cookie holding the account's Reddit subscriptions.
pub fn subscriptions_cookie_name(secure: bool) -> (r: &'static str)
    ensures
        r@ == (if secure { "__Host-reddit_subscriptions"@ } else { "reddit_subscriptions"@ }),
{
    if secure { "__Host-reddit_subscriptions" } else { "reddit_subscriptions" }
}

/// A boolean setting is on when it reads `on` or `true` (any ASCII case) or `1`.
pub open spec fn flag_on(v: Seq<char>) -> bool {
    eq_ignore_ascii_case(v, "on"@) || v == "1"@ || eq_ignore_ascii_case(v, "true"@)
}

pub fn flag_setting(setting: Option<&str>) -> (r: bool)
    ensures
        r == (match setting {
            Some(v) => flag_on(v@),
            None => false,
        }),
{
    match setting {
        Some(v) => str_eq_ignore_ascii_case(v, "on") || str_eq(v, "1") || str_eq_ignore_ascii_case(v, "true"),
        None => false,
    }
}

/// Whether cookies carry the `Secure` attribute, from `REDLIB_SECURE_COOKIES`.
pub fn secure_cookies(setting: Option<&str>) -> (r: bool)
    ensures
        r == (match setting {
            Some(v) => flag_on(v@),
            None => false,
        }),
{
    flag_setting(setting)
}

/// Whether SSH host keys must already be known, from
/// `REDLIB_SSH_STRICT_HOST_KEY_CHECKING`.
pub fn ssh_strict_host_key_checking(setting: Option<&str>) -> (r: bool)
    ensures
        r == (match setting {
            Some(v) => flag_on(v@),
            None => false,
        }),
{
    flag_setting(setting)
}

/// SSH connection timeout in seconds from `REDLIB_SSH_TIMEOUT`; 15 when unset
/// or not a number.
pub fn ssh_timeout(setting: Option<&str>) -> (r: u64)
    ensures
        r == (match setting {
            Some(v) => match parse_u64_spec(v@) {
                Some(n) => n,
                None => 15,
            },
            None => 15,
        }),
{
    match setting {
        Some(v) => match parse_u64(v) {
            Some(n) => n,
            None => 15,
        },
        None => 15,
    }
}

// ----- sessions -----

/// One logged-in Reddit account.
#[derive(Debug)]
pub struct SessionData {
    /// Reddit OAuth access token.
    pub access_token: String,
    /// Reddit OAuth refresh token (empty for imported browser sessions).
    pub refresh_token: String,
    pub username: String,
    /// Unix time at which the access token expires.
    pub expires_at: i64,
    /// Per-session CSRF token embedded in forms.
    pub csrf_token: String,
}

/// A copy of a session.
pub fn copy_session(s: &SessionData) -> (r: SessionData)
    ensures
        r == *s,
{
    SessionData {
        access_token: s.access_token.clone(),
        refresh_token: s.refresh_token.clone(),
        username: s.username.clone(),
        expires_at: s.expires_at,
        csrf_token: s.csrf_token.clone(),
    }
}

/// All sessions of a browser, for account switching; the first is the default.
#[derive(Debug)]
pub struct SessionVault {
    pub sessions: Vec<SessionData>,
}

/// The sessions whose username differs from `u`, in order.
pub open spec fn without_user(ss: Seq<SessionData>, u: Seq<char>) -> Seq<SessionData>
    decreases ss.len(),
{
    if ss.len() == 0 {
        seq![]
    } else if ss.last().username@ == u {
        without_user(ss.drop_last(), u)
    } else {
        without_user(ss.drop_last(), u).push(ss.last())
    }
}

/// The first session of user `u`.
pub open spec fn vault_get(ss: Seq<SessionData>, u: Seq<char>) -> Option<SessionData>
    decreases ss.len(),
{
    if ss.len() == 0 {
        None
    } else {
        match vault_get(ss.drop_last(), u) {
            Some(x) => Some(x),
            None => if ss.last().username@ == u { Some(ss.last()) } else { None },
        }
    }
}

/// The vault after adding `s`: any earlier session of the same user is dropped
/// and `s` goes last.
pub open spec fn vault_add(ss: Seq<SessionData>, s: SessionData) -> Seq<SessionData> {
    without_user(ss, s.username@).push(s)
}

/// No two sessions belong to the same user.
pub open spec fn unique_users(ss: Seq<SessionData>) -> bool {
    forall|i: int, j: int| 0 <= i < j < ss.len() ==> ss[i].username@ != ss[j].username@
}

fn filter_out_user(ss: &Vec<SessionData>, u: &String) -> (r: Vec<SessionData>)
    ensures
        r@ == without_user(ss@, u@),
{
    let mut r: Vec<SessionData> = Vec::new();
    let mut i: usize = 0;
    while i < ss.len()
        invariant
            i <= ss@.len(),
            r@ == without_user(ss@.take(i as int), u@),
        decreases ss@.len() - i,
    {
        assert(ss@.take(i + 1).drop_last() =~= ss@.take(i as int));
        if ss[i].username != *u {
            r.push(copy_session(&ss[i]));
        }
        i += 1;
    }
    assert(ss@.take(i as int) =~= ss@);
    r
}

impl SessionVault {
    pub fn new() -> (v: SessionVault)
        ensures
            v.sessions@ == Seq::<SessionData>::empty(),
    {
        SessionVault { sessions: Vec::new() }
    }

    /// Adds a session, replacing any existing session of the same username.
    pub fn add(&mut self, session: SessionData)
        ensures
            final(self).sessions@ == vault_add(old(self).sessions@, session),
    {
        let mut kept = filter_out_user(&self.sessions, &session.username);
        kept.push(session);
        self.sessions = kept;
    }

    /// Removes every session of `username`.
    pub fn remove(&mut self, username: &str)
        ensures
            final(self).sessions@ == without_user(old(self).sessions@, username@),
    {
        let u = owned(username);
        self.sessions = filter_out_user(&self.sessions, &u);
    }

    /// The session of `username`, if any.
    pub fn get(&self, username: &str) -> (r: Option<&SessionData>)
        ensures
            match r {
                Some(s) => vault_get(self.sessions@, username@) == Some(*s),
                None => vault_get(self.sessions@, username@) is None,
            },
    {
        let u = owned(username);
        let mut i: usize = 0;
        while i < self.sessions.len()
            invariant
                i <= self.sessions@.len(),
                u@ == username@,
                vault_get(self.sessions@.take(i as int), username@) is None,
            decreases self.sessions@.len() - i,
        {
            assert(self.sessions@.take(i + 1).drop_last() =~= self.sessions@.take(i as int));
            if self.sessions[i].username == u {
                proof {
                    lemma_vault_get_prefix(self.sessions@, username@, i + 1);
                }
                return Some(&self.sessions[i]);
            }
            i += 1;
        }
        assert(self.sessions@.take(i as int) =~= self.sessions@);
        None
    }

    /// The default session: the first one.
    pub fn active_session(&self) -> (r: Option<&SessionData>)
        ensures
            match r {
                Some(s) => self.sessions@.len() > 0 && *s == self.sessions@[0],
                None => self.sessions@.len() == 0,
            },
    {
        if self.sessions.len() > 0 {
            Some(&self.sessions[0])
        } else {
            None
        }
    }

    /// The usernames of all sessions, in order.
    pub fn usenames(&self) -> (r: Vec<String>)
        ensures
            r@.len() == self.sessions@.len(),
            forall|k: int| 0 <= k < r@.len() ==> #[trigger] r@[k]@ == self.sessions@[k].username@,
    {
        let mut r: Vec<String> = Vec::new();
        let mut i: usize = 0;
        while i < self.sessions.len()
            invariant
                i <= self.sessions@.len(),
                r@.len() == i,
                forall|k: int| 0 <= k < i ==> #[trigger] r@[k]@ == self.sessions@[k].username@,
            decreases self.sessions@.len() - i,
        {
            r.push(self.sessions[i].username.clone());
            i += 1;
        }
        r
    }
}

impl Default for SessionVault {
    fn default() -> (v: SessionVault)
        ensures
            v.sessions@ == Seq::<SessionData>::empty(),
    {
        SessionVault::new()
    }
}

/// Once a session of `u` occurs among the first `t` sessions, the first one is
/// what `vault_get` finds in the whole vault.
proof fn lemma_vault_get_prefix(ss: Seq<SessionData>, u: Seq<char>, t: int)
    requires
        0 <= t <= ss.len(),
        vault_get(ss.take(t), u) is Some,
    ensures
        vault_get(ss, u) == vault_get(ss.take(t), u),
    decreases ss.len() - t,
{
    if t < ss.len() {
        assert(ss.take(t + 1).drop_last() =~= ss.take(t));
        lemma_vault_get_prefix(ss, u, t + 1);
    } else {
        assert(ss.take(t) =~= ss);
    }
}

// ----- laws of the vault -----

/// After removing a user's sessions, none of that user is left.
pub proof fn lemma_without_user_gone(ss: Seq<SessionData>, u: Seq<char>)
    ensures
        vault_get(without_user(ss, u), u) is None,
    decreases ss.len(),
{
    if ss.len() > 0 {
        lemma_without_user_gone(ss.drop_last(), u);
        let w = without_user(ss.drop_last(), u);
        if ss.last().username@ != u {
            assert(w.push(ss.last()).drop_last() =~= w);
        }
    }
}

/// Removing one user's sessions does not change what another user gets.
pub proof fn lemma_without_user_others(ss: Seq<SessionData>, u: Seq<char>, v: Seq<char>)
    requires
        u != v,
    ensures
        vault_get(without_user(ss, u), v) == vault_get(ss, v),
    decreases ss.len(),
{
    if ss.len() > 0 {
        lemma_without_user_others(ss.drop_last(), u, v);
        let w = without_user(ss.drop_last(), u);
        if ss.last().username@ != u {
            assert(w.push(ss.last()).drop_last() =~= w);
        }
    }
}

/// A session read back after adding it is the session added.
pub proof fn lemma_vault_add_get(ss: Seq<SessionData>, s: SessionData)
    ensures
        vault_get(vault_add(ss, s), s.username@) == Some(s),
{
    let w = without_user(ss, s.username@);
    lemma_without_user_gone(ss, s.username@);
    assert(w.push(s).drop_last() =~= w);
}

/// Adding a session leaves every other user's session as it was.
pub proof fn lemma_vault_add_others(ss: Seq<SessionData>, s: SessionData, v: Seq<char>)
    requires
        v != s.username@,
    ensures
        vault_get(vault_add(ss, s), v) == vault_get(ss, v),
{
    let w = without_user(ss, s.username@);
    lemma_without_user_others(ss, s.username@, v);
    assert(w.push(s).drop_last() =~= w);
}

proof fn lemma_without_user_members(ss: Seq<SessionData>, u: Seq<char>)
    ensures
        forall|i: int| 0 <= i < without_user(ss, u).len() ==> {
            let x = #[trigger] without_user(ss, u)[i];
            x.username@ != u && exists|k: int| 0 <= k < ss.len() && ss[k] == x
        },
        unique_users(ss) ==> unique_users(without_user(ss, u)),
    decreases ss.len(),
{
    if ss.len() > 0 {
        let p = ss.drop_last();
        lemma_without_user_members(p, u);
        let w = without_user(p, u);
        assert forall|i: int| 0 <= i < without_user(ss, u).len() implies {
            let x = #[trigger] without_user(ss, u)[i];
            x.username@ != u && exists|k: int| 0 <= k < ss.len() && ss[k] == x
        } by {
            let x = without_user(ss, u)[i];
            if ss.last().username@ != u && i == w.len() {
                assert(ss[ss.len() - 1] == x);
            } else {
                assert(w[i] == x);
                let k = choose|k: int| 0 <= k < p.len() && p[k] == x;
                assert(ss[k] == x);
            }
        }
        if unique_users(ss) {
            assert(unique_users(p));
            if ss.last().username@ != u {
                let r = w.push(ss.last());
                assert forall|i: int, j: int| 0 <= i < j < r.len() implies r[i].username@ != r[j].username@ by {
                    if j == w.len() {
                        assert(r[i] == w[i]);
                        let k = choose|k: int| 0 <= k < p.len() && p[k] == w[i];
                        assert(ss[k] == w[i]);
                    } else {
                        assert(r[i] == w[i] && r[j] == w[j]);
                    }
                }
            }
        }
    }
}

/// Adding a session keeps usernames unique across the vault.
pub proof fn lemma_vault_add_unique(ss: Seq<SessionData>, s: SessionData)
    requires
        unique_users(ss),
    ensures
        unique_users(vault_add(ss, s)),
{
    let w = without_user(ss, s.username@);
    lemma_without_user_members(ss, s.username@);
    let r = w.push(s);
    assert forall|i: int, j: int| 0 <= i < j < r.len() implies r[i].username@ != r[j].username@ by {
        if j == w.len() {
            assert(r[i] == w[i]);
        } else {
            assert(r[i] == w[i] && r[j] == w[j]);
        }
    }
}

/// Removing a user's sessions keeps usernames unique.
pub proof fn lemma_vault_remove_unique(ss: Seq<SessionData>, u: Seq<char>)
    requires
        unique_users(ss),
    ensures
        unique_users(without_user(ss, u)),
{
    lemma_without_user_members(ss, u);
}

// ----- the resolved authentication of a request -----

/// How a request is authenticated.
#[derive(Debug)]
pub enum AuthContext {
    /// A logged-in Reddit account.
    UserSession(SessionData),
    /// A bearer token configured for the whole instance.
    RawBearer(String),
    /// No credentials.
    Anonymous,
}

/// What an `AuthContext` holds, with strings as character sequences.
pub enum AuthView {
    User(SessionData),
    Bearer(Seq<char>),
    Anonymous,
}

impl View for AuthContext {
    type V = AuthView;

    open spec fn view(&self) -> AuthView {
        match self {
            AuthContext::UserSession(s) => AuthView::User(*s),
            AuthContext::RawBearer(t) => AuthView::Bearer(t@),
            AuthContext::Anonymous => AuthView::Anonymous,
        }
    }
}

/// The segment of a `header.payload.signature` token between its first and
/// second dot (up to the end when there is no second dot); `None` without a dot.
pub open spec fn jwt_payload(s: Seq<char>) -> Option<Seq<char>> {
    if !has_char(s, '.') {
        None
    } else {
        let rest = s.subrange(first_pos(s, '.') + 1, s.len() as int);
        if has_char(rest, '.') {
            Some(rest.take(first_pos(rest, '.')))
        } else {
            Some(rest)
        }
    }
}

/// The first of three candidate fields that is present and non-empty.
pub open spec fn first_nonempty_spec(a: Option<Seq<char>>, b: Option<Seq<char>>, c: Option<Seq<char>>) -> Option<Seq<char>> {
    if a is Some && a->0.len() > 0 {
        a
    } else if b is Some && b->0.len() > 0 {
        b
    } else if c is Some && c->0.len() > 0 {
        c
    } else {
        None
    }
}

/// The bearer token inside a decoded JWT payload: its `access_token`, `token`
/// or `accessToken` string field, the first one present and non-empty.
pub open spec fn token_in_payload(bytes: Seq<u8>) -> Option<Seq<char>> {
    first_nonempty_spec(
        json_str_field(bytes, "access_token"@),
        json_str_field(bytes, "token"@),
        json_str_field(bytes, "accessToken"@),
    )
}

/// What `decode_browser_token` returns for `raw`: the token in the payload of
/// a JWT; `raw` itself when it is no JWT (fewer than two `.`-separated parts,
/// a payload that is not base64url, or one that is not JSON); `None` for a
/// JWT whose payload carries no token.
pub open spec fn browser_token_spec(raw: Seq<char>) -> Option<Seq<char>> {
    match jwt_payload(raw) {
        None => Some(raw),
        Some(p) => match base64_url_nopad_decode(p) {
            None => Some(raw),
            Some(bytes) => if json_parses(bytes) {
                token_in_payload(bytes)
            } else {
                Some(raw)
            },
        },
    }
}

/// The payload segment of a JWT-shaped token.
pub fn jwt_payload_segment(raw: &str) -> (r: Option<String>)
    ensures
        view_string(r) == jwt_payload(raw@),
{
    let cs = chars_of(raw);
    match find_char(&cs, '.') {
        None => None,
        Some(p) => {
            let n = cs.len();
            let rest = sub_chars(&cs, p + 1, n);
            match find_char(&rest, '.') {
                None => Some(string_of(&rest)),
                Some(q) => {
                    let seg = sub_chars(&rest, 0, q);
                    assert(seg@ =~= rest@.take(q as int));
                    Some(string_of(&seg))
                },
            }
        },
    }
}

/// The first of three optional strings that is present and non-empty.
pub fn first_nonempty(a: Option<String>, b: Option<String>, c: Option<String>) -> (r: Option<String>)
    ensures
        view_string(r) == first_nonempty_spec(view_string(a), view_string(b), view_string(c)),
{
    match a {
        Some(t) if !t.as_str().is_empty() => {
            return Some(t);
        },
        _ => {},
    }
    match b {
        Some(t) if !t.as_str().is_empty() => {
            return Some(t);
        },
        _ => {},
    }
    match c {
        Some(t) if !t.as_str().is_empty() => Some(t),
        _ => None,
    }
}

/// The bearer token carried by a browser-exported `token_v2` JWT: the payload
/// segment is base64url-decoded and read as JSON. Input that is not a JWT is
/// given back as it is, to be used as a raw bearer token.
pub fn decode_browser_token(raw: &str) -> (r: Option<String>)
    ensures
        view_string(r) == browser_token_spec(raw@),
{
    let seg = match jwt_payload_segment(raw) {
        Some(s) => s,
        None => {
            return Some(owned(raw));
        },
    };
    let bytes = match b64_url_nopad_decode(seg.as_str()) {
        Some(b) => b,
        None => {
            return Some(owned(raw));
        },
    };
    if !json_is_value(bytes.as_slice()) {
        return Some(owned(raw));
    }
    let a = json_field_str(bytes.as_slice(), "access_token");
    let b = json_field_str(bytes.as_slice(), "token");
    let c = json_field_str(bytes.as_slice(), "accessToken");
    first_nonempty(a, b, c)
}

/// A session is still usable at time `now` when it expires more than 30
/// seconds in the past or later.
pub open spec fn session_live(s: SessionData, now: int) -> bool {
    s.expires_at > now - 30
}

/// The first usable session in `ss`.
pub open spec fn first_live(ss: Seq<SessionData>, now: int) -> Option<SessionData>
    decreases ss.len(),
{
    if ss.len() == 0 {
        None
    } else {
        match first_live(ss.drop_last(), now) {
            Some(x) => Some(x),
            None => if session_live(ss.last(), now) { Some(ss.last()) } else { None },
        }
    }
}

pub open spec fn nonempty_opt(o: Option<Seq<char>>) -> bool {
    o is Some && o->0.len() > 0
}

/// The account a vault resolves to: the active user's session when it is
/// usable, else the first usable session.
pub open spec fn vault_choice(ss: Seq<SessionData>, active: Option<Seq<char>>, now: int) -> Option<SessionData> {
    match active {
        Some(u) => match vault_get(ss, u) {
            Some(s) => if session_live(s, now) { Some(s) } else { first_live(ss, now) },
            None => first_live(ss, now),
        },
        None => first_live(ss, now),
    }
}

/// Resolution order: a configured raw token, then a configured browser token
/// (decoded when it is a JWT, else used as it is), then the session vault,
/// then anonymous.
pub open spec fn resolve_spec(
    raw: Option<Seq<char>>,
    browser: Option<Seq<char>>,
    vault: Option<Seq<SessionData>>,
    active: Option<Seq<char>>,
    now: int,
) -> AuthView {
    if nonempty_opt(raw) {
        AuthView::Bearer(raw->0)
    } else if nonempty_opt(browser) {
        match browser_token_spec(browser->0) {
            Some(t) => AuthView::Bearer(t),
            None => AuthView::Bearer(browser->0),
        }
    } else {
        match vault {
            Some(ss) => match vault_choice(ss, active, now) {
                Some(s) => AuthView::User(s),
                None => AuthView::Anonymous,
            },
            None => AuthView::Anonymous,
        }
    }
}

pub open spec fn opt_str(o: Option<&str>) -> Option<Seq<char>> {
    match o {
        Some(s) => Some(s@),
        None => None,
    }
}

pub open spec fn opt_vault(o: Option<&SessionVault>) -> Option<Seq<SessionData>> {
    match o {
        Some(v) => Some(v.sessions@),
        None => None,
    }
}

fn first_live_session(ss: &Vec<SessionData>, now: i64) -> (r: Option<SessionData>)
    ensures
        r == first_live(ss@, now as int),
{
    let mut i: usize = 0;
    while i < ss.len()
        invariant
            i <= ss@.len(),
            first_live(ss@.take(i as int), now as int) is None,
        decreases ss@.len() - i,
    {
        assert(ss@.take(i + 1).drop_last() =~= ss@.take(i as int));
        if (ss[i].expires_at as i128) > (now as i128) - 30 {
            proof {
                lemma_first_live_prefix(ss@, now as int, i + 1);
            }
            return Some(copy_session(&ss[i]));
        }
        i += 1;
    }
    assert(ss@.take(i as int) =~= ss@);
    None
}

proof fn lemma_first_live_prefix(ss: Seq<SessionData>, now: int, t: int)
    requires
        0 <= t <= ss.len(),
        first_live(ss.take(t), now) is Some,
    ensures
        first_live(ss, now) == first_live(ss.take(t), now),
    decreases ss.len() - t,
{
    if t < ss.len() {
        assert(ss.take(t + 1).drop_last() =~= ss.take(t));
        lemma_first_live_prefix(ss, now, t + 1);
    } else {
        assert(ss.take(t) =~= ss);
    }
}

impl AuthContext {
    /// Resolves a request's authentication from the configured raw and browser
    /// tokens, the decrypted session vault, the active-account cookie and the
    /// current Unix time.
    pub fn resolve(
        raw_token: Option<&str>,
        browser_token: Option<&str>,
        vault: Option<&SessionVault>,
        active: Option<&str>,
        now: i64,
    ) -> (r: AuthContext)
        ensures
            r@ == resolve_spec(opt_str(raw_token), opt_str(browser_token), opt_vault(vault), opt_str(active), now as int),
    {
        match raw_token {
            Some(t) if !t.is_empty() => {
                return AuthContext::RawBearer(owned(t));
            },
            _ => {},
        }
        match browser_token {
            Some(raw) if !raw.is_empty() => {
                return match decode_browser_token(raw) {
                    Some(b) => AuthContext::RawBearer(b),
                    None => AuthContext::RawBearer(owned(raw)),
                };
            },
            _ => {},
        }
        match vault {
            None => AuthContext::Anonymous,
            Some(v) => {
                if let Some(u) = active {
                    if let Some(s) = v.get(u) {
                        if (s.expires_at as i128) > (now as i128) - 30 {
                            return AuthContext::UserSession(copy_session(s));
                        }
                    }
                }
                match first_live_session(&v.sessions, now) {
                    Some(s) => AuthContext::UserSession(s),
                    None => AuthContext::Anonymous,
                }
            },
        }
    }

    /// The usernames of the vault, for the account switcher; empty without one.
    pub fn all_usernames(vault: Option<&SessionVault>) -> (r: Vec<String>)
        ensures
            match vault {
                Some(v) => r@.len() == v.sessions@.len() && forall|k: int|
                    0 <= k < r@.len() ==> #[trigger] r@[k]@ == v.sessions@[k].username@,
                None => r@.len() == 0,
            },
    {
        match vault {
            Some(v) => v.usenames(),
            None => Vec::new(),
        }
    }

    /// The username to display: the active-account cookie when the vault has
    /// that user, else the vault's first session's user.
    pub fn active_username(vault: Option<&SessionVault>, active: Option<&str>) -> (r: Option<String>)
        ensures
            view_string(r) == match vault {
                None => None,
                Some(v) => match active {
                    Some(a) if vault_get(v.sessions@, a@) is Some => Some(a@),
                    _ => if v.sessions@.len() > 0 { Some(v.sessions@[0].username@) } else { None },
                },
            },
    {
        match vault {
            None => None,
            Some(v) => {
                if let Some(a) = active {
                    if v.get(a).is_some() {
                        return Some(owned(a));
                    }
                }
                match v.active_session() {
                    Some(s) => Some(s.username.clone()),
                    None => None,
                }
            },
        }
    }

    /// The bearer token for authenticated API calls.
    pub fn bearer_token(&self) -> (r: Option<&str>)
        ensures
            opt_str(r) == match self@ {
                AuthView::User(s) => Some(s.access_token@),
                AuthView::Bearer(t) => Some(t),
                AuthView::Anonymous => None,
            },
    {
        match self {
            AuthContext::UserSession(s) => Some(s.access_token.as_str()),
            AuthContext::RawBearer(t) => Some(t.as_str()),
            AuthContext::Anonymous => None,
        }
    }

    /// The logged-in username.
    pub fn username(&self) -> (r: Option<&str>)
        ensures
            opt_str(r) == match self@ {
                AuthView::User(s) => Some(s.username@),
                _ => None,
            },
    {
        match self {
            AuthContext::UserSession(s) => Some(s.username.as_str()),
            _ => None,
        }
    }

    /// The CSRF token for forms; empty unless a user is logged in.
    pub fn csrf_token(&self) -> (r: String)
        ensures
            r@ == match self@ {
                AuthView::User(s) => s.csrf_token@,
                _ => Seq::<char>::empty(),
            },
    {
        match self {
            AuthContext::UserSession(s) => s.csrf_token.clone(),
            _ => String::new(),
        }
    }

    /// Whether a user session or a bearer token is present.
    pub fn is_authenticated(&self) -> (r: bool)
        ensures
            r == !(self@ is Anonymous),
    {
        match self {
            AuthContext::Anonymous => false,
            _ => true,
        }
    }

    /// The session, when a user is logged in.
    pub fn session_data(&self) -> (r: Option<&SessionData>)
        ensures
            match r {
                Some(s) => self@ == AuthView::User(*s),
                None => !(self@ is User),
            },
    {
        match self {
            AuthContext::UserSession(s) => Some(s),
            _ => None,
        }
    }
}

/// A submitted form's CSRF token must equal the session's; without a user
/// session there is nothing to check.
pub fn validate_csrf_token(auth: &AuthContext, submitted: &str) -> (r: Result<(), String>)
    ensures
        r is Err <==> (auth@ matches AuthView::User(s) && submitted@ != s.csrf_token@),
        r matches Err(e) ==> e@ == "CSRF token mismatch \u{2014} request rejected"@,
{
    if let AuthContext::UserSession(session) = auth {
        if !str_eq(submitted, session.csrf_token.as_str()) {
            return Err(owned("CSRF token mismatch \u{2014} request rejected"));
        }
    }
    Ok(())
}

// ----- encrypted cookie values -----

/// The key that session cookies are sealed with: HKDF-SHA256 of the configured
/// secret with info `redlib-session-v1`, or the process's random key when no
/// secret is configured.
pub open spec fn session_key_spec(secret: Option<Seq<char>>, ephemeral: Seq<u8>) -> Seq<u8> {
    if nonempty_opt(secret) {
        hkdf_sha256_32(encode_utf8(secret->0), encode_utf8("redlib-session-v1"@))
    } else {
        ephemeral
    }
}

pub fn session_key(secret: Option<&str>, ephemeral: &[u8]) -> (r: Vec<u8>)
    requires
        ephemeral@.len() == 32,
    ensures
        r@ == session_key_spec(opt_str(secret), ephemeral@),
        r@.len() == 32,
{
    match secret {
        Some(s) if !s.is_empty() => hkdf_sha256_expand32(s.as_bytes(), "redlib-session-v1".as_bytes()),
        _ => slice_to_vec(ephemeral),
    }
}

/// A sealed cookie value: base64 of the 12-byte nonce followed by the
/// AES-256-GCM ciphertext.
pub open spec fn sealed_cookie_spec(key: Seq<u8>, nonce: Seq<u8>, plaintext: Seq<u8>) -> Seq<char> {
    base64_std_encode(nonce + aes256gcm_seal(key, nonce, plaintext))
}

/// What a sealed cookie value opens to: `None` unless it is base64 of at least
/// 12 bytes whose remainder authenticates under the key and the leading nonce.
pub open spec fn opened_cookie_spec(key: Seq<u8>, text: Seq<char>) -> Option<Seq<u8>> {
    match base64_std_decode(text) {
        None => None,
        Some(b) => if b.len() < 12 {
            None
        } else {
            aes256gcm_open(key, b.take(12), b.skip(12))
        },
    }
}

/// Seals a plaintext into a cookie value with the given nonce. Fails only when
/// the plaintext is longer than AES-GCM accepts. What comes out opens, under
/// the same key, to the plaintext.
pub fn seal_cookie_value(key: &[u8], nonce: &[u8], plaintext: &[u8]) -> (r: Option<String>)
    requires
        key@.len() == 32,
        nonce@.len() == 12,
    ensures
        plaintext@.len() <= gcm_p_max() ==> view_string(r) == Some(sealed_cookie_spec(key@, nonce@, plaintext@)),
        plaintext@.len() > gcm_p_max() ==> r is None,
        r matches Some(t) ==> opened_cookie_spec(key@, t@) == Some(plaintext@),
{
    let ct = match gcm_seal(key, nonce, plaintext) {
        Some(c) => c,
        None => {
            return None;
        },
    };
    let mut combined = slice_to_vec(nonce);
    let mut tail = ct;
    let ghost ctv = tail@;
    combined.append(&mut tail);
    let text = b64_std_encode(combined.as_slice());
    proof {
        assert(combined@.take(12) =~= nonce@);
        assert(combined@.skip(12) =~= ctv);
    }
    Some(text)
}

/// Opens a sealed cookie value (see `opened_cookie_spec`).
pub fn open_cookie_value(key: &[u8], text: &str) -> (r: Option<Vec<u8>>)
    requires
        key@.len() == 32,
    ensures
        view_bytes(r) == opened_cookie_spec(key@, text@),
{
    let combined = match b64_std_decode(text) {
        Ok(b) => b,
        Err(_) => {
            return None;
        },
    };
    let n = combined.len();
    if n < 12 {
        return None;
    }
    let all = combined.as_slice();
    let nonce = slice_subrange(all, 0, 12);
    let body = slice_subrange(all, 12, n);
    assert(nonce@ =~= combined@.take(12));
    assert(body@ =~= combined@.skip(12));
    gcm_open(key, nonce, body)
}

/// Seals a plaintext into a cookie value under a fresh random nonce.
pub fn encrypt_cookie_value(key: &[u8], plaintext: &[u8]) -> (r: Option<String>)
    requires
        key@.len() == 32,
    ensures
        plaintext@.len() <= gcm_p_max() <==> r is Some,
        r matches Some(t) ==> opened_cookie_spec(key@, t@) == Some(plaintext@),
{
    let nonce = random_nonce();
    seal_cookie_value(key, nonce.as_slice(), plaintext)
}


// ----- laws of resolving a request's account -----

proof fn lemma_vault_get_none(ss: Seq<SessionData>, u: Seq<char>)
    requires
        forall|j: int| 0 <= j < ss.len() ==> (#[trigger] ss[j]).username@ != u,
    ensures
        vault_get(ss, u) is None,
    decreases ss.len(),
{
    if ss.len() > 0 {
        let d = ss.drop_last();
        assert forall|j: int| 0 <= j < d.len() implies (#[trigger] d[j]).username@ != u by {
            assert(d[j] == ss[j]);
        }
        lemma_vault_get_none(d, u);
        assert(ss[ss.len() - 1].username@ != u);
    }
}

proof fn lemma_vault_get_first(ss: Seq<SessionData>, u: Seq<char>, i: int)
    requires
        0 <= i < ss.len(),
        ss[i].username@ == u,
        forall|j: int| 0 <= j < i ==> (#[trigger] ss[j]).username@ != u,
    ensures
        vault_get(ss, u) == Some(ss[i]),
    decreases ss.len(),
{
    let d = ss.drop_last();
    if i < ss.len() - 1 {
        assert(d[i] == ss[i]);
        assert forall|j: int| 0 <= j < i implies (#[trigger] d[j]).username@ != u by {
            assert(d[j] == ss[j]);
        }
        lemma_vault_get_first(d, u, i);
    } else {
        assert forall|j: int| 0 <= j < d.len() implies (#[trigger] d[j]).username@ != u by {
            assert(d[j] == ss[j]);
        }
        lemma_vault_get_none(d, u);
    }
}

proof fn lemma_vault_get_member(ss: Seq<SessionData>, u: Seq<char>)
    ensures
        vault_get(ss, u) matches Some(s) ==> ss.contains(s) && s.username@ == u,
    decreases ss.len(),
{
    if ss.len() > 0 {
        let d = ss.drop_last();
        lemma_vault_get_member(d, u);
        if let Some(s) = vault_get(d, u) {
            let m = choose|m: int| 0 <= m < d.len() && d[m] == s;
            assert(ss[m] == s);
        } else if ss.last().username@ == u {
            assert(ss[ss.len() - 1] == ss.last());
        }
    }
}

proof fn lemma_first_live_laws(ss: Seq<SessionData>, now: int)
    ensures
        first_live(ss, now) matches Some(s) ==> ss.contains(s) && s.expires_at > now - 30,
        (exists|i: int| 0 <= i < ss.len() && (#[trigger] ss[i]).expires_at > now - 30) ==> first_live(ss, now) is Some,
    decreases ss.len(),
{
    if ss.len() > 0 {
        let d = ss.drop_last();
        lemma_first_live_laws(d, now);
        if let Some(s) = first_live(d, now) {
            let m = choose|m: int| 0 <= m < d.len() && d[m] == s;
            assert(ss[m] == s);
        } else {
            assert(ss[ss.len() - 1] == ss.last());
            if exists|i: int| 0 <= i < ss.len() && (#[trigger] ss[i]).expires_at > now - 30 {
                let i = choose|i: int| 0 <= i < ss.len() && (#[trigger] ss[i]).expires_at > now - 30;
                if i < ss.len() - 1 {
                    assert(d[i] == ss[i]);
                }
            }
        }
    }
}

/// Without a configured raw or browser token, a request with a session vault
/// is signed in as a usable session of that vault (one that expires more than
/// 30 seconds before now or later) whenever the vault holds one, whatever the
/// active-account cookie names; with no usable session it is anonymous.
pub proof fn lemma_resolve_vault(
    raw: Option<Seq<char>>,
    browser: Option<Seq<char>>,
    ss: Seq<SessionData>,
    active: Option<Seq<char>>,
    now: int,
)
    requires
        raw is None || raw->0.len() == 0,
        browser is None || browser->0.len() == 0,
    ensures
        (exists|i: int| 0 <= i < ss.len() && (#[trigger] ss[i]).expires_at > now - 30)
            ==> (resolve_spec(raw, browser, Some(ss), active, now) matches AuthView::User(s)
                && ss.contains(s) && s.expires_at > now - 30),
        (forall|i: int| 0 <= i < ss.len() ==> (#[trigger] ss[i]).expires_at <= now - 30)
            ==> resolve_spec(raw, browser, Some(ss), active, now) == AuthView::Anonymous,
{
    lemma_first_live_laws(ss, now);
    if let Some(u) = active {
        lemma_vault_get_member(ss, u);
        if let Some(s) = vault_get(ss, u) {
            if forall|i: int| 0 <= i < ss.len() ==> (#[trigger] ss[i]).expires_at <= now - 30 {
                let m = choose|m: int| 0 <= m < ss.len() && ss[m] == s;
                assert(ss[m].expires_at <= now - 30);
            }
        }
    }
    if forall|i: int| 0 <= i < ss.len() ==> (#[trigger] ss[i]).expires_at <= now - 30 {
        if let Some(s) = first_live(ss, now) {
            let m = choose|m: int| 0 <= m < ss.len() && ss[m] == s;
            assert(ss[m].expires_at <= now - 30);
        }
    }
}

/// Without a configured raw or browser token, the account the active-account
/// cookie names is used when its (first) session in the vault is usable.
pub proof fn lemma_resolve_active_account(
    raw: Option<Seq<char>>,
    browser: Option<Seq<char>>,
    ss: Seq<SessionData>,
    now: int,
    i: int,
)
    requires
        raw is None || raw->0.len() == 0,
        browser is None || browser->0.len() == 0,
        0 <= i < ss.len(),
        ss[i].expires_at > now - 30,
        forall|j: int| 0 <= j < i ==> (#[trigger] ss[j]).username@ != ss[i].username@,
    ensures
        resolve_spec(raw, browser, Some(ss), Some(ss[i].username@), now) == AuthView::User(ss[i]),
{
    lemma_vault_get_first(ss, ss[i].username@, i);
}

/// A configured raw token is used as the bearer token, before anything else.
pub proof fn lemma_resolve_raw_first(
    raw: Seq<char>,
    browser: Option<Seq<char>>,
    vault: Option<Seq<SessionData>>,
    active: Option<Seq<char>>,
    now: int,
)
    requires
        raw.len() > 0,
    ensures
        resolve_spec(Some(raw), browser, vault, active, now) == AuthView::Bearer(raw),
{
}

} // verus!

verus! {

/// With a session secret configured, the cookie key depends on the secret
/// alone, not on the process's random key: cookies sealed before a restart
/// still open after it.
pub proof fn lemma_session_key_stable(secret: Seq<char>, before: Seq<u8>, after: Seq<u8>)
    requires
        secret.len() > 0,
    ensures
        session_key_spec(Some(secret), before) == session_key_spec(Some(secret), after),
{
}

} // verus!
