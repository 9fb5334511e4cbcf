//! Preferences kept in cookies: which cookies a settings form or a restore
//! link sets and removes.
use vstd::prelude::*;
use crate::crypto::{parse_urlencoded, urlencoded_pairs};
use crate::subreddit::{join_until_size_limit, join_until_size_limit_spec, numbered_name, split_at_char, split_char};
use crate::text::{
    concat2, contains_seq, dec, owned, push_str, replace_all, replace_str, starts_with_seq, str_contains, str_eq,
    str_starts_with, u64_to_string, views,
};

verus! {

/// The preferences a settings form carries, each in a cookie of its name.
pub open spec fn prefs() -> Seq<Seq<char>> {
    seq![
        "theme"@, "front_page"@, "layout"@, "wide"@, "comment_sort"@, "post_sort"@, "blur_spoiler"@, "show_nsfw"@,
        "blur_nsfw"@, "use_hls"@, "hide_hls_notification"@, "autoplay_videos"@, "hide_sidebar_and_summary"@,
        "fixed_navbar"@, "hide_awards"@, "hide_score"@, "disable_visit_reddit_confirmation"@, "video_quality"@,
        "remove_default_feeds"@, "hide_read"@, "filter_keywords"@, "filter_flairs"@, "filter_domains"@, "font_size"@,
        "show_only_media"@, "enable_offline"@, "use_subreddit_theme"@, "low_data"@
    ]
}

pub fn pref_names() -> (r: Vec<&'static str>)
    ensures
        r@.len() == prefs().len(),
        forall|i: int| 0 <= i < r@.len() ==> #[trigger] r@[i]@ == prefs()[i],
{
    let v = vec![
        "theme", "front_page", "layout", "wide", "comment_sort", "post_sort", "blur_spoiler", "show_nsfw",
        "blur_nsfw", "use_hls", "hide_hls_notification", "autoplay_videos", "hide_sidebar_and_summary",
        "fixed_navbar", "hide_awards", "hide_score", "disable_visit_reddit_confirmation", "video_quality",
        "remove_default_feeds", "hide_read", "filter_keywords", "filter_flairs", "filter_domains", "font_size",
        "show_only_media", "enable_offline", "use_subreddit_theme", "low_data",
    ];
    assert forall|i: int| 0 <= i < v@.len() implies #[trigger] v@[i]@ == prefs()[i] by {}
    v
}

/// The value of `key` in parsed form pairs: the last pair with that name
/// (as collecting them into a map keeps it).
pub open spec fn form_get(pairs: Seq<(Seq<char>, Seq<char>)>, key: Seq<char>) -> Option<Seq<char>>
    decreases pairs.len(),
{
    if pairs.len() == 0 {
        None
    } else if pairs.last().0 == key {
        Some(pairs.last().1)
    } else {
        form_get(pairs.drop_last(), key)
    }
}

pub open spec fn pair_views(v: Seq<(String, String)>) -> Seq<(Seq<char>, Seq<char>)> {
    v.map_values(|p: (String, String)| (p.0@, p.1@))
}

pub fn form_value(pairs: &Vec<(String, String)>, key: &str) -> (r: Option<String>)
    ensures
        crate::crypto::view_string(r) == form_get(pair_views(pairs@), key@),
{
    let ghost pv = pair_views(pairs@);
    let mut i: usize = pairs.len();
    assert(pv.take(i as int) =~= pv);
    while i > 0
        invariant
            i <= pairs@.len(),
            pv == pair_views(pairs@),
            form_get(pv, key@) == form_get(pv.take(i as int), key@),
        decreases i,
    {
        assert(pv.take(i as int).drop_last() =~= pv.take(i - 1));
        assert(pv.take(i as int).last() == (pairs@[i - 1].0@, pairs@[i - 1].1@));
        if str_eq(pairs[i - 1].0.as_str(), key) {
            return Some(pairs[i - 1].1.clone());
        }
        i -= 1;
    }
    None
}

/// Where a restore link returns to: its `redirect` value with `%26` and `%23`
/// decoded, made absolute; `/` without one.
pub open spec fn restore_redirect_spec(redirect: Option<Seq<char>>) -> Seq<char> {
    match redirect {
        Some(v) => {
            let w = replace_all(replace_all(v, "%26"@, "&"@), "%23"@, "#"@);
            if starts_with_seq(w, "/"@) { w } else { "/"@ + w }
        },
        None => "/"@,
    }
}

pub fn restore_redirect(redirect: Option<&str>) -> (r: String)
    ensures
        r@ == restore_redirect_spec(crate::auth::opt_str(redirect)),
{
    match redirect {
        Some(v) => {
            proof {
                reveal_strlit("%26");
                reveal_strlit("%23");
            }
            let a = replace_str(v, "%26", "&");
            let w = replace_str(a.as_str(), "%23", "#");
            if str_starts_with(w.as_str(), "/") { w } else { concat2("/", w.as_str()) }
        },
        None => owned("/"),
    }
}

/// A cookie change.
#[derive(Debug)]
pub enum CookieOp {
    SetCookie(String, String),
    RemoveCookie(String),
}

pub open spec fn op_view(o: CookieOp) -> (bool, Seq<char>, Seq<char>) {
    match o {
        CookieOp::SetCookie(n, v) => (true, n@, v@),
        CookieOp::RemoveCookie(n) => (false, n@, Seq::<char>::empty()),
    }
}

pub open spec fn ops_view(v: Seq<CookieOp>) -> Seq<(bool, Seq<char>, Seq<char>)> {
    v.map_values(|o: CookieOp| op_view(o))
}

/// The preference cookies: each submitted preference is set; a missing one is
/// removed when restoring (kept when updating).
pub open spec fn pref_ops(pairs: Seq<(Seq<char>, Seq<char>)>, names: Seq<Seq<char>>, remove_missing: bool) -> Seq<(bool, Seq<char>, Seq<char>)>
    decreases names.len(),
{
    if names.len() == 0 {
        seq![]
    } else {
        let rest = pref_ops(pairs, names.drop_last(), remove_missing);
        match form_get(pairs, names.last()) {
            Some(v) => rest.push((true, names.last(), v)),
            None => if remove_missing { rest.push((false, names.last(), Seq::<char>::empty())) } else { rest },
        }
    }
}

/// Ten to the power `k`.
pub open spec fn pow10(k: nat) -> nat
    decreases k,
{
    if k == 0 { 1 } else { 10 * pow10((k - 1) as nat) }
}

pub proof fn lemma_dec_below(n: nat)
    ensures
        n < pow10(dec(n).len()),
    decreases n,
{
    if n < 10 {
        assert(dec(n).len() == 1);
        assert(pow10(1) == 10 * pow10(0));
    } else {
        lemma_dec_below(n / 10);
        assert(dec(n).len() == dec(n / 10).len() + 1);
        assert(pow10(dec(n).len()) == 10 * pow10(dec(n / 10).len()));
        assert(n < 10 * pow10(dec(n / 10).len())) by (nonlinear_arith)
            requires
                n / 10 < pow10(dec(n / 10).len()),
        ;
    }
}

pub proof fn lemma_pow10_mono(a: nat, b: nat)
    requires
        a <= b,
    ensures
        pow10(a) <= pow10(b),
    decreases b,
{
    if a < b {
        lemma_pow10_mono(a, (b - 1) as nat);
    }
}

/// A present numbered cookie `base<n>=` has a number below `10^len`.
pub proof fn lemma_present_bound(header: Seq<char>, base: Seq<char>, n: nat)
    requires
        contains_seq(header, base + dec(n) + "="@),
    ensures
        n < pow10(header.len()),
{
    let p = base + dec(n) + "="@;
    let i = choose|i: int| crate::text::occurs_at(header, p, i);
    assert(p.len() <= header.len());
    assert(dec(n).len() <= p.len());
    lemma_dec_below(n);
    lemma_pow10_mono(dec(n).len(), header.len());
}

/// The numbered cookies `base<n>`, `base<n+1>`, ... that the cookie header
/// holds, up to the first one missing.
pub open spec fn stale_names(header: Seq<char>, base: Seq<char>, n: nat) -> Seq<Seq<char>>
    decreases pow10(header.len()) - n,
{
    if n < u64::MAX && contains_seq(header, base + dec(n) + "="@) {
        proof {
            lemma_present_bound(header, base, n);
        }
        seq![base + dec(n)] + stale_names(header, base, n + 1)
    } else {
        seq![]
    }
}

pub open spec fn removals(names: Seq<Seq<char>>) -> Seq<(bool, Seq<char>, Seq<char>)> {
    names.map_values(|n: Seq<char>| (false, n, Seq::<char>::empty()))
}

fn push_removals(ops: &mut Vec<CookieOp>, header: &str, base: &str, start: u64)
    ensures
        ops_view(final(ops)@) == ops_view(old(ops)@) + removals(stale_names(header@, base@, start as nat)),
{
    let mut n: u64 = start;
    let ghost before = ops_view(ops@);
    assert(stale_names(header@, base@, start as nat) =~= stale_names(header@, base@, start as nat));
    loop
        invariant
            start <= n,
            ops_view(ops@) + removals(stale_names(header@, base@, n as nat))
                == before + removals(stale_names(header@, base@, start as nat)),
        ensures
            ops_view(ops@) == before + removals(stale_names(header@, base@, start as nat)),
        decreases pow10(header@.len()) - n,
    {
        let mut name = owned(base);
        push_str(&mut name, u64_to_string(n).as_str());
        let pat = concat2(name.as_str(), "=");
        if n == u64::MAX || !str_contains(header, pat.as_str()) {
            assert(stale_names(header@, base@, n as nat) =~= Seq::<Seq<char>>::empty());
            assert(removals(Seq::<Seq<char>>::empty()) =~= Seq::<(bool, Seq<char>, Seq<char>)>::empty());
            assert(ops_view(ops@) =~= ops_view(ops@) + Seq::<(bool, Seq<char>, Seq<char>)>::empty());
            break;
        }
        proof {
            lemma_present_bound(header@, base@, n as nat);
        }
        let ghost prev = ops_view(ops@);
        let ghost tail = stale_names(header@, base@, (n + 1) as nat);
        assert(stale_names(header@, base@, n as nat) == seq![base@ + dec(n as nat)] + tail);
        ops.push(CookieOp::RemoveCookie(name));
        assert(ops_view(ops@) =~= prev.push((false, base@ + dec(n as nat), Seq::<char>::empty())));
        assert(removals(seq![base@ + dec(n as nat)] + tail) =~= seq![(false, base@ + dec(n as nat), Seq::<char>::empty())] + removals(tail));
        n = n + 1;
        assert(ops_view(ops@) + removals(tail) =~= prev + removals(seq![base@ + (dec((n - 1) as nat))] + tail));
    }
}

/// The cookies of a `+`-joined list (subscriptions or filters) restored from
/// a link: the list split in cookie-sized parts set as `base`, `base1`, ...,
/// then the numbered cookies left over from a longer list removed. Without the
/// list, `base` and every numbered cookie present are removed.
pub open spec fn list_ops(header: Seq<char>, base: Seq<char>, list: Option<Seq<char>>) -> Seq<(bool, Seq<char>, Seq<char>)> {
    match list {
        Some(l) => {
            let chunks = join_until_size_limit_spec(split_char(l, '+'));
            Seq::new(chunks.len(), |i: int| (true, numbered_name(base, i as nat), chunks[i]))
                + removals(stale_names(header, base, chunks.len()))
        },
        None => seq![(false, base, Seq::<char>::empty())] + removals(stale_names(header, base, 1)),
    }
}

fn push_list_ops(ops: &mut Vec<CookieOp>, header: &str, base: &str, list: Option<&str>)
    ensures
        ops_view(final(ops)@) == ops_view(old(ops)@) + list_ops(header@, base@, crate::auth::opt_str(list)),
{
    let ghost before = ops_view(ops@);
    match list {
        Some(l) => {
            let items = split_at_char(l, '+');
            let chunks = join_until_size_limit(&items);
            let ghost cv = views(chunks@);
            let mut i: usize = 0;
            while i < chunks.len()
                invariant
                    i <= chunks@.len(),
                    cv == views(chunks@),
                    ops_view(ops@) == before + Seq::new(i as nat, |k: int| (true, numbered_name(base@, k as nat), cv[k])),
                decreases chunks@.len() - i,
            {
                let name = crate::subreddit::numbered_cookie_name(base, i as u64);
                let ghost prev = ops_view(ops@);
                ops.push(CookieOp::SetCookie(name, chunks[i].clone()));
                assert(ops_view(ops@) =~= prev.push((true, numbered_name(base@, i as nat), cv[i as int])));
                i += 1;
                assert(ops_view(ops@) =~= before + Seq::new(i as nat, |k: int| (true, numbered_name(base@, k as nat), cv[k])));
            }
            push_removals(ops, header, base, chunks.len() as u64);
            assert(ops_view(ops@) =~= before + list_ops(header@, base@, crate::auth::opt_str(list)));
        },
        None => {
            let ghost prev = ops_view(ops@);
            ops.push(CookieOp::RemoveCookie(owned(base)));
            assert(ops_view(ops@) =~= prev.push((false, base@, Seq::<char>::empty())));
            push_removals(ops, header, base, 1);
            assert(ops_view(ops@) =~= before + list_ops(header@, base@, crate::auth::opt_str(list)));
        },
    }
}

/// What a restore or update link does.
#[derive(Debug)]
pub struct RestorePlan {
    pub redirect: String,
    pub ops: Vec<CookieOp>,
}

/// A restore link (`remove_missing`) or update link: the preference cookies,
/// then the subscriptions, then the filters.
pub open spec fn restore_ops(pairs: Seq<(Seq<char>, Seq<char>)>, remove_missing: bool, header: Seq<char>) -> Seq<(bool, Seq<char>, Seq<char>)> {
    pref_ops(pairs, prefs(), remove_missing)
        + list_ops(header, "subscriptions"@, form_get(pairs, "subscriptions"@))
        + list_ops(header, "filters"@, form_get(pairs, "filters"@))
}

/// The plan of a restore or update link, from its query string and the
/// request's cookie header.
pub fn set_cookies_method(query: &str, remove_missing: bool, cookie_header: &str) -> (r: RestorePlan)
    ensures
        r.redirect@ == restore_redirect_spec(form_get(urlencoded_pairs(vstd::utf8::encode_utf8(query@)), "redirect"@)),
        ops_view(r.ops@) == restore_ops(urlencoded_pairs(vstd::utf8::encode_utf8(query@)), remove_missing, cookie_header@),
{
    let pairs = parse_urlencoded(query.as_bytes());
    let ghost pv = pair_views(pairs@);
    assert(pv =~= urlencoded_pairs(vstd::utf8::encode_utf8(query@)));
    let redirect_value = form_value(&pairs, "redirect");
    let redirect = match redirect_value {
        Some(v) => restore_redirect(Some(v.as_str())),
        None => restore_redirect(None),
    };
    let names = pref_names();
    let mut ops: Vec<CookieOp> = Vec::new();
    let mut i: usize = 0;
    while i < names.len()
        invariant
            i <= names@.len(),
            names@.len() == prefs().len(),
            forall|k: int| 0 <= k < names@.len() ==> #[trigger] names@[k]@ == prefs()[k],
            pv == pair_views(pairs@),
            ops_view(ops@) == pref_ops(pv, prefs().take(i as int), remove_missing),
        decreases names@.len() - i,
    {
        assert(prefs().take(i + 1).drop_last() =~= prefs().take(i as int));
        assert(prefs().take(i + 1).last() == names@[i as int]@);
        let ghost prev = ops_view(ops@);
        match form_value(&pairs, names[i]) {
            Some(v) => {
                ops.push(CookieOp::SetCookie(owned(names[i]), v));
                assert(ops_view(ops@) =~= prev.push((true, prefs()[i as int], form_get(pv, prefs()[i as int])->0)));
            },
            None => {
                if remove_missing {
                    ops.push(CookieOp::RemoveCookie(owned(names[i])));
                    assert(ops_view(ops@) =~= prev.push((false, prefs()[i as int], Seq::<char>::empty())));
                }
            },
        }
        i += 1;
    }
    assert(prefs().take(i as int) =~= prefs());
    let ghost after_prefs = ops_view(ops@);
    let subs = form_value(&pairs, "subscriptions");
    match &subs {
        Some(s) => push_list_ops(&mut ops, cookie_header, "subscriptions", Some(s.as_str())),
        None => push_list_ops(&mut ops, cookie_header, "subscriptions", None),
    }
    let filters = form_value(&pairs, "filters");
    match &filters {
        Some(f) => push_list_ops(&mut ops, cookie_header, "filters", Some(f.as_str())),
        None => push_list_ops(&mut ops, cookie_header, "filters", None),
    }
    assert(ops_view(ops@) =~= restore_ops(pv, remove_missing, cookie_header@));
    RestorePlan { redirect, ops }
}

// ----- export and import -----

/// Keys of the serialized preferences that are not preferences.
pub open spec fn not_exported(k: Seq<char>) -> bool {
    k == "available_themes"@ || k == "logged_in"@ || k == "username"@ || k == "csrf_token"@
}

/// `\\` and `"` escaped with a backslash.
pub open spec fn env_escape(s: Seq<char>) -> Seq<char>
    decreases s.len(),
{
    if s.len() == 0 {
        seq![]
    } else {
        env_escape(s.drop_last()) + if s.last() == '\\' {
            "\\\\"@
        } else if s.last() == '"' {
            "\\\""@
        } else {
            seq![s.last()]
        }
    }
}

/// One line per exported preference: `REDLIB_PREF_<KEY>="<value>"`.
pub open spec fn env_lines(pairs: Seq<(Seq<char>, Seq<char>)>) -> Seq<char>
    decreases pairs.len(),
{
    if pairs.len() == 0 {
        seq![]
    } else if not_exported(pairs.last().0) {
        env_lines(pairs.drop_last())
    } else {
        env_lines(pairs.drop_last()) + "REDLIB_PREF_"@ + crate::text::ascii_upper_seq(pairs.last().0) + "=\""@
            + env_escape(pairs.last().1) + "\"\n"@
    }
}

pub open spec fn env_export_header() -> Seq<char> {
    "# Redlib user settings export (.env-style)\n# Import manually by mapping values into cookies or use /settings restore URL/JSON import.\n"@
}

fn env_escaped(s: &str) -> (r: String)
    ensures
        r@ == env_escape(s@),
{
    let cs = crate::text::chars_of(s);
    let mut out = String::new();
    let mut i: usize = 0;
    while i < cs.len()
        invariant
            i <= cs@.len(),
            cs@ == s@,
            out@ == env_escape(cs@.take(i as int)),
        decreases cs@.len() - i,
    {
        assert(cs@.take(i + 1).drop_last() =~= cs@.take(i as int));
        let c = cs[i];
        if c == '\\' {
            push_str(&mut out, "\\\\");
        } else if c == '"' {
            push_str(&mut out, "\\\"");
        } else {
            crate::text::push_char(&mut out, c);
        }
        i += 1;
    }
    assert(cs@.take(i as int) =~= cs@);
    out
}

/// The `.env`-style export of the preferences, from their form encoding.
pub fn export_env_text(encoded: &str) -> (r: String)
    ensures
        r@ == env_export_header() + env_lines(urlencoded_pairs(vstd::utf8::encode_utf8(encoded@))),
{
    let pairs = parse_urlencoded(encoded.as_bytes());
    let ghost pv = urlencoded_pairs(vstd::utf8::encode_utf8(encoded@));
    assert(pair_views(pairs@) =~= pv);
    let mut out = owned("# Redlib user settings export (.env-style)\n# Import manually by mapping values into cookies or use /settings restore URL/JSON import.\n");
    let ghost head = out@;
    let mut i: usize = 0;
    assert(env_lines(pv.take(0)) =~= Seq::<char>::empty());
    while i < pairs.len()
        invariant
            i <= pairs@.len(),
            pv == pair_views(pairs@),
            out@ == head + env_lines(pv.take(i as int)),
        decreases pairs@.len() - i,
    {
        assert(pv.take(i + 1).drop_last() =~= pv.take(i as int));
        assert(pv.take(i + 1).last() == (pairs@[i as int].0@, pairs@[i as int].1@));
        let k = pairs[i].0.as_str();
        if !(str_eq(k, "available_themes") || str_eq(k, "logged_in") || str_eq(k, "username") || str_eq(k, "csrf_token")) {
            let ghost before = out@;
            push_str(&mut out, "REDLIB_PREF_");
            push_str(&mut out, crate::text::to_ascii_uppercase(k).as_str());
            push_str(&mut out, "=\"");
            push_str(&mut out, env_escaped(pairs[i].1.as_str()).as_str());
            push_str(&mut out, "\"\n");
            assert(out@ =~= head + env_lines(pv.take(i + 1)));
        }
        i += 1;
    }
    assert(pv.take(i as int) =~= pv);
    out
}

/// The value of the first pair named `key` (as `Iterator::find` gives it).
pub open spec fn form_first(pairs: Seq<(Seq<char>, Seq<char>)>, key: Seq<char>) -> Option<Seq<char>>
    decreases pairs.len(),
{
    if pairs.len() == 0 {
        None
    } else if pairs[0].0 == key {
        Some(pairs[0].1)
    } else {
        form_first(pairs.drop_first(), key)
    }
}

pub fn form_first_value(pairs: &Vec<(String, String)>, key: &str) -> (r: Option<String>)
    ensures
        crate::crypto::view_string(r) == form_first(pair_views(pairs@), key@),
{
    let ghost pv = pair_views(pairs@);
    let mut i: usize = 0;
    assert(pv.skip(0) =~= pv);
    while i < pairs.len()
        invariant
            i <= pairs@.len(),
            pv == pair_views(pairs@),
            form_first(pv, key@) == form_first(pv.skip(i as int), key@),
        decreases pairs@.len() - i,
    {
        assert(pv.skip(i as int)[0] == (pairs@[i as int].0@, pairs@[i as int].1@));
        assert(pv.skip(i as int).drop_first() =~= pv.skip(i + 1));
        if str_eq(pairs[i].0.as_str(), key) {
            return Some(pairs[i].1.clone());
        }
        i += 1;
    }
    None
}

/// Largest settings-import body.
pub const IMPORT_MAX_BODY: usize = 524288;

/// The JSON text of a settings import: the body itself when it starts with
/// `{` (it must be UTF-8), else its `json` form field.
pub open spec fn import_source_spec(body: Seq<u8>) -> Result<Seq<char>, Seq<char>> {
    if body.len() > IMPORT_MAX_BODY {
        Err("Request body too large"@)
    } else if body.len() > 0 && body[0] == 123u8 {
        if vstd::utf8::valid_utf8(body) {
            Ok(vstd::utf8::decode_utf8(body))
        } else {
            Err("Invalid UTF-8: "@ + crate::crypto::utf8_error_text(body))
        }
    } else {
        match form_first(urlencoded_pairs(body), "json"@) {
            Some(j) => Ok(j),
            None => Err("json parameter not found"@),
        }
    }
}

pub fn import_json_source(body: &[u8]) -> (r: Result<String, String>)
    ensures
        match r {
            Ok(s) => import_source_spec(body@) == Ok::<Seq<char>, Seq<char>>(s@),
            Err(e) => import_source_spec(body@) == Err::<Seq<char>, Seq<char>>(e@),
        },
{
    if body.len() > IMPORT_MAX_BODY {
        return Err(owned("Request body too large"));
    }
    if body.len() > 0 && body[0] == 123u8 {
        return match crate::crypto::string_from_utf8(vstd::slice::slice_to_vec(body)) {
            Ok(s) => Ok(s),
            Err(e) => Err(concat2("Invalid UTF-8: ", e.as_str())),
        };
    }
    let pairs = parse_urlencoded(body);
    assert(pair_views(pairs@) =~= urlencoded_pairs(body@));
    match form_first_value(&pairs, "json") {
        Some(j) => Ok(j),
        None => Err(owned("json parameter not found")),
    }
}

/// Where an import leads: the restore link of the imported preferences.
pub fn restore_link(encoded: &str) -> (r: String)
    ensures
        r@ == "/settings/restore/?"@ + encoded@,
{
    concat2("/settings/restore/?", encoded)
}

} // verus!
