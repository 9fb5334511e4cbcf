//! Importing a Reddit session out of a browser installed on this machine: the
//! decisions on what was found on disk; reading the disk is the caller's.
use vstd::prelude::*;
use crate::text::{chars_of, concat2, owned, str_eq};
use crate::auth::opt_str;
use crate::crypto::view_string;

pub mod chromium;
pub mod firefox;

verus! {

/// A bearer token taken from a browser, with the browser's User-Agent when it
/// could be told.
#[derive(Debug)]
pub struct ImportedBrowserSession {
    pub bearer_token: String,
    pub user_agent: Option<String>,
}

/// A browser profile that holds a cookie database.
#[derive(Debug)]
pub struct LocalProfile {
    pub browser: String,
    /// `browser:directory-name`.
    pub id: String,
    /// `Browser (directory-name)`, shown to the user.
    pub label: String,
    /// The profile directory.
    pub path: String,
}

/// One entry of a browser's profiles directory, as the caller found it.
#[derive(Debug)]
pub struct ProfileDirEntry {
    /// The entry's file name, when it is valid UTF-8.
    pub name: Option<String>,
    pub path: String,
    pub is_dir: bool,
    /// The profile's cookie database file exists.
    pub has_cookies: bool,
}

pub fn copy_profile(p: &LocalProfile) -> (r: LocalProfile)
    ensures
        r == *p,
{
    LocalProfile { browser: p.browser.clone(), id: p.id.clone(), label: p.label.clone(), path: p.path.clone() }
}

// ----- ordering profiles by label -----

/// Strict lexicographic order of character sequences by code point, the order
/// of `String`s (UTF-8 preserves code-point order).
pub open spec fn lex_lt(a: Seq<char>, b: Seq<char>) -> bool
    decreases a.len(),
{
    if a.len() == 0 {
        b.len() > 0
    } else if b.len() == 0 {
        false
    } else if a[0] < b[0] {
        true
    } else if a[0] > b[0] {
        false
    } else {
        lex_lt(a.drop_first(), b.drop_first())
    }
}

pub fn label_lt(a: &str, b: &str) -> (r: bool)
    ensures
        r == lex_lt(a@, b@),
{
    let x = chars_of(a);
    let y = chars_of(b);
    let mut i: usize = 0;
    assert(x@.skip(0) =~= x@);
    assert(y@.skip(0) =~= y@);
    while i < x.len() && i < y.len()
        invariant
            x@ == a@,
            y@ == b@,
            i <= x@.len(),
            i <= y@.len(),
            lex_lt(x@, y@) == lex_lt(x@.skip(i as int), y@.skip(i as int)),
        decreases x@.len() - i,
    {
        let ghost xs = x@.skip(i as int);
        let ghost ys = y@.skip(i as int);
        assert(xs.drop_first() =~= x@.skip(i + 1));
        assert(ys.drop_first() =~= y@.skip(i + 1));
        assert(xs[0] == x@[i as int] && ys[0] == y@[i as int]);
        let cx = x[i];
        let cy = y[i];
        if cx < cy {
            return true;
        }
        if cx > cy {
            return false;
        }
        i += 1;
    }
    i < y.len()
}

/// Inserting a profile into a list sorted by label, after every profile whose
/// label is not greater (so equal labels keep their order).
pub open spec fn insert_by_label(s: Seq<LocalProfile>, x: LocalProfile) -> Seq<LocalProfile>
    decreases s.len(),
{
    if s.len() == 0 {
        seq![x]
    } else if lex_lt(x.label@, s.last().label@) {
        insert_by_label(s.drop_last(), x).push(s.last())
    } else {
        s.push(x)
    }
}

/// The stable sort by label (`sort_by` on `label.cmp`).
pub open spec fn sort_by_label(s: Seq<LocalProfile>) -> Seq<LocalProfile>
    decreases s.len(),
{
    if s.len() == 0 {
        seq![]
    } else {
        insert_by_label(sort_by_label(s.drop_last()), s.last())
    }
}

proof fn lemma_insert_at(s: Seq<LocalProfile>, x: LocalProfile, j: int)
    requires
        0 <= j <= s.len(),
        forall|k: int| j <= k < s.len() ==> lex_lt(x.label@, #[trigger] s[k].label@),
        j > 0 ==> !lex_lt(x.label@, s[j - 1].label@),
    ensures
        insert_by_label(s, x) == s.take(j).push(x) + s.skip(j),
    decreases s.len(),
{
    if s.len() == 0 {
        assert(s.take(j).push(x) + s.skip(j) =~= seq![x]);
    } else if j == s.len() {
        assert(s.take(j).push(x) + s.skip(j) =~= s.push(x));
    } else {
        lemma_insert_at(s.drop_last(), x, j);
        assert(s.drop_last().take(j).push(x) + s.drop_last().skip(j) + seq![s.last()] =~= s.take(j).push(x) + s.skip(j));
    }
}

fn insert_profile(v: &mut Vec<LocalProfile>, x: LocalProfile)
    ensures
        final(v)@ == insert_by_label(old(v)@, x),
{
    let mut j: usize = v.len();
    while j > 0 && label_lt(x.label.as_str(), v[j - 1].label.as_str())
        invariant
            j <= v@.len(),
            v@ == old(v)@,
            forall|k: int| j <= k < v@.len() ==> lex_lt(x.label@, #[trigger] v@[k].label@),
        decreases j,
    {
        j -= 1;
    }
    proof {
        lemma_insert_at(v@, x, j as int);
    }
    v.insert(j, x);
    assert(v@ =~= old(v)@.take(j as int).push(x) + old(v)@.skip(j as int));
}

/// All profiles found, ordered by label; profiles with equal labels keep the
/// order in which they were found.
pub fn discover_local_profiles(found: Vec<LocalProfile>) -> (r: Vec<LocalProfile>)
    ensures
        r@ == sort_by_label(found@),
{
    let mut out: Vec<LocalProfile> = Vec::new();
    let mut rest = found;
    let ghost all = rest@;
    let mut i: usize = 0;
    while i < rest.len()
        invariant
            rest@ == all,
            i <= all.len(),
            out@ == sort_by_label(all.take(i as int)),
        decreases all.len() - i,
    {
        assert(all.take(i + 1).drop_last() =~= all.take(i as int));
        let p = copy_profile(&rest[i]);
        insert_profile(&mut out, p);
        i += 1;
    }
    assert(all.take(i as int) =~= all);
    out
}

/// Which browser family a local import goes to.
#[derive(Debug, PartialEq, Eq, Structural)]
pub enum BrowserFamily {
    Firefox,
    Chromium,
}

/// The operating system a profile directory is looked up on.
#[derive(Debug, Clone, Copy, PartialEq, Eq, Structural)]
pub enum HostOs {
    Windows,
    MacOs,
    Unix,
}

pub open spec fn str_views(v: Seq<&str>) -> Seq<Seq<char>> {
    v.map_values(|s: &str| s@)
}

/// Firefox and LibreWolf profiles are read as Firefox; Chrome and Edge as
/// Chromium; any other browser is refused.
pub fn browser_family(browser: &str) -> (r: Result<BrowserFamily, String>)
    ensures
        match r {
            Ok(f) => if browser@ == "firefox"@ || browser@ == "librewolf"@ {
                f == BrowserFamily::Firefox
            } else {
                (browser@ == "chrome"@ || browser@ == "edge"@) && f == BrowserFamily::Chromium
            },
            Err(e) => !(browser@ == "firefox"@ || browser@ == "librewolf"@ || browser@ == "chrome"@ || browser@ == "edge"@)
                && e@ == "Unsupported browser: "@ + browser@,
        },
{
    if str_eq(browser, "firefox") || str_eq(browser, "librewolf") {
        Ok(BrowserFamily::Firefox)
    } else if str_eq(browser, "chrome") || str_eq(browser, "edge") {
        Ok(BrowserFamily::Chromium)
    } else {
        Err(crate::text::concat2("Unsupported browser: ", browser))
    }
}

} // verus!

verus! {

/// The first profile with the given id.
pub open spec fn profile_with_id(s: Seq<LocalProfile>, id: Seq<char>) -> Option<LocalProfile>
    decreases s.len(),
{
    if s.len() == 0 {
        None
    } else if s[0].id@ == id {
        Some(s[0])
    } else {
        profile_with_id(s.drop_first(), id)
    }
}

/// The path of the first profile with the given id.
pub fn find_profile_path(found: &Vec<LocalProfile>, id: &str) -> (r: Option<String>)
    ensures
        match r {
            Some(p) => profile_with_id(found@, id@) matches Some(q) && p@ == q.path@,
            None => profile_with_id(found@, id@) is None,
        },
{
    let mut i: usize = 0;
    assert(found@.skip(0) =~= found@);
    while i < found.len()
        invariant
            i <= found@.len(),
            profile_with_id(found@, id@) == profile_with_id(found@.skip(i as int), id@),
        decreases found@.len() - i,
    {
        let ghost rest = found@.skip(i as int);
        assert(rest[0] == found@[i as int]);
        assert(rest.drop_first() =~= found@.skip(i + 1));
        if str_eq(found[i].id.as_str(), id) {
            return Some(found[i].path.clone());
        }
        i += 1;
    }
    None
}

} // verus!

verus! {

/// The order of strings is irreflexive.
pub proof fn lemma_lex_irrefl(a: Seq<char>)
    ensures
        !lex_lt(a, a),
    decreases a.len(),
{
    if a.len() > 0 {
        lemma_lex_irrefl(a.drop_first());
    }
}

/// The order of strings is transitive.
pub proof fn lemma_lex_trans(a: Seq<char>, b: Seq<char>, c: Seq<char>)
    requires
        lex_lt(a, b),
        lex_lt(b, c),
    ensures
        lex_lt(a, c),
    decreases a.len(),
{
    if a.len() > 0 && b.len() > 0 && c.len() > 0 && a[0] == b[0] && b[0] == c[0] {
        lemma_lex_trans(a.drop_first(), b.drop_first(), c.drop_first());
    }
}

/// Two different strings are ordered one way or the other.
pub proof fn lemma_lex_total(a: Seq<char>, b: Seq<char>)
    requires
        a != b,
    ensures
        lex_lt(a, b) || lex_lt(b, a),
    decreases a.len(),
{
    if a.len() > 0 && b.len() > 0 && a[0] == b[0] {
        if a.drop_first() == b.drop_first() {
            assert(a =~= seq![a[0]] + a.drop_first());
            assert(b =~= seq![b[0]] + b.drop_first());
        }
        lemma_lex_total(a.drop_first(), b.drop_first());
    } else if a.len() > 0 && b.len() > 0 {
    } else if a.len() == 0 && b.len() == 0 {
        assert(a =~= b);
    }
}

} // verus!

verus! {

// ----- importing the session of a local profile -----

/// The newest `token_v2` row for reddit.com in a profile's cookie database.
#[derive(Debug)]
pub struct CookieRow {
    pub value: String,
    /// Chromium's encrypted value (empty for Firefox, whose rows hold none).
    pub encrypted_value: Vec<u8>,
    /// Chromium's `host_key` (empty for Firefox).
    pub host_key: String,
}

/// What the caller found at the profile that `resolve_profile` chose.
pub struct ProfileRead {
    /// The browser's cookie database exists in the profile.
    pub has_db: bool,
    /// The row (`None` when the database has none), or why the database could
    /// not be copied, opened or queried.
    pub row: Result<Option<CookieRow>, String>,
    /// Chromium: the master key out of `Local State`.
    pub master_key: Result<Option<Vec<u8>>, String>,
    /// Chromium: the Safe Storage password from the keyring.
    pub password: Option<String>,
    /// Chromium: the machine is a Mac (1003 PBKDF2 rounds instead of 1).
    pub macos: bool,
    /// Firefox: the version the browser reports.
    pub version: Option<String>,
}

pub open spec fn is_firefox_family(browser: Seq<char>) -> bool {
    browser == "firefox"@ || browser == "librewolf"@
}

pub open spec fn is_chromium_family(browser: Seq<char>) -> bool {
    browser == "chrome"@ || browser == "edge"@
}

pub open spec fn iterations_for(macos: bool) -> u32 {
    if macos { 1003u32 } else { 1u32 }
}

pub open spec fn session_view(r: Result<ImportedBrowserSession, String>) -> Result<(Seq<char>, Option<Seq<char>>), Seq<char>> {
    match r {
        Ok(s) => Ok((s.bearer_token@, view_string(s.user_agent))),
        Err(e) => Err(e@),
    }
}

/// A Firefox or LibreWolf import: the resolved profile's database must exist
/// and hold a row, whose value is the bearer token as it is; the User-Agent is
/// that of the reported version.
pub open spec fn firefox_import_spec(
    browser: Seq<char>,
    profile_id: Option<Seq<char>>,
    profile_path: Option<Seq<char>>,
    found: Seq<LocalProfile>,
    read: ProfileRead,
) -> Result<(Seq<char>, Option<Seq<char>>), Seq<char>> {
    match chromium::resolve_profile_spec(firefox::no_profiles_spec(browser), profile_id, profile_path, found) {
        Err(e) => Err(e),
        Ok(p) => if !read.has_db {
            Err("cookies.sqlite not found in "@ + p)
        } else {
            match read.row {
                Err(e) => Err(e@),
                Ok(None) => Err("No reddit token_v2 cookie found in selected Firefox profile"@),
                Ok(Some(row)) => Ok((
                    row.value@,
                    match read.version {
                        Some(v) => Some(firefox::firefox_ua_for(v@)),
                        None => None,
                    },
                )),
            }
        },
    }
}

/// A Chrome or Edge import: the resolved profile's database must exist and
/// hold a row, whose token is its plain value or its decrypted value.
pub open spec fn chromium_import_spec(
    browser: Seq<char>,
    profile_id: Option<Seq<char>>,
    profile_path: Option<Seq<char>>,
    found: Seq<LocalProfile>,
    read: ProfileRead,
) -> Result<(Seq<char>, Option<Seq<char>>), Seq<char>> {
    match chromium::resolve_profile_spec(chromium::no_profiles_spec(browser), profile_id, profile_path, found) {
        Err(e) => Err(e),
        Ok(p) => if !read.has_db {
            Err("Cookies DB not found in "@ + p)
        } else {
            match read.row {
                Err(e) => Err(e@),
                Ok(None) => Err("No reddit token_v2 cookie found in selected Chromium profile"@),
                Ok(Some(row)) => match chromium::row_token_spec(
                    row.value@,
                    row.encrypted_value@,
                    chromium::opt_key(read.master_key),
                    view_string(read.password),
                    iterations_for(read.macos),
                    row.host_key@,
                ) {
                    Ok(t) => Ok((t, None)),
                    Err(e) => Err(e),
                },
            }
        },
    }
}

/// What `import_local` gives: the Firefox or Chromium import, or the refusal
/// of another browser.
pub open spec fn import_local_spec(
    browser: Seq<char>,
    profile_id: Option<Seq<char>>,
    profile_path: Option<Seq<char>>,
    found: Seq<LocalProfile>,
    read: ProfileRead,
) -> Result<(Seq<char>, Option<Seq<char>>), Seq<char>> {
    if is_firefox_family(browser) {
        firefox_import_spec(browser, profile_id, profile_path, found, read)
    } else if is_chromium_family(browser) {
        chromium_import_spec(browser, profile_id, profile_path, found, read)
    } else {
        Err("Unsupported browser: "@ + browser)
    }
}

/// The session of a local browser profile, from the profiles found for the
/// browser and what was read at the profile chosen among them.
pub fn import_local(
    browser: &str,
    profile_id: Option<&str>,
    profile_path: Option<&str>,
    found: &Vec<LocalProfile>,
    read: ProfileRead,
) -> (r: Result<ImportedBrowserSession, String>)
    ensures
        session_view(r) == import_local_spec(browser@, opt_str(profile_id), opt_str(profile_path), found@, read),
{
    let ProfileRead { has_db, row, master_key, password, macos, version } = read;
    let family = match browser_family(browser) {
        Ok(f) => f,
        Err(e) => {
            return Err(e);
        },
    };
    match family {
        BrowserFamily::Firefox => {
            let p = match firefox::resolve_profile(browser, profile_id, profile_path, found) {
                Ok(p) => p,
                Err(e) => {
                    return Err(e);
                },
            };
            if !has_db {
                return Err(concat2("cookies.sqlite not found in ", p.as_str()));
            }
            match row {
                Err(e) => Err(e),
                Ok(None) => Err(owned("No reddit token_v2 cookie found in selected Firefox profile")),
                Ok(Some(c)) => {
                    let ua = match &version {
                        Some(v) => firefox::read_firefox_user_agent(Some(v.as_str())),
                        None => None,
                    };
                    Ok(ImportedBrowserSession { bearer_token: c.value, user_agent: ua })
                },
            }
        },
        BrowserFamily::Chromium => {
            let p = match chromium::resolve_profile(browser, profile_id, profile_path, found) {
                Ok(p) => p,
                Err(e) => {
                    return Err(e);
                },
            };
            if !has_db {
                return Err(concat2("Cookies DB not found in ", p.as_str()));
            }
            match row {
                Err(e) => Err(e),
                Ok(None) => Err(owned("No reddit token_v2 cookie found in selected Chromium profile")),
                Ok(Some(c)) => {
                    let pw: Option<&str> = match &password {
                        Some(s) => Some(s.as_str()),
                        None => None,
                    };
                    let iterations = chromium::legacy_pbkdf2_iterations(macos);
                    match chromium::token_from_row(
                        c.value.as_str(),
                        c.encrypted_value.as_slice(),
                        master_key,
                        pw,
                        iterations,
                        c.host_key.as_str(),
                    ) {
                        Ok(t) => Ok(ImportedBrowserSession { bearer_token: t, user_agent: None }),
                        Err(e) => Err(e),
                    }
                },
            }
        },
    }
}

} // verus!

verus! {

// ----- what ordering by label keeps -----

/// The profiles of `s` whose label is `l`, in order.
pub open spec fn labelled(s: Seq<LocalProfile>, l: Seq<char>) -> Seq<LocalProfile>
    decreases s.len(),
{
    if s.len() == 0 {
        seq![]
    } else if s.last().label@ == l {
        labelled(s.drop_last(), l).push(s.last())
    } else {
        labelled(s.drop_last(), l)
    }
}

/// No profile comes after one whose label is greater.
pub open spec fn sorted_by_label(s: Seq<LocalProfile>) -> bool {
    forall|i: int, j: int| 0 <= i < j < s.len() ==> !lex_lt(#[trigger] s[j].label@, #[trigger] s[i].label@)
}

proof fn lemma_lex_asym(a: Seq<char>, b: Seq<char>)
    requires
        lex_lt(a, b),
    ensures
        !lex_lt(b, a),
{
    if lex_lt(b, a) {
        lemma_lex_trans(a, b, a);
        lemma_lex_irrefl(a);
    }
}

/// `!lex_lt(b, a)` and `!lex_lt(c, b)` give `!lex_lt(c, a)`.
proof fn lemma_lex_le_trans(a: Seq<char>, b: Seq<char>, c: Seq<char>)
    requires
        !lex_lt(b, a),
        !lex_lt(c, b),
    ensures
        !lex_lt(c, a),
{
    if lex_lt(c, a) {
        if a != b {
            lemma_lex_total(a, b);
        }
        if b != c {
            lemma_lex_total(b, c);
        }
        if a == b {
            assert(lex_lt(c, b));
        } else if b == c {
            assert(lex_lt(b, a));
        } else {
            lemma_lex_trans(a, b, c);
            lemma_lex_asym(a, c);
        }
    }
}

proof fn lemma_insert_multiset(s: Seq<LocalProfile>, x: LocalProfile)
    ensures
        insert_by_label(s, x).to_multiset() =~= s.to_multiset().insert(x),
        insert_by_label(s, x).len() == s.len() + 1,
        forall|k: int| 0 <= k < insert_by_label(s, x).len() ==>
            #[trigger] insert_by_label(s, x)[k] == x || s.contains(insert_by_label(s, x)[k]),
    decreases s.len(),
{
    broadcast use vstd::seq_lib::group_seq_properties;
    broadcast use vstd::multiset::group_multiset_axioms;

    if s.len() == 0 {
        assert(seq![x] =~= Seq::<LocalProfile>::empty().push(x));
    } else if lex_lt(x.label@, s.last().label@) {
        let d = s.drop_last();
        lemma_insert_multiset(d, x);
        assert(s =~= d.push(s.last()));
        let r = insert_by_label(s, x);
        assert forall|k: int| 0 <= k < r.len() implies #[trigger] r[k] == x || s.contains(r[k]) by {
            if k == r.len() - 1 {
                assert(s[s.len() - 1] == r[k]);
            } else {
                let q = insert_by_label(d, x)[k];
                if q != x {
                    let m = choose|m: int| 0 <= m < d.len() && d[m] == q;
                    assert(s[m] == q);
                }
            }
        }
    } else {
        let r = s.push(x);
        assert forall|k: int| 0 <= k < r.len() implies #[trigger] r[k] == x || s.contains(r[k]) by {
            if k < s.len() {
                assert(s[k] == r[k]);
            }
        }
    }
}

proof fn lemma_insert_sorted(s: Seq<LocalProfile>, x: LocalProfile)
    requires
        sorted_by_label(s),
    ensures
        sorted_by_label(insert_by_label(s, x)),
    decreases s.len(),
{
    if s.len() == 0 {
    } else if lex_lt(x.label@, s.last().label@) {
        let d = s.drop_last();
        let last = s.last();
        lemma_insert_sorted(d, x);
        lemma_insert_multiset(d, x);
        let a = insert_by_label(d, x);
        let r = insert_by_label(s, x);
        assert(r == a.push(last));
        assert forall|i: int, j: int| 0 <= i < j < r.len() implies !lex_lt(#[trigger] r[j].label@, #[trigger] r[i].label@) by {
            if j == r.len() - 1 {
                assert(r[j] == last);
                assert(r[i] == a[i]);
                if a[i] == x {
                    lemma_lex_asym(x.label@, last.label@);
                } else {
                    let m = choose|m: int| 0 <= m < d.len() && d[m] == a[i];
                    assert(s[m] == d[m]);
                    assert(s[s.len() - 1] == last);
                }
            } else {
                assert(r[i] == a[i] && r[j] == a[j]);
            }
        }
    } else {
        let r = s.push(x);
        let last = s.last();
        assert forall|i: int, j: int| 0 <= i < j < r.len() implies !lex_lt(#[trigger] r[j].label@, #[trigger] r[i].label@) by {
            if j == s.len() {
                assert(r[i] == s[i]);
                if i < s.len() - 1 {
                    assert(s[s.len() - 1] == last);
                    lemma_lex_le_trans(s[i].label@, last.label@, x.label@);
                }
            } else {
                assert(r[i] == s[i] && r[j] == s[j]);
            }
        }
    }
}

proof fn lemma_insert_labelled(s: Seq<LocalProfile>, x: LocalProfile, l: Seq<char>)
    ensures
        labelled(insert_by_label(s, x), l) == if x.label@ == l { labelled(s, l).push(x) } else { labelled(s, l) },
    decreases s.len(),
{
    if s.len() == 0 {
        assert(seq![x].drop_last() =~= Seq::<LocalProfile>::empty());
        assert(seq![x].last() == x);
        assert(labelled(s, l) =~= Seq::<LocalProfile>::empty());
        assert(labelled(Seq::<LocalProfile>::empty(), l) =~= Seq::<LocalProfile>::empty());
        assert(insert_by_label(s, x) == seq![x]);
        if x.label@ == l {
            assert(labelled(seq![x], l) =~= labelled(s, l).push(x));
        } else {
            assert(labelled(seq![x], l) =~= labelled(s, l));
        }
    } else if lex_lt(x.label@, s.last().label@) {
        let d = s.drop_last();
        let last = s.last();
        lemma_insert_labelled(d, x, l);
        let a = insert_by_label(d, x);
        assert(insert_by_label(s, x) == a.push(last));
        assert(a.push(last).drop_last() =~= a);
        assert(a.push(last).last() == last);
        assert(labelled(a.push(last), l) == if last.label@ == l { labelled(a, l).push(last) } else { labelled(a, l) });
        assert(labelled(s, l) == if last.label@ == l { labelled(d, l).push(last) } else { labelled(d, l) });
        if x.label@ == l {
            lemma_lex_irrefl(l);
            assert(last.label@ != l);
        }
    } else {
        assert(insert_by_label(s, x) == s.push(x));
        assert(s.push(x).drop_last() =~= s);
        assert(s.push(x).last() == x);
    }
}

/// Ordering profiles by label returns the same profiles, in label order, and
/// profiles that share a label stay in the order in which they were found.
pub proof fn lemma_sort_by_label(s: Seq<LocalProfile>, l: Seq<char>)
    ensures
        sort_by_label(s).to_multiset() == s.to_multiset(),
        sorted_by_label(sort_by_label(s)),
        labelled(sort_by_label(s), l) == labelled(s, l),
    decreases s.len(),
{
    broadcast use vstd::seq_lib::group_seq_properties;

    if s.len() == 0 {
        assert(sort_by_label(s).to_multiset() =~= s.to_multiset());
    } else {
        let d = s.drop_last();
        lemma_sort_by_label(d, l);
        lemma_insert_multiset(sort_by_label(d), s.last());
        lemma_insert_sorted(sort_by_label(d), s.last());
        lemma_insert_labelled(sort_by_label(d), s.last(), l);
        assert(s =~= d.push(s.last()));
    }
}

} // verus!
