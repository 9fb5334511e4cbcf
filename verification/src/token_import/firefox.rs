//! Firefox and LibreWolf profiles.
use vstd::prelude::*;
use super::{HostOs, LocalProfile, ProfileDirEntry};
use super::chromium::{pick_profile, res_str, resolve_profile_spec};
use crate::auth::opt_str;
use crate::crypto::view_string;
use crate::ssh_import::major_version;
use crate::text::{
    chars_of, find_char, is_ascii_digit, owned, push_str, split_whitespace, str_eq, string_of, sub_chars, words,
};

verus! {

/// `LibreWolf` for `librewolf`, else `Firefox`.
pub open spec fn display_browser_spec(browser: Seq<char>) -> Seq<char> {
    if browser == "librewolf"@ { "LibreWolf"@ } else { "Firefox"@ }
}

pub fn display_browser(browser: &str) -> (r: &'static str)
    ensures
        r@ == display_browser_spec(browser@),
{
    if str_eq(browser, "librewolf") { "LibreWolf" } else { "Firefox" }
}

/// A profile directory's name; `profile` when it is not valid UTF-8.
pub open spec fn entry_name(e: ProfileDirEntry) -> Seq<char> {
    match e.name {
        Some(n) => n@,
        None => "profile"@,
    }
}

/// Every directory with a `cookies.sqlite` is a profile.
pub open spec fn is_profile(e: ProfileDirEntry) -> bool {
    e.is_dir && e.has_cookies
}

pub open spec fn profile_matches(p: LocalProfile, browser: Seq<char>, e: ProfileDirEntry) -> bool {
    &&& p.browser@ == browser
    &&& p.id@ == browser + ":"@ + entry_name(e)
    &&& p.label@ == display_browser_spec(browser) + " ("@ + entry_name(e) + ")"@
    &&& p.path@ == e.path@
}

pub open spec fn profiles_of(entries: Seq<ProfileDirEntry>) -> Seq<ProfileDirEntry>
    decreases entries.len(),
{
    if entries.len() == 0 {
        seq![]
    } else if is_profile(entries.last()) {
        profiles_of(entries.drop_last()).push(entries.last())
    } else {
        profiles_of(entries.drop_last())
    }
}

fn name_of(e: &ProfileDirEntry) -> (r: String)
    ensures
        r@ == entry_name(*e),
{
    match &e.name {
        Some(n) => n.clone(),
        None => owned("profile"),
    }
}

/// The Firefox or LibreWolf profiles among a profiles directory's entries.
pub fn discover_profiles(browser: &str, entries: &Vec<ProfileDirEntry>) -> (r: Vec<LocalProfile>)
    ensures
        r@.len() == profiles_of(entries@).len(),
        forall|k: int| 0 <= k < r@.len() ==> profile_matches(#[trigger] r@[k], browser@, profiles_of(entries@)[k]),
{
    let mut out: Vec<LocalProfile> = Vec::new();
    let mut i: usize = 0;
    while i < entries.len()
        invariant
            i <= entries@.len(),
            out@.len() == profiles_of(entries@.take(i as int)).len(),
            forall|k: int| 0 <= k < out@.len() ==> profile_matches(#[trigger] out@[k], browser@, profiles_of(entries@.take(i as int))[k]),
        decreases entries@.len() - i,
    {
        assert(entries@.take(i + 1).drop_last() =~= entries@.take(i as int));
        let e = &entries[i];
        if e.is_dir && e.has_cookies {
            let name = name_of(e);
            let mut id = owned(browser);
            push_str(&mut id, ":");
            push_str(&mut id, name.as_str());
            let mut label = owned(display_browser(browser));
            push_str(&mut label, " (");
            push_str(&mut label, name.as_str());
            push_str(&mut label, ")");
            out.push(LocalProfile { browser: owned(browser), id, label, path: e.path.clone() });
        }
        i += 1;
    }
    assert(entries@.take(i as int) =~= entries@);
    out
}

pub open spec fn no_profiles_spec(browser: Seq<char>) -> Seq<char> {
    "No "@ + display_browser_spec(browser) + " profiles with cookies.sqlite were found"@
}

/// Which profile an import reads (see `resolve_profile_spec`).
pub fn resolve_profile(browser: &str, profile_id: Option<&str>, profile_path: Option<&str>, found: &Vec<LocalProfile>) -> (r: Result<String, String>)
    ensures
        res_str(r) == resolve_profile_spec(no_profiles_spec(browser@), opt_str(profile_id), opt_str(profile_path), found@),
{
    let mut missing = owned("No ");
    push_str(&mut missing, display_browser(browser));
    push_str(&mut missing, " profiles with cookies.sqlite were found");
    pick_profile(missing.as_str(), profile_id, profile_path, found)
}

/// The commands asked for their version: `librewolf` for LibreWolf, else
/// `firefox`.
pub fn version_command(browser: &str) -> (r: &'static str)
    ensures
        r@ == (if browser@ == "librewolf"@ { "librewolf"@ } else { "firefox"@ }),
{
    if str_eq(browser, "librewolf") { "librewolf" } else { "firefox" }
}

/// The first word that starts with an ASCII digit.
pub open spec fn first_version_word(ws: Seq<Seq<char>>) -> Option<Seq<char>>
    decreases ws.len(),
{
    if ws.len() == 0 {
        None
    } else if ws[0].len() > 0 && is_ascii_digit(ws[0][0]) {
        Some(ws[0])
    } else {
        first_version_word(ws.drop_first())
    }
}

/// The version in a `--version` output, such as `128.0.3` in
/// `Mozilla Firefox 128.0.3`.
pub fn version_from_output(stdout: &str) -> (r: Option<String>)
    ensures
        view_string(r) == first_version_word(words(stdout@)),
{
    let cs = chars_of(stdout);
    let ws = split_whitespace(&cs);
    let ghost all = words(stdout@);
    let mut i: usize = 0;
    assert(all.skip(0) =~= all);
    while i < ws.len()
        invariant
            ws@.map_values(|w: String| w@) == all,
            all == words(stdout@),
            i <= ws@.len(),
            first_version_word(all) == first_version_word(all.skip(i as int)),
        decreases ws@.len() - i,
    {
        let ghost rest = all.skip(i as int);
        assert(all[i as int] == ws@[i as int]@);
        assert(rest[0] == ws@[i as int]@);
        assert(rest.drop_first() =~= all.skip(i + 1));
        let w = chars_of(ws[i].as_str());
        if w.len() > 0 && w[0] >= '0' && w[0] <= '9' {
            assert(is_ascii_digit(rest[0][0]));
            return Some(ws[i].clone());
        }
        i += 1;
    }
    None
}

/// A Firefox User-Agent for the installed version (x86_64 Linux), when the
/// version is known.
pub open spec fn firefox_ua_for(version: Seq<char>) -> Seq<char> {
    "Mozilla/5.0 (X11; Linux x86_64; rv:"@ + version + ") Gecko/20100101 Firefox/"@ + major_version(version) + ".0"@
}

pub fn read_firefox_user_agent(version: Option<&str>) -> (r: Option<String>)
    ensures
        view_string(r) == match version {
            Some(v) => Some(firefox_ua_for(v@)),
            None => None,
        },
{
    let v = match version {
        Some(v) => v,
        None => {
            return None;
        },
    };
    let vs = chars_of(v);
    let major = match find_char(&vs, '.') {
        Some(p) => {
            let m = sub_chars(&vs, 0, p);
            assert(m@ =~= vs@.take(p as int));
            string_of(&m)
        },
        None => owned(v),
    };
    let mut ua = owned("Mozilla/5.0 (X11; Linux x86_64; rv:");
    push_str(&mut ua, v);
    push_str(&mut ua, ") Gecko/20100101 Firefox/");
    push_str(&mut ua, major.as_str());
    push_str(&mut ua, ".0");
    Some(ua)
}

/// Where a browser keeps its profiles: the environment variable that gives
/// the root (`APPDATA` on Windows, `HOME` elsewhere) and the directories
/// below it.
pub open spec fn base_dir_spec(os: HostOs, browser: Seq<char>) -> (Seq<char>, Seq<Seq<char>>) {
    let libre = browser == "librewolf"@;
    match os {
        HostOs::Windows => ("APPDATA"@, if libre { seq!["LibreWolf"@, "Profiles"@] } else { seq!["Mozilla"@, "Firefox"@, "Profiles"@] }),
        HostOs::MacOs => ("HOME"@, if libre {
            seq!["Library"@, "Application Support"@, "LibreWolf"@, "Profiles"@]
        } else {
            seq!["Library"@, "Application Support"@, "Firefox"@, "Profiles"@]
        }),
        HostOs::Unix => ("HOME"@, if libre { seq![".librewolf"@] } else { seq![".mozilla"@, "firefox"@] }),
    }
}

pub fn base_dir_parts(os: HostOs, browser: &str) -> (r: (&'static str, Vec<&'static str>))
    ensures
        (r.0@, super::str_views(r.1@)) == base_dir_spec(os, browser@),
{
    let libre = str_eq(browser, "librewolf");
    let r = match os {
        HostOs::Windows => ("APPDATA", if libre { vec!["LibreWolf", "Profiles"] } else { vec!["Mozilla", "Firefox", "Profiles"] }),
        HostOs::MacOs => ("HOME", if libre {
            vec!["Library", "Application Support", "LibreWolf", "Profiles"]
        } else {
            vec!["Library", "Application Support", "Firefox", "Profiles"]
        }),
        HostOs::Unix => ("HOME", if libre { vec![".librewolf"] } else { vec![".mozilla", "firefox"] }),
    };
    assert(super::str_views(r.1@) =~= base_dir_spec(os, browser@).1);
    r
}

} // verus!
