//! Chrome and Edge profiles, and reading their encrypted `token_v2` cookie.
use vstd::prelude::*;
use super::{find_profile_path, profile_with_id, LocalProfile, ProfileDirEntry};
use crate::crypto::{
    aes128_cbc_pkcs7_decrypt, aes128cbc_pkcs7_open, aes256gcm_open, b64_std_decode, base64_std_decode,
    base64_std_error, gcm_open, json_nested_str, json_text_nested_str, pbkdf2_sha1_16, pbkdf2_sha1_key16,
    utf8_decode, view_bytes, view_string,
};
use crate::text::{
    chars_of, concat2, has_char, is_ascii_graphic, owned, push_str, starts_with_seq, str_eq, str_starts_with, trim,
    trim_seq, u64_to_string, dec, ascii_graphic, string_of, sub_chars, chars_starts_with,
};
use crate::ssh_import::nonblank;
use crate::auth::opt_str;
use vstd::slice::{slice_subrange, slice_to_vec};
use vstd::utf8::{decode_utf8, encode_utf8, valid_utf8};

verus! {

/// `Edge` for `edge`, else `Chrome`.
pub open spec fn display_browser_spec(browser: Seq<char>) -> Seq<char> {
    if browser == "edge"@ { "Edge"@ } else { "Chrome"@ }
}

pub fn display_browser(browser: &str) -> (r: &'static str)
    ensures
        r@ == display_browser_spec(browser@),
{
    if str_eq(browser, "edge") { "Edge" } else { "Chrome" }
}

/// Chromium keeps profiles in `Default` and `Profile N` directories.
pub open spec fn profile_dir_name(name: Seq<char>) -> bool {
    name == "Default"@ || starts_with_seq(name, "Profile "@)
}

pub open spec fn entry_name(e: ProfileDirEntry) -> Seq<char> {
    match e.name {
        Some(n) => n@,
        None => Seq::<char>::empty(),
    }
}

/// An entry is a profile when it is a directory with a profile's name and a
/// `Cookies` database.
pub open spec fn is_profile(e: ProfileDirEntry) -> bool {
    e.is_dir && profile_dir_name(entry_name(e)) && e.has_cookies
}

/// The profile listed for an entry.
pub open spec fn profile_matches(p: LocalProfile, browser: Seq<char>, e: ProfileDirEntry) -> bool {
    &&& p.browser@ == browser
    &&& p.id@ == browser + ":"@ + entry_name(e)
    &&& p.label@ == display_browser_spec(browser) + " ("@ + entry_name(e) + ")"@
    &&& p.path@ == e.path@
}

/// The profiles among the entries, in their order.
pub open spec fn profiles_of(browser: Seq<char>, entries: Seq<ProfileDirEntry>) -> Seq<ProfileDirEntry>
    decreases entries.len(),
{
    if entries.len() == 0 {
        seq![]
    } else if is_profile(entries.last()) {
        profiles_of(browser, entries.drop_last()).push(entries.last())
    } else {
        profiles_of(browser, entries.drop_last())
    }
}

fn name_of(e: &ProfileDirEntry) -> (r: String)
    ensures
        r@ == entry_name(*e),
{
    match &e.name {
        Some(n) => n.clone(),
        None => String::new(),
    }
}

/// The Chrome or Edge profiles among a user-data directory's entries.
pub fn discover_profiles(browser: &str, entries: &Vec<ProfileDirEntry>) -> (r: Vec<LocalProfile>)
    ensures
        r@.len() == profiles_of(browser@, entries@).len(),
        forall|k: int| 0 <= k < r@.len() ==> profile_matches(#[trigger] r@[k], browser@, profiles_of(browser@, entries@)[k]),
{
    let mut out: Vec<LocalProfile> = Vec::new();
    let mut i: usize = 0;
    while i < entries.len()
        invariant
            i <= entries@.len(),
            out@.len() == profiles_of(browser@, entries@.take(i as int)).len(),
            forall|k: int| 0 <= k < out@.len() ==> profile_matches(#[trigger] out@[k], browser@, profiles_of(browser@, entries@.take(i as int))[k]),
        decreases entries@.len() - i,
    {
        assert(entries@.take(i + 1).drop_last() =~= entries@.take(i as int));
        let e = &entries[i];
        let name = name_of(e);
        let is_name = str_eq(name.as_str(), "Default") || str_starts_with(name.as_str(), "Profile ");
        if e.is_dir && is_name && e.has_cookies {
            let mut id = owned(browser);
            push_str(&mut id, ":");
            push_str(&mut id, name.as_str());
            let mut label = owned(display_browser(browser));
            push_str(&mut label, " (");
            push_str(&mut label, name.as_str());
            push_str(&mut label, ")");
            out.push(LocalProfile { browser: owned(browser), id, label, path: e.path.clone() });
        }
        i += 1;
    }
    assert(entries@.take(i as int) =~= entries@);
    out
}

/// Which profile an import reads: an explicit path, else the profile with the
/// chosen id, else the first profile found.
pub open spec fn resolve_profile_spec(
    missing: Seq<char>,
    profile_id: Option<Seq<char>>,
    profile_path: Option<Seq<char>>,
    found: Seq<LocalProfile>,
) -> Result<Seq<char>, Seq<char>> {
    if nonblank(profile_path) {
        Ok(trim_seq(profile_path->0))
    } else if profile_id is Some {
        match profile_with_id(found, profile_id->0) {
            Some(p) => Ok(p.path@),
            None => Err("Selected profile was not found"@),
        }
    } else if found.len() > 0 {
        Ok(found[0].path@)
    } else {
        Err(missing)
    }
}

pub open spec fn res_str(r: Result<String, String>) -> Result<Seq<char>, Seq<char>> {
    match r {
        Ok(v) => Ok(v@),
        Err(e) => Err(e@),
    }
}

/// Picks the profile directory (see `resolve_profile_spec`); `missing` is the
/// error when nothing was found.
pub fn pick_profile(missing: &str, profile_id: Option<&str>, profile_path: Option<&str>, found: &Vec<LocalProfile>) -> (r: Result<String, String>)
    ensures
        res_str(r) == resolve_profile_spec(missing@, opt_str(profile_id), opt_str(profile_path), found@),
{
    if let Some(p) = profile_path {
        let t = trim(p);
        if !t.as_str().is_empty() {
            return Ok(t);
        }
    }
    if let Some(id) = profile_id {
        return match find_profile_path(found, id) {
            Some(p) => Ok(p),
            None => Err(owned("Selected profile was not found")),
        };
    }
    if found.len() > 0 {
        Ok(found[0].path.clone())
    } else {
        Err(owned(missing))
    }
}

/// The error when no Chrome or Edge profile was found.
pub open spec fn no_profiles_spec(browser: Seq<char>) -> Seq<char> {
    "No "@ + display_browser_spec(browser) + " profiles with Cookies DB were found"@
}

pub fn resolve_profile(browser: &str, profile_id: Option<&str>, profile_path: Option<&str>, found: &Vec<LocalProfile>) -> (r: Result<String, String>)
    ensures
        res_str(r) == resolve_profile_spec(no_profiles_spec(browser@), opt_str(profile_id), opt_str(profile_path), found@),
{
    let mut missing = owned("No ");
    push_str(&mut missing, display_browser(browser));
    push_str(&mut missing, " profiles with Cookies DB were found");
    pick_profile(missing.as_str(), profile_id, profile_path, found)
}

// ----- recognising a token -----

/// `s` without leading and trailing NUL characters (`trim_matches('\0')`).
pub open spec fn trim_nul(s: Seq<char>) -> Seq<char>
    decreases s.len(),
{
    if s.len() > 0 && s[0] == '\0' {
        trim_nul(s.drop_first())
    } else if s.len() > 0 && s.last() == '\0' {
        trim_nul(s.drop_last())
    } else {
        s
    }
}

pub fn trim_nul_chars(s: &Vec<char>) -> (r: Vec<char>)
    ensures
        r@ == trim_nul(s@),
{
    let mut lo: usize = 0;
    let mut hi: usize = s.len();
    assert(s@.subrange(0, hi as int) =~= s@);
    while lo < hi && s[lo] == '\0'
        invariant
            lo <= hi == s@.len(),
            trim_nul(s@) == trim_nul(s@.subrange(lo as int, hi as int)),
        decreases hi - lo,
    {
        assert(s@.subrange(lo as int, hi as int).drop_first() =~= s@.subrange(lo + 1, hi as int));
        lo += 1;
    }
    while lo < hi && s[hi - 1] == '\0'
        invariant
            lo <= hi <= s@.len(),
            lo < hi ==> s@[lo as int] != '\0',
            trim_nul(s@) == trim_nul(s@.subrange(lo as int, hi as int)),
        decreases hi - lo,
    {
        let ghost m = s@.subrange(lo as int, hi as int);
        assert(m.drop_last() =~= s@.subrange(lo as int, hi - 1));
        assert(m[0] == s@[lo as int]);
        hi -= 1;
    }
    let r = sub_chars(s, lo, hi);
    proof {
        let m = s@.subrange(lo as int, hi as int);
        if m.len() > 0 {
            assert(m[0] == s@[lo as int]);
            assert(m.last() == s@[hi - 1]);
        }
    }
    r
}

/// A decrypted value is taken for a token when it is non-empty and is
/// dotted like a JWT, or starts with `Bearer `, or is printable ASCII only.
pub open spec fn plausible_token(s: Seq<char>) -> bool {
    s.len() > 0 && (has_char(s, '.') || starts_with_seq(s, "Bearer "@)
        || forall|i: int| 0 <= i < s.len() ==> is_ascii_graphic(#[trigger] s[i]))
}

pub fn is_plausible_token(s: &str) -> (r: bool)
    ensures
        r == plausible_token(s@),
{
    if s.is_empty() {
        return false;
    }
    let cs = chars_of(s);
    if crate::text::find_char(&cs, '.').is_some() {
        return true;
    }
    if str_starts_with(s, "Bearer ") {
        return true;
    }
    let mut i: usize = 0;
    while i < cs.len()
        invariant
            cs@ == s@,
            s@.len() > 0,
            !has_char(s@, '.'),
            !starts_with_seq(s@, "Bearer "@),
            i <= cs@.len(),
            forall|j: int| 0 <= j < i ==> is_ascii_graphic(#[trigger] cs@[j]),
        decreases cs@.len() - i,
    {
        if !ascii_graphic(cs[i]) {
            return false;
        }
        i += 1;
    }
    true
}

/// The token a byte string holds when read as UTF-8 without surrounding NULs.
pub open spec fn token_candidate(bytes: Seq<u8>) -> Option<Seq<char>> {
    if valid_utf8(bytes) && plausible_token(trim_nul(decode_utf8(bytes))) {
        Some(trim_nul(decode_utf8(bytes)))
    } else {
        None
    }
}

/// The token in decrypted cookie bytes: the whole plaintext, or what follows
/// a 32-byte SHA-256 prefix of the host (newer Chromium databases).
pub open spec fn cookie_plaintext_spec(bytes: Seq<u8>, host_key: Seq<char>) -> Result<Seq<char>, Seq<char>> {
    if token_candidate(bytes) is Some {
        Ok(token_candidate(bytes)->0)
    } else if bytes.len() > 32 && token_candidate(bytes.skip(32)) is Some {
        Ok(token_candidate(bytes.skip(32))->0)
    } else {
        Err("Decrypted cookie did not look like a token for host "@ + host_key)
    }
}

fn candidate(bytes: &[u8]) -> (r: Option<String>)
    ensures
        view_string(r) == token_candidate(bytes@),
{
    match utf8_decode(bytes) {
        Some(s) => {
            let cs = chars_of(s.as_str());
            let t = trim_nul_chars(&cs);
            let ts = string_of(&t);
            if is_plausible_token(ts.as_str()) { Some(ts) } else { None }
        },
        None => None,
    }
}

pub fn decode_cookie_plaintext(bytes: &[u8], host_key: &str) -> (r: Result<String, String>)
    ensures
        res_str(r) == cookie_plaintext_spec(bytes@, host_key@),
{
    if let Some(t) = candidate(bytes) {
        return Ok(t);
    }
    let n = bytes.len();
    if n > 32 {
        let tail = slice_subrange(bytes, 32, n);
        assert(tail@ =~= bytes@.skip(32));
        if let Some(t) = candidate(tail) {
            return Ok(t);
        }
    }
    Err(concat2("Decrypted cookie did not look like a token for host ", host_key))
}

// ----- decryption -----

/// Chromium's version tag on encrypted values.
pub open spec fn tagged(enc: Seq<u8>) -> bool {
    enc.len() >= 3 && enc[0] == 118u8 && enc[1] == 49u8 && (enc[2] == 48u8 || enc[2] == 49u8)
}

fn is_tagged(enc: &[u8]) -> (r: bool)
    ensures
        r == tagged(enc@),
{
    enc.len() >= 3 && enc[0] == 118u8 && enc[1] == 49u8 && (enc[2] == 48u8 || enc[2] == 49u8)
}

/// The AES-128-CBC decryption of a legacy value: the key is PBKDF2-HMAC-SHA1
/// of the password with salt `saltysalt`, the IV sixteen spaces, and a
/// version tag is skipped.
pub open spec fn legacy_cbc_spec(enc: Seq<u8>, password: Seq<char>, iterations: u32) -> Result<Seq<u8>, Seq<char>> {
    let body = if tagged(enc) { enc.skip(3) } else { enc };
    match aes128cbc_pkcs7_open(pbkdf2_sha1_16(encode_utf8(password), encode_utf8("saltysalt"@), iterations), Seq::new(16, |i: int| 32u8), body) {
        Some(p) => Ok(p),
        None => Err("AES-CBC decryption failed"@),
    }
}

pub open spec fn res_bytes(r: Result<Vec<u8>, String>) -> Result<Seq<u8>, Seq<char>> {
    match r {
        Ok(v) => Ok(v@),
        Err(e) => Err(e@),
    }
}

pub fn decrypt_legacy_cbc_bytes(enc: &[u8], password: &str, iterations: u32) -> (r: Result<Vec<u8>, String>)
    ensures
        res_bytes(r) == legacy_cbc_spec(enc@, password@, iterations),
{
    let n = enc.len();
    let body = if is_tagged(enc) { slice_subrange(enc, 3, n) } else { enc };
    assert(tagged(enc@) ==> body@ =~= enc@.skip(3));
    let key = pbkdf2_sha1_key16(password.as_bytes(), "saltysalt".as_bytes(), iterations);
    let iv: Vec<u8> = vec![32u8, 32u8, 32u8, 32u8, 32u8, 32u8, 32u8, 32u8, 32u8, 32u8, 32u8, 32u8, 32u8, 32u8, 32u8, 32u8];
    assert(iv@ =~= Seq::new(16, |i: int| 32u8));
    match aes128_cbc_pkcs7_decrypt(key.as_slice(), iv.as_slice(), body) {
        Some(p) => Ok(p),
        None => Err(owned("AES-CBC decryption failed")),
    }
}

pub open spec fn legacy_cookie_spec(enc: Seq<u8>, password: Seq<char>, iterations: u32, host_key: Seq<char>) -> Result<Seq<char>, Seq<char>> {
    match legacy_cbc_spec(enc, password, iterations) {
        Ok(p) => cookie_plaintext_spec(p, host_key),
        Err(e) => Err(e),
    }
}

pub fn decrypt_cookie_legacy_cbc(enc: &[u8], password: &str, iterations: u32, host_key: &str) -> (r: Result<String, String>)
    ensures
        res_str(r) == legacy_cookie_spec(enc@, password@, iterations, host_key@),
{
    match decrypt_legacy_cbc_bytes(enc, password, iterations) {
        Ok(p) => decode_cookie_plaintext(p.as_slice(), host_key),
        Err(e) => Err(e),
    }
}

/// AES-256-GCM decryption of a tagged value with the profile's master key:
/// after the three-byte tag come a 12-byte nonce and the ciphertext.
pub open spec fn gcm_cookie_spec(enc: Seq<u8>, key: Seq<u8>, host_key: Seq<char>) -> Result<Seq<char>, Seq<char>> {
    if key.len() != 32 {
        Err("Chromium master key is not 32 bytes"@)
    } else if enc.len() < 31 {
        Err("Encrypted Chromium cookie payload is too short"@)
    } else {
        match aes256gcm_open(key, enc.subrange(3, 15), enc.skip(15)) {
            Some(p) => cookie_plaintext_spec(p, host_key),
            None => Err("AES-GCM decryption failed"@),
        }
    }
}

pub fn decrypt_cookie_gcm(enc: &[u8], key: &[u8], host_key: &str) -> (r: Result<String, String>)
    ensures
        res_str(r) == gcm_cookie_spec(enc@, key@, host_key@),
{
    if key.len() != 32 {
        return Err(owned("Chromium master key is not 32 bytes"));
    }
    let n = enc.len();
    if n < 31 {
        return Err(owned("Encrypted Chromium cookie payload is too short"));
    }
    let nonce = slice_subrange(enc, 3, 15);
    let ct = slice_subrange(enc, 15, n);
    assert(ct@ =~= enc@.skip(15));
    match gcm_open(key, nonce, ct) {
        Some(p) => decode_cookie_plaintext(p.as_slice(), host_key),
        None => Err(owned("AES-GCM decryption failed")),
    }
}

/// The error when neither the master key nor the legacy password opened a
/// tagged value.
pub open spec fn undecryptable_msg() -> Seq<char> {
    "Chromium token is encrypted and could not be decrypted. Try Firefox/LibreWolf local import, or provide a profile from an unlocked browser session on the same machine."@
}

pub open spec fn opt_key(k: Result<Option<Vec<u8>>, String>) -> Result<Option<Seq<u8>>, Seq<char>> {
    match k {
        Ok(Some(v)) => Ok(Some(v@)),
        Ok(None) => Ok(None),
        Err(e) => Err(e@),
    }
}

/// Decrypting a cookie value: a tagged value is tried with the master key
/// (AES-GCM) and then with the legacy password (AES-CBC); an untagged one with
/// the legacy password only. A failure to get the master key is reported as
/// it is.
pub open spec fn chromium_cookie_spec(
    enc: Seq<u8>,
    master_key: Result<Option<Seq<u8>>, Seq<char>>,
    password: Option<Seq<char>>,
    iterations: u32,
    host_key: Seq<char>,
) -> Result<Seq<char>, Seq<char>> {
    if enc.len() == 0 {
        Err("Encrypted cookie value was empty"@)
    } else if tagged(enc) {
        match master_key {
            Err(e) => Err(e),
            Ok(k) => if k is Some && gcm_cookie_spec(enc, k->0, host_key) is Ok {
                gcm_cookie_spec(enc, k->0, host_key)
            } else if password is Some && legacy_cookie_spec(enc, password->0, iterations, host_key) is Ok {
                legacy_cookie_spec(enc, password->0, iterations, host_key)
            } else {
                Err(undecryptable_msg())
            },
        }
    } else if password is Some && legacy_cookie_spec(enc, password->0, iterations, host_key) is Ok {
        legacy_cookie_spec(enc, password->0, iterations, host_key)
    } else {
        Err("Unsupported Chromium cookie encryption format"@)
    }
}

pub fn decrypt_chromium_cookie(
    enc: &[u8],
    master_key: Result<Option<Vec<u8>>, String>,
    password: Option<&str>,
    iterations: u32,
    host_key: &str,
) -> (r: Result<String, String>)
    ensures
        res_str(r) == chromium_cookie_spec(enc@, opt_key(master_key), opt_str(password), iterations, host_key@),
{
    if enc.len() == 0 {
        return Err(owned("Encrypted cookie value was empty"));
    }
    if is_tagged(enc) {
        match master_key {
            Err(e) => {
                return Err(e);
            },
            Ok(Some(k)) => {
                if let Ok(plain) = decrypt_cookie_gcm(enc, k.as_slice(), host_key) {
                    return Ok(plain);
                }
            },
            Ok(None) => {},
        }
        if let Some(p) = password {
            if let Ok(plain) = decrypt_cookie_legacy_cbc(enc, p, iterations, host_key) {
                return Ok(plain);
            }
        }
        return Err(owned("Chromium token is encrypted and could not be decrypted. Try Firefox/LibreWolf local import, or provide a profile from an unlocked browser session on the same machine."));
    }
    if let Some(p) = password {
        if let Ok(plain) = decrypt_cookie_legacy_cbc(enc, p, iterations, host_key) {
            return Ok(plain);
        }
    }
    Err(owned("Unsupported Chromium cookie encryption format"))
}

/// The token of a cookie row: its plaintext value when there is one, else the
/// decrypted encrypted value.
pub open spec fn row_token_spec(
    value: Seq<char>,
    enc: Seq<u8>,
    master_key: Result<Option<Seq<u8>>, Seq<char>>,
    password: Option<Seq<char>>,
    iterations: u32,
    host_key: Seq<char>,
) -> Result<Seq<char>, Seq<char>> {
    if value.len() > 0 {
        Ok(value)
    } else if enc.len() > 0 {
        chromium_cookie_spec(enc, master_key, password, iterations, host_key)
    } else {
        Err("No reddit token_v2 cookie found in selected Chromium profile"@)
    }
}

/// The token of a cookie row (see `row_token_spec`).
pub fn token_from_row(
    value: &str,
    enc: &[u8],
    master_key: Result<Option<Vec<u8>>, String>,
    password: Option<&str>,
    iterations: u32,
    host_key: &str,
) -> (r: Result<String, String>)
    ensures
        res_str(r) == row_token_spec(value@, enc@, opt_key(master_key), opt_str(password), iterations, host_key@),
{
    if !value.is_empty() {
        Ok(owned(value))
    } else if enc.len() > 0 {
        decrypt_chromium_cookie(enc, master_key, password, iterations, host_key)
    } else {
        Err(owned("No reddit token_v2 cookie found in selected Chromium profile"))
    }
}

// ----- the master key in `Local State` -----

/// PBKDF2 rounds of the legacy key: 1003 on macOS, 1 elsewhere.
pub fn legacy_pbkdf2_iterations(macos: bool) -> (r: u32)
    ensures
        r == (if macos { 1003u32 } else { 1u32 }),
{
    if macos { 1003 } else { 1 }
}

/// Unwrapping the `Local State` key with the Safe Storage password: a 32-byte
/// result is the key; from a longer one the last 32 bytes are taken.
pub open spec fn safe_storage_unwrap_spec(password: Option<Seq<char>>, raw: Seq<u8>, iterations: u32) -> Result<Seq<u8>, Seq<char>> {
    match password {
        None => Err("No Safe Storage password available for Local State key unwrap"@),
        Some(p) => match legacy_cbc_spec(raw, p, iterations) {
            Err(e) => Err(e),
            Ok(d) => if d.len() == 32 {
                Ok(d)
            } else if d.len() > 32 {
                Ok(d.skip(d.len() - 32))
            } else {
                Err("Local State unwrap produced "@ + dec(d.len()) + " bytes, expected at least 32"@)
            },
        },
    }
}

pub fn decrypt_local_state_key_with_safe_storage_password(password: Option<&str>, raw: &[u8], iterations: u32) -> (r: Result<Vec<u8>, String>)
    ensures
        res_bytes(r) == safe_storage_unwrap_spec(opt_str(password), raw@, iterations),
{
    let p = match password {
        Some(p) => p,
        None => {
            return Err(owned("No Safe Storage password available for Local State key unwrap"));
        },
    };
    let d = match decrypt_legacy_cbc_bytes(raw, p, iterations) {
        Ok(d) => d,
        Err(e) => {
            return Err(e);
        },
    };
    let n = d.len();
    if n == 32 {
        Ok(d)
    } else if n > 32 {
        let tail = slice_subrange(d.as_slice(), n - 32, n);
        assert(tail@ =~= d@.skip(n - 32));
        Ok(slice_to_vec(tail))
    } else {
        let mut m = owned("Local State unwrap produced ");
        push_str(&mut m, u64_to_string(n as u64).as_str());
        push_str(&mut m, " bytes, expected at least 32");
        Err(m)
    }
}

/// The bytes `DPAPI`, the Windows prefix of a protected key.
pub open spec fn dpapi_prefixed(raw: Seq<u8>) -> bool {
    raw.len() >= 5 && raw[0] == 68u8 && raw[1] == 80u8 && raw[2] == 65u8 && raw[3] == 80u8 && raw[4] == 73u8
}

/// The master key from `Local State`'s raw key on Linux: a 32-byte key is used
/// as it is; a tagged one is unwrapped with the Safe Storage password (one
/// PBKDF2 round); a DPAPI-protected one or any other shape is refused.
pub open spec fn local_state_key_spec(raw: Seq<u8>, password: Option<Seq<char>>) -> Result<Seq<u8>, Seq<char>> {
    if dpapi_prefixed(raw) {
        Err("Linux Local State key used Windows DPAPI prefix unexpectedly"@)
    } else if raw.len() == 32 {
        Ok(raw)
    } else if tagged(raw) {
        safe_storage_unwrap_spec(password, raw, 1)
    } else {
        Err("Unsupported Linux Local State key format ("@ + dec(raw.len()) + " bytes)"@)
    }
}

pub fn decrypt_local_state_key(raw: &[u8], password: Option<&str>) -> (r: Result<Vec<u8>, String>)
    ensures
        res_bytes(r) == local_state_key_spec(raw@, opt_str(password)),
{
    let n = raw.len();
    if n >= 5 && raw[0] == 68u8 && raw[1] == 80u8 && raw[2] == 65u8 && raw[3] == 80u8 && raw[4] == 73u8 {
        return Err(owned("Linux Local State key used Windows DPAPI prefix unexpectedly"));
    }
    if n == 32 {
        return Ok(slice_to_vec(raw));
    }
    if is_tagged(raw) {
        return decrypt_local_state_key_with_safe_storage_password(password, raw, 1);
    }
    let mut m = owned("Unsupported Linux Local State key format (");
    push_str(&mut m, u64_to_string(n as u64).as_str());
    push_str(&mut m, " bytes)");
    Err(m)
}

/// The master key a `Local State` file yields: none when it names no
/// `os_crypt.encrypted_key`; errors for text that is not JSON or a key that is
/// not base64.
pub open spec fn master_key_spec(contents: Seq<char>, password: Option<Seq<char>>) -> Result<Option<Seq<u8>>, Seq<char>> {
    match json_text_nested_str(contents, "os_crypt"@, "encrypted_key"@) {
        Err(e) => Err("Failed to parse Local State: "@ + e),
        Ok(None) => Ok(None),
        Ok(Some(b64)) => if b64.len() == 0 {
            Ok(None)
        } else {
            match base64_std_decode(b64) {
                None => Err("Invalid Local State encrypted_key: "@ + base64_std_error(b64)),
                Some(raw) => match local_state_key_spec(raw, password) {
                    Ok(k) => Ok(Some(k)),
                    Err(e) => Err(e),
                },
            }
        },
    }
}

pub fn master_key_from_local_state(contents: &str, password: Option<&str>) -> (r: Result<Option<Vec<u8>>, String>)
    ensures
        opt_key(r) == master_key_spec(contents@, opt_str(password)),
{
    let b64 = match json_nested_str(contents, "os_crypt", "encrypted_key") {
        Err(e) => {
            return Err(concat2("Failed to parse Local State: ", e.as_str()));
        },
        Ok(None) => {
            return Ok(None);
        },
        Ok(Some(b)) => b,
    };
    if b64.as_str().is_empty() {
        return Ok(None);
    }
    let raw = match b64_std_decode(b64.as_str()) {
        Err(e) => {
            return Err(concat2("Invalid Local State encrypted_key: ", e.as_str()));
        },
        Ok(raw) => raw,
    };
    match decrypt_local_state_key(raw.as_slice(), password) {
        Ok(k) => Ok(Some(k)),
        Err(e) => Err(e),
    }
}

// ----- the legacy password -----

/// The `secret-tool` applications tried for the Safe Storage password.
pub fn linux_secret_tool_application_candidates(browser: &str) -> (r: Vec<&'static str>)
    ensures
        r@.len() == (if browser@ == "edge"@ { 3int } else { 4int }),
        browser@ == "edge"@ ==> r@[0]@ == "microsoft-edge"@ && r@[1]@ == "Microsoft Edge"@ && r@[2]@ == "chrome"@,
        browser@ != "edge"@ ==> r@[0]@ == "chrome"@ && r@[1]@ == "google-chrome"@ && r@[2]@ == "chromium"@
            && r@[3]@ == "Chromium"@,
{
    if str_eq(browser, "edge") {
        vec!["microsoft-edge", "Microsoft Edge", "chrome"]
    } else {
        vec!["chrome", "google-chrome", "chromium", "Chromium"]
    }
}

/// The macOS Keychain services tried for the Safe Storage password.
pub fn mac_safe_storage_service_candidates(browser: &str) -> (r: Vec<&'static str>)
    ensures
        browser@ == "edge"@ ==> r@.len() == 1 && r@[0]@ == "Microsoft Edge Safe Storage"@,
        browser@ != "edge"@ ==> r@.len() == 2 && r@[0]@ == "Chrome Safe Storage"@ && r@[1]@ == "Chromium Safe Storage"@,
{
    if str_eq(browser, "edge") {
        vec!["Microsoft Edge Safe Storage"]
    } else {
        vec!["Chrome Safe Storage", "Chromium Safe Storage"]
    }
}

/// What one password lookup (one `secret-tool` or `security` run) decides.
#[derive(Debug)]
pub enum LookupStep {
    /// The password, trimmed.
    Found(String),
    /// The tool could not be started: stop looking.
    Abort,
    /// Try the next candidate.
    Next,
}

/// A lookup that ran and succeeded with non-blank output gives the password;
/// a tool that could not be started ends the search.
pub fn lookup_step(started: bool, success: bool, stdout: &str) -> (r: LookupStep)
    ensures
        match r {
            LookupStep::Found(p) => started && success && trim_seq(stdout@).len() > 0 && p@ == trim_seq(stdout@),
            LookupStep::Abort => !started,
            LookupStep::Next => started && !(success && trim_seq(stdout@).len() > 0),
        },
{
    if !started {
        return LookupStep::Abort;
    }
    if success {
        let p = trim(stdout);
        if !p.as_str().is_empty() {
            return LookupStep::Found(p);
        }
    }
    LookupStep::Next
}

/// The password some Linux Chromium builds use without a keyring.
pub fn linux_fallback_password() -> (r: &'static str)
    ensures
        r@ == "peanuts"@,
{
    "peanuts"
}

/// Where Chrome or Edge keeps its user data: the environment variable that
/// gives the root (`LOCALAPPDATA` on Windows, `HOME` elsewhere) and the
/// directories below it.
pub open spec fn user_data_spec(os: super::HostOs, browser: Seq<char>) -> (Seq<char>, Seq<Seq<char>>) {
    let edge = browser == "edge"@;
    match os {
        super::HostOs::Windows => ("LOCALAPPDATA"@, if edge {
            seq!["Microsoft"@, "Edge"@, "User Data"@]
        } else {
            seq!["Google"@, "Chrome"@, "User Data"@]
        }),
        super::HostOs::MacOs => ("HOME"@, if edge {
            seq!["Library"@, "Application Support"@, "Microsoft Edge"@]
        } else {
            seq!["Library"@, "Application Support"@, "Google"@, "Chrome"@]
        }),
        super::HostOs::Unix => ("HOME"@, if edge { seq![".config"@, "microsoft-edge"@] } else { seq![".config"@, "google-chrome"@] }),
    }
}

pub fn user_data_parts(os: super::HostOs, browser: &str) -> (r: (&'static str, Vec<&'static str>))
    ensures
        (r.0@, super::str_views(r.1@)) == user_data_spec(os, browser@),
{
    let edge = str_eq(browser, "edge");
    let r = match os {
        super::HostOs::Windows => ("LOCALAPPDATA", if edge {
            vec!["Microsoft", "Edge", "User Data"]
        } else {
            vec!["Google", "Chrome", "User Data"]
        }),
        super::HostOs::MacOs => ("HOME", if edge {
            vec!["Library", "Application Support", "Microsoft Edge"]
        } else {
            vec!["Library", "Application Support", "Google", "Chrome"]
        }),
        super::HostOs::Unix => ("HOME", if edge { vec![".config", "microsoft-edge"] } else { vec![".config", "google-chrome"] }),
    };
    assert(super::str_views(r.1@) =~= user_data_spec(os, browser@).1);
    r
}

} // verus!
