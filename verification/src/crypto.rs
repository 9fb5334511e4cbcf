//! Calls into the cryptography and encoding crates, each with the contract
//! the library relies on.
use vstd::prelude::*;
use aes_gcm::aead::{Aead, KeyInit};
use base64::Engine as _;
use cbc::cipher::{block_padding::Pkcs7, BlockDecryptMut, KeyIvInit};
use rand::RngCore;

verus! {

// ----- names for results that take pages to state -----

/// Standard (padded) base64 text of a byte string.
pub uninterp spec fn base64_std_encode(bytes: Seq<u8>) -> Seq<char>;

/// Standard (padded) base64 decoding; `None` for text that is not canonical base64.
pub uninterp spec fn base64_std_decode(text: Seq<char>) -> Option<Seq<u8>>;

/// URL-safe base64 decoding without padding; `None` for invalid text.
pub uninterp spec fn base64_url_nopad_decode(text: Seq<char>) -> Option<Seq<u8>>;

/// AES-256-GCM ciphertext (with its 16-byte tag appended) of a plaintext.
pub uninterp spec fn aes256gcm_seal(key: Seq<u8>, nonce: Seq<u8>, plaintext: Seq<u8>) -> Seq<u8>;

/// AES-256-GCM decryption; `None` when the tag does not verify.
pub uninterp spec fn aes256gcm_open(key: Seq<u8>, nonce: Seq<u8>, ciphertext: Seq<u8>) -> Option<Seq<u8>>;

/// HKDF-SHA256 (no salt) expanded to 32 bytes.
pub uninterp spec fn hkdf_sha256_32(ikm: Seq<u8>, info: Seq<u8>) -> Seq<u8>;

/// PBKDF2-HMAC-SHA1 derived 16-byte key.
pub uninterp spec fn pbkdf2_sha1_16(password: Seq<u8>, salt: Seq<u8>, rounds: u32) -> Seq<u8>;

/// AES-128-CBC decryption with PKCS#7 unpadding; `None` on bad padding or length.
pub uninterp spec fn aes128cbc_pkcs7_open(key: Seq<u8>, iv: Seq<u8>, ciphertext: Seq<u8>) -> Option<Seq<u8>>;

/// The string at top-level field `field` of the JSON object in `bytes`; `None`
/// when the bytes are not JSON, or the field is missing or not a string.
pub uninterp spec fn json_str_field(bytes: Seq<u8>, field: Seq<char>) -> Option<Seq<char>>;

/// Most plaintext bytes AES-GCM accepts.
pub open spec fn gcm_p_max() -> int {
    0x10_0000_0000
}

pub open spec fn view_bytes(o: Option<Vec<u8>>) -> Option<Seq<u8>> {
    match o {
        Some(v) => Some(v@),
        None => None,
    }
}

pub open spec fn view_string(o: Option<String>) -> Option<Seq<char>> {
    match o {
        Some(v) => Some(v@),
        None => None,
    }
}

// ----- base64 -----

/// `base64::engine::general_purpose::STANDARD.encode`. Its output is named by
/// `base64_std_encode`; the claim beyond the name is the crate's round-trip
/// guarantee: decoding what it encoded gives the bytes back.
#[verifier::external_body]
pub(crate) fn b64_std_encode(bytes: &[u8]) -> (r: String)
    ensures
        r@ == base64_std_encode(bytes@),
        base64_std_decode(r@) == Some(bytes@),
{
    base64::engine::general_purpose::STANDARD.encode(bytes)
}

/// The message of the error that standard base64 decoding reports for `text`
/// (the crate's `DecodeError` as displayed).
pub uninterp spec fn base64_std_error(text: Seq<char>) -> Seq<char>;

/// `base64::engine::general_purpose::STANDARD.decode`: the bytes, named by
/// `base64_std_decode`, or its error as text, named by `base64_std_error`.
#[verifier::external_body]
pub(crate) fn b64_std_decode(text: &str) -> (r: Result<Vec<u8>, String>)
    ensures
        match r {
            Ok(b) => base64_std_decode(text@) == Some(b@),
            Err(e) => base64_std_decode(text@) is None && e@ == base64_std_error(text@),
        },
{
    base64::engine::general_purpose::STANDARD.decode(text).map_err(|e| e.to_string())
}

/// `base64::engine::general_purpose::URL_SAFE_NO_PAD.decode`, with `None` for its error.
#[verifier::external_body]
pub(crate) fn b64_url_nopad_decode(text: &str) -> (r: Option<Vec<u8>>)
    ensures
        view_bytes(r) == base64_url_nopad_decode(text@),
{
    base64::engine::general_purpose::URL_SAFE_NO_PAD.decode(text).ok()
}

// ----- AES-256-GCM -----

/// `Aes256Gcm::encrypt` with a 32-byte key and 12-byte nonce. The crate
/// refuses plaintexts longer than 2^36 bytes and accepts all others; the
/// ciphertext is named by `aes256gcm_seal`, and the claim beyond the name is
/// AEAD correctness: opening it with the same key and nonce gives the
/// plaintext back.
#[verifier::external_body]
pub(crate) fn gcm_seal(key: &[u8], nonce: &[u8], plaintext: &[u8]) -> (r: Option<Vec<u8>>)
    requires
        key@.len() == 32,
        nonce@.len() == 12,
    ensures
        plaintext@.len() <= gcm_p_max() ==> view_bytes(r) == Some(aes256gcm_seal(key@, nonce@, plaintext@)),
        plaintext@.len() > gcm_p_max() ==> r is None,
        r matches Some(c) ==> aes256gcm_open(key@, nonce@, c@) == Some(plaintext@),
{
    let cipher = aes_gcm::Aes256Gcm::new_from_slice(key).ok()?;
    cipher.encrypt(aes_gcm::Nonce::from_slice(nonce), plaintext).ok()
}

/// `Aes256Gcm::decrypt` with a 32-byte key and 12-byte nonce, `None` for its error.
#[verifier::external_body]
pub(crate) fn gcm_open(key: &[u8], nonce: &[u8], ciphertext: &[u8]) -> (r: Option<Vec<u8>>)
    requires
        key@.len() == 32,
        nonce@.len() == 12,
    ensures
        view_bytes(r) == aes256gcm_open(key@, nonce@, ciphertext@),
{
    let cipher = aes_gcm::Aes256Gcm::new_from_slice(key).ok()?;
    cipher.decrypt(aes_gcm::Nonce::from_slice(nonce), ciphertext).ok()
}

// ----- key derivation -----

/// `Hkdf::<Sha256>::new(None, ikm).expand(info, &mut [0u8; 32])`; a 32-byte
/// output is within HKDF's limit, so the expansion always succeeds.
#[verifier::external_body]
pub(crate) fn hkdf_sha256_expand32(ikm: &[u8], info: &[u8]) -> (r: Vec<u8>)
    ensures
        r@ == hkdf_sha256_32(ikm@, info@),
        r@.len() == 32,
{
    let hk = hkdf::Hkdf::<sha2::Sha256>::new(None, ikm);
    let mut key = vec![0u8; 32];
    let _ = hk.expand(info, &mut key);
    key
}

/// `pbkdf2::pbkdf2_hmac::<Sha1>` into a 16-byte buffer.
#[verifier::external_body]
pub(crate) fn pbkdf2_sha1_key16(password: &[u8], salt: &[u8], rounds: u32) -> (r: Vec<u8>)
    ensures
        r@ == pbkdf2_sha1_16(password@, salt@, rounds),
        r@.len() == 16,
{
    let mut key = vec![0u8; 16];
    pbkdf2::pbkdf2_hmac::<sha1::Sha1>(password, salt, rounds, &mut key);
    key
}

/// `cbc::Decryptor::<Aes128>::decrypt_padded_mut::<Pkcs7>` with a 16-byte key
/// and IV, `None` for its error.
#[verifier::external_body]
pub(crate) fn aes128_cbc_pkcs7_decrypt(key: &[u8], iv: &[u8], ciphertext: &[u8]) -> (r: Option<Vec<u8>>)
    requires
        key@.len() == 16,
        iv@.len() == 16,
    ensures
        view_bytes(r) == aes128cbc_pkcs7_open(key@, iv@, ciphertext@),
{
    let mut buf = ciphertext.to_vec();
    let dec = cbc::Decryptor::<aes::Aes128>::new_from_slices(key, iv).ok()?;
    dec.decrypt_padded_mut::<Pkcs7>(&mut buf).ok().map(|p| p.to_vec())
}

// ----- JSON -----

/// Whether the bytes are one JSON value.
pub uninterp spec fn json_parses(bytes: Seq<u8>) -> bool;

/// `serde_json::from_slice::<Value>(bytes).is_ok()`, named by `json_parses`.
#[verifier::external_body]
pub(crate) fn json_is_value(bytes: &[u8]) -> (r: bool)
    ensures
        r == json_parses(bytes@),
{
    serde_json::from_slice::<serde_json::Value>(bytes).is_ok()
}

/// `serde_json::from_slice::<Value>` followed by indexing a top-level field and
/// `Value::as_str`: the field's string, named by `json_str_field`.
#[verifier::external_body]
pub(crate) fn json_field_str(bytes: &[u8], field: &str) -> (r: Option<String>)
    ensures
        view_string(r) == json_str_field(bytes@, field@),
{
    let v: serde_json::Value = serde_json::from_slice(bytes).ok()?;
    v[field].as_str().map(|s| s.to_string())
}

/// The integer at top-level field `field` of the JSON object in `bytes` when it
/// fits an `i64`; `None` when the bytes are not JSON, or the field is missing
/// or not such an integer.
pub uninterp spec fn json_i64_field(bytes: Seq<u8>, field: Seq<char>) -> Option<i64>;

/// `serde_json::from_slice::<Value>` followed by indexing a top-level field and
/// `Value::as_i64`, named by `json_i64_field`.
#[verifier::external_body]
pub(crate) fn json_field_i64(bytes: &[u8], field: &str) -> (r: Option<i64>)
    ensures
        r == json_i64_field(bytes@, field@),
{
    let v: serde_json::Value = serde_json::from_slice(bytes).ok()?;
    v[field].as_i64()
}

/// Parsing `text` as JSON and reading the string at `outer.inner`: the error
/// message when the text is not JSON, else the string if that field holds one.
pub uninterp spec fn json_text_nested_str(text: Seq<char>, outer: Seq<char>, inner: Seq<char>) -> Result<Option<Seq<char>>, Seq<char>>;

/// `serde_json::from_str::<Value>`, then `get(outer)`, `get(inner)` and
/// `Value::as_str`; the parse error as displayed. Named by
/// `json_text_nested_str`.
#[verifier::external_body]
pub(crate) fn json_nested_str(text: &str, outer: &str, inner: &str) -> (r: Result<Option<String>, String>)
    ensures
        match r {
            Ok(o) => json_text_nested_str(text@, outer@, inner@) == Ok::<Option<Seq<char>>, Seq<char>>(view_string(o)),
            Err(e) => json_text_nested_str(text@, outer@, inner@) == Err::<Option<Seq<char>>, Seq<char>>(e@),
        },
{
    let v: serde_json::Value = serde_json::from_str(text).map_err(|e| e.to_string())?;
    Ok(v.get(outer).and_then(|o| o.get(inner)).and_then(|x| x.as_str()).map(|x| x.to_string()))
}

// ----- regular expressions -----

/// What `Regex::new(pattern)` followed by `replace(text, rep)` gives: the text
/// with the leftmost match replaced (none replaced when nothing matches);
/// `None` when the pattern does not compile.
pub uninterp spec fn regex_replaced(pattern: Seq<char>, text: Seq<char>, rep: Seq<char>) -> Option<Seq<char>>;

/// `Regex::new(pattern)` and `replace(text, rep)`, with `None` for a pattern
/// that does not compile; named by `regex_replaced`.
#[verifier::external_body]
pub(crate) fn regex_replace_first(pattern: &str, text: &str, rep: &str) -> (r: Option<String>)
    ensures
        view_string(r) == regex_replaced(pattern@, text@, rep@),
{
    let re = regex::Regex::new(pattern).ok()?;
    Some(re.replace(text, rep).to_string())
}

/// What capture group `group` of the leftmost match of `pattern` in `text`
/// holds: `None` when the pattern does not compile, nothing matches, or the
/// group took no part in the match.
pub uninterp spec fn regex_group(pattern: Seq<char>, group: usize, text: Seq<char>) -> Option<Seq<char>>;

/// `Regex::new(pattern)`, `captures(text)` and `get(group)`, with `None` for a
/// pattern that does not compile; named by `regex_group`.
#[verifier::external_body]
pub(crate) fn regex_capture(pattern: &str, group: usize, text: &str) -> (r: Option<String>)
    ensures
        view_string(r) == regex_group(pattern@, group, text@),
{
    let re = regex::Regex::new(pattern).ok()?;
    let caps = re.captures(text)?;
    caps.get(group).map(|m| m.as_str().to_string())
}

// ----- form encoding -----

/// The name-value pairs of an `application/x-www-form-urlencoded` body.
pub uninterp spec fn urlencoded_pairs(bytes: Seq<u8>) -> Seq<(Seq<char>, Seq<char>)>;

/// `url::form_urlencoded::parse`, each pair owned; named by
/// `urlencoded_pairs`.
#[verifier::external_body]
pub(crate) fn parse_urlencoded(bytes: &[u8]) -> (r: Vec<(String, String)>)
    ensures
        r@.len() == urlencoded_pairs(bytes@).len(),
        forall|i: int| 0 <= i < r@.len() ==> (#[trigger] r@[i]).0@ == urlencoded_pairs(bytes@)[i].0
            && r@[i].1@ == urlencoded_pairs(bytes@)[i].1,
{
    url::form_urlencoded::parse(bytes).map(|(k, v)| (k.into_owned(), v.into_owned())).collect()
}

// ----- UTF-8 -----

/// `std::str::from_utf8`, owned: `Some` exactly for valid UTF-8, holding the
/// decoded characters.
#[verifier::external_body]
pub(crate) fn utf8_decode(bytes: &[u8]) -> (r: Option<String>)
    ensures
        r is Some <==> vstd::utf8::valid_utf8(bytes@),
        r is Some ==> r->0@ == vstd::utf8::decode_utf8(bytes@),
{
    std::str::from_utf8(bytes).ok().map(|s| s.to_string())
}

/// The text of the error `String::from_utf8` reports for invalid bytes.
pub uninterp spec fn utf8_error_text(bytes: Seq<u8>) -> Seq<char>;

/// `String::from_utf8`, its error written with `to_string`: the decoded
/// characters for valid UTF-8, else the error text, named by
/// `utf8_error_text`.
#[verifier::external_body]
pub(crate) fn string_from_utf8(bytes: Vec<u8>) -> (r: Result<String, String>)
    ensures
        r is Ok <==> vstd::utf8::valid_utf8(bytes@),
        r matches Ok(s) ==> s@ == vstd::utf8::decode_utf8(bytes@),
        r matches Err(e) ==> e@ == utf8_error_text(bytes@),
{
    String::from_utf8(bytes).map_err(|e| e.to_string())
}

// ----- randomness -----

/// `rand::rngs::OsRng.fill_bytes` on a 12-byte buffer: fresh random bytes, of
/// which only the count is stated.
#[verifier::external_body]
pub(crate) fn random_nonce() -> (r: Vec<u8>)
    ensures
        r@.len() == 12,
{
    let mut n = vec![0u8; 12];
    rand::rngs::OsRng.fill_bytes(&mut n);
    n
}

/// `uuid::Uuid::new_v4().to_string()`: a random version-4 UUID in its
/// hyphenated 36-character form; only the length is stated.
#[verifier::external_body]
pub(crate) fn new_uuid_v4() -> (r: String)
    ensures
        r@.len() == 36,
{
    uuid::Uuid::new_v4().to_string()
}

// ----- percent-encoding -----

/// The upper-case hexadecimal digit for a value below sixteen.
pub open spec fn upper_hex(v: int) -> char {
    if v < 10 { (48 + v) as char } else { (55 + v) as char }
}

/// An ASCII letter or digit byte.
pub open spec fn alnum_byte(b: u8) -> bool {
    (48 <= b <= 57) || (65 <= b <= 90) || (97 <= b <= 122)
}

/// One byte under the `NON_ALPHANUMERIC` set: letters and digits stay, every
/// other byte becomes `%XX`.
pub open spec fn pct_byte(b: u8) -> Seq<char> {
    if alnum_byte(b) {
        seq![b as char]
    } else {
        seq!['%', upper_hex((b / 16) as int), upper_hex((b % 16) as int)]
    }
}

pub open spec fn pct_bytes(bs: Seq<u8>) -> Seq<char>
    decreases bs.len(),
{
    if bs.len() == 0 {
        seq![]
    } else {
        pct_bytes(bs.drop_last()) + pct_byte(bs.last())
    }
}

/// `percent_encoding::utf8_percent_encode(s, NON_ALPHANUMERIC).to_string()`:
/// the UTF-8 bytes of `s`, each ASCII letter or digit kept and every other
/// byte written `%XX` in upper-case hexadecimal.
#[verifier::external_body]
pub(crate) fn percent_encode(s: &str) -> (r: String)
    ensures
        r@ == pct_bytes(vstd::utf8::encode_utf8(s@)),
{
    percent_encoding::utf8_percent_encode(s, percent_encoding::NON_ALPHANUMERIC).to_string()
}

} // verus!
