//! Character and string helpers shared by the rest of the library.
use vstd::prelude::*;
use vstd::std_specs::iter::IteratorSpec;

verus! {

/// Appends one character to a `String` (`String::push`).
#[verifier::external_body]
pub(crate) fn push_char(s: &mut String, c: char)
    ensures
        final(s)@ == old(s)@.push(c),
{
    s.push(c);
}

/// The characters of a string slice, in order.
pub fn chars_of(s: &str) -> (v: Vec<char>)
    ensures
        v@ == s@,
{
    let mut v: Vec<char> = Vec::new();
    let mut it = s.chars();
    loop
        invariant
            v@ + it.remaining() == s@,
            it.decrease() is Some,
        ensures
            v@ == s@,
        decreases it.decrease()->0,
    {
        match it.next() {
            Some(c) => {
                v.push(c);
            },
            None => {
                break;
            },
        }
    }
    v
}

} // verus!

verus! {

/// A `String` holding exactly the given characters.
pub fn string_of(cs: &Vec<char>) -> (s: String)
    ensures
        s@ == cs@,
{
    let mut s = String::new();
    let mut i: usize = 0;
    while i < cs.len()
        invariant
            i <= cs@.len(),
            s@ == cs@.take(i as int),
        decreases cs@.len() - i,
    {
        push_char(&mut s, cs[i]);
        i += 1;
        assert(s@ =~= cs@.take(i as int));
    }
    assert(cs@.take(i as int) =~= cs@);
    s
}

/// Equality of two string slices, byte by byte: two strings are equal exactly
/// when their UTF-8 encodings are.
pub(crate) fn str_eq(a: &str, b: &str) -> (r: bool)
    ensures
        r == (a@ == b@),
{
    let x = a.as_bytes();
    let y = b.as_bytes();
    proof {
        vstd::utf8::encode_utf8_decode_utf8(a@);
        vstd::utf8::encode_utf8_decode_utf8(b@);
    }
    if x.len() != y.len() {
        return false;
    }
    let mut i: usize = 0;
    while i < x.len()
        invariant
            x@ == vstd::utf8::encode_utf8(a@),
            y@ == vstd::utf8::encode_utf8(b@),
            x@.len() == y@.len(),
            i <= x@.len(),
            forall|j: int| 0 <= j < i ==> x@[j] == y@[j],
        decreases x@.len() - i,
    {
        if x[i] != y[i] {
            return false;
        }
        i += 1;
    }
    assert(x@ =~= y@);
    true
}

/// A fresh `String` with the contents of a slice.
pub fn owned(s: &str) -> (r: String)
    ensures
        r@ == s@,
{
    s.to_owned()
}

/// Unicode `White_Space`, the property behind `char::is_whitespace`.
pub open spec fn is_ws(c: char) -> bool {
    let u = c as u32;
    (9 <= u <= 13) || u == 32 || u == 0x85 || u == 0xa0 || u == 0x1680 || (0x2000 <= u <= 0x200a)
        || u == 0x2028 || u == 0x2029 || u == 0x202f || u == 0x205f || u == 0x3000
}

pub fn is_whitespace(c: char) -> (r: bool)
    ensures
        r == is_ws(c),
{
    let u = c as u32;
    (9 <= u && u <= 13) || u == 32 || u == 0x85 || u == 0xa0 || u == 0x1680 || (0x2000 <= u && u <= 0x200a)
        || u == 0x2028 || u == 0x2029 || u == 0x202f || u == 0x205f || u == 0x3000
}

pub open spec fn is_ascii_digit(c: char) -> bool {
    '0' <= c <= '9'
}

pub open spec fn is_ascii_lower(c: char) -> bool {
    'a' <= c <= 'z'
}

pub open spec fn is_ascii_upper(c: char) -> bool {
    'A' <= c <= 'Z'
}

pub open spec fn is_ascii_alnum(c: char) -> bool {
    is_ascii_digit(c) || is_ascii_lower(c) || is_ascii_upper(c)
}

/// Printable ASCII other than space (`char::is_ascii_graphic`).
pub open spec fn is_ascii_graphic(c: char) -> bool {
    '!' <= c <= '~'
}

/// `char::to_ascii_lowercase`.
pub open spec fn ascii_lower(c: char) -> char {
    if is_ascii_upper(c) { ((c as u32) + 32) as char } else { c }
}

pub fn ascii_alnum(c: char) -> (r: bool)
    ensures
        r == is_ascii_alnum(c),
{
    ('0' <= c && c <= '9') || ('a' <= c && c <= 'z') || ('A' <= c && c <= 'Z')
}

pub fn ascii_graphic(c: char) -> (r: bool)
    ensures
        r == is_ascii_graphic(c),
{
    '!' <= c && c <= '~'
}

pub fn to_ascii_lower(c: char) -> (r: char)
    ensures
        r == ascii_lower(c),
{
    if 'A' <= c && c <= 'Z' {
        let u = ((c as u32) + 32) as u8;
        u as char
    } else {
        c
    }
}

/// ASCII case folding of a whole character sequence.
pub open spec fn ascii_lower_seq(s: Seq<char>) -> Seq<char> {
    s.map_values(|c: char| ascii_lower(c))
}

/// `str::eq_ignore_ascii_case`: equal after folding ASCII letters.
pub open spec fn eq_ignore_ascii_case(a: Seq<char>, b: Seq<char>) -> bool {
    a.len() == b.len() && forall|i: int| 0 <= i < a.len() ==> ascii_lower(#[trigger] a[i]) == ascii_lower(b[i])
}

pub fn chars_eq_ignore_ascii_case(a: &Vec<char>, b: &Vec<char>) -> (r: bool)
    ensures
        r == eq_ignore_ascii_case(a@, b@),
{
    if a.len() != b.len() {
        return false;
    }
    let mut i: usize = 0;
    while i < a.len()
        invariant
            a@.len() == b@.len(),
            i <= a@.len(),
            forall|k: int| 0 <= k < i ==> ascii_lower(#[trigger] a@[k]) == ascii_lower(b@[k]),
        decreases a@.len() - i,
    {
        if to_ascii_lower(a[i]) != to_ascii_lower(b[i]) {
            return false;
        }
        i += 1;
    }
    true
}

pub fn str_eq_ignore_ascii_case(a: &str, b: &str) -> (r: bool)
    ensures
        r == eq_ignore_ascii_case(a@, b@),
{
    let av = chars_of(a);
    let bv = chars_of(b);
    chars_eq_ignore_ascii_case(&av, &bv)
}

/// What `str::to_lowercase` returns for a character sequence (full Unicode
/// case mapping).
pub uninterp spec fn unicode_lower(s: Seq<char>) -> Seq<char>;

/// `str::to_lowercase`. Its result is named by `unicode_lower`. Two facts are
/// stated: on ASCII input the standard library documents it to agree with
/// ASCII case folding, and, being the lowercase equivalent of the input, it
/// holds no ASCII capital letter (every one of `A`-`Z` maps to its small
/// letter). The Unicode case tables themselves are left unsaid.
#[verifier::external_body]
pub(crate) fn to_lowercase(s: &str) -> (r: String)
    ensures
        r@ == unicode_lower(s@),
        vstd::string::is_ascii(s) ==> r@ == ascii_lower_seq(s@),
        forall|i: int| 0 <= i < r@.len() ==> !is_ascii_upper(#[trigger] r@[i]),
{
    s.to_lowercase()
}

/// `needle` occurs in `hay` at position `i`.
pub open spec fn occurs_at(hay: Seq<char>, needle: Seq<char>, i: int) -> bool {
    0 <= i && i + needle.len() <= hay.len() && hay.subrange(i, i + needle.len()) == needle
}

/// `str::contains` for a string pattern.
pub open spec fn contains_seq(hay: Seq<char>, needle: Seq<char>) -> bool {
    exists|i: int| occurs_at(hay, needle, i)
}

/// `str::starts_with`.
pub open spec fn starts_with_seq(s: Seq<char>, p: Seq<char>) -> bool {
    p.len() <= s.len() && s.subrange(0, p.len() as int) == p
}

/// `str::ends_with`.
pub open spec fn ends_with_seq(s: Seq<char>, p: Seq<char>) -> bool {
    p.len() <= s.len() && s.subrange(s.len() - p.len(), s.len() as int) == p
}

pub fn matches_at(hay: &Vec<char>, needle: &Vec<char>, i: usize) -> (r: bool)
    requires
        i + needle@.len() <= hay@.len(),
    ensures
        r == (hay@.subrange(i as int, i + needle@.len()) == needle@),
{
    let mut k: usize = 0;
    while k < needle.len()
        invariant
            i + needle@.len() <= hay.len(),
            k <= needle@.len(),
            forall|t: int| 0 <= t < k ==> hay@[i + t] == needle@[t],
        decreases needle@.len() - k,
    {
        if hay[i + k] != needle[k] {
            assert(hay@.subrange(i as int, i + needle@.len())[k as int] != needle@[k as int]);
            return false;
        }
        k += 1;
    }
    assert(hay@.subrange(i as int, i + needle@.len()) =~= needle@);
    true
}

pub fn chars_contains(hay: &Vec<char>, needle: &Vec<char>) -> (r: bool)
    ensures
        r == contains_seq(hay@, needle@),
{
    if needle.len() > hay.len() {
        assert forall|i: int| !occurs_at(hay@, needle@, i) by {}
        return false;
    }
    let last = hay.len() - needle.len();
    let mut i: usize = 0;
    loop
        invariant
            last == hay@.len() - needle@.len(),
            i <= last,
            forall|j: int| 0 <= j < i ==> !occurs_at(hay@, needle@, j),
        ensures
            i == last,
            forall|j: int| 0 <= j <= i ==> !occurs_at(hay@, needle@, j),
        decreases last - i,
    {
        if matches_at(hay, needle, i) {
            assert(occurs_at(hay@, needle@, i as int));
            return true;
        }
        if i == last {
            break;
        }
        i += 1;
    }
    assert forall|j: int| !occurs_at(hay@, needle@, j) by {
        if 0 <= j && j <= i {
        }
    }
    false
}

pub fn str_contains(hay: &str, needle: &str) -> (r: bool)
    ensures
        r == contains_seq(hay@, needle@),
{
    let h = chars_of(hay);
    let n = chars_of(needle);
    chars_contains(&h, &n)
}

pub fn chars_starts_with(s: &Vec<char>, p: &Vec<char>) -> (r: bool)
    ensures
        r == starts_with_seq(s@, p@),
{
    if p.len() > s.len() {
        return false;
    }
    matches_at(s, p, 0)
}

pub fn chars_ends_with(s: &Vec<char>, p: &Vec<char>) -> (r: bool)
    ensures
        r == ends_with_seq(s@, p@),
{
    if p.len() > s.len() {
        return false;
    }
    matches_at(s, p, s.len() - p.len())
}

pub fn str_starts_with(s: &str, p: &str) -> (r: bool)
    ensures
        r == starts_with_seq(s@, p@),
{
    let sv = chars_of(s);
    let pv = chars_of(p);
    chars_starts_with(&sv, &pv)
}

pub fn str_ends_with(s: &str, p: &str) -> (r: bool)
    ensures
        r == ends_with_seq(s@, p@),
{
    let sv = chars_of(s);
    let pv = chars_of(p);
    chars_ends_with(&sv, &pv)
}

} // verus!

verus! {

/// `str::split_whitespace`: the maximal runs of non-whitespace characters,
/// read from left to right.
pub open spec fn words(s: Seq<char>) -> Seq<Seq<char>>
    decreases s.len(),
{
    if s.len() == 0 {
        seq![]
    } else {
        let w = words(s.drop_last());
        let c = s.last();
        if is_ws(c) {
            w
        } else if s.len() >= 2 && !is_ws(s[s.len() - 2]) {
            w.update(w.len() - 1, w.last().push(c))
        } else {
            w.push(seq![c])
        }
    }
}

pub(crate) proof fn lemma_words_nonempty_after_word_char(s: Seq<char>)
    requires
        s.len() > 0,
        !is_ws(s.last()),
    ensures
        words(s).len() > 0,
    decreases s.len(),
{
    let p = s.drop_last();
    if s.len() >= 2 && !is_ws(s[s.len() - 2]) {
        assert(p.last() == s[s.len() - 2]);
        lemma_words_nonempty_after_word_char(p);
    }
}

/// The whitespace-separated words of a character sequence.
pub fn split_whitespace(s: &Vec<char>) -> (out: Vec<String>)
    ensures
        out@.map_values(|w: String| w@) == words(s@),
{
    let mut out: Vec<String> = Vec::new();
    let mut in_word = false;
    let mut i: usize = 0;
    while i < s.len()
        invariant
            i <= s@.len(),
            out@.map_values(|w: String| w@) == words(s@.take(i as int)),
            in_word == (i > 0 && !is_ws(s@[i - 1])),
        decreases s@.len() - i,
    {
        let c = s[i];
        let ghost pre = s@.take(i as int);
        let ghost cur = s@.take(i + 1);
        assert(cur.drop_last() =~= pre);
        if is_whitespace(c) {
            in_word = false;
        } else if in_word {
            proof {
                lemma_words_nonempty_after_word_char(pre);
            }
            let mut last = out.pop().unwrap();
            push_char(&mut last, c);
            out.push(last);
            in_word = true;
            assert(out@.map_values(|w: String| w@) =~= words(cur));
        } else {
            let mut w = String::new();
            push_char(&mut w, c);
            out.push(w);
            in_word = true;
            assert(out@.map_values(|w: String| w@) =~= words(cur));
        }
        i += 1;
    }
    assert(s@.take(i as int) =~= s@);
    out
}

/// Joins a list of character sequences with a separator.
pub open spec fn seq_join(list: Seq<Seq<char>>, sep: Seq<char>) -> Seq<char>
    decreases list.len(),
{
    if list.len() == 0 {
        seq![]
    } else if list.len() == 1 {
        list[0]
    } else {
        seq_join(list.drop_last(), sep) + sep + list.last()
    }
}

/// `[String]::join`.
pub fn join(list: &Vec<String>, sep: &str) -> (r: String)
    ensures
        r@ == seq_join(list@.map_values(|w: String| w@), sep@),
{
    let mut r = String::new();
    let ghost views = list@.map_values(|w: String| w@);
    let mut i: usize = 0;
    while i < list.len()
        invariant
            i <= list@.len(),
            views == list@.map_values(|w: String| w@),
            r@ == seq_join(views.take(i as int), sep@),
        decreases list@.len() - i,
    {
        assert(views.take(i + 1).drop_last() =~= views.take(i as int));
        if i > 0 {
            r.append(sep);
        }
        r.append(list[i].as_str());
        i += 1;
        assert(r@ =~= seq_join(views.take(i as int), sep@));
    }
    assert(views.take(i as int) =~= views);
    r
}

/// Number of leading whitespace characters.
pub open spec fn lead_ws(s: Seq<char>) -> int
    decreases s.len(),
{
    if s.len() > 0 && is_ws(s[0]) { 1 + lead_ws(s.drop_first()) } else { 0 }
}

/// Number of trailing whitespace characters.
pub open spec fn trail_ws(s: Seq<char>) -> int
    decreases s.len(),
{
    if s.len() > 0 && is_ws(s.last()) { 1 + trail_ws(s.drop_last()) } else { 0 }
}

/// `str::trim`: the sequence without its leading and trailing whitespace.
pub open spec fn trim_seq(s: Seq<char>) -> Seq<char> {
    let a = s.skip(lead_ws(s));
    a.take(a.len() - trail_ws(a))
}

proof fn lemma_lead_ws_bound(s: Seq<char>)
    ensures
        0 <= lead_ws(s) <= s.len(),
    decreases s.len(),
{
    if s.len() > 0 && is_ws(s[0]) {
        lemma_lead_ws_bound(s.drop_first());
    }
}

proof fn lemma_trail_ws_bound(s: Seq<char>)
    ensures
        0 <= trail_ws(s) <= s.len(),
    decreases s.len(),
{
    if s.len() > 0 && is_ws(s.last()) {
        lemma_trail_ws_bound(s.drop_last());
    }
}

} // verus!

verus! {

proof fn lemma_lead_ws_at(s: Seq<char>, i: int)
    requires
        0 <= i <= s.len(),
        forall|k: int| 0 <= k < i ==> is_ws(#[trigger] s[k]),
        i == s.len() || !is_ws(s[i]),
    ensures
        lead_ws(s) == i,
    decreases i,
{
    if i > 0 {
        let t = s.drop_first();
        assert forall|k: int| 0 <= k < i - 1 implies is_ws(#[trigger] t[k]) by {
            assert(t[k] == s[k + 1]);
        }
        if i - 1 < t.len() {
            assert(t[i - 1] == s[i]);
        }
        lemma_lead_ws_at(t, i - 1);
    }
}

proof fn lemma_trail_ws_at(s: Seq<char>, i: int)
    requires
        0 <= i <= s.len(),
        forall|k: int| s.len() - i <= k < s.len() ==> is_ws(#[trigger] s[k]),
        i == s.len() || !is_ws(s[s.len() - 1 - i]),
    ensures
        trail_ws(s) == i,
    decreases i,
{
    if i > 0 {
        let t = s.drop_last();
        assert forall|k: int| t.len() - (i - 1) <= k < t.len() implies is_ws(#[trigger] t[k]) by {
            assert(t[k] == s[k]);
        }
        if i - 1 < t.len() {
            assert(t[t.len() - 1 - (i - 1)] == s[s.len() - 1 - i]);
        }
        lemma_trail_ws_at(t, i - 1);
    }
}

/// The characters of `s` without leading and trailing whitespace (`str::trim`).
pub fn trim_chars(s: &Vec<char>) -> (r: Vec<char>)
    ensures
        r@ == trim_seq(s@),
{
    let n = s.len();
    let mut a: usize = 0;
    while a < n && is_whitespace(s[a])
        invariant
            n == s@.len(),
            a <= n,
            forall|k: int| 0 <= k < a ==> is_ws(#[trigger] s@[k]),
        decreases n - a,
    {
        a += 1;
    }
    proof {
        lemma_lead_ws_at(s@, a as int);
    }
    let ghost rest = s@.skip(a as int);
    let mut t: usize = 0;
    while t < n - a && is_whitespace(s[n - 1 - t])
        invariant
            n == s@.len(),
            a <= n,
            rest == s@.skip(a as int),
            t <= n - a,
            forall|k: int| rest.len() - t <= k < rest.len() ==> is_ws(#[trigger] rest[k]),
        decreases n - a - t,
    {
        assert(rest[rest.len() - 1 - t] == s@[n - 1 - t]);
        t += 1;
    }
    proof {
        if t < n - a {
            assert(rest[rest.len() - 1 - t] == s@[n - 1 - t]);
        }
        lemma_trail_ws_at(rest, t as int);
    }
    let mut r: Vec<char> = Vec::new();
    let mut i = a;
    while i < n - t
        invariant
            n == s@.len(),
            a <= i <= n - t,
            t <= n - a,
            r@ == s@.subrange(a as int, i as int),
        decreases n - t - i,
    {
        r.push(s[i]);
        i += 1;
        assert(r@ =~= s@.subrange(a as int, i as int));
    }
    assert(r@ =~= trim_seq(s@));
    r
}

/// `str::trim`, as an owned string.
pub fn trim(s: &str) -> (r: String)
    ensures
        r@ == trim_seq(s@),
{
    let v = chars_of(s);
    let t = trim_chars(&v);
    string_of(&t)
}

/// Value of a sequence of decimal digits.
pub open spec fn digits_value(ds: Seq<char>) -> int
    decreases ds.len(),
{
    if ds.len() == 0 {
        0
    } else {
        digits_value(ds.drop_last()) * 10 + (ds.last() as int - '0' as int)
    }
}

pub open spec fn all_digits(ds: Seq<char>) -> bool {
    forall|i: int| 0 <= i < ds.len() ==> is_ascii_digit(#[trigger] ds[i])
}

/// What `str::parse` gives for a primitive integer type whose range is
/// `lo..=hi`: an optional sign (`-` only for signed types), then one or more
/// decimal digits, the value in range.
pub open spec fn parse_int_spec(s: Seq<char>, lo: int, hi: int, signed: bool) -> Option<int> {
    let neg = signed && s.len() > 0 && s[0] == '-';
    let body = if s.len() > 0 && (s[0] == '+' || neg) { s.drop_first() } else { s };
    if body.len() > 0 && all_digits(body) {
        let v = if neg { -digits_value(body) } else { digits_value(body) };
        if lo <= v <= hi { Some(v) } else { None }
    } else {
        None
    }
}

proof fn lemma_digits_value_nonneg(ds: Seq<char>)
    requires
        all_digits(ds),
    ensures
        digits_value(ds) >= 0,
    decreases ds.len(),
{
    if ds.len() > 0 {
        assert(all_digits(ds.drop_last()));
        lemma_digits_value_nonneg(ds.drop_last());
        assert(is_ascii_digit(ds[ds.len() - 1]));
    }
}

/// Parses an integer in `lo..=hi` the way `str::parse` does for a primitive
/// integer type of that range.
pub fn parse_int(s: &str, lo: i128, hi: i128, signed: bool) -> (r: Option<i128>)
    requires
        -0x1_0000_0000_0000_0000 <= lo <= hi <= 0x1_0000_0000_0000_0000,
    ensures
        r == (match parse_int_spec(s@, lo as int, hi as int, signed) {
            Some(v) => Some(v as i128),
            None => None::<i128>,
        }),
{
    let v = chars_of(s);
    let neg = signed && v.len() > 0 && v[0] == '-';
    let start: usize = if v.len() > 0 && (v[0] == '+' || neg) { 1 } else { 0 };
    let ghost body = if v@.len() > 0 && (v@[0] == '+' || neg) { v@.drop_first() } else { v@ };
    assert(body =~= v@.skip(start as int));
    if start >= v.len() {
        return None;
    }
    let cap: u128 = 0x1_0000_0000_0000_0001;
    let mut acc: u128 = 0;
    let mut i = start;
    while i < v.len()
        invariant
            v@ == s@,
            neg == (signed && s@.len() > 0 && s@[0] == '-'),
            body == (if s@.len() > 0 && (s@[0] == '+' || neg) { s@.drop_first() } else { s@ }),
            start <= i <= v@.len(),
            body == v@.skip(start as int),
            cap == 0x1_0000_0000_0000_0001,
            all_digits(v@.subrange(start as int, i as int)),
            acc <= cap,
            acc < cap ==> acc == digits_value(v@.subrange(start as int, i as int)),
            acc == cap ==> digits_value(v@.subrange(start as int, i as int)) >= cap,
        decreases v@.len() - i,
    {
        let c = v[i];
        let ghost pre = v@.subrange(start as int, i as int);
        let ghost cur = v@.subrange(start as int, i + 1);
        assert(cur.drop_last() =~= pre);
        if !('0' <= c && c <= '9') {
            assert(body[i - start] == c);
            assert(!is_ascii_digit(body[i - start]));
            assert(!all_digits(body));
            assert(v@ == s@);
            assert(parse_int_spec(s@, lo as int, hi as int, signed) is None);
            return None;
        }
        proof {
            lemma_digits_value_nonneg(pre);
        }
        let d = (c as u32 - '0' as u32) as u128;
        if acc < cap {
            let next = acc * 10 + d;
            acc = if next > cap { cap } else { next };
        }
        i += 1;
        assert(all_digits(v@.subrange(start as int, i as int)));
    }
    assert(v@.subrange(start as int, i as int) =~= body);
    proof {
        lemma_digits_value_nonneg(body);
    }
    if acc == cap {
        return None;
    }
    let val: i128 = if neg { -(acc as i128) } else { acc as i128 };
    if lo <= val && val <= hi {
        Some(val)
    } else {
        None
    }
}

pub open spec fn parse_i64_spec(s: Seq<char>) -> Option<int> {
    parse_int_spec(s, i64::MIN as int, i64::MAX as int, true)
}

pub open spec fn parse_u64_spec(s: Seq<char>) -> Option<int> {
    parse_int_spec(s, 0, u64::MAX as int, false)
}

/// `str::parse::<i64>`, with `None` for an error.
pub fn parse_i64(s: &str) -> (r: Option<i64>)
    ensures
        r == (match parse_i64_spec(s@) {
            Some(v) => Some(v as i64),
            None => None::<i64>,
        }),
{
    match parse_int(s, i64::MIN as i128, i64::MAX as i128, true) {
        Some(v) => Some(v as i64),
        None => None,
    }
}

/// `str::parse::<u64>`, with `None` for an error.
pub fn parse_u64(s: &str) -> (r: Option<u64>)
    ensures
        r == (match parse_u64_spec(s@) {
            Some(v) => Some(v as u64),
            None => None::<u64>,
        }),
{
    match parse_int(s, 0, u64::MAX as i128, false) {
        Some(v) => Some(v as u64),
        None => None,
    }
}

/// `str::parse::<i8>`, with `None` for an error.
pub fn parse_i8(s: &str) -> (r: Option<i8>)
    ensures
        r == (match parse_int_spec(s@, -128, 127, true) {
            Some(v) => Some(v as i8),
            None => None::<i8>,
        }),
{
    match parse_int(s, -128, 127, true) {
        Some(v) => Some(v as i8),
        None => None,
    }
}

/// The decimal digit character for a value below ten.
pub open spec fn digit_char(d: int) -> char {
    (48 + d) as char
}

/// Decimal rendering of a natural number, without leading zeros.
pub open spec fn dec(n: nat) -> Seq<char>
    decreases n,
{
    if n < 10 {
        seq![digit_char(n as int)]
    } else {
        dec(n / 10).push(digit_char((n % 10) as int))
    }
}

/// Decimal rendering of an integer (`i64::to_string` and friends).
pub open spec fn dec_int(v: int) -> Seq<char> {
    if v < 0 { seq!['-'] + dec((-v) as nat) } else { dec(v as nat) }
}

/// Appends the decimal rendering of `n` to `s`.
pub fn push_dec(s: &mut String, n: u64)
    ensures
        final(s)@ == old(s)@ + dec(n as nat),
    decreases n,
{
    if n >= 10 {
        push_dec(s, n / 10);
    }
    let d = (n % 10) as u8;
    push_char(s, (48 + d) as char);
    assert(final(s)@ =~= old(s)@ + dec(n as nat));
}

/// `u64::to_string`.
pub fn u64_to_string(n: u64) -> (r: String)
    ensures
        r@ == dec(n as nat),
{
    let mut s = String::new();
    push_dec(&mut s, n);
    assert(s@ =~= dec(n as nat));
    s
}

/// `i64::to_string`.
pub fn i64_to_string(v: i64) -> (r: String)
    ensures
        r@ == dec_int(v as int),
{
    let mut s = String::new();
    if v < 0 {
        push_char(&mut s, '-');
        let m: u64 = if v == i64::MIN { 0x8000_0000_0000_0000 } else { (-v) as u64 };
        push_dec(&mut s, m);
    } else {
        push_dec(&mut s, v as u64);
    }
    assert(s@ =~= dec_int(v as int));
    s
}

} // verus!

verus! {

/// The lower-case hexadecimal digit for a value below sixteen.
pub open spec fn hex_digit(v: int) -> char {
    if v < 10 { (48 + v) as char } else { (87 + v) as char }
}

pub fn nibble_char(v: u8) -> (c: char)
    requires
        v < 16,
    ensures
        c == hex_digit(v as int),
{
    if v < 10 { (48 + v) as char } else { (87 + v) as char }
}

} // verus!

verus! {

/// `c` occurs in `s`.
pub open spec fn has_char(s: Seq<char>, c: char) -> bool {
    exists|i: int| 0 <= i < s.len() && s[i] == c
}

/// Position of the first `c` in `s` (meaningful when `has_char(s, c)`).
pub open spec fn first_pos(s: Seq<char>, c: char) -> int {
    choose|i: int| 0 <= i < s.len() && s[i] == c && forall|j: int| 0 <= j < i ==> s[j] != c
}

/// Position of the first `c` in `v`, if any.
pub fn find_char(v: &Vec<char>, c: char) -> (r: Option<usize>)
    ensures
        r is None <==> !has_char(v@, c),
        r matches Some(i) ==> i == first_pos(v@, c) && 0 <= i < v@.len() && v@[i as int] == c,
{
    let mut i: usize = 0;
    while i < v.len()
        invariant
            i <= v@.len(),
            forall|j: int| 0 <= j < i ==> v@[j] != c,
        decreases v@.len() - i,
    {
        if v[i] == c {
            proof {
                let w = first_pos(v@, c);
                assert(0 <= i < v@.len() && v@[i as int] == c && forall|j: int| 0 <= j < i ==> v@[j] != c);
                if w != i as int {
                    if w < i {
                        assert(v@[w] != c);
                    } else {
                        assert(v@[i as int] != c);
                    }
                }
            }
            return Some(i);
        }
        i += 1;
    }
    None
}

/// The characters of `v` in positions `lo..hi`.
pub fn sub_chars(v: &Vec<char>, lo: usize, hi: usize) -> (r: Vec<char>)
    requires
        lo <= hi <= v@.len(),
    ensures
        r@ == v@.subrange(lo as int, hi as int),
{
    let mut r: Vec<char> = Vec::new();
    let mut i = lo;
    while i < hi
        invariant
            lo <= i <= hi <= v@.len(),
            r@ == v@.subrange(lo as int, i as int),
        decreases hi - i,
    {
        r.push(v[i]);
        i += 1;
        assert(r@ =~= v@.subrange(lo as int, i as int));
    }
    r
}

} // verus!

verus! {

/// Appends a string slice to a `String`.
pub fn push_str(s: &mut String, t: &str)
    ensures
        final(s)@ == old(s)@ + t@,
{
    let cs = chars_of(t);
    let mut i: usize = 0;
    while i < cs.len()
        invariant
            i <= cs@.len(),
            cs@ == t@,
            s@ == old(s)@ + cs@.take(i as int),
        decreases cs@.len() - i,
    {
        push_char(s, cs[i]);
        i += 1;
        assert(s@ =~= old(s)@ + cs@.take(i as int));
    }
    assert(cs@.take(i as int) =~= cs@);
}

/// `a` followed by `b`, as a new `String`.
pub fn concat2(a: &str, b: &str) -> (r: String)
    ensures
        r@ == a@ + b@,
{
    let mut r = owned(a);
    push_str(&mut r, b);
    r
}

/// A line without its `\r` terminator, if it has one.
pub open spec fn strip_cr(line: Seq<char>) -> Seq<char> {
    if line.len() > 0 && line.last() == '\r' {
        line.drop_last()
    } else {
        line
    }
}

/// The lines of a text as `str::lines` yields them: split after each `\n`,
/// each terminated line loses its `\n` and then one `\r` before it; an
/// unterminated last line stays as it is, and there is no empty line after a
/// final `\n`.
#[verifier::opaque]
pub open spec fn lines_spec(s: Seq<char>) -> Seq<Seq<char>>
    decreases s.len(),
{
    if s.len() == 0 {
        seq![]
    } else if has_char(s, '\n') {
        let p = first_pos(s, '\n');
        if 0 <= p < s.len() {
            seq![strip_cr(s.take(p))] + lines_spec(s.skip(p + 1))
        } else {
            seq![]
        }
    } else {
        seq![s]
    }
}

proof fn lemma_lines_step(s: Seq<char>)
    ensures
        s.len() == 0 ==> lines_spec(s) == Seq::<Seq<char>>::empty(),
        s.len() > 0 && !has_char(s, '\n') ==> lines_spec(s) == seq![s],
        has_char(s, '\n') ==> 0 <= first_pos(s, '\n') < s.len() && lines_spec(s) == seq![strip_cr(s.take(first_pos(s, '\n')))]
            + lines_spec(s.skip(first_pos(s, '\n') + 1)),
{
    reveal(lines_spec);
    if has_char(s, '\n') {
        lemma_first_pos(s, '\n');
    }
}

proof fn lemma_min_pos(s: Seq<char>, c: char, i: int)
    requires
        0 <= i < s.len(),
        s[i] == c,
    ensures
        exists|m: int| 0 <= m < s.len() && s[m] == c && forall|j: int| 0 <= j < m ==> s[j] != c,
    decreases i,
{
    if exists|j: int| 0 <= j < i && s[j] == c {
        let j = choose|j: int| 0 <= j < i && s[j] == c;
        lemma_min_pos(s, c, j);
    } else {
        assert(forall|j: int| 0 <= j < i ==> s[j] != c);
    }
}

/// The first occurrence is where `first_pos` says.
pub proof fn lemma_first_pos(s: Seq<char>, c: char)
    requires
        has_char(s, c),
    ensures
        0 <= first_pos(s, c) < s.len(),
        s[first_pos(s, c)] == c,
        forall|j: int| 0 <= j < first_pos(s, c) ==> s[j] != c,
{
    let i = choose|i: int| 0 <= i < s.len() && s[i] == c;
    lemma_min_pos(s, c, i);
}

/// The first line of a non-empty text and how many characters it takes up,
/// terminator included.
fn take_line(rest: &Vec<char>) -> (r: (Vec<char>, usize))
    requires
        rest@.len() > 0,
    ensures
        0 < r.1 <= rest@.len(),
        lines_spec(rest@) == seq![r.0@] + lines_spec(rest@.skip(r.1 as int)),
{
    proof {
        lemma_lines_step(rest@);
    }
    let n = rest.len();
    match find_char(rest, '\n') {
        None => {
            let line = sub_chars(rest, 0, n);
            assert(line@ =~= rest@);
            assert(rest@.skip(n as int) =~= Seq::<char>::empty());
            proof {
                lemma_lines_step(rest@.skip(n as int));
            }
            assert(seq![line@] + Seq::<Seq<char>>::empty() =~= seq![line@]);
            (line, n)
        },
        Some(p) => {
            let mut line = sub_chars(rest, 0, p);
            assert(line@ =~= rest@.take(p as int));
            let ln = line.len();
            if ln > 0 && line[ln - 1] == '\r' {
                line.pop();
                assert(line@ =~= rest@.take(p as int).drop_last());
            }
            (line, p + 1)
        },
    }
}

/// The lines of `s` (see `lines_spec`).
pub fn split_lines(s: &str) -> (r: Vec<Vec<char>>)
    ensures
        r@.len() == lines_spec(s@).len(),
        forall|k: int| 0 <= k < r@.len() ==> #[trigger] r@[k]@ == lines_spec(s@)[k],
{
    let cs = chars_of(s);
    let mut out: Vec<Vec<char>> = Vec::new();
    let ghost mut done: Seq<Seq<char>> = seq![];
    let mut start: usize = 0;
    let n = cs.len();
    assert(cs@.skip(0) =~= cs@);
    while start < n
        invariant
            n == cs@.len(),
            cs@ == s@,
            start <= n,
            lines_spec(cs@) == done + lines_spec(cs@.skip(start as int)),
            out@.len() == done.len(),
            forall|k: int| 0 <= k < out@.len() ==> #[trigger] out@[k]@ == done[k],
        decreases n - start,
    {
        let rest = sub_chars(&cs, start, n);
        assert(rest@ =~= cs@.skip(start as int));
        let (line, used) = take_line(&rest);
        let ghost tail = lines_spec(rest@.skip(used as int));
        assert(cs@.skip(start + used) =~= rest@.skip(used as int));
        proof {
            done = done.push(line@);
        }
        out.push(line);
        start = start + used;
        assert(done + lines_spec(cs@.skip(start as int)) =~= done.drop_last() + (seq![done.last()] + tail));
    }
    assert(cs@.skip(start as int) =~= Seq::<char>::empty());
    proof {
        lemma_lines_step(cs@.skip(start as int));
    }
    assert(lines_spec(cs@) =~= done);
    out
}

} // verus!

verus! {

/// What `char::is_alphanumeric` answers (Unicode `Alphabetic` or `Numeric`).
pub uninterp spec fn unicode_alphanumeric(c: char) -> bool;

/// `char::is_alphanumeric`. Its answer is named by `unicode_alphanumeric`; the
/// one fact stated beyond the name is the documented one for ASCII: there it
/// holds exactly for letters and digits. The Unicode tables are left unsaid.
#[verifier::external_body]
pub(crate) fn is_alphanumeric(c: char) -> (r: bool)
    ensures
        r == unicode_alphanumeric(c),
        (c as u32) < 128 ==> (r == is_ascii_alnum(c)),
{
    c.is_alphanumeric()
}

/// `s` without the prefix `p`, when it starts with it (`str::strip_prefix`).
pub fn strip_prefix_chars(s: &Vec<char>, p: &str) -> (r: Option<Vec<char>>)
    ensures
        r is Some <==> starts_with_seq(s@, p@),
        r matches Some(t) ==> t@ == s@.skip(p@.len() as int),
{
    let pv = chars_of(p);
    if chars_starts_with(s, &pv) {
        let n = s.len();
        let t = sub_chars(s, pv.len(), n);
        assert(t@ =~= s@.skip(p@.len() as int));
        Some(t)
    } else {
        None
    }
}

/// Number of occurrences of `c` in `s`.
pub open spec fn count_char(s: Seq<char>, c: char) -> nat
    decreases s.len(),
{
    if s.len() == 0 {
        0
    } else {
        count_char(s.drop_last(), c) + if s.last() == c { 1nat } else { 0nat }
    }
}

/// Counts the occurrences of `c` in `s`.
pub fn count_chars(s: &Vec<char>, c: char) -> (r: usize)
    ensures
        r == count_char(s@, c),
{
    let mut n: usize = 0;
    let mut i: usize = 0;
    while i < s.len()
        invariant
            i <= s@.len(),
            n == count_char(s@.take(i as int), c),
            n <= i,
        decreases s@.len() - i,
    {
        assert(s@.take(i + 1).drop_last() =~= s@.take(i as int));
        if s[i] == c {
            n += 1;
        }
        i += 1;
    }
    assert(s@.take(i as int) =~= s@);
    n
}

} // verus!

verus! {

/// The character sequences of a list of strings.
pub open spec fn views(v: Seq<String>) -> Seq<Seq<char>> {
    v.map_values(|s: String| s@)
}

/// Appends a copy of `s` to a list of strings.
pub fn push_string(v: &mut Vec<String>, s: &str)
    ensures
        views(final(v)@) == views(old(v)@).push(s@),
{
    v.push(owned(s));
    assert(views(final(v)@) =~= views(old(v)@).push(s@));
}

} // verus!

verus! {

/// Every occurrence of `pat`, read from the left without overlaps, replaced
/// by `rep` (`str::replace`).
pub open spec fn replace_all(s: Seq<char>, pat: Seq<char>, rep: Seq<char>) -> Seq<char>
    recommends
        pat.len() > 0,
    decreases s.len(),
{
    if s.len() == 0 || pat.len() == 0 {
        s
    } else if starts_with_seq(s, pat) {
        rep + replace_all(s.skip(pat.len() as int), pat, rep)
    } else {
        seq![s[0]] + replace_all(s.skip(1), pat, rep)
    }
}

/// `str::replace` for a non-empty pattern.
pub fn replace_str(s: &str, pat: &str, rep: &str) -> (r: String)
    requires
        pat@.len() > 0,
    ensures
        r@ == replace_all(s@, pat@, rep@),
{
    let cs = chars_of(s);
    let pv = chars_of(pat);
    let n = cs.len();
    let m = pv.len();
    let mut out = String::new();
    let mut i: usize = 0;
    assert(cs@.skip(0) =~= cs@);
    while i < n
        invariant
            n == cs@.len(),
            cs@ == s@,
            pv@ == pat@,
            m == pv@.len(),
            m > 0,
            i <= n,
            replace_all(s@, pat@, rep@) == out@ + replace_all(cs@.skip(i as int), pat@, rep@),
        decreases n - i,
    {
        let ghost rest = cs@.skip(i as int);
        if m <= n - i && matches_at(&cs, &pv, i) {
            assert(rest.subrange(0, m as int) =~= cs@.subrange(i as int, i + m));
            assert(starts_with_seq(rest, pat@));
            push_str(&mut out, rep);
            i += m;
            assert(rest.skip(m as int) =~= cs@.skip(i as int));
        } else {
            assert(!starts_with_seq(rest, pat@)) by {
                if starts_with_seq(rest, pat@) {
                    assert(rest.subrange(0, m as int) =~= cs@.subrange(i as int, i + m));
                }
            }
            assert(rest[0] == cs@[i as int]);
            push_char(&mut out, cs[i]);
            i += 1;
            assert(rest.skip(1) =~= cs@.skip(i as int));
        }
    }
    assert(cs@.skip(i as int) =~= Seq::<char>::empty());
    assert(out@ =~= out@ + Seq::<char>::empty());
    out
}

} // verus!

verus! {

/// Lower-case hexadecimal rendering of a natural number, without leading
/// zeros (`format!("{:x}", n)`).
pub open spec fn hex(n: nat) -> Seq<char>
    decreases n,
{
    if n < 16 {
        seq![hex_digit(n as int)]
    } else {
        hex(n / 16).push(hex_digit((n % 16) as int))
    }
}

/// Appends the hexadecimal rendering of `n` to `s`.
pub fn push_hex(s: &mut String, n: u64)
    ensures
        final(s)@ == old(s)@ + hex(n as nat),
    decreases n,
{
    if n >= 16 {
        push_hex(s, n / 16);
    }
    let d = (n % 16) as u8;
    push_char(s, nibble_char(d));
    assert(final(s)@ =~= old(s)@ + hex(n as nat));
}

} // verus!

verus! {

/// `char::to_ascii_uppercase`.
pub open spec fn ascii_upper(c: char) -> char {
    if is_ascii_lower(c) { ((c as u32) - 32) as char } else { c }
}

/// `str::to_ascii_uppercase`.
pub open spec fn ascii_upper_seq(s: Seq<char>) -> Seq<char> {
    s.map_values(|c: char| ascii_upper(c))
}

pub fn to_ascii_uppercase(s: &str) -> (r: String)
    ensures
        r@ == ascii_upper_seq(s@),
{
    let cs = chars_of(s);
    let mut out = String::new();
    let mut i: usize = 0;
    while i < cs.len()
        invariant
            i <= cs@.len(),
            cs@ == s@,
            out@ == ascii_upper_seq(cs@.take(i as int)),
        decreases cs@.len() - i,
    {
        let c = cs[i];
        let u = if 'a' <= c && c <= 'z' {
            let b = ((c as u32) - 32) as u8;
            b as char
        } else {
            c
        };
        push_char(&mut out, u);
        assert(out@ =~= ascii_upper_seq(cs@.take(i + 1)));
        i += 1;
    }
    assert(cs@.take(i as int) =~= cs@);
    out
}

} // verus!
