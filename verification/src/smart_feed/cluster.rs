//! Per-page near-duplicate clustering of post titles by 64-bit simhash.
use vstd::prelude::*;
use crate::text::{
    ascii_alnum, ascii_lower, ascii_lower_seq, chars_of, hex_digit, is_ascii_digit, is_ascii_lower, is_ascii_upper, is_ws,
    lemma_words_nonempty_after_word_char, is_ascii_alnum, join, nibble_char, push_char, seq_join, split_whitespace, str_eq,
    to_lowercase, unicode_lower, words,
};

verus! {

// ---------------------------------------------------------------------------
// Title normalisation
// ---------------------------------------------------------------------------

/// Words dropped from normalised titles.
pub open spec fn is_stopword(w: Seq<char>) -> bool {
    w == "the"@ || w == "a"@ || w == "an"@ || w == "and"@ || w == "or"@ || w == "to"@ || w == "of"@
        || w == "in"@ || w == "on"@ || w == "for"@ || w == "with"@ || w == "is"@ || w == "are"@
        || w == "was"@ || w == "were"@ || w == "this"@ || w == "that"@ || w == "it"@ || w == "as"@
        || w == "by"@ || w == "from"@ || w == "at"@ || w == "be"@ || w == "have"@ || w == "has"@
        || w == "had"@
}

fn stopword(w: &str) -> (r: bool)
    ensures
        r == is_stopword(w@),
{
    str_eq(w, "the") || str_eq(w, "a") || str_eq(w, "an") || str_eq(w, "and") || str_eq(w, "or")
        || str_eq(w, "to") || str_eq(w, "of") || str_eq(w, "in") || str_eq(w, "on") || str_eq(w, "for")
        || str_eq(w, "with") || str_eq(w, "is") || str_eq(w, "are") || str_eq(w, "was") || str_eq(w, "were")
        || str_eq(w, "this") || str_eq(w, "that") || str_eq(w, "it") || str_eq(w, "as") || str_eq(w, "by")
        || str_eq(w, "from") || str_eq(w, "at") || str_eq(w, "be") || str_eq(w, "have") || str_eq(w, "has")
        || str_eq(w, "had")
}

/// Every character other than an ASCII letter, digit or space becomes a space.
pub open spec fn blank_punct(c: char) -> char {
    if is_ascii_alnum(c) || c == ' ' { c } else { ' ' }
}

/// The words that are not stopwords, in order.
pub open spec fn drop_stopwords(ws: Seq<Seq<char>>) -> Seq<Seq<char>>
    decreases ws.len(),
{
    if ws.len() == 0 {
        seq![]
    } else if is_stopword(ws.last()) {
        drop_stopwords(ws.drop_last())
    } else {
        drop_stopwords(ws.drop_last()).push(ws.last())
    }
}

/// A title lower-cased: ASCII case folding for an ASCII title, the full
/// Unicode mapping otherwise.
pub open spec fn norm_lower(s: Seq<char>) -> Seq<char> {
    if vstd::utf8::is_ascii_chars(s) { ascii_lower_seq(s) } else { unicode_lower(s) }
}

/// A title lower-cased, stripped of punctuation and stopwords, and re-joined
/// with single spaces.
pub open spec fn title_norm_spec(s: Seq<char>) -> Seq<char> {
    let blanked = norm_lower(s).map_values(|c: char| blank_punct(c));
    seq_join(drop_stopwords(words(blanked)), " "@)
}

/// Normalises a post title for clustering. The result is made of small ASCII
/// letters, digits and single spaces between words (none at either end), holds
/// no stopword, and normalising it again changes nothing.
pub fn title_norm(s: &str) -> (r: String)
    ensures
        r@ == title_norm_spec(s@),
        norm_shape(r@),
        title_norm_spec(r@) == r@,
{
    let lower = to_lowercase(s);
    assert(lower@ == norm_lower(s@));
    proof {
        lemma_title_norm(s@);
    }
    let lc = chars_of(lower.as_str());
    let mut blanked: Vec<char> = Vec::new();
    let mut i: usize = 0;
    while i < lc.len()
        invariant
            i <= lc@.len(),
            blanked@ == lc@.take(i as int).map_values(|c: char| blank_punct(c)),
        decreases lc@.len() - i,
    {
        let c = lc[i];
        let d = if ascii_alnum(c) || c == ' ' { c } else { ' ' };
        blanked.push(d);
        i += 1;
        assert(blanked@ =~= lc@.take(i as int).map_values(|c: char| blank_punct(c)));
    }
    assert(lc@.take(i as int) =~= lc@);
    let ws = split_whitespace(&blanked);
    let ghost wv = ws@.map_values(|w: String| w@);
    let mut kept: Vec<String> = Vec::new();
    let mut k: usize = 0;
    while k < ws.len()
        invariant
            k <= ws@.len(),
            wv == ws@.map_values(|w: String| w@),
            kept@.map_values(|w: String| w@) == drop_stopwords(wv.take(k as int)),
        decreases ws@.len() - k,
    {
        assert(wv.take(k + 1).drop_last() =~= wv.take(k as int));
        if !stopword(ws[k].as_str()) {
            kept.push(ws[k].clone());
        }
        k += 1;
        assert(kept@.map_values(|w: String| w@) =~= drop_stopwords(wv.take(k as int)));
    }
    assert(wv.take(k as int) =~= wv);
    join(&kept, " ")
}

// ---------------------------------------------------------------------------
// Hashing
// ---------------------------------------------------------------------------

pub open spec fn fnv_offset() -> u64 {
    0xcbf29ce484222325
}

pub open spec fn fnv_prime() -> u64 {
    0x100000001b3
}

/// 64-bit FNV-1a of a byte string: xor each byte in, then multiply modulo 2^64.
pub open spec fn fnv1a(bytes: Seq<u8>) -> u64
    decreases bytes.len(),
{
    if bytes.len() == 0 {
        fnv_offset()
    } else {
        let h = fnv1a(bytes.drop_last()) ^ (bytes.last() as u64);
        ((h as nat * fnv_prime() as nat) % 0x1_0000_0000_0000_0000) as u64
    }
}

/// FNV-1a 64-bit hash of a byte string.
pub fn fxhash64(bytes: &[u8]) -> (h: u64)
    ensures
        h == fnv1a(bytes@),
{
    let mut h: u64 = 0xcbf29ce484222325;
    let mut i: usize = 0;
    while i < bytes.len()
        invariant
            i <= bytes@.len(),
            h == fnv1a(bytes@.take(i as int)),
        decreases bytes@.len() - i,
    {
        assert(bytes@.take(i + 1).drop_last() =~= bytes@.take(i as int));
        h = h ^ (bytes[i] as u64);
        h = h.wrapping_mul(0x100000001b3);
        i += 1;
    }
    assert(bytes@.take(i as int) =~= bytes@);
    h
}

/// Bit `i` of `x` is set.
pub open spec fn bit(x: u64, i: int) -> bool {
    (x >> (i as u64)) & 1u64 == 1u64
}

/// UTF-8 bytes of a word.
pub open spec fn word_bytes(w: Seq<char>) -> Seq<u8> {
    vstd::utf8::encode_utf8(w)
}

/// The simhash vote for bit `i`: +1 for each word whose hash has the bit set,
/// -1 for each word whose hash has it clear.
pub open spec fn vote(ws: Seq<Seq<char>>, i: int) -> int
    decreases ws.len(),
{
    if ws.len() == 0 {
        0
    } else {
        vote(ws.drop_last(), i) + if bit(fnv1a(word_bytes(ws.last())), i) { 1int } else { -1int }
    }
}

/// The low `n` bits of the simhash: bit `i` is set exactly when its vote is
/// not negative.
pub open spec fn simhash_bits(ws: Seq<Seq<char>>, n: nat) -> u64
    decreases n,
{
    if n == 0 {
        0
    } else {
        let p = simhash_bits(ws, (n - 1) as nat);
        if vote(ws, n - 1) >= 0 { p | (1u64 << ((n - 1) as u64)) } else { p }
    }
}

/// 64-bit simhash of the whitespace-separated words of a text.
pub open spec fn simhash_spec(text: Seq<char>) -> u64 {
    simhash_bits(words(text), 64)
}

proof fn lemma_or_bit(p: u64, i: u64, k: u64)
    requires
        i < 64,
        k < 64,
    ensures
        ((p | (1u64 << k)) >> i) & 1u64 == (if i == k { 1u64 } else { (p >> i) & 1u64 }),
{
    assert(((p | (1u64 << k)) >> i) & 1u64 == (if i == k { 1u64 } else { (p >> i) & 1u64 })) by (bit_vector)
        requires
            i < 64,
            k < 64,
    ;
}

proof fn lemma_zero_bits(i: u64)
    requires
        i < 64,
    ensures
        (0u64 >> i) & 1u64 == 0u64,
{
    assert((0u64 >> i) & 1u64 == 0u64) by (bit_vector);
}

/// Bit `i` of the partial simhash is set exactly for `i < n` with a
/// non-negative vote.
proof fn lemma_simhash_bits(ws: Seq<Seq<char>>, n: nat, i: int)
    requires
        n <= 64,
        0 <= i < 64,
    ensures
        bit(simhash_bits(ws, n), i) == (i < n && vote(ws, i) >= 0),
    decreases n,
{
    if n == 0 {
        lemma_zero_bits(i as u64);
    } else {
        lemma_simhash_bits(ws, (n - 1) as nat, i);
        let p = simhash_bits(ws, (n - 1) as nat);
        if vote(ws, n - 1) >= 0 {
            lemma_or_bit(p, i as u64, (n - 1) as u64);
        }
    }
}

/// Bit `i` of a title's simhash is set exactly when at least as many of its
/// words have bit `i` set in their FNV-1a hash as have it clear.
pub proof fn lemma_simhash_bit(text: Seq<char>, i: int)
    requires
        0 <= i < 64,
    ensures
        bit(simhash_spec(text), i) == (vote(words(text), i) >= 0),
{
    lemma_simhash_bits(words(text), 64, i);
}

proof fn lemma_bit_value(h: u64, i: u64)
    requires
        i < 64,
    ensures
        ((h >> i) & 1u64 == 1u64) || ((h >> i) & 1u64 == 0u64),
{
    assert(((h >> i) & 1u64 == 1u64) || ((h >> i) & 1u64 == 0u64)) by (bit_vector)
        requires
            i < 64,
    ;
}

/// 64-bit simhash of the whitespace-separated words of `text`.
pub fn simhash64(text: &str) -> (out: u64)
    ensures
        out == simhash_spec(text@),
        forall|i: int| 0 <= i < 64 ==> (bit(out, i) == (vote(words(text@), i) >= 0)),
{
    let cs = chars_of(text);
    let tokens = split_whitespace(&cs);
    let ghost ws = tokens@.map_values(|w: String| w@);
    let mut v: Vec<i128> = Vec::new();
    let mut z: usize = 0;
    while z < 64
        invariant
            z <= 64,
            v@.len() == z,
            forall|k: int| 0 <= k < z ==> v@[k] == 0,
        decreases 64 - z,
    {
        v.push(0);
        z += 1;
    }
    let mut t: usize = 0;
    while t < tokens.len()
        invariant
            t <= tokens@.len(),
            ws == tokens@.map_values(|w: String| w@),
            ws == words(text@),
            v@.len() == 64,
            forall|k: int| 0 <= k < 64 ==> v@[k] == vote(ws.take(t as int), k),
            forall|k: int| 0 <= k < 64 ==> -(t as int) <= #[trigger] v@[k] <= t,
        decreases tokens@.len() - t,
    {
        let ghost pre = ws.take(t as int);
        let ghost cur = ws.take(t + 1);
        assert(cur.drop_last() =~= pre);
        let bytes = tokens[t].as_str().as_bytes();
        let h = fxhash64(bytes);
        assert(cur.last() == tokens@[t as int]@);
        let mut i: usize = 0;
        while i < 64
            invariant
                t < tokens@.len(),
                v@.len() == 64,
                i <= 64,
                h == fnv1a(word_bytes(cur.last())),
                cur.drop_last() == pre,
                cur.len() == t + 1,
                forall|k: int| 0 <= k < i ==> v@[k] == vote(cur, k),
                forall|k: int| i <= k < 64 ==> v@[k] == vote(pre, k),
                forall|k: int| 0 <= k < 64 ==> -(t as int) - 1 <= #[trigger] v@[k] <= t + 1,
                forall|k: int| i <= k < 64 ==> -(t as int) <= #[trigger] v@[k] <= t,
            decreases 64 - i,
        {
            proof {
                lemma_bit_value(h, i as u64);
            }
            let b = (h >> (i as u64)) & 1;
            assert(vote(cur, i as int) == vote(pre, i as int) + if bit(h, i as int) { 1int } else { -1int });
            let old_v = v[i];
            if b == 1 {
                v.set(i, old_v + 1);
            } else {
                v.set(i, old_v - 1);
            }
            i += 1;
        }
        t += 1;
    }
    assert(ws.take(t as int) =~= ws);
    let mut out: u64 = 0;
    let mut i: usize = 0;
    while i < 64
        invariant
            i <= 64,
            v@.len() == 64,
            ws == words(text@),
            forall|k: int| 0 <= k < 64 ==> v@[k] == vote(ws, k),
            out == simhash_bits(ws, i as nat),
        decreases 64 - i,
    {
        if v[i] >= 0 {
            out = out | (1u64 << (i as u64));
        }
        i += 1;
    }
    proof {
        assert forall|i: int| 0 <= i < 64 implies (bit(out, i) == (vote(words(text@), i) >= 0)) by {
            lemma_simhash_bit(text@, i);
        }
    }
    out
}

/// Number of set bits among the low `n` bits of `x`.
pub open spec fn popcount_low(x: u64, n: nat) -> nat
    decreases n,
{
    if n == 0 {
        0
    } else {
        popcount_low(x, (n - 1) as nat) + if bit(x, n - 1) { 1nat } else { 0nat }
    }
}

/// Hamming distance between two 64-bit hashes: the number of differing bits.
pub open spec fn hamming_spec(a: u64, b: u64) -> nat {
    popcount_low(a ^ b, 64)
}

/// Number of bit positions in which two hashes differ.
pub fn hamming(a: u64, b: u64) -> (d: u32)
    ensures
        d == hamming_spec(a, b),
{
    let x = a ^ b;
    let mut d: u32 = 0;
    let mut i: u64 = 0;
    while i < 64
        invariant
            i <= 64,
            d == popcount_low(x, i as nat),
            d <= i,
        decreases 64 - i,
    {
        proof {
            lemma_bit_value(x, i);
        }
        if (x >> i) & 1 == 1 {
            d += 1;
        }
        i += 1;
    }
    d
}

} // verus!

verus! {

// ---------------------------------------------------------------------------
// Clustering
// ---------------------------------------------------------------------------

/// A group of posts whose titles are near-duplicates.
#[derive(Debug, Clone)]
pub struct Cluster {
    pub id: String,
    /// Post ids; the first one started the cluster.
    pub members: Vec<String>,
}

impl View for Cluster {
    type V = (Seq<char>, Seq<Seq<char>>);

    open spec fn view(&self) -> (Seq<char>, Seq<Seq<char>>) {
        (self.id@, self.members@.map_values(|s: String| s@))
    }
}

/// Assigned post ids, and the clusters made so far (id, member post ids).
pub type ClusterState = (Set<Seq<char>>, Seq<(Seq<char>, Seq<Seq<char>>)>);

/// The comparison bucket of a hash: its top sixteen bits.
pub open spec fn bucket(h: u64) -> u16 {
    (h >> 48u64) as u16
}

/// `c` followed by the hash as sixteen lower-case hexadecimal digits.
pub open spec fn cluster_name(h: u64) -> Seq<char> {
    seq!['c'] + Seq::new(16, |i: int| hex_digit(((h >> ((60 - 4 * i) as u64)) & 15u64) as int))
}

/// Scanning the first `t` posts for members of the cluster started by post `k`.
pub open spec fn scan(
    ids: Seq<Seq<char>>,
    hs: Seq<u64>,
    max: nat,
    k: int,
    t: int,
    a: Set<Seq<char>>,
    m: Seq<Seq<char>>,
) -> (Set<Seq<char>>, Seq<Seq<char>>)
    decreases t,
{
    if t <= 0 {
        (a, m)
    } else {
        let r = scan(ids, hs, max, k, t - 1, a, m);
        let j = t - 1;
        if bucket(hs[j]) == bucket(hs[k]) && ids[j] != ids[k] && !r.0.contains(ids[j])
            && hamming_spec(hs[k], hs[j]) <= max {
            (r.0.insert(ids[j]), r.1.push(ids[j]))
        } else {
            r
        }
    }
}

/// Post `m` starts a cluster unless its id is already taken; the cluster takes
/// every later-scanned unassigned post of the same bucket within `max` bits.
pub open spec fn start(ids: Seq<Seq<char>>, hs: Seq<u64>, max: nat, m: int, st: ClusterState) -> ClusterState {
    if st.0.contains(ids[m]) {
        st
    } else {
        let r = scan(ids, hs, max, m, ids.len() as int, st.0.insert(ids[m]), seq![ids[m]]);
        (r.0, st.1.push((cluster_name(hs[m]), r.1)))
    }
}

/// Running `start` on each of the first `t` posts that share post `k`'s bucket.
pub open spec fn run_bucket(ids: Seq<Seq<char>>, hs: Seq<u64>, max: nat, k: int, t: int, st: ClusterState) -> ClusterState
    decreases t,
{
    if t <= 0 {
        st
    } else {
        let s = run_bucket(ids, hs, max, k, t - 1, st);
        if bucket(hs[t - 1]) == bucket(hs[k]) {
            start(ids, hs, max, t - 1, s)
        } else {
            s
        }
    }
}

/// No earlier post shares post `k`'s bucket.
pub open spec fn first_in_bucket(hs: Seq<u64>, k: int) -> bool {
    forall|j: int| 0 <= j < k ==> bucket(hs[j]) != bucket(hs[k])
}

/// Buckets are processed in the order in which they first occur, each bucket's
/// posts in input order.
pub open spec fn run(ids: Seq<Seq<char>>, hs: Seq<u64>, max: nat, t: int) -> ClusterState
    decreases t,
{
    if t <= 0 {
        (Set::empty(), seq![])
    } else {
        let s = run(ids, hs, max, t - 1);
        if first_in_bucket(hs, t - 1) {
            run_bucket(ids, hs, max, t - 1, ids.len() as int, s)
        } else {
            s
        }
    }
}

/// Post ids of the items.
pub open spec fn item_ids(items: Seq<(String, String)>) -> Seq<Seq<char>> {
    items.map_values(|p: (String, String)| p.0@)
}

/// Simhash of each item's normalised title.
pub open spec fn item_hashes(items: Seq<(String, String)>) -> Seq<u64> {
    items.map_values(|p: (String, String)| simhash_spec(title_norm_spec(p.1@)))
}

/// The clusters of a page of `(post id, title)` items.
pub open spec fn clusters_spec(items: Seq<(String, String)>, max: nat) -> Seq<(Seq<char>, Seq<Seq<char>>)> {
    run(item_ids(items), item_hashes(items), max, items.len() as int).1
}

proof fn lemma_nibble(h: u64, s: u64)
    ensures
        (h >> s) & 15u64 < 16,
{
    assert((h >> s) & 15u64 < 16) by (bit_vector);
}

/// The id of the cluster started by a post with hash `h`.
pub fn cluster_id(h: u64) -> (r: String)
    ensures
        r@ == cluster_name(h),
{
    let mut r = String::new();
    push_char(&mut r, 'c');
    let mut i: u64 = 0;
    while i < 16
        invariant
            i <= 16,
            r@ == seq!['c'] + Seq::new(i as nat, |j: int| hex_digit(((h >> ((60 - 4 * j) as u64)) & 15u64) as int)),
        decreases 16 - i,
    {
        let s: u64 = 60 - 4 * i;
        proof {
            lemma_nibble(h, s);
        }
        let nib = ((h >> s) & 15) as u8;
        push_char(&mut r, nibble_char(nib));
        i += 1;
        assert(r@ =~= seq!['c'] + Seq::new(i as nat, |j: int| hex_digit(((h >> ((60 - 4 * j) as u64)) & 15u64) as int)));
    }
    assert(r@ =~= cluster_name(h));
    r
}

fn contains_id(v: &Vec<String>, id: &String) -> (r: bool)
    ensures
        r == (exists|i: int| 0 <= i < v@.len() && v@[i]@ == id@),
{
    let mut i: usize = 0;
    while i < v.len()
        invariant
            i <= v@.len(),
            forall|j: int| 0 <= j < i ==> v@[j]@ != id@,
        decreases v@.len() - i,
    {
        if v[i] == *id {
            return true;
        }
        i += 1;
    }
    false
}

/// The exec list of assigned ids stands for the set `a`.
pub open spec fn holds(v: Seq<String>, a: Set<Seq<char>>) -> bool {
    forall|x: Seq<char>| a.contains(x) <==> (exists|i: int| 0 <= i < v.len() && v[i]@ == x)
}

proof fn lemma_holds_push(v: Seq<String>, a: Set<Seq<char>>, s: String)
    requires
        holds(v, a),
    ensures
        holds(v.push(s), a.insert(s@)),
{
    assert forall|x: Seq<char>| a.insert(s@).contains(x) <==> (exists|i: int| 0 <= i < v.push(s).len() && v.push(s)[i]@ == x) by {
        if a.insert(s@).contains(x) {
            if x == s@ {
                assert(v.push(s)[v.len() as int]@ == x);
            } else {
                let i = choose|i: int| 0 <= i < v.len() && v[i]@ == x;
                assert(v.push(s)[i]@ == x);
            }
        }
        if exists|i: int| 0 <= i < v.push(s).len() && v.push(s)[i]@ == x {
            let i = choose|i: int| 0 <= i < v.push(s).len() && v.push(s)[i]@ == x;
            if i < v.len() {
                assert(v[i]@ == x);
            }
        }
    }
}

/// Groups posts whose normalised titles have simhashes in the same top-16-bit
/// bucket and at most `max_dist` bits apart. Each post joins the first cluster
/// that reaches it.
pub fn cluster_titles(items: &[(String, String)], max_dist: u32) -> (out: Vec<Cluster>)
    ensures
        out@.map_values(|c: Cluster| c@) == clusters_spec(items@, max_dist as nat),
{
    let n = items.len();
    let ghost ids = item_ids(items@);
    let mut hs: Vec<u64> = Vec::new();
    let mut k: usize = 0;
    while k < n
        invariant
            n == items@.len(),
            k <= n,
            hs@ == item_hashes(items@).take(k as int),
        decreases n - k,
    {
        let t = title_norm(items[k].1.as_str());
        let h = simhash64(t.as_str());
        hs.push(h);
        k += 1;
        assert(hs@ =~= item_hashes(items@).take(k as int));
    }
    assert(hs@ =~= item_hashes(items@));
    let ghost hv = hs@;
    let ghost max = max_dist as nat;
    let mut assigned: Vec<String> = Vec::new();
    let mut out: Vec<Cluster> = Vec::new();
    let mut t: usize = 0;
    while t < n
        invariant
            n == items@.len(),
            t <= n,
            ids == item_ids(items@),
            hv == hs@,
            hv == item_hashes(items@),
            max == max_dist as nat,
            holds(assigned@, run(ids, hv, max, t as int).0),
            out@.map_values(|c: Cluster| c@) == run(ids, hv, max, t as int).1,
        decreases n - t,
    {
        // is post t the first of its bucket?
        let bt = hs[t] >> 48;
        let mut first = true;
        let mut j: usize = 0;
        while j < t
            invariant
                t < n,
                hs@.len() == n,
                j <= t,
                bt == hs@[t as int] >> 48u64,
                first == (forall|q: int| 0 <= q < j ==> bucket(hs@[q]) != bucket(hs@[t as int])),
            decreases t - j,
        {
            let bj = hs[j] >> 48;
            proof {
                lemma_bucket_eq(hs@[j as int], hs@[t as int]);
            }
            if bj == bt {
                first = false;
            }
            j += 1;
        }
        if first {
            // run the whole bucket
            let ghost s0 = run(ids, hv, max, t as int);
            let mut m: usize = 0;
            while m < n
                invariant
                    n == items@.len(),
                    t < n,
                    m <= n,
                    ids == item_ids(items@),
                    hv == hs@,
                    hs@.len() == n,
                    max == max_dist as nat,
                    bt == hs@[t as int] >> 48u64,
                    holds(assigned@, run_bucket(ids, hv, max, t as int, m as int, s0).0),
                    out@.map_values(|c: Cluster| c@) == run_bucket(ids, hv, max, t as int, m as int, s0).1,
                decreases n - m,
            {
                proof {
                    lemma_bucket_eq(hs@[m as int], hs@[t as int]);
                }
                if hs[m] >> 48 == bt {
                    start_cluster(items, &hs, max_dist, m, &mut assigned, &mut out, Ghost(run_bucket(ids, hv, max, t as int, m as int, s0)));
                }
                m += 1;
            }
        }
        t += 1;
    }
    out
}

proof fn lemma_bucket_eq(a: u64, b: u64)
    ensures
        ((a >> 48u64) == (b >> 48u64)) == (bucket(a) == bucket(b)),
{
    assert(((a >> 48u64) == (b >> 48u64)) == (((a >> 48u64) as u16) == ((b >> 48u64) as u16))) by (bit_vector);
}

/// One `start` step, on the exec state.
fn start_cluster(
    items: &[(String, String)],
    hs: &Vec<u64>,
    max_dist: u32,
    m: usize,
    assigned: &mut Vec<String>,
    out: &mut Vec<Cluster>,
    Ghost(st): Ghost<ClusterState>,
)
    requires
        m < items@.len(),
        hs@.len() == items@.len(),
        holds(old(assigned)@, st.0),
        old(out)@.map_values(|c: Cluster| c@) == st.1,
    ensures
        holds(final(assigned)@, start(item_ids(items@), hs@, max_dist as nat, m as int, st).0),
        final(out)@.map_values(|c: Cluster| c@) == start(item_ids(items@), hs@, max_dist as nat, m as int, st).1,
{
    let ghost ids = item_ids(items@);
    let ghost max = max_dist as nat;
    let n = items.len();
    let id_m = &items[m].0;
    assert(ids[m as int] == id_m@);
    if contains_id(assigned, id_m) {
        return;
    }
    proof {
        lemma_holds_push(assigned@, st.0, *id_m);
    }
    assigned.push(id_m.clone());
    let mut members: Vec<String> = Vec::new();
    members.push(id_m.clone());
    let ghost a0 = st.0.insert(ids[m as int]);
    let ghost m0 = seq![ids[m as int]];
    assert(members@.map_values(|s: String| s@) =~= m0);
    let hm = hs[m];
    let mut j: usize = 0;
    while j < n
        invariant
            n == items@.len(),
            hs@.len() == n,
            m < n,
            j <= n,
            ids == item_ids(items@),
            max == max_dist as nat,
            hm == hs@[m as int],
            id_m@ == ids[m as int],
            holds(assigned@, scan(ids, hs@, max, m as int, j as int, a0, m0).0),
            members@.map_values(|s: String| s@) == scan(ids, hs@, max, m as int, j as int, a0, m0).1,
        decreases n - j,
    {
        let id_j = &items[j].0;
        assert(ids[j as int] == id_j@);
        proof {
            lemma_bucket_eq(hs@[j as int], hm);
        }
        if hs[j] >> 48 == hm >> 48 && *id_j != *id_m && !contains_id(assigned, id_j) && hamming(hm, hs[j]) <= max_dist {
            proof {
                lemma_holds_push(assigned@, scan(ids, hs@, max, m as int, j as int, a0, m0).0, *id_j);
            }
            assigned.push(id_j.clone());
            members.push(id_j.clone());
            assert(members@.map_values(|s: String| s@) =~= scan(ids, hs@, max, m as int, j + 1, a0, m0).1);
        }
        j += 1;
    }
    let cid = cluster_id(hm);
    out.push(Cluster { id: cid, members });
    assert(out@.map_values(|c: Cluster| c@) =~= start(ids, hs@, max, m as int, st).1);
}

} // verus!

verus! {

// ---------------------------------------------------------------------------
// Laws of clustering
// ---------------------------------------------------------------------------

/// All member post ids of a list of clusters, cluster by cluster.
pub open spec fn flat(cs: Seq<(Seq<char>, Seq<Seq<char>>)>) -> Seq<Seq<char>>
    decreases cs.len(),
{
    if cs.len() == 0 {
        seq![]
    } else {
        flat(cs.drop_last()) + cs.last().1
    }
}

/// The assigned set is exactly the set of members, and no member repeats.
pub open spec fn state_inv(ids: Seq<Seq<char>>, st: ClusterState) -> bool {
    &&& forall|x: Seq<char>| st.0.contains(x) <==> flat(st.1).contains(x)
    &&& flat(st.1).no_duplicates()
    &&& forall|x: Seq<char>| flat(st.1).contains(x) ==> ids.contains(x)
}

proof fn lemma_scan(
    ids: Seq<Seq<char>>,
    hs: Seq<u64>,
    max: nat,
    k: int,
    t: int,
    a: Set<Seq<char>>,
    m: Seq<Seq<char>>,
    f: Seq<Seq<char>>,
)
    requires
        0 <= k < ids.len(),
        hs.len() == ids.len(),
        0 <= t <= ids.len(),
        forall|x: Seq<char>| a.contains(x) <==> (f + m).contains(x),
        (f + m).no_duplicates(),
        forall|x: Seq<char>| (f + m).contains(x) ==> ids.contains(x),
    ensures
        ({
            let r = scan(ids, hs, max, k, t, a, m);
            &&& forall|x: Seq<char>| r.0.contains(x) <==> (f + r.1).contains(x)
            &&& (f + r.1).no_duplicates()
            &&& forall|x: Seq<char>| (f + r.1).contains(x) ==> ids.contains(x)
            &&& forall|x: Seq<char>| a.contains(x) ==> r.0.contains(x)
            &&& r.1.len() >= m.len()
            &&& r.1.take(m.len() as int) == m
        }),
    decreases t,
{
    if t > 0 {
        lemma_scan(ids, hs, max, k, t - 1, a, m, f);
        let r = scan(ids, hs, max, k, t - 1, a, m);
        let j = t - 1;
        if bucket(hs[j]) == bucket(hs[k]) && ids[j] != ids[k] && !r.0.contains(ids[j])
            && hamming_spec(hs[k], hs[j]) <= max {
            let x = ids[j];
            let old_all = f + r.1;
            let new_all = f + r.1.push(x);
            assert(new_all =~= old_all.push(x));
            assert(!old_all.contains(x));
            assert forall|p: int, q: int| 0 <= p < new_all.len() && 0 <= q < new_all.len() && p != q implies new_all[p] != new_all[q] by {
                if p == old_all.len() as int {
                    assert(old_all[q] == new_all[q]);
                } else if q == old_all.len() as int {
                    assert(old_all[p] == new_all[p]);
                } else {
                    assert(old_all[p] == new_all[p] && old_all[q] == new_all[q]);
                }
            }
            assert forall|y: Seq<char>| r.0.insert(x).contains(y) <==> new_all.contains(y) by {
                if new_all.contains(y) {
                    let i = choose|i: int| 0 <= i < new_all.len() && new_all[i] == y;
                    if i < old_all.len() {
                        assert(old_all[i] == y);
                    }
                }
                if r.0.contains(y) {
                    let i = choose|i: int| 0 <= i < old_all.len() && old_all[i] == y;
                    assert(new_all[i] == y);
                }
                if y == x {
                    assert(new_all[old_all.len() as int] == y);
                }
            }
            assert forall|y: Seq<char>| new_all.contains(y) implies ids.contains(y) by {
                let i = choose|i: int| 0 <= i < new_all.len() && new_all[i] == y;
                if i < old_all.len() {
                    assert(old_all[i] == y);
                } else {
                    assert(ids[j] == y);
                }
            }
            assert(r.1.push(x).take(m.len() as int) =~= r.1.take(m.len() as int));
        }
    }
}

proof fn lemma_flat_push(cs: Seq<(Seq<char>, Seq<Seq<char>>)>, c: (Seq<char>, Seq<Seq<char>>))
    ensures
        flat(cs.push(c)) == flat(cs) + c.1,
{
    assert(cs.push(c).drop_last() =~= cs);
}

proof fn lemma_start(ids: Seq<Seq<char>>, hs: Seq<u64>, max: nat, m: int, st: ClusterState)
    requires
        0 <= m < ids.len(),
        hs.len() == ids.len(),
        state_inv(ids, st),
    ensures
        state_inv(ids, start(ids, hs, max, m, st)),
        forall|x: Seq<char>| st.0.contains(x) ==> start(ids, hs, max, m, st).0.contains(x),
        start(ids, hs, max, m, st).0.contains(ids[m]),
{
    if !st.0.contains(ids[m]) {
        let f = flat(st.1);
        let a0 = st.0.insert(ids[m]);
        let m0 = seq![ids[m]];
        assert((f + m0) =~= f.push(ids[m]));
        assert forall|p: int, q: int| 0 <= p < (f + m0).len() && 0 <= q < (f + m0).len() && p != q implies (f + m0)[p] != (f + m0)[q] by {
            if p == f.len() as int {
                assert(f[q] == (f + m0)[q]);
            } else if q == f.len() as int {
                assert(f[p] == (f + m0)[p]);
            } else {
                assert(f[p] == (f + m0)[p] && f[q] == (f + m0)[q]);
            }
        }
        assert forall|y: Seq<char>| a0.contains(y) <==> (f + m0).contains(y) by {
            if (f + m0).contains(y) {
                let i = choose|i: int| 0 <= i < (f + m0).len() && (f + m0)[i] == y;
                if i < f.len() {
                    assert(f[i] == y);
                }
            }
            if st.0.contains(y) {
                let i = choose|i: int| 0 <= i < f.len() && f[i] == y;
                assert((f + m0)[i] == y);
            }
            if y == ids[m] {
                assert((f + m0)[f.len() as int] == y);
            }
        }
        assert forall|y: Seq<char>| (f + m0).contains(y) implies ids.contains(y) by {
            let i = choose|i: int| 0 <= i < (f + m0).len() && (f + m0)[i] == y;
            if i < f.len() {
                assert(f[i] == y);
            } else {
                assert(ids[m] == y);
            }
        }
        lemma_scan(ids, hs, max, m, ids.len() as int, a0, m0, f);
        let r = scan(ids, hs, max, m, ids.len() as int, a0, m0);
        lemma_flat_push(st.1, (cluster_name(hs[m]), r.1));
        assert forall|x: Seq<char>| st.0.contains(x) implies r.0.contains(x) by {
            assert(a0.contains(x));
        }
        assert(a0.contains(ids[m]));
    }
}

proof fn lemma_run_bucket(ids: Seq<Seq<char>>, hs: Seq<u64>, max: nat, k: int, t: int, st: ClusterState)
    requires
        0 <= k < ids.len(),
        hs.len() == ids.len(),
        0 <= t <= ids.len(),
        state_inv(ids, st),
    ensures
        state_inv(ids, run_bucket(ids, hs, max, k, t, st)),
        forall|x: Seq<char>| st.0.contains(x) ==> run_bucket(ids, hs, max, k, t, st).0.contains(x),
        forall|q: int| 0 <= q < t && bucket(hs[q]) == bucket(hs[k]) ==> run_bucket(ids, hs, max, k, t, st).0.contains(ids[q]),
    decreases t,
{
    if t > 0 {
        lemma_run_bucket(ids, hs, max, k, t - 1, st);
        let s = run_bucket(ids, hs, max, k, t - 1, st);
        if bucket(hs[t - 1]) == bucket(hs[k]) {
            lemma_start(ids, hs, max, t - 1, s);
        }
    }
}

proof fn lemma_run(ids: Seq<Seq<char>>, hs: Seq<u64>, max: nat, t: int)
    requires
        hs.len() == ids.len(),
        0 <= t <= ids.len(),
    ensures
        state_inv(ids, run(ids, hs, max, t)),
        forall|k: int, j: int| 0 <= k < ids.len() && 0 <= j < t && bucket(hs[j]) == bucket(hs[k])
            ==> run(ids, hs, max, t).0.contains(ids[k]),
    decreases t,
{
    if t <= 0 {
        assert(flat(run(ids, hs, max, t).1) =~= seq![]);
    } else {
        lemma_run(ids, hs, max, t - 1);
        let s = run(ids, hs, max, t - 1);
        if first_in_bucket(hs, t - 1) {
            lemma_run_bucket(ids, hs, max, t - 1, ids.len() as int, s);
        }
        assert forall|k: int, j: int| 0 <= k < ids.len() && 0 <= j < t && bucket(hs[j]) == bucket(hs[k])
            implies run(ids, hs, max, t).0.contains(ids[k]) by {
            if exists|j2: int| 0 <= j2 < t - 1 && bucket(hs[j2]) == bucket(hs[k]) {
                let j2 = choose|j2: int| 0 <= j2 < t - 1 && bucket(hs[j2]) == bucket(hs[k]);
                assert(s.0.contains(ids[k]));
            } else {
                assert(bucket(hs[t - 1]) == bucket(hs[k]));
                assert(first_in_bucket(hs, t - 1));
            }
        }
    }
}

/// Clustering partitions the page: every post id lands in some cluster, no id
/// appears twice across the clusters, and every member is a post of the page.
pub proof fn lemma_clusters_partition(items: Seq<(String, String)>, max: nat)
    ensures
        forall|k: int| 0 <= k < items.len() ==> flat(clusters_spec(items, max)).contains(#[trigger] items[k].0@),
        flat(clusters_spec(items, max)).no_duplicates(),
        forall|x: Seq<char>| flat(clusters_spec(items, max)).contains(x) ==> item_ids(items).contains(x),
{
    let ids = item_ids(items);
    let hs = item_hashes(items);
    let n = items.len() as int;
    lemma_run(ids, hs, max, n);
    assert forall|k: int| 0 <= k < items.len() implies flat(clusters_spec(items, max)).contains(#[trigger] items[k].0@) by {
        assert(ids[k] == items[k].0@);
        assert(run(ids, hs, max, n).0.contains(ids[k]));
    }
}

} // verus!

verus! {

/// Post `j` may join the cluster of post `k`: same bucket, at most `max`
/// bits apart.
pub open spec fn near(hs: Seq<u64>, max: nat, k: int, j: int) -> bool {
    bucket(hs[j]) == bucket(hs[k]) && hamming_spec(hs[k], hs[j]) <= max
}

/// Members after the founder `ids[k]` are posts near post `k`.
pub open spec fn members_near(ids: Seq<Seq<char>>, hs: Seq<u64>, max: nat, k: int, ms: Seq<Seq<char>>) -> bool {
    &&& ms.len() > 0
    &&& ms[0] == ids[k]
    &&& forall|x: int| 1 <= x < ms.len() ==> exists|j: int| 0 <= j < ids.len() && #[trigger] ms[x] == ids[j] && near(hs, max, k, j)
}

/// A cluster founded by some post, named after its hash, whose other members
/// are near it.
pub open spec fn cluster_ok(ids: Seq<Seq<char>>, hs: Seq<u64>, max: nat, c: (Seq<char>, Seq<Seq<char>>)) -> bool {
    exists|k: int| 0 <= k < ids.len() && c.0 == #[trigger] cluster_name(hs[k]) && members_near(ids, hs, max, k, c.1)
}

proof fn lemma_scan_near(ids: Seq<Seq<char>>, hs: Seq<u64>, max: nat, k: int, t: int, a: Set<Seq<char>>)
    requires
        0 <= k < ids.len(),
        t <= ids.len(),
        hs.len() == ids.len(),
    ensures
        members_near(ids, hs, max, k, scan(ids, hs, max, k, t, a, seq![ids[k]]).1),
    decreases t,
{
    if t > 0 {
        lemma_scan_near(ids, hs, max, k, t - 1, a);
        let r = scan(ids, hs, max, k, t - 1, a, seq![ids[k]]);
        let j = t - 1;
        if bucket(hs[j]) == bucket(hs[k]) && ids[j] != ids[k] && !r.0.contains(ids[j]) && hamming_spec(hs[k], hs[j]) <= max {
            let ms = r.1.push(ids[j]);
            assert forall|x: int| 1 <= x < ms.len() implies exists|i: int| 0 <= i < ids.len() && #[trigger] ms[x] == ids[i] && near(hs, max, k, i) by {
                if x == ms.len() - 1 {
                    assert(ms[x] == ids[j] && near(hs, max, k, j));
                } else {
                    assert(ms[x] == r.1[x]);
                }
            }
        }
    } else {
        let ms = seq![ids[k]];
        assert(ms[0] == ids[k]);
    }
}

proof fn lemma_start_ok(ids: Seq<Seq<char>>, hs: Seq<u64>, max: nat, m: int, st: ClusterState)
    requires
        0 <= m < ids.len(),
        hs.len() == ids.len(),
        forall|i: int| 0 <= i < st.1.len() ==> cluster_ok(ids, hs, max, #[trigger] st.1[i]),
    ensures
        forall|i: int| 0 <= i < start(ids, hs, max, m, st).1.len() ==> cluster_ok(ids, hs, max, #[trigger] start(ids, hs, max, m, st).1[i]),
{
    if !st.0.contains(ids[m]) {
        let a = st.0.insert(ids[m]);
        let r = scan(ids, hs, max, m, ids.len() as int, a, seq![ids[m]]);
        lemma_scan_near(ids, hs, max, m, ids.len() as int, a);
        let c = (cluster_name(hs[m]), r.1);
        assert(cluster_ok(ids, hs, max, c));
        let out = st.1.push(c);
        assert forall|i: int| 0 <= i < out.len() implies cluster_ok(ids, hs, max, #[trigger] out[i]) by {
            if i < st.1.len() {
                assert(out[i] == st.1[i]);
            }
        }
    }
}

proof fn lemma_run_bucket_ok(ids: Seq<Seq<char>>, hs: Seq<u64>, max: nat, k: int, t: int, st: ClusterState)
    requires
        t <= ids.len(),
        hs.len() == ids.len(),
        0 <= k < ids.len(),
        forall|i: int| 0 <= i < st.1.len() ==> cluster_ok(ids, hs, max, #[trigger] st.1[i]),
    ensures
        forall|i: int| 0 <= i < run_bucket(ids, hs, max, k, t, st).1.len() ==> cluster_ok(ids, hs, max, #[trigger] run_bucket(ids, hs, max, k, t, st).1[i]),
    decreases t,
{
    if t > 0 {
        lemma_run_bucket_ok(ids, hs, max, k, t - 1, st);
        let s = run_bucket(ids, hs, max, k, t - 1, st);
        if bucket(hs[t - 1]) == bucket(hs[k]) {
            lemma_start_ok(ids, hs, max, t - 1, s);
        }
    }
}

proof fn lemma_run_ok(ids: Seq<Seq<char>>, hs: Seq<u64>, max: nat, t: int)
    requires
        t <= ids.len(),
        hs.len() == ids.len(),
    ensures
        forall|i: int| 0 <= i < run(ids, hs, max, t).1.len() ==> cluster_ok(ids, hs, max, #[trigger] run(ids, hs, max, t).1[i]),
    decreases t,
{
    if t > 0 {
        lemma_run_ok(ids, hs, max, t - 1);
        let s = run(ids, hs, max, t - 1);
        if first_in_bucket(hs, t - 1) {
            lemma_run_bucket_ok(ids, hs, max, t - 1, ids.len() as int, s);
        }
    }
}

/// Every cluster is founded by a post of the page, is named `c` and that
/// post's hash in hexadecimal, lists that post first, and its other members
/// are posts with the same top sixteen hash bits at most `max` bits from it.
pub proof fn lemma_clusters_near(items: Seq<(String, String)>, max: nat)
    ensures
        forall|i: int| 0 <= i < clusters_spec(items, max).len() ==>
            cluster_ok(item_ids(items), item_hashes(items), max, #[trigger] clusters_spec(items, max)[i]),
{
    lemma_run_ok(item_ids(items), item_hashes(items), max, items.len() as int);
}

} // verus!

verus! {

// ---------------------------------------------------------------------------
// The simhash depends on the multiset of words only
// ---------------------------------------------------------------------------

pub open spec fn word_vote(w: Seq<char>, i: int) -> int {
    if bit(fnv1a(word_bytes(w)), i) { 1int } else { -1int }
}

proof fn lemma_vote_remove(ws: Seq<Seq<char>>, j: int, i: int)
    requires
        0 <= j < ws.len(),
    ensures
        vote(ws, i) == vote(ws.remove(j), i) + word_vote(ws[j], i),
    decreases ws.len(),
{
    if j == ws.len() - 1 {
        assert(ws.remove(j) =~= ws.drop_last());
    } else {
        let d = ws.drop_last();
        lemma_vote_remove(d, j, i);
        assert(ws.remove(j).drop_last() =~= d.remove(j));
        assert(ws.remove(j).last() == ws.last());
        assert(d[j] == ws[j]);
    }
}

proof fn lemma_vote_multiset(ws: Seq<Seq<char>>, vs: Seq<Seq<char>>, i: int)
    requires
        ws.to_multiset() == vs.to_multiset(),
    ensures
        vote(ws, i) == vote(vs, i),
    decreases ws.len(),
{
    broadcast use vstd::seq_lib::group_seq_properties;
    broadcast use vstd::multiset::group_multiset_axioms;

    if ws.len() == 0 {
        assert(vs.len() == vs.to_multiset().len());
        assert(ws.len() == ws.to_multiset().len());
    } else {
        let d = ws.drop_last();
        let x = ws.last();
        assert(ws =~= d.push(x));
        assert(ws.to_multiset() =~= d.to_multiset().insert(x));
        assert(vs.to_multiset().count(x) > 0);
        assert(vs.contains(x));
        let j = choose|j: int| 0 <= j < vs.len() && vs[j] == x;
        assert(vs.remove(j).to_multiset() =~= vs.to_multiset().remove(x));
        assert(d.to_multiset() =~= d.to_multiset().insert(x).remove(x));
        lemma_vote_multiset(d, vs.remove(j), i);
        lemma_vote_remove(vs, j, i);
    }
}

proof fn lemma_simhash_bits_votes(ws: Seq<Seq<char>>, vs: Seq<Seq<char>>, n: nat)
    requires
        forall|i: int| 0 <= i < n ==> vote(ws, i) == vote(vs, i),
    ensures
        simhash_bits(ws, n) == simhash_bits(vs, n),
    decreases n,
{
    if n > 0 {
        lemma_simhash_bits_votes(ws, vs, (n - 1) as nat);
        assert(vote(ws, n - 1) == vote(vs, n - 1));
    }
}

proof fn lemma_low_ones(p: u64, k: u64)
    requires
        k < 64,
        p == (if k == 0 { 0u64 } else { 0xffff_ffff_ffff_ffffu64 >> ((64 - k) as u64) }),
    ensures
        (p | (1u64 << k)) == 0xffff_ffff_ffff_ffffu64 >> ((63 - k) as u64),
{
    assert(k < 64 && p == (if k == 0 { 0u64 } else { 0xffff_ffff_ffff_ffffu64 >> ((64 - k) as u64) })
        ==> (p | (1u64 << k)) == 0xffff_ffff_ffff_ffffu64 >> ((63 - k) as u64)) by (bit_vector);
}

proof fn lemma_simhash_bits_no_words(ws: Seq<Seq<char>>, n: nat)
    requires
        ws.len() == 0,
        n <= 64,
    ensures
        simhash_bits(ws, n) == (if n == 0 { 0u64 } else { 0xffff_ffff_ffff_ffffu64 >> ((64 - n) as u64) }),
    decreases n,
{
    if n > 0 {
        lemma_simhash_bits_no_words(ws, (n - 1) as nat);
        assert(vote(ws, n - 1) == 0);
        lemma_low_ones(simhash_bits(ws, (n - 1) as nat), (n - 1) as u64);
    }
}

/// Texts whose whitespace-separated words are the same multiset have the same
/// simhash; a text without words hashes to all ones.
pub proof fn lemma_simhash_word_multiset(s: Seq<char>, t: Seq<char>)
    ensures
        words(s).to_multiset() == words(t).to_multiset() ==> simhash_spec(s) == simhash_spec(t),
        words(s).len() == 0 ==> simhash_spec(s) == u64::MAX,
{
    if words(s).to_multiset() == words(t).to_multiset() {
        assert forall|i: int| 0 <= i < 64 implies vote(words(s), i) == vote(words(t), i) by {
            lemma_vote_multiset(words(s), words(t), i);
        }
        lemma_simhash_bits_votes(words(s), words(t), 64);
    }
    if words(s).len() == 0 {
        lemma_simhash_bits_no_words(words(s), 64);
        assert(0xffff_ffff_ffff_ffffu64 >> 0u64 == 0xffff_ffff_ffff_ffffu64) by (bit_vector);
    }
}

} // verus!

verus! {

// ---------------------------------------------------------------------------
// What normalising a title gives
// ---------------------------------------------------------------------------

/// A small ASCII letter or a digit.
pub open spec fn norm_char(c: char) -> bool {
    is_ascii_lower(c) || is_ascii_digit(c)
}

/// A non-empty word of small ASCII letters and digits.
pub open spec fn norm_word(w: Seq<char>) -> bool {
    w.len() > 0 && forall|j: int| 0 <= j < w.len() ==> norm_char(#[trigger] w[j])
}

/// Spaces only between words: none first, none last, never two in a row.
pub open spec fn single_spaced(r: Seq<char>) -> bool {
    &&& r.len() > 0 ==> r[0] != ' ' && r[r.len() - 1] != ' '
    &&& forall|i: int| 0 <= i < r.len() - 1 && #[trigger] r[i] == ' ' ==> r[i + 1] != ' '
}

/// A normalised title: small ASCII letters, digits and spaces, with no
/// leading, trailing or doubled space, which is its words joined by single
/// spaces, none of them a stopword.
pub open spec fn norm_shape(r: Seq<char>) -> bool {
    &&& forall|i: int| 0 <= i < r.len() ==> norm_char(#[trigger] r[i]) || r[i] == ' '
    &&& single_spaced(r)
    &&& seq_join(words(r), " "@) == r
    &&& forall|k: int| 0 <= k < words(r).len() ==> norm_word(#[trigger] words(r)[k]) && !is_stopword(words(r)[k])
}

proof fn lemma_words_of_norm_chars(b: Seq<char>)
    requires
        forall|i: int| 0 <= i < b.len() ==> norm_char(#[trigger] b[i]) || b[i] == ' ',
    ensures
        forall|k: int| 0 <= k < words(b).len() ==> norm_word(#[trigger] words(b)[k]),
    decreases b.len(),
{
    if b.len() > 0 {
        let p = b.drop_last();
        let c = b.last();
        assert(forall|i: int| 0 <= i < p.len() ==> p[i] == b[i]);
        lemma_words_of_norm_chars(p);
        let w = words(p);
        if is_ws(c) {
        } else if b.len() >= 2 && !is_ws(b[b.len() - 2]) {
            assert(p.last() == b[b.len() - 2]);
            lemma_words_nonempty_after_word_char(p);
            assert(norm_char(c));
            let nw = w.last().push(c);
            assert(norm_word(w[w.len() - 1]));
            assert forall|j: int| 0 <= j < nw.len() implies norm_char(#[trigger] nw[j]) by {
                if j < nw.len() - 1 {
                    assert(nw[j] == w[w.len() - 1][j]);
                }
            }
            let r = w.update(w.len() - 1, nw);
            assert forall|k: int| 0 <= k < r.len() implies norm_word(#[trigger] r[k]) by {
                if k < r.len() - 1 {
                    assert(r[k] == w[k]);
                }
            }
        } else {
            assert(norm_char(c));
            let r = w.push(seq![c]);
            assert forall|k: int| 0 <= k < r.len() implies norm_word(#[trigger] r[k]) by {
                if k < r.len() - 1 {
                    assert(r[k] == w[k]);
                } else {
                    assert(r[k] =~= seq![c]);
                }
            }
        }
    }
}

proof fn lemma_words_append_word(x: Seq<char>, w: Seq<char>)
    requires
        x.len() == 0 || is_ws(x.last()),
        norm_word(w),
    ensures
        words(x + w) == words(x).push(w),
    decreases w.len(),
{
    if w.len() == 1 {
        assert(x + w =~= x.push(w[0]));
        assert((x + w).drop_last() =~= x);
        assert(norm_char(w[0]));
        if x.len() > 0 {
            assert((x + w)[(x + w).len() - 2] == x.last());
        }
        assert(seq![w[0]] =~= w);
    } else {
        let v = w.drop_last();
        assert(forall|j: int| 0 <= j < v.len() ==> v[j] == w[j]);
        lemma_words_append_word(x, v);
        let c = w.last();
        assert(norm_char(w[w.len() - 1]));
        assert(x + w =~= (x + v).push(c));
        assert((x + w).drop_last() =~= x + v);
        assert((x + w)[(x + w).len() - 2] == v.last());
        assert(norm_char(w[w.len() - 2]));
        assert(v.push(c) =~= w);
        assert(words(x).push(v).update(words(x).len() as int, v.push(c)) =~= words(x).push(w));
    }
}

proof fn lemma_words_trailing_space(x: Seq<char>)
    ensures
        words(x.push(' ')) == words(x),
{
    assert(x.push(' ').drop_last() =~= x);
}

proof fn lemma_words_join(l: Seq<Seq<char>>)
    requires
        forall|k: int| 0 <= k < l.len() ==> norm_word(#[trigger] l[k]),
    ensures
        words(seq_join(l, " "@)) == l,
        forall|i: int| 0 <= i < seq_join(l, " "@).len() ==> norm_char(#[trigger] seq_join(l, " "@)[i]) || seq_join(l, " "@)[i] == ' ',
    decreases l.len(),
{
    reveal_strlit(" ");
    if l.len() == 0 {
        assert(words(Seq::<char>::empty()) =~= Seq::<Seq<char>>::empty());
        assert(l =~= Seq::<Seq<char>>::empty());
    } else if l.len() == 1 {
        assert(norm_word(l[0]));
        lemma_words_append_word(Seq::<char>::empty(), l[0]);
        assert(Seq::<char>::empty() + l[0] =~= l[0]);
        assert(words(Seq::<char>::empty()) =~= Seq::<Seq<char>>::empty());
        assert(Seq::<Seq<char>>::empty().push(l[0]) =~= l);
        assert(norm_word(l[0]));
    } else {
        let d = l.drop_last();
        assert(forall|k: int| 0 <= k < d.len() ==> d[k] == l[k]);
        lemma_words_join(d);
        let j = seq_join(d, " "@);
        let a = j.push(' ');
        assert(j + " "@ =~= a);
        lemma_words_trailing_space(j);
        assert(norm_word(l[l.len() - 1]));
        lemma_words_append_word(a, l.last());
        assert(seq_join(l, " "@) == a + l.last());
        assert(d.push(l.last()) =~= l);
        let r = a + l.last();
        assert forall|i: int| 0 <= i < r.len() implies norm_char(#[trigger] r[i]) || r[i] == ' ' by {
            if i < j.len() {
                assert(r[i] == j[i]);
            } else if i > j.len() {
                assert(r[i] == l.last()[i - j.len() - 1]);
            }
        }
    }
}

proof fn lemma_join_single_spaced(l: Seq<Seq<char>>)
    requires
        forall|k: int| 0 <= k < l.len() ==> norm_word(#[trigger] l[k]),
    ensures
        single_spaced(seq_join(l, " "@)),
    decreases l.len(),
{
    reveal_strlit(" ");
    if l.len() == 1 {
        assert(norm_word(l[0]));
        let w = l[0];
        assert(norm_char(w[0]) && norm_char(w[w.len() - 1]));
        assert forall|i: int| 0 <= i < w.len() - 1 && #[trigger] w[i] == ' ' implies w[i + 1] != ' ' by {
            assert(norm_char(w[i]));
        }
    } else if l.len() > 1 {
        let d = l.drop_last();
        assert(forall|k: int| 0 <= k < d.len() ==> d[k] == l[k]);
        lemma_join_single_spaced(d);
        lemma_words_join(d);
        let j = seq_join(d, " "@);
        let w = l.last();
        assert(norm_word(l[l.len() - 1]));
        assert(norm_word(d[0]));
        assert(j.len() > 0) by {
            lemma_join_nonempty(d);
        }
        let r = seq_join(l, " "@);
        assert(r == j + " "@ + w);
        assert(r[0] == j[0]);
        assert(r[r.len() - 1] == w[w.len() - 1]);
        assert(norm_char(w[w.len() - 1]));
        assert forall|i: int| 0 <= i < r.len() - 1 && #[trigger] r[i] == ' ' implies r[i + 1] != ' ' by {
            if i < j.len() - 1 {
                assert(r[i] == j[i] && r[i + 1] == j[i + 1]);
            } else if i == j.len() - 1 {
                assert(r[i] == j[j.len() - 1]);
            } else if i == j.len() {
                assert(r[i + 1] == w[0]);
                assert(norm_char(w[0]));
            } else {
                assert(r[i] == w[i - j.len() - 1]);
                assert(norm_char(w[i - j.len() - 1]));
            }
        }
    }
}

proof fn lemma_join_nonempty(l: Seq<Seq<char>>)
    requires
        l.len() > 0,
        forall|k: int| 0 <= k < l.len() ==> norm_word(#[trigger] l[k]),
    ensures
        seq_join(l, " "@).len() > 0,
    decreases l.len(),
{
    if l.len() == 1 {
        assert(norm_word(l[0]));
    } else {
        assert(norm_word(l[l.len() - 1]));
    }
}

proof fn lemma_drop_stopwords(l: Seq<Seq<char>>)
    requires
        forall|k: int| 0 <= k < l.len() ==> norm_word(#[trigger] l[k]),
    ensures
        forall|k: int| 0 <= k < drop_stopwords(l).len() ==>
            norm_word(#[trigger] drop_stopwords(l)[k]) && !is_stopword(drop_stopwords(l)[k]),
        (forall|k: int| 0 <= k < l.len() ==> !is_stopword(#[trigger] l[k])) ==> drop_stopwords(l) == l,
    decreases l.len(),
{
    if l.len() > 0 {
        let d = l.drop_last();
        assert(forall|k: int| 0 <= k < d.len() ==> d[k] == l[k]);
        lemma_drop_stopwords(d);
        assert(norm_word(l[l.len() - 1]));
        if forall|k: int| 0 <= k < l.len() ==> !is_stopword(#[trigger] l[k]) {
            assert(!is_stopword(l[l.len() - 1]));
            assert(d.push(l.last()) =~= l);
        }
        let r = drop_stopwords(l);
        if !is_stopword(l.last()) {
            assert(r == drop_stopwords(d).push(l.last()));
            assert forall|k: int| 0 <= k < r.len() implies norm_word(#[trigger] r[k]) && !is_stopword(r[k]) by {
                if k < r.len() - 1 {
                    assert(r[k] == drop_stopwords(d)[k]);
                } else {
                    assert(r[k] == l[l.len() - 1]);
                }
            }
        } else {
            assert(r == drop_stopwords(d));
        }
    } else {
        assert(l =~= Seq::<Seq<char>>::empty());
    }
}

proof fn lemma_title_norm(s: Seq<char>)
    requires
        forall|i: int| 0 <= i < norm_lower(s).len() ==> !is_ascii_upper(#[trigger] norm_lower(s)[i]),
    ensures
        norm_shape(title_norm_spec(s)),
        title_norm_spec(title_norm_spec(s)) == title_norm_spec(s),
{
    let lower = norm_lower(s);
    let b = lower.map_values(|c: char| blank_punct(c));
    assert forall|i: int| 0 <= i < b.len() implies norm_char(#[trigger] b[i]) || b[i] == ' ' by {
        assert(!is_ascii_upper(lower[i]));
    }
    lemma_words_of_norm_chars(b);
    let ws = words(b);
    lemma_drop_stopwords(ws);
    let d = drop_stopwords(ws);
    lemma_words_join(d);
    lemma_join_single_spaced(d);
    let r = seq_join(d, " "@);
    assert(r == title_norm_spec(s));
    assert(words(r) == d);
    assert(vstd::utf8::is_ascii_chars(r)) by {
        assert forall|i: int| 0 <= i < r.len() implies '\0' <= #[trigger] r[i] <= '\u{7f}' by {
            assert(norm_char(r[i]) || r[i] == ' ');
        }
    }
    assert(norm_lower(r) =~= r) by {
        assert forall|i: int| 0 <= i < r.len() implies #[trigger] ascii_lower_seq(r)[i] == r[i] by {
            assert(norm_char(r[i]) || r[i] == ' ');
        }
    }
    let rb = norm_lower(r).map_values(|c: char| blank_punct(c));
    assert(rb =~= r) by {
        assert forall|i: int| 0 <= i < r.len() implies #[trigger] rb[i] == r[i] by {
            assert(norm_char(r[i]) || r[i] == ' ');
        }
    }
    assert(forall|k: int| 0 <= k < d.len() ==> !is_stopword(#[trigger] d[k]) && norm_word(d[k]));
    lemma_drop_stopwords(d);
}

} // verus!
