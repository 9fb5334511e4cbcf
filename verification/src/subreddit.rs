//! Subreddit listings: cookie-sized lists of subscriptions, filters and read
//! posts, the anonymous listing render cache, and the listing's choices.
use vstd::prelude::*;
use crate::text::{
    chars_of, concat2, owned, push_char, push_str, str_eq, str_starts_with, u64_to_string, dec, views,
    starts_with_seq,
};
use vstd::utf8::encode_utf8;

verus! {

/// Length in bytes of the UTF-8 encoding.
pub open spec fn blen(s: Seq<char>) -> int {
    encode_utf8(s).len() as int
}

fn byte_len(s: &str) -> (r: usize)
    ensures
        r as int == blen(s@),
{
    s.as_bytes().len()
}

// ----- cookie-sized lists -----

/// The state while joining items with `+` into lists that fit a cookie: the
/// lists closed so far (each ending in `+`, so that they read as one list in
/// turn) and the open list. An open list is closed before the next item when
/// its bytes, a `+`, the item and a closing `+` would pass 4000 bytes.
pub open spec fn size_limit_scan(items: Seq<Seq<char>>) -> (Seq<Seq<char>>, Seq<char>)
    decreases items.len(),
{
    if items.len() == 0 {
        (seq![], seq![])
    } else {
        let (res, list) = size_limit_scan(items.drop_last());
        let it = items.last();
        if list.len() > 0 && blen(list) + blen(it) + 2 > 4000 {
            (res.push(list + "+"@), it)
        } else if list.len() > 0 {
            (res, list + "+"@ + it)
        } else {
            (res, it)
        }
    }
}

pub open spec fn join_until_size_limit_spec(items: Seq<Seq<char>>) -> Seq<Seq<char>> {
    let (res, list) = size_limit_scan(items);
    res.push(list)
}

/// Joins items with `+` into lists of at most 4000 bytes (see
/// `size_limit_scan`); the open list is always added last, even when empty.
pub fn join_until_size_limit(items: &Vec<String>) -> (r: Vec<String>)
    ensures
        views(r@) == join_until_size_limit_spec(views(items@)),
{
    let mut result: Vec<String> = Vec::new();
    let mut list = String::new();
    let mut i: usize = 0;
    while i < items.len()
        invariant
            i <= items@.len(),
            (views(result@), list@) == size_limit_scan(views(items@).take(i as int)),
        decreases items@.len() - i,
    {
        assert(views(items@).take(i + 1).drop_last() =~= views(items@).take(i as int));
        assert(views(items@).take(i + 1).last() == items@[i as int]@);
        proof {
            reveal_strlit("+");
        }
        let item = items[i].as_str();
        let size = byte_len(item);
        let cur = byte_len(list.as_str());
        let ghost prev_res = views(result@);
        let ghost prev_list = list@;
        if !list.as_str().is_empty() && (cur as u128) + (size as u128) + 2 > 4000 {
            push_char(&mut list, '+');
            assert(list@ =~= prev_list + "+"@);
            let closed = list;
            result.push(closed);
            assert(views(result@) =~= prev_res.push(prev_list + "+"@));
            list = owned(item);
        } else if !list.as_str().is_empty() {
            push_char(&mut list, '+');
            push_str(&mut list, item);
            assert(list@ =~= prev_list + "+"@ + item@);
        } else {
            push_str(&mut list, item);
            assert(list@ =~= item@);
        }
        i += 1;
    }
    assert(views(items@).take(i as int) =~= views(items@));
    result.push(list);
    assert(views(result@) =~= join_until_size_limit_spec(views(items@)));
    result
}

/// Comma-separated chunks of read post ids of at most about 4000 bytes: a
/// chunk is closed when adding the next id (with its comma) would pass 4000
/// bytes. The comma is decided before the chunk is closed, so the next chunk
/// then starts with one.
pub open spec fn read_chunk_scan(ids: Seq<Seq<char>>) -> (Seq<Seq<char>>, Seq<char>)
    decreases ids.len(),
{
    if ids.len() == 0 {
        (seq![], seq![])
    } else {
        let (res, list) = read_chunk_scan(ids.drop_last());
        let id = ids.last();
        let need_comma = list.len() > 0;
        let add = (if need_comma { 1int } else { 0int }) + blen(id);
        let (res2, list2) = if blen(list) + add > 4000 && list.len() > 0 { (res.push(list), Seq::<char>::empty()) } else { (res, list) };
        let list3 = (if need_comma { list2.push(',') } else { list2 }) + id;
        (res2, list3)
    }
}

pub open spec fn chunk_read_ids_spec(ids: Seq<Seq<char>>) -> Seq<Seq<char>> {
    let (res, list) = read_chunk_scan(ids);
    if list.len() > 0 { res.push(list) } else { res }
}

pub fn chunk_read_ids(ids: &Vec<String>) -> (r: Vec<String>)
    ensures
        views(r@) == chunk_read_ids_spec(views(ids@)),
{
    let mut result: Vec<String> = Vec::new();
    let mut list = String::new();
    let mut i: usize = 0;
    while i < ids.len()
        invariant
            i <= ids@.len(),
            (views(result@), list@) == read_chunk_scan(views(ids@).take(i as int)),
        decreases ids@.len() - i,
    {
        assert(views(ids@).take(i + 1).drop_last() =~= views(ids@).take(i as int));
        assert(views(ids@).take(i + 1).last() == ids@[i as int]@);
        let id = ids[i].as_str();
        let need_comma = !list.as_str().is_empty();
        let add: u128 = (if need_comma { 1 } else { 0 }) + (byte_len(id) as u128);
        if (byte_len(list.as_str()) as u128) + add > 4000 && !list.as_str().is_empty() {
            let closed = list;
            result.push(closed);
            list = String::new();
        }
        if need_comma {
            push_char(&mut list, ',');
        }
        push_str(&mut list, id);
        i += 1;
        assert(views(result@) =~= read_chunk_scan(views(ids@).take(i as int)).0);
    }
    assert(views(ids@).take(i as int) =~= views(ids@));
    if !list.as_str().is_empty() {
        result.push(list);
    }
    assert(views(result@) =~= chunk_read_ids_spec(views(ids@)));
    result
}

/// The name of the `i`-th cookie of a numbered series: `base`, `base1`,
/// `base2`, ...
pub open spec fn numbered_name(base: Seq<char>, i: nat) -> Seq<char> {
    if i == 0 { base } else { base + dec(i) }
}

pub fn numbered_cookie_name(base: &str, i: u64) -> (r: String)
    ensures
        r@ == numbered_name(base@, i as nat),
{
    if i == 0 {
        owned(base)
    } else {
        let mut s = owned(base);
        push_str(&mut s, u64_to_string(i).as_str());
        s
    }
}

} // verus!

verus! {

// ----- the render cache of anonymous listings -----

/// How long a rendered page is served from the cache: twelve seconds, in
/// nanoseconds.
pub const RENDER_CACHE_TTL_NS: u64 = 12_000_000_000;

/// A rendered listing page and when it was stored.
#[derive(Debug)]
pub struct CacheEntry {
    pub key: String,
    /// Monotonic time of storing, in nanoseconds.
    pub inserted: u64,
    pub html: String,
}

/// Rendered pages of anonymous listings by cache key, with hit, miss and
/// store counters (which wrap around like `AtomicU32::fetch_add`).
#[derive(Debug)]
pub struct RenderCache {
    pub(crate) entries: Vec<CacheEntry>,
    pub(crate) hits: u32,
    pub(crate) misses: u32,
    pub(crate) stores: u32,
}

/// Time elapsed between two monotonic readings, zero when `now` is earlier.
pub open spec fn elapsed(inserted: u64, now: u64) -> int {
    if now >= inserted { now - inserted } else { 0 }
}

pub open spec fn fresh(e: CacheEntry, now: u64) -> bool {
    elapsed(e.inserted, now) <= RENDER_CACHE_TTL_NS
}

/// The entry stored under `key`.
pub open spec fn entry_for(es: Seq<CacheEntry>, key: Seq<char>) -> Option<CacheEntry>
    decreases es.len(),
{
    if es.len() == 0 {
        None
    } else if es.last().key@ == key {
        Some(es.last())
    } else {
        entry_for(es.drop_last(), key)
    }
}

/// No key is stored twice.
pub open spec fn keys_unique(es: Seq<CacheEntry>) -> bool {
    forall|i: int, j: int| 0 <= i < j < es.len() ==> es[i].key@ != es[j].key@
}

/// The entries without `key`.
pub open spec fn without_key(es: Seq<CacheEntry>, key: Seq<char>) -> Seq<CacheEntry>
    decreases es.len(),
{
    if es.len() == 0 {
        seq![]
    } else if es.last().key@ == key {
        without_key(es.drop_last(), key)
    } else {
        without_key(es.drop_last(), key).push(es.last())
    }
}

/// The entries still fresh at `now`.
pub open spec fn fresh_only(es: Seq<CacheEntry>, now: u64) -> Seq<CacheEntry>
    decreases es.len(),
{
    if es.len() == 0 {
        seq![]
    } else if fresh(es.last(), now) {
        fresh_only(es.drop_last(), now).push(es.last())
    } else {
        fresh_only(es.drop_last(), now)
    }
}

fn copy_entry(e: &CacheEntry) -> (r: CacheEntry)
    ensures
        r == *e,
{
    CacheEntry { key: e.key.clone(), inserted: e.inserted, html: e.html.clone() }
}

fn drop_key(es: &Vec<CacheEntry>, key: &str) -> (r: Vec<CacheEntry>)
    ensures
        r@ == without_key(es@, key@),
{
    let mut out: Vec<CacheEntry> = Vec::new();
    let mut i: usize = 0;
    while i < es.len()
        invariant
            i <= es@.len(),
            out@ == without_key(es@.take(i as int), key@),
        decreases es@.len() - i,
    {
        assert(es@.take(i + 1).drop_last() =~= es@.take(i as int));
        if !str_eq(es[i].key.as_str(), key) {
            out.push(copy_entry(&es[i]));
        }
        i += 1;
    }
    assert(es@.take(i as int) =~= es@);
    out
}

fn keep_fresh(es: &Vec<CacheEntry>, now: u64) -> (r: Vec<CacheEntry>)
    ensures
        r@ == fresh_only(es@, now),
{
    let mut out: Vec<CacheEntry> = Vec::new();
    let mut i: usize = 0;
    while i < es.len()
        invariant
            i <= es@.len(),
            out@ == fresh_only(es@.take(i as int), now),
        decreases es@.len() - i,
    {
        assert(es@.take(i + 1).drop_last() =~= es@.take(i as int));
        let e = &es[i];
        let age: u64 = if now >= e.inserted { now - e.inserted } else { 0 };
        if age <= RENDER_CACHE_TTL_NS {
            out.push(copy_entry(e));
        }
        i += 1;
    }
    assert(es@.take(i as int) =~= es@);
    out
}

proof fn lemma_without_key(es: Seq<CacheEntry>, key: Seq<char>)
    ensures
        entry_for(without_key(es, key), key) is None,
        forall|k: Seq<char>| k != key ==> #[trigger] entry_for(without_key(es, key), k) == entry_for(es, k),
        forall|i: int| 0 <= i < without_key(es, key).len() ==> {
            let x = #[trigger] without_key(es, key)[i];
            x.key@ != key && exists|j: int| 0 <= j < es.len() && es[j] == x
        },
        keys_unique(es) ==> keys_unique(without_key(es, key)),
    decreases es.len(),
{
    if es.len() > 0 {
        let p = es.drop_last();
        lemma_without_key(p, key);
        let w = without_key(p, key);
        if es.last().key@ != key {
            assert(w.push(es.last()).drop_last() =~= w);
        }
        assert forall|k: Seq<char>| k != key implies #[trigger] entry_for(without_key(es, key), k) == entry_for(es, k) by {
            if es.last().key@ != key {
                assert(w.push(es.last()).drop_last() =~= w);
                assert(w.push(es.last()).last() == es.last());
            }
            assert(entry_for(without_key(p, key), k) == entry_for(p, k));
        }
        assert forall|i: int| 0 <= i < without_key(es, key).len() implies {
            let x = #[trigger] without_key(es, key)[i];
            x.key@ != key && exists|j: int| 0 <= j < es.len() && es[j] == x
        } by {
            let x = without_key(es, key)[i];
            if es.last().key@ != key && i == w.len() {
                assert(es[es.len() - 1] == x);
            } else {
                assert(w[i] == x);
                let j = choose|j: int| 0 <= j < p.len() && p[j] == x;
                assert(es[j] == x);
            }
        }
        if keys_unique(es) {
            assert(keys_unique(p));
            if es.last().key@ != key {
                let r = w.push(es.last());
                assert forall|i: int, j: int| 0 <= i < j < r.len() implies r[i].key@ != r[j].key@ by {
                    if j == w.len() {
                        assert(r[i] == w[i]);
                        let k = choose|k: int| 0 <= k < p.len() && p[k] == w[i];
                        assert(es[k] == w[i]);
                    } else {
                        assert(r[i] == w[i] && r[j] == w[j]);
                    }
                }
            }
        }
    }
}

proof fn lemma_fresh_only_unique(es: Seq<CacheEntry>, now: u64)
    ensures
        forall|i: int| 0 <= i < fresh_only(es, now).len() ==> exists|j: int| 0 <= j < es.len() && es[j] == #[trigger] fresh_only(es, now)[i],
        keys_unique(es) ==> keys_unique(fresh_only(es, now)),
    decreases es.len(),
{
    if es.len() > 0 {
        let p = es.drop_last();
        lemma_fresh_only_unique(p, now);
        let w = fresh_only(p, now);
        assert forall|i: int| 0 <= i < fresh_only(es, now).len() implies exists|j: int| 0 <= j < es.len() && es[j] == #[trigger] fresh_only(es, now)[i] by {
            if fresh(es.last(), now) && i == w.len() {
                assert(es[es.len() - 1] == fresh_only(es, now)[i]);
            } else {
                assert(w[i] == fresh_only(es, now)[i]);
                let j = choose|j: int| 0 <= j < p.len() && p[j] == w[i];
                assert(es[j] == w[i]);
            }
        }
        if keys_unique(es) && fresh(es.last(), now) {
            let r = w.push(es.last());
            assert forall|i: int, j: int| 0 <= i < j < r.len() implies r[i].key@ != r[j].key@ by {
                if j == w.len() {
                    assert(r[i] == w[i]);
                    let k = choose|k: int| 0 <= k < p.len() && p[k] == w[i];
                    assert(es[k] == w[i]);
                } else {
                    assert(r[i] == w[i] && r[j] == w[j]);
                }
            }
        }
    }
}

/// Where the entry of `key` is (see `entry_for`).
fn entry_index(es: &Vec<CacheEntry>, key: &str) -> (r: Option<usize>)
    ensures
        match r {
            Some(i) => i < es@.len() && entry_for(es@, key@) == Some(es@[i as int]),
            None => entry_for(es@, key@) is None,
        },
{
    let mut i: usize = es.len();
    assert(es@.take(i as int) =~= es@);
    while i > 0
        invariant
            i <= es@.len(),
            entry_for(es@, key@) == entry_for(es@.take(i as int), key@),
        decreases i,
    {
        assert(es@.take(i as int).drop_last() =~= es@.take(i - 1));
        assert(es@.take(i as int).last() == es@[i - 1]);
        if str_eq(es[i - 1].key.as_str(), key) {
            return Some(i - 1);
        }
        i -= 1;
    }
    None
}

impl RenderCache {
    /// The cache holds each key at most once.
    #[verifier::type_invariant]
    spec fn wf(&self) -> bool {
        keys_unique(self.entries@)
    }

    /// The pages held, each with its key and time of storing.
    pub closed spec fn pages(&self) -> Seq<CacheEntry> {
        self.entries@
    }

    pub closed spec fn hit_count(&self) -> u32 {
        self.hits
    }

    pub closed spec fn miss_count(&self) -> u32 {
        self.misses
    }

    pub closed spec fn store_count(&self) -> u32 {
        self.stores
    }

    pub fn new() -> (c: RenderCache)
        ensures
            c.pages().len() == 0,
            c.hit_count() == 0 && c.miss_count() == 0 && c.store_count() == 0,
    {
        RenderCache { entries: Vec::new(), hits: 0, misses: 0, stores: 0 }
    }
}

/// A fresh page stored under `key` is served and counted as a hit;
/// otherwise it is a miss, and a stale page is dropped.
pub fn render_cache_get(cache: &mut RenderCache, key: &str, now: u64) -> (r: Option<String>)
    ensures
        match entry_for(old(cache).pages(), key@) {
            Some(e) if fresh(e, now) => {
                &&& view_html(r) == Some(e.html@)
                &&& final(cache).hit_count() == (old(cache).hit_count() + 1) % 0x1_0000_0000
                &&& final(cache).miss_count() == old(cache).miss_count()
                &&& final(cache).pages() == old(cache).pages()
            },
            _ => {
                &&& r is None
                &&& final(cache).hit_count() == old(cache).hit_count()
                &&& final(cache).miss_count() == (old(cache).miss_count() + 1) % 0x1_0000_0000
                &&& final(cache).pages() == without_key(old(cache).pages(), key@)
            },
        },
        final(cache).store_count() == old(cache).store_count(),
{
    proof {
        use_type_invariant(&*cache);
    }
    if let Some(i) = entry_index(&cache.entries, key) {
        let e = &cache.entries[i];
        let age: u64 = if now >= e.inserted { now - e.inserted } else { 0 };
        if age <= RENDER_CACHE_TTL_NS {
            let html = e.html.clone();
            cache.hits = cache.hits.wrapping_add(1);
            return Some(html);
        }
    }
    cache.misses = cache.misses.wrapping_add(1);
    let kept = drop_key(&cache.entries, key);
    proof {
        lemma_without_key(cache.entries@, key@);
    }
    cache.entries = kept;
    None
}

/// Stores a rendered page; with more than 128 pages cached, stale ones are
/// dropped first.
pub fn render_cache_put(cache: &mut RenderCache, key: &str, html: String, now: u64)
    ensures
        final(cache).pages() == without_key(
            if old(cache).pages().len() > 128 { fresh_only(old(cache).pages(), now) } else { old(cache).pages() },
            key@,
        ).push(CacheEntry { key: final(cache).pages().last().key, inserted: now, html }),
        final(cache).pages().last().key@ == key@,
        final(cache).store_count() == (old(cache).store_count() + 1) % 0x1_0000_0000,
        final(cache).hit_count() == old(cache).hit_count() && final(cache).miss_count() == old(cache).miss_count(),
{
    proof {
        use_type_invariant(&*cache);
    }
    if cache.entries.len() > 128 {
        let kept = keep_fresh(&cache.entries, now);
        proof {
            lemma_fresh_only_unique(cache.entries@, now);
        }
        cache.entries = kept;
    }
    let ghost before = cache.entries@;
    let mut kept = drop_key(&cache.entries, key);
    proof {
        lemma_without_key(before, key@);
    }
    let ghost w = kept@;
    kept.push(CacheEntry { key: owned(key), inserted: now, html });
    proof {
        assert forall|i: int, j: int| 0 <= i < j < kept@.len() implies kept@[i].key@ != kept@[j].key@ by {
            if j == w.len() {
                assert(kept@[i] == w[i]);
            } else {
                assert(kept@[i] == w[i] && kept@[j] == w[j]);
            }
        }
    }
    cache.entries = kept;
    cache.stores = cache.stores.wrapping_add(1);
}

pub open spec fn view_html(r: Option<String>) -> Option<Seq<char>> {
    match r {
        Some(h) => Some(h@),
        None => None,
    }
}

/// The cache's hit, miss and store counts and its number of pages.
pub fn render_cache_metrics_snapshot(cache: &RenderCache) -> (r: (u32, u32, u32, usize))
    ensures
        r.0 == cache.hit_count() && r.1 == cache.miss_count() && r.2 == cache.store_count(),
        r.3 as int == cache.pages().len(),
{
    (cache.hits, cache.misses, cache.stores, cache.entries.len())
}

/// The cache counters in Prometheus text format.
pub open spec fn prometheus_text(hit: nat, miss: nat, store: nat, size: nat) -> Seq<char> {
    "# TYPE redlib_render_cache_requests_total counter\n"@
        + "redlib_render_cache_requests_total{result=\"hit\"} "@ + dec(hit) + "\n"@
        + "redlib_render_cache_requests_total{result=\"miss\"} "@ + dec(miss) + "\n"@
        + "# TYPE redlib_render_cache_store_total counter\n"@
        + "redlib_render_cache_store_total "@ + dec(store) + "\n"@
        + "# TYPE redlib_render_cache_entries gauge\n"@
        + "redlib_render_cache_entries "@ + dec(size) + "\n"@
}

pub fn render_cache_prometheus_metrics(cache: &RenderCache) -> (r: String)
    ensures
        r@ == prometheus_text(cache.hit_count() as nat, cache.miss_count() as nat, cache.store_count() as nat, cache.pages().len()),
{
    let (hit, miss, store, size) = render_cache_metrics_snapshot(cache);
    let mut s = owned("# TYPE redlib_render_cache_requests_total counter\n");
    push_str(&mut s, "redlib_render_cache_requests_total{result=\"hit\"} ");
    push_str(&mut s, u64_to_string(hit as u64).as_str());
    push_str(&mut s, "\n");
    push_str(&mut s, "redlib_render_cache_requests_total{result=\"miss\"} ");
    push_str(&mut s, u64_to_string(miss as u64).as_str());
    push_str(&mut s, "\n");
    push_str(&mut s, "# TYPE redlib_render_cache_store_total counter\n");
    push_str(&mut s, "redlib_render_cache_store_total ");
    push_str(&mut s, u64_to_string(store as u64).as_str());
    push_str(&mut s, "\n");
    push_str(&mut s, "# TYPE redlib_render_cache_entries gauge\n");
    push_str(&mut s, "redlib_render_cache_entries ");
    push_str(&mut s, u64_to_string(size as u64).as_str());
    push_str(&mut s, "\n");
    assert(s@ =~= prometheus_text(cache.hits as nat, cache.misses as nat, cache.stores as nat, cache.entries@.len()));
    s
}

/// The preferences a cached listing page depends on, in the order its
/// settings signature lists them.
pub open spec fn signature_keys_spec() -> Seq<Seq<char>> {
    seq![
        "theme"@, "layout"@, "wide"@, "font_size"@, "fixed_navbar"@, "use_hls"@, "autoplay_videos"@, "hide_awards"@,
        "hide_score"@, "show_nsfw"@, "blur_nsfw"@, "blur_spoiler"@, "show_only_media"@, "hide_read"@, "front_page"@,
        "post_sort"@, "remove_default_feeds"@, "subscriptions"@, "filters"@, "custom_feeds"@, "filter_keywords"@,
        "filter_flairs"@, "filter_domains"@
    ]
}

pub fn signature_keys() -> (r: Vec<&'static str>)
    ensures
        r@.len() == signature_keys_spec().len(),
        forall|i: int| 0 <= i < r@.len() ==> #[trigger] r@[i]@ == signature_keys_spec()[i],
{
    let v = vec![
        "theme", "layout", "wide", "font_size", "fixed_navbar", "use_hls", "autoplay_videos", "hide_awards",
        "hide_score", "show_nsfw", "blur_nsfw", "blur_spoiler", "show_only_media", "hide_read", "front_page",
        "post_sort", "remove_default_feeds", "subscriptions", "filters", "custom_feeds", "filter_keywords",
        "filter_flairs", "filter_domains",
    ];
    assert forall|i: int| 0 <= i < v@.len() implies #[trigger] v@[i]@ == signature_keys_spec()[i] by {}
    v
}

/// `key=value;` for each key with its value, in order.
pub open spec fn signature_spec(keys: Seq<Seq<char>>, values: Seq<Seq<char>>) -> Seq<char>
    decreases keys.len(),
{
    if keys.len() == 0 || values.len() == 0 {
        seq![]
    } else {
        signature_spec(keys.drop_last(), values.drop_last()) + keys.last() + "="@ + values.last() + ";"@
    }
}

/// The settings signature of a listing page, from the value of each of
/// `signature_keys` in order.
pub fn settings_signature(values: &Vec<String>) -> (r: String)
    requires
        values@.len() == signature_keys_spec().len(),
    ensures
        r@ == signature_spec(signature_keys_spec(), views(values@)),
{
    let keys = signature_keys();
    let mut out = String::new();
    let mut i: usize = 0;
    while i < keys.len()
        invariant
            i <= keys@.len(),
            keys@.len() == values@.len(),
            forall|k: int| 0 <= k < keys@.len() ==> #[trigger] keys@[k]@ == signature_keys_spec()[k],
            keys@.len() == signature_keys_spec().len(),
            out@ == signature_spec(signature_keys_spec().take(i as int), views(values@).take(i as int)),
        decreases keys@.len() - i,
    {
        assert(signature_keys_spec().take(i + 1).drop_last() =~= signature_keys_spec().take(i as int));
        assert(views(values@).take(i + 1).drop_last() =~= views(values@).take(i as int));
        assert(signature_keys_spec().take(i + 1).last() == keys@[i as int]@);
        assert(views(values@).take(i + 1).last() == values@[i as int]@);
        push_str(&mut out, keys[i]);
        push_str(&mut out, "=");
        push_str(&mut out, values[i].as_str());
        push_str(&mut out, ";");
        i += 1;
    }
    assert(signature_keys_spec().take(i as int) =~= signature_keys_spec());
    assert(views(values@).take(i as int) =~= views(values@));
    out
}

/// The render-cache key of a listing page: `listing:` and the hexadecimal
/// `hash` of the address and the settings signature (the caller's
/// `DefaultHasher`); none for a page that is not cached.
pub fn listing_cache_key(authenticated: bool, path_and_query: &str, hash: u64) -> (r: Option<String>)
    ensures
        r is Some <==> (!authenticated && !crate::text::contains_seq(path_and_query@, "after="@)
            && !crate::text::contains_seq(path_and_query@, "before="@)),
        r matches Some(k) ==> k@ == "listing:"@ + crate::text::hex(hash as nat),
{
    if !listing_cacheable(authenticated, path_and_query) {
        return None;
    }
    let mut k = owned("listing:");
    crate::text::push_hex(&mut k, hash);
    Some(k)
}

/// Only anonymous first pages are cached: no user, and no `after=` or
/// `before=` in the path and query.
pub fn listing_cacheable(authenticated: bool, path_and_query: &str) -> (r: bool)
    ensures
        r == (!authenticated && !crate::text::contains_seq(path_and_query@, "after="@)
            && !crate::text::contains_seq(path_and_query@, "before="@)),
{
    !authenticated && !crate::text::str_contains(path_and_query, "after=") && !crate::text::str_contains(path_and_query, "before=")
}

} // verus!

verus! {

// ----- read posts -----

/// Each element before every later one in string order, so no duplicates.
pub open spec fn strictly_sorted(s: Seq<Seq<char>>) -> bool {
    forall|i: int, j: int| 0 <= i < j < s.len() ==> crate::token_import::lex_lt(s[i], s[j])
}

/// Where `x` goes in a strictly sorted list: the first place not before it.
fn sorted_position(v: &Vec<String>, x: &str) -> (r: usize)
    requires
        strictly_sorted(views(v@)),
    ensures
        r <= v@.len(),
        forall|k: int| 0 <= k < r ==> crate::token_import::lex_lt(#[trigger] v@[k]@, x@),
        r < v@.len() ==> !crate::token_import::lex_lt(v@[r as int]@, x@),
{
    let mut k: usize = 0;
    while k < v.len() && crate::token_import::label_lt(v[k].as_str(), x)
        invariant
            k <= v@.len(),
            forall|j: int| 0 <= j < k ==> crate::token_import::lex_lt(#[trigger] v@[j]@, x@),
        decreases v@.len() - k,
    {
        k += 1;
    }
    k
}

/// Adds `x` to a strictly sorted list unless it is there.
pub fn insert_sorted_unique(v: &mut Vec<String>, x: &str)
    requires
        strictly_sorted(views(old(v)@)),
    ensures
        strictly_sorted(views(final(v)@)),
        views(final(v)@).to_set() == views(old(v)@).to_set().insert(x@),
{
    let k = sorted_position(v, x);
    let ghost old_views = views(v@);
    if k < v.len() && str_eq(v[k].as_str(), x) {
        assert(old_views[k as int] == x@);
        assert(old_views.to_set().insert(x@) =~= old_views.to_set());
        return;
    }
    v.insert(k, owned(x));
    let ghost nv = views(v@);
    assert(nv =~= old_views.take(k as int).push(x@) + old_views.skip(k as int));
    proof {
        if k < old_views.len() {
            crate::token_import::lemma_lex_total(old_views[k as int], x@);
        }
        assert forall|i: int, j: int| 0 <= i < j < nv.len() implies crate::token_import::lex_lt(nv[i], nv[j]) by {
            if j < k {
                assert(nv[i] == old_views[i] && nv[j] == old_views[j]);
            } else if j == k {
                assert(nv[i] == old_views[i] && nv[j] == x@);
                assert(v@[i]@ == old_views[i]);
            } else if i == k {
                assert(nv[j] == old_views[j - 1]);
                if j - 1 > k {
                    crate::token_import::lemma_lex_trans(x@, old_views[k as int], old_views[j - 1]);
                }
            } else if i < k {
                assert(nv[i] == old_views[i] && nv[j] == old_views[j - 1]);
            } else {
                assert(nv[i] == old_views[i - 1] && nv[j] == old_views[j - 1]);
            }
        }
        assert forall|y: Seq<char>| nv.to_set().contains(y) <==> old_views.to_set().insert(x@).contains(y) by {
            if nv.to_set().contains(y) {
                let i = choose|i: int| 0 <= i < nv.len() && nv[i] == y;
                if i < k {
                    assert(old_views[i] == y);
                } else if i > k {
                    assert(old_views[i - 1] == y);
                }
            }
            if old_views.to_set().contains(y) {
                let i = choose|i: int| 0 <= i < old_views.len() && old_views[i] == y;
                if i < k {
                    assert(nv[i] == y);
                } else {
                    assert(nv[i + 1] == y);
                }
            }
            if y == x@ {
                assert(nv[k as int] == y);
            }
        }
        assert(nv.to_set() =~= old_views.to_set().insert(x@));
    }
}

/// The pieces of `s` between commas, as `str::split(',')` yields them.
pub open spec fn split_commas(s: Seq<char>) -> Seq<Seq<char>>
    decreases s.len(),
{
    if s.len() == 0 {
        seq![seq![]]
    } else {
        let w = split_commas(s.drop_last());
        if s.last() == ',' {
            w.push(seq![])
        } else {
            w.update(w.len() - 1, w.last().push(s.last()))
        }
    }
}

proof fn lemma_split_commas_nonempty(s: Seq<char>)
    ensures
        split_commas(s).len() > 0,
    decreases s.len(),
{
    if s.len() > 0 {
        lemma_split_commas_nonempty(s.drop_last());
    }
}

/// A submitted read id is kept when, trimmed, it is non-empty and either a
/// post id (`t3_...`) or shorter than 20 bytes.
pub open spec fn read_id_ok(t: Seq<char>) -> bool {
    t.len() > 0 && (starts_with_seq(t, "t3_"@) || blen(t) < 20)
}

pub open spec fn kept_read_ids(pieces: Seq<Seq<char>>) -> Seq<Seq<char>>
    decreases pieces.len(),
{
    if pieces.len() == 0 {
        seq![]
    } else if read_id_ok(crate::text::trim_seq(pieces.last())) {
        kept_read_ids(pieces.drop_last()).push(crate::text::trim_seq(pieces.last()))
    } else {
        kept_read_ids(pieces.drop_last())
    }
}

/// The ids of a `mark-read` request's comma-separated `ids` field.
pub open spec fn read_ids_of(param: Seq<char>) -> Seq<Seq<char>> {
    kept_read_ids(split_commas(param))
}

pub fn parse_read_ids(param: &str) -> (r: Vec<String>)
    ensures
        views(r@) == read_ids_of(param@),
{
    let cs = chars_of(param);
    let mut pieces: Vec<Vec<char>> = Vec::new();
    pieces.push(Vec::new());
    let mut i: usize = 0;
    assert(cs@.take(0) =~= Seq::<char>::empty());
    while i < cs.len()
        invariant
            i <= cs@.len(),
            pieces@.len() == split_commas(cs@.take(i as int)).len(),
            forall|k: int| 0 <= k < pieces@.len() ==> #[trigger] pieces@[k]@ == split_commas(cs@.take(i as int))[k],
        decreases cs@.len() - i,
    {
        assert(cs@.take(i + 1).drop_last() =~= cs@.take(i as int));
        proof {
            lemma_split_commas_nonempty(cs@.take(i as int));
        }
        let c = cs[i];
        if c == ',' {
            pieces.push(Vec::new());
        } else {
            let last = pieces.len() - 1;
            let mut w = pieces.pop().unwrap();
            w.push(c);
            pieces.push(w);
            assert(pieces@[last as int]@ == split_commas(cs@.take(i + 1))[last as int]);
        }
        i += 1;
    }
    assert(cs@.take(i as int) =~= param@);
    let ghost all = split_commas(param@);
    let mut out: Vec<String> = Vec::new();
    let mut k: usize = 0;
    while k < pieces.len()
        invariant
            k <= pieces@.len(),
            pieces@.len() == all.len(),
            forall|j: int| 0 <= j < pieces@.len() ==> #[trigger] pieces@[j]@ == all[j],
            views(out@) == kept_read_ids(all.take(k as int)),
        decreases pieces@.len() - k,
    {
        assert(all.take(k + 1).drop_last() =~= all.take(k as int));
        let piece = crate::text::string_of(&pieces[k]);
        let t = crate::text::trim(piece.as_str());
        if !t.as_str().is_empty() && (str_starts_with(t.as_str(), "t3_") || byte_len(t.as_str()) < 20) {
            crate::text::push_string(&mut out, t.as_str());
        }
        k += 1;
    }
    assert(all.take(k as int) =~= all);
    out
}

/// Merging newly read posts into the read ids: `None` when the request names
/// none; else the union of the known and new ids, in string order without
/// duplicates.
pub fn merge_read_ids(existing: &Vec<String>, param: &str) -> (r: Option<Vec<String>>)
    ensures
        match r {
            None => read_ids_of(param@).len() == 0,
            Some(v) => strictly_sorted(views(v@))
                && views(v@).to_set() == views(existing@).to_set().union(read_ids_of(param@).to_set()),
        },
{
    let new_ids = parse_read_ids(param);
    if new_ids.len() == 0 {
        return None;
    }
    let mut out: Vec<String> = Vec::new();
    let mut i: usize = 0;
    assert(views(out@).to_set() =~= views(existing@).take(0).to_set());
    while i < existing.len()
        invariant
            i <= existing@.len(),
            strictly_sorted(views(out@)),
            views(out@).to_set() == views(existing@).take(i as int).to_set(),
        decreases existing@.len() - i,
    {
        insert_sorted_unique(&mut out, existing[i].as_str());
        assert(views(existing@).take(i + 1) =~= views(existing@).take(i as int).push(existing@[i as int]@));
        proof {
            views(existing@).take(i as int).lemma_push_to_set_commute(existing@[i as int]@);
        }
        i += 1;
    }
    assert(views(existing@).take(i as int) =~= views(existing@));
    let mut j: usize = 0;
    assert(views(existing@).to_set().union(views(new_ids@).take(0).to_set()) =~= views(existing@).to_set());
    while j < new_ids.len()
        invariant
            j <= new_ids@.len(),
            strictly_sorted(views(out@)),
            views(out@).to_set() == views(existing@).to_set().union(views(new_ids@).take(j as int).to_set()),
        decreases new_ids@.len() - j,
    {
        insert_sorted_unique(&mut out, new_ids[j].as_str());
        assert(views(new_ids@).take(j + 1) =~= views(new_ids@).take(j as int).push(new_ids@[j as int]@));
        proof {
            views(new_ids@).take(j as int).lemma_push_to_set_commute(new_ids@[j as int]@);
        }
        j += 1;
        assert(views(out@).to_set() =~= views(existing@).to_set().union(views(new_ids@).take(j as int).to_set()));
    }
    assert(views(new_ids@).take(j as int) =~= views(new_ids@));
    Some(out)
}

} // verus!

verus! {

// ----- subscribing and filtering -----

/// The pieces of `s` between occurrences of `c` (`str::split`).
pub open spec fn split_char(s: Seq<char>, c: char) -> Seq<Seq<char>>
    decreases s.len(),
{
    if s.len() == 0 {
        seq![seq![]]
    } else {
        let w = split_char(s.drop_last(), c);
        if s.last() == c {
            w.push(seq![])
        } else {
            w.update(w.len() - 1, w.last().push(s.last()))
        }
    }
}

proof fn lemma_split_char_nonempty(s: Seq<char>, c: char)
    ensures
        split_char(s, c).len() > 0,
    decreases s.len(),
{
    if s.len() > 0 {
        lemma_split_char_nonempty(s.drop_last(), c);
    }
}

/// Splits a string at each `c`.
pub fn split_at_char(s: &str, c: char) -> (r: Vec<String>)
    ensures
        views(r@) == split_char(s@, c),
{
    let cs = chars_of(s);
    let mut pieces: Vec<Vec<char>> = Vec::new();
    pieces.push(Vec::new());
    let mut i: usize = 0;
    assert(cs@.take(0) =~= Seq::<char>::empty());
    while i < cs.len()
        invariant
            i <= cs@.len(),
            pieces@.len() == split_char(cs@.take(i as int), c).len(),
            forall|k: int| 0 <= k < pieces@.len() ==> #[trigger] pieces@[k]@ == split_char(cs@.take(i as int), c)[k],
        decreases cs@.len() - i,
    {
        assert(cs@.take(i + 1).drop_last() =~= cs@.take(i as int));
        proof {
            lemma_split_char_nonempty(cs@.take(i as int), c);
        }
        let d = cs[i];
        if d == c {
            pieces.push(Vec::new());
        } else {
            let last = pieces.len() - 1;
            let mut w = pieces.pop().unwrap();
            w.push(d);
            pieces.push(w);
            assert(pieces@[last as int]@ == split_char(cs@.take(i + 1), c)[last as int]);
        }
        i += 1;
    }
    assert(cs@.take(i as int) =~= s@);
    let ghost all = split_char(s@, c);
    let mut out: Vec<String> = Vec::new();
    let mut k: usize = 0;
    while k < pieces.len()
        invariant
            k <= pieces@.len(),
            pieces@.len() == all.len(),
            forall|j: int| 0 <= j < pieces@.len() ==> #[trigger] pieces@[j]@ == all[j],
            views(out@) == all.take(k as int),
        decreases pieces@.len() - k,
    {
        let piece = crate::text::string_of(&pieces[k]);
        crate::text::push_string(&mut out, piece.as_str());
        k += 1;
        assert(views(out@) =~= all.take(k as int));
    }
    assert(all.take(k as int) =~= all);
    out
}

/// Which of the four list actions a path names among its segments.
pub struct ListAction {
    pub subscribe: bool,
    pub unsubscribe: bool,
    pub filter: bool,
    pub unfilter: bool,
}

pub open spec fn has_segment(path: Seq<char>, word: Seq<char>) -> bool {
    split_char(path, '/').contains(word)
}

pub(crate) fn contains_word(list: &Vec<String>, w: &str) -> (r: bool)
    ensures
        r == views(list@).contains(w@),
{
    let mut i: usize = 0;
    while i < list.len()
        invariant
            i <= list@.len(),
            forall|j: int| 0 <= j < i ==> #[trigger] views(list@)[j] != w@,
        decreases list@.len() - i,
    {
        if str_eq(list[i].as_str(), w) {
            assert(views(list@)[i as int] == w@);
            return true;
        }
        i += 1;
    }
    false
}

pub fn list_action(path: &str) -> (r: ListAction)
    ensures
        r.subscribe == has_segment(path@, "subscribe"@),
        r.unsubscribe == has_segment(path@, "unsubscribe"@),
        r.filter == has_segment(path@, "filter"@),
        r.unfilter == has_segment(path@, "unfilter"@),
{
    let segs = split_at_char(path, '/');
    ListAction {
        subscribe: contains_word(&segs, "subscribe"),
        unsubscribe: contains_word(&segs, "unsubscribe"),
        filter: contains_word(&segs, "filter"),
        unfilter: contains_word(&segs, "unfilter"),
    }
}

/// The random subreddits cannot be subscribed to or filtered.
pub fn check_not_random(sub: &str, action: &ListAction) -> (r: Result<(), String>)
    ensures
        match r {
            Ok(()) => sub@ != "random"@ && sub@ != "randnsfw"@,
            Err(e) => (sub@ == "random"@ || sub@ == "randnsfw"@) && e@ == if action.filter || action.unfilter {
                "Can't filter random subreddit!"@
            } else {
                "Can't subscribe to random subreddit!"@
            },
        },
{
    if str_eq(sub, "random") || str_eq(sub, "randnsfw") {
        if action.filter || action.unfilter {
            return Err(owned("Can't filter random subreddit!"));
        }
        return Err(owned("Can't subscribe to random subreddit!"));
    }
    Ok(())
}

pub open spec fn lower(s: Seq<char>) -> Seq<char> {
    crate::text::unicode_lower(s)
}

/// The list without names equal to `part` ignoring case.
pub open spec fn drop_lower(s: Seq<Seq<char>>, part: Seq<char>) -> Seq<Seq<char>>
    decreases s.len(),
{
    if s.len() == 0 {
        seq![]
    } else if lower(s.last()) == lower(part) {
        drop_lower(s.drop_last(), part)
    } else {
        drop_lower(s.drop_last(), part).push(s.last())
    }
}

/// Inserting a name after every name whose lower-cased form is not greater.
pub open spec fn insert_lower(s: Seq<Seq<char>>, x: Seq<char>) -> Seq<Seq<char>>
    decreases s.len(),
{
    if s.len() == 0 {
        seq![x]
    } else if crate::token_import::lex_lt(lower(x), lower(s.last())) {
        insert_lower(s.drop_last(), x).push(s.last())
    } else {
        s.push(x)
    }
}

/// The stable sort by lower-cased name (`sort_by_key(|a| a.to_lowercase())`).
pub open spec fn sort_lower(s: Seq<Seq<char>>) -> Seq<Seq<char>>
    decreases s.len(),
{
    if s.len() == 0 {
        seq![]
    } else {
        insert_lower(sort_lower(s.drop_last()), s.last())
    }
}

fn retain_not_lower(v: &Vec<String>, part: &str) -> (r: Vec<String>)
    ensures
        views(r@) == drop_lower(views(v@), part@),
{
    let lp = crate::text::to_lowercase(part);
    let mut out: Vec<String> = Vec::new();
    let mut i: usize = 0;
    while i < v.len()
        invariant
            i <= v@.len(),
            lp@ == lower(part@),
            views(out@) == drop_lower(views(v@).take(i as int), part@),
        decreases v@.len() - i,
    {
        assert(views(v@).take(i + 1).drop_last() =~= views(v@).take(i as int));
        assert(views(v@).take(i + 1).last() == v@[i as int]@);
        let l = crate::text::to_lowercase(v[i].as_str());
        if !str_eq(l.as_str(), lp.as_str()) {
            crate::text::push_string(&mut out, v[i].as_str());
        }
        i += 1;
    }
    assert(views(v@).take(i as int) =~= views(v@));
    out
}

proof fn lemma_insert_lower_at(s: Seq<Seq<char>>, x: Seq<char>, j: int)
    requires
        0 <= j <= s.len(),
        forall|k: int| j <= k < s.len() ==> crate::token_import::lex_lt(lower(x), lower(#[trigger] s[k])),
        j > 0 ==> !crate::token_import::lex_lt(lower(x), lower(s[j - 1])),
    ensures
        insert_lower(s, x) == s.take(j).push(x) + s.skip(j),
    decreases s.len(),
{
    if s.len() == 0 {
        assert(s.take(j).push(x) + s.skip(j) =~= seq![x]);
    } else if j == s.len() {
        assert(s.take(j).push(x) + s.skip(j) =~= s.push(x));
    } else {
        lemma_insert_lower_at(s.drop_last(), x, j);
        assert(s.drop_last().take(j).push(x) + s.drop_last().skip(j) + seq![s.last()] =~= s.take(j).push(x) + s.skip(j));
    }
}

fn insert_by_lower(v: &mut Vec<String>, x: &str)
    ensures
        views(final(v)@) == insert_lower(views(old(v)@), x@),
{
    let lx = crate::text::to_lowercase(x);
    let mut j: usize = v.len();
    loop
        invariant
            j <= v@.len(),
            v@ == old(v)@,
            lx@ == lower(x@),
            forall|k: int| j <= k < v@.len() ==> crate::token_import::lex_lt(lower(x@), lower(#[trigger] views(v@)[k])),
        ensures
            j <= v@.len(),
            v@ == old(v)@,
            forall|k: int| j <= k < v@.len() ==> crate::token_import::lex_lt(lower(x@), lower(#[trigger] views(v@)[k])),
            j > 0 ==> !crate::token_import::lex_lt(lower(x@), lower(views(v@)[j - 1])),
        decreases j,
    {
        if j == 0 {
            break;
        }
        let ly = crate::text::to_lowercase(v[j - 1].as_str());
        if !crate::token_import::label_lt(lx.as_str(), ly.as_str()) {
            break;
        }
        j -= 1;
    }
    proof {
        lemma_insert_lower_at(views(v@), x@, j as int);
    }
    v.insert(j, owned(x));
    assert(views(v@) =~= views(old(v)@).take(j as int).push(x@) + views(old(v)@).skip(j as int));
}

fn sorted_by_lower(v: &Vec<String>) -> (r: Vec<String>)
    ensures
        views(r@) == sort_lower(views(v@)),
{
    let mut out: Vec<String> = Vec::new();
    let mut i: usize = 0;
    while i < v.len()
        invariant
            i <= v@.len(),
            views(out@) == sort_lower(views(v@).take(i as int)),
        decreases v@.len() - i,
    {
        assert(views(v@).take(i + 1).drop_last() =~= views(v@).take(i as int));
        assert(views(v@).take(i + 1).last() == v@[i as int]@);
        insert_by_lower(&mut out, v[i].as_str());
        i += 1;
    }
    assert(views(v@).take(i as int) =~= views(v@));
    out
}

/// One subreddit through a list action, in order of precedence: subscribing
/// adds it (when not already subscribed), takes it off the filters and
/// re-sorts both lists; unsubscribing removes it from the subscriptions;
/// filtering adds it to the filters (when not there), takes it off the
/// subscriptions and re-sorts both; unfiltering removes it from the filters.
/// Matching is by lower-cased name, except for the "already there" checks.
/// The result also says what to tell Reddit: subscribe (`true`) or not.
pub open spec fn list_action_spec(subs: Seq<Seq<char>>, filters: Seq<Seq<char>>, part: Seq<char>, a: ListAction)
    -> (Seq<Seq<char>>, Seq<Seq<char>>, Option<bool>)
{
    if a.subscribe && !subs.contains(part) {
        (sort_lower(subs.push(part)), sort_lower(drop_lower(filters, part)), Some(true))
    } else if a.unsubscribe {
        (drop_lower(subs, part), filters, Some(false))
    } else if a.filter && !filters.contains(part) {
        (sort_lower(drop_lower(subs, part)), sort_lower(filters.push(part)), None)
    } else if a.unfilter {
        (subs, drop_lower(filters, part), None)
    } else {
        (subs, filters, None)
    }
}

pub fn apply_list_action(subs: &mut Vec<String>, filters: &mut Vec<String>, part: &str, a: &ListAction) -> (r: Option<bool>)
    ensures
        (views(final(subs)@), views(final(filters)@), r) == list_action_spec(views(old(subs)@), views(old(filters)@), part@, *a),
{
    if a.subscribe && !contains_word(subs, part) {
        crate::text::push_string(subs, part);
        let f = retain_not_lower(filters, part);
        let s2 = sorted_by_lower(subs);
        let f2 = sorted_by_lower(&f);
        *subs = s2;
        *filters = f2;
        Some(true)
    } else if a.unsubscribe {
        let s2 = retain_not_lower(subs, part);
        *subs = s2;
        Some(false)
    } else if a.filter && !contains_word(filters, part) {
        crate::text::push_string(filters, part);
        let s = retain_not_lower(subs, part);
        let f2 = sorted_by_lower(filters);
        let s2 = sorted_by_lower(&s);
        *filters = f2;
        *subs = s2;
        None
    } else if a.unfilter {
        let f2 = retain_not_lower(filters, part);
        *filters = f2;
        None
    } else {
        None
    }
}

/// The subreddit names of a `+`-joined parameter, without empty ones.
pub open spec fn sub_parts(sub: Seq<char>) -> Seq<Seq<char>>
    decreases split_char(sub, '+').len(),
{
    drop_empty(split_char(sub, '+'))
}

pub open spec fn drop_empty(s: Seq<Seq<char>>) -> Seq<Seq<char>>
    decreases s.len(),
{
    if s.len() == 0 {
        seq![]
    } else if s.last().len() == 0 {
        drop_empty(s.drop_last())
    } else {
        drop_empty(s.drop_last()).push(s.last())
    }
}

pub fn subreddit_parts(sub: &str) -> (r: Vec<String>)
    ensures
        views(r@) == sub_parts(sub@),
{
    let pieces = split_at_char(sub, '+');
    let mut out: Vec<String> = Vec::new();
    let mut i: usize = 0;
    while i < pieces.len()
        invariant
            i <= pieces@.len(),
            views(out@) == drop_empty(views(pieces@).take(i as int)),
        decreases pieces@.len() - i,
    {
        assert(views(pieces@).take(i + 1).drop_last() =~= views(pieces@).take(i as int));
        assert(views(pieces@).take(i + 1).last() == pieces@[i as int]@);
        if !pieces[i].as_str().is_empty() {
            crate::text::push_string(&mut out, pieces[i].as_str());
        }
        i += 1;
    }
    assert(views(pieces@).take(i as int) =~= views(pieces@));
    out
}

/// The display name used for a subreddit: user pages (`u_...`) as written;
/// else the name as Reddit capitalises it, taken from the first known listing
/// name equal to it ignoring case. `None` when it must be looked up.
pub open spec fn known_display(part: Seq<char>, known: Seq<Seq<char>>) -> Option<Seq<char>>
    decreases known.len(),
{
    if starts_with_seq(part, "u_"@) {
        Some(part)
    } else if known.len() == 0 {
        None
    } else if lower(known[0]) == lower(part) {
        Some(known[0])
    } else {
        known_display(part, known.drop_first())
    }
}

pub fn display_name_for(part: &str, known: &Vec<String>) -> (r: Option<String>)
    ensures
        crate::crypto::view_string(r) == known_display(part@, views(known@)),
{
    if str_starts_with(part, "u_") {
        return Some(owned(part));
    }
    let lp = crate::text::to_lowercase(part);
    let ghost all = views(known@);
    let mut i: usize = 0;
    assert(all.skip(0) =~= all);
    while i < known.len()
        invariant
            i <= known@.len(),
            all == views(known@),
            lp@ == lower(part@),
            !starts_with_seq(part@, "u_"@),
            known_display(part@, all) == known_display(part@, all.skip(i as int)),
        decreases known@.len() - i,
    {
        let ghost rest = all.skip(i as int);
        assert(rest[0] == known@[i as int]@);
        assert(rest.drop_first() =~= all.skip(i + 1));
        let l = crate::text::to_lowercase(known[i].as_str());
        if str_eq(l.as_str(), lp.as_str()) {
            return Some(known[i].clone());
        }
        i += 1;
    }
    assert(all.skip(i as int) =~= Seq::<Seq<char>>::empty());
    None
}

} // verus!

verus! {

// ----- the listing page -----

/// The subreddit a listing shows: the route's, else the front page setting
/// (`default` or unset meaning the subscriptions, or `popular` without any).
pub open spec fn front_sub_spec(param_sub: Option<Seq<char>>, front_page: Seq<char>, subscribed: Seq<char>) -> Seq<char> {
    match param_sub {
        Some(s) => s,
        None => if front_page == "default"@ || front_page.len() == 0 {
            if subscribed.len() == 0 { "popular"@ } else { subscribed }
        } else {
            front_page
        },
    }
}

pub fn front_sub_name(param_sub: Option<&str>, front_page: &str, subscribed: &str) -> (r: String)
    ensures
        r@ == front_sub_spec(crate::auth::opt_str(param_sub), front_page@, subscribed@),
{
    match param_sub {
        Some(s) => owned(s),
        None => if str_eq(front_page, "default") || front_page.is_empty() {
            if subscribed.is_empty() { owned("popular") } else { owned(subscribed) }
        } else {
            owned(front_page)
        },
    }
}

/// With the default feeds turned off, `popular` and `all` show a notice
/// instead: subscribe first, or set the front page to default.
pub fn default_feeds_notice(sub_name: &str, remove_default_feeds: bool, subscribed: &str) -> (r: Option<&'static str>)
    ensures
        match r {
            Some(m) => (sub_name@ == "popular"@ || sub_name@ == "all"@) && remove_default_feeds && m@ == if subscribed@.len() == 0 {
                "Subscribe to some subreddits! (Default feeds disabled in settings)"@
            } else {
                "You have subscribed to some subreddits, but your front page is not set to default. Visit settings and change front page to default."@
            },
            None => !((sub_name@ == "popular"@ || sub_name@ == "all"@) && remove_default_feeds),
        },
{
    if (str_eq(sub_name, "popular") || str_eq(sub_name, "all")) && remove_default_feeds {
        if subscribed.is_empty() {
            Some("Subscribe to some subreddits! (Default feeds disabled in settings)")
        } else {
            Some("You have subscribed to some subreddits, but your front page is not set to default. Visit settings and change front page to default.")
        }
    } else {
        None
    }
}

/// The listing's sort: the route's `sort`, else its `id`, else the
/// `post_sort` cookie, else `hot`.
pub fn listing_sort(param_sort: Option<&str>, param_id: Option<&str>, cookie: Option<&str>) -> (r: String)
    ensures
        r@ == match param_sort {
            Some(s) => s@,
            None => match param_id {
                Some(i) => i@,
                None => match cookie {
                    Some(c) => c@,
                    None => "hot"@,
                },
            },
        },
{
    match param_sort {
        Some(s) => owned(s),
        None => match param_id {
            Some(i) => owned(i),
            None => match cookie {
                Some(c) => owned(c),
                None => owned("hot"),
            },
        },
    }
}

/// A user's profile subreddit (`u_name`) in the route redirects to their page.
pub fn user_page_redirect(from_route: bool, sub_name: &str) -> (r: Option<String>)
    ensures
        match r {
            Some(p) => from_route && starts_with_seq(sub_name@, "u_"@) && p@ == "/user/"@ + sub_name@.skip(2),
            None => !(from_route && starts_with_seq(sub_name@, "u_"@)),
        },
{
    if from_route && str_starts_with(sub_name, "u_") {
        let cs = chars_of(sub_name);
        proof {
            reveal_strlit("u_");
        }
        let n = cs.len();
        let rest = crate::text::sub_chars(&cs, 2, n);
        let mut p = owned("/user/");
        push_str(&mut p, crate::text::string_of(&rest).as_str());
        assert(rest@ =~= sub_name@.skip(2));
        Some(p)
    } else {
        None
    }
}

/// Where a listing's subreddit details come from.
#[derive(Debug, PartialEq, Eq, Structural)]
pub enum SubredditInfo {
    /// Asked from Reddit.
    Fetch,
    /// Empty details (the subscription feed off `/r/`).
    Empty,
    /// Only the name (multireddits, `all`, `popular`).
    NameOnly,
}

pub fn subreddit_info_source(sub_name: &str, subscribed: &str, under_r: bool) -> (r: SubredditInfo)
    ensures
        r == if !crate::text::has_char(sub_name@, '+') && sub_name@ != subscribed@ && sub_name@ != "popular"@ && sub_name@ != "all"@ {
            SubredditInfo::Fetch
        } else if sub_name@ == subscribed@ {
            if under_r { SubredditInfo::Fetch } else { SubredditInfo::Empty }
        } else {
            SubredditInfo::NameOnly
        },
{
    let cs = chars_of(sub_name);
    let plus = crate::text::find_char(&cs, '+').is_some();
    if !plus && !str_eq(sub_name, subscribed) && !str_eq(sub_name, "popular") && !str_eq(sub_name, "all") {
        SubredditInfo::Fetch
    } else if str_eq(sub_name, subscribed) {
        if under_r { SubredditInfo::Fetch } else { SubredditInfo::Empty }
    } else {
        SubredditInfo::NameOnly
    }
}

/// The pattern that finds the region of a `geo_filter` in a query string.
pub const GEO_FILTER_MATCH: &'static str = r"geo_filter=(?<region>\w+)";

/// The Reddit listing fetched: subreddits with `+` escaped, the sort, the
/// request's query, raw JSON, and for `popular` the region (`GLOBAL` when
/// the query names none).
pub open spec fn listing_path_spec(sub_name: Seq<char>, sort: Seq<char>, query: Seq<char>) -> Seq<char> {
    "/r/"@ + crate::smart_feed::feed::escape_plus(sub_name) + "/"@ + sort + ".json?"@ + query + "&raw_json=1"@
        + if sub_name == "popular"@ {
        "&geo_filter="@ + match crate::crypto::regex_group(GEO_FILTER_MATCH@, 1, query) {
            Some(g) => g,
            None => "GLOBAL"@,
        }
    } else {
        Seq::<char>::empty()
    }
}

pub fn listing_path(sub_name: &str, sort: &str, query: &str) -> (r: String)
    ensures
        r@ == listing_path_spec(sub_name@, sort@, query@),
{
    let mut p = owned("/r/");
    push_str(&mut p, crate::smart_feed::feed::escape_plus_str(sub_name).as_str());
    push_str(&mut p, "/");
    push_str(&mut p, sort);
    push_str(&mut p, ".json?");
    push_str(&mut p, query);
    push_str(&mut p, "&raw_json=1");
    let ghost head = p@;
    if str_eq(sub_name, "popular") {
        let g = match crate::crypto::regex_capture(GEO_FILTER_MATCH, 1, query) {
            Some(g) => g,
            None => owned("GLOBAL"),
        };
        push_str(&mut p, "&geo_filter=");
        push_str(&mut p, g.as_str());
        assert(p@ =~= head + ("&geo_filter="@ + g@));
    } else {
        assert(p@ =~= head + Seq::<char>::empty());
    }
    p
}

/// `?`, `&` and `+` written `%3F`, `%26` and `%2B`.
pub open spec fn escape_query_chars(s: Seq<char>) -> Seq<char>
    decreases s.len(),
{
    if s.len() == 0 {
        seq![]
    } else {
        escape_query_chars(s.drop_last()) + if s.last() == '?' {
            "%3F"@
        } else if s.last() == '&' {
            "%26"@
        } else if s.last() == '+' {
            "%2B"@
        } else {
            seq![s.last()]
        }
    }
}

/// The page's own address, without its leading `/`, escaped to ride in a
/// query parameter.
pub fn redirect_url(path_and_query: &str) -> (r: String)
    requires
        path_and_query@.len() > 0,
        (path_and_query@[0] as u32) < 128,
    ensures
        r@ == escape_query_chars(path_and_query@.skip(1)),
{
    let cs = chars_of(path_and_query);
    let mut out = String::new();
    let n = cs.len();
    let mut i: usize = 1;
    assert(cs@.subrange(1, 1) =~= Seq::<char>::empty());
    while i < n
        invariant
            1 <= i <= n == cs@.len(),
            cs@ == path_and_query@,
            out@ == escape_query_chars(cs@.subrange(1, i as int)),
        decreases n - i,
    {
        assert(cs@.subrange(1, i + 1).drop_last() =~= cs@.subrange(1, i as int));
        let c = cs[i];
        if c == '?' {
            push_str(&mut out, "%3F");
        } else if c == '&' {
            push_str(&mut out, "%26");
        } else if c == '+' {
            push_str(&mut out, "%2B");
        } else {
            push_char(&mut out, c);
            assert(out@ =~= escape_query_chars(cs@.subrange(1, i + 1)));
        }
        i += 1;
    }
    assert(cs@.subrange(1, n as int) =~= path_and_query@.skip(1));
    out
}

/// Every subreddit of the `+`-joined name is filtered.
pub fn all_filtered(sub_name: &str, filters: &Vec<String>) -> (r: bool)
    ensures
        r == forall|i: int| 0 <= i < split_char(sub_name@, '+').len() ==> views(filters@).contains(#[trigger] split_char(sub_name@, '+')[i]),
{
    let parts = split_at_char(sub_name, '+');
    let mut i: usize = 0;
    while i < parts.len()
        invariant
            i <= parts@.len(),
            views(parts@) == split_char(sub_name@, '+'),
            forall|j: int| 0 <= j < i ==> views(filters@).contains(#[trigger] split_char(sub_name@, '+')[j]),
        decreases parts@.len() - i,
    {
        assert(views(parts@)[i as int] == parts@[i as int]@);
        if !contains_word(filters, parts[i].as_str()) {
            return false;
        }
        i += 1;
    }
    true
}

/// How a failed listing fetch is shown.
#[derive(Debug)]
pub enum ListingError {
    /// The quarantine or gate wall, with its reason.
    Wall(String),
    /// An error page with this message.
    Message(String),
}

pub fn listing_error(sub_name: &str, msg: &str) -> (r: ListingError)
    ensures
        match r {
            ListingError::Wall(w) => (msg@ == "quarantined"@ || msg@ == "gated"@) && w@ == msg@,
            ListingError::Message(m) => !(msg@ == "quarantined"@ || msg@ == "gated"@) && m@ == if msg@ == "private"@ {
                "r/"@ + sub_name@ + " is a private community"@
            } else if msg@ == "banned"@ {
                "r/"@ + sub_name@ + " has been banned from Reddit"@
            } else {
                msg@
            },
        },
{
    if str_eq(msg, "quarantined") || str_eq(msg, "gated") {
        ListingError::Wall(owned(msg))
    } else if str_eq(msg, "private") {
        let mut m = owned("r/");
        push_str(&mut m, sub_name);
        push_str(&mut m, " is a private community");
        ListingError::Message(m)
    } else if str_eq(msg, "banned") {
        let mut m = owned("r/");
        push_str(&mut m, sub_name);
        push_str(&mut m, " has been banned from Reddit");
        ListingError::Message(m)
    } else {
        ListingError::Message(owned(msg))
    }
}

/// The cookie that lets a quarantined subreddit be opened.
pub fn quarantine_cookie_name(sub: &str) -> (r: String)
    ensures
        r@ == "allow_quaran_"@ + lower(sub@),
{
    concat2("allow_quaran_", crate::text::to_lowercase(sub).as_str())
}

/// That cookie's value allows access only when it is `true` (a `bool`
/// parse, false otherwise).
pub fn quarantine_allowed(value: &str) -> (r: bool)
    ensures
        r == (value@ == "true"@),
{
    str_eq(value, "true")
}

/// The title of the quarantine wall.
pub fn quarantine_title(sub: &str, restriction: &str) -> (r: String)
    ensures
        r@ == "r/"@ + sub@ + " is "@ + restriction@,
{
    let mut t = owned("r/");
    push_str(&mut t, sub);
    push_str(&mut t, " is ");
    push_str(&mut t, restriction);
    t
}

} // verus!

verus! {

/// A page read back from the cache right after it was stored is the page
/// stored, for as long as it is fresh: the stored entry is the one found for
/// its key.
pub proof fn lemma_cache_put_get(es: Seq<CacheEntry>, e: CacheEntry, now: u64)
    ensures
        entry_for(without_key(es, e.key@).push(e), e.key@) == Some(e),
        elapsed(e.inserted, now) <= RENDER_CACHE_TTL_NS ==> fresh(e, now),
{
    assert(without_key(es, e.key@).push(e).last() == e);
}

/// Storing a page leaves every other key's page as it was (unless stale
/// pages were pruned first).
pub proof fn lemma_cache_put_others(es: Seq<CacheEntry>, e: CacheEntry, k: Seq<char>)
    requires
        k != e.key@,
    ensures
        entry_for(without_key(es, e.key@).push(e), k) == entry_for(es, k),
{
    lemma_without_key(es, e.key@);
    let w = without_key(es, e.key@);
    assert(w.push(e).drop_last() =~= w);
    assert(w.push(e).last() == e);
    assert(entry_for(w, k) == entry_for(es, k));
}

} // verus!

verus! {

/// The pieces written one after another.
pub open spec fn concat_all(s: Seq<Seq<char>>) -> Seq<char>
    decreases s.len(),
{
    if s.len() == 0 {
        seq![]
    } else {
        concat_all(s.drop_last()) + s.last()
    }
}

proof fn lemma_size_scan_rejoin(items: Seq<Seq<char>>)
    requires
        forall|i: int| 0 <= i < items.len() ==> #[trigger] items[i].len() > 0,
    ensures
        concat_all(size_limit_scan(items).0) + size_limit_scan(items).1 == crate::text::seq_join(items, "+"@),
        items.len() > 0 <==> size_limit_scan(items).1.len() > 0,
    decreases items.len(),
{
    if items.len() == 0 {
        assert(concat_all(Seq::<Seq<char>>::empty()) + Seq::<char>::empty() =~= Seq::<char>::empty());
    } else {
        let p = items.drop_last();
        assert forall|i: int| 0 <= i < p.len() implies #[trigger] p[i].len() > 0 by {
            assert(p[i] == items[i]);
        }
        lemma_size_scan_rejoin(p);
        let (res, list) = size_limit_scan(p);
        let it = items.last();
        assert(it == items[items.len() - 1]);
        if p.len() == 0 {
            assert(items.len() == 1 && it == items[0]);
            assert(res =~= Seq::<Seq<char>>::empty());
            assert(concat_all(res) =~= Seq::<char>::empty());
            assert(concat_all(size_limit_scan(items).0) + size_limit_scan(items).1 =~= crate::text::seq_join(items, "+"@));
        } else if blen(list) + blen(it) + 2 > 4000 {
            assert(concat_all(res.push(list + "+"@)) == concat_all(res) + (list + "+"@)) by {
                assert(res.push(list + "+"@).drop_last() =~= res);
            }
            assert(concat_all(size_limit_scan(items).0) + size_limit_scan(items).1 =~= crate::text::seq_join(items, "+"@));
        } else {
            assert(concat_all(size_limit_scan(items).0) + size_limit_scan(items).1 =~= crate::text::seq_join(items, "+"@));
        }
    }
}

/// The cookie-sized subscription or filter lists, written one after another,
/// give back the `+`-joined list (for non-empty names).
pub proof fn lemma_cookie_lists_rejoin(items: Seq<Seq<char>>)
    requires
        forall|i: int| 0 <= i < items.len() ==> #[trigger] items[i].len() > 0,
    ensures
        concat_all(join_until_size_limit_spec(items)) == crate::text::seq_join(items, "+"@),
{
    let (res, list) = size_limit_scan(items);
    assert(res.push(list).drop_last() =~= res);
    lemma_size_scan_rejoin(items);
}

proof fn lemma_blen_concat(a: Seq<char>, b: Seq<char>)
    ensures
        blen(a + b) == blen(a) + blen(b),
    decreases a.len(),
{
    if a.len() == 0 {
        assert(a + b =~= b);
        assert(encode_utf8(a) =~= Seq::<u8>::empty());
    } else {
        lemma_blen_concat(a.drop_first(), b);
        assert((a + b).drop_first() =~= a.drop_first() + b);
        assert((a + b)[0] == a[0]);
    }
}

proof fn lemma_blen_plus()
    ensures
        blen("+"@) == 1,
{
    reveal_strlit("+");
    assert("+"@.drop_first() =~= Seq::<char>::empty());
    assert(encode_utf8(Seq::<char>::empty()) =~= Seq::<u8>::empty());
}

proof fn lemma_size_scan_fits(items: Seq<Seq<char>>)
    requires
        forall|i: int| 0 <= i < items.len() ==> blen(#[trigger] items[i]) <= 3999,
    ensures
        blen(size_limit_scan(items).1) <= 3999,
        forall|k: int| 0 <= k < size_limit_scan(items).0.len() ==> blen(#[trigger] size_limit_scan(items).0[k]) <= 4000,
    decreases items.len(),
{
    if items.len() == 0 {
        assert(encode_utf8(Seq::<char>::empty()) =~= Seq::<u8>::empty());
    } else {
        let p = items.drop_last();
        assert forall|i: int| 0 <= i < p.len() implies blen(#[trigger] p[i]) <= 3999 by {
            assert(p[i] == items[i]);
        }
        lemma_size_scan_fits(p);
        let (res, list) = size_limit_scan(p);
        let it = items.last();
        assert(blen(items[items.len() - 1]) <= 3999);
        lemma_blen_plus();
        lemma_blen_concat(list, "+"@);
        lemma_blen_concat(list + "+"@, it);
        if list.len() > 0 && blen(list) + blen(it) + 2 > 4000 {
            let r = res.push(list + "+"@);
            assert forall|k: int| 0 <= k < r.len() implies blen(#[trigger] r[k]) <= 4000 by {
                if k < res.len() {
                    assert(r[k] == res[k]);
                }
            }
        }
    }
}

/// Every cookie-sized list is at most 4000 bytes, trailing `+` included,
/// when every name is at most 3999 bytes (a longer name cannot be followed
/// by its `+` within the limit).
pub proof fn lemma_cookie_lists_fit(items: Seq<Seq<char>>)
    requires
        forall|i: int| 0 <= i < items.len() ==> blen(#[trigger] items[i]) <= 3999,
    ensures
        forall|k: int| 0 <= k < join_until_size_limit_spec(items).len() ==>
            blen(#[trigger] join_until_size_limit_spec(items)[k]) <= 4000,
{
    lemma_size_scan_fits(items);
    let (res, list) = size_limit_scan(items);
    let r = res.push(list);
    assert forall|k: int| 0 <= k < r.len() implies blen(#[trigger] r[k]) <= 4000 by {
        if k < res.len() {
            assert(r[k] == res[k]);
        }
    }
}

proof fn lemma_read_scan_rejoin(ids: Seq<Seq<char>>)
    requires
        forall|i: int| 0 <= i < ids.len() ==> #[trigger] ids[i].len() > 0,
    ensures
        concat_all(read_chunk_scan(ids).0) + read_chunk_scan(ids).1 == crate::text::seq_join(ids, ","@),
        ids.len() > 0 <==> read_chunk_scan(ids).1.len() > 0,
    decreases ids.len(),
{
    if ids.len() > 0 {
        let p = ids.drop_last();
        assert forall|i: int| 0 <= i < p.len() implies #[trigger] p[i].len() > 0 by {
            assert(p[i] == ids[i]);
        }
        lemma_read_scan_rejoin(p);
        let (res, list) = read_chunk_scan(p);
        let id = ids.last();
        assert(id == ids[ids.len() - 1]);
        if p.len() == 0 {
            assert(ids.len() == 1 && id == ids[0]);
            assert(res =~= Seq::<Seq<char>>::empty());
            assert(list =~= Seq::<char>::empty());
            assert(read_chunk_scan(ids).0 == res);
            assert(read_chunk_scan(ids).1 =~= id);
            assert(concat_all(res) =~= Seq::<char>::empty());
            assert(crate::text::seq_join(ids, ","@) == ids[0]);
            assert(concat_all(read_chunk_scan(ids).0) == concat_all(res));
            assert(Seq::<char>::empty() + id =~= id);
            assert(concat_all(read_chunk_scan(ids).0) + read_chunk_scan(ids).1 =~= crate::text::seq_join(ids, ","@));
        } else {
            reveal_strlit(",");
            let add = 1int + blen(id);
            if blen(list) + add > 4000 && list.len() > 0 {
                assert(concat_all(res.push(list)) == concat_all(res) + list) by {
                    assert(res.push(list).drop_last() =~= res);
                }
            }
            assert(concat_all(read_chunk_scan(ids).0) + read_chunk_scan(ids).1 =~= crate::text::seq_join(ids, ","@));
        }
    }
}

/// The chunks of read post ids, written one after another, give back the
/// comma-joined ids (each chunk after the first starts with the comma that
/// separates it from the previous one).
pub proof fn lemma_read_chunks_rejoin(ids: Seq<Seq<char>>)
    requires
        forall|i: int| 0 <= i < ids.len() ==> #[trigger] ids[i].len() > 0,
    ensures
        concat_all(chunk_read_ids_spec(ids)) == crate::text::seq_join(ids, ","@),
{
    lemma_read_scan_rejoin(ids);
    let (res, list) = read_chunk_scan(ids);
    if list.len() > 0 {
        assert(res.push(list).drop_last() =~= res);
    } else {
        assert(concat_all(res) + list =~= concat_all(res));
    }
}

} // verus!

verus! {

proof fn lemma_drop_lower_excludes(s: Seq<Seq<char>>, part: Seq<char>, y: Seq<char>)
    ensures
        drop_lower(s, part).contains(y) ==> s.contains(y) && lower(y) != lower(part),
    decreases s.len(),
{
    if s.len() > 0 {
        lemma_drop_lower_excludes(s.drop_last(), part, y);
        let w = drop_lower(s.drop_last(), part);
        if drop_lower(s, part).contains(y) {
            if lower(s.last()) == lower(part) {
                let j = choose|j: int| 0 <= j < w.len() && w[j] == y;
                let k = choose|k: int| 0 <= k < s.drop_last().len() && s.drop_last()[k] == y;
                assert(s[k] == y);
            } else {
                let i = choose|i: int| 0 <= i < w.push(s.last()).len() && w.push(s.last())[i] == y;
                if i < w.len() {
                    assert(w[i] == y);
                    let k = choose|k: int| 0 <= k < s.drop_last().len() && s.drop_last()[k] == y;
                    assert(s[k] == y);
                } else {
                    assert(s[s.len() - 1] == y);
                }
            }
        }
    }
}

proof fn lemma_insert_lower_elems(s: Seq<Seq<char>>, x: Seq<char>, y: Seq<char>)
    ensures
        insert_lower(s, x).contains(y) <==> (s.contains(y) || y == x),
    decreases s.len(),
{
    if s.len() == 0 {
        assert(insert_lower(s, x) =~= seq![x]);
        assert(seq![x][0] == x);
    } else if crate::token_import::lex_lt(lower(x), lower(s.last())) {
        let t = insert_lower(s.drop_last(), x);
        lemma_insert_lower_elems(s.drop_last(), x, y);
        if t.push(s.last()).contains(y) {
            let i = choose|i: int| 0 <= i < t.push(s.last()).len() && t.push(s.last())[i] == y;
            if i < t.len() {
                assert(t[i] == y);
                if s.drop_last().contains(y) {
                    let j = choose|j: int| 0 <= j < s.drop_last().len() && s.drop_last()[j] == y;
                    assert(s[j] == y);
                }
            } else {
                assert(s[s.len() - 1] == y);
            }
        }
        if s.contains(y) {
            let j = choose|j: int| 0 <= j < s.len() && s[j] == y;
            if j < s.len() - 1 {
                assert(s.drop_last()[j] == y);
                let k = choose|k: int| 0 <= k < t.len() && t[k] == y;
                assert(t.push(s.last())[k] == y);
            } else {
                assert(t.push(s.last())[t.len() as int] == y);
            }
        }
        if y == x {
            let k = choose|k: int| 0 <= k < t.len() && t[k] == y;
            assert(t.push(s.last())[k] == y);
        }
    } else {
        if s.push(x).contains(y) {
            let i = choose|i: int| 0 <= i < s.push(x).len() && s.push(x)[i] == y;
            if i < s.len() {
                assert(s[i] == y);
            }
        }
        if s.contains(y) {
            let j = choose|j: int| 0 <= j < s.len() && s[j] == y;
            assert(s.push(x)[j] == y);
        }
        if y == x {
            assert(s.push(x)[s.len() as int] == y);
        }
    }
}

proof fn lemma_sort_lower_elems(s: Seq<Seq<char>>, y: Seq<char>)
    ensures
        sort_lower(s).contains(y) <==> s.contains(y),
    decreases s.len(),
{
    if s.len() > 0 {
        lemma_sort_lower_elems(s.drop_last(), y);
        lemma_insert_lower_elems(sort_lower(s.drop_last()), s.last(), y);
        if s.contains(y) {
            let j = choose|j: int| 0 <= j < s.len() && s[j] == y;
            if j < s.len() - 1 {
                assert(s.drop_last()[j] == y);
            }
        }
        if s.drop_last().contains(y) {
            let j = choose|j: int| 0 <= j < s.drop_last().len() && s.drop_last()[j] == y;
            assert(s[j] == y);
        }
    }
}

/// Subscribing to a subreddit (not yet subscribed) lists it among the
/// subscriptions and takes every spelling of it off the filters; filtering
/// one (not yet filtered) lists it among the filters and takes every
/// spelling of it off the subscriptions; unsubscribing or unfiltering leaves
/// no spelling of it in that list. So a subreddit is never both subscribed
/// and filtered by one action.
pub proof fn lemma_list_actions_exclusive(subs: Seq<Seq<char>>, filters: Seq<Seq<char>>, part: Seq<char>, a: ListAction)
    ensures
        ({
            let (s2, f2, _) = list_action_spec(subs, filters, part, a);
            &&& (a.subscribe && !subs.contains(part)) ==> s2.contains(part)
                && forall|i: int| 0 <= i < f2.len() ==> lower(#[trigger] f2[i]) != lower(part)
            &&& (!(a.subscribe && !subs.contains(part)) && a.unsubscribe) ==>
                forall|i: int| 0 <= i < s2.len() ==> lower(#[trigger] s2[i]) != lower(part)
            &&& (!(a.subscribe && !subs.contains(part)) && !a.unsubscribe && a.filter && !filters.contains(part)) ==>
                f2.contains(part) && forall|i: int| 0 <= i < s2.len() ==> lower(#[trigger] s2[i]) != lower(part)
            &&& (!(a.subscribe && !subs.contains(part)) && !a.unsubscribe && !(a.filter && !filters.contains(part))
                && a.unfilter) ==> forall|i: int| 0 <= i < f2.len() ==> lower(#[trigger] f2[i]) != lower(part)
        }),
{
    let (s2, f2, _) = list_action_spec(subs, filters, part, a);
    if a.subscribe && !subs.contains(part) {
        assert(subs.push(part)[subs.len() as int] == part);
        lemma_sort_lower_elems(subs.push(part), part);
        assert forall|i: int| 0 <= i < f2.len() implies lower(#[trigger] f2[i]) != lower(part) by {
            let y = f2[i];
            lemma_sort_lower_elems(drop_lower(filters, part), y);
            lemma_drop_lower_excludes(filters, part, y);
        }
    } else if a.unsubscribe {
        assert forall|i: int| 0 <= i < s2.len() implies lower(#[trigger] s2[i]) != lower(part) by {
            lemma_drop_lower_excludes(subs, part, s2[i]);
        }
    } else if a.filter && !filters.contains(part) {
        assert(filters.push(part)[filters.len() as int] == part);
        lemma_sort_lower_elems(filters.push(part), part);
        assert forall|i: int| 0 <= i < s2.len() implies lower(#[trigger] s2[i]) != lower(part) by {
            let y = s2[i];
            lemma_sort_lower_elems(drop_lower(subs, part), y);
            lemma_drop_lower_excludes(subs, part, y);
        }
    } else if a.unfilter {
        assert forall|i: int| 0 <= i < f2.len() implies lower(#[trigger] f2[i]) != lower(part) by {
            lemma_drop_lower_excludes(filters, part, f2[i]);
        }
    }
}

} // verus!
