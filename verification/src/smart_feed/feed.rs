//! Building a channel's feed: which subreddits to fetch, which posts pass the
//! mutes, filters and gates, how items are tagged, grouped and counted.
use vstd::prelude::*;
use super::channel::{default_filter_set, is_default_rule, ChannelRule, Filters, Gates, Presentation, Sources};
use super::cluster::Cluster;
use crate::state::MuteRule;
use crate::text::{
    concat2, contains_seq, ends_with_seq, eq_ignore_ascii_case, owned, push_str, push_string, seq_join, join, str_contains,
    str_ends_with, str_eq, str_eq_ignore_ascii_case, to_lowercase, unicode_lower, views, u64_to_string, dec,
};
use crate::crypto::view_string;

verus! {

/// What the feed logic reads of a post.
#[derive(Debug)]
pub struct PostFacts {
    pub id: String,
    pub title: String,
    pub domain: String,
    /// The subreddit.
    pub community: String,
    /// `self`, `link`, `image`, `video`, `gif` or `gallery`.
    pub post_type: String,
    pub nsfw: bool,
    pub created_ts: i64,
    pub num_comments: i64,
    pub score: i64,
}

/// A post as shown in a feed.
#[derive(Debug)]
pub struct FeedItem {
    pub post: PostFacts,
    pub is_read: bool,
    pub is_saved: bool,
    pub is_archived: bool,
    /// Why it is shown (such as `New`, `Unread`, or the preset's reasons).
    pub why: Vec<String>,
    pub cluster_id: Option<String>,
    pub cluster_size: usize,
    pub body_preview: String,
}

// ----- sources -----

/// Whether a list holds `s`, ignoring ASCII case.
pub open spec fn has_ci(list: Seq<Seq<char>>, s: Seq<char>) -> bool {
    exists|i: int| 0 <= i < list.len() && eq_ignore_ascii_case(#[trigger] list[i], s)
}

/// The channel's subreddits, then each subscription not already listed
/// (ignoring ASCII case), when subscriptions are included.
pub open spec fn merge_subs(list: Seq<Seq<char>>, subs: Seq<Seq<char>>) -> Seq<Seq<char>>
    decreases subs.len(),
{
    if subs.len() == 0 {
        list
    } else {
        let m = merge_subs(list, subs.drop_last());
        if has_ci(m, subs.last()) { m } else { m.push(subs.last()) }
    }
}

pub open spec fn fetch_subs_spec(rule_subs: Seq<Seq<char>>, include_subscriptions: bool, subscriptions: Seq<Seq<char>>) -> Result<Seq<char>, Seq<char>> {
    let all = if include_subscriptions { merge_subs(rule_subs, subscriptions) } else { rule_subs };
    if all.len() == 0 {
        Err("No subreddits configured for this channel. Add subreddits in channel settings, or enable 'Include subscriptions'."@)
    } else {
        Ok(seq_join(all, "+"@))
    }
}

fn contains_ci(list: &Vec<String>, s: &str) -> (r: bool)
    ensures
        r == has_ci(views(list@), s@),
{
    let mut i: usize = 0;
    while i < list.len()
        invariant
            i <= list@.len(),
            forall|j: int| 0 <= j < i ==> !eq_ignore_ascii_case(#[trigger] views(list@)[j], s@),
        decreases list@.len() - i,
    {
        if str_eq_ignore_ascii_case(list[i].as_str(), s) {
            assert(eq_ignore_ascii_case(views(list@)[i as int], s@));
            return true;
        }
        i += 1;
    }
    false
}

/// The `+`-joined subreddits to fetch for a channel.
pub fn build_fetch_subs(rule: &ChannelRule, subscriptions: &Vec<String>) -> (r: Result<String, String>)
    ensures
        match r {
            Ok(s) => fetch_subs_spec(views(rule.sources.subreddits@), rule.sources.subscriptions, views(subscriptions@))
                == Ok::<Seq<char>, Seq<char>>(s@),
            Err(e) => fetch_subs_spec(views(rule.sources.subreddits@), rule.sources.subscriptions, views(subscriptions@))
                == Err::<Seq<char>, Seq<char>>(e@),
        },
{
    let mut subs: Vec<String> = Vec::new();
    let mut k: usize = 0;
    while k < rule.sources.subreddits.len()
        invariant
            k <= rule.sources.subreddits@.len(),
            views(subs@) == views(rule.sources.subreddits@).take(k as int),
        decreases rule.sources.subreddits@.len() - k,
    {
        push_string(&mut subs, rule.sources.subreddits[k].as_str());
        k += 1;
        assert(views(subs@) =~= views(rule.sources.subreddits@).take(k as int));
    }
    assert(views(rule.sources.subreddits@).take(k as int) =~= views(rule.sources.subreddits@));
    if rule.sources.subscriptions {
        let mut i: usize = 0;
        while i < subscriptions.len()
            invariant
                i <= subscriptions@.len(),
                views(subs@) == merge_subs(views(rule.sources.subreddits@), views(subscriptions@).take(i as int)),
            decreases subscriptions@.len() - i,
        {
            assert(views(subscriptions@).take(i + 1).drop_last() =~= views(subscriptions@).take(i as int));
            if !contains_ci(&subs, subscriptions[i].as_str()) {
                push_string(&mut subs, subscriptions[i].as_str());
            }
            i += 1;
        }
        assert(views(subscriptions@).take(i as int) =~= views(subscriptions@));
    }
    if subs.len() == 0 {
        return Err(owned("No subreddits configured for this channel. Add subreddits in channel settings, or enable 'Include subscriptions'."));
    }
    Ok(join(&subs, "+"))
}

/// The built-in `My Subs` channel: the default rule over the subscriptions;
/// without subscriptions there is nothing to show.
pub fn build_my_subs_rule(subscriptions: &Vec<String>) -> (r: Result<(String, ChannelRule), String>)
    ensures
        match r {
            Ok((title, rule)) => subscriptions@.len() > 0 && title@ == "My Subs"@ && is_default_rule(rule),
            Err(e) => subscriptions@.len() == 0 && e@ == "Subscribe to some subreddits first (Settings \u{2192} Subscriptions)."@,
        },
{
    if subscriptions.len() == 0 {
        return Err(owned("Subscribe to some subreddits first (Settings \u{2192} Subscriptions)."));
    }
    let rule = ChannelRule {
        sources: Sources { subscriptions: true, subreddits: Vec::new() },
        filters: default_filter_set(),
        gates: Gates { min_comments: 0, min_score: 0, max_age_hours: 72 },
        presentation: Presentation { clusters: owned("on"), density: owned("balanced") },
    };
    Ok((owned("My Subs"), rule))
}

/// `+` written `%2B`, the rest as it is.
pub open spec fn escape_plus(s: Seq<char>) -> Seq<char>
    decreases s.len(),
{
    if s.len() == 0 {
        seq![]
    } else {
        escape_plus(s.drop_last()) + if s.last() == '+' { "%2B"@ } else { seq![s.last()] }
    }
}

pub fn escape_plus_str(s: &str) -> (r: String)
    ensures
        r@ == escape_plus(s@),
{
    let cs = crate::text::chars_of(s);
    let mut out = String::new();
    let mut i: usize = 0;
    while i < cs.len()
        invariant
            i <= cs@.len(),
            out@ == escape_plus(cs@.take(i as int)),
        decreases cs@.len() - i,
    {
        assert(cs@.take(i + 1).drop_last() =~= cs@.take(i as int));
        if cs[i] == '+' {
            push_str(&mut out, "%2B");
        } else {
            crate::text::push_char(&mut out, cs[i]);
            assert(out@ =~= escape_plus(cs@.take(i + 1)));
        }
        i += 1;
    }
    assert(cs@.take(i as int) =~= s@);
    out
}

/// The listing a feed fetches: the subreddits (with `+` escaped), the
/// preset's sort, at most 200 posts (100 by default), the preset's time range
/// and the paging cursor when there is one.
pub open spec fn feed_path_spec(subs: Seq<char>, sort: Seq<char>, t: Option<Seq<char>>, limit: nat, after: Option<Seq<char>>) -> Seq<char> {
    "/r/"@ + escape_plus(subs) + "/"@ + sort + ".json?limit="@ + dec(if limit > 200 { 200 } else { limit }) + "&raw_json=1"@
        + match t {
        Some(tt) => "&t="@ + tt,
        None => Seq::<char>::empty(),
    } + match after {
        Some(a) => if a.len() > 0 { "&after="@ + a } else { Seq::<char>::empty() },
        None => Seq::<char>::empty(),
    }
}

pub fn feed_path(subs: &str, sort: &str, t: Option<&str>, limit: Option<u32>, after: Option<&str>) -> (r: String)
    ensures
        r@ == feed_path_spec(subs@, sort@, crate::auth::opt_str(t), match limit {
            Some(l) => l as nat,
            None => 100,
        }, crate::auth::opt_str(after)),
{
    let lim: u32 = match limit {
        Some(l) => if l > 200 { 200 } else { l },
        None => 100,
    };
    let mut p = owned("/r/");
    push_str(&mut p, escape_plus_str(subs).as_str());
    push_str(&mut p, "/");
    push_str(&mut p, sort);
    push_str(&mut p, ".json?limit=");
    push_str(&mut p, u64_to_string(lim as u64).as_str());
    push_str(&mut p, "&raw_json=1");
    let ghost base = p@;
    if let Some(tt) = t {
        push_str(&mut p, "&t=");
        push_str(&mut p, tt);
    }
    let ghost mid = p@;
    assert(mid =~= base + match crate::auth::opt_str(t) {
        Some(tt) => "&t="@ + tt,
        None => Seq::<char>::empty(),
    });
    if let Some(a) = after {
        if !a.is_empty() {
            push_str(&mut p, "&after=");
            push_str(&mut p, a);
        }
    }
    assert(p@ =~= mid + match crate::auth::opt_str(after) {
        Some(a) => if a.len() > 0 { "&after="@ + a } else { Seq::<char>::empty() },
        None => Seq::<char>::empty(),
    });
    p
}

// ----- mutes and filters -----

/// `d` is the domain `p` or one of its subdomains.
pub open spec fn domain_matches(d: Seq<char>, p: Seq<char>) -> bool {
    d == p || ends_with_seq(d, "."@ + p)
}

/// What one mute rule hides, on the lower-cased title, domain and subreddit
/// (Unicode lower case).
pub open spec fn mute_hits(m: MuteRule, t: Seq<char>, d: Seq<char>, s: Seq<char>) -> bool {
    let p = unicode_lower(m.pattern@);
    if m.rule_type@ == "keyword"@ {
        contains_seq(t, p)
    } else if m.rule_type@ == "domain"@ {
        domain_matches(d, p)
    } else if m.rule_type@ == "subreddit"@ {
        s == p
    } else {
        false
    }
}

/// A post passes the mutes when no rule hides it.
pub open spec fn passes_mutes_spec(title: Seq<char>, domain: Seq<char>, subreddit: Seq<char>, mutes: Seq<MuteRule>) -> bool {
    forall|i: int| 0 <= i < mutes.len() ==> !mute_hits(#[trigger] mutes[i], unicode_lower(title), unicode_lower(domain), unicode_lower(subreddit))
}

fn domain_match(d: &str, p: &str) -> (r: bool)
    ensures
        r == domain_matches(d@, p@),
{
    let dotted = concat2(".", p);
    str_eq(d, p) || str_ends_with(d, dotted.as_str())
}

pub fn passes_mutes(title: &str, domain: &str, subreddit: &str, mutes: &Vec<MuteRule>) -> (r: bool)
    ensures
        r == passes_mutes_spec(title@, domain@, subreddit@, mutes@),
{
    let t = to_lowercase(title);
    let d = to_lowercase(domain);
    let s = to_lowercase(subreddit);
    let mut i: usize = 0;
    while i < mutes.len()
        invariant
            i <= mutes@.len(),
            t@ == unicode_lower(title@),
            d@ == unicode_lower(domain@),
            s@ == unicode_lower(subreddit@),
            forall|j: int| 0 <= j < i ==> !mute_hits(#[trigger] mutes@[j], t@, d@, s@),
        decreases mutes@.len() - i,
    {
        let m = &mutes[i];
        let p = to_lowercase(m.pattern.as_str());
        let kind = m.rule_type.as_str();
        let hit = if str_eq(kind, "keyword") {
            str_contains(t.as_str(), p.as_str())
        } else if str_eq(kind, "domain") {
            domain_match(d.as_str(), p.as_str())
        } else if str_eq(kind, "subreddit") {
            str_eq(s.as_str(), p.as_str())
        } else {
            false
        };
        if hit {
            assert(mute_hits(mutes@[i as int], t@, d@, s@));
            return false;
        }
        i += 1;
    }
    true
}

/// Some keyword of the list occurs in the lower-cased title.
pub open spec fn any_keyword(t: Seq<char>, ks: Seq<String>) -> bool {
    exists|i: int| 0 <= i < ks.len() && contains_seq(t, unicode_lower(#[trigger] ks[i]@))
}

/// Some domain of the list matches the lower-cased domain.
pub open spec fn any_domain(d: Seq<char>, ds: Seq<String>) -> bool {
    exists|i: int| 0 <= i < ds.len() && domain_matches(d, unicode_lower(#[trigger] ds[i]@))
}

pub open spec fn has_word(list: Seq<String>, w: Seq<char>) -> bool {
    exists|i: int| 0 <= i < list.len() && #[trigger] list[i]@ == w
}

/// A post passes a channel's filters when: with include keywords, its title
/// holds one; it holds no exclude keyword; with allowed domains, its domain is
/// one; its domain is not blocked; its type is listed (unless the list is
/// empty or holds `all`); and it is not NSFW when NSFW posts are hidden.
/// Case is ignored (Unicode lower case).
pub open spec fn passes_filters_spec(post: PostFacts, f: Filters) -> bool {
    let t = unicode_lower(post.title@);
    let d = unicode_lower(post.domain@);
    &&& (f.include_keywords@.len() > 0 ==> any_keyword(t, f.include_keywords@))
    &&& (f.exclude_keywords@.len() > 0 ==> !any_keyword(t, f.exclude_keywords@))
    &&& (f.domains_allow@.len() > 0 ==> any_domain(d, f.domains_allow@))
    &&& (f.domains_block@.len() > 0 ==> !any_domain(d, f.domains_block@))
    &&& (f.media_types@.len() > 0 && !has_word(f.media_types@, "all"@) ==> has_word(f.media_types@, post.post_type@))
    &&& !(f.nsfw@ == "hide"@ && post.nsfw)
}

fn keyword_in(t: &str, ks: &Vec<String>) -> (r: bool)
    ensures
        r == any_keyword(t@, ks@),
{
    let mut i: usize = 0;
    while i < ks.len()
        invariant
            i <= ks@.len(),
            forall|j: int| 0 <= j < i ==> !contains_seq(t@, unicode_lower(#[trigger] ks@[j]@)),
        decreases ks@.len() - i,
    {
        let k = to_lowercase(ks[i].as_str());
        if str_contains(t, k.as_str()) {
            return true;
        }
        i += 1;
    }
    false
}

fn domain_in(d: &str, ds: &Vec<String>) -> (r: bool)
    ensures
        r == any_domain(d@, ds@),
{
    let mut i: usize = 0;
    while i < ds.len()
        invariant
            i <= ds@.len(),
            forall|j: int| 0 <= j < i ==> !domain_matches(d@, unicode_lower(#[trigger] ds@[j]@)),
        decreases ds@.len() - i,
    {
        let dom = to_lowercase(ds[i].as_str());
        if domain_match(d, dom.as_str()) {
            return true;
        }
        i += 1;
    }
    false
}

fn word_in(list: &Vec<String>, w: &str) -> (r: bool)
    ensures
        r == has_word(list@, w@),
{
    let mut i: usize = 0;
    while i < list.len()
        invariant
            i <= list@.len(),
            forall|j: int| 0 <= j < i ==> #[trigger] list@[j]@ != w@,
        decreases list@.len() - i,
    {
        if str_eq(list[i].as_str(), w) {
            return true;
        }
        i += 1;
    }
    false
}

pub fn passes_channel_filters(post: &PostFacts, f: &Filters) -> (r: bool)
    ensures
        r == passes_filters_spec(*post, *f),
{
    let t = to_lowercase(post.title.as_str());
    let d = to_lowercase(post.domain.as_str());
    if f.include_keywords.len() > 0 && !keyword_in(t.as_str(), &f.include_keywords) {
        return false;
    }
    if f.exclude_keywords.len() > 0 && keyword_in(t.as_str(), &f.exclude_keywords) {
        return false;
    }
    if f.domains_allow.len() > 0 && !domain_in(d.as_str(), &f.domains_allow) {
        return false;
    }
    if f.domains_block.len() > 0 && domain_in(d.as_str(), &f.domains_block) {
        return false;
    }
    if f.media_types.len() > 0 && !word_in(&f.media_types, "all") {
        if !word_in(&f.media_types, post.post_type.as_str()) {
            return false;
        }
    }
    if str_eq(f.nsfw.as_str(), "hide") && post.nsfw {
        return false;
    }
    true
}

/// The whole-number gates of a channel: enough comments and score.
pub fn passes_gates(post: &PostFacts, gates: &Gates) -> (r: bool)
    ensures
        r == (post.num_comments >= gates.min_comments && post.score >= gates.min_score),
{
    post.num_comments >= gates.min_comments && post.score >= gates.min_score
}

/// Archived posts are skipped unless the archived filter is selected.
pub fn skip_archived(is_archived: bool, filter: &str) -> (r: bool)
    ensures
        r == (is_archived && filter@ != "archived"@),
{
    is_archived && !str_eq(filter, "archived")
}

/// Whether a post of a channel's feed goes on to be scored, in the order the
/// feed judges it: an archived post is dropped unless the archived filter is
/// selected; then a post that a mute hits; then one the channel's filters
/// refuse; then one under the channel's minimum comments or score. (The
/// preset's own gate and the maximum age are judged on the post's
/// floating-point scores, after this.)
pub fn admits_post(
    post: &PostFacts,
    archived: bool,
    filter: &str,
    mutes: &Vec<MuteRule>,
    filters: &Filters,
    gates: &Gates,
) -> (r: bool)
    ensures
        r == (!(archived && filter@ != "archived"@)
            && passes_mutes_spec(post.title@, post.domain@, post.community@, mutes@)
            && passes_filters_spec(*post, *filters)
            && post.num_comments >= gates.min_comments && post.score >= gates.min_score),
{
    if skip_archived(archived, filter) {
        return false;
    }
    if !passes_mutes(post.title.as_str(), post.domain.as_str(), post.community.as_str(), mutes) {
        return false;
    }
    if !passes_channel_filters(post, filters) {
        return false;
    }
    passes_gates(post, gates)
}

// ----- tagging, grouping, counting -----

/// A post is new when it was created after the previous visit.
pub fn new_since_visit(created_ts: i64, prev_visit: Option<i64>) -> (r: bool)
    ensures
        r == match prev_visit {
            Some(ts) => created_ts > ts,
            None => false,
        },
{
    match prev_visit {
        Some(ts) => created_ts > ts,
        None => false,
    }
}

/// With local state on, a post new since the last visit is tagged `New` (and
/// counted), else an unread one is tagged `Unread`; the tag goes first.
pub fn tag_why(why: Vec<String>, local_state: bool, is_new: bool, is_read: bool) -> (r: (Vec<String>, bool))
    ensures
        r.1 == (local_state && is_new),
        views(r.0@) == if local_state && is_new {
            seq!["New"@] + views(why@)
        } else if local_state && !is_read {
            seq!["Unread"@] + views(why@)
        } else {
            views(why@)
        },
{
    let mut w = why;
    if local_state && is_new {
        w.insert(0, owned("New"));
        assert(views(w@) =~= seq!["New"@] + views(why@));
        (w, true)
    } else if local_state && !is_read {
        w.insert(0, owned("Unread"));
        assert(views(w@) =~= seq!["Unread"@] + views(why@));
        (w, false)
    } else {
        (w, false)
    }
}

/// The cluster a post is shown in: the last cluster of more than one post
/// that holds it, with that cluster's size.
pub open spec fn cluster_of(cs: Seq<Cluster>, id: Seq<char>) -> Option<(Seq<char>, nat)>
    decreases cs.len(),
{
    if cs.len() == 0 {
        None
    } else {
        let c = cs.last();
        if c.members@.len() > 1 && views(c.members@).contains(id) {
            Some((c.id@, c.members@.len()))
        } else {
            cluster_of(cs.drop_last(), id)
        }
    }
}

fn member_of(c: &Cluster, id: &str) -> (r: bool)
    ensures
        r == views(c.members@).contains(id@),
{
    let mut i: usize = 0;
    while i < c.members.len()
        invariant
            i <= c.members@.len(),
            forall|j: int| 0 <= j < i ==> #[trigger] c.members@[j]@ != id@,
        decreases c.members@.len() - i,
    {
        if str_eq(c.members[i].as_str(), id) {
            assert(views(c.members@)[i as int] == id@);
            return true;
        }
        i += 1;
    }
    assert forall|j: int| 0 <= j < views(c.members@).len() implies views(c.members@)[j] != id@ by {
        assert(views(c.members@)[j] == c.members@[j]@);
    }
    false
}

pub fn find_cluster(cs: &Vec<Cluster>, id: &str) -> (r: Option<(String, usize)>)
    ensures
        match r {
            Some((cid, size)) => cluster_of(cs@, id@) == Some((cid@, size as nat)),
            None => cluster_of(cs@, id@) is None,
        },
{
    let mut i: usize = cs.len();
    assert(cs@.take(i as int) =~= cs@);
    while i > 0
        invariant
            i <= cs@.len(),
            cluster_of(cs@, id@) == cluster_of(cs@.take(i as int), id@),
        decreases i,
    {
        let c = &cs[i - 1];
        assert(cs@.take(i as int).drop_last() =~= cs@.take(i - 1));
        assert(cs@.take(i as int).last() == cs@[i - 1]);
        if c.members.len() > 1 && member_of(c, id) {
            return Some((c.id.clone(), c.members.len()));
        }
        i -= 1;
    }
    None
}

/// Puts each item in its cluster (see `cluster_of`); items in no cluster are
/// left as they were.
pub fn assign_clusters(items: &mut Vec<FeedItem>, cs: &Vec<Cluster>)
    ensures
        final(items)@.len() == old(items)@.len(),
        forall|k: int| 0 <= k < final(items)@.len() ==> {
            let before = #[trigger] old(items)@[k];
            let after = final(items)@[k];
            &&& after.post == before.post && after.is_read == before.is_read && after.is_saved == before.is_saved
            &&& after.is_archived == before.is_archived && after.why == before.why && after.body_preview == before.body_preview
            &&& match cluster_of(cs@, before.post.id@) {
                Some((cid, size)) => view_string(after.cluster_id) == Some(cid) && after.cluster_size == size,
                None => after.cluster_id == before.cluster_id && after.cluster_size == before.cluster_size,
            }
        },
{
    let mut i: usize = 0;
    while i < items.len()
        invariant
            i <= items@.len(),
            items@.len() == old(items)@.len(),
            forall|k: int| i <= k < items@.len() ==> #[trigger] items@[k] == old(items)@[k],
            forall|k: int| 0 <= k < i ==> {
                let before = #[trigger] old(items)@[k];
                let after = items@[k];
                &&& after.post == before.post && after.is_read == before.is_read && after.is_saved == before.is_saved
                &&& after.is_archived == before.is_archived && after.why == before.why && after.body_preview == before.body_preview
                &&& match cluster_of(cs@, before.post.id@) {
                    Some((cid, size)) => view_string(after.cluster_id) == Some(cid) && after.cluster_size == size,
                    None => after.cluster_id == before.cluster_id && after.cluster_size == before.cluster_size,
                }
            },
        decreases items@.len() - i,
    {
        let found = find_cluster(cs, items[i].post.id.as_str());
        if let Some((cid, size)) = found {
            let mut it = items.remove(i);
            it.cluster_id = Some(cid);
            it.cluster_size = size;
            items.insert(i, it);
        }
        i += 1;
    }
}

/// How many items there are, how many unread and how many saved.
pub open spec fn count_where(items: Seq<FeedItem>, which: int) -> nat
    decreases items.len(),
{
    if items.len() == 0 {
        0
    } else {
        let it = items.last();
        let hit = if which == 0 { !it.is_read } else if which == 1 { it.is_saved } else { it.is_archived };
        count_where(items.drop_last(), which) + if hit { 1nat } else { 0nat }
    }
}

pub fn feed_counts(items: &Vec<FeedItem>) -> (r: (usize, usize, usize))
    ensures
        r.0 == items@.len(),
        r.1 == count_where(items@, 0),
        r.2 == count_where(items@, 1),
{
    let mut unread: usize = 0;
    let mut saved: usize = 0;
    let mut i: usize = 0;
    while i < items.len()
        invariant
            i <= items@.len(),
            unread == count_where(items@.take(i as int), 0),
            saved == count_where(items@.take(i as int), 1),
            unread <= i && saved <= i,
        decreases items@.len() - i,
    {
        assert(items@.take(i + 1).drop_last() =~= items@.take(i as int));
        if !items[i].is_read {
            unread += 1;
        }
        if items[i].is_saved {
            saved += 1;
        }
        i += 1;
    }
    assert(items@.take(i as int) =~= items@);
    (items.len(), unread, saved)
}

/// The items a filter keeps: `unread`, `saved` or `archived` ones, or all.
pub open spec fn filter_kind(filter: Seq<char>) -> int {
    if filter == "unread"@ { 0 } else if filter == "saved"@ { 1 } else if filter == "archived"@ { 2 } else { 3 }
}

pub open spec fn keeps(it: FeedItem, kind: int) -> bool {
    if kind == 0 { !it.is_read } else if kind == 1 { it.is_saved } else if kind == 2 { it.is_archived } else { true }
}

pub open spec fn filtered(items: Seq<FeedItem>, kind: int) -> Seq<FeedItem>
    decreases items.len(),
{
    if items.len() == 0 {
        seq![]
    } else if keeps(items.last(), kind) {
        filtered(items.drop_last(), kind).push(items.last())
    } else {
        filtered(items.drop_last(), kind)
    }
}

pub fn apply_filter(items: Vec<FeedItem>, filter: &str) -> (r: Vec<FeedItem>)
    ensures
        r@ == filtered(items@, filter_kind(filter@)),
{
    let kind: u8 = if str_eq(filter, "unread") {
        0
    } else if str_eq(filter, "saved") {
        1
    } else if str_eq(filter, "archived") {
        2
    } else {
        3
    };
    let ghost all = items@;
    let mut rest = items;
    let mut out: Vec<FeedItem> = Vec::new();
    while rest.len() > 0
        invariant
            rest@.len() <= all.len(),
            rest@ == all.skip(all.len() - rest@.len()),
            out@ == filtered(all.take(all.len() - rest@.len()), kind as int),
            kind as int == filter_kind(filter@),
        decreases rest@.len(),
    {
        let n = rest.len();
        let ghost idx = all.len() - n;
        let it = rest.remove(0);
        assert(it == all[idx]);
        assert(all.take(idx + 1).drop_last() =~= all.take(idx));
        assert(rest@ =~= all.skip(idx + 1));
        let keep = if kind == 0 {
            !it.is_read
        } else if kind == 1 {
            it.is_saved
        } else if kind == 2 {
            it.is_archived
        } else {
            true
        };
        if keep {
            out.push(it);
        }
    }
    assert(all.take(all.len() as int) =~= all);
    out
}


// ----- laws of the channel filters and the tabs -----

/// A channel's filters refuse a post whose lower-cased title holds one of its
/// exclude keywords, or none of its include keywords (when it has some); a
/// post whose domain is, or is below, a blocked domain; and an NSFW post when
/// NSFW posts are hidden. With no keyword, domain or type lists and NSFW posts
/// not hidden, every post passes.
pub proof fn lemma_channel_filter_laws(post: PostFacts, f: Filters)
    ensures
        (exists|k: int| 0 <= k < f.exclude_keywords@.len()
            && contains_seq(unicode_lower(post.title@), unicode_lower(#[trigger] f.exclude_keywords@[k]@)))
            ==> !passes_filters_spec(post, f),
        (f.include_keywords@.len() > 0 && forall|k: int| 0 <= k < f.include_keywords@.len()
            ==> !contains_seq(unicode_lower(post.title@), unicode_lower(#[trigger] f.include_keywords@[k]@)))
            ==> !passes_filters_spec(post, f),
        (exists|k: int| 0 <= k < f.domains_block@.len() && (unicode_lower(post.domain@) == unicode_lower(#[trigger] f.domains_block@[k]@)
            || ends_with_seq(unicode_lower(post.domain@), "."@ + unicode_lower(f.domains_block@[k]@))))
            ==> !passes_filters_spec(post, f),
        (f.domains_allow@.len() > 0 && forall|k: int| 0 <= k < f.domains_allow@.len()
            ==> unicode_lower(post.domain@) != unicode_lower(#[trigger] f.domains_allow@[k]@)
                && !ends_with_seq(unicode_lower(post.domain@), "."@ + unicode_lower(f.domains_allow@[k]@)))
            ==> !passes_filters_spec(post, f),
        (forall|k: int| 0 <= k < f.media_types@.len() ==> (#[trigger] f.media_types@[k])@ != "all"@
            && f.media_types@[k]@ != post.post_type@) && f.media_types@.len() > 0
            ==> !passes_filters_spec(post, f),
        (f.nsfw@ == "hide"@ && post.nsfw) ==> !passes_filters_spec(post, f),
        (f.include_keywords@.len() == 0 && f.exclude_keywords@.len() == 0 && f.domains_allow@.len() == 0
            && f.domains_block@.len() == 0 && f.media_types@.len() == 0 && !(f.nsfw@ == "hide"@ && post.nsfw))
            ==> passes_filters_spec(post, f),
{
    let t = unicode_lower(post.title@);
    let d = unicode_lower(post.domain@);
    if exists|k: int| 0 <= k < f.exclude_keywords@.len()
        && contains_seq(t, unicode_lower(#[trigger] f.exclude_keywords@[k]@)) {
        let k = choose|k: int| 0 <= k < f.exclude_keywords@.len()
            && contains_seq(t, unicode_lower(#[trigger] f.exclude_keywords@[k]@));
        assert(any_keyword(t, f.exclude_keywords@));
    }
    if f.include_keywords@.len() > 0 && forall|k: int| 0 <= k < f.include_keywords@.len()
        ==> !contains_seq(t, unicode_lower(#[trigger] f.include_keywords@[k]@)) {
        assert(!any_keyword(t, f.include_keywords@));
    }
    if exists|k: int| 0 <= k < f.domains_block@.len() && (d == unicode_lower(#[trigger] f.domains_block@[k]@)
        || ends_with_seq(d, "."@ + unicode_lower(f.domains_block@[k]@))) {
        let k = choose|k: int| 0 <= k < f.domains_block@.len() && (d == unicode_lower(#[trigger] f.domains_block@[k]@)
            || ends_with_seq(d, "."@ + unicode_lower(f.domains_block@[k]@)));
        assert(domain_matches(d, unicode_lower(f.domains_block@[k]@)));
        assert(any_domain(d, f.domains_block@));
    }
    if f.domains_allow@.len() > 0 && forall|k: int| 0 <= k < f.domains_allow@.len()
        ==> d != unicode_lower(#[trigger] f.domains_allow@[k]@)
            && !ends_with_seq(d, "."@ + unicode_lower(f.domains_allow@[k]@)) {
        assert(!any_domain(d, f.domains_allow@));
    }
    if (forall|k: int| 0 <= k < f.media_types@.len() ==> (#[trigger] f.media_types@[k])@ != "all"@
        && f.media_types@[k]@ != post.post_type@) && f.media_types@.len() > 0 {
        assert(!has_word(f.media_types@, "all"@));
        assert(!has_word(f.media_types@, post.post_type@));
    }
}

proof fn lemma_filtered_keeps(items: Seq<FeedItem>, kind: int)
    ensures
        forall|i: int| 0 <= i < filtered(items, kind).len() ==> keeps(#[trigger] filtered(items, kind)[i], kind),
        forall|j: int| 0 <= j < items.len() && keeps(#[trigger] items[j], kind) ==> filtered(items, kind).contains(items[j]),
        (forall|j: int| 0 <= j < items.len() ==> keeps(#[trigger] items[j], kind)) ==> filtered(items, kind) == items,
    decreases items.len(),
{
    if items.len() > 0 {
        let d = items.drop_last();
        lemma_filtered_keeps(d, kind);
        let o = filtered(d, kind);
        let last = items.last();
        if keeps(last, kind) {
            let r = o.push(last);
            assert forall|i: int| 0 <= i < r.len() implies keeps(#[trigger] r[i], kind) by {
                if i < o.len() {
                    assert(r[i] == o[i]);
                }
            }
            assert forall|j: int| 0 <= j < items.len() && keeps(#[trigger] items[j], kind) implies r.contains(items[j]) by {
                if j < items.len() - 1 {
                    assert(d[j] == items[j]);
                    let m = choose|m: int| 0 <= m < o.len() && o[m] == d[j];
                    assert(r[m] == o[m]);
                } else {
                    assert(r[r.len() - 1] == last);
                }
            }
            if forall|j: int| 0 <= j < items.len() ==> keeps(#[trigger] items[j], kind) {
                assert forall|j: int| 0 <= j < d.len() implies keeps(#[trigger] d[j], kind) by {
                    assert(d[j] == items[j]);
                }
                assert(d.push(last) =~= items);
            }
        } else {
            assert forall|j: int| 0 <= j < items.len() && keeps(#[trigger] items[j], kind) implies o.contains(items[j]) by {
                assert(j < items.len() - 1);
                assert(d[j] == items[j]);
            }
            assert(!keeps(items[items.len() - 1], kind));
        }
    } else {
        assert(filtered(items, kind) =~= items);
    }
}

/// The feed's tabs: the `unread` tab keeps exactly the unread items, the
/// `saved` tab exactly the saved ones and the `archived` tab exactly the
/// archived ones (each kept item is of its kind, and every item of its kind is
/// kept); any other tab keeps every item as it is.
pub proof fn lemma_filter_tabs(items: Seq<FeedItem>, other: Seq<char>)
    ensures
        forall|i: int| 0 <= i < filtered(items, filter_kind("unread"@)).len()
            ==> !(#[trigger] filtered(items, filter_kind("unread"@))[i]).is_read,
        forall|j: int| 0 <= j < items.len() && !(#[trigger] items[j]).is_read
            ==> filtered(items, filter_kind("unread"@)).contains(items[j]),
        forall|i: int| 0 <= i < filtered(items, filter_kind("saved"@)).len()
            ==> (#[trigger] filtered(items, filter_kind("saved"@))[i]).is_saved,
        forall|j: int| 0 <= j < items.len() && (#[trigger] items[j]).is_saved
            ==> filtered(items, filter_kind("saved"@)).contains(items[j]),
        forall|i: int| 0 <= i < filtered(items, filter_kind("archived"@)).len()
            ==> (#[trigger] filtered(items, filter_kind("archived"@))[i]).is_archived,
        forall|j: int| 0 <= j < items.len() && (#[trigger] items[j]).is_archived
            ==> filtered(items, filter_kind("archived"@)).contains(items[j]),
        other != "unread"@ && other != "saved"@ && other != "archived"@ ==> filtered(items, filter_kind(other)) == items,
{
    reveal_strlit("unread");
    reveal_strlit("saved");
    reveal_strlit("archived");
    assert(filter_kind("unread"@) == 0);
    assert("saved"@ != "unread"@) by {
        assert("saved"@.len() != "unread"@.len());
    }
    assert(filter_kind("saved"@) == 1);
    assert("archived"@ != "unread"@ && "archived"@ != "saved"@) by {
        assert("archived"@.len() != "unread"@.len());
        assert("archived"@.len() != "saved"@.len());
    }
    assert(filter_kind("archived"@) == 2);
    lemma_filtered_keeps(items, 0);
    lemma_filtered_keeps(items, 1);
    lemma_filtered_keeps(items, 2);
    lemma_filtered_keeps(items, 3);
    assert forall|i: int| 0 <= i < filtered(items, 0).len() implies !(#[trigger] filtered(items, 0)[i]).is_read by {
        assert(keeps(filtered(items, 0)[i], 0));
    }
    assert forall|j: int| 0 <= j < items.len() && !(#[trigger] items[j]).is_read implies filtered(items, 0).contains(items[j]) by {
        assert(keeps(items[j], 0));
    }
    assert forall|i: int| 0 <= i < filtered(items, 1).len() implies (#[trigger] filtered(items, 1)[i]).is_saved by {
        assert(keeps(filtered(items, 1)[i], 1));
    }
    assert forall|j: int| 0 <= j < items.len() && (#[trigger] items[j]).is_saved implies filtered(items, 1).contains(items[j]) by {
        assert(keeps(items[j], 1));
    }
    assert forall|i: int| 0 <= i < filtered(items, 2).len() implies (#[trigger] filtered(items, 2)[i]).is_archived by {
        assert(keeps(filtered(items, 2)[i], 2));
    }
    assert forall|j: int| 0 <= j < items.len() && (#[trigger] items[j]).is_archived implies filtered(items, 2).contains(items[j]) by {
        assert(keeps(items[j], 2));
    }
    if other != "unread"@ && other != "saved"@ && other != "archived"@ {
        assert(filter_kind(other) == 3);
        assert forall|j: int| 0 <= j < items.len() implies keeps(#[trigger] items[j], 3) by {}
    }
}

} // verus!
