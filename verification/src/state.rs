//! Rows of the local reading-state store, and the store's one decision that is
//! not a query: reordering channels.
use vstd::prelude::*;
use crate::text::{str_eq, views};

verus! {

/// A mute rule: posts matching it are hidden.
#[derive(Debug)]
pub struct MuteRule {
    pub id: i64,
    /// `global` or `channel:<slug>`.
    pub scope: String,
    /// `keyword`, `domain` or `subreddit`.
    pub rule_type: String,
    pub pattern: String,
}

/// A stored channel.
#[derive(Debug)]
pub struct ChannelRow {
    pub slug: String,
    pub title: String,
    /// The channel's rule, serialized.
    pub rule_json: String,
    pub created_at: i64,
    pub updated_at: i64,
    pub sort_order: i64,
}

/// What is remembered of a post shown in a feed, for the saved-posts page.
#[derive(Debug)]
pub struct PostCacheEntry {
    pub post_id: String,
    pub title: String,
    pub community: String,
    pub domain: String,
    pub permalink: String,
    pub score: i64,
    pub comments: i64,
    pub created_utc: i64,
}

/// Reading statistics of one browser session.
#[derive(Debug)]
pub struct ReadingStats {
    pub total_seen: i64,
    pub total_read: i64,
    pub total_saved: i64,
    pub total_mutes: i64,
    pub total_channels: i64,
    /// Up to ten communities with the most posts seen, with their counts.
    pub top_communities: Vec<(String, i64)>,
}

impl Default for ReadingStats {
    fn default() -> (r: ReadingStats)
        ensures
            r.total_seen == 0 && r.total_read == 0 && r.total_saved == 0 && r.total_mutes == 0 && r.total_channels == 0,
            r.top_communities@.len() == 0,
    {
        ReadingStats { total_seen: 0, total_read: 0, total_saved: 0, total_mutes: 0, total_channels: 0, top_communities: Vec::new() }
    }
}

/// A saved post with what was cached of it.
#[derive(Debug)]
pub struct SavedPostRow {
    pub post_id: String,
    pub title: String,
    pub community: String,
    pub domain: String,
    pub permalink: String,
    pub score: i64,
    pub comments: i64,
    pub created_utc: i64,
    pub saved_at: i64,
}

/// The first position of `x` in `s`.
pub open spec fn index_of(s: Seq<Seq<char>>, x: Seq<char>) -> Option<int>
    decreases s.len(),
{
    if s.len() == 0 {
        None
    } else if s[0] == x {
        Some(0)
    } else {
        match index_of(s.drop_first(), x) {
            Some(i) => Some(i + 1),
            None => None,
        }
    }
}

/// Moving a channel one place up (`direction < 0`) or down: it trades places
/// with its neighbour. `None` when the channel is not there or is already at
/// that end, and the order stays as it is.
pub open spec fn moved_order(s: Seq<Seq<char>>, slug: Seq<char>, direction: int) -> Option<Seq<Seq<char>>> {
    match index_of(s, slug) {
        None => None,
        Some(i) => {
            let j = if direction < 0 { i - 1 } else { i + 1 };
            if j < 0 || j >= s.len() {
                None
            } else {
                Some(s.update(i, s[j]).update(j, s[i]))
            }
        },
    }
}

proof fn lemma_index_of(s: Seq<Seq<char>>, x: Seq<char>)
    ensures
        index_of(s, x) matches Some(i) ==> 0 <= i < s.len() && s[i] == x,
    decreases s.len(),
{
    if s.len() > 0 {
        lemma_index_of(s.drop_first(), x);
    }
}

/// Where `slug` first occurs in the list.
pub fn position_of(slugs: &Vec<String>, slug: &str) -> (r: Option<usize>)
    ensures
        match r {
            Some(i) => index_of(views(slugs@), slug@) == Some(i as int) && i < slugs@.len(),
            None => index_of(views(slugs@), slug@) is None,
        },
{
    let ghost all = views(slugs@);
    let mut i: usize = 0;
    assert(all.skip(0) =~= all);
    while i < slugs.len()
        invariant
            all == views(slugs@),
            i <= slugs@.len(),
            index_of(all, slug@) == match index_of(all.skip(i as int), slug@) {
                Some(k) => Some(k + i),
                None => None::<int>,
            },
        decreases slugs@.len() - i,
    {
        let ghost rest = all.skip(i as int);
        assert(rest[0] == slugs@[i as int]@);
        assert(rest.drop_first() =~= all.skip(i + 1));
        if str_eq(slugs[i].as_str(), slug) {
            return Some(i);
        }
        i += 1;
    }
    assert(all.skip(i as int) =~= Seq::<Seq<char>>::empty());
    None
}

/// The channel order after a move (see `moved_order`); the new position of
/// each channel is its index.
pub fn move_channel_order(slugs: Vec<String>, slug: &str, direction: i64) -> (r: Option<Vec<String>>)
    ensures
        match r {
            Some(v) => moved_order(views(slugs@), slug@, direction as int) == Some(views(v@)),
            None => moved_order(views(slugs@), slug@, direction as int) is None,
        },
{
    let ghost all = views(slugs@);
    let i = match position_of(&slugs, slug) {
        Some(i) => i,
        None => {
            return None;
        },
    };
    let n = slugs.len();
    let j: usize = if direction < 0 {
        if i == 0 {
            return None;
        }
        i - 1
    } else {
        if i + 1 >= n {
            return None;
        }
        i + 1
    };
    let mut v = slugs;
    let a = v[i].clone();
    let b = v[j].clone();
    v.set(i, b);
    v.set(j, a);
    assert(views(v@) =~= all.update(i as int, all[j as int]).update(j as int, all[i as int]));
    Some(v)
}

} // verus!

verus! {

proof fn lemma_index_of_first(s: Seq<Seq<char>>, x: Seq<char>, i: int)
    ensures
        index_of(s, x) == Some(i) <==> (0 <= i < s.len() && s[i] == x && forall|k: int| 0 <= k < i ==> s[k] != x),
    decreases s.len(),
{
    if s.len() > 0 {
        lemma_index_of_first(s.drop_first(), x, i - 1);
        if s[0] != x && 0 < i < s.len() && s[i] == x && (forall|k: int| 0 <= k < i ==> s[k] != x) {
            assert forall|k: int| 0 <= k < i - 1 implies s.drop_first()[k] != x by {
                assert(s.drop_first()[k] == s[k + 1]);
            }
        }
        if index_of(s, x) == Some(i) && s[0] != x {
            assert forall|k: int| 0 <= k < i implies s[k] != x by {
                if k > 0 {
                    assert(s.drop_first()[k - 1] == s[k]);
                }
            }
        }
    }
}

/// Moving a channel up and then down again gives back the old order.
pub proof fn lemma_move_up_then_down(s: Seq<Seq<char>>, slug: Seq<char>)
    requires
        moved_order(s, slug, -1) is Some,
    ensures
        moved_order(moved_order(s, slug, -1)->0, slug, 1) == Some(s),
{
    lemma_index_of(s, slug);
    let i = index_of(s, slug)->0;
    lemma_index_of_first(s, slug, i);
    let t = s.update(i, s[i - 1]).update(i - 1, s[i]);
    lemma_index_of_first(t, slug, i - 1);
    assert(index_of(t, slug) == Some(i - 1));
    assert(t.update(i - 1, t[i]).update(i, t[i - 1]) =~= s);
}

/// Moving a channel down and then up again gives back the old order.
pub proof fn lemma_move_down_then_up(s: Seq<Seq<char>>, slug: Seq<char>)
    requires
        moved_order(s, slug, 1) is Some,
        s.no_duplicates(),
    ensures
        moved_order(moved_order(s, slug, 1)->0, slug, -1) == Some(s),
{
    lemma_index_of(s, slug);
    let i = index_of(s, slug)->0;
    lemma_index_of_first(s, slug, i);
    let t = s.update(i, s[i + 1]).update(i + 1, s[i]);
    assert forall|k: int| 0 <= k < i + 1 implies t[k] != slug by {
        if k == i {
            assert(s[i + 1] != s[i]);
        }
    }
    lemma_index_of_first(t, slug, i + 1);
    assert(t.update(i + 1, t[i]).update(i, t[i + 1]) =~= s);
}

/// A move keeps the same channels: it only trades two neighbours' places.
pub proof fn lemma_move_permutes(s: Seq<Seq<char>>, slug: Seq<char>, direction: int)
    requires
        moved_order(s, slug, direction) is Some,
    ensures
        moved_order(s, slug, direction)->0.to_multiset() == s.to_multiset(),
{
    lemma_index_of(s, slug);
    let i = index_of(s, slug)->0;
    let j = if direction < 0 { i - 1 } else { i + 1 };
    let u = s.update(i, s[j]);
    let t = u.update(j, s[i]);
    vstd::seq_lib::to_multiset_update(s, i, s[j]);
    vstd::seq_lib::to_multiset_update(u, j, s[i]);
    assert(u[j] == s[j]);
    broadcast use vstd::multiset::group_multiset_axioms;
    s.to_multiset_ensures();
    assert(s.contains(s[i]) && s.contains(s[j]));
    assert(s.to_multiset().count(s[i]) > 0 && s.to_multiset().count(s[j]) > 0);
    assert forall|v: Seq<char>| t.to_multiset().count(v) == s.to_multiset().count(v) by {}
    assert(t.to_multiset() =~= s.to_multiset());
}

} // verus!
