//! The saved-posts page: one entry per saved row, with its times as shown.
use vstd::prelude::*;
use crate::state::SavedPostRow;

verus! {

/// A saved post as the page lists it.
pub struct SavedItem {
    pub post_id: String,
    pub title: String,
    pub community: String,
    pub domain: String,
    pub permalink: String,
    pub score: i64,
    pub comments: i64,
    pub rel_time: String,
    pub saved_at_display: String,
}

/// The entry for a saved row, given how its post time and its save time are
/// shown; every other field is the row's.
pub fn saved_item(row: SavedPostRow, rel_time: String, saved_at_display: String) -> (r: SavedItem)
    ensures
        r.post_id@ == row.post_id@,
        r.title@ == row.title@,
        r.community@ == row.community@,
        r.domain@ == row.domain@,
        r.permalink@ == row.permalink@,
        r.score == row.score,
        r.comments == row.comments,
        r.rel_time@ == rel_time@,
        r.saved_at_display@ == saved_at_display@,
{
    SavedItem {
        post_id: row.post_id,
        title: row.title,
        community: row.community,
        domain: row.domain,
        permalink: row.permalink,
        score: row.score,
        comments: row.comments,
        rel_time,
        saved_at_display,
    }
}

} // verus!
