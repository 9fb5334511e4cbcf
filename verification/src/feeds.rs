//! Custom feeds: named multireddits kept in a cookie.
use vstd::prelude::*;
use crate::crypto::percent_encode;
use crate::login::pct;
use crate::subreddit::{blen, insert_sorted_unique, split_char, strictly_sorted};
use crate::text::{
    ascii_alnum, chars_of, concat2, eq_ignore_ascii_case, is_ascii_alnum, join, owned, push_str, push_string,
    seq_join, str_eq, str_eq_ignore_ascii_case, to_lowercase, trim, trim_seq, unicode_lower, views,
};
use crate::token_import::{label_lt, lex_lt};

verus! {

/// A named list of subreddits.
#[derive(Debug)]
pub struct CustomFeed {
    pub name: String,
    /// `+`-joined subreddits.
    pub subreddits: String,
    pub link: String,
}

/// A feed with the link that opens it.
#[derive(Debug)]
pub struct FeedWithLink {
    pub feed: CustomFeed,
    pub link: String,
}

/// Most feeds a browser keeps, and most subreddits in one.
pub const MAX_FEEDS: usize = 30;
pub const MAX_SUBS_PER_FEED: usize = 100;

/// A feed name is 1 to 50 bytes (trimmed) of ASCII letters, digits, spaces,
/// hyphens and underscores.
pub open spec fn feed_name_ok(s: Seq<char>) -> bool {
    let t = trim_seq(s);
    t.len() > 0 && blen(t) <= 50
        && forall|i: int| 0 <= i < t.len() ==> is_ascii_alnum(#[trigger] t[i]) || t[i] == ' ' || t[i] == '-' || t[i] == '_'
}

pub fn valid_feed_name(s: &str) -> (r: bool)
    ensures
        r == feed_name_ok(s@),
{
    let t = trim(s);
    if t.as_str().is_empty() || t.as_str().as_bytes().len() > 50 {
        return false;
    }
    let cs = chars_of(t.as_str());
    let mut i: usize = 0;
    while i < cs.len()
        invariant
            cs@ == t@,
            t@ == trim_seq(s@),
            i <= cs@.len(),
            forall|j: int| 0 <= j < i ==> is_ascii_alnum(#[trigger] cs@[j]) || cs@[j] == ' ' || cs@[j] == '-' || cs@[j] == '_',
        decreases cs@.len() - i,
    {
        let c = cs[i];
        if !(ascii_alnum(c) || c == ' ' || c == '-' || c == '_') {
            return false;
        }
        i += 1;
    }
    true
}

/// A subreddit name for a feed: trimmed and lower-cased, 1 to 21 bytes of
/// ASCII letters, digits and underscores.
pub open spec fn normalized_sub(s: Seq<char>) -> Option<Seq<char>> {
    let t = unicode_lower(trim_seq(s));
    if t.len() > 0 && blen(t) <= 21 && forall|i: int| 0 <= i < t.len() ==> is_ascii_alnum(#[trigger] t[i]) || t[i] == '_' {
        Some(t)
    } else {
        None
    }
}

pub fn normalize_sub(s: &str) -> (r: Option<String>)
    ensures
        crate::crypto::view_string(r) == normalized_sub(s@),
{
    let t0 = trim(s);
    let t = to_lowercase(t0.as_str());
    if t.as_str().is_empty() || t.as_str().as_bytes().len() > 21 {
        return None;
    }
    let cs = chars_of(t.as_str());
    let mut i: usize = 0;
    while i < cs.len()
        invariant
            cs@ == t@,
            t@ == unicode_lower(trim_seq(s@)),
            t@.len() > 0,
            blen(t@) <= 21,
            i <= cs@.len(),
            forall|j: int| 0 <= j < i ==> is_ascii_alnum(#[trigger] cs@[j]) || cs@[j] == '_',
        decreases cs@.len() - i,
    {
        let c = cs[i];
        if !(ascii_alnum(c) || c == '_') {
            return None;
        }
        i += 1;
    }
    Some(t)
}

pub open spec fn feed_sep(c: char) -> bool {
    c == ',' || c == '+' || c == ' ' || c == '\n'
}

/// The pieces between separators (comma, plus, space, newline).
pub open spec fn feed_pieces(s: Seq<char>) -> Seq<Seq<char>>
    decreases s.len(),
{
    if s.len() == 0 {
        seq![seq![]]
    } else {
        let w = feed_pieces(s.drop_last());
        if feed_sep(s.last()) {
            w.push(seq![])
        } else {
            w.update(w.len() - 1, w.last().push(s.last()))
        }
    }
}

proof fn lemma_feed_pieces_nonempty(s: Seq<char>)
    ensures
        feed_pieces(s).len() > 0,
    decreases s.len(),
{
    if s.len() > 0 {
        lemma_feed_pieces_nonempty(s.drop_last());
    }
}

/// The valid names among the pieces.
pub open spec fn feed_names(pieces: Seq<Seq<char>>) -> Seq<Seq<char>>
    decreases pieces.len(),
{
    if pieces.len() == 0 {
        seq![]
    } else {
        match normalized_sub(pieces.last()) {
            Some(n) => feed_names(pieces.drop_last()).push(n),
            None => feed_names(pieces.drop_last()),
        }
    }
}

/// The subreddits of a feed form, sorted, each once.
pub fn parse_subreddits_list(input: &str) -> (r: Vec<String>)
    ensures
        strictly_sorted(views(r@)),
        views(r@).to_set() == feed_names(feed_pieces(input@)).to_set(),
{
    let cs = chars_of(input);
    let mut pieces: Vec<Vec<char>> = Vec::new();
    pieces.push(Vec::new());
    let mut i: usize = 0;
    assert(cs@.take(0) =~= Seq::<char>::empty());
    while i < cs.len()
        invariant
            i <= cs@.len(),
            pieces@.len() == feed_pieces(cs@.take(i as int)).len(),
            forall|k: int| 0 <= k < pieces@.len() ==> #[trigger] pieces@[k]@ == feed_pieces(cs@.take(i as int))[k],
        decreases cs@.len() - i,
    {
        assert(cs@.take(i + 1).drop_last() =~= cs@.take(i as int));
        proof {
            lemma_feed_pieces_nonempty(cs@.take(i as int));
        }
        let c = cs[i];
        if c == ',' || c == '+' || c == ' ' || c == '\n' {
            pieces.push(Vec::new());
        } else {
            let last = pieces.len() - 1;
            let mut w = pieces.pop().unwrap();
            w.push(c);
            pieces.push(w);
            assert(pieces@[last as int]@ == feed_pieces(cs@.take(i + 1))[last as int]);
        }
        i += 1;
    }
    assert(cs@.take(i as int) =~= input@);
    let ghost all = feed_pieces(input@);
    let mut names: Vec<String> = Vec::new();
    let mut k: usize = 0;
    while k < pieces.len()
        invariant
            k <= pieces@.len(),
            pieces@.len() == all.len(),
            forall|j: int| 0 <= j < pieces@.len() ==> #[trigger] pieces@[j]@ == all[j],
            views(names@) == feed_names(all.take(k as int)),
        decreases pieces@.len() - k,
    {
        assert(all.take(k + 1).drop_last() =~= all.take(k as int));
        let piece = crate::text::string_of(&pieces[k]);
        if let Some(n) = normalize_sub(piece.as_str()) {
            push_string(&mut names, n.as_str());
        }
        k += 1;
    }
    assert(all.take(k as int) =~= all);
    let mut out: Vec<String> = Vec::new();
    let mut j: usize = 0;
    assert(views(out@).to_set() =~= views(names@).take(0).to_set());
    while j < names.len()
        invariant
            j <= names@.len(),
            strictly_sorted(views(out@)),
            views(out@).to_set() == views(names@).take(j as int).to_set(),
        decreases names@.len() - j,
    {
        insert_sorted_unique(&mut out, names[j].as_str());
        assert(views(names@).take(j + 1) =~= views(names@).take(j as int).push(names@[j as int]@));
        proof {
            views(names@).take(j as int).lemma_push_to_set_commute(names@[j as int]@);
        }
        j += 1;
    }
    assert(views(names@).take(j as int) =~= views(names@));
    out
}

/// The link that opens a feed.
pub fn feed_link(name: &str) -> (r: String)
    ensures
        r@ == "/feed/"@ + pct(name@),
{
    concat2("/feed/", percent_encode(name).as_str())
}

/// The feeds with their links.
pub fn feeds_with_links(feeds: Vec<CustomFeed>) -> (r: Vec<FeedWithLink>)
    ensures
        r@.len() == feeds@.len(),
        forall|i: int| 0 <= i < r@.len() ==> (#[trigger] r@[i]).feed == feeds@[i] && r@[i].link@ == "/feed/"@ + pct(feeds@[i].name@),
{
    let ghost all = feeds@;
    let mut rest = feeds;
    let mut out: Vec<FeedWithLink> = Vec::new();
    while rest.len() > 0
        invariant
            rest@.len() <= all.len(),
            rest@ == all.skip(all.len() - rest@.len()),
            out@.len() == all.len() - rest@.len(),
            forall|i: int| 0 <= i < out@.len() ==> (#[trigger] out@[i]).feed == all[i] && out@[i].link@ == "/feed/"@ + pct(all[i].name@),
        decreases rest@.len(),
    {
        let ghost idx = all.len() - rest@.len();
        let f = rest.remove(0);
        assert(f == all[idx]);
        assert(rest@ =~= all.skip(idx + 1));
        let link = feed_link(f.name.as_str());
        out.push(FeedWithLink { feed: f, link });
    }
    out
}

// ----- editing the list -----

pub open spec fn without_name(fs: Seq<CustomFeed>, name: Seq<char>) -> Seq<CustomFeed>
    decreases fs.len(),
{
    if fs.len() == 0 {
        seq![]
    } else if fs.last().name@ == name {
        without_name(fs.drop_last(), name)
    } else {
        without_name(fs.drop_last(), name).push(fs.last())
    }
}

/// Inserting a feed after every feed whose lower-cased name is not greater.
pub open spec fn insert_feed(s: Seq<CustomFeed>, x: CustomFeed) -> Seq<CustomFeed>
    decreases s.len(),
{
    if s.len() == 0 {
        seq![x]
    } else if lex_lt(unicode_lower(x.name@), unicode_lower(s.last().name@)) {
        insert_feed(s.drop_last(), x).push(s.last())
    } else {
        s.push(x)
    }
}

/// The stable sort of feeds by lower-cased name.
pub open spec fn sort_feeds(s: Seq<CustomFeed>) -> Seq<CustomFeed>
    decreases s.len(),
{
    if s.len() == 0 {
        seq![]
    } else {
        insert_feed(sort_feeds(s.drop_last()), s.last())
    }
}

pub open spec fn has_name(fs: Seq<CustomFeed>, name: Seq<char>) -> bool {
    exists|i: int| 0 <= i < fs.len() && #[trigger] fs[i].name@ == name
}

fn copy_feed(f: &CustomFeed) -> (r: CustomFeed)
    ensures
        r == *f,
{
    CustomFeed { name: f.name.clone(), subreddits: f.subreddits.clone(), link: f.link.clone() }
}

fn drop_name(fs: &Vec<CustomFeed>, name: &str) -> (r: Vec<CustomFeed>)
    ensures
        r@ == without_name(fs@, name@),
{
    let mut out: Vec<CustomFeed> = Vec::new();
    let mut i: usize = 0;
    while i < fs.len()
        invariant
            i <= fs@.len(),
            out@ == without_name(fs@.take(i as int), name@),
        decreases fs@.len() - i,
    {
        assert(fs@.take(i + 1).drop_last() =~= fs@.take(i as int));
        if !str_eq(fs[i].name.as_str(), name) {
            out.push(copy_feed(&fs[i]));
        }
        i += 1;
    }
    assert(fs@.take(i as int) =~= fs@);
    out
}

fn any_name(fs: &Vec<CustomFeed>, name: &str) -> (r: bool)
    ensures
        r == has_name(fs@, name@),
{
    let mut i: usize = 0;
    while i < fs.len()
        invariant
            i <= fs@.len(),
            forall|j: int| 0 <= j < i ==> #[trigger] fs@[j].name@ != name@,
        decreases fs@.len() - i,
    {
        if str_eq(fs[i].name.as_str(), name) {
            return true;
        }
        i += 1;
    }
    false
}

proof fn lemma_insert_feed_at(s: Seq<CustomFeed>, x: CustomFeed, j: int)
    requires
        0 <= j <= s.len(),
        forall|k: int| j <= k < s.len() ==> lex_lt(unicode_lower(x.name@), unicode_lower(#[trigger] s[k].name@)),
        j > 0 ==> !lex_lt(unicode_lower(x.name@), unicode_lower(s[j - 1].name@)),
    ensures
        insert_feed(s, x) == s.take(j).push(x) + s.skip(j),
    decreases s.len(),
{
    if s.len() == 0 {
        assert(s.take(j).push(x) + s.skip(j) =~= seq![x]);
    } else if j == s.len() {
        assert(s.take(j).push(x) + s.skip(j) =~= s.push(x));
    } else {
        lemma_insert_feed_at(s.drop_last(), x, j);
        assert(s.drop_last().take(j).push(x) + s.drop_last().skip(j) + seq![s.last()] =~= s.take(j).push(x) + s.skip(j));
    }
}

fn insert_feed_sorted(v: &mut Vec<CustomFeed>, x: CustomFeed)
    ensures
        final(v)@ == insert_feed(old(v)@, x),
{
    let lx = to_lowercase(x.name.as_str());
    let mut j: usize = v.len();
    loop
        invariant
            j <= v@.len(),
            v@ == old(v)@,
            lx@ == unicode_lower(x.name@),
            forall|k: int| j <= k < v@.len() ==> lex_lt(unicode_lower(x.name@), unicode_lower(#[trigger] v@[k].name@)),
        ensures
            j <= v@.len(),
            v@ == old(v)@,
            forall|k: int| j <= k < v@.len() ==> lex_lt(unicode_lower(x.name@), unicode_lower(#[trigger] v@[k].name@)),
            j > 0 ==> !lex_lt(unicode_lower(x.name@), unicode_lower(v@[j - 1].name@)),
        decreases j,
    {
        if j == 0 {
            break;
        }
        let ly = to_lowercase(v[j - 1].name.as_str());
        if !label_lt(lx.as_str(), ly.as_str()) {
            break;
        }
        j -= 1;
    }
    proof {
        lemma_insert_feed_at(v@, x, j as int);
    }
    v.insert(j, x);
    assert(v@ =~= old(v)@.take(j as int).push(x) + old(v)@.skip(j as int));
}

fn sorted_feeds(v: Vec<CustomFeed>) -> (r: Vec<CustomFeed>)
    ensures
        r@ == sort_feeds(v@),
{
    let mut out: Vec<CustomFeed> = Vec::new();
    let mut i: usize = 0;
    while i < v.len()
        invariant
            i <= v@.len(),
            out@ == sort_feeds(v@.take(i as int)),
        decreases v@.len() - i,
    {
        assert(v@.take(i + 1).drop_last() =~= v@.take(i as int));
        insert_feed_sorted(&mut out, copy_feed(&v[i]));
        i += 1;
    }
    assert(v@.take(i as int) =~= v@);
    out
}

/// What the feeds form does: `delete` removes the named feed; otherwise the
/// feed is created or replaced when its name is valid, it has 1 to 100
/// subreddits, and it is not a 31st feed; the list is kept sorted by name.
/// The error text is empty on success.
pub open spec fn feed_form_error(feeds: Seq<CustomFeed>, delete: bool, name: Seq<char>, subs_raw: Seq<char>) -> Seq<char> {
    let subs = feed_names(feed_pieces(subs_raw)).to_set();
    if delete {
        Seq::<char>::empty()
    } else if !feed_name_ok(name) {
        "Feed name must be 1\u{2013}50 characters (letters, numbers, spaces, hyphens, underscores)."@
    } else if subs.len() == 0 {
        "Add at least one subreddit."@
    } else if subs.len() > 100 {
        "Maximum 100 subreddits per feed."@
    } else if feeds.len() >= 30 && !has_name(feeds, trim_seq(name)) {
        "Maximum 30 custom feeds."@
    } else {
        Seq::<char>::empty()
    }
}

/// A feed saved under name `n` from the subreddit text `raw`: its
/// subreddits are the valid names of `raw`, sorted, once each, joined by `+`.
pub open spec fn saved_feed(f: CustomFeed, n: Seq<char>, raw: Seq<char>) -> bool {
    &&& f.name@ == n
    &&& f.link@ == "/feed/"@ + pct(n)
    &&& exists|subs: Seq<Seq<char>>| strictly_sorted(subs) && subs.to_set() == feed_names(feed_pieces(raw)).to_set()
        && f.subreddits@ == #[trigger] seq_join(subs, "+"@)
}

/// The list after saving: the other feeds and the saved one, sorted by name.
pub open spec fn saved_as(result: Seq<CustomFeed>, feeds: Seq<CustomFeed>, n: Seq<char>, raw: Seq<char>) -> bool {
    exists|f: CustomFeed| saved_feed(f, n, raw) && result == sort_feeds(#[trigger] without_name(feeds, n).push(f))
}

/// Applies the feeds form. On an error the list is unchanged; a saved feed
/// carries its sorted subreddits joined by `+` and its link.
pub fn apply_feed_form(feeds: Vec<CustomFeed>, action: Option<&str>, name: Option<&str>, subreddits: Option<&str>) -> (r: (Vec<CustomFeed>, String))
    ensures
        ({
            let delete = crate::auth::opt_str(action) == Some("delete"@);
            let n = trim_seq(match name { Some(x) => x@, None => Seq::<char>::empty() });
            let raw = match subreddits { Some(x) => x@, None => Seq::<char>::empty() };
            let err = feed_form_error(feeds@, delete, match name { Some(x) => x@, None => Seq::<char>::empty() }, raw);
            &&& r.1@ == err
            &&& delete ==> r.0@ == without_name(feeds@, n)
            &&& !delete && err.len() > 0 ==> r.0@ == feeds@
            &&& !delete && err.len() == 0 ==> saved_as(r.0@, feeds@, n, raw)
        }),
{
    let delete = match action {
        Some(a) => str_eq(a, "delete"),
        None => false,
    };
    let raw_name = match name {
        Some(x) => x,
        None => "",
    };
    let n = trim(raw_name);
    let raw = match subreddits {
        Some(x) => x,
        None => "",
    };
    proof {
        reveal_strlit("");
        reveal_strlit("Feed name must be 1\u{2013}50 characters (letters, numbers, spaces, hyphens, underscores).");
        reveal_strlit("Add at least one subreddit.");
        reveal_strlit("Maximum 100 subreddits per feed.");
        reveal_strlit("Maximum 30 custom feeds.");
    }
    assert(raw_name@ == match name { Some(x) => x@, None => Seq::<char>::empty() });
    assert(raw@ == match subreddits { Some(x) => x@, None => Seq::<char>::empty() });
    if delete {
        let kept = drop_name(&feeds, n.as_str());
        return (kept, String::new());
    }
    if !valid_feed_name(raw_name) {
        return (feeds, owned("Feed name must be 1\u{2013}50 characters (letters, numbers, spaces, hyphens, underscores)."));
    }
    let subs = parse_subreddits_list(raw);
    proof {
        assert(views(subs@).no_duplicates()) by {
            assert forall|i: int, j: int| 0 <= i < views(subs@).len() && 0 <= j < views(subs@).len() && i != j
                implies views(subs@)[i] != views(subs@)[j] by {
                if i < j {
                    crate::token_import::lemma_lex_irrefl(views(subs@)[i]);
                } else {
                    crate::token_import::lemma_lex_irrefl(views(subs@)[j]);
                }
            }
        }
        views(subs@).unique_seq_to_set();
    }
    if subs.len() == 0 {
        return (feeds, owned("Add at least one subreddit."));
    }
    if subs.len() > 100 {
        return (feeds, owned("Maximum 100 subreddits per feed."));
    }
    if feeds.len() >= 30 && !any_name(&feeds, n.as_str()) {
        return (feeds, owned("Maximum 30 custom feeds."));
    }
    let joined = join(&subs, "+");
    let mut kept = drop_name(&feeds, n.as_str());
    let link = feed_link(n.as_str());
    let f = CustomFeed { name: n, subreddits: joined, link };
    let ghost fv = f;
    let ghost sv = views(subs@);
    kept.push(f);
    let sorted = sorted_feeds(kept);
    assert(sorted@ == sort_feeds(without_name(feeds@, fv.name@).push(fv)));
    assert(strictly_sorted(sv) && sv.to_set() == feed_names(feed_pieces(raw@)).to_set() && fv.subreddits@ == seq_join(sv, "+"@));
    assert(exists|subs: Seq<Seq<char>>| strictly_sorted(subs) && subs.to_set() == feed_names(feed_pieces(raw@)).to_set()
        && fv.subreddits@ == seq_join(subs, "+"@));
    assert(fv.name@ == trim_seq(raw_name@));
    assert(saved_feed(fv, trim_seq(raw_name@), raw@));
    assert(saved_as(sorted@, feeds@, trim_seq(raw_name@), raw@));
    (sorted, String::new())
}

/// The feed a `/feed/<name>` address opens: the first one whose name equals
/// it ignoring ASCII case; it leads to the feed's multireddit.
pub open spec fn feed_target_spec(feeds: Seq<CustomFeed>, name: Seq<char>) -> Option<Seq<char>>
    decreases feeds.len(),
{
    if feeds.len() == 0 {
        None
    } else if eq_ignore_ascii_case(feeds[0].name@, name) {
        Some("/r/"@ + feeds[0].subreddits@)
    } else {
        feed_target_spec(feeds.drop_first(), name)
    }
}

pub fn feed_target(feeds: &Vec<CustomFeed>, name: &str) -> (r: Result<String, String>)
    ensures
        match r {
            Ok(p) => feed_target_spec(feeds@, name@) == Some(p@),
            Err(e) => feed_target_spec(feeds@, name@) is None && e@ == "Custom feed not found"@,
        },
{
    let mut i: usize = 0;
    assert(feeds@.skip(0) =~= feeds@);
    while i < feeds.len()
        invariant
            i <= feeds@.len(),
            feed_target_spec(feeds@, name@) == feed_target_spec(feeds@.skip(i as int), name@),
        decreases feeds@.len() - i,
    {
        let ghost rest = feeds@.skip(i as int);
        assert(rest[0] == feeds@[i as int]);
        assert(rest.drop_first() =~= feeds@.skip(i + 1));
        if str_eq_ignore_ascii_case(feeds[i].name.as_str(), name) {
            return Ok(concat2("/r/", feeds[i].subreddits.as_str()));
        }
        i += 1;
    }
    Err(owned("Custom feed not found"))
}

} // verus!

verus! {

proof fn lemma_insert_feed_elems(s: Seq<CustomFeed>, x: CustomFeed, y: CustomFeed)
    ensures
        insert_feed(s, x).contains(y) <==> (s.contains(y) || y == x),
    decreases s.len(),
{
    if s.len() == 0 {
        assert(insert_feed(s, x) =~= seq![x]);
        assert(seq![x][0] == x);
    } else if lex_lt(unicode_lower(x.name@), unicode_lower(s.last().name@)) {
        let t = insert_feed(s.drop_last(), x);
        lemma_insert_feed_elems(s.drop_last(), x, y);
        assert(s =~= s.drop_last().push(s.last()));
        if t.push(s.last()).contains(y) {
            let i = choose|i: int| 0 <= i < t.push(s.last()).len() && t.push(s.last())[i] == y;
            if i < t.len() {
                assert(t[i] == y);
                if s.drop_last().contains(y) {
                    let j = choose|j: int| 0 <= j < s.drop_last().len() && s.drop_last()[j] == y;
                    assert(s[j] == y);
                }
            } else {
                assert(s[s.len() - 1] == y);
            }
        }
        if s.contains(y) {
            let j = choose|j: int| 0 <= j < s.len() && s[j] == y;
            if j < s.len() - 1 {
                assert(s.drop_last()[j] == y);
                let k = choose|k: int| 0 <= k < t.len() && t[k] == y;
                assert(t.push(s.last())[k] == y);
            } else {
                assert(t.push(s.last())[t.len() as int] == y);
            }
        }
        if y == x {
            let k = choose|k: int| 0 <= k < t.len() && t[k] == y;
            assert(t.push(s.last())[k] == y);
        }
    } else {
        if s.push(x).contains(y) {
            let i = choose|i: int| 0 <= i < s.push(x).len() && s.push(x)[i] == y;
            if i < s.len() {
                assert(s[i] == y);
            }
        }
        if s.contains(y) {
            let j = choose|j: int| 0 <= j < s.len() && s[j] == y;
            assert(s.push(x)[j] == y);
        }
        if y == x {
            assert(s.push(x)[s.len() as int] == y);
        }
    }
}

proof fn lemma_sort_feeds_elems(s: Seq<CustomFeed>, y: CustomFeed)
    ensures
        sort_feeds(s).contains(y) <==> s.contains(y),
    decreases s.len(),
{
    if s.len() > 0 {
        lemma_sort_feeds_elems(s.drop_last(), y);
        lemma_insert_feed_elems(sort_feeds(s.drop_last()), s.last(), y);
        assert(s =~= s.drop_last().push(s.last()));
        if s.contains(y) {
            let j = choose|j: int| 0 <= j < s.len() && s[j] == y;
            if j < s.len() - 1 {
                assert(s.drop_last()[j] == y);
            }
        }
        if s.drop_last().contains(y) {
            let j = choose|j: int| 0 <= j < s.drop_last().len() && s.drop_last()[j] == y;
            assert(s[j] == y);
        }
    }
}

proof fn lemma_without_name_elems(fs: Seq<CustomFeed>, name: Seq<char>, y: CustomFeed)
    ensures
        without_name(fs, name).contains(y) ==> fs.contains(y) && y.name@ != name,
    decreases fs.len(),
{
    if fs.len() > 0 {
        lemma_without_name_elems(fs.drop_last(), name, y);
        let w = without_name(fs.drop_last(), name);
        if without_name(fs, name).contains(y) {
            if fs.last().name@ != name {
                let i = choose|i: int| 0 <= i < w.push(fs.last()).len() && w.push(fs.last())[i] == y;
                if i < w.len() {
                    assert(w[i] == y);
                    let j = choose|j: int| 0 <= j < fs.drop_last().len() && fs.drop_last()[j] == y;
                    assert(fs[j] == y);
                } else {
                    assert(fs[fs.len() - 1] == y);
                }
            } else {
                let j = choose|j: int| 0 <= j < fs.drop_last().len() && fs.drop_last()[j] == y;
                assert(fs[j] == y);
            }
        }
    }
}

/// The one feed of the list whose name matches is the one `/feed/<name>`
/// opens.
proof fn lemma_target_of_unique(s: Seq<CustomFeed>, n: Seq<char>, f: CustomFeed)
    requires
        s.contains(f),
        eq_ignore_ascii_case(f.name@, n),
        forall|i: int| 0 <= i < s.len() && eq_ignore_ascii_case(#[trigger] s[i].name@, n) ==> s[i] == f,
    ensures
        feed_target_spec(s, n) == Some("/r/"@ + f.subreddits@),
    decreases s.len(),
{
    if s.len() > 0 && !eq_ignore_ascii_case(s[0].name@, n) {
        let j = choose|j: int| 0 <= j < s.len() && s[j] == f;
        assert(j != 0);
        assert(s.drop_first()[j - 1] == f);
        assert forall|i: int| 0 <= i < s.drop_first().len() && eq_ignore_ascii_case(#[trigger] s.drop_first()[i].name@, n) implies s.drop_first()[i] == f by {
            assert(s.drop_first()[i] == s[i + 1]);
        }
        lemma_target_of_unique(s.drop_first(), n, f);
    }
}

/// The saved feed of a feed list opens at its own name.
pub open spec fn opens_saved_feed(target: Option<Seq<char>>, n: Seq<char>, raw: Seq<char>) -> bool {
    exists|f: CustomFeed| saved_feed(f, n, raw) && target == Some("/r/"@ + (#[trigger] f.subreddits@))
}

/// A feed saved from the form opens at `/feed/<its name>` with the
/// subreddits it was saved with, when no other feed's name differs from it
/// only in ASCII case.
pub proof fn lemma_saved_feed_opens(result: Seq<CustomFeed>, feeds: Seq<CustomFeed>, n: Seq<char>, raw: Seq<char>)
    requires
        saved_as(result, feeds, n, raw),
        forall|i: int| 0 <= i < feeds.len() && eq_ignore_ascii_case(#[trigger] feeds[i].name@, n) ==> feeds[i].name@ == n,
    ensures
        opens_saved_feed(feed_target_spec(result, n), n, raw),
{
    let f = choose|f: CustomFeed| saved_feed(f, n, raw) && result == sort_feeds(#[trigger] without_name(feeds, n).push(f));
    let l = without_name(feeds, n).push(f);
    assert(l[l.len() - 1] == f);
    lemma_sort_feeds_elems(l, f);
    assert(eq_ignore_ascii_case(f.name@, n));
    assert forall|i: int| 0 <= i < result.len() && eq_ignore_ascii_case(#[trigger] result[i].name@, n) implies result[i] == f by {
        let y = result[i];
        lemma_sort_feeds_elems(l, y);
        let k = choose|k: int| 0 <= k < l.len() && l[k] == y;
        if k < l.len() - 1 {
            let w = without_name(feeds, n);
            assert(w[k] == y);
            lemma_without_name_elems(feeds, n, y);
            let j = choose|j: int| 0 <= j < feeds.len() && feeds[j] == y;
            assert(feeds[j].name@ == n);
            assert(false);
        }
    }
    lemma_target_of_unique(result, n, f);
}

} // verus!
