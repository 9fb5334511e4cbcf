//! Channels: a named rule saying which subreddits feed a reader view and
//! which posts it keeps, and the form that creates or edits one.
use vstd::prelude::*;
use crate::text::{
    ascii_alnum, ascii_lower, chars_of, is_ascii_alnum, owned, parse_i64, parse_i64_spec, push_char, push_string,
    str_eq, string_of, trim, trim_seq, views,
};
use crate::crypto::view_string;
use vstd::utf8::encode_utf8;

verus! {

/// Where a channel's posts come from.
#[derive(Debug)]
pub struct Sources {
    /// Include the user's subscriptions.
    pub subscriptions: bool,
    pub subreddits: Vec<String>,
}

/// Which posts a channel keeps.
#[derive(Debug)]
pub struct Filters {
    pub include_keywords: Vec<String>,
    pub exclude_keywords: Vec<String>,
    pub domains_allow: Vec<String>,
    pub domains_block: Vec<String>,
    pub media_types: Vec<String>,
    /// `show`, `blur` or `hide`.
    pub nsfw: String,
}

/// Minimum engagement and maximum age.
#[derive(Debug)]
pub struct Gates {
    pub min_comments: i64,
    pub min_score: i64,
    pub max_age_hours: i64,
}

/// How a channel is shown.
#[derive(Debug)]
pub struct Presentation {
    /// `on` or `off`.
    pub clusters: String,
    /// `comfort`, `balanced` or `dense`.
    pub density: String,
}

#[derive(Debug)]
pub struct ChannelRule {
    pub sources: Sources,
    pub filters: Filters,
    pub gates: Gates,
    pub presentation: Presentation,
}

/// The media types a new channel shows: all of them.
pub open spec fn all_media_types() -> Seq<Seq<char>> {
    seq!["self"@, "link"@, "image"@, "video"@, "gif"@, "gallery"@]
}

/// Filters that keep every post type, hide NSFW posts and have no keyword or
/// domain lists.
pub open spec fn default_filters(f: Filters) -> bool {
    &&& f.include_keywords@.len() == 0
    &&& f.exclude_keywords@.len() == 0
    &&& f.domains_allow@.len() == 0
    &&& f.domains_block@.len() == 0
    &&& views(f.media_types@) == all_media_types()
    &&& f.nsfw@ == "hide"@
}

pub fn default_filter_set() -> (f: Filters)
    ensures
        default_filters(f),
{
    let mut media: Vec<String> = Vec::new();
    push_string(&mut media, "self");
    push_string(&mut media, "link");
    push_string(&mut media, "image");
    push_string(&mut media, "video");
    push_string(&mut media, "gif");
    push_string(&mut media, "gallery");
    assert(views(media@) =~= all_media_types());
    Filters {
        include_keywords: Vec::new(),
        exclude_keywords: Vec::new(),
        domains_allow: Vec::new(),
        domains_block: Vec::new(),
        media_types: media,
        nsfw: owned("hide"),
    }
}

/// The rule of a new channel: subscriptions as the source, default filters, no
/// engagement gates, posts up to three days old, clusters on, balanced density.
pub open spec fn is_default_rule(r: ChannelRule) -> bool {
    &&& r.sources.subscriptions
    &&& r.sources.subreddits@.len() == 0
    &&& default_filters(r.filters)
    &&& r.gates.min_comments == 0 && r.gates.min_score == 0 && r.gates.max_age_hours == 72
    &&& r.presentation.clusters@ == "on"@
    &&& r.presentation.density@ == "balanced"@
}

impl Default for ChannelRule {
    fn default() -> (r: ChannelRule)
        ensures
            is_default_rule(r),
    {
        ChannelRule {
            sources: Sources { subscriptions: true, subreddits: Vec::new() },
            filters: default_filter_set(),
            gates: Gates { min_comments: 0, min_score: 0, max_age_hours: 72 },
            presentation: Presentation { clusters: owned("on"), density: owned("balanced") },
        }
    }
}

// ----- slugs -----

/// Building a slug from a title, left to right: ASCII letters and digits are
/// kept in lower case, and each run of other characters after some kept one
/// becomes one hyphen. The flag says whether the slug so far ends a run.
pub open spec fn slug_scan(s: Seq<char>) -> (Seq<char>, bool)
    decreases s.len(),
{
    if s.len() == 0 {
        (seq![], true)
    } else {
        let (out, hyphen) = slug_scan(s.drop_last());
        let c = s.last();
        if is_ascii_alnum(c) {
            (out.push(ascii_lower(c)), false)
        } else if !hyphen {
            (out.push('-'), true)
        } else {
            (out, hyphen)
        }
    }
}

/// Without trailing hyphens.
pub open spec fn strip_hyphens(s: Seq<char>) -> Seq<char>
    decreases s.len(),
{
    if s.len() > 0 && s.last() == '-' { strip_hyphens(s.drop_last()) } else { s }
}

/// The slug of a title: the scan without trailing hyphens, cut to fifty
/// characters.
pub open spec fn slug_spec(title: Seq<char>) -> Seq<char> {
    let s = strip_hyphens(slug_scan(title).0);
    if s.len() > 50 { s.take(50) } else { s }
}

pub fn title_to_slug(title: &str) -> (r: String)
    ensures
        r@ == slug_spec(title@),
{
    let cs = chars_of(title);
    let mut out: Vec<char> = Vec::new();
    let mut hyphen = true;
    let mut i: usize = 0;
    while i < cs.len()
        invariant
            i <= cs@.len(),
            (out@, hyphen) == slug_scan(cs@.take(i as int)),
        decreases cs@.len() - i,
    {
        assert(cs@.take(i + 1).drop_last() =~= cs@.take(i as int));
        let c = cs[i];
        if ascii_alnum(c) {
            out.push(crate::text::to_ascii_lower(c));
            hyphen = false;
        } else if !hyphen {
            out.push('-');
            hyphen = true;
        }
        i += 1;
    }
    assert(cs@.take(i as int) =~= title@);
    while out.len() > 0 && out[out.len() - 1] == '-'
        invariant
            strip_hyphens(out@) == strip_hyphens(slug_scan(title@).0),
        decreases out@.len(),
    {
        out.pop();
    }
    if out.len() > 50 {
        out.truncate(50);
    }
    string_of(&out)
}

/// A slug is 1 to 50 ASCII letters, digits and hyphens, and not `my-subs`
/// (the built-in channel).
pub open spec fn slug_ok(s: Seq<char>) -> bool {
    &&& s.len() > 0
    &&& s.len() <= 50
    &&& s != "my-subs"@
    &&& forall|i: int| 0 <= i < s.len() ==> is_ascii_alnum(#[trigger] s[i]) || s[i] == '-'
}

pub fn valid_slug(s: &str) -> (r: bool)
    ensures
        r == slug_ok(s@),
{
    let cs = chars_of(s);
    if cs.len() == 0 || cs.len() > 50 || str_eq(s, "my-subs") {
        return false;
    }
    let mut i: usize = 0;
    while i < cs.len()
        invariant
            cs@ == s@,
            i <= cs@.len(),
            forall|j: int| 0 <= j < i ==> is_ascii_alnum(#[trigger] cs@[j]) || cs@[j] == '-',
        decreases cs@.len() - i,
    {
        if !(ascii_alnum(cs[i]) || cs[i] == '-') {
            return false;
        }
        i += 1;
    }
    true
}

// ----- subreddit lists -----

pub open spec fn list_sep(c: char) -> bool {
    c == '\n' || c == ',' || c == ' '
}

/// The pieces between separators (newline, comma, space), empty ones
/// included, as `str::split` yields them.
pub open spec fn split_list(s: Seq<char>) -> Seq<Seq<char>>
    decreases s.len(),
{
    if s.len() == 0 {
        seq![seq![]]
    } else {
        let w = split_list(s.drop_last());
        if list_sep(s.last()) {
            w.push(seq![])
        } else {
            w.update(w.len() - 1, w.last().push(s.last()))
        }
    }
}

proof fn lemma_split_list_nonempty(s: Seq<char>)
    ensures
        split_list(s).len() > 0,
    decreases s.len(),
{
    if s.len() > 0 {
        lemma_split_list_nonempty(s.drop_last());
    }
}

/// A subreddit name: 1 to 21 ASCII letters, digits and underscores.
pub open spec fn sub_name_ok(s: Seq<char>) -> bool {
    s.len() > 0 && s.len() <= 21 && forall|i: int| 0 <= i < s.len() ==> is_ascii_alnum(#[trigger] s[i]) || s[i] == '_'
}

/// The trimmed pieces that are subreddit names, in order.
pub open spec fn keep_names(pieces: Seq<Seq<char>>) -> Seq<Seq<char>>
    decreases pieces.len(),
{
    if pieces.len() == 0 {
        seq![]
    } else if sub_name_ok(trim_seq(pieces.last())) {
        keep_names(pieces.drop_last()).push(trim_seq(pieces.last()))
    } else {
        keep_names(pieces.drop_last())
    }
}

pub open spec fn parse_subreddits_spec(input: Seq<char>) -> Seq<Seq<char>> {
    keep_names(split_list(input))
}

fn name_ok(s: &Vec<char>) -> (r: bool)
    ensures
        r == sub_name_ok(s@),
{
    if s.len() == 0 || s.len() > 21 {
        return false;
    }
    let mut i: usize = 0;
    while i < s.len()
        invariant
            i <= s@.len(),
            forall|j: int| 0 <= j < i ==> is_ascii_alnum(#[trigger] s@[j]) || s@[j] == '_',
        decreases s@.len() - i,
    {
        if !(ascii_alnum(s[i]) || s[i] == '_') {
            return false;
        }
        i += 1;
    }
    true
}

/// The subreddit names in a comma-, space- or newline-separated list; pieces
/// that are not valid names are dropped.
pub fn parse_subreddits(input: &str) -> (r: Vec<String>)
    ensures
        views(r@) == parse_subreddits_spec(input@),
{
    let cs = chars_of(input);
    let mut pieces: Vec<Vec<char>> = Vec::new();
    pieces.push(Vec::new());
    let mut i: usize = 0;
    assert(cs@.take(0) =~= Seq::<char>::empty());
    while i < cs.len()
        invariant
            i <= cs@.len(),
            pieces@.len() == split_list(cs@.take(i as int)).len(),
            forall|k: int| 0 <= k < pieces@.len() ==> #[trigger] pieces@[k]@ == split_list(cs@.take(i as int))[k],
        decreases cs@.len() - i,
    {
        assert(cs@.take(i + 1).drop_last() =~= cs@.take(i as int));
        proof {
            lemma_split_list_nonempty(cs@.take(i as int));
        }
        let c = cs[i];
        if c == '\n' || c == ',' || c == ' ' {
            pieces.push(Vec::new());
        } else {
            let last = pieces.len() - 1;
            let mut w = pieces.pop().unwrap();
            w.push(c);
            pieces.push(w);
            assert(pieces@[last as int]@ == split_list(cs@.take(i + 1))[last as int]);
        }
        i += 1;
    }
    assert(cs@.take(i as int) =~= input@);
    let ghost all = split_list(input@);
    let mut out: Vec<String> = Vec::new();
    let mut k: usize = 0;
    while k < pieces.len()
        invariant
            k <= pieces@.len(),
            pieces@.len() == all.len(),
            forall|j: int| 0 <= j < pieces@.len() ==> #[trigger] pieces@[j]@ == all[j],
            views(out@) == keep_names(all.take(k as int)),
        decreases pieces@.len() - k,
    {
        assert(all.take(k + 1).drop_last() =~= all.take(k as int));
        let piece = string_of(&pieces[k]);
        let t = trim(piece.as_str());
        let tc = chars_of(t.as_str());
        if name_ok(&tc) {
            push_string(&mut out, t.as_str());
        }
        k += 1;
    }
    assert(all.take(k as int) =~= all);
    out
}

// ----- the channel form -----

/// The channel form's fields, each absent when not submitted.
#[derive(Debug)]
pub struct ChannelForm {
    pub title: Option<String>,
    pub slug: Option<String>,
    pub sources_subscriptions: Option<String>,
    pub sources_subreddits: Option<String>,
    pub gate_min_comments: Option<String>,
    pub gate_min_score: Option<String>,
    pub gate_max_age_hours: Option<String>,
    pub presentation_clusters: Option<String>,
    pub presentation_density: Option<String>,
}

pub open spec fn field(f: Option<String>) -> Option<Seq<char>> {
    view_string(f)
}

/// An integer field: its value when it parses as an `i64`, else the default.
pub open spec fn int_field(f: Option<Seq<char>>, default: int) -> int {
    match f {
        Some(s) => match parse_i64_spec(s) {
            Some(v) => v,
            None => default,
        },
        None => default,
    }
}

pub open spec fn max0(v: int) -> int {
    if v < 0 { 0 } else { v }
}

/// The rule a submitted form describes: subscriptions when the box reads
/// `on`, the listed subreddits, default filters, gates from the numbers
/// (negative comment and age limits count as zero; the age limit defaults to
/// 72 hours), clusters off only when asked, and the density as given
/// (`balanced` by default).
pub open spec fn form_rule_ok(form: ChannelForm, r: ChannelRule) -> bool {
    &&& r.sources.subscriptions == (field(form.sources_subscriptions) == Some("on"@))
    &&& views(r.sources.subreddits@) == match field(form.sources_subreddits) {
        Some(s) => parse_subreddits_spec(s),
        None => Seq::<Seq<char>>::empty(),
    }
    &&& default_filters(r.filters)
    &&& r.gates.min_comments == max0(int_field(field(form.gate_min_comments), 0))
    &&& r.gates.min_score == int_field(field(form.gate_min_score), 0)
    &&& r.gates.max_age_hours == max0(int_field(field(form.gate_max_age_hours), 72))
    &&& r.presentation.clusters@ == (if field(form.presentation_clusters) == Some("off"@) { "off"@ } else { "on"@ })
    &&& r.presentation.density@ == match field(form.presentation_density) {
        Some(d) => d,
        None => "balanced"@,
    }
}

fn int_or(f: &Option<String>, default: i64) -> (r: i64)
    ensures
        r == int_field(field(*f), default as int),
{
    match f {
        Some(s) => match parse_i64(s.as_str()) {
            Some(v) => v,
            None => default,
        },
        None => default,
    }
}

fn is_exactly(f: &Option<String>, word: &str) -> (r: bool)
    ensures
        r == (field(*f) == Some(word@)),
{
    match f {
        Some(s) => str_eq(s.as_str(), word),
        None => false,
    }
}

/// The rule described by the form's source, gate and presentation fields.
pub fn rule_from_form(form: &ChannelForm) -> (r: ChannelRule)
    ensures
        form_rule_ok(*form, r),
{
    let subscriptions = is_exactly(&form.sources_subscriptions, "on");
    let subreddits = match &form.sources_subreddits {
        Some(s) => parse_subreddits(s.as_str()),
        None => Vec::new(),
    };
    assert(form.sources_subreddits is None ==> views(subreddits@) =~= Seq::<Seq<char>>::empty());
    let mc = int_or(&form.gate_min_comments, 0);
    let min_comments = if mc < 0 { 0 } else { mc };
    let min_score = int_or(&form.gate_min_score, 0);
    let ma = int_or(&form.gate_max_age_hours, 72);
    let max_age_hours = if ma < 0 { 0 } else { ma };
    let clusters = if is_exactly(&form.presentation_clusters, "off") { owned("off") } else { owned("on") };
    let density = match &form.presentation_density {
        Some(d) => d.clone(),
        None => owned("balanced"),
    };
    ChannelRule {
        sources: Sources { subscriptions, subreddits },
        filters: default_filter_set(),
        gates: Gates { min_comments, min_score, max_age_hours },
        presentation: Presentation { clusters, density },
    }
}

/// Checks of a new channel, in order: a title (trimmed) is required and at
/// most 100 bytes; the slug is the trimmed one given, or else made from the
/// title, and must be valid; there must be a source.
pub open spec fn channel_form_check(form: ChannelForm) -> Result<(Seq<char>, Seq<char>), Seq<char>> {
    let title = match field(form.title) {
        Some(t) => trim_seq(t),
        None => Seq::<char>::empty(),
    };
    let slug_given = match field(form.slug) {
        Some(s) => trim_seq(s),
        None => Seq::<char>::empty(),
    };
    let slug = if slug_given.len() == 0 { slug_spec(title) } else { slug_given };
    let subs = match field(form.sources_subreddits) {
        Some(s) => parse_subreddits_spec(s),
        None => Seq::<Seq<char>>::empty(),
    };
    if title.len() == 0 {
        Err("Channel name is required."@)
    } else if encode_utf8(title).len() > 100 {
        Err("Channel name must be 100 characters or fewer."@)
    } else if !slug_ok(slug) {
        Err("Slug must be 1\u{2013}50 lowercase alphanumeric characters and hyphens (not 'my-subs')."@)
    } else if !(field(form.sources_subscriptions) == Some("on"@)) && subs.len() == 0 {
        Err("At least one source is required: enable subscriptions or add subreddits."@)
    } else {
        Ok((title, slug))
    }
}

fn trimmed_field(f: &Option<String>) -> (r: String)
    ensures
        r@ == match field(*f) {
            Some(t) => trim_seq(t),
            None => Seq::<char>::empty(),
        },
{
    match f {
        Some(t) => trim(t.as_str()),
        None => String::new(),
    }
}

/// Reads the form of a new channel: its title, slug and rule, or the first
/// problem found.
pub fn parse_channel_form(form: &ChannelForm) -> (r: Result<(String, String, ChannelRule), String>)
    ensures
        match r {
            Ok((title, slug, rule)) => channel_form_check(*form) == Ok::<(Seq<char>, Seq<char>), Seq<char>>((title@, slug@))
                && form_rule_ok(*form, rule),
            Err(e) => channel_form_check(*form) == Err::<(Seq<char>, Seq<char>), Seq<char>>(e@),
        },
{
    let title = trimmed_field(&form.title);
    if title.as_str().is_empty() {
        return Err(owned("Channel name is required."));
    }
    if title.as_str().as_bytes().len() > 100 {
        return Err(owned("Channel name must be 100 characters or fewer."));
    }
    let slug_raw = trimmed_field(&form.slug);
    let slug = if slug_raw.as_str().is_empty() { title_to_slug(title.as_str()) } else { slug_raw };
    if !valid_slug(slug.as_str()) {
        return Err(owned("Slug must be 1\u{2013}50 lowercase alphanumeric characters and hyphens (not 'my-subs')."));
    }
    let rule = rule_from_form(form);
    if !rule.sources.subscriptions && rule.sources.subreddits.len() == 0 {
        return Err(owned("At least one source is required: enable subscriptions or add subreddits."));
    }
    Ok((title, slug, rule))
}

/// Reads the form that edits a channel: only the title is checked.
pub fn parse_channel_update(form: &ChannelForm) -> (r: Result<(String, ChannelRule), String>)
    ensures
        match r {
            Ok((title, rule)) => field(form.title) is Some && title@ == trim_seq(field(form.title)->0) && title@.len() > 0
                && form_rule_ok(*form, rule),
            Err(e) => (field(form.title) is None || trim_seq(field(form.title)->0).len() == 0)
                && e@ == "Channel name is required."@,
        },
{
    let title = trimmed_field(&form.title);
    if title.as_str().is_empty() {
        return Err(owned("Channel name is required."));
    }
    Ok((title, rule_from_form(form)))
}

} // verus!

verus! {

/// A slug character: an ASCII lower-case letter or digit, or a hyphen.
pub open spec fn slug_char(c: char) -> bool {
    ('a' <= c <= 'z') || ('0' <= c <= '9') || c == '-'
}

proof fn lemma_slug_scan_chars(s: Seq<char>)
    ensures
        forall|i: int| 0 <= i < slug_scan(s).0.len() ==> slug_char(#[trigger] slug_scan(s).0[i]),
    decreases s.len(),
{
    if s.len() > 0 {
        lemma_slug_scan_chars(s.drop_last());
        let (out, hyphen) = slug_scan(s.drop_last());
        let c = s.last();
        if is_ascii_alnum(c) {
            assert(slug_char(ascii_lower(c)));
            assert forall|i: int| 0 <= i < slug_scan(s).0.len() implies slug_char(#[trigger] slug_scan(s).0[i]) by {
                if i < out.len() {
                    assert(slug_scan(s).0[i] == out[i]);
                }
            }
        } else if !hyphen {
            assert forall|i: int| 0 <= i < slug_scan(s).0.len() implies slug_char(#[trigger] slug_scan(s).0[i]) by {
                if i < out.len() {
                    assert(slug_scan(s).0[i] == out[i]);
                }
            }
        }
    }
}

proof fn lemma_strip_hyphens_prefix(s: Seq<char>)
    ensures
        strip_hyphens(s).len() <= s.len(),
        forall|i: int| 0 <= i < strip_hyphens(s).len() ==> #[trigger] strip_hyphens(s)[i] == s[i],
    decreases s.len(),
{
    if s.len() > 0 && s.last() == '-' {
        lemma_strip_hyphens_prefix(s.drop_last());
    }
}

/// A slug made from a title is valid exactly when it is not empty and not
/// `my-subs`: it only holds lower-case letters, digits and hyphens, and at
/// most fifty of them.
pub proof fn lemma_title_slug_valid(title: Seq<char>)
    ensures
        slug_ok(slug_spec(title)) <==> (slug_spec(title).len() > 0 && slug_spec(title) != "my-subs"@),
{
    let raw = slug_scan(title).0;
    lemma_slug_scan_chars(title);
    lemma_strip_hyphens_prefix(raw);
    let s = strip_hyphens(raw);
    let r = slug_spec(title);
    assert forall|i: int| 0 <= i < r.len() implies is_ascii_alnum(#[trigger] r[i]) || r[i] == '-' by {
        assert(r[i] == s[i]);
        assert(s[i] == raw[i]);
        assert(slug_char(raw[i]));
    }
}

} // verus!
