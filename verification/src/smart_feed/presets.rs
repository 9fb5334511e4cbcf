//! Reading lenses and their presets: which listing each preset fetches. The
//! presets' scores and gates are floating-point formulas kept with the caller.
use vstd::prelude::*;
use crate::text::str_eq;

verus! {

/// A way of reading a channel.
#[derive(Debug, Clone, Copy, PartialEq, Eq, Structural)]
pub enum Lens {
    Reader,
    Research,
    Discussion,
}

impl Lens {
    /// `research` and `discussion` name their lenses; anything else is the
    /// reader lens.
    pub fn parse(s: &str) -> (r: Lens)
        ensures
            r == (if s@ == "research"@ {
                Lens::Research
            } else if s@ == "discussion"@ {
                Lens::Discussion
            } else {
                Lens::Reader
            }),
    {
        if str_eq(s, "research") {
            Lens::Research
        } else if str_eq(s, "discussion") {
            Lens::Discussion
        } else {
            Lens::Reader
        }
    }

    pub fn as_str(&self) -> (r: &'static str)
        ensures
            r@ == lens_name(*self),
    {
        match self {
            Lens::Reader => "reader",
            Lens::Research => "research",
            Lens::Discussion => "discussion",
        }
    }
}

pub open spec fn lens_name(l: Lens) -> Seq<char> {
    match l {
        Lens::Reader => "reader"@,
        Lens::Research => "research"@,
        Lens::Discussion => "discussion"@,
    }
}

/// Reading a lens's name back gives the lens.
pub proof fn lemma_lens_round_trip(l: Lens)
    ensures
        (if lens_name(l) == "research"@ {
            Lens::Research
        } else if lens_name(l) == "discussion"@ {
            Lens::Discussion
        } else {
            Lens::Reader
        }) == l,
{
    reveal_strlit("reader");
    reveal_strlit("research");
    reveal_strlit("discussion");
    assert("reader"@.len() == 6 && "research"@.len() == 8 && "discussion"@.len() == 10);
}

/// What a preset fetches and how it is titled.
#[derive(Debug)]
pub struct PresetInfo {
    pub slug: &'static str,
    pub title: &'static str,
    pub lens: Lens,
    /// `new`, `hot`, `top`, ...
    pub upstream_sort: &'static str,
    /// The time range, only for `top` and `controversial`.
    pub upstream_t: Option<&'static str>,
}

/// The presets by slug: (slug, title, lens, sort, time range).
pub open spec fn preset_table(slug: Seq<char>) -> (Seq<char>, Seq<char>, Lens, Seq<char>, Option<Seq<char>>) {
    if slug == "catchup"@ {
        ("catchup"@, "Catch-up"@, Lens::Reader, "new"@, None)
    } else if slug == "lownoise_text"@ {
        ("lownoise_text"@, "Low-noise (text)"@, Lens::Reader, "new"@, None)
    } else if slug == "deepdives"@ {
        ("deepdives"@, "Deep dives"@, Lens::Research, "top"@, Some("day"@))
    } else if slug == "linktracker"@ {
        ("linktracker"@, "Link tracker"@, Lens::Research, "new"@, None)
    } else if slug == "fresh_proven"@ {
        ("fresh_proven"@, "Fresh but proven"@, Lens::Discussion, "new"@, None)
    } else if slug == "live"@ {
        ("live"@, "Live threads"@, Lens::Discussion, "new"@, None)
    } else {
        ("digest15"@, "Digest (15m)"@, Lens::Reader, "new"@, None)
    }
}

pub open spec fn preset_view(p: PresetInfo) -> (Seq<char>, Seq<char>, Lens, Seq<char>, Option<Seq<char>>) {
    (p.slug@, p.title@, p.lens, p.upstream_sort@, match p.upstream_t {
        Some(t) => Some(t@),
        None => None,
    })
}

fn preset_by_slug(slug: &str) -> (r: PresetInfo)
    ensures
        preset_view(r) == preset_table(slug@),
{
    if str_eq(slug, "catchup") {
        PresetInfo { slug: "catchup", title: "Catch-up", lens: Lens::Reader, upstream_sort: "new", upstream_t: None }
    } else if str_eq(slug, "lownoise_text") {
        PresetInfo { slug: "lownoise_text", title: "Low-noise (text)", lens: Lens::Reader, upstream_sort: "new", upstream_t: None }
    } else if str_eq(slug, "deepdives") {
        PresetInfo { slug: "deepdives", title: "Deep dives", lens: Lens::Research, upstream_sort: "top", upstream_t: Some("day") }
    } else if str_eq(slug, "linktracker") {
        PresetInfo { slug: "linktracker", title: "Link tracker", lens: Lens::Research, upstream_sort: "new", upstream_t: None }
    } else if str_eq(slug, "fresh_proven") {
        PresetInfo { slug: "fresh_proven", title: "Fresh but proven", lens: Lens::Discussion, upstream_sort: "new", upstream_t: None }
    } else if str_eq(slug, "live") {
        PresetInfo { slug: "live", title: "Live threads", lens: Lens::Discussion, upstream_sort: "new", upstream_t: None }
    } else {
        PresetInfo { slug: "digest15", title: "Digest (15m)", lens: Lens::Reader, upstream_sort: "new", upstream_t: None }
    }
}

/// The preset a lens and slug select: a slug counts only under its own lens;
/// anything else gets the reader digest.
pub open spec fn preset_spec(lens: Lens, slug: Seq<char>) -> (Seq<char>, Seq<char>, Lens, Seq<char>, Option<Seq<char>>) {
    let p = preset_table(slug);
    if p.0 == slug && p.2 == lens { p } else { preset_table("digest15"@) }
}

pub fn preset(lens: Lens, slug: &str) -> (r: PresetInfo)
    ensures
        preset_view(r) == preset_spec(lens, slug@),
{
    let p = preset_by_slug(slug);
    if str_eq(p.slug, slug) && p.lens == lens {
        p
    } else {
        preset_by_slug("digest15")
    }
}

/// The preset a lens opens with.
pub fn default_preset(lens: Lens) -> (r: PresetInfo)
    ensures
        preset_view(r) == preset_table(match lens {
            Lens::Reader => "digest15"@,
            Lens::Research => "deepdives"@,
            Lens::Discussion => "live"@,
        }),
{
    match lens {
        Lens::Reader => preset_by_slug("digest15"),
        Lens::Research => preset_by_slug("deepdives"),
        Lens::Discussion => preset_by_slug("live"),
    }
}

} // verus!
