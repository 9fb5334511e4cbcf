//! Checks and request bodies of the signed-in actions: voting, saving,
//! commenting, editing, submitting posts and private messages.
use vstd::prelude::*;
use crate::auth::opt_str;
use crate::login::pct;
use crate::crypto::percent_encode;
use crate::text::{
    concat2, dec_int, i64_to_string, owned, parse_i8, parse_int_spec, push_str, starts_with_seq, str_eq,
    str_starts_with, to_lowercase, trim, trim_seq, unicode_lower, is_ascii_alnum, ascii_alnum, chars_of, string_of,
};
use vstd::utf8::encode_utf8;

verus! {

/// A redirect target must be a path on this site: it starts with `/` but not
/// `//` (a protocol-relative address); anything else becomes `/`.
pub open spec fn safe_return_spec(raw: Seq<char>) -> Seq<char> {
    if starts_with_seq(raw, "/"@) && !starts_with_seq(raw, "//"@) { raw } else { "/"@ }
}

pub fn safe_return_to(raw: &str) -> (r: &str)
    ensures
        r@ == safe_return_spec(raw@),
{
    if str_starts_with(raw, "/") && !str_starts_with(raw, "//") { raw } else { "/" }
}

/// `&`, `<`, `>` and `"` escaped for HTML.
pub open spec fn html_escape_spec(s: Seq<char>) -> Seq<char>
    decreases s.len(),
{
    if s.len() == 0 {
        seq![]
    } else {
        html_escape_spec(s.drop_last()) + if s.last() == '&' {
            "&amp;"@
        } else if s.last() == '<' {
            "&lt;"@
        } else if s.last() == '>' {
            "&gt;"@
        } else if s.last() == '"' {
            "&quot;"@
        } else {
            seq![s.last()]
        }
    }
}

pub fn html_escape(s: &str) -> (r: String)
    ensures
        r@ == html_escape_spec(s@),
{
    let cs = chars_of(s);
    let mut out = String::new();
    let mut i: usize = 0;
    while i < cs.len()
        invariant
            i <= cs@.len(),
            out@ == html_escape_spec(cs@.take(i as int)),
        decreases cs@.len() - i,
    {
        assert(cs@.take(i + 1).drop_last() =~= cs@.take(i as int));
        let c = cs[i];
        if c == '&' {
            push_str(&mut out, "&amp;");
        } else if c == '<' {
            push_str(&mut out, "&lt;");
        } else if c == '>' {
            push_str(&mut out, "&gt;");
        } else if c == '"' {
            push_str(&mut out, "&quot;");
        } else {
            crate::text::push_char(&mut out, c);
            assert(out@ =~= html_escape_spec(cs@.take(i + 1)));
        }
        i += 1;
    }
    assert(cs@.take(i as int) =~= s@);
    out
}

/// The `Go to subreddit` box: every character that is not an ASCII letter,
/// digit or underscore becomes `_`, and underscores are trimmed from both
/// ends; the result is used when it is 1 to 21 characters.
pub open spec fn go_sanitize(s: Seq<char>) -> Seq<char> {
    s.map_values(|c: char| if is_ascii_alnum(c) || c == '_' { c } else { '_' })
}

pub open spec fn trim_underscores(s: Seq<char>) -> Seq<char>
    decreases s.len(),
{
    if s.len() > 0 && s[0] == '_' {
        trim_underscores(s.drop_first())
    } else if s.len() > 0 && s.last() == '_' {
        trim_underscores(s.drop_last())
    } else {
        s
    }
}

pub open spec fn go_target_spec(r: Seq<char>) -> Option<Seq<char>> {
    let t = trim_seq(r);
    let sub = trim_underscores(go_sanitize(t));
    if t.len() > 0 && sub.len() > 0 && sub.len() <= 21 { Some("/r/"@ + sub) } else { None }
}

pub fn go_target(r: &str) -> (out: Option<String>)
    ensures
        crate::crypto::view_string(out) == go_target_spec(r@),
{
    let t = trim(r);
    if t.as_str().is_empty() {
        return None;
    }
    let cs = chars_of(t.as_str());
    let mut san: Vec<char> = Vec::new();
    let mut i: usize = 0;
    while i < cs.len()
        invariant
            i <= cs@.len(),
            san@ == go_sanitize(cs@.take(i as int)),
        decreases cs@.len() - i,
    {
        let c = cs[i];
        san.push(if ascii_alnum(c) || c == '_' { c } else { '_' });
        i += 1;
        assert(san@ =~= go_sanitize(cs@.take(i as int)));
    }
    assert(cs@.take(i as int) =~= cs@);
    let mut lo: usize = 0;
    let mut hi: usize = san.len();
    assert(san@.subrange(0, hi as int) =~= san@);
    while lo < hi && san[lo] == '_'
        invariant
            lo <= hi == san@.len(),
            trim_underscores(san@) == trim_underscores(san@.subrange(lo as int, hi as int)),
        decreases hi - lo,
    {
        assert(san@.subrange(lo as int, hi as int).drop_first() =~= san@.subrange(lo + 1, hi as int));
        lo += 1;
    }
    while lo < hi && san[hi - 1] == '_'
        invariant
            lo <= hi <= san@.len(),
            lo < hi ==> san@[lo as int] != '_',
            trim_underscores(san@) == trim_underscores(san@.subrange(lo as int, hi as int)),
        decreases hi - lo,
    {
        let ghost m = san@.subrange(lo as int, hi as int);
        assert(m.drop_last() =~= san@.subrange(lo as int, hi - 1));
        assert(m[0] == san@[lo as int]);
        hi -= 1;
    }
    let sub = crate::text::sub_chars(&san, lo, hi);
    proof {
        let m = san@.subrange(lo as int, hi as int);
        if m.len() > 0 {
            assert(m[0] == san@[lo as int]);
            assert(m.last() == san@[hi - 1]);
        }
    }
    if sub.len() == 0 || sub.len() > 21 {
        return None;
    }
    Some(concat2("/r/", string_of(&sub).as_str()))
}

/// The bearer token of an `Authorization: Bearer <token>` header, when it is
/// not empty.
pub fn bearer_from_header(header: Option<&str>) -> (r: Option<String>)
    ensures
        crate::crypto::view_string(r) == match header {
            Some(h) => if starts_with_seq(h@, "Bearer "@) && h@.len() > 7 { Some(h@.skip(7)) } else { None },
            None => None,
        },
{
    match header {
        Some(h) => {
            if str_starts_with(h, "Bearer ") {
                proof {
                    reveal_strlit("Bearer ");
                }
                let cs = chars_of(h);
                let n = cs.len();
                if n > 7 {
                    let t = crate::text::sub_chars(&cs, 7, n);
                    assert(t@ =~= h@.skip(7));
                    return Some(string_of(&t));
                }
            }
            None
        },
        None => None,
    }
}

/// A Reddit "thing" that can be voted on, replied to or edited: a comment
/// (`t1_`) or a post (`t3_`).
pub open spec fn thing_ok(id: Seq<char>) -> bool {
    starts_with_seq(id, "t1_"@) || starts_with_seq(id, "t3_"@)
}

pub fn is_thing_id(id: &str) -> (r: bool)
    ensures
        r == thing_ok(id@),
{
    str_starts_with(id, "t1_") || str_starts_with(id, "t3_")
}

/// Checks of the vote form: the thing and direction are required, the
/// direction must parse as an `i8` and be 1, 0 or -1, and the thing must be a
/// comment or post.
pub fn check_vote(thing_id: Option<&str>, dir: Option<&str>) -> (r: Result<(String, i8), String>)
    ensures
        match r {
            Ok((t, d)) => thing_id is Some && dir is Some && t@ == thing_id->0@
                && parse_int_spec(dir->0@, -128, 127, true) == Some(d as int) && -1 <= d <= 1 && thing_ok(t@),
            Err(e) => if thing_id is None {
                e@ == "Missing 'thing_id' in vote form"@
            } else if dir is None {
                e@ == "Missing 'dir' in vote form"@
            } else {
                match parse_int_spec(dir->0@, -128, 127, true) {
                    None => e@ == "Invalid vote direction '"@ + dir->0@ + "' \u{2014} must be 1, 0, or -1"@,
                    Some(d) => if !(-1 <= d <= 1) {
                        e@ == "Invalid vote direction "@ + dec_int(d) + " \u{2014} must be 1, 0, or -1"@
                    } else {
                        !thing_ok(thing_id->0@) && e@ == "Invalid thing_id '"@ + thing_id->0@ + "' \u{2014} expected t1_ or t3_ prefix"@
                    },
                }
            },
        },
{
    let t = match thing_id {
        Some(t) => t,
        None => {
            return Err(owned("Missing 'thing_id' in vote form"));
        },
    };
    let ds = match dir {
        Some(d) => d,
        None => {
            return Err(owned("Missing 'dir' in vote form"));
        },
    };
    let d = match parse_i8(ds) {
        Some(d) => d,
        None => {
            let mut m = owned("Invalid vote direction '");
            push_str(&mut m, ds);
            push_str(&mut m, "' \u{2014} must be 1, 0, or -1");
            return Err(m);
        },
    };
    if d < -1 || d > 1 {
        let mut m = owned("Invalid vote direction ");
        push_str(&mut m, i64_to_string(d as i64).as_str());
        push_str(&mut m, " \u{2014} must be 1, 0, or -1");
        return Err(m);
    }
    if !is_thing_id(t) {
        let mut m = owned("Invalid thing_id '");
        push_str(&mut m, t);
        push_str(&mut m, "' \u{2014} expected t1_ or t3_ prefix");
        return Err(m);
    }
    Ok((owned(t), d))
}

/// Body of Reddit's vote call.
pub fn vote_body(thing_id: &str, dir: i8) -> (r: String)
    ensures
        r@ == "id="@ + pct(thing_id@) + "&dir="@ + dec_int(dir as int) + "&rank=10"@,
{
    let mut b = owned("id=");
    push_str(&mut b, percent_encode(thing_id).as_str());
    push_str(&mut b, "&dir=");
    push_str(&mut b, i64_to_string(dir as i64).as_str());
    push_str(&mut b, "&rank=10");
    b
}

/// Body of a call naming one thing: `id=<thing>`.
pub fn id_body(thing_id: &str) -> (r: String)
    ensures
        r@ == "id="@ + pct(thing_id@),
{
    concat2("id=", percent_encode(thing_id).as_str())
}

/// The save form's endpoint: `unsave` asks for `/api/unsave`, anything else
/// saves.
pub fn save_endpoint(action: Option<&str>) -> (r: &'static str)
    ensures
        r@ == (if opt_str(action) == Some("unsave"@) { "/api/unsave"@ } else { "/api/save"@ }),
{
    match action {
        Some(a) => if str_eq(a, "unsave") { "/api/unsave" } else { "/api/save" },
        None => "/api/save",
    }
}

/// Checks of a reply: a parent and a text are required (both trimmed); the
/// parent must be a comment or post; the text must not be empty nor longer
/// than 10000 bytes.
pub fn check_comment(parent: Option<&str>, text: Option<&str>) -> (r: Result<(String, String), String>)
    ensures
        match r {
            Ok((p, t)) => parent is Some && text is Some && p@ == trim_seq(parent->0@) && t@ == trim_seq(text->0@)
                && thing_ok(p@) && t@.len() > 0 && encode_utf8(t@).len() <= 10000,
            Err(e) => if parent is None {
                e@ == "Missing 'parent' (thing ID)"@
            } else if text is None {
                e@ == "Missing 'text'"@
            } else if !thing_ok(trim_seq(parent->0@)) {
                e@ == "Invalid parent: must be t1_ (comment) or t3_ (post)"@
            } else if trim_seq(text->0@).len() == 0 {
                e@ == "Comment text cannot be empty"@
            } else {
                encode_utf8(trim_seq(text->0@)).len() > 10000 && e@ == "Comment too long (max 10000 characters)"@
            },
        },
{
    let p = match parent {
        Some(p) => trim(p),
        None => {
            return Err(owned("Missing 'parent' (thing ID)"));
        },
    };
    let t = match text {
        Some(t) => trim(t),
        None => {
            return Err(owned("Missing 'text'"));
        },
    };
    if !is_thing_id(p.as_str()) {
        return Err(owned("Invalid parent: must be t1_ (comment) or t3_ (post)"));
    }
    if t.as_str().is_empty() {
        return Err(owned("Comment text cannot be empty"));
    }
    if t.as_str().as_bytes().len() > 10000 {
        return Err(owned("Comment too long (max 10000 characters)"));
    }
    Ok((p, t))
}

/// Body of Reddit's comment call.
pub fn comment_body(parent: &str, text: &str) -> (r: String)
    ensures
        r@ == "api_type=json&parent="@ + pct(parent@) + "&text="@ + pct(text@),
{
    let mut b = owned("api_type=json&parent=");
    push_str(&mut b, percent_encode(parent).as_str());
    push_str(&mut b, "&text=");
    push_str(&mut b, percent_encode(text).as_str());
    b
}

/// What an edit form asks for.
#[derive(Debug, PartialEq, Eq, Structural)]
pub enum EditAction {
    Edit,
    Delete,
}

/// Checks of the edit form: the thing (trimmed) is required and must be a
/// comment or post; the action is `delete` in any case, else edit.
pub fn check_edit(thing_id: Option<&str>, action: Option<&str>) -> (r: Result<(String, EditAction), String>)
    ensures
        match r {
            Ok((t, a)) => t@ == trim_seq(thing_id->0@) && t@.len() > 0 && thing_ok(t@)
                && (a == EditAction::Delete <==> unicode_lower(action->0@) == "delete"@ && action is Some),
            Err(e) => {
                let t = match thing_id {
                    Some(x) => trim_seq(x@),
                    None => Seq::<char>::empty(),
                };
                if t.len() == 0 {
                    e@ == "Missing thing_id."@
                } else {
                    !thing_ok(t) && e@ == "Invalid thing_id: must be t1_ (comment) or t3_ (post)."@
                }
            },
        },
{
    let t = match thing_id {
        Some(x) => trim(x),
        None => String::new(),
    };
    if t.as_str().is_empty() {
        return Err(owned("Missing thing_id."));
    }
    if !is_thing_id(t.as_str()) {
        return Err(owned("Invalid thing_id: must be t1_ (comment) or t3_ (post)."));
    }
    let a = match action {
        Some(a) => if str_eq(to_lowercase(a).as_str(), "delete") { EditAction::Delete } else { EditAction::Edit },
        None => EditAction::Edit,
    };
    Ok((t, a))
}

/// An edited text may be at most 40000 bytes.
pub fn check_edit_text(text: &str) -> (r: Result<(), String>)
    ensures
        r is Err <==> encode_utf8(text@).len() > 40000,
        r matches Err(e) ==> e@ == "Text must be at most 40000 characters."@,
{
    if text.as_bytes().len() > 40000 {
        Err(owned("Text must be at most 40000 characters."))
    } else {
        Ok(())
    }
}

/// Body of Reddit's edit call.
pub fn edit_body(thing_id: &str, text: &str) -> (r: String)
    ensures
        r@ == "api_type=json&thing_id="@ + pct(thing_id@) + "&text="@ + pct(text@),
{
    let mut b = owned("api_type=json&thing_id=");
    push_str(&mut b, percent_encode(thing_id).as_str());
    push_str(&mut b, "&text=");
    push_str(&mut b, percent_encode(text).as_str());
    b
}

/// Posts can be submitted to a single named subreddit, not to `all`,
/// `popular` or a multireddit.
pub fn can_submit_to(sub: &str) -> (r: bool)
    ensures
        r == !(sub@.len() == 0 || sub@ == "all"@ || sub@ == "popular"@ || crate::text::has_char(sub@, '+')),
{
    let cs = chars_of(sub);
    !(sub.is_empty() || str_eq(sub, "all") || str_eq(sub, "popular") || crate::text::find_char(&cs, '+').is_some())
}

/// A new post: a link (when the form's kind is `link` in any case) or a text
/// post.
pub struct NewPost {
    pub link: bool,
    pub title: String,
    pub text: String,
    pub url: String,
}

/// Checks of the submit form: a title (trimmed) of at most 300 bytes; a link
/// post needs an `http://` or `https://` URL (trimmed); a text post's text is
/// at most 40000 bytes.
pub fn check_submission(kind: Option<&str>, title: Option<&str>, text: Option<&str>, url: Option<&str>) -> (r: Result<NewPost, String>)
    ensures
        match r {
            Ok(p) => {
                let t = match title { Some(x) => trim_seq(x@), None => Seq::<char>::empty() };
                let u = match url { Some(x) => trim_seq(x@), None => Seq::<char>::empty() };
                let x = match text { Some(x) => x@, None => Seq::<char>::empty() };
                &&& p.link == (kind is Some && unicode_lower(kind->0@) == "link"@)
                &&& p.title@ == t && t.len() > 0 && encode_utf8(t).len() <= 300
                &&& p.url@ == u && p.text@ == x
                &&& p.link ==> u.len() > 0 && (starts_with_seq(u, "http://"@) || starts_with_seq(u, "https://"@))
                &&& !p.link ==> encode_utf8(x).len() <= 40000
            },
            Err(e) => {
                let t = match title { Some(x) => trim_seq(x@), None => Seq::<char>::empty() };
                let u = match url { Some(x) => trim_seq(x@), None => Seq::<char>::empty() };
                let x = match text { Some(x) => x@, None => Seq::<char>::empty() };
                let link = kind is Some && unicode_lower(kind->0@) == "link"@;
                if t.len() == 0 {
                    e@ == "Title is required."@
                } else if encode_utf8(t).len() > 300 {
                    e@ == "Title must be at most 300 characters."@
                } else if link && u.len() == 0 {
                    e@ == "URL is required for link posts."@
                } else if link {
                    !(starts_with_seq(u, "http://"@) || starts_with_seq(u, "https://"@)) && e@ == "URL must start with http:// or https://."@
                } else {
                    encode_utf8(x).len() > 40000 && e@ == "Text must be at most 40000 characters."@
                }
            },
        },
{
    let link = match kind {
        Some(k) => str_eq(to_lowercase(k).as_str(), "link"),
        None => false,
    };
    let t = match title {
        Some(x) => trim(x),
        None => String::new(),
    };
    let x = match text {
        Some(x) => owned(x),
        None => String::new(),
    };
    let u = match url {
        Some(x) => trim(x),
        None => String::new(),
    };
    if t.as_str().is_empty() {
        return Err(owned("Title is required."));
    }
    if t.as_str().as_bytes().len() > 300 {
        return Err(owned("Title must be at most 300 characters."));
    }
    if link {
        if u.as_str().is_empty() {
            return Err(owned("URL is required for link posts."));
        }
        if !str_starts_with(u.as_str(), "http://") && !str_starts_with(u.as_str(), "https://") {
            return Err(owned("URL must start with http:// or https://."));
        }
    } else if x.as_str().as_bytes().len() > 40000 {
        return Err(owned("Text must be at most 40000 characters."));
    }
    Ok(NewPost { link, title: t, text: x, url: u })
}

/// Body of Reddit's submit call.
pub fn submit_body(sub: &str, post: &NewPost) -> (r: String)
    ensures
        r@ == "api_type=json&kind="@ + (if post.link { "link"@ } else { "self"@ }) + "&sr="@ + pct(sub@) + "&title="@
            + pct(post.title@) + if post.link { "&url="@ + pct(post.url@) } else { "&text="@ + pct(post.text@) },
{
    let mut b = owned("api_type=json&kind=");
    push_str(&mut b, if post.link { "link" } else { "self" });
    push_str(&mut b, "&sr=");
    push_str(&mut b, percent_encode(sub).as_str());
    push_str(&mut b, "&title=");
    push_str(&mut b, percent_encode(post.title.as_str()).as_str());
    let ghost head = b@;
    if post.link {
        push_str(&mut b, "&url=");
        push_str(&mut b, percent_encode(post.url.as_str()).as_str());
        assert(b@ =~= head + ("&url="@ + pct(post.url@)));
    } else {
        push_str(&mut b, "&text=");
        push_str(&mut b, percent_encode(post.text.as_str()).as_str());
        assert(b@ =~= head + ("&text="@ + pct(post.text@)));
    }
    b
}

/// Where to go after submitting: Reddit's URL for the new post when it is a
/// path, the (safe) return page when it is absolute, the subreddit without
/// one.
pub fn after_submit(sub: &str, reddit_url: Option<&str>, return_to: Option<&str>) -> (r: String)
    ensures
        r@ == match reddit_url {
            Some(u) => if starts_with_seq(u@, "http"@) {
                safe_return_spec(match return_to { Some(x) => x@, None => "/"@ })
            } else {
                u@
            },
            None => "/r/"@ + sub@,
        },
{
    match reddit_url {
        Some(u) => if str_starts_with(u, "http") {
            let rt = match return_to {
                Some(x) => x,
                None => "/",
            };
            owned(safe_return_to(rt))
        } else {
            owned(u)
        },
        None => concat2("/r/", sub),
    }
}

/// Checks of a private message: a recipient (trimmed), a subject (trimmed)
/// of at most 100 bytes, and some text.
pub fn check_message(to: Option<&str>, subject: Option<&str>, text: Option<&str>) -> (r: Result<(String, String, String), String>)
    ensures
        match r {
            Ok((t, s, x)) => t@ == trim_seq(to->0@) && t@.len() > 0 && s@ == (match subject { Some(v) => trim_seq(v@), None => Seq::<char>::empty() })
                && encode_utf8(s@).len() <= 100 && x@ == text->0@ && x@.len() > 0,
            Err(e) => {
                let t = match to { Some(v) => trim_seq(v@), None => Seq::<char>::empty() };
                let s = match subject { Some(v) => trim_seq(v@), None => Seq::<char>::empty() };
                let x = match text { Some(v) => v@, None => Seq::<char>::empty() };
                if t.len() == 0 {
                    e@ == "Recipient is required."@
                } else if encode_utf8(s).len() > 100 {
                    e@ == "Subject must be at most 100 characters."@
                } else {
                    x.len() == 0 && e@ == "Message text is required."@
                }
            },
        },
{
    let t = match to {
        Some(x) => trim(x),
        None => String::new(),
    };
    let s = match subject {
        Some(x) => trim(x),
        None => String::new(),
    };
    let x = match text {
        Some(v) => owned(v),
        None => String::new(),
    };
    if t.as_str().is_empty() {
        return Err(owned("Recipient is required."));
    }
    if s.as_str().as_bytes().len() > 100 {
        return Err(owned("Subject must be at most 100 characters."));
    }
    if x.as_str().is_empty() {
        return Err(owned("Message text is required."));
    }
    Ok((t, s, x))
}

/// Body of Reddit's compose call.
pub fn compose_body(to: &str, subject: &str, text: &str) -> (r: String)
    ensures
        r@ == "api_type=json&to="@ + pct(to@) + "&subject="@ + pct(subject@) + "&text="@ + pct(text@),
{
    let mut b = owned("api_type=json&to=");
    push_str(&mut b, percent_encode(to).as_str());
    push_str(&mut b, "&subject=");
    push_str(&mut b, percent_encode(subject).as_str());
    push_str(&mut b, "&text=");
    push_str(&mut b, percent_encode(text).as_str());
    b
}

} // verus!
