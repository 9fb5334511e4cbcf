//! The inbox: the short plain-text preview shown for each message.
use vstd::prelude::*;
use vstd::utf8::{encode_utf8, decode_utf8};
use crate::text::{chars_of, owned, push_str, replace_all, replace_str, seq_join, split_whitespace, join, words};

verus! {

/// A message as the inbox lists it.
#[derive(Clone)]
pub struct InboxMessage {
    pub id: String,
    pub fullname: String,
    pub subject: String,
    pub author: String,
    pub body_preview: String,
    pub created: String,
    pub new: bool,
    pub kind: String,
}

/// The message's HTML with paragraph and line-break tags, then every
/// remaining `<` and `>`, turned into spaces.
pub open spec fn inbox_plain(html: Seq<char>) -> Seq<char> {
    replace_all(
        replace_all(
            replace_all(
                replace_all(replace_all(replace_all(html, "<p>"@, " "@), "</p>"@, " "@), "<br>"@, " "@),
                "</br>"@,
                " "@,
            ),
            "<"@,
            " "@,
        ),
        ">"@,
        " "@,
    )
}

/// The first 30 words of the plain text, joined by single spaces.
pub open spec fn preview_words(html: Seq<char>) -> Seq<char> {
    let w = words(inbox_plain(html));
    seq_join(if w.len() > 30 { w.take(30) } else { w }, " "@)
}

/// The preview is cut only where a character starts: the words' UTF-8 is
/// sliced at byte 147 when they are longer than 150 bytes.
pub open spec fn preview_cut_ok(html: Seq<char>) -> bool {
    let b = encode_utf8(preview_words(html));
    b.len() <= 150 || vstd::utf8::is_char_boundary(b, 147)
}

/// The preview: the words, or their first 147 bytes and `...` when they are
/// longer than 150 bytes.
pub open spec fn preview_spec(html: Seq<char>) -> Seq<char> {
    let p = preview_words(html);
    if encode_utf8(p).len() > 150 {
        decode_utf8(encode_utf8(p).subrange(0, 147)) + "..."@
    } else {
        p
    }
}

fn to_spaces(s: &str) -> (r: String)
    ensures
        r@ == inbox_plain(s@),
{
    proof {
        reveal_strlit("<p>");
        reveal_strlit("</p>");
        reveal_strlit("<br>");
        reveal_strlit("</br>");
        reveal_strlit("<");
        reveal_strlit(">");
    }
    let a = replace_str(s, "<p>", " ");
    let b = replace_str(a.as_str(), "</p>", " ");
    let c = replace_str(b.as_str(), "<br>", " ");
    let d = replace_str(c.as_str(), "</br>", " ");
    let e = replace_str(d.as_str(), "<", " ");
    replace_str(e.as_str(), ">", " ")
}

/// The preview of a message body.
pub fn inbox_preview(body_html: &str) -> (r: String)
    requires
        preview_cut_ok(body_html@),
    ensures
        r@ == preview_spec(body_html@),
{
    let plain = to_spaces(body_html);
    let cs = chars_of(plain.as_str());
    let mut ws = split_whitespace(&cs);
    let ghost w = words(inbox_plain(body_html@));
    assert(cs@ == plain@);
    assert(ws@.map_values(|x: String| x@) == w);
    if ws.len() > 30 {
        ws.truncate(30);
        assert(ws@.map_values(|x: String| x@) =~= w.take(30));
    }
    let p = join(&ws, " ");
    assert(p@ == preview_words(body_html@));
    let ps = p.as_str();
    if ps.as_bytes().len() > 150 {
        let (head, _tail) = ps.split_at(147);
        proof {
            vstd::utf8::encode_utf8_decode_utf8(head@);
        }
        assert(ps@ == p@);
        assert(encode_utf8(head@) == encode_utf8(p@).subrange(0, 147));
        assert(head@ == decode_utf8(encode_utf8(p@).subrange(0, 147)));
        let mut out = owned(head);
        push_str(&mut out, "...");
        assert(out@ == head@ + "..."@);
        out
    } else {
        p
    }
}

} // verus!
