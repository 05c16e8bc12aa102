use vstd::prelude::*;
use vstd::string::StrSliceExecFns;
use vstd::utf8::{decode_utf8, valid_utf8};

use crate::network::app_data::utf8_text;
use crate::street::xml::{parse_i64, parse_i64_spec};
use crate::text::{char_slice, has_prefix, owned};

verus! {

/// The first byte of a control frame, whose body is UTF-8 text.
pub const FRAME_TAG_CONTROL: u8 = 1;

/// The first byte of a data frame: a two-byte big-endian expression ID,
/// then the payload.
pub const FRAME_TAG_DATA: u8 = 2;

/// A frame received from a peer, read.
pub enum InboundFrame {
    /// Data published under expression `expr_id`.
    Data { expr_id: u16, payload: Vec<u8> },
    /// The peer is still there.
    Keepalive,
    /// The peer asks to close the session.
    Close,
    /// The peer confirms a close.
    CloseAck,
    /// The peer subscribes to a key expression.
    Subscribe { key_expr: String },
    /// The peer declares that `expr_id` stands for `key_expr`.
    ResourceDeclare { expr_id: u16, key_expr: String },
    /// The peer withdraws `expr_id`.
    ResourceUndeclare { expr_id: u16 },
    /// Anything else: empty, of an unknown tag, a short data frame, control
    /// text that is not UTF-8 or not understood. It is discarded.
    Ignored,
}

/// A frame as a mathematical value.
pub enum FrameView {
    Data(u16, Seq<u8>),
    Keepalive,
    Close,
    CloseAck,
    Subscribe(Seq<char>),
    ResourceDeclare(u16, Seq<char>),
    ResourceUndeclare(u16),
    Ignored,
}

impl View for InboundFrame {
    type V = FrameView;

    open spec fn view(&self) -> FrameView {
        match self {
            InboundFrame::Data { expr_id, payload } => FrameView::Data(*expr_id, payload@),
            InboundFrame::Keepalive => FrameView::Keepalive,
            InboundFrame::Close => FrameView::Close,
            InboundFrame::CloseAck => FrameView::CloseAck,
            InboundFrame::Subscribe { key_expr } => FrameView::Subscribe(key_expr@),
            InboundFrame::ResourceDeclare { expr_id, key_expr } => FrameView::ResourceDeclare(*expr_id, key_expr@),
            InboundFrame::ResourceUndeclare { expr_id } => FrameView::ResourceUndeclare(*expr_id),
            InboundFrame::Ignored => FrameView::Ignored,
        }
    }
}

/// The `u16` that `t` writes, as `u16`'s `FromStr` reads it: an optional
/// `+`, then one or more ASCII digits, at most 65535.
pub open spec fn parse_u16_spec(t: Seq<char>) -> Option<u16> {
    if t.len() > 0 && t[0] == '-' {
        None
    } else {
        match parse_i64_spec(t) {
            Some(v) => if 0 <= v <= 65535 {
                Some(v as u16)
            } else {
                None
            },
            None => None,
        }
    }
}

/// Read a `u16` written in decimal.
pub fn parse_u16(t: &str) -> (r: Option<u16>)
    ensures
        r == parse_u16_spec(t@),
{
    if t.unicode_len() > 0 && t.get_char(0) == '-' {
        return None;
    }
    match parse_i64(t) {
        Some(v) => if 0 <= v && v <= 65535 {
            Some(v as u16)
        } else {
            None
        },
        None => None,
    }
}

/// Where the first `:` stands in `s`, if anywhere.
pub open spec fn first_colon(s: Seq<char>) -> Option<int>
    decreases s.len(),
{
    if s.len() == 0 {
        None
    } else if s[0] == ':' {
        Some(0)
    } else {
        match first_colon(s.drop_first()) {
            Some(i) => Some(i + 1),
            None => None,
        }
    }
}

/// The first colon is a colon, and none comes before it.
proof fn lemma_first_colon(s: Seq<char>, i: int)
    requires
        0 <= i <= s.len(),
        forall|j: int| 0 <= j < i ==> s[j] != ':',
    ensures
        i < s.len() && s[i] == ':' ==> first_colon(s) == Some(i),
        i == s.len() ==> first_colon(s) is None,
    decreases i,
{
    if i > 0 {
        assert forall|j: int| 0 <= j < i - 1 implies s.drop_first()[j] != ':' by {
            assert(s.drop_first()[j] == s[j + 1]);
        }
        lemma_first_colon(s.drop_first(), i - 1);
    }
}

/// Whether `s` begins with `p`.
pub open spec fn starts_with(s: Seq<char>, p: Seq<char>) -> bool {
    p.len() <= s.len() && s.take(p.len() as int) == p
}

/// What a control text asks: `KEEPALIVE`, `CLOSE`, `CLOSEACK`,
/// `SUB:<key expr>`, `RESDECL:<id>:<key expr>` (split at the first colon
/// after the prefix, so the key expression may hold colons) or
/// `RESUNDECL:<id>`; anything else, or an ID that is no `u16`, is ignored.
pub open spec fn control_spec(text: Seq<char>) -> FrameView {
    if text == "KEEPALIVE"@ {
        FrameView::Keepalive
    } else if text == "CLOSE"@ {
        FrameView::Close
    } else if text == "CLOSEACK"@ {
        FrameView::CloseAck
    } else if starts_with(text, "SUB:"@) {
        FrameView::Subscribe(text.skip(4))
    } else if starts_with(text, "RESDECL:"@) {
        let rest = text.skip(8);
        match first_colon(rest) {
            Some(c) => match parse_u16_spec(rest.take(c)) {
                Some(id) => FrameView::ResourceDeclare(id, rest.skip(c + 1)),
                None => FrameView::Ignored,
            },
            None => FrameView::Ignored,
        }
    } else if starts_with(text, "RESUNDECL:"@) {
        match parse_u16_spec(text.skip(10)) {
            Some(id) => FrameView::ResourceUndeclare(id),
            None => FrameView::Ignored,
        }
    } else {
        FrameView::Ignored
    }
}

/// What a received frame holds: the first byte is its tag; a data frame
/// needs its two-byte ID; a control frame's body must be UTF-8 text.
pub open spec fn frame_spec(b: Seq<u8>) -> FrameView {
    if b.len() == 0 {
        FrameView::Ignored
    } else if b[0] == FRAME_TAG_DATA {
        if b.len() < 3 {
            FrameView::Ignored
        } else {
            FrameView::Data((b[1] as int * 256 + b[2] as int) as u16, b.skip(3))
        }
    } else if b[0] != FRAME_TAG_CONTROL {
        FrameView::Ignored
    } else if valid_utf8(b.skip(1)) {
        control_spec(decode_utf8(b.skip(1)))
    } else {
        FrameView::Ignored
    }
}

/// Read a control text (see `control_spec`).
pub fn parse_control(text: &str) -> (r: InboundFrame)
    ensures
        r@ == control_spec(text@),
{
    proof {
        reveal_strlit("KEEPALIVE");
        reveal_strlit("CLOSE");
        reveal_strlit("CLOSEACK");
        reveal_strlit("SUB:");
        reveal_strlit("RESDECL:");
        reveal_strlit("RESUNDECL:");
    }
    let n = text.unicode_len();
    if crate::strmap::str_eq(text, "KEEPALIVE") {
        return InboundFrame::Keepalive;
    }
    if crate::strmap::str_eq(text, "CLOSE") {
        return InboundFrame::Close;
    }
    if crate::strmap::str_eq(text, "CLOSEACK") {
        return InboundFrame::CloseAck;
    }
    if has_prefix(text, "SUB:") {
        return InboundFrame::Subscribe { key_expr: char_slice(text, 4, n) };
    }
    if has_prefix(text, "RESDECL:") {
        let ghost rest = text@.skip(8);
        let mut c: usize = 8;
        while c < n && text.get_char(c) != ':'
            invariant
                n == text@.len(),
                8 <= c <= n,
                rest == text@.skip(8),
                forall|j: int| 0 <= j < c - 8 ==> rest[j] != ':',
            decreases n - c,
        {
            c = c + 1;
        }
        proof {
            lemma_first_colon(rest, c - 8);
        }
        if c == n {
            return InboundFrame::Ignored;
        }
        let id_text = char_slice(text, 8, c);
        proof {
            assert(id_text@ =~= rest.take(c - 8));
        }
        return match parse_u16(id_text.as_str()) {
            Some(expr_id) => {
                let key_expr = char_slice(text, c + 1, n);
                proof {
                    assert(key_expr@ =~= rest.skip(c - 8 + 1));
                }
                InboundFrame::ResourceDeclare { expr_id, key_expr }
            },
            None => InboundFrame::Ignored,
        };
    }
    if has_prefix(text, "RESUNDECL:") {
        let id_text = char_slice(text, 10, n);
        proof {
            assert(id_text@ =~= text@.skip(10));
        }
        return match parse_u16(id_text.as_str()) {
            Some(expr_id) => InboundFrame::ResourceUndeclare { expr_id },
            None => InboundFrame::Ignored,
        };
    }
    InboundFrame::Ignored
}

/// Read a frame received from a peer (see `frame_spec`).
pub fn parse_inbound_frame(b: &[u8]) -> (r: InboundFrame)
    ensures
        r@ == frame_spec(b@),
{
    let n = b.len();
    if n == 0 {
        return InboundFrame::Ignored;
    }
    if b[0] == FRAME_TAG_DATA {
        if n < 3 {
            return InboundFrame::Ignored;
        }
        let expr_id: u16 = (b[1] as u16) * 256 + (b[2] as u16);
        let mut payload: Vec<u8> = Vec::new();
        let mut i: usize = 3;
        while i < n
            invariant
                n == b@.len(),
                3 <= i <= n,
                payload@ == b@.subrange(3, i as int),
            decreases n - i,
        {
            payload.push(b[i]);
            proof {
                assert(b@.subrange(3, i + 1) =~= b@.subrange(3, i as int).push(b@[i as int]));
            }
            i = i + 1;
        }
        proof {
            assert(payload@ =~= b@.skip(3));
        }
        return InboundFrame::Data { expr_id, payload };
    }
    if b[0] != FRAME_TAG_CONTROL {
        return InboundFrame::Ignored;
    }
    let body = vstd::slice::slice_subrange(b, 1, n);
    proof {
        assert(body@ =~= b@.skip(1));
    }
    match utf8_text(body) {
        Some(t) => parse_control(t.as_str()),
        None => InboundFrame::Ignored,
    }
}

} // verus!
