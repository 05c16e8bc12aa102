use vstd::prelude::*;
use vstd::slice::slice_subrange;
use vstd::string::StrSliceExecFns;
use vstd::utf8::{
    char_is_scalar, char_u32_cast, decode_utf8, encode_scalar, encode_utf8, encode_utf8_decode_utf8,
    encode_utf8_valid_utf8, has_width_1_encoding, has_width_2_encoding, has_width_3_encoding,
    has_width_4_encoding, is_scalar, last_continuation_byte, leading_byte_width_1,
    leading_byte_width_2, leading_byte_width_3, leading_byte_width_4,
    second_last_continuation_byte, third_last_continuation_byte, valid_utf8,
};

use crate::text::push_char;

verus! {

// ── Cutting text to a byte budget ────────────────────────────────────────

/// `r` is the longest prefix of `s` whose UTF-8 encoding fits in `max`
/// bytes: the prefix stops at the first character that would not fit.
pub open spec fn utf8_truncated(s: Seq<char>, max: nat, r: Seq<char>) -> bool {
    &&& r.len() <= s.len()
    &&& r == s.take(r.len() as int)
    &&& encode_utf8(r).len() <= max
    &&& r.len() < s.len() ==> encode_utf8(s.take(r.len() + 1 as int)).len() > max
}

/// Encoding one more character appends that character's bytes.
pub proof fn lemma_encode_push(cs: Seq<char>, c: char)
    ensures
        encode_utf8(cs.push(c)) == encode_utf8(cs) + encode_scalar(c as u32),
    decreases cs.len(),
{
    if cs.len() == 0 {
        assert(cs.push(c).drop_first() =~= Seq::<char>::empty());
        assert(encode_utf8(Seq::<char>::empty()) =~= Seq::<u8>::empty());
        assert(encode_utf8(cs) =~= Seq::<u8>::empty());
        assert(encode_scalar(c as u32) + Seq::<u8>::empty() =~= encode_scalar(c as u32));
    } else {
        let rest = cs.drop_first();
        assert(cs.push(c).drop_first() =~= rest.push(c));
        assert(cs.push(c)[0] == cs[0]);
        lemma_encode_push(rest, c);
        assert(encode_scalar(cs[0] as u32) + (encode_utf8(rest) + encode_scalar(c as u32))
            =~= (encode_scalar(cs[0] as u32) + encode_utf8(rest)) + encode_scalar(c as u32));
    }
}

/// The number of bytes in the UTF-8 encoding of `c`.
pub fn utf8_width(c: char) -> (w: usize)
    ensures
        w == encode_scalar(c as u32).len(),
        1 <= w <= 4,
{
    proof {
        char_is_scalar(c);
    }
    let v = c as u32;
    if v <= 0x7F {
        1
    } else if v <= 0x7FF {
        2
    } else if v <= 0xFFFF {
        3
    } else {
        4
    }
}

/// `s` cut to at most `max_bytes` bytes of UTF-8, on a character boundary,
/// so that the result is always valid text.
pub fn truncate_to_bytes(s: &str, max_bytes: usize) -> (r: String)
    ensures
        utf8_truncated(s@, max_bytes as nat, r@),
{
    let n = s.unicode_len();
    let mut r = String::new();
    let mut used: usize = 0;
    let mut i: usize = 0;
    proof {
        assert(s@.take(0) =~= Seq::<char>::empty());
        assert(encode_utf8(r@) =~= Seq::<u8>::empty());
    }
    while i < n
        invariant
            n == s@.len(),
            0 <= i <= n,
            r@ == s@.take(i as int),
            used == encode_utf8(r@).len(),
            used <= max_bytes,
        decreases n - i,
    {
        let c = s.get_char(i);
        let w = utf8_width(c);
        proof {
            lemma_encode_push(r@, c);
            assert(s@.take(i + 1) =~= s@.take(i as int).push(c));
        }
        if w > max_bytes - used {
            return r;
        }
        push_char(&mut r, c);
        used = used + w;
        i = i + 1;
    }
    proof {
        assert(s@.take(n as int) =~= s@);
    }
    r
}

// ── Announce data ────────────────────────────────────────────────────────

/// The byte between the display name and the street name.
pub const APP_DATA_SEPARATOR: u8 = 0;

/// `cs` with every NUL character left out.
pub open spec fn without_nul(cs: Seq<char>) -> Seq<char>
    decreases cs.len(),
{
    if cs.len() == 0 {
        cs
    } else if cs.last() == '\0' {
        without_nul(cs.drop_last())
    } else {
        without_nul(cs.drop_last()).push(cs.last())
    }
}

/// No byte of `b` is zero.
pub open spec fn no_zero(b: Seq<u8>) -> bool {
    forall|i: int| 0 <= i < b.len() ==> b[i] != 0
}

/// The index of the first zero byte of `b`, if it has one.
pub open spec fn first_zero(b: Seq<u8>) -> Option<int>
    decreases b.len(),
{
    if b.len() == 0 {
        None
    } else if b[0] == 0 {
        Some(0)
    } else {
        match first_zero(b.drop_first()) {
            Some(i) => Some(i + 1),
            None => None,
        }
    }
}

/// The announce data for a display name and an optional street: the name's
/// UTF-8 bytes, then, with a street, a zero byte and the street's bytes. NUL
/// characters are left out of both, so the zero byte stays unambiguous.
pub open spec fn app_data_bytes(name: Seq<char>, street: Option<Seq<char>>) -> Seq<u8> {
    match street {
        None => encode_utf8(without_nul(name)),
        Some(st) => encode_utf8(without_nul(name)) + seq![APP_DATA_SEPARATOR] + encode_utf8(
            without_nul(st),
        ),
    }
}

/// What `String::from_utf8_lossy` makes of bytes that are not valid UTF-8
/// (each invalid sequence becomes U+FFFD).
pub uninterp spec fn utf8_lossy(bytes: Seq<u8>) -> Seq<char>;

/// The text that `String::from_utf8_lossy` reads from `bytes`: valid UTF-8
/// is decoded as it stands.
pub open spec fn lossy_text(bytes: Seq<u8>) -> Seq<char> {
    if valid_utf8(bytes) {
        decode_utf8(bytes)
    } else {
        utf8_lossy(bytes)
    }
}

/// Trusted: calls `String::from_utf8_lossy` and takes the text as an owned
/// string. std documents that valid UTF-8 comes back as the same text; what
/// it makes of invalid input is named and not stated.
#[verifier::external_body]
pub(crate) fn from_utf8_lossy(bytes: &[u8]) -> (s: String)
    ensures
        s@ == (if valid_utf8(bytes@) {
            decode_utf8(bytes@)
        } else {
            utf8_lossy(bytes@)
        }),
{
    String::from_utf8_lossy(bytes).into_owned()
}

/// Trusted: calls `std::str::from_utf8` and takes the text as an owned
/// string. std documents that it succeeds exactly on valid UTF-8, reading
/// the text the bytes encode; the error is dropped.
#[verifier::external_body]
pub(crate) fn utf8_text(bytes: &[u8]) -> (r: Option<String>)
    ensures
        r is Some <==> valid_utf8(bytes@),
        r matches Some(t) ==> t@ == decode_utf8(bytes@),
{
    match std::str::from_utf8(bytes) {
        Ok(t) => Some(t.to_owned()),
        Err(_) => None,
    }
}

/// The display name and optional street read from announce data: split at
/// the first zero byte, each part read as text without NUL characters.
pub open spec fn app_data_fields(data: Seq<u8>) -> (Seq<char>, Option<Seq<char>>) {
    match first_zero(data) {
        Some(p) => (
            without_nul(lossy_text(data.take(p))),
            Some(without_nul(lossy_text(data.skip(p + 1)))),
        ),
        None => (without_nul(lossy_text(data)), None),
    }
}

/// The view of an optional string slice.
pub open spec fn str_opt(o: Option<&str>) -> Option<Seq<char>> {
    match o {
        Some(s) => Some(s@),
        None => None,
    }
}

/// The view of an optional string.
pub open spec fn string_opt(o: Option<String>) -> Option<Seq<char>> {
    match o {
        Some(s) => Some(s@),
        None => None,
    }
}

/// `s` with every NUL character left out.
pub fn strip_nul(s: &str) -> (r: String)
    ensures
        r@ == without_nul(s@),
{
    let n = s.unicode_len();
    let mut r = String::new();
    let mut i: usize = 0;
    proof {
        assert(s@.take(0) =~= Seq::<char>::empty());
    }
    while i < n
        invariant
            n == s@.len(),
            0 <= i <= n,
            r@ == without_nul(s@.take(i as int)),
        decreases n - i,
    {
        let c = s.get_char(i);
        proof {
            let t = s@.take(i + 1);
            assert(t.drop_last() =~= s@.take(i as int));
            assert(t.last() == c);
        }
        if c != '\0' {
            push_char(&mut r, c);
        }
        i = i + 1;
    }
    proof {
        assert(s@.take(n as int) =~= s@);
    }
    r
}

/// Encode a display name and an optional street as announce data.
pub fn encode_app_data(display_name: &str, street: Option<&str>) -> (data: Vec<u8>)
    ensures
        data@ == app_data_bytes(display_name@, str_opt(street)),
{
    let safe_name = strip_nul(display_name);
    let mut data = safe_name.as_str().as_bytes_vec();
    match street {
        Some(st) => {
            data.push(APP_DATA_SEPARATOR);
            let safe_street = strip_nul(st);
            let mut tail = safe_street.as_str().as_bytes_vec();
            data.append(&mut tail);
        },
        None => {},
    }
    data
}

/// `p` is the first zero byte of `b`.
pub proof fn lemma_first_zero_at(b: Seq<u8>, p: int)
    requires
        0 <= p < b.len(),
        b[p] == 0,
        no_zero(b.take(p)),
    ensures
        first_zero(b) == Some(p),
    decreases p,
{
    if p > 0 {
        assert(b.take(p)[0] == b[0]);
        let rest = b.drop_first();
        let t = rest.take(p - 1);
        assert forall|i: int| 0 <= i < t.len() implies t[i] != 0 by {
            assert(t[i] == b.take(p)[i + 1]);
        }
        lemma_first_zero_at(rest, p - 1);
    }
}

/// Bytes with no zero have no first zero.
pub proof fn lemma_first_zero_none(b: Seq<u8>)
    requires
        no_zero(b),
    ensures
        first_zero(b) is None,
    decreases b.len(),
{
    if b.len() > 0 {
        let rest = b.drop_first();
        assert forall|i: int| 0 <= i < rest.len() implies rest[i] != 0 by {
            assert(rest[i] == b[i + 1]);
        }
        lemma_first_zero_none(rest);
    }
}

/// Decode announce data into the display name and the optional street.
pub fn decode_app_data(data: &[u8]) -> (r: (String, Option<String>))
    ensures
        r.0@ == app_data_fields(data@).0,
        string_opt(r.1) == app_data_fields(data@).1,
{
    let n = data.len();
    let mut i: usize = 0;
    while i < n && data[i] != APP_DATA_SEPARATOR
        invariant
            n == data@.len(),
            0 <= i <= n,
            no_zero(data@.take(i as int)),
        decreases n - i,
    {
        proof {
            let t = data@.take(i + 1);
            assert forall|j: int| 0 <= j < t.len() implies t[j] != 0 by {
                if j < i {
                    assert(t[j] == data@.take(i as int)[j]);
                }
            }
        }
        i = i + 1;
    }
    if i < n {
        proof {
            lemma_first_zero_at(data@, i as int);
        }
        let head = slice_subrange(data, 0, i);
        let tail = slice_subrange(data, i + 1, n);
        proof {
            assert(head@ =~= data@.take(i as int));
            assert(tail@ =~= data@.skip(i + 1));
        }
        let name_text = from_utf8_lossy(head);
        let street_text = from_utf8_lossy(tail);
        let name = strip_nul(name_text.as_str());
        let street = strip_nul(street_text.as_str());
        (name, Some(street))
    } else {
        proof {
            assert(data@.take(n as int) =~= data@);
            lemma_first_zero_none(data@);
        }
        let text = from_utf8_lossy(data);
        let name = strip_nul(text.as_str());
        (name, None)
    }
}

// ── Round trip ───────────────────────────────────────────────────────────

/// No character of `without_nul(cs)` is NUL.
pub proof fn lemma_without_nul_has_none(cs: Seq<char>)
    ensures
        forall|i: int| 0 <= i < without_nul(cs).len() ==> without_nul(cs)[i] != '\0',
    decreases cs.len(),
{
    if cs.len() > 0 {
        let w = without_nul(cs.drop_last());
        lemma_without_nul_has_none(cs.drop_last());
        if cs.last() != '\0' {
            assert forall|i: int| 0 <= i < w.push(cs.last()).len() implies w.push(cs.last())[i]
                != '\0' by {
                if i < w.len() {
                    assert(w.push(cs.last())[i] == w[i]);
                }
            }
        }
    }
}

/// Text without NUL characters is left as it is.
pub proof fn lemma_without_nul_keeps(cs: Seq<char>)
    requires
        forall|i: int| 0 <= i < cs.len() ==> cs[i] != '\0',
    ensures
        without_nul(cs) == cs,
    decreases cs.len(),
{
    if cs.len() > 0 {
        let front = cs.drop_last();
        assert forall|i: int| 0 <= i < front.len() implies front[i] != '\0' by {
            assert(front[i] == cs[i]);
        }
        lemma_without_nul_keeps(front);
        assert(cs.last() == cs[cs.len() - 1]);
        assert(front.push(cs.last()) =~= cs);
    }
}

/// The UTF-8 encoding of a character other than NUL has no zero byte.
pub proof fn lemma_scalar_no_zero(v: u32)
    requires
        is_scalar(v),
        v != 0,
    ensures
        no_zero(encode_scalar(v)),
{
    assert(has_width_1_encoding(v) && v != 0 ==> leading_byte_width_1(v) != 0) by (bit_vector);
    assert(leading_byte_width_2(v) != 0) by (bit_vector);
    assert(leading_byte_width_3(v) != 0) by (bit_vector);
    assert(leading_byte_width_4(v) != 0) by (bit_vector);
    assert(last_continuation_byte(v) != 0) by (bit_vector);
    assert(second_last_continuation_byte(v) != 0) by (bit_vector);
    assert(third_last_continuation_byte(v) != 0) by (bit_vector);
}

/// The UTF-8 encoding of text without NUL characters has no zero byte.
pub proof fn lemma_encode_no_zero(cs: Seq<char>)
    requires
        forall|i: int| 0 <= i < cs.len() ==> cs[i] != '\0',
    ensures
        no_zero(encode_utf8(cs)),
    decreases cs.len(),
{
    if cs.len() > 0 {
        let c = cs[0];
        let rest = cs.drop_first();
        assert forall|i: int| 0 <= i < rest.len() implies rest[i] != '\0' by {
            assert(rest[i] == cs[i + 1]);
        }
        lemma_encode_no_zero(rest);
        char_is_scalar(c);
        let v = c as u32;
        if v == 0 {
            char_u32_cast(c, v);
            assert(c == '\0');
        }
        lemma_scalar_no_zero(v);
        let head = encode_scalar(c as u32);
        let tail = encode_utf8(rest);
        assert forall|i: int| 0 <= i < (head + tail).len() implies (head + tail)[i] != 0 by {
            if i < head.len() {
                assert((head + tail)[i] == head[i]);
            } else {
                assert((head + tail)[i] == tail[i - head.len()]);
            }
        }
    }
}

/// Reading the encoding of some text gives back that text.
pub proof fn lemma_lossy_text_of_encoding(cs: Seq<char>)
    ensures
        lossy_text(encode_utf8(cs)) == cs,
{
    encode_utf8_valid_utf8(cs);
    encode_utf8_decode_utf8(cs);
}

/// Decoding the announce data of a name and an optional street gives back
/// the name and the street, without their NUL characters.
pub proof fn lemma_app_data_round_trip(name: Seq<char>, street: Option<Seq<char>>)
    ensures
        app_data_fields(app_data_bytes(name, street)) == (
            without_nul(name),
            match street {
                Some(st) => Some(without_nul(st)),
                None => None,
            },
        ),
{
    let clean = without_nul(name);
    lemma_without_nul_has_none(name);
    lemma_without_nul_keeps(clean);
    lemma_encode_no_zero(clean);
    lemma_lossy_text_of_encoding(clean);
    let a = encode_utf8(clean);
    match street {
        None => {
            lemma_first_zero_none(a);
        },
        Some(st) => {
            let sclean = without_nul(st);
            lemma_without_nul_has_none(st);
            lemma_without_nul_keeps(sclean);
            lemma_lossy_text_of_encoding(sclean);
            let b = encode_utf8(sclean);
            let data = a + seq![APP_DATA_SEPARATOR] + b;
            assert(data.take(a.len() as int) =~= a);
            assert(data.skip(a.len() + 1 as int) =~= b);
            assert(data[a.len() as int] == 0);
            lemma_first_zero_at(data, a.len() as int);
        },
    }
}

} // verus!
