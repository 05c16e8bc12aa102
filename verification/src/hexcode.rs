use vstd::prelude::*;
use vstd::utf8::{encode_utf8, is_ascii_chars, is_ascii_chars_encode_utf8};

use crate::social::types::Addr;

verus! {

/// The lowercase hexadecimal digit for `d` (below 16).
pub open spec fn hex_digit(d: u8) -> char {
    if d < 10 {
        (48 + d) as char
    } else {
        (87 + d) as char
    }
}

/// Lowercase hexadecimal text of `b`: two digits per byte, high half first.
pub open spec fn hex_chars(b: Seq<u8>) -> Seq<char> {
    Seq::new(
        2 * b.len(),
        |i: int|
            if i % 2 == 0 {
                hex_digit(b[i / 2] / 16)
            } else {
                hex_digit(b[i / 2] % 16)
            },
    )
}

/// The value of one hexadecimal digit, given as its byte (either case).
pub open spec fn hex_val(c: u8) -> Option<u8> {
    if 65 <= c <= 70 {
        Some((c - 55) as u8)
    } else if 97 <= c <= 102 {
        Some((c - 87) as u8)
    } else if 48 <= c <= 57 {
        Some((c - 48) as u8)
    } else {
        None
    }
}

/// The bytes that hexadecimal text (given as its bytes) stands for: `None`
/// for an odd length or a byte that is no hexadecimal digit.
pub open spec fn hex_decoded(text: Seq<u8>) -> Option<Seq<u8>> {
    if text.len() % 2 != 0 || exists|i: int| 0 <= i < text.len() && (#[trigger] hex_val(text[i])) is None {
        None
    } else {
        Some(
            Seq::new(
                text.len() / 2,
                |i: int| (hex_val(text[2 * i])->0 * 16 + hex_val(text[2 * i + 1])->0) as u8,
            ),
        )
    }
}

/// The address that hexadecimal text stands for, if it decodes to exactly
/// sixteen bytes.
pub open spec fn addr_from_hex_spec(text: Seq<char>) -> Option<Seq<u8>> {
    match hex_decoded(encode_utf8(text)) {
        Some(b) => if b.len() == 16 {
            Some(b)
        } else {
            None
        },
        None => None,
    }
}

/// Trusted: calls `hex::encode`, which turns each byte into two lowercase
/// hexadecimal digits, high half first (the crate's source maps each half
/// through the table "0123456789abcdef").
#[verifier::external_body]
fn hex_encode(bytes: &[u8]) -> (s: String)
    ensures
        s@ == hex_chars(bytes@),
{
    hex::encode(bytes)
}

/// Trusted: calls `hex::decode` on the bytes of `text` and keeps only
/// whether it succeeded. The crate's source refuses an odd length and any
/// byte outside `0-9`, `a-f`, `A-F`, and otherwise makes each byte of a pair
/// of digits, the first one the high half.
#[verifier::external_body]
fn hex_decode(text: &str) -> (r: Option<Vec<u8>>)
    ensures
        match r {
            Some(v) => hex_decoded(encode_utf8(text@)) == Some(v@),
            None => hex_decoded(encode_utf8(text@)) is None,
        },
{
    hex::decode(text).ok()
}

/// Lowercase hexadecimal text of an address.
pub fn addr_to_hex(a: &Addr) -> (s: String)
    ensures
        s@ == hex_chars(a@),
{
    hex_encode(a.as_slice())
}

/// Why hexadecimal text is no address.
#[derive(Clone, Copy, Debug, PartialEq, Eq, Structural)]
pub enum AddrHexError {
    /// The text is not hexadecimal.
    NotHex,
    /// The text is hexadecimal but not sixteen bytes of it.
    WrongLength,
}

/// Read an address written as hexadecimal text.
pub fn decode_addr(text: &str) -> (r: Result<Addr, AddrHexError>)
    ensures
        hex_decoded(encode_utf8(text@)) is None ==> r == Err::<Addr, AddrHexError>(AddrHexError::NotHex),
        hex_decoded(encode_utf8(text@)) matches Some(b) && b.len() != 16 ==> r == Err::<Addr, AddrHexError>(
            AddrHexError::WrongLength,
        ),
        hex_decoded(encode_utf8(text@)) matches Some(b) ==> (b.len() == 16 ==> (r matches Ok(a) && a@
            == b)),
{
    let bytes = match hex_decode(text) {
        Some(b) => b,
        None => {
            return Err(AddrHexError::NotHex);
        },
    };
    if bytes.len() != 16 {
        return Err(AddrHexError::WrongLength);
    }
    let mut a: Addr = [0u8; 16];
    let mut i: usize = 0;
    while i < 16
        invariant
            bytes@.len() == 16,
            0 <= i <= 16,
            forall|j: int| 0 <= j < i ==> a[j] == bytes@[j],
        decreases 16 - i,
    {
        a[i] = bytes[i];
        i = i + 1;
    }
    proof {
        assert(a@ =~= bytes@);
    }
    Ok(a)
}

/// The address written in `text` as hexadecimal, if it is exactly sixteen
/// bytes of it.
pub fn addr_from_hex(text: &str) -> (r: Option<Addr>)
    ensures
        match r {
            Some(a) => addr_from_hex_spec(text@) == Some(a@),
            None => addr_from_hex_spec(text@) is None,
        },
{
    match decode_addr(text) {
        Ok(a) => Some(a),
        Err(_) => None,
    }
}

/// Reading back hexadecimal text written for some bytes gives those bytes.
pub proof fn lemma_hex_round_trip(b: Seq<u8>)
    ensures
        hex_decoded(encode_utf8(hex_chars(b))) == Some(b),
{
    let cs = hex_chars(b);
    assert forall|i: int| 0 <= i < cs.len() implies '\0' <= #[trigger] cs[i] <= '\u{7f}' by {
        let d: u8 = if i % 2 == 0 {
            b[i / 2] / 16
        } else {
            b[i / 2] % 16
        };
        assert(d < 16);
        assert(cs[i] == hex_digit(d));
    }
    assert(is_ascii_chars(cs));
    is_ascii_chars_encode_utf8(cs);
    let t = encode_utf8(cs);
    assert forall|i: int| 0 <= i < t.len() implies (#[trigger] hex_val(t[i])) == Some(
        (if i % 2 == 0 {
            b[i / 2] / 16
        } else {
            b[i / 2] % 16
        }) as u8,
    ) by {
        assert(cs[i] as u8 == t[i]);
        let d: u8 = if i % 2 == 0 {
            b[i / 2] / 16
        } else {
            b[i / 2] % 16
        };
        assert(cs[i] == hex_digit(d));
    }
    assert(t.len() % 2 == 0);
    assert(!exists|i: int| 0 <= i < t.len() && (#[trigger] hex_val(t[i])) is None);
    let r = Seq::new(
        t.len() / 2,
        |i: int| (hex_val(t[2 * i])->0 * 16 + hex_val(t[2 * i + 1])->0) as u8,
    );
    assert forall|i: int| 0 <= i < b.len() implies r[i] == b[i] by {
        assert(hex_val(t[2 * i]) == Some(b[i] / 16));
        assert(hex_val(t[2 * i + 1]) == Some(b[i] % 16));
        assert((b[i] / 16) * 16 + b[i] % 16 == b[i]);
    }
    assert(r =~= b);
}

/// Reading back the hexadecimal text of an address gives the address.
pub proof fn lemma_addr_hex_round_trip(a: Addr)
    ensures
        addr_from_hex_spec(hex_chars(a@)) == Some(a@),
{
    lemma_hex_round_trip(a@);
}

} // verus!
