use vstd::prelude::*;
use vstd::string::StrSliceExecFns;
use vstd::utf8::{decode_utf8, encode_utf8, valid_utf8};

use crate::hexcode::hex_val;
use crate::text::{char_slice, owned};
use crate::validate::{valid_kit_id, validate_kit_id};

verus! {

/// Why a request for a sound kit file is refused before the disk is read.
#[derive(Clone, Copy, Debug, PartialEq, Eq, Structural)]
pub enum KitRequestError {
    /// The path has no `<kit>/<file>` shape.
    InvalidPath,
    /// The kit part is no valid kit ID.
    InvalidKitId,
    /// The file part, decoded, holds `..`.
    PathTraversal,
}

impl KitRequestError {
    /// The HTTP status the refusal is answered with.
    pub fn status(&self) -> (s: u16)
        ensures
            s == (match self {
                KitRequestError::InvalidPath => 400u16,
                _ => 403u16,
            }),
    {
        match self {
            KitRequestError::InvalidPath => 400,
            _ => 403,
        }
    }

    /// The body the refusal is answered with.
    pub fn body(&self) -> (b: String)
        ensures
            b@ == (match self {
                KitRequestError::InvalidPath => "Invalid path"@,
                KitRequestError::InvalidKitId => "Invalid kit ID"@,
                KitRequestError::PathTraversal => "Path traversal rejected"@,
            }),
    {
        match self {
            KitRequestError::InvalidPath => owned("Invalid path"),
            KitRequestError::InvalidKitId => owned("Invalid kit ID"),
            KitRequestError::PathTraversal => owned("Path traversal rejected"),
        }
    }
}

/// Percent-decoding of bytes: every `%` followed by two hexadecimal digits
/// becomes the byte they write; every other byte stays.
pub open spec fn percent_decoded(b: Seq<u8>) -> Seq<u8>
    decreases b.len(),
{
    if b.len() == 0 {
        b
    } else if b.len() >= 3 && b[0] == 37 && hex_val(b[1]) is Some && hex_val(b[2]) is Some {
        seq![(hex_val(b[1])->0 * 16 + hex_val(b[2])->0) as u8] + percent_decoded(b.skip(3))
    } else {
        seq![b[0]] + percent_decoded(b.skip(1))
    }
}

/// Trusted: calls `percent_encoding::percent_decode_str` and its
/// `decode_utf8`, taking the text as an owned string. Its source decodes
/// each `%` followed by two hexadecimal digits and keeps every other byte,
/// then reads the bytes as UTF-8, failing exactly on invalid UTF-8.
#[verifier::external_body]
fn percent_decode_utf8(s: &str) -> (r: Option<String>)
    ensures
        r is Some <==> valid_utf8(percent_decoded(encode_utf8(s@))),
        r matches Some(t) ==> t@ == decode_utf8(percent_decoded(encode_utf8(s@))),
{
    match percent_encoding::percent_decode_str(s).decode_utf8() {
        Ok(t) => Some(t.into_owned()),
        Err(_) => None,
    }
}

/// `s` without its leading slashes.
pub open spec fn trim_slashes(s: Seq<char>) -> Seq<char>
    decreases s.len(),
{
    if s.len() > 0 && s[0] == '/' {
        trim_slashes(s.drop_first())
    } else {
        s
    }
}

/// Where the first `/` stands in `s`, if anywhere.
pub open spec fn first_slash(s: Seq<char>) -> Option<int>
    decreases s.len(),
{
    if s.len() == 0 {
        None
    } else if s[0] == '/' {
        Some(0)
    } else {
        match first_slash(s.drop_first()) {
            Some(i) => Some(i + 1),
            None => None,
        }
    }
}

/// Whether `s` holds `..`.
pub open spec fn has_dot_dot(s: Seq<char>) -> bool {
    exists|i: int| 0 <= i && i + 1 < s.len() && #[trigger] s[i] == '.' && s[i + 1] == '.'
}

/// The decoded file part of a request: the text its percent-decoding reads
/// as, or empty text when that is not UTF-8.
pub open spec fn decoded_file(f: Seq<char>) -> Seq<char> {
    let b = percent_decoded(encode_utf8(f));
    if valid_utf8(b) {
        decode_utf8(b)
    } else {
        Seq::empty()
    }
}

/// The checks on a sound kit request path `<kit>/<file>` (leading slashes
/// ignored, split at the first slash after them): the kit must be a valid kit
/// ID, and the file part, percent-decoded, must not hold `..`. On success,
/// the kit ID and the decoded file part.
pub open spec fn kit_request_spec(path: Seq<char>) -> Result<(Seq<char>, Seq<char>), KitRequestError> {
    let t = trim_slashes(path);
    match first_slash(t) {
        None => Err(KitRequestError::InvalidPath),
        Some(i) => {
            let kit = t.take(i);
            let file = decoded_file(t.skip(i + 1));
            if !valid_kit_id(kit) {
                Err(KitRequestError::InvalidKitId)
            } else if has_dot_dot(file) {
                Err(KitRequestError::PathTraversal)
            } else {
                Ok((kit, file))
            }
        },
    }
}

proof fn lemma_trim_slashes(s: Seq<char>, i: int)
    requires
        0 <= i <= s.len(),
        forall|j: int| 0 <= j < i ==> s[j] == '/',
        i == s.len() || s[i] != '/',
    ensures
        trim_slashes(s) == s.skip(i),
    decreases i,
{
    if i > 0 {
        assert forall|j: int| 0 <= j < i - 1 implies s.drop_first()[j] == '/' by {
            assert(s.drop_first()[j] == s[j + 1]);
        }
        lemma_trim_slashes(s.drop_first(), i - 1);
        assert(s.drop_first().skip(i - 1) =~= s.skip(i));
    } else {
        assert(s.skip(0) =~= s);
    }
}

proof fn lemma_first_slash(s: Seq<char>, i: int)
    requires
        0 <= i <= s.len(),
        forall|j: int| 0 <= j < i ==> s[j] != '/',
    ensures
        i < s.len() && s[i] == '/' ==> first_slash(s) == Some(i),
        i == s.len() ==> first_slash(s) is None,
    decreases i,
{
    if i > 0 {
        assert forall|j: int| 0 <= j < i - 1 implies s.drop_first()[j] != '/' by {
            assert(s.drop_first()[j] == s[j + 1]);
        }
        lemma_first_slash(s.drop_first(), i - 1);
    }
}

/// Whether `s` holds `..`.
pub fn holds_dot_dot(s: &str) -> (b: bool)
    ensures
        b == has_dot_dot(s@),
{
    let n = s.unicode_len();
    let mut i: usize = 0;
    while i < n && i + 1 < n
        invariant
            n == s@.len(),
            i <= n,
            forall|j: int| 0 <= j < i && j + 1 < n ==> !(#[trigger] s@[j] == '.' && s@[j + 1] == '.'),
        decreases n - i,
    {
        if s.get_char(i) == '.' && s.get_char(i + 1) == '.' {
            return true;
        }
        i = i + 1;
    }
    false
}

/// Check a request for a sound kit file by its URI path (see
/// `kit_request_spec`): the kit ID and the decoded file path, or why it is
/// refused.
pub fn kit_request(path: &str) -> (r: Result<(String, String), KitRequestError>)
    ensures
        match (r, kit_request_spec(path@)) {
            (Ok((k, f)), Ok((ks, fs))) => k@ == ks && f@ == fs,
            (Err(e), Err(es)) => e == es,
            _ => false,
        },
{
    let n = path.unicode_len();
    let mut start: usize = 0;
    while start < n && path.get_char(start) == '/'
        invariant
            n == path@.len(),
            start <= n,
            forall|j: int| 0 <= j < start ==> path@[j] == '/',
        decreases n - start,
    {
        start = start + 1;
    }
    let ghost t = path@.skip(start as int);
    proof {
        lemma_trim_slashes(path@, start as int);
    }
    let mut i: usize = start;
    while i < n && path.get_char(i) != '/'
        invariant
            n == path@.len(),
            start <= i <= n,
            t == path@.skip(start as int),
            forall|j: int| 0 <= j < i - start ==> t[j] != '/',
        decreases n - i,
    {
        i = i + 1;
    }
    proof {
        lemma_first_slash(t, i - start);
    }
    if i == n {
        return Err(KitRequestError::InvalidPath);
    }
    let kit = char_slice(path, start, i);
    let raw = char_slice(path, i + 1, n);
    proof {
        assert(kit@ =~= t.take(i - start));
        assert(raw@ =~= t.skip(i - start + 1));
    }
    if validate_kit_id(kit.as_str()).is_err() {
        return Err(KitRequestError::InvalidKitId);
    }
    let file = match percent_decode_utf8(raw.as_str()) {
        Some(f) => f,
        None => String::new(),
    };
    proof {
        assert(file@ == decoded_file(raw@));
    }
    if holds_dot_dot(file.as_str()) {
        return Err(KitRequestError::PathTraversal);
    }
    Ok((kit, file))
}

/// The content type a sound kit file is served with, by its extension.
pub fn kit_mime(extension: Option<&str>) -> (m: String)
    ensures
        m@ == (match extension {
            Some(e) => if e@ == "mp3"@ {
                "audio/mpeg"@
            } else if e@ == "ogg"@ {
                "audio/ogg"@
            } else if e@ == "wav"@ {
                "audio/wav"@
            } else if e@ == "flac"@ {
                "audio/flac"@
            } else {
                "application/octet-stream"@
            },
            None => "application/octet-stream"@,
        }),
{
    match extension {
        Some(e) => if crate::strmap::str_eq(e, "mp3") {
            owned("audio/mpeg")
        } else if crate::strmap::str_eq(e, "ogg") {
            owned("audio/ogg")
        } else if crate::strmap::str_eq(e, "wav") {
            owned("audio/wav")
        } else if crate::strmap::str_eq(e, "flac") {
            owned("audio/flac")
        } else {
            owned("application/octet-stream")
        },
        None => owned("application/octet-stream"),
    }
}

} // verus!
