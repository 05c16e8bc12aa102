use vstd::prelude::*;
use vstd::string::StrSliceExecFns;

use crate::text::{concat2, owned};

verus! {

/// Whether `c` is alphabetic or numeric in the sense of Unicode, as
/// `char::is_alphanumeric` decides it.
pub uninterp spec fn char_alphanumeric(c: char) -> bool;

/// Trusted: calls `char::is_alphanumeric`, which is true of alphabetic and
/// numeric characters. The contract names the answer, and of the Unicode
/// tables inside std says only this much: ASCII letters and digits are
/// alphanumeric, and `.`, `/`, `\`, `-` and `_` (punctuation) are not.
#[verifier::external_body]
fn is_alphanumeric(c: char) -> (b: bool)
    ensures
        b == char_alphanumeric(c),
        ('a' <= c <= 'z' || 'A' <= c <= 'Z' || '0' <= c <= '9') ==> b,
        (c == '.' || c == '/' || c == '\\' || c == '-' || c == '_') ==> !b,
{
    c.is_alphanumeric()
}

/// A character that may stand in a sound kit ID.
pub open spec fn kit_char_ok(c: char) -> bool {
    &&& c != '.'
    &&& c != '/'
    &&& c != '\\'
    &&& (char_alphanumeric(c) || c == '-' || c == '_')
}

/// A sound kit ID: not empty, and made of letters, digits, `-` and `_` only,
/// so that it can never name a path outside the kit directory.
pub open spec fn valid_kit_id(id: Seq<char>) -> bool {
    id.len() > 0 && forall|i: int| 0 <= i < id.len() ==> kit_char_ok(#[trigger] id[i])
}

/// An ID made only of ASCII letters, digits, `-` and `_`, not empty.
pub open spec fn plain_kit_id(id: Seq<char>) -> bool {
    id.len() > 0 && forall|i: int|
        0 <= i < id.len() ==> {
            let c = #[trigger] id[i];
            'a' <= c <= 'z' || 'A' <= c <= 'Z' || '0' <= c <= '9' || c == '-' || c == '_'
        }
}

/// Check a sound kit ID. An empty ID is refused with its own message; any
/// other invalid ID is refused with a message that quotes it. IDs of ASCII
/// letters, digits, `-` and `_` pass.
pub fn validate_kit_id(id: &str) -> (r: Result<(), String>)
    ensures
        r is Ok <==> valid_kit_id(id@),
        plain_kit_id(id@) ==> r is Ok,
        id@.len() == 0 ==> (r matches Err(e) && e@ == "Kit ID must not be empty"@),
        id@.len() > 0 && !valid_kit_id(id@) ==> (r matches Err(e) && e@ == "Invalid kit ID: "@
            + id@),
{
    let n = id.unicode_len();
    if n == 0 {
        return Err(owned("Kit ID must not be empty"));
    }
    let mut i: usize = 0;
    while i < n
        invariant
            n == id@.len(),
            0 <= i <= n,
            forall|j: int| 0 <= j < i ==> kit_char_ok(#[trigger] id@[j]),
        decreases n - i,
    {
        let c = id.get_char(i);
        let ok = c != '.' && c != '/' && c != '\\' && (is_alphanumeric(c) || c == '-' || c
            == '_');
        if !ok {
            proof {
                assert(!kit_char_ok(id@[i as int]));
            }
            return Err(concat2("Invalid kit ID: ", id));
        }
        i = i + 1;
    }
    Ok(())
}

/// Unicode `White_Space`: the characters that `str::trim` removes.
pub open spec fn is_white_space(c: char) -> bool {
    let v = c as u32;
    ||| 0x09 <= v <= 0x0D
    ||| v == 0x20
    ||| v == 0x85
    ||| v == 0xA0
    ||| v == 0x1680
    ||| 0x2000 <= v <= 0x200A
    ||| v == 0x2028
    ||| v == 0x2029
    ||| v == 0x202F
    ||| v == 0x205F
    ||| v == 0x3000
}

/// `s` without its leading white space.
pub open spec fn trim_start(s: Seq<char>) -> Seq<char>
    decreases s.len(),
{
    if s.len() > 0 && is_white_space(s[0]) {
        trim_start(s.drop_first())
    } else {
        s
    }
}

/// `s` without its trailing white space.
pub open spec fn trim_end(s: Seq<char>) -> Seq<char>
    decreases s.len(),
{
    if s.len() > 0 && is_white_space(s.last()) {
        trim_end(s.drop_last())
    } else {
        s
    }
}

/// `s` without leading and trailing white space.
pub open spec fn trim(s: Seq<char>) -> Seq<char> {
    trim_end(trim_start(s))
}

/// Whether `c` is white space.
pub fn is_white_space_char(c: char) -> (b: bool)
    ensures
        b == is_white_space(c),
{
    let v = c as u32;
    (0x09 <= v && v <= 0x0D) || v == 0x20 || v == 0x85 || v == 0xA0 || v == 0x1680 || (0x2000
        <= v && v <= 0x200A) || v == 0x2028 || v == 0x2029 || v == 0x202F || v == 0x205F || v
        == 0x3000
}

/// `s` with leading and trailing white space removed.
pub fn trim_str(s: &str) -> (r: String)
    ensures
        r@ == trim(s@),
{
    let n = s.unicode_len();
    let ghost full = s@;
    proof {
        assert(full.subrange(0, n as int) =~= full);
    }
    let mut i: usize = 0;
    while i < n && is_white_space_char(s.get_char(i))
        invariant
            n == full.len(),
            full == s@,
            0 <= i <= n,
            trim_start(full) == trim_start(full.subrange(i as int, n as int)),
        decreases n - i,
    {
        proof {
            let t = full.subrange(i as int, n as int);
            assert(t[0] == full[i as int]);
            assert(t.drop_first() =~= full.subrange(i + 1, n as int));
        }
        i = i + 1;
    }
    proof {
        let t = full.subrange(i as int, n as int);
        if i < n {
            assert(t[0] == full[i as int]);
        }
        assert(trim_start(t) == t);
    }
    let mut j: usize = n;
    while j > i && is_white_space_char(s.get_char(j - 1))
        invariant
            n == full.len(),
            full == s@,
            0 <= i <= j <= n,
            trim(full) == trim_end(full.subrange(i as int, j as int)),
        decreases j - i,
    {
        proof {
            let t = full.subrange(i as int, j as int);
            assert(t.last() == full[j - 1]);
            assert(t.drop_last() =~= full.subrange(i as int, j - 1));
        }
        j = j - 1;
    }
    proof {
        let t = full.subrange(i as int, j as int);
        if j > i {
            assert(t.last() == full[j - 1]);
        }
        assert(trim_end(t) == t);
    }
    let part = s.substring_char(i, j);
    owned(part)
}

/// The longest group name, in characters.
pub const MAX_GROUP_NAME_CHARS: usize = 40;

/// Check a group name and give it back without surrounding white space: it
/// must not be empty once trimmed, and must hold at most 40 characters.
pub fn normalize_group_name(name: &str) -> (r: Result<String, String>)
    ensures
        trim(name@).len() == 0 ==> (r matches Err(e) && e@ == "Group name must not be empty"@),
        trim(name@).len() > MAX_GROUP_NAME_CHARS ==> (r matches Err(e) && e@
            == "Group name must be 40 characters or fewer"@),
        0 < trim(name@).len() <= MAX_GROUP_NAME_CHARS ==> (r matches Ok(t) && t@ == trim(
            name@,
        )),
{
    let trimmed = trim_str(name);
    let count = trimmed.as_str().unicode_len();
    if count == 0 {
        return Err(owned("Group name must not be empty"));
    }
    if count > MAX_GROUP_NAME_CHARS {
        return Err(owned("Group name must be 40 characters or fewer"));
    }
    Ok(trimmed)
}

} // verus!
