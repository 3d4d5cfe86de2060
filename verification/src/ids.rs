//! Which texts name a UUID, as the `uuid` crate reads them.
use vstd::prelude::*;

verus! {

/// An ASCII hexadecimal digit, either case.
pub open spec fn is_hex(c: char) -> bool {
    ('0' <= c && c <= '9') || ('a' <= c && c <= 'f') || ('A' <= c && c <= 'F')
}

/// `c` with ASCII capitals lowered.
pub open spec fn ascii_lower(c: char) -> char {
    if 'A' <= c && c <= 'Z' {
        ((c as u32) + 32) as char
    } else {
        c
    }
}

/// The 8-4-4-4-12 hyphenated form of 32 hex digits.
pub open spec fn hyphenated_uuid(s: Seq<char>) -> bool {
    &&& s.len() == 36
    &&& s[8] == '-' && s[13] == '-' && s[18] == '-' && s[23] == '-'
    &&& forall|i: int|
        0 <= i < 36 && i != 8 && i != 13 && i != 18 && i != 23 ==> is_hex(#[trigger] s[i])
}

/// The texts that `uuid::Uuid::parse_str` accepts: 32 hex digits, the
/// hyphenated form, the hyphenated form in braces, or the hyphenated form after
/// a `urn:uuid:` prefix matched without regard to ASCII case.
pub open spec fn uuid_text(s: Seq<char>) -> bool {
    ||| (s.len() == 32 && forall|i: int| 0 <= i < 32 ==> is_hex(#[trigger] s[i]))
    ||| hyphenated_uuid(s)
    ||| (s.len() == 38 && s[0] == '{' && s[37] == '}' && hyphenated_uuid(s.subrange(1, 37)))
    ||| (s.len() == 45 && (forall|i: int|
        0 <= i < 9 ==> #[trigger] ascii_lower(s[i]) == "urn:uuid:"@[i]) && hyphenated_uuid(
        s.skip(9),
    ))
}

/// uuid's `Uuid::parse_str`, reduced to whether it succeeds. The crate's
/// parser accepts exactly the four shapes of `uuid_text`; this contract
/// claims that, and nothing about the parsed value, which is not used.
#[verifier::external_body]
pub(crate) fn uuid_parses(s: &str) -> (ok: bool)
    ensures
        ok == uuid_text(s@),
{
    uuid::Uuid::parse_str(s).is_ok()
}

} // verus!
