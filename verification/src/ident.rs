//! Stored identifiers: the random names under which encrypted objects are
//! kept, so that the store never sees a file's own name.

use vstd::prelude::*;

verus! {

/// Length of an identifier's text.
pub const UUID_TEXT_LEN: usize = 36;

/// Whether `c` is a lower-case hexadecimal digit.
pub open spec fn is_lower_hex(c: char) -> bool {
    ('0' <= c && c <= '9') || ('a' <= c && c <= 'f')
}

/// Whether `text` is a version 4 UUID in its hyphenated lower-case form:
/// 36 characters, hyphens at 8, 13, 18 and 23, hexadecimal digits elsewhere,
/// the version digit `4` and a variant digit of `8`, `9`, `a` or `b`.
pub open spec fn is_uuid_text(text: Seq<char>) -> bool {
    &&& text.len() == UUID_TEXT_LEN
    &&& forall|i: int|
        0 <= i < text.len() ==> if i == 8 || i == 13 || i == 18 || i == 23 {
            #[trigger] text[i] == '-'
        } else {
            is_lower_hex(text[i])
        }
    &&& text[14] == '4'
    &&& (text[19] == '8' || text[19] == '9' || text[19] == 'a' || text[19] == 'b')
}

/// `uuid::Uuid::new_v4().to_string()`.
///
/// Trusted: the text has the form of [`is_uuid_text`]; nothing is claimed of
/// the random digits.
#[verifier::external_body]
pub(crate) fn fresh_uuid() -> (id: String)
    ensures
        is_uuid_text(id@),
{
    uuid::Uuid::new_v4().to_string()
}

/// An identifier holds no `/`, so it is always a whole key segment.
pub proof fn lemma_uuid_text_has_no_slash(text: Seq<char>)
    requires
        is_uuid_text(text),
    ensures
        forall|i: int| 0 <= i < text.len() ==> text[i] != '/',
{
    assert forall|i: int| 0 <= i < text.len() implies text[i] != '/' by {
        if i == 8 || i == 13 || i == 18 || i == 23 {
            assert(text[i] == '-');
        } else {
            assert(is_lower_hex(text[i]));
        }
    }
}

} // verus!
