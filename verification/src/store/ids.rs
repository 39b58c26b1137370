//! Fresh ids and the time of recording.

use vstd::prelude::*;

verus! {

/// A lower-case hexadecimal digit.
pub open spec fn is_hex(c: char) -> bool {
    ('0' <= c && c <= '9') || ('a' <= c && c <= 'f')
}

/// The text of a random UUID: five groups of hexadecimal digits, of version 4 and of
/// the standard variant.
pub open spec fn is_uuid(s: Seq<char>) -> bool {
    &&& s.len() == 36
    &&& forall|i: int|
        0 <= i < 36 ==> if i == 8 || i == 13 || i == 18 || i == 23 {
            #[trigger] s[i] == '-'
        } else {
            is_hex(s[i])
        }
    &&& s[14] == '4'
    &&& s[19] == '8' || s[19] == '9' || s[19] == 'a' || s[19] == 'b'
}

/// `uuid::Uuid::new_v4`, written out. Which id comes is left to chance; claimed is
/// only its form.
#[verifier::external_body]
pub(crate) fn fresh_id() -> (r: String)
    ensures
        is_uuid(r@),
{
    uuid::Uuid::new_v4().to_string()
}

/// The text of a date in UTC: it ends with the offset.
pub open spec fn is_utc_date(s: Seq<char>) -> bool {
    "+00:00"@.is_suffix_of(s)
}

/// `chrono::Utc::now`, written out by `to_rfc3339`. Claimed of the text is only that
/// it ends with the offset of UTC.
#[verifier::external_body]
pub(crate) fn now() -> (r: String)
    ensures
        is_utc_date(r@),
{
    chrono::Utc::now().to_rfc3339()
}

} // verus!
