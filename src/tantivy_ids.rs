//! Segment ids as the search engine library draws, parses and prints them.
use vstd::prelude::*;
use vstd::string::StringSliceAdditionalSpecFns;
use tantivy::index::SegmentId as TantivySegmentId;
use crate::segment::{is_lower_uuid_text, is_uuid_text, lower_text};

verus! {

/// The canonical text of the id that uuid's parser reads from the bytes of
/// a string, if it reads one.
pub uninterp spec fn parsed_uuid_text(b: Seq<u8>) -> Option<Seq<char>>;

/// Relies on tantivy's `SegmentId::generate_random`, which draws with
/// uuid's `new_v4` (version nibble 4, variant bits `10`), and on
/// `SegmentId::uuid_string`, which prints the id as 32 lowercase
/// hexadecimal digits.
#[verifier::external_body]
pub(crate) fn random_uuid_string() -> (r: String)
    ensures
        is_lower_uuid_text(r@),
        r@[12] == '4',
        r@[16] == '8' || r@[16] == '9' || r@[16] == 'a' || r@[16] == 'b',
{
    TantivySegmentId::generate_random().uuid_string()
}

/// Relies on tantivy's `SegmentId::from_uuid_string`, which parses with
/// uuid's `parse_str` (the simple, hyphenated, braced and urn forms, digits
/// in either case), and on `SegmentId::uuid_string`, which prints the
/// parsed id as 32 lowercase hexadecimal digits.
#[verifier::external_body]
pub(crate) fn canonical_uuid_text(s: &str) -> (r: Option<String>)
    ensures
        r matches Some(t) ==> parsed_uuid_text(s.spec_bytes()) == Some(t@),
        r is None ==> parsed_uuid_text(s.spec_bytes()) is None,
        r matches Some(t) ==> is_lower_uuid_text(t@),
        r is None ==> !is_uuid_text(s@),
        r matches Some(t) ==> (is_uuid_text(s@) ==> t@ == lower_text(s@)),
{
    match TantivySegmentId::from_uuid_string(s) {
        Ok(id) => Some(id.uuid_string()),
        Err(_) => None,
    }
}

} // verus!
