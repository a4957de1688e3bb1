//! Reading a segment's id and component kind back from a file name of the
//! form `{id}.{extension}` or `{id}.{marker}.{extension}`.
use vstd::prelude::*;
use vstd::slice::slice_subrange;
use vstd::string::StringSliceAdditionalSpecFns;
use vstd::utf8::{
    encode_utf8, encode_utf8_valid_utf8, is_ascii_chars_encode_utf8, is_char_boundary_iff_not_is_continuation_byte,
    is_char_boundary_start_end_of_seq,
};
use crate::tantivy_ids::parsed_uuid_text;
use crate::segment::{
    bytes_as_chars, component_path, extension_of, id_of_text, is_hex, lemma_uuid_text_round_trip, uuid_text,
    SegmentComponent, SegmentId,
};

verus! {

/// The separator between the parts of a file name.
pub const DOT: u8 = 46;

/// The position of the first dot at or after `from`.
pub open spec fn next_dot(b: Seq<u8>, from: int) -> Option<int>
    decreases b.len() - from,
{
    if from < 0 || from >= b.len() {
        None
    } else if b[from] == DOT {
        Some(from)
    } else {
        next_dot(b, from + 1)
    }
}

/// Where the part that starts at `from` ends.
pub open spec fn part_end(b: Seq<u8>, from: int) -> int {
    match next_dot(b, from) {
        Some(i) => i,
        None => b.len() as int,
    }
}

/// The part before the first dot: the segment id's text.
pub open spec fn id_part(b: Seq<u8>) -> Seq<u8> {
    b.take(part_end(b, 0))
}

/// The extension: the second part, or the third where there is one.
pub open spec fn extension_part(b: Seq<u8>) -> Option<Seq<u8>> {
    match next_dot(b, 0) {
        None => None,
        Some(i) => match next_dot(b, i + 1) {
            None => Some(b.skip(i + 1)),
            Some(j) => Some(b.subrange(j + 1, part_end(b, j + 1))),
        },
    }
}

/// The extension by which each component is recognised in a file name.
pub open spec fn recognised_extension(c: SegmentComponent) -> Seq<u8> {
    match c {
        SegmentComponent::Postings => seq![105u8, 100, 120],
        SegmentComponent::Positions => seq![112u8, 111, 115],
        SegmentComponent::FastFields => seq![102u8, 97, 115, 116],
        SegmentComponent::FieldNorms => seq![102u8, 105, 101, 108, 100, 110, 111, 114, 109],
        SegmentComponent::Terms => seq![116u8, 101, 114, 109],
        SegmentComponent::Store => seq![115u8, 116, 111, 114, 101],
        SegmentComponent::TempStore => seq![116u8, 101, 109, 112],
        SegmentComponent::Delete => seq![100u8, 101, 108],
    }
}

/// The component whose extension is `e`, if any.
pub open spec fn component_of_extension(e: Seq<u8>) -> Option<SegmentComponent> {
    if e == recognised_extension(SegmentComponent::Postings) {
        Some(SegmentComponent::Postings)
    } else if e == recognised_extension(SegmentComponent::Positions) {
        Some(SegmentComponent::Positions)
    } else if e == recognised_extension(SegmentComponent::FastFields) {
        Some(SegmentComponent::FastFields)
    } else if e == recognised_extension(SegmentComponent::FieldNorms) {
        Some(SegmentComponent::FieldNorms)
    } else if e == recognised_extension(SegmentComponent::Terms) {
        Some(SegmentComponent::Terms)
    } else if e == recognised_extension(SegmentComponent::Store) {
        Some(SegmentComponent::Store)
    } else if e == recognised_extension(SegmentComponent::TempStore) {
        Some(SegmentComponent::TempStore)
    } else if e == recognised_extension(SegmentComponent::Delete) {
        Some(SegmentComponent::Delete)
    } else {
        None
    }
}

/// The component kind named by the file name `b`.
pub open spec fn component_of_name(b: Seq<u8>) -> Option<SegmentComponent> {
    match extension_part(b) {
        Some(e) => component_of_extension(e),
        None => None,
    }
}

fn find_dot(b: &[u8], from: usize) -> (r: Option<usize>)
    requires
        from <= b@.len(),
    ensures
        r is None <==> next_dot(b@, from as int) is None,
        r matches Some(i) ==> next_dot(b@, from as int) == Some(i as int) && from <= i < b@.len(),
        r matches Some(i) ==> b@[i as int] == DOT,
{
    let mut i = from;
    while i < b.len()
        invariant
            from <= i <= b@.len(),
            next_dot(b@, from as int) == next_dot(b@, i as int),
        decreases b@.len() - i,
    {
        if b[i] == DOT {
            return Some(i);
        }
        i = i + 1;
    }
    None
}

fn recognised(c: SegmentComponent) -> (r: Vec<u8>)
    ensures
        r@ == recognised_extension(c),
{
    let r = match c {
        SegmentComponent::Postings => vec![105u8, 100, 120],
        SegmentComponent::Positions => vec![112u8, 111, 115],
        SegmentComponent::FastFields => vec![102u8, 97, 115, 116],
        SegmentComponent::FieldNorms => vec![102u8, 105, 101, 108, 100, 110, 111, 114, 109],
        SegmentComponent::Terms => vec![116u8, 101, 114, 109],
        SegmentComponent::Store => vec![115u8, 116, 111, 114, 101],
        SegmentComponent::TempStore => vec![116u8, 101, 109, 112],
        SegmentComponent::Delete => vec![100u8, 101, 108],
    };
    assert(r@ =~= recognised_extension(c));
    r
}

fn same_bytes(a: &[u8], b: &[u8]) -> (r: bool)
    ensures
        r == (a@ == b@),
{
    if a.len() != b.len() {
        return false;
    }
    let mut i: usize = 0;
    while i < a.len()
        invariant
            i <= a@.len(),
            a@.len() == b@.len(),
            forall|k: int| 0 <= k < i ==> a@[k] == b@[k],
        decreases a@.len() - i,
    {
        if a[i] != b[i] {
            return false;
        }
        i = i + 1;
    }
    assert(a@ =~= b@);
    true
}

fn matches_component(e: &[u8], c: SegmentComponent) -> (r: bool)
    ensures
        r == (e@ == recognised_extension(c)),
{
    let want = recognised(c);
    same_bytes(e, want.as_slice())
}

/// The component kind whose extension is `e`.
pub fn component_from_extension(e: &[u8]) -> (r: Option<SegmentComponent>)
    ensures
        r == component_of_extension(e@),
{
    if matches_component(e, SegmentComponent::Postings) {
        Some(SegmentComponent::Postings)
    } else if matches_component(e, SegmentComponent::Positions) {
        Some(SegmentComponent::Positions)
    } else if matches_component(e, SegmentComponent::FastFields) {
        Some(SegmentComponent::FastFields)
    } else if matches_component(e, SegmentComponent::FieldNorms) {
        Some(SegmentComponent::FieldNorms)
    } else if matches_component(e, SegmentComponent::Terms) {
        Some(SegmentComponent::Terms)
    } else if matches_component(e, SegmentComponent::Store) {
        Some(SegmentComponent::Store)
    } else if matches_component(e, SegmentComponent::TempStore) {
        Some(SegmentComponent::TempStore)
    } else if matches_component(e, SegmentComponent::Delete) {
        Some(SegmentComponent::Delete)
    } else {
        None
    }
}

/// The segment id that a file name starts with: the text before its first
/// dot, read by the search engine library's parser.
pub fn segment_id_of_file_name(name: &str) -> (r: Option<SegmentId>)
    ensures
        r == (match parsed_uuid_text(id_part(name.spec_bytes())) {
            Some(t) => id_of_text(t),
            None => None,
        }),
{
    let b = name.as_bytes();
    let end = match find_dot(b, 0) {
        Some(i) => i,
        None => b.len(),
    };
    proof {
        encode_utf8_valid_utf8(name@);
        is_char_boundary_start_end_of_seq(b@);
        if end < b@.len() {
            is_char_boundary_iff_not_is_continuation_byte(b@, end as int);
        }
    }
    let (part, _) = name.split_at(end);
    assert(part.spec_bytes() =~= id_part(b@));
    SegmentId::from_uuid_string(part)
}

/// The component kind that a file name's extension names.
pub fn component_type_of_file_name(name: &[u8]) -> (r: Option<SegmentComponent>)
    ensures
        r == component_of_name(name@),
{
    let n = name.len();
    let first = find_dot(name, 0);
    match first {
        None => None,
        Some(i) => {
            assert(i < n);
            let second = find_dot(name, i + 1);
            match second {
                None => {
                    let e = slice_subrange(name, i + 1, name.len());
                    assert(e@ =~= name@.skip(i + 1));
                    component_from_extension(e)
                },
                Some(j) => {
                    assert(j < n);
                    let end = match find_dot(name, j + 1) {
                        Some(k) => k,
                        None => name.len(),
                    };
                    let e = slice_subrange(name, j + 1, end);
                    component_from_extension(e)
                },
            }
        },
    }
}

/// The final component of a path, as std's `Path::file_name` finds it.
pub uninterp spec fn path_file_name(p: Seq<char>) -> Option<Seq<char>>;

/// Relies on std's `Path::file_name`: the final component of the path, if
/// there is one; what it is depends on the path alone.
#[verifier::external_body]
fn file_name_of(path: &str) -> (r: Option<String>)
    ensures
        r matches Some(n) ==> path_file_name(path@) == Some(n@),
        r is None ==> path_file_name(path@) is None,
{
    match std::path::Path::new(path).file_name() {
        Some(n) => Some(n.to_string_lossy().into_owned()),
        None => None,
    }
}

/// The bytes of a path's file name, if it has one.
pub open spec fn file_name_bytes(path: Seq<char>) -> Option<Seq<u8>> {
    match path_file_name(path) {
        Some(n) => Some(vstd::utf8::encode_utf8(n)),
        None => None,
    }
}

/// The segment id that a path's file name starts with.
pub fn path_segment_id(path: &str) -> (r: Option<SegmentId>)
    ensures
        r == (match file_name_bytes(path@) {
            Some(b) => match parsed_uuid_text(id_part(b)) {
                Some(t) => id_of_text(t),
                None => None,
            },
            None => None,
        }),
{
    match file_name_of(path) {
        Some(n) => segment_id_of_file_name(n.as_str()),
        None => None,
    }
}

/// The component kind that a path's file name names.
pub fn path_component_type(path: &str) -> (r: Option<SegmentComponent>)
    ensures
        r == (match file_name_bytes(path@) {
            Some(b) => component_of_name(b),
            None => None,
        }),
{
    match file_name_of(path) {
        Some(n) => component_type_of_file_name(n.as_str().as_bytes()),
        None => None,
    }
}

/// What a segment file's path says of the file.
pub trait SegmentFileDetails {
    fn segment_id(&self) -> Option<SegmentId>;

    fn component_type(&self) -> Option<SegmentComponent>;
}

impl SegmentFileDetails for str {
    fn segment_id(&self) -> (r: Option<SegmentId>)
        ensures
            r == (match file_name_bytes(self@) {
                Some(b) => match parsed_uuid_text(id_part(b)) {
                    Some(t) => id_of_text(t),
                    None => None,
                },
                None => None,
            }),
    {
        path_segment_id(self)
    }

    fn component_type(&self) -> (r: Option<SegmentComponent>)
        ensures
            r == (match file_name_bytes(self@) {
                Some(b) => component_of_name(b),
                None => None,
            }),
    {
        path_component_type(self)
    }
}

proof fn lemma_next_dot_at(b: Seq<u8>, from: int, k: int)
    requires
        0 <= from <= k < b.len(),
        b[k] == DOT,
        forall|j: int| from <= j < k ==> b[j] != DOT,
    ensures
        next_dot(b, from) == Some(k),
    decreases k - from,
{
    if from < k {
        lemma_next_dot_at(b, from + 1, k);
    }
}

proof fn lemma_next_dot_none(b: Seq<u8>, from: int)
    requires
        0 <= from,
        forall|j: int| from <= j < b.len() ==> b[j] != DOT,
    ensures
        next_dot(b, from) is None,
    decreases b.len() - from,
{
    if from < b.len() {
        lemma_next_dot_none(b, from + 1);
    }
}

/// The characters that follow a segment id's text and its dot in a path.
spec fn path_suffix(c: SegmentComponent) -> Seq<char> {
    if c == SegmentComponent::Delete {
        seq!['0', '.'] + extension_of(c)
    } else {
        extension_of(c)
    }
}

/// Every generated component path names its segment and its component:
/// reading the file name back gives the same id and the same kind.
pub proof fn lemma_component_path_parses_back(id: SegmentId, c: SegmentComponent)
    ensures
        bytes_as_chars(id_part(encode_utf8(component_path(id, c)))) == uuid_text(id),
        id_of_text(bytes_as_chars(id_part(encode_utf8(component_path(id, c))))) == Some(id),
        component_of_name(encode_utf8(component_path(id, c))) == Some(c),
{
    let p = component_path(id, c);
    let t = uuid_text(id);
    lemma_uuid_text_round_trip(id);
    let sfx = path_suffix(c);
    assert(p =~= t + seq!['.'] + sfx);
    assert forall|i: int| 0 <= i < p.len() implies '\0' <= #[trigger] p[i] <= '\u{7f}' by {
        if i < 32 {
            assert(is_hex(t[i]));
        }
    }
    is_ascii_chars_encode_utf8(p);
    let b = encode_utf8(p);
    assert forall|i: int| 0 <= i < 32 implies #[trigger] b[i] != DOT by {
        assert(is_hex(t[i]));
        assert(b[i] == p[i] as u8);
    }
    assert(b[32] == p[32] as u8);
    lemma_next_dot_at(b, 0, 32);
    assert(bytes_as_chars(id_part(b)) =~= t) by {
        assert forall|i: int| 0 <= i < 32 implies #[trigger] bytes_as_chars(id_part(b))[i] == t[i] by {
            assert(b[i] == p[i] as u8);
            assert(is_hex(t[i]));
        }
    }
    assert forall|i: int| 33 <= i < b.len() implies #[trigger] b[i] == p[i] as u8 by {}
    match c {
        SegmentComponent::Delete => {
            assert(b[33] != DOT);
            lemma_next_dot_at(b, 33, 34);
            lemma_next_dot_none(b, 35);
            assert(b.subrange(35, b.len() as int) =~= recognised_extension(c));
        },
        SegmentComponent::TempStore => {
            lemma_next_dot_at(b, 33, 38);
            lemma_next_dot_none(b, 39);
            assert(b.subrange(39, b.len() as int) =~= recognised_extension(c));
        },
        _ => {
            lemma_next_dot_none(b, 33);
            assert(b.skip(33) =~= recognised_extension(c));
        },
    }
}

} // verus!
