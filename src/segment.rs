use vstd::prelude::*;
use vstd::bytes::{spec_u64_to_le_bytes_to_open, lemma_auto_spec_u64_to_from_le_bytes, spec_u64_from_le_bytes, spec_u64_to_le_bytes, u64_from_le_bytes, u64_to_le_bytes};
use vstd::slice::slice_subrange;
use vstd::string::StringExecFns;
use vstd::string::StringSliceAdditionalSpecFns;
use crate::tantivy_ids::{canonical_uuid_text, parsed_uuid_text, random_uuid_string};
use crate::block::{BlockNumber, TransactionId, FROZEN_TRANSACTION_ID, INVALID_BLOCK_NUMBER, INVALID_TRANSACTION_ID};

verus! {

/// The 128-bit identifier of one immutable segment. Its sixteen bytes, in
/// the order in which they are stored and printed, are the little-endian
/// bytes of `hi` followed by those of `lo`.
#[derive(Clone, Copy, Debug, PartialEq, Eq, Structural, Hash)]
pub struct SegmentId {
    pub hi: u64,
    pub lo: u64,
}

/// Whether every byte of the identifier is zero: the placeholder id that no
/// generated segment carries.
pub open spec fn is_zero_id(id: SegmentId) -> bool {
    id.hi == 0 && id.lo == 0
}

/// Lowercase hexadecimal digit of a value below 16.
pub open spec fn hex_char(n: u8) -> char {
    if n < 10 {
        (('0' as u8) + n) as char
    } else {
        (('a' as u8) + (n - 10)) as char
    }
}

/// The segment id as 32 lowercase hexadecimal digits, high nibble first.
pub open spec fn uuid_text(id: SegmentId) -> Seq<char> {
    Seq::new(
        32,
        |i: int|
            if i % 2 == 0 {
                hex_char(id.bytes()[i / 2] / 16)
            } else {
                hex_char(id.bytes()[i / 2] % 16)
            },
    )
}

/// Whether `c` is a hexadecimal digit, in either case.
pub open spec fn is_hex(c: char) -> bool {
    ('0' <= c && c <= '9') || ('a' <= c && c <= 'f') || ('A' <= c && c <= 'F')
}

/// The value of a hexadecimal digit.
pub open spec fn hex_val(c: char) -> int {
    if '0' <= c && c <= '9' {
        c as int - '0' as int
    } else if 'a' <= c && c <= 'f' {
        c as int - 'a' as int + 10
    } else {
        c as int - 'A' as int + 10
    }
}

/// Whether `s` spells a segment id: 32 hexadecimal digits.
pub open spec fn is_uuid_text(s: Seq<char>) -> bool {
    s.len() == 32 && forall|i: int| 0 <= i < 32 ==> is_hex(#[trigger] s[i])
}

/// The sixteen byte values that the 32 digits of `t` spell.
pub open spec fn text_bytes(t: Seq<char>) -> Seq<u8> {
    Seq::new(16, |i: int| text_byte(t, i) as u8)
}

/// The identifier that `t` spells, if it is 32 hexadecimal digits.
pub open spec fn id_of_text(t: Seq<char>) -> Option<SegmentId> {
    if is_uuid_text(t) {
        Some(
            SegmentId {
                hi: spec_u64_from_le_bytes(text_bytes(t).take(8)),
                lo: spec_u64_from_le_bytes(text_bytes(t).skip(8)),
            },
        )
    } else {
        None
    }
}

/// Bytes read as characters, one each.
pub open spec fn bytes_as_chars(b: Seq<u8>) -> Seq<char> {
    b.map_values(|x: u8| x as char)
}

/// Whether `s` is 32 lowercase hexadecimal digits, as ids are printed.
pub open spec fn is_lower_uuid_text(s: Seq<char>) -> bool {
    s.len() == 32 && forall|i: int|
        0 <= i < 32 ==> ('0' <= #[trigger] s[i] && s[i] <= '9') || ('a' <= s[i] && s[i] <= 'f')
}

/// A hexadecimal letter in lower case; other characters unchanged.
pub open spec fn lower_char(c: char) -> char {
    if 'A' <= c && c <= 'F' {
        ((c as u32) + 32) as char
    } else {
        c
    }
}

/// The text with its hexadecimal letters in lower case.
pub open spec fn lower_text(s: Seq<char>) -> Seq<char> {
    s.map_values(|c: char| lower_char(c))
}

/// The value of the byte that digits `2 * i` and `2 * i + 1` of `s` spell.
pub open spec fn text_byte(s: Seq<char>, i: int) -> int {
    hex_val(s[2 * i]) * 16 + hex_val(s[2 * i + 1])
}

fn hex_value(b: u8) -> (r: Option<u8>)
    ensures
        r is Some <==> is_hex(b as char),
        r matches Some(v) ==> v == hex_val(b as char) && v < 16,
{
    if b >= 48 && b <= 57 {
        Some(b - 48)
    } else if b >= 97 && b <= 102 {
        Some(b - 87)
    } else if b >= 65 && b <= 70 {
        Some(b - 55)
    } else {
        None
    }
}

/// One digit as a one-character string.
fn hex_digit(n: u8) -> (r: &'static str)
    requires
        n < 16,
    ensures
        r@ == seq![hex_char(n)],
{
    let r = match n {
        0 => "0",
        1 => "1",
        2 => "2",
        3 => "3",
        4 => "4",
        5 => "5",
        6 => "6",
        7 => "7",
        8 => "8",
        9 => "9",
        10 => "a",
        11 => "b",
        12 => "c",
        13 => "d",
        14 => "e",
        _ => "f",
    };
    proof {
        reveal_strlit("0");
        reveal_strlit("1");
        reveal_strlit("2");
        reveal_strlit("3");
        reveal_strlit("4");
        reveal_strlit("5");
        reveal_strlit("6");
        reveal_strlit("7");
        reveal_strlit("8");
        reveal_strlit("9");
        reveal_strlit("a");
        reveal_strlit("b");
        reveal_strlit("c");
        reveal_strlit("d");
        reveal_strlit("e");
        reveal_strlit("f");
    }
    assert(r@ =~= seq![hex_char(n)]);
    r
}

impl SegmentId {
    /// The identifier's sixteen bytes.
    pub open spec fn bytes(&self) -> Seq<u8> {
        spec_u64_to_le_bytes(self.hi) + spec_u64_to_le_bytes(self.lo)
    }

    /// The all-zero placeholder identifier.
    pub fn zero() -> (r: SegmentId)
        ensures
            is_zero_id(r),
    {
        SegmentId { hi: 0, lo: 0 }
    }

    /// Whether this is the all-zero placeholder identifier.
    pub fn is_zero(&self) -> (r: bool)
        ensures
            r == is_zero_id(*self),
    {
        self.hi == 0 && self.lo == 0
    }

    /// The identifier made of sixteen bytes; `None` for any other length.
    pub fn from_bytes(b: &[u8]) -> (r: Option<SegmentId>)
        ensures
            b@.len() == 16 <==> r is Some,
            r matches Some(id) ==> id.bytes() == b@,
    {
        if b.len() != 16 {
            return None;
        }
        let hi = u64_from_le_bytes(slice_subrange(b, 0, 8));
        let lo = u64_from_le_bytes(slice_subrange(b, 8, 16));
        proof {
            lemma_auto_spec_u64_to_from_le_bytes();
            assert(b@ =~= b@.subrange(0, 8) + b@.subrange(8, 16));
        }
        Some(SegmentId { hi, lo })
    }

    /// The identifier's sixteen bytes.
    pub fn to_bytes(&self) -> (r: Vec<u8>)
        ensures
            r@ == self.bytes(),
    {
        let mut v = u64_to_le_bytes(self.hi);
        let mut w = u64_to_le_bytes(self.lo);
        v.append(&mut w);
        v
    }

    /// The identifier that `s` names, read by the search engine library's
    /// parser: 32 hexadecimal digits in either case, or the hyphenated,
    /// braced or urn forms of a uuid. `None` for any other text.
    pub fn from_uuid_string(s: &str) -> (r: Option<SegmentId>)
        ensures
            r == (match parsed_uuid_text(s.spec_bytes()) {
                Some(t) => id_of_text(t),
                None => None,
            }),
            is_uuid_text(s@) ==> r == id_of_text(s@),
    {
        match canonical_uuid_text(s) {
            Some(t) => {
                proof {
                    if is_uuid_text(s@) {
                        lemma_lower_text_same_id(s@);
                    }
                }
                SegmentId::from_hex_text(t.as_str())
            },
            None => None,
        }
    }

    /// The identifier that `s` spells as 32 hexadecimal digits; `None` for
    /// any other text.
    fn from_hex_text(s: &str) -> (r: Option<SegmentId>)
        ensures
            r == id_of_text(s@),
            r is Some <==> is_uuid_text(s@),
            r matches Some(id) ==> forall|i: int| 0 <= i < 16 ==> #[trigger] id.bytes()[i] == text_byte(s@, i),
    {
        if !s.is_ascii() {
            proof {
                if is_uuid_text(s@) {
                    assert forall|i: int| 0 <= i < s@.len() implies '\0' <= #[trigger] s@[i] <= '\u{7f}' by {
                        assert(is_hex(s@[i]));
                    }
                }
            }
            return None;
        }
        proof {
            vstd::string::is_ascii_spec_bytes(s);
        }
        let b = s.as_bytes();
        assert(bytes_as_chars(b@) =~= s@);
        SegmentId::from_uuid_bytes(b)
    }

    /// The identifier that the bytes `b` spell as 32 hexadecimal digits, in
    /// either case; `None` for any other bytes.
    fn from_uuid_bytes(b: &[u8]) -> (r: Option<SegmentId>)
        ensures
            r == id_of_text(bytes_as_chars(b@)),
            r is Some <==> is_uuid_text(bytes_as_chars(b@)),
            r matches Some(id) ==> forall|i: int|
                0 <= i < 16 ==> #[trigger] id.bytes()[i] == text_byte(bytes_as_chars(b@), i),
    {
        let ghost t = bytes_as_chars(b@);
        if b.len() != 32 {
            return None;
        }
        let mut v: Vec<u8> = Vec::new();
        let mut i: usize = 0;
        while i < 16
            invariant
                i <= 16,
                b@.len() == 32,
                t == bytes_as_chars(b@),
                forall|k: int| 0 <= k < 2 * i ==> is_hex(#[trigger] t[k]),
                v@.len() == i,
                forall|k: int| 0 <= k < i ==> #[trigger] v@[k] == text_byte(t, k),
            decreases 16 - i,
        {
            let hi = hex_value(b[2 * i]);
            let lo = hex_value(b[2 * i + 1]);
            assert(t[2 * i] == b@[2 * i as int] as char);
            assert(t[2 * i + 1] == b@[2 * i + 1] as char);
            match (hi, lo) {
                (Some(h), Some(l)) => {
                    v.push(h * 16 + l);
                },
                _ => {
                    return None;
                },
            }
            i = i + 1;
        }
        let r = SegmentId::from_bytes(v.as_slice());
        proof {
            assert forall|k: int| 0 <= k < 16 implies 0 <= #[trigger] text_byte(t, k) < 256 by {
                assert(is_hex(t[2 * k]) && is_hex(t[2 * k + 1]));
            }
            assert(v@ =~= text_bytes(t));
            let id = r.unwrap();
            lemma_auto_spec_u64_to_from_le_bytes();
            assert(id.bytes().take(8) =~= spec_u64_to_le_bytes(id.hi));
            assert(id.bytes().skip(8) =~= spec_u64_to_le_bytes(id.lo));
        }
        r
    }

    /// The identifier as text: 32 lowercase hexadecimal digits.
    pub fn uuid_string(&self) -> (r: String)
        ensures
            r@ == uuid_text(*self),
    {
        let bytes = self.to_bytes();
        proof {
            lemma_auto_spec_u64_to_from_le_bytes();
        }
        let mut s = String::new();
        let mut i: usize = 0;
        while i < 16
            invariant
                i <= 16,
                bytes@ == self.bytes(),
                bytes@.len() == 16,
                s@ =~= uuid_text(*self).take(2 * i as int),
            decreases 16 - i,
        {
            let b = bytes[i];
            s.append(hex_digit(b / 16));
            s.append(hex_digit(b % 16));
            assert(s@ =~= uuid_text(*self).take(2 * (i + 1) as int));
            i = i + 1;
        }
        assert(s@ =~= uuid_text(*self));
        s
    }
}

impl SegmentId {
    /// A fresh random identifier.
    /// A fresh random identifier: a version-4 uuid, never the all-zero
    /// placeholder.
    pub fn generate_random() -> (r: SegmentId)
        ensures
            r.bytes()[6] / 16 == 4,
            r.bytes()[8] / 64 == 2,
            !is_zero_id(r),
    {
        let text = random_uuid_string();
        assert(is_uuid_text(text@)) by {
            assert forall|i: int| 0 <= i < 32 implies is_hex(#[trigger] text@[i]) by {
                assert(('0' <= text@[i] && text@[i] <= '9') || ('a' <= text@[i] && text@[i] <= 'f'));
            }
        }
        match SegmentId::from_hex_text(text.as_str()) {
            Some(id) => {
                proof {
                    let b6 = id.bytes()[6];
                    let b8 = id.bytes()[8];
                    assert(b6 == text_byte(text@, 6));
                    assert(b8 == text_byte(text@, 8));
                    assert(hex_val(text@[12]) == 4);
                    assert(8 <= hex_val(text@[16]) <= 11);
                    let lo6 = hex_val(text@[13]);
                    let lo8 = hex_val(text@[17]);
                    assert(is_hex(text@[13]) && is_hex(text@[17]));
                    assert(0 <= lo6 < 16 && 0 <= lo8 < 16);
                    assert(b6 / 16 == 4);
                    assert(b8 / 64 == 2);
                    spec_u64_to_le_bytes_to_open(id.hi);
                    let hi = id.hi;
                    assert(id.bytes()[6] == ((hi >> 48u64) & 0xffu64) as u8);
                    assert(hi == 0 ==> ((hi >> 48u64) & 0xffu64) == 0) by (bit_vector);
                }
                id
            },
            None => {
                assert(false);
                SegmentId::zero()
            },
        }
    }
}

/// One kind of file that makes up a segment.
#[derive(Clone, Copy, Debug, PartialEq, Eq, Structural, Hash)]
pub enum SegmentComponent {
    Postings,
    Positions,
    FastFields,
    FieldNorms,
    Terms,
    Store,
    TempStore,
    Delete,
}

/// The file-name extension of a component other than the delete bitmap.
pub open spec fn extension_of(c: SegmentComponent) -> Seq<char> {
    match c {
        SegmentComponent::Postings => seq!['i', 'd', 'x'],
        SegmentComponent::Positions => seq!['p', 'o', 's'],
        SegmentComponent::FastFields => seq!['f', 'a', 's', 't'],
        SegmentComponent::FieldNorms => seq!['f', 'i', 'e', 'l', 'd', 'n', 'o', 'r', 'm'],
        SegmentComponent::Terms => seq!['t', 'e', 'r', 'm'],
        SegmentComponent::Store => seq!['s', 't', 'o', 'r', 'e'],
        SegmentComponent::TempStore => seq!['s', 't', 'o', 'r', 'e', '.', 't', 'e', 'm', 'p'],
        SegmentComponent::Delete => seq!['d', 'e', 'l'],
    }
}

/// The path of one component of a segment: `{id}.{extension}`, and for the
/// delete bitmap `{id}.0.del`, whose generation marker is always zero.
pub open spec fn component_path(id: SegmentId, c: SegmentComponent) -> Seq<char> {
    if c == SegmentComponent::Delete {
        uuid_text(id) + seq!['.', '0', '.'] + extension_of(c)
    } else {
        uuid_text(id) + seq!['.'] + extension_of(c)
    }
}

impl SegmentComponent {
    /// The file-name extension of this component.
    pub fn extension(&self) -> (r: &'static str)
        ensures
            r@ == extension_of(*self),
    {
        proof {
            reveal_strlit("idx");
            reveal_strlit("pos");
            reveal_strlit("fast");
            reveal_strlit("fieldnorm");
            reveal_strlit("term");
            reveal_strlit("store");
            reveal_strlit("store.temp");
            reveal_strlit("del");
        }
        match self {
            SegmentComponent::Postings => "idx",
            SegmentComponent::Positions => "pos",
            SegmentComponent::FastFields => "fast",
            SegmentComponent::FieldNorms => "fieldnorm",
            SegmentComponent::Terms => "term",
            SegmentComponent::Store => "store",
            SegmentComponent::TempStore => "store.temp",
            SegmentComponent::Delete => "del",
        }
    }
}

/// Where one component's chained byte stream starts, and how long it is.
#[derive(Clone, Copy, Debug, PartialEq, Eq, Structural, Hash)]
pub struct FileEntry {
    pub starting_block: BlockNumber,
    pub total_bytes: usize,
}

/// The delete bitmap's stream, and how many documents it marks deleted.
#[derive(Clone, Copy, Debug, PartialEq, Eq, Structural)]
pub struct DeleteEntry {
    pub file_entry: FileEntry,
    pub num_deleted_docs: u32,
}

/// The metadata of one segment: its files, its size and its MVCC state.
#[derive(Clone, Copy, Debug, PartialEq)]
pub struct SegmentMetaEntry {
    pub segment_id: SegmentId,
    pub max_doc: u32,
    /// Space once used for the creating transaction's id; kept for the layout.
    pub _unused: TransactionId,
    /// Set to the frozen transaction id once a merge removed this segment.
    pub xmax: TransactionId,
    pub postings: Option<FileEntry>,
    pub positions: Option<FileEntry>,
    pub fast_fields: Option<FileEntry>,
    pub field_norms: Option<FileEntry>,
    pub terms: Option<FileEntry>,
    pub store: Option<FileEntry>,
    pub temp_store: Option<FileEntry>,
    pub delete: Option<DeleteEntry>,
}

pub open spec fn opt_files(f: Option<FileEntry>, c: SegmentComponent) -> Seq<(FileEntry, SegmentComponent)> {
    match f {
        Some(fe) => seq![(fe, c)],
        None => Seq::empty(),
    }
}

pub open spec fn delete_file(d: Option<DeleteEntry>) -> Option<FileEntry> {
    match d {
        Some(de) => Some(de.file_entry),
        None => None,
    }
}

pub open spec fn opt_bytes(f: Option<FileEntry>) -> int {
    match f {
        Some(fe) => fe.total_bytes as int,
        None => 0,
    }
}

/// The entry of the first file in `files` whose path is `path`.
pub open spec fn entry_for_path(
    files: Seq<(FileEntry, SegmentComponent)>,
    id: SegmentId,
    path: Seq<char>,
) -> Option<FileEntry>
    decreases files.len(),
{
    if files.len() == 0 {
        None
    } else if component_path(id, files[0].1) == path {
        Some(files[0].0)
    } else {
        entry_for_path(files.drop_first(), id, path)
    }
}

/// The path of component `c` of the segment whose text id is `uuid`.
fn path_for(uuid: &String, c: SegmentComponent) -> (r: String)
    requires
        uuid@.len() == 32,
    ensures
        forall|id: SegmentId| uuid_text(id) == uuid@ ==> r@ == #[trigger] component_path(id, c),
{
    let mut p = uuid.clone();
    proof {
        reveal_strlit(".");
        reveal_strlit(".0.");
    }
    if c == SegmentComponent::Delete {
        p.append(".0.");
    } else {
        p.append(".");
    }
    p.append(c.extension());
    p
}

fn push_present(v: &mut Vec<(FileEntry, SegmentComponent)>, f: Option<FileEntry>, c: SegmentComponent)
    ensures
        final(v)@ == old(v)@ + opt_files(f, c),
{
    if let Some(fe) = f {
        v.push((fe, c));
    }
    assert(v@ =~= old(v)@ + opt_files(f, c));
}

fn add_present(size: u64, f: Option<FileEntry>) -> (r: u64)
    requires
        size + opt_bytes(f) <= u64::MAX,
    ensures
        r == size + opt_bytes(f),
{
    match f {
        Some(fe) => size + fe.total_bytes as u64,
        None => size,
    }
}

impl SegmentMetaEntry {
    pub open spec fn deleted(&self) -> bool {
        self.xmax == FROZEN_TRANSACTION_ID
    }

    pub open spec fn orphaned_delete(&self) -> bool {
        is_zero_id(self.segment_id) && self.deleted()
    }

    pub open spec fn deleted_docs(&self) -> int {
        match self.delete {
            Some(d) => d.num_deleted_docs as int,
            None => 0,
        }
    }

    /// The present files in canonical order: postings, positions, fast
    /// fields, field norms, terms, temporary store, delete bitmap.
    pub open spec fn files(&self) -> Seq<(FileEntry, SegmentComponent)> {
        opt_files(self.postings, SegmentComponent::Postings)
            + opt_files(self.positions, SegmentComponent::Positions)
            + opt_files(self.fast_fields, SegmentComponent::FastFields)
            + opt_files(self.field_norms, SegmentComponent::FieldNorms)
            + opt_files(self.terms, SegmentComponent::Terms)
            + opt_files(self.temp_store, SegmentComponent::TempStore)
            + opt_files(delete_file(self.delete), SegmentComponent::Delete)
    }

    /// The paths of the present files, in the order of `files`.
    pub open spec fn paths(&self) -> Seq<Seq<char>> {
        self.files().map_values(|p: (FileEntry, SegmentComponent)| component_path(self.segment_id, p.1))
    }

    /// Total bytes over every present component, the store and the delete
    /// bitmap included.
    pub open spec fn total_size(&self) -> int {
        opt_bytes(self.postings) + opt_bytes(self.positions) + opt_bytes(self.fast_fields)
            + opt_bytes(self.field_norms) + opt_bytes(self.terms) + opt_bytes(self.store)
            + opt_bytes(self.temp_store) + opt_bytes(delete_file(self.delete))
    }

    /// Whether a scan may open this segment.
    pub open spec fn is_visible(&self) -> bool {
        !self.deleted()
    }

    /// Whether a merge may take this segment as input.
    pub open spec fn is_mergeable(&self) -> bool {
        !self.deleted()
    }

    /// Whether the storage may be reclaimed, given whether a non-blocking
    /// cleanup lock on the representative block was obtained.
    pub open spec fn is_recyclable(&self, cleanup_lock_acquired: bool) -> bool {
        self.deleted() && (self.pintest_block() == INVALID_BLOCK_NUMBER || cleanup_lock_acquired)
    }

    /// The block whose pin stands for readers of the whole segment.
    pub open spec fn pintest_block(&self) -> BlockNumber
        recommends
            self.files().len() > 0,
    {
        self.files()[0].0.starting_block
    }

    pub fn is_deleted(&self) -> (r: bool)
        ensures
            r == self.deleted(),
    {
        self.xmax == FROZEN_TRANSACTION_ID
    }

    /// Whether this is a placeholder kept only so that a superseded delete
    /// bitmap can be collected.
    pub fn is_orphaned_delete(&self) -> (r: bool)
        ensures
            r == self.orphaned_delete(),
    {
        self.segment_id.is_zero() && self.xmax == FROZEN_TRANSACTION_ID
    }

    /// Segments carry no operation stamp: it is always zero.
    pub fn opstamp(&self) -> (r: u64)
        ensures
            r == 0,
    {
        0
    }

    pub fn num_deleted_docs(&self) -> (r: usize)
        ensures
            r == self.deleted_docs(),
    {
        match self.delete {
            Some(d) => d.num_deleted_docs as usize,
            None => 0,
        }
    }

    pub fn num_docs(&self) -> (r: usize)
        requires
            self.deleted_docs() <= self.max_doc,
        ensures
            r == self.max_doc - self.deleted_docs(),
    {
        self.max_doc as usize - self.num_deleted_docs()
    }

    pub fn file_entries(&self) -> (r: Vec<(FileEntry, SegmentComponent)>)
        ensures
            r@ == self.files(),
    {
        let mut v: Vec<(FileEntry, SegmentComponent)> = Vec::new();
        push_present(&mut v, self.postings, SegmentComponent::Postings);
        push_present(&mut v, self.positions, SegmentComponent::Positions);
        push_present(&mut v, self.fast_fields, SegmentComponent::FastFields);
        push_present(&mut v, self.field_norms, SegmentComponent::FieldNorms);
        push_present(&mut v, self.terms, SegmentComponent::Terms);
        push_present(&mut v, self.temp_store, SegmentComponent::TempStore);
        let del = match self.delete {
            Some(d) => Some(d.file_entry),
            None => None,
        };
        push_present(&mut v, del, SegmentComponent::Delete);
        assert(v@ =~= self.files());
        v
    }

    pub fn byte_size(&self) -> (r: u64)
        requires
            self.total_size() <= u64::MAX,
        ensures
            r == self.total_size(),
    {
        let del = match self.delete {
            Some(d) => Some(d.file_entry),
            None => None,
        };
        let mut size: u64 = 0;
        size = add_present(size, self.postings);
        size = add_present(size, self.positions);
        size = add_present(size, self.fast_fields);
        size = add_present(size, self.field_norms);
        size = add_present(size, self.terms);
        size = add_present(size, self.store);
        size = add_present(size, self.temp_store);
        size = add_present(size, del);
        size
    }

    /// The path of every present file, in the order of `file_entries`.
    pub fn get_component_paths(&self) -> (r: Vec<String>)
        ensures
            r@.map_values(|p: String| p@) == self.paths(),
    {
        let uuid = self.segment_id.uuid_string();
        let files = self.file_entries();
        let mut out: Vec<String> = Vec::new();
        let mut i: usize = 0;
        while i < files.len()
            invariant
                i <= files@.len(),
                files@ == self.files(),
                uuid@ == uuid_text(self.segment_id),
                out@.len() == i,
                forall|j: int| 0 <= j < i ==> #[trigger] out@[j]@ == component_path(self.segment_id, files@[j].1),
            decreases files@.len() - i,
        {
            let p = path_for(&uuid, files[i].1);
            out.push(p);
            i = i + 1;
        }
        assert(out@.map_values(|p: String| p@) =~= self.paths());
        out
    }

    /// The file entry whose generated path equals `path`, if any.
    pub fn file_entry(&self, path: &str) -> (r: Option<FileEntry>)
        ensures
            r == entry_for_path(self.files(), self.segment_id, path@),
    {
        let uuid = self.segment_id.uuid_string();
        let files = self.file_entries();
        let target = path.to_owned();
        let mut i: usize = 0;
        assert(files@.skip(0) =~= files@);
        while i < files.len()
            invariant
                i <= files@.len(),
                files@ == self.files(),
                uuid@ == uuid_text(self.segment_id),
                target@ == path@,
                entry_for_path(files@, self.segment_id, path@)
                    == entry_for_path(files@.skip(i as int), self.segment_id, path@),
            decreases files@.len() - i,
        {
            let p = path_for(&uuid, files[i].1);
            assert(files@.skip(i as int).first() == files@[i as int]);
            assert(files@.skip(i as int).drop_first() =~= files@.skip(i + 1));
            if p == target {
                return Some(files[i].0);
            }
            i = i + 1;
        }
        None
    }

    /// The starting block of the first file in canonical order; its pin
    /// stands for readers of the whole segment.
    pub fn pintest_blockno(&self) -> (r: BlockNumber)
        requires
            self.files().len() > 0,
        ensures
            r == self.pintest_block(),
    {
        let files = self.file_entries();
        files[0].0.starting_block
    }

    /// Whether a scan may open this segment.
    pub fn visible(&self) -> (r: bool)
        ensures
            r == self.is_visible(),
            r == !self.deleted(),
    {
        !self.is_deleted()
    }

    /// Whether a merge may take this segment as input.
    pub fn mergeable(&self) -> (r: bool)
        ensures
            r == self.is_mergeable(),
            r == !self.deleted(),
    {
        !self.is_deleted()
    }

    /// Whether this entry's storage may be reclaimed now. `cleanup_lock_acquired`
    /// is the outcome of a non-blocking attempt at a cleanup lock on
    /// `pintest_blockno()`: it succeeds only while no reader pins that page.
    pub fn recyclable(&self, cleanup_lock_acquired: bool) -> (r: bool)
        requires
            self.deleted() ==> self.files().len() > 0,
        ensures
            r == self.is_recyclable(cleanup_lock_acquired),
    {
        self.is_deleted() && (self.pintest_blockno() == INVALID_BLOCK_NUMBER || cleanup_lock_acquired)
    }

    /// Marks the segment as removed by a merge.
    pub fn mark_deleted(&mut self)
        ensures
            *final(self) == (SegmentMetaEntry { xmax: FROZEN_TRANSACTION_ID, ..*old(self) }),
    {
        self.xmax = FROZEN_TRANSACTION_ID;
    }

    /// A placeholder that keeps a superseded delete bitmap until it is collected.
    pub fn new_orphaned_delete(delete: DeleteEntry) -> (r: SegmentMetaEntry)
        ensures
            is_zero_id(r.segment_id),
            r.max_doc == 0,
            r._unused == INVALID_TRANSACTION_ID,
            r.xmax == FROZEN_TRANSACTION_ID,
            r.delete == Some(delete),
            r.postings is None && r.positions is None && r.fast_fields is None,
            r.field_norms is None && r.terms is None && r.store is None && r.temp_store is None,
    {
        SegmentMetaEntry {
            segment_id: SegmentId::zero(),
            max_doc: 0,
            _unused: INVALID_TRANSACTION_ID,
            xmax: FROZEN_TRANSACTION_ID,
            postings: None,
            positions: None,
            fast_fields: None,
            field_norms: None,
            terms: None,
            store: None,
            temp_store: None,
            delete: Some(delete),
        }
    }

    /// A fresh entry for a segment about to be written: a random id, no
    /// documents, live, and no files yet.
    pub fn new_random() -> (r: SegmentMetaEntry)
        ensures
            !is_zero_id(r.segment_id),
            r.segment_id.bytes()[6] / 16 == 4,
            r.max_doc == 0,
            r._unused == INVALID_TRANSACTION_ID,
            r.xmax == INVALID_TRANSACTION_ID,
            r.postings is None && r.positions is None && r.fast_fields is None,
            r.field_norms is None && r.terms is None && r.store is None && r.temp_store is None,
            r.delete is None,
    {
        SegmentMetaEntry {
            segment_id: SegmentId::generate_random(),
            max_doc: 0,
            _unused: INVALID_TRANSACTION_ID,
            xmax: INVALID_TRANSACTION_ID,
            postings: None,
            positions: None,
            fast_fields: None,
            field_norms: None,
            terms: None,
            store: None,
            temp_store: None,
            delete: None,
        }
    }
}

impl Default for SegmentMetaEntry {
    fn default() -> (r: SegmentMetaEntry)
        ensures
            !is_zero_id(r.segment_id),
            r.segment_id.bytes()[6] / 16 == 4,
            r.max_doc == 0,
            r._unused == INVALID_TRANSACTION_ID,
            r.xmax == INVALID_TRANSACTION_ID,
            r.postings is None && r.positions is None && r.fast_fields is None,
            r.field_norms is None && r.terms is None && r.store is None && r.temp_store is None,
            r.delete is None,
    {
        SegmentMetaEntry::new_random()
    }
}

/// The entries that a scan may open.
pub open spec fn live_entries(entries: Seq<SegmentMetaEntry>) -> Seq<SegmentMetaEntry> {
    entries.filter(|e: SegmentMetaEntry| e.is_visible())
}

/// The ids of the entries that a scan may open, in their order; deleted
/// entries, orphaned-delete placeholders among them, are left out.
pub fn visible_segment_ids(entries: &[SegmentMetaEntry]) -> (r: Vec<SegmentId>)
    ensures
        r@ == live_entries(entries@).map_values(|e: SegmentMetaEntry| e.segment_id),
{
    let mut out: Vec<SegmentId> = Vec::new();
    let mut i: usize = 0;
    while i < entries.len()
        invariant
            i <= entries@.len(),
            out@ == live_entries(entries@.take(i as int)).map_values(|e: SegmentMetaEntry| e.segment_id),
        decreases entries@.len() - i,
    {
        let e = entries[i];
        proof {
            assert(entries@.take(i + 1) =~= entries@.take(i as int).push(e));
            entries@.take(i as int).lemma_filter_push(e, |x: SegmentMetaEntry| x.is_visible());
            assert(live_entries(entries@.take(i + 1)) == if e.is_visible() {
                live_entries(entries@.take(i as int)).push(e)
            } else {
                live_entries(entries@.take(i as int))
            });
        }
        if e.visible() {
            out.push(e.segment_id);
        }
        i = i + 1;
        assert(out@ =~= live_entries(entries@.take(i as int)).map_values(|e: SegmentMetaEntry| e.segment_id));
    }
    assert(entries@.take(entries@.len() as int) =~= entries@);
    out
}

/// Visibility is exactly the absence of the frozen mark: a fresh entry is
/// visible, and marking it removed by a merge hides it.
pub proof fn lemma_visibility(e: SegmentMetaEntry)
    ensures
        e.is_visible() == !e.deleted(),
        e.xmax == INVALID_TRANSACTION_ID ==> e.is_visible(),
        !(SegmentMetaEntry { xmax: FROZEN_TRANSACTION_ID, ..e }).is_visible(),
        !(SegmentMetaEntry { xmax: FROZEN_TRANSACTION_ID, ..e }).is_mergeable(),
{
}

/// A live entry is never recyclable; a deleted one whose representative
/// block is pinned (the cleanup lock fails) is not yet, and becomes so once
/// the pin is released (the lock succeeds).
pub proof fn lemma_recyclability(e: SegmentMetaEntry)
    ensures
        !e.deleted() ==> !e.is_recyclable(false) && !e.is_recyclable(true),
        e.deleted() && e.pintest_block() != INVALID_BLOCK_NUMBER ==> !e.is_recyclable(false),
        e.deleted() ==> e.is_recyclable(true),
{
}

/// An orphaned-delete placeholder is deleted, carries the all-zero id, and
/// never appears among the entries that a scan may open.
pub proof fn lemma_orphaned_delete_excluded(entries: Seq<SegmentMetaEntry>)
    ensures
        forall|e: SegmentMetaEntry| #[trigger] e.orphaned_delete() ==> e.deleted() && is_zero_id(e.segment_id),
        forall|i: int| 0 <= i < live_entries(entries).len() ==> !(#[trigger] live_entries(entries)[i]).orphaned_delete(),
{
    assert forall|i: int| 0 <= i < live_entries(entries).len() implies !(#[trigger] live_entries(entries)[i]).orphaned_delete() by {
        entries.lemma_filter_pred(|x: SegmentMetaEntry| x.is_visible(), i);
    }
}

/// With no component present the size is zero; the delete bitmap's bytes
/// count like any other component's.
pub proof fn lemma_byte_size_parts(e: SegmentMetaEntry)
    ensures
        e.postings is None && e.positions is None && e.fast_fields is None && e.field_norms is None
            && e.terms is None && e.store is None && e.temp_store is None && e.delete is None
            ==> e.total_size() == 0,
        e.total_size() == opt_bytes(e.postings) + opt_bytes(e.positions) + opt_bytes(e.fast_fields)
            + opt_bytes(e.field_norms) + opt_bytes(e.terms) + opt_bytes(e.store) + opt_bytes(e.temp_store)
            + match e.delete {
            Some(d) => d.file_entry.total_bytes as int,
            None => 0,
        },
{
}

/// The tail of a component's path after the id and its dot.
spec fn path_tail(c: SegmentComponent) -> Seq<char> {
    if c == SegmentComponent::Delete {
        seq!['0', '.'] + extension_of(c)
    } else {
        extension_of(c)
    }
}

/// Paths are a function of id and component, and within one segment two
/// different components never share a path.
pub proof fn lemma_component_paths_distinct(id: SegmentId, c1: SegmentComponent, c2: SegmentComponent)
    ensures
        c1 != c2 ==> component_path(id, c1) != component_path(id, c2),
        uuid_text(id).len() == 32,
{
    if component_path(id, c1) == component_path(id, c2) {
        assert(component_path(id, c1).skip(33) =~= path_tail(c1));
        assert(component_path(id, c2).skip(33) =~= path_tail(c2));
        let t1 = path_tail(c1);
        let t2 = path_tail(c2);
        assert(t1.len() == t2.len());
        assert(t1[0] == t2[0]);
    }
}

/// Upper- and lowercase digits spell the same id.
pub proof fn lemma_lower_text_same_id(s: Seq<char>)
    requires
        is_uuid_text(s),
    ensures
        is_uuid_text(lower_text(s)),
        id_of_text(lower_text(s)) == id_of_text(s),
{
    let l = lower_text(s);
    assert forall|i: int| 0 <= i < 32 implies is_hex(#[trigger] l[i]) && hex_val(l[i]) == hex_val(s[i]) by {
        assert(is_hex(s[i]));
    }
    assert forall|k: int| 0 <= k < 16 implies #[trigger] text_byte(l, k) == text_byte(s, k) by {
        assert(hex_val(l[2 * k]) == hex_val(s[2 * k]));
        assert(hex_val(l[2 * k + 1]) == hex_val(s[2 * k + 1]));
    }
    assert(text_bytes(l) =~= text_bytes(s));
}

/// An id's text reads back as the same id.
pub proof fn lemma_uuid_text_round_trip(id: SegmentId)
    ensures
        is_uuid_text(uuid_text(id)),
        id_of_text(uuid_text(id)) == Some(id),
{
    let t = uuid_text(id);
    let b = id.bytes();
    lemma_auto_spec_u64_to_from_le_bytes();
    assert forall|n: u8| n < 16 implies is_hex(#[trigger] hex_char(n)) && hex_val(hex_char(n)) == n by {}
    assert forall|i: int| 0 <= i < 32 implies is_hex(#[trigger] t[i]) by {
        assert(b[i / 2] / 16 < 16);
    }
    assert forall|k: int| 0 <= k < 16 implies #[trigger] text_byte(t, k) == b[k] by {
        let x = b[k];
        assert(t[2 * k] == hex_char(x / 16));
        assert(t[2 * k + 1] == hex_char(x % 16));
        assert((x / 16) as int * 16 + (x % 16) as int == x as int) by (nonlinear_arith);
    }
    assert(text_bytes(t) =~= b);
    assert(b.take(8) =~= spec_u64_to_le_bytes(id.hi));
    assert(b.skip(8) =~= spec_u64_to_le_bytes(id.lo));
}

} // verus!
