//! The fixed, positional binary layout of a `SegmentMetaEntry` in one item
//! slot: fields in declaration order, integers little-endian, `usize` as
//! eight bytes, the segment id as an eight-byte length (always 16) and its
//! bytes, and each optional field as a tag byte (0 absent, 1 present)
//! followed by the value when present. Bytes after the entry are ignored.
use vstd::prelude::*;
use vstd::bytes::{
    lemma_auto_spec_u32_to_from_le_bytes, lemma_auto_spec_u64_to_from_le_bytes,
    spec_u32_from_le_bytes, spec_u32_to_le_bytes, spec_u64_from_le_bytes, spec_u64_to_le_bytes,
    u32_from_le_bytes, u32_to_le_bytes, u64_from_le_bytes, u64_to_le_bytes,
};
use vstd::slice::slice_subrange;
use crate::segment::{DeleteEntry, FileEntry, SegmentId, SegmentMetaEntry};

verus! {

// ---------------------------------------------------------------------
// Encoding
// ---------------------------------------------------------------------

pub open spec fn enc_u32(x: u32) -> Seq<u8> {
    spec_u32_to_le_bytes(x)
}

pub open spec fn enc_u64(x: u64) -> Seq<u8> {
    spec_u64_to_le_bytes(x)
}

pub open spec fn enc_id(id: SegmentId) -> Seq<u8> {
    enc_u64(16) + enc_u64(id.hi) + enc_u64(id.lo)
}

pub open spec fn enc_file(f: FileEntry) -> Seq<u8> {
    enc_u32(f.starting_block) + enc_u64(f.total_bytes as u64)
}

pub open spec fn enc_opt_file(o: Option<FileEntry>) -> Seq<u8> {
    match o {
        None => seq![0u8],
        Some(f) => seq![1u8] + enc_file(f),
    }
}

pub open spec fn enc_delete(d: DeleteEntry) -> Seq<u8> {
    enc_file(d.file_entry) + enc_u32(d.num_deleted_docs)
}

pub open spec fn enc_opt_delete(o: Option<DeleteEntry>) -> Seq<u8> {
    match o {
        None => seq![0u8],
        Some(d) => seq![1u8] + enc_delete(d),
    }
}

pub open spec fn enc_header(e: SegmentMetaEntry) -> Seq<u8> {
    enc_id(e.segment_id) + enc_u32(e.max_doc) + enc_u32(e._unused) + enc_u32(e.xmax)
}

pub open spec fn enc_files_a(e: SegmentMetaEntry) -> Seq<u8> {
    enc_opt_file(e.postings) + enc_opt_file(e.positions) + enc_opt_file(e.fast_fields)
        + enc_opt_file(e.field_norms)
}

pub open spec fn enc_files_b(e: SegmentMetaEntry) -> Seq<u8> {
    enc_opt_file(e.terms) + enc_opt_file(e.store) + enc_opt_file(e.temp_store)
        + enc_opt_delete(e.delete)
}

/// The bytes that encode `e`: the id, `max_doc`, the unused word, `xmax`,
/// then the seven optional files and the optional delete entry.
pub open spec fn encoding(e: SegmentMetaEntry) -> Seq<u8> {
    enc_header(e) + enc_files_a(e) + enc_files_b(e)
}

/// Whether `b` starts with the encoding of `e`.
pub open spec fn starts_with_encoding(b: Seq<u8>, e: SegmentMetaEntry) -> bool {
    encoding(e).len() <= b.len() && b.take(encoding(e).len() as int) == encoding(e)
}

// ---------------------------------------------------------------------
// Decoding, field by field: each parser yields the value and what follows
// ---------------------------------------------------------------------

pub open spec fn parse_u32(b: Seq<u8>) -> Option<(u32, Seq<u8>)> {
    if b.len() >= 4 {
        Some((spec_u32_from_le_bytes(b.take(4)), b.skip(4)))
    } else {
        None
    }
}

pub open spec fn parse_u64(b: Seq<u8>) -> Option<(u64, Seq<u8>)> {
    if b.len() >= 8 {
        Some((spec_u64_from_le_bytes(b.take(8)), b.skip(8)))
    } else {
        None
    }
}

pub open spec fn parse_id(b: Seq<u8>) -> Option<(SegmentId, Seq<u8>)> {
    match parse_u64(b) {
        Some((n, r)) => if n != 16 {
            None
        } else {
            match parse_u64(r) {
                Some((hi, r2)) => match parse_u64(r2) {
                    Some((lo, r3)) => Some((SegmentId { hi, lo }, r3)),
                    None => None,
                },
                None => None,
            }
        },
        None => None,
    }
}

pub open spec fn parse_file(b: Seq<u8>) -> Option<(FileEntry, Seq<u8>)> {
    match parse_u32(b) {
        Some((start, r)) => match parse_u64(r) {
            Some((n, r2)) => if n <= usize::MAX {
                Some((FileEntry { starting_block: start, total_bytes: n as usize }, r2))
            } else {
                None
            },
            None => None,
        },
        None => None,
    }
}

pub open spec fn parse_opt_file(b: Seq<u8>) -> Option<(Option<FileEntry>, Seq<u8>)> {
    if b.len() == 0 {
        None
    } else if b[0] == 0 {
        Some((None, b.skip(1)))
    } else if b[0] == 1 {
        match parse_file(b.skip(1)) {
            Some((f, r)) => Some((Some(f), r)),
            None => None,
        }
    } else {
        None
    }
}

pub open spec fn parse_delete(b: Seq<u8>) -> Option<(DeleteEntry, Seq<u8>)> {
    match parse_file(b) {
        Some((f, r)) => match parse_u32(r) {
            Some((n, r2)) => Some((DeleteEntry { file_entry: f, num_deleted_docs: n }, r2)),
            None => None,
        },
        None => None,
    }
}

pub open spec fn parse_opt_delete(b: Seq<u8>) -> Option<(Option<DeleteEntry>, Seq<u8>)> {
    if b.len() == 0 {
        None
    } else if b[0] == 0 {
        Some((None, b.skip(1)))
    } else if b[0] == 1 {
        match parse_delete(b.skip(1)) {
            Some((d, r)) => Some((Some(d), r)),
            None => None,
        }
    } else {
        None
    }
}

// ---------------------------------------------------------------------
// Each field parser inverts its encoder
// ---------------------------------------------------------------------

proof fn lemma_u32(x: u32, rest: Seq<u8>)
    ensures
        parse_u32(enc_u32(x) + rest) == Some((x, rest)),
        enc_u32(x).len() == 4,
{
    lemma_auto_spec_u32_to_from_le_bytes();
    assert((enc_u32(x) + rest).take(4) =~= enc_u32(x));
    assert((enc_u32(x) + rest).skip(4) =~= rest);
}

proof fn lemma_u32_inv(b: Seq<u8>)
    ensures
        parse_u32(b) matches Some((x, r)) ==> b == enc_u32(x) + r,
{
    lemma_auto_spec_u32_to_from_le_bytes();
    if b.len() >= 4 {
        assert(b =~= b.take(4) + b.skip(4));
    }
}

proof fn lemma_u64(x: u64, rest: Seq<u8>)
    ensures
        parse_u64(enc_u64(x) + rest) == Some((x, rest)),
        enc_u64(x).len() == 8,
{
    lemma_auto_spec_u64_to_from_le_bytes();
    assert((enc_u64(x) + rest).take(8) =~= enc_u64(x));
    assert((enc_u64(x) + rest).skip(8) =~= rest);
}

proof fn lemma_u64_inv(b: Seq<u8>)
    ensures
        parse_u64(b) matches Some((x, r)) ==> b == enc_u64(x) + r,
{
    lemma_auto_spec_u64_to_from_le_bytes();
    if b.len() >= 8 {
        assert(b =~= b.take(8) + b.skip(8));
    }
}

proof fn lemma_id(id: SegmentId, rest: Seq<u8>)
    ensures
        parse_id(enc_id(id) + rest) == Some((id, rest)),
{
    let a = enc_u64(16);
    let h = enc_u64(id.hi);
    let l = enc_u64(id.lo);
    assert(enc_id(id) + rest =~= a + (h + (l + rest)));
    lemma_u64(16, h + (l + rest));
    lemma_u64(id.hi, l + rest);
    lemma_u64(id.lo, rest);
}

proof fn lemma_id_inv(b: Seq<u8>)
    ensures
        parse_id(b) matches Some((id, r)) ==> b == enc_id(id) + r,
{
    lemma_u64_inv(b);
    if let Some((n, r)) = parse_u64(b) {
        lemma_u64_inv(r);
        if let Some((hi, r2)) = parse_u64(r) {
            lemma_u64_inv(r2);
            if let Some((lo, r3)) = parse_u64(r2) {
                assert(b =~= enc_u64(n) + enc_u64(hi) + enc_u64(lo) + r3);
            }
        }
    }
}

proof fn lemma_file(f: FileEntry, rest: Seq<u8>)
    ensures
        parse_file(enc_file(f) + rest) == Some((f, rest)),
{
    assert(enc_file(f) + rest =~= enc_u32(f.starting_block) + (enc_u64(f.total_bytes as u64) + rest));
    lemma_u32(f.starting_block, enc_u64(f.total_bytes as u64) + rest);
    lemma_u64(f.total_bytes as u64, rest);
}

proof fn lemma_file_inv(b: Seq<u8>)
    ensures
        parse_file(b) matches Some((f, r)) ==> b == enc_file(f) + r,
{
    lemma_u32_inv(b);
    if let Some((s, r)) = parse_u32(b) {
        lemma_u64_inv(r);
        if let Some((n, r2)) = parse_u64(r) {
            assert(b =~= enc_u32(s) + enc_u64(n) + r2);
        }
    }
}

proof fn lemma_opt_file(o: Option<FileEntry>, rest: Seq<u8>)
    ensures
        parse_opt_file(enc_opt_file(o) + rest) == Some((o, rest)),
{
    let b = enc_opt_file(o) + rest;
    match o {
        None => {
            assert(b.skip(1) =~= rest);
        },
        Some(f) => {
            assert(b.skip(1) =~= enc_file(f) + rest);
            lemma_file(f, rest);
        },
    }
}

proof fn lemma_opt_file_inv(b: Seq<u8>)
    ensures
        parse_opt_file(b) matches Some((o, r)) ==> b == enc_opt_file(o) + r,
{
    if b.len() > 0 {
        lemma_file_inv(b.skip(1));
        assert(b =~= seq![b[0]] + b.skip(1));
        if let Some((Some(f), r)) = parse_opt_file(b) {
            assert(b =~= seq![1u8] + enc_file(f) + r);
        }
    }
}

proof fn lemma_delete(d: DeleteEntry, rest: Seq<u8>)
    ensures
        parse_delete(enc_delete(d) + rest) == Some((d, rest)),
{
    assert(enc_delete(d) + rest =~= enc_file(d.file_entry) + (enc_u32(d.num_deleted_docs) + rest));
    lemma_file(d.file_entry, enc_u32(d.num_deleted_docs) + rest);
    lemma_u32(d.num_deleted_docs, rest);
}

proof fn lemma_delete_inv(b: Seq<u8>)
    ensures
        parse_delete(b) matches Some((d, r)) ==> b == enc_delete(d) + r,
{
    lemma_file_inv(b);
    if let Some((f, r)) = parse_file(b) {
        lemma_u32_inv(r);
        if let Some((n, r2)) = parse_u32(r) {
            assert(b =~= enc_file(f) + enc_u32(n) + r2);
        }
    }
}

proof fn lemma_opt_delete(o: Option<DeleteEntry>, rest: Seq<u8>)
    ensures
        parse_opt_delete(enc_opt_delete(o) + rest) == Some((o, rest)),
{
    let b = enc_opt_delete(o) + rest;
    match o {
        None => {
            assert(b.skip(1) =~= rest);
        },
        Some(d) => {
            assert(b.skip(1) =~= enc_delete(d) + rest);
            lemma_delete(d, rest);
        },
    }
}

proof fn lemma_opt_delete_inv(b: Seq<u8>)
    ensures
        parse_opt_delete(b) matches Some((o, r)) ==> b == enc_opt_delete(o) + r,
{
    if b.len() > 0 {
        lemma_delete_inv(b.skip(1));
        assert(b =~= seq![b[0]] + b.skip(1));
        if let Some((Some(d), r)) = parse_opt_delete(b) {
            assert(b =~= seq![1u8] + enc_delete(d) + r);
        }
    }
}

// ---------------------------------------------------------------------
// The whole entry
// ---------------------------------------------------------------------

pub open spec fn parse_header(b: Seq<u8>) -> Option<((SegmentId, u32, u32, u32), Seq<u8>)> {
    match parse_id(b) {
        None => None,
        Some((id, b1)) => match parse_u32(b1) {
            None => None,
            Some((max_doc, b2)) => match parse_u32(b2) {
                None => None,
                Some((unused, b3)) => match parse_u32(b3) {
                    None => None,
                    Some((xmax, b4)) => Some(((id, max_doc, unused, xmax), b4)),
                },
            },
        },
    }
}

pub type FilesA = (Option<FileEntry>, Option<FileEntry>, Option<FileEntry>, Option<FileEntry>);

pub type FilesB = (Option<FileEntry>, Option<FileEntry>, Option<FileEntry>, Option<DeleteEntry>);

pub open spec fn parse_files_a(b: Seq<u8>) -> Option<(FilesA, Seq<u8>)> {
    match parse_opt_file(b) {
        None => None,
        Some((f1, b1)) => match parse_opt_file(b1) {
            None => None,
            Some((f2, b2)) => match parse_opt_file(b2) {
                None => None,
                Some((f3, b3)) => match parse_opt_file(b3) {
                    None => None,
                    Some((f4, b4)) => Some(((f1, f2, f3, f4), b4)),
                },
            },
        },
    }
}

pub open spec fn parse_files_b(b: Seq<u8>) -> Option<(FilesB, Seq<u8>)> {
    match parse_opt_file(b) {
        None => None,
        Some((f1, b1)) => match parse_opt_file(b1) {
            None => None,
            Some((f2, b2)) => match parse_opt_file(b2) {
                None => None,
                Some((f3, b3)) => match parse_opt_delete(b3) {
                    None => None,
                    Some((d, b4)) => Some(((f1, f2, f3, d), b4)),
                },
            },
        },
    }
}

pub open spec fn parse_entry(b: Seq<u8>) -> Option<(SegmentMetaEntry, Seq<u8>)> {
    match parse_header(b) {
        None => None,
        Some((h, b1)) => match parse_files_a(b1) {
            None => None,
            Some((fa, b2)) => match parse_files_b(b2) {
                None => None,
                Some((fb, b3)) => Some((
                    SegmentMetaEntry {
                        segment_id: h.0,
                        max_doc: h.1,
                        _unused: h.2,
                        xmax: h.3,
                        postings: fa.0,
                        positions: fa.1,
                        fast_fields: fa.2,
                        field_norms: fa.3,
                        terms: fb.0,
                        store: fb.1,
                        temp_store: fb.2,
                        delete: fb.3,
                    },
                    b3,
                )),
            },
        },
    }
}

/// The entry that `b` decodes to, if it holds one.
pub open spec fn decoded(b: Seq<u8>) -> Option<SegmentMetaEntry> {
    match parse_entry(b) {
        Some((e, _)) => Some(e),
        None => None,
    }
}

proof fn lemma_assoc4(a: Seq<u8>, b: Seq<u8>, c: Seq<u8>, d: Seq<u8>, r: Seq<u8>)
    ensures
        a + b + c + d + r == a + (b + (c + (d + r))),
{
    assert(a + b + c + d + r =~= a + (b + (c + (d + r))));
}

proof fn lemma_assoc3(a: Seq<u8>, b: Seq<u8>, c: Seq<u8>, r: Seq<u8>)
    ensures
        a + b + c + r == a + (b + (c + r)),
{
    assert(a + b + c + r =~= a + (b + (c + r)));
}

proof fn lemma_header(e: SegmentMetaEntry, rest: Seq<u8>)
    ensures
        parse_header(enc_header(e) + rest) == Some(((e.segment_id, e.max_doc, e._unused, e.xmax), rest)),
{
    let r4 = enc_u32(e.xmax) + rest;
    let r3 = enc_u32(e._unused) + r4;
    let r2 = enc_u32(e.max_doc) + r3;
    assert(enc_header(e) + rest =~= enc_id(e.segment_id) + r2);
    lemma_id(e.segment_id, r2);
    lemma_u32(e.max_doc, r3);
    lemma_u32(e._unused, r4);
    lemma_u32(e.xmax, rest);
}

proof fn lemma_header_inv(b: Seq<u8>)
    ensures
        parse_header(b) matches Some((h, r)) ==> b == enc_id(h.0) + enc_u32(h.1) + enc_u32(h.2)
            + enc_u32(h.3) + r,
{
    lemma_id_inv(b);
    if let Some((id, b1)) = parse_id(b) {
        lemma_u32_inv(b1);
        if let Some((x1, b2)) = parse_u32(b1) {
            lemma_u32_inv(b2);
            if let Some((x2, b3)) = parse_u32(b2) {
                lemma_u32_inv(b3);
                if let Some((x3, b4)) = parse_u32(b3) {
                    lemma_assoc4(enc_id(id), enc_u32(x1), enc_u32(x2), enc_u32(x3), b4);
                }
            }
        }
    }
}

proof fn lemma_files_a(e: SegmentMetaEntry, rest: Seq<u8>)
    ensures
        parse_files_a(enc_files_a(e) + rest) == Some(((e.postings, e.positions, e.fast_fields, e.field_norms), rest)),
{
    let r4 = enc_opt_file(e.field_norms) + rest;
    let r3 = enc_opt_file(e.fast_fields) + r4;
    let r2 = enc_opt_file(e.positions) + r3;
    assert(enc_files_a(e) + rest =~= enc_opt_file(e.postings) + r2);
    lemma_opt_file(e.postings, r2);
    lemma_opt_file(e.positions, r3);
    lemma_opt_file(e.fast_fields, r4);
    lemma_opt_file(e.field_norms, rest);
}

proof fn lemma_files_a_inv(b: Seq<u8>)
    ensures
        parse_files_a(b) matches Some((f, r)) ==> b == enc_opt_file(f.0) + enc_opt_file(f.1)
            + enc_opt_file(f.2) + enc_opt_file(f.3) + r,
{
    lemma_opt_file_inv(b);
    if let Some((f1, b1)) = parse_opt_file(b) {
        lemma_opt_file_inv(b1);
        if let Some((f2, b2)) = parse_opt_file(b1) {
            lemma_opt_file_inv(b2);
            if let Some((f3, b3)) = parse_opt_file(b2) {
                lemma_opt_file_inv(b3);
                if let Some((f4, b4)) = parse_opt_file(b3) {
                    lemma_assoc4(enc_opt_file(f1), enc_opt_file(f2), enc_opt_file(f3), enc_opt_file(f4), b4);
                }
            }
        }
    }
}

proof fn lemma_files_b(e: SegmentMetaEntry, rest: Seq<u8>)
    ensures
        parse_files_b(enc_files_b(e) + rest) == Some(((e.terms, e.store, e.temp_store, e.delete), rest)),
{
    let r4 = enc_opt_delete(e.delete) + rest;
    let r3 = enc_opt_file(e.temp_store) + r4;
    let r2 = enc_opt_file(e.store) + r3;
    assert(enc_files_b(e) + rest =~= enc_opt_file(e.terms) + r2);
    lemma_opt_file(e.terms, r2);
    lemma_opt_file(e.store, r3);
    lemma_opt_file(e.temp_store, r4);
    lemma_opt_delete(e.delete, rest);
}

proof fn lemma_files_b_inv(b: Seq<u8>)
    ensures
        parse_files_b(b) matches Some((f, r)) ==> b == enc_opt_file(f.0) + enc_opt_file(f.1)
            + enc_opt_file(f.2) + enc_opt_delete(f.3) + r,
{
    lemma_opt_file_inv(b);
    if let Some((f1, b1)) = parse_opt_file(b) {
        lemma_opt_file_inv(b1);
        if let Some((f2, b2)) = parse_opt_file(b1) {
            lemma_opt_file_inv(b2);
            if let Some((f3, b3)) = parse_opt_file(b2) {
                lemma_opt_delete_inv(b3);
                if let Some((d, b4)) = parse_opt_delete(b3) {
                    lemma_assoc4(enc_opt_file(f1), enc_opt_file(f2), enc_opt_file(f3), enc_opt_delete(d), b4);
                }
            }
        }
    }
}

proof fn lemma_entry(e: SegmentMetaEntry, rest: Seq<u8>)
    ensures
        parse_entry(encoding(e) + rest) == Some((e, rest)),
{
    let r3 = enc_files_b(e) + rest;
    let r2 = enc_files_a(e) + r3;
    assert(encoding(e) + rest =~= enc_header(e) + r2);
    lemma_header(e, r2);
    lemma_files_a(e, r3);
    lemma_files_b(e, rest);
}

proof fn lemma_entry_inv(b: Seq<u8>)
    ensures
        parse_entry(b) matches Some((e, r)) ==> b == encoding(e) + r,
{
    lemma_header_inv(b);
    if let Some((h, b1)) = parse_header(b) {
        lemma_files_a_inv(b1);
        if let Some((fa, b2)) = parse_files_a(b1) {
            lemma_files_b_inv(b2);
            if let Some((fb, b3)) = parse_files_b(b2) {
                let e = parse_entry(b).unwrap().0;
                assert(enc_header(e) == enc_id(h.0) + enc_u32(h.1) + enc_u32(h.2) + enc_u32(h.3));
                assert(enc_files_a(e) == enc_opt_file(fa.0) + enc_opt_file(fa.1) + enc_opt_file(fa.2)
                    + enc_opt_file(fa.3));
                assert(enc_files_b(e) == enc_opt_file(fb.0) + enc_opt_file(fb.1) + enc_opt_file(fb.2)
                    + enc_opt_delete(fb.3));
                lemma_assoc3(enc_header(e), enc_files_a(e), enc_files_b(e), b3);
            }
        }
    }
}

/// Decoding what encoding produced gives back the same entry, whatever bytes
/// follow it in the slot.
pub proof fn lemma_decode_encode(e: SegmentMetaEntry, rest: Seq<u8>)
    ensures
        decoded(encoding(e) + rest) == Some(e),
        decoded(encoding(e)) == Some(e),
{
    lemma_entry(e, rest);
    lemma_entry(e, Seq::empty());
    assert(encoding(e) + Seq::<u8>::empty() =~= encoding(e));
}

/// Decoding succeeds exactly on the byte strings that start with an
/// entry's encoding, and yields that entry.
pub proof fn lemma_decoded_iff_encoding(b: Seq<u8>, e: SegmentMetaEntry)
    ensures
        decoded(b) == Some(e) <==> starts_with_encoding(b, e),
{
    lemma_entry_inv(b);
    if decoded(b) == Some(e) {
        let r = parse_entry(b).unwrap().1;
        assert(b.take(encoding(e).len() as int) =~= encoding(e));
    }
    if starts_with_encoding(b, e) {
        let n = encoding(e).len() as int;
        assert(b =~= encoding(e) + b.skip(n));
        lemma_entry(e, b.skip(n));
    }
}

// ---------------------------------------------------------------------
// Writing
// ---------------------------------------------------------------------

proof fn lemma_append4(o: Seq<u8>, a: Seq<u8>, b: Seq<u8>, c: Seq<u8>, d: Seq<u8>)
    ensures
        o + a + b + c + d == o + (a + b + c + d),
{
    assert(o + a + b + c + d =~= o + (a + b + c + d));
}

fn put_u32(v: &mut Vec<u8>, x: u32)
    ensures
        final(v)@ == old(v)@ + enc_u32(x),
{
    let mut w = u32_to_le_bytes(x);
    v.append(&mut w);
}

fn put_u64(v: &mut Vec<u8>, x: u64)
    ensures
        final(v)@ == old(v)@ + enc_u64(x),
{
    let mut w = u64_to_le_bytes(x);
    v.append(&mut w);
}

fn put_id(v: &mut Vec<u8>, id: SegmentId)
    ensures
        final(v)@ == old(v)@ + enc_id(id),
{
    let ghost o = v@;
    put_u64(v, 16);
    put_u64(v, id.hi);
    put_u64(v, id.lo);
    assert(v@ =~= o + enc_id(id));
}

fn put_file(v: &mut Vec<u8>, f: FileEntry)
    ensures
        final(v)@ == old(v)@ + enc_file(f),
{
    let ghost o = v@;
    put_u32(v, f.starting_block);
    put_u64(v, f.total_bytes as u64);
    assert(v@ =~= o + enc_file(f));
}

fn put_opt_file(v: &mut Vec<u8>, o: Option<FileEntry>)
    ensures
        final(v)@ == old(v)@ + enc_opt_file(o),
{
    let ghost old_v = v@;
    match o {
        None => {
            v.push(0u8);
        },
        Some(f) => {
            v.push(1u8);
            put_file(v, f);
        },
    }
    assert(v@ =~= old_v + enc_opt_file(o));
}

fn put_opt_delete(v: &mut Vec<u8>, o: Option<DeleteEntry>)
    ensures
        final(v)@ == old(v)@ + enc_opt_delete(o),
{
    let ghost old_v = v@;
    match o {
        None => {
            v.push(0u8);
        },
        Some(d) => {
            v.push(1u8);
            put_file(v, d.file_entry);
            put_u32(v, d.num_deleted_docs);
        },
    }
    assert(v@ =~= old_v + enc_opt_delete(o));
}

/// The bytes that store `e` in an item slot.
pub fn encode_entry(e: &SegmentMetaEntry) -> (r: Vec<u8>)
    ensures
        r@ == encoding(*e),
{
    let mut v: Vec<u8> = Vec::new();
    put_id(&mut v, e.segment_id);
    put_u32(&mut v, e.max_doc);
    put_u32(&mut v, e._unused);
    put_u32(&mut v, e.xmax);
    proof {
        lemma_append4(Seq::empty(), enc_id(e.segment_id), enc_u32(e.max_doc), enc_u32(e._unused), enc_u32(e.xmax));
    }
    let ghost h = v@;
    put_opt_file(&mut v, e.postings);
    put_opt_file(&mut v, e.positions);
    put_opt_file(&mut v, e.fast_fields);
    put_opt_file(&mut v, e.field_norms);
    proof {
        lemma_append4(h, enc_opt_file(e.postings), enc_opt_file(e.positions), enc_opt_file(e.fast_fields), enc_opt_file(e.field_norms));
    }
    let ghost fa = v@;
    put_opt_file(&mut v, e.terms);
    put_opt_file(&mut v, e.store);
    put_opt_file(&mut v, e.temp_store);
    put_opt_delete(&mut v, e.delete);
    proof {
        lemma_append4(fa, enc_opt_file(e.terms), enc_opt_file(e.store), enc_opt_file(e.temp_store), enc_opt_delete(e.delete));
        assert(Seq::<u8>::empty() + enc_header(*e) =~= enc_header(*e));
    }
    v
}

// ---------------------------------------------------------------------
// Reading
// ---------------------------------------------------------------------

/// `r` is what the parser gives on the bytes from `pos`, with the position
/// where its rest begins.
pub open spec fn read_as<T>(b: Seq<u8>, pos: int, parsed: Option<(T, Seq<u8>)>, r: Option<(T, usize)>) -> bool {
    match r {
        Some((x, p)) => pos <= p <= b.len() && parsed == Some((x, b.skip(p as int))),
        None => parsed is None,
    }
}

fn get_u32(b: &[u8], pos: usize) -> (r: Option<(u32, usize)>)
    requires
        pos <= b@.len(),
    ensures
        read_as(b@, pos as int, parse_u32(b@.skip(pos as int)), r),
{
    if b.len() - pos < 4 {
        return None;
    }
    let x = u32_from_le_bytes(slice_subrange(b, pos, pos + 4));
    assert(b@.subrange(pos as int, pos + 4) =~= b@.skip(pos as int).take(4));
    assert(b@.skip(pos as int).skip(4) =~= b@.skip(pos + 4));
    Some((x, pos + 4))
}

fn get_u64(b: &[u8], pos: usize) -> (r: Option<(u64, usize)>)
    requires
        pos <= b@.len(),
    ensures
        read_as(b@, pos as int, parse_u64(b@.skip(pos as int)), r),
{
    if b.len() - pos < 8 {
        return None;
    }
    let x = u64_from_le_bytes(slice_subrange(b, pos, pos + 8));
    assert(b@.subrange(pos as int, pos + 8) =~= b@.skip(pos as int).take(8));
    assert(b@.skip(pos as int).skip(8) =~= b@.skip(pos + 8));
    Some((x, pos + 8))
}

fn get_id(b: &[u8], pos: usize) -> (r: Option<(SegmentId, usize)>)
    requires
        pos <= b@.len(),
    ensures
        read_as(b@, pos as int, parse_id(b@.skip(pos as int)), r),
{
    let (n, p1) = get_u64(b, pos)?;
    if n != 16 {
        return None;
    }
    let (hi, p2) = get_u64(b, p1)?;
    let (lo, p3) = get_u64(b, p2)?;
    Some((SegmentId { hi, lo }, p3))
}

fn get_file(b: &[u8], pos: usize) -> (r: Option<(FileEntry, usize)>)
    requires
        pos <= b@.len(),
    ensures
        read_as(b@, pos as int, parse_file(b@.skip(pos as int)), r),
{
    let (start, p1) = get_u32(b, pos)?;
    let (n, p2) = get_u64(b, p1)?;
    if n > usize::MAX as u64 {
        return None;
    }
    Some((FileEntry { starting_block: start, total_bytes: n as usize }, p2))
}

fn get_opt_file(b: &[u8], pos: usize) -> (r: Option<(Option<FileEntry>, usize)>)
    requires
        pos <= b@.len(),
    ensures
        read_as(b@, pos as int, parse_opt_file(b@.skip(pos as int)), r),
{
    if pos == b.len() {
        return None;
    }
    let tag = b[pos];
    assert(b@.skip(pos as int)[0] == tag);
    assert(b@.skip(pos as int).skip(1) =~= b@.skip(pos + 1));
    if tag == 0 {
        Some((None, pos + 1))
    } else if tag == 1 {
        let (f, p) = get_file(b, pos + 1)?;
        Some((Some(f), p))
    } else {
        None
    }
}

fn get_opt_delete(b: &[u8], pos: usize) -> (r: Option<(Option<DeleteEntry>, usize)>)
    requires
        pos <= b@.len(),
    ensures
        read_as(b@, pos as int, parse_opt_delete(b@.skip(pos as int)), r),
{
    if pos == b.len() {
        return None;
    }
    let tag = b[pos];
    assert(b@.skip(pos as int)[0] == tag);
    assert(b@.skip(pos as int).skip(1) =~= b@.skip(pos + 1));
    if tag == 0 {
        Some((None, pos + 1))
    } else if tag == 1 {
        let (f, p1) = get_file(b, pos + 1)?;
        let (n, p2) = get_u32(b, p1)?;
        Some((Some(DeleteEntry { file_entry: f, num_deleted_docs: n }), p2))
    } else {
        None
    }
}

fn get_header(b: &[u8], pos: usize) -> (r: Option<((SegmentId, u32, u32, u32), usize)>)
    requires
        pos <= b@.len(),
    ensures
        read_as(b@, pos as int, parse_header(b@.skip(pos as int)), r),
{
    let (id, p1) = get_id(b, pos)?;
    let (max_doc, p2) = get_u32(b, p1)?;
    let (unused, p3) = get_u32(b, p2)?;
    let (xmax, p4) = get_u32(b, p3)?;
    Some(((id, max_doc, unused, xmax), p4))
}

fn get_files_a(b: &[u8], pos: usize) -> (r: Option<(FilesA, usize)>)
    requires
        pos <= b@.len(),
    ensures
        read_as(b@, pos as int, parse_files_a(b@.skip(pos as int)), r),
{
    let (f1, p1) = get_opt_file(b, pos)?;
    let (f2, p2) = get_opt_file(b, p1)?;
    let (f3, p3) = get_opt_file(b, p2)?;
    let (f4, p4) = get_opt_file(b, p3)?;
    Some(((f1, f2, f3, f4), p4))
}

fn get_files_b(b: &[u8], pos: usize) -> (r: Option<(FilesB, usize)>)
    requires
        pos <= b@.len(),
    ensures
        read_as(b@, pos as int, parse_files_b(b@.skip(pos as int)), r),
{
    let (f1, p1) = get_opt_file(b, pos)?;
    let (f2, p2) = get_opt_file(b, p1)?;
    let (f3, p3) = get_opt_file(b, p2)?;
    let (d, p4) = get_opt_delete(b, p3)?;
    Some(((f1, f2, f3, d), p4))
}

/// The entry stored in an item slot's bytes. `None` exactly when the bytes
/// do not start with the encoding of any entry (truncated or corrupt).
pub fn decode_entry(b: &[u8]) -> (r: Option<SegmentMetaEntry>)
    ensures
        r == decoded(b@),
        r matches Some(e) ==> starts_with_encoding(b@, e),
        r is None ==> forall|e: SegmentMetaEntry| !starts_with_encoding(b@, e),
{
    assert(b@.skip(0) =~= b@);
    let r = match get_header(b, 0) {
        None => None,
        Some((h, p1)) => match get_files_a(b, p1) {
            None => None,
            Some((fa, p2)) => match get_files_b(b, p2) {
                None => None,
                Some((fb, _)) => Some(SegmentMetaEntry {
                    segment_id: h.0,
                    max_doc: h.1,
                    _unused: h.2,
                    xmax: h.3,
                    postings: fa.0,
                    positions: fa.1,
                    fast_fields: fa.2,
                    field_norms: fa.3,
                    terms: fb.0,
                    store: fb.1,
                    temp_store: fb.2,
                    delete: fb.3,
                }),
            },
        },
    };
    proof {
        if let Some(e) = r {
            lemma_decoded_iff_encoding(b@, e);
        }
        assert forall|e: SegmentMetaEntry| r is None implies !starts_with_encoding(b@, e) by {
            lemma_decoded_iff_encoding(b@, e);
        }
    }
    r
}

// ---------------------------------------------------------------------
// Item slots
// ---------------------------------------------------------------------

/// The contents of one item slot of a page, and how many of its bytes the
/// item uses.
pub struct PgItem(pub Vec<u8>, pub usize);

impl From<SegmentMetaEntry> for PgItem {
    fn from(val: SegmentMetaEntry) -> (r: PgItem)
        ensures
            r.0@ == encoding(val),
            r.1 == r.0@.len(),
    {
        let bytes = encode_entry(&val);
        let len = bytes.len();
        PgItem(bytes, len)
    }
}

impl vstd::std_specs::convert::FromSpecImpl<SegmentMetaEntry> for PgItem {
    /// A `Vec` cannot be built in a specification, so the result is
    /// described by the `ensures` of `from` instead.
    open spec fn obeys_from_spec() -> bool {
        false
    }

    open spec fn from_spec(v: SegmentMetaEntry) -> PgItem {
        arbitrary()
    }
}

impl PgItem {
    /// The entry that the item's used bytes hold; `None` when they are
    /// truncated or corrupt.
    pub fn to_entry(&self) -> (r: Option<SegmentMetaEntry>)
        requires
            self.1 <= self.0@.len(),
        ensures
            r == decoded(self.0@.take(self.1 as int)),
    {
        let used = slice_subrange(self.0.as_slice(), 0, self.1);
        assert(used@ =~= self.0@.take(self.1 as int));
        decode_entry(used)
    }
}

/// The item made from an entry reads back as that entry.
pub proof fn lemma_item_round_trip(e: SegmentMetaEntry, item: PgItem)
    requires
        item.0@ == encoding(e),
        item.1 == item.0@.len(),
    ensures
        decoded(item.0@.take(item.1 as int)) == Some(e),
{
    assert(item.0@.take(item.1 as int) =~= encoding(e));
    lemma_decode_encode(e, Seq::empty());
}

} // verus!
