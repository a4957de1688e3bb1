use pg_search_storage::codec::{decode_entry, encode_entry, PgItem};
use pg_search_storage::segment::{DeleteEntry, FileEntry, SegmentId, SegmentMetaEntry};

fn segment_a() -> SegmentMetaEntry {
    let mut e = SegmentMetaEntry::default();
    e.segment_id = SegmentId { hi: 0x0706050403020100, lo: 0x0f0e0d0c0b0a0908 };
    e.max_doc = 5;
    e.postings = Some(FileEntry { starting_block: 11, total_bytes: 10 });
    e.fast_fields = Some(FileEntry { starting_block: 12, total_bytes: 20 });
    e
}

fn expected_a() -> Vec<u8> {
    let mut v = vec![16, 0, 0, 0, 0, 0, 0, 0];
    v.extend(0u8..16);
    v.extend([5, 0, 0, 0, 0, 0, 0, 0, 0, 0, 0, 0]);
    v.extend([1, 11, 0, 0, 0, 10, 0, 0, 0, 0, 0, 0, 0]);
    v.push(0);
    v.extend([1, 12, 0, 0, 0, 20, 0, 0, 0, 0, 0, 0, 0]);
    v.extend([0, 0, 0, 0, 0]);
    v
}

#[test]
fn encoding_layout_is_positional() {
    let bytes = encode_entry(&segment_a());
    assert_eq!(bytes, expected_a());
    assert_eq!(bytes.len(), 68);
}

#[test]
fn round_trip_full_entry() {
    let mut e = segment_a();
    e._unused = 77;
    e.xmax = 2;
    e.positions = Some(FileEntry { starting_block: u32::MAX, total_bytes: usize::MAX });
    e.field_norms = Some(FileEntry { starting_block: 0, total_bytes: 0 });
    e.terms = Some(FileEntry { starting_block: 1, total_bytes: 123456789 });
    e.store = Some(FileEntry { starting_block: 2, total_bytes: 5 });
    e.temp_store = Some(FileEntry { starting_block: 3, total_bytes: 6 });
    e.delete = Some(DeleteEntry {
        file_entry: FileEntry { starting_block: 4, total_bytes: 7 },
        num_deleted_docs: 3,
    });
    let bytes = encode_entry(&e);
    assert_eq!(decode_entry(&bytes), Some(e));
}

#[test]
fn round_trip_subsets_of_components() {
    for mask in 0u32..256 {
        let mut e = SegmentMetaEntry::default();
        e.max_doc = mask * 3;
        let f = |k: u32| FileEntry { starting_block: k + 100, total_bytes: (k as usize) * 1000 };
        if mask & 1 != 0 { e.postings = Some(f(1)); }
        if mask & 2 != 0 { e.positions = Some(f(2)); }
        if mask & 4 != 0 { e.fast_fields = Some(f(3)); }
        if mask & 8 != 0 { e.field_norms = Some(f(4)); }
        if mask & 16 != 0 { e.terms = Some(f(5)); }
        if mask & 32 != 0 { e.store = Some(f(6)); }
        if mask & 64 != 0 { e.temp_store = Some(f(7)); }
        if mask & 128 != 0 {
            e.delete = Some(DeleteEntry { file_entry: f(8), num_deleted_docs: mask });
        }
        let bytes = encode_entry(&e);
        assert_eq!(decode_entry(&bytes), Some(e));
    }
}

#[test]
fn trailing_bytes_are_ignored() {
    let mut bytes = expected_a();
    bytes.extend([9, 9, 9]);
    assert_eq!(decode_entry(&bytes), Some(segment_a()));
}

#[test]
fn truncated_bytes_do_not_decode() {
    let bytes = expected_a();
    for n in 0..bytes.len() {
        assert_eq!(decode_entry(&bytes[..n]), None);
    }
}

#[test]
fn bad_option_tag_does_not_decode() {
    let mut bytes = expected_a();
    bytes[36] = 2;
    assert_eq!(decode_entry(&bytes), None);
}

#[test]
fn bad_id_length_does_not_decode() {
    let mut bytes = expected_a();
    bytes[0] = 15;
    assert_eq!(decode_entry(&bytes), None);
}

#[test]
fn item_round_trip() {
    let e = segment_a();
    let item = PgItem::from(e);
    assert_eq!(item.0, expected_a());
    assert_eq!(item.1, 68);
    assert_eq!(item.to_entry(), Some(e));
    let short = PgItem(item.0.clone(), 67);
    assert_eq!(short.to_entry(), None);
}
