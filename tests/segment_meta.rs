use pg_search_storage::block::{FROZEN_TRANSACTION_ID, INVALID_TRANSACTION_ID};
use pg_search_storage::segment::{
    visible_segment_ids, DeleteEntry, FileEntry, SegmentComponent, SegmentId, SegmentMetaEntry,
};

fn id(hi: u64, lo: u64) -> SegmentId {
    SegmentId { hi, lo }
}

fn segment_a() -> SegmentMetaEntry {
    let mut e = SegmentMetaEntry::default();
    e.segment_id = id(0x0706050403020100, 0x0f0e0d0c0b0a0908);
    e.max_doc = 5;
    e.postings = Some(FileEntry { starting_block: 11, total_bytes: 10 });
    e.fast_fields = Some(FileEntry { starting_block: 12, total_bytes: 20 });
    e
}

#[test]
fn segment_a_live() {
    let e = segment_a();
    assert_eq!(e.num_docs(), 5);
    assert_eq!(e.num_deleted_docs(), 0);
    assert_eq!(e.byte_size(), 30);
    assert!(e.visible());
    assert!(e.mergeable());
    assert!(!e.recyclable(true));
    assert!(!e.recyclable(false));
}

#[test]
fn segment_a_frozen_and_unpinned() {
    let mut e = segment_a();
    e.mark_deleted();
    assert_eq!(e.xmax, FROZEN_TRANSACTION_ID);
    assert!(e.is_deleted());
    assert!(!e.visible());
    assert!(!e.mergeable());
    assert!(e.recyclable(true));
}

#[test]
fn deleted_and_pinned_is_not_recyclable() {
    let mut e = segment_a();
    e.mark_deleted();
    assert_eq!(e.pintest_blockno(), 11);
    assert!(!e.recyclable(false));
    assert!(e.recyclable(true));
}

#[test]
fn fresh_entry_is_live_and_empty() {
    let e = SegmentMetaEntry::default();
    assert_eq!(e.xmax, INVALID_TRANSACTION_ID);
    assert!(e.visible());
    assert!(!e.is_deleted());
    assert!(!e.is_orphaned_delete());
    assert_eq!(e.byte_size(), 0);
    assert_eq!(e.file_entries().len(), 0);
    assert_eq!(e.opstamp(), 0);
}

#[test]
fn fresh_ids_are_random_hex() {
    let a = SegmentMetaEntry::default().segment_id;
    let b = SegmentMetaEntry::default().segment_id;
    assert_ne!(a, b);
    let text = a.uuid_string();
    assert_eq!(text.len(), 32);
    assert_eq!(&text[12..13], "4");
    assert!(["8", "9", "a", "b"].contains(&&text[16..17]));
    assert!(!a.is_zero());
    let g = SegmentId::generate_random();
    assert!(!g.is_zero());
    assert_eq!(g.to_bytes()[6] >> 4, 4);
    assert!(text.chars().all(|c| c.is_ascii_digit() || ('a'..='f').contains(&c)));
}

#[test]
fn num_docs_subtracts_deleted() {
    let mut e = segment_a();
    e.delete = Some(DeleteEntry {
        file_entry: FileEntry { starting_block: 40, total_bytes: 7 },
        num_deleted_docs: 2,
    });
    assert_eq!(e.num_deleted_docs(), 2);
    assert_eq!(e.num_docs(), 3);
    assert_eq!(e.byte_size(), 37);
}

#[test]
fn byte_size_counts_every_component() {
    let mut e = SegmentMetaEntry::default();
    e.postings = Some(FileEntry { starting_block: 1, total_bytes: 1 });
    e.positions = Some(FileEntry { starting_block: 2, total_bytes: 2 });
    e.fast_fields = Some(FileEntry { starting_block: 3, total_bytes: 4 });
    e.field_norms = Some(FileEntry { starting_block: 4, total_bytes: 8 });
    e.terms = Some(FileEntry { starting_block: 5, total_bytes: 16 });
    e.store = Some(FileEntry { starting_block: 6, total_bytes: 32 });
    e.temp_store = Some(FileEntry { starting_block: 7, total_bytes: 64 });
    e.delete = Some(DeleteEntry {
        file_entry: FileEntry { starting_block: 8, total_bytes: 128 },
        num_deleted_docs: 0,
    });
    assert_eq!(e.byte_size(), 255);
}

#[test]
fn file_entries_in_canonical_order_without_store() {
    let mut e = SegmentMetaEntry::default();
    e.delete = Some(DeleteEntry {
        file_entry: FileEntry { starting_block: 8, total_bytes: 1 },
        num_deleted_docs: 0,
    });
    e.store = Some(FileEntry { starting_block: 6, total_bytes: 1 });
    e.terms = Some(FileEntry { starting_block: 5, total_bytes: 1 });
    e.postings = Some(FileEntry { starting_block: 1, total_bytes: 1 });
    let kinds: Vec<SegmentComponent> = e.file_entries().iter().map(|p| p.1).collect();
    assert_eq!(
        kinds,
        vec![SegmentComponent::Postings, SegmentComponent::Terms, SegmentComponent::Delete]
    );
    assert_eq!(e.pintest_blockno(), 1);
}

#[test]
fn uuid_string_is_lowercase_hex_of_bytes() {
    let s = id(0x0706050403020100, 0x0f0e0d0c0b0a0908).uuid_string();
    assert_eq!(s, "000102030405060708090a0b0c0d0e0f");
    let s = id(0xefcdab8967452301, 0xffeeddccbbaa9988).uuid_string();
    assert_eq!(s, "0123456789abcdef8899aabbccddeeff");
}

#[test]
fn uuid_text_parses_back() {
    let x = id(0xefcdab8967452301, 0xffeeddccbbaa9988);
    assert_eq!(SegmentId::from_uuid_string(&x.uuid_string()), Some(x));
    assert_eq!(SegmentId::from_uuid_string("0123456789ABCDEF8899AABBCCDDEEFF"), Some(x));
    assert_eq!(SegmentId::from_uuid_string("0123456789abcdef8899aabbccddeef"), None);
    assert_eq!(SegmentId::from_uuid_string("0123456789abcdef8899aabbccddeefg"), None);
    assert_eq!(SegmentId::from_uuid_string("é123456789abcdef8899aabbccddeef"), None);
    assert_eq!(SegmentId::from_uuid_string("01234567-89ab-cdef-8899-aabbccddeeff"), Some(x));
    assert_eq!(SegmentId::from_uuid_string("{01234567-89ab-cdef-8899-aabbccddeeff}"), Some(x));
    assert_eq!(SegmentId::from_uuid_string("urn:uuid:01234567-89ab-cdef-8899-aabbccddeeff"), Some(x));
    assert_eq!(SegmentId::from_uuid_string(""), None);
}

#[test]
fn component_paths_follow_the_naming_scheme() {
    let mut e = segment_a();
    e.temp_store = Some(FileEntry { starting_block: 13, total_bytes: 1 });
    e.delete = Some(DeleteEntry {
        file_entry: FileEntry { starting_block: 14, total_bytes: 1 },
        num_deleted_docs: 1,
    });
    let paths = e.get_component_paths();
    assert_eq!(
        paths,
        vec![
            "000102030405060708090a0b0c0d0e0f.idx".to_string(),
            "000102030405060708090a0b0c0d0e0f.fast".to_string(),
            "000102030405060708090a0b0c0d0e0f.store.temp".to_string(),
            "000102030405060708090a0b0c0d0e0f.0.del".to_string(),
        ]
    );
    // generating twice gives the same names
    assert_eq!(paths, e.get_component_paths());
}

#[test]
fn component_paths_are_distinct_within_a_segment() {
    let mut e = SegmentMetaEntry::default();
    e.postings = Some(FileEntry { starting_block: 1, total_bytes: 1 });
    e.positions = Some(FileEntry { starting_block: 2, total_bytes: 1 });
    e.fast_fields = Some(FileEntry { starting_block: 3, total_bytes: 1 });
    e.field_norms = Some(FileEntry { starting_block: 4, total_bytes: 1 });
    e.terms = Some(FileEntry { starting_block: 5, total_bytes: 1 });
    e.temp_store = Some(FileEntry { starting_block: 7, total_bytes: 1 });
    e.delete = Some(DeleteEntry {
        file_entry: FileEntry { starting_block: 8, total_bytes: 1 },
        num_deleted_docs: 0,
    });
    let paths = e.get_component_paths();
    assert_eq!(paths.len(), 7);
    for i in 0..paths.len() {
        for j in 0..paths.len() {
            if i != j {
                assert_ne!(paths[i], paths[j]);
            }
        }
    }
}

#[test]
fn file_entry_by_path() {
    let e = segment_a();
    assert_eq!(
        e.file_entry("000102030405060708090a0b0c0d0e0f.fast"),
        Some(FileEntry { starting_block: 12, total_bytes: 20 })
    );
    assert_eq!(
        e.file_entry("000102030405060708090a0b0c0d0e0f.idx"),
        Some(FileEntry { starting_block: 11, total_bytes: 10 })
    );
    assert_eq!(e.file_entry("000102030405060708090a0b0c0d0e0f.pos"), None);
    assert_eq!(e.file_entry("ffffffffffffffffffffffffffffffff.idx"), None);
}

#[test]
fn orphaned_delete_is_deleted_zero_and_hidden() {
    let o = SegmentMetaEntry::new_orphaned_delete(DeleteEntry {
        file_entry: FileEntry { starting_block: 9, total_bytes: 3 },
        num_deleted_docs: 1,
    });
    assert!(o.is_orphaned_delete());
    assert!(o.is_deleted());
    assert!(o.segment_id.is_zero());
    assert_eq!(o.segment_id, SegmentId::zero());
    assert!(!o.visible());
    assert_eq!(o.pintest_blockno(), 9);
    assert!(o.recyclable(true));

    let a = segment_a();
    let mut gone = segment_a();
    gone.segment_id = id(5, 5);
    gone.mark_deleted();
    let ids = visible_segment_ids(&[o, a, gone]);
    assert_eq!(ids, vec![a.segment_id]);
}

#[test]
fn zero_id_live_entry_is_not_orphaned() {
    let mut e = segment_a();
    e.segment_id = SegmentId::zero();
    assert!(!e.is_orphaned_delete());
    e.mark_deleted();
    assert!(e.is_orphaned_delete());
}

#[test]
fn segment_id_bytes() {
    let b: Vec<u8> = (0u8..16).collect();
    let x = SegmentId::from_bytes(&b).unwrap();
    assert_eq!(x, id(0x0706050403020100, 0x0f0e0d0c0b0a0908));
    assert_eq!(x.to_bytes(), b);
    assert_eq!(SegmentId::from_bytes(&b[..15]), None);
}

#[test]
fn component_extensions() {
    assert_eq!(SegmentComponent::Postings.extension(), "idx");
    assert_eq!(SegmentComponent::FieldNorms.extension(), "fieldnorm");
    assert_eq!(SegmentComponent::Delete.extension(), "del");
}
