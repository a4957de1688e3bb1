use pg_search_storage::codec::{decode_entry, encode_entry};
use pg_search_storage::segment::{DeleteEntry, FileEntry, SegmentId, SegmentMetaEntry};
use tantivy::index::SegmentId as TantivySegmentId;

type FileTuple = (u32, usize);

type EntryTuple = (
    TantivySegmentId,
    u32,
    u32,
    u32,
    Option<FileTuple>,
    Option<FileTuple>,
    Option<FileTuple>,
    Option<FileTuple>,
    Option<FileTuple>,
    Option<FileTuple>,
    Option<FileTuple>,
    Option<(FileTuple, u32)>,
);

fn file(f: Option<FileEntry>) -> Option<FileTuple> {
    f.map(|f| (f.starting_block, f.total_bytes))
}

fn as_tuple(e: &SegmentMetaEntry) -> EntryTuple {
    (
        TantivySegmentId::from_uuid_string(&e.segment_id.uuid_string()).unwrap(),
        e.max_doc,
        e._unused,
        e.xmax,
        file(e.postings),
        file(e.positions),
        file(e.fast_fields),
        file(e.field_norms),
        file(e.terms),
        file(e.store),
        file(e.temp_store),
        e.delete.map(|d| ((d.file_entry.starting_block, d.file_entry.total_bytes), d.num_deleted_docs)),
    )
}

fn sample(mask: u32) -> SegmentMetaEntry {
    let mut e = SegmentMetaEntry::default();
    e.segment_id = SegmentId { hi: 0x1122334455667788 ^ mask as u64, lo: 0x99aabbccddeeff00 };
    e.max_doc = 1000 + mask;
    e._unused = mask;
    e.xmax = if mask % 2 == 0 { 2 } else { 0 };
    let f = |k: u32| FileEntry { starting_block: k * 31, total_bytes: (k as usize) << 33 };
    if mask & 1 != 0 { e.postings = Some(f(1)); }
    if mask & 2 != 0 { e.positions = Some(f(2)); }
    if mask & 4 != 0 { e.fast_fields = Some(f(3)); }
    if mask & 8 != 0 { e.field_norms = Some(f(4)); }
    if mask & 16 != 0 { e.terms = Some(f(5)); }
    if mask & 32 != 0 { e.store = Some(f(6)); }
    if mask & 64 != 0 { e.temp_store = Some(f(7)); }
    if mask & 128 != 0 {
        e.delete = Some(DeleteEntry { file_entry: f(8), num_deleted_docs: mask * 2 });
    }
    e
}

#[test]
fn encoding_matches_bincode_legacy() {
    for mask in [0u32, 1, 5, 127, 128, 200, 255] {
        let e = sample(mask);
        let ours = encode_entry(&e);
        let theirs = bincode::serde::encode_to_vec(as_tuple(&e), bincode::config::legacy()).unwrap();
        assert_eq!(ours, theirs);
    }
}

#[test]
fn decodes_what_bincode_wrote() {
    for mask in [0u32, 3, 129, 255] {
        let e = sample(mask);
        let theirs = bincode::serde::encode_to_vec(as_tuple(&e), bincode::config::legacy()).unwrap();
        assert_eq!(decode_entry(&theirs), Some(e));
    }
}

#[test]
fn uuid_text_matches_tantivy() {
    let e = sample(9);
    let t = TantivySegmentId::from_uuid_string(&e.segment_id.uuid_string()).unwrap();
    assert_eq!(t.uuid_string(), e.segment_id.uuid_string());
    assert_eq!(e.segment_id.uuid_string(), "817766554433221100ffeeddccbbaa99");
}
