use pg_search_storage::file_name::{
    component_from_extension, component_type_of_file_name, path_component_type, path_segment_id,
    segment_id_of_file_name, SegmentFileDetails,
};
use pg_search_storage::segment::{DeleteEntry, FileEntry, SegmentComponent, SegmentId, SegmentMetaEntry};

const ID_TEXT: &str = "000102030405060708090a0b0c0d0e0f";

fn the_id() -> SegmentId {
    SegmentId { hi: 0x0706050403020100, lo: 0x0f0e0d0c0b0a0908 }
}

#[test]
fn id_from_file_name() {
    let name = format!("{ID_TEXT}.idx");
    assert_eq!(segment_id_of_file_name(&name), Some(the_id()));
    assert_eq!(segment_id_of_file_name(ID_TEXT), Some(the_id()));
    assert_eq!(segment_id_of_file_name("meta.json"), None);
    assert_eq!(segment_id_of_file_name(""), None);
    assert_eq!(
        segment_id_of_file_name("00010203-0405-0607-0809-0a0b0c0d0e0f.idx"),
        Some(the_id())
    );
}

#[test]
fn component_from_two_and_three_parts() {
    let name = |s: &str| format!("{ID_TEXT}{s}");
    assert_eq!(component_type_of_file_name(name(".idx").as_bytes()), Some(SegmentComponent::Postings));
    assert_eq!(component_type_of_file_name(name(".pos").as_bytes()), Some(SegmentComponent::Positions));
    assert_eq!(component_type_of_file_name(name(".fast").as_bytes()), Some(SegmentComponent::FastFields));
    assert_eq!(component_type_of_file_name(name(".fieldnorm").as_bytes()), Some(SegmentComponent::FieldNorms));
    assert_eq!(component_type_of_file_name(name(".term").as_bytes()), Some(SegmentComponent::Terms));
    assert_eq!(component_type_of_file_name(name(".store").as_bytes()), Some(SegmentComponent::Store));
    assert_eq!(component_type_of_file_name(name(".store.temp").as_bytes()), Some(SegmentComponent::TempStore));
    assert_eq!(component_type_of_file_name(name(".0.del").as_bytes()), Some(SegmentComponent::Delete));
    assert_eq!(component_type_of_file_name(name("").as_bytes()), None);
    assert_eq!(component_type_of_file_name(name(".json").as_bytes()), None);
    assert_eq!(component_type_of_file_name(name(".0.del.x").as_bytes()), Some(SegmentComponent::Delete));
}

#[test]
fn extension_table() {
    assert_eq!(component_from_extension(b"del"), Some(SegmentComponent::Delete));
    assert_eq!(component_from_extension(b"temp"), Some(SegmentComponent::TempStore));
    assert_eq!(component_from_extension(b"id"), None);
}

#[test]
fn paths_use_the_final_component() {
    let path = format!("some/dir/{ID_TEXT}.0.del");
    assert_eq!(path_segment_id(&path), Some(the_id()));
    assert_eq!(path_component_type(&path), Some(SegmentComponent::Delete));
    assert_eq!(path.as_str().segment_id(), Some(the_id()));
    assert_eq!(path.as_str().component_type(), Some(SegmentComponent::Delete));
    assert_eq!(path_segment_id("some/dir/.."), None);
    assert_eq!(path_segment_id(&format!("{ID_TEXT}/other.idx")), None);
    assert_eq!(path_component_type("/"), None);
}

#[test]
fn generated_paths_parse_back() {
    let mut e = SegmentMetaEntry::default();
    e.postings = Some(FileEntry { starting_block: 1, total_bytes: 1 });
    e.positions = Some(FileEntry { starting_block: 2, total_bytes: 1 });
    e.fast_fields = Some(FileEntry { starting_block: 3, total_bytes: 1 });
    e.field_norms = Some(FileEntry { starting_block: 4, total_bytes: 1 });
    e.terms = Some(FileEntry { starting_block: 5, total_bytes: 1 });
    e.temp_store = Some(FileEntry { starting_block: 7, total_bytes: 1 });
    e.delete = Some(DeleteEntry {
        file_entry: FileEntry { starting_block: 8, total_bytes: 1 },
        num_deleted_docs: 0,
    });
    let paths = e.get_component_paths();
    let entries = e.file_entries();
    for (path, (_, kind)) in paths.iter().zip(entries.iter()) {
        assert_eq!(path.as_str().segment_id(), Some(e.segment_id));
        assert_eq!(path.as_str().component_type(), Some(*kind));
    }
}
