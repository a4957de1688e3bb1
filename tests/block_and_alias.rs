use pg_search_storage::block::{
    block_number_is_valid, bm25_max_free_space, LinkedListData, INVALID_BLOCK_NUMBER,
};
use pg_search_storage::state::SearchAlias;

#[test]
fn block_validity() {
    assert!(!block_number_is_valid(0));
    assert!(!block_number_is_valid(INVALID_BLOCK_NUMBER));
    assert!(block_number_is_valid(1));
    assert!(block_number_is_valid(INVALID_BLOCK_NUMBER - 1));
}

#[test]
fn free_space_per_page() {
    assert_eq!(bm25_max_free_space(), 8160);
}

#[test]
fn header_round_trip() {
    let d = LinkedListData { start_blockno: 3, last_blockno: 9, npages: 7, blocklist_start: 0x01020304 };
    let bytes = d.to_page_bytes();
    assert_eq!(bytes, vec![3, 0, 0, 0, 9, 0, 0, 0, 7, 0, 0, 0, 4, 3, 2, 1]);
    assert_eq!(LinkedListData::from_page_bytes(&bytes), Some(d));
    let mut longer = bytes.clone();
    longer.extend([1, 2, 3]);
    assert_eq!(LinkedListData::from_page_bytes(&longer), Some(d));
    assert_eq!(LinkedListData::from_page_bytes(&bytes[..15]), None);
}

#[test]
fn header_start_and_last() {
    let d = LinkedListData { start_blockno: 3, last_blockno: 9, npages: 7, blocklist_start: 4 };
    assert_eq!(d.get_start_blockno(), 3);
    assert_eq!(d.get_last_blockno(), 9);
    let fresh = LinkedListData { start_blockno: 0, last_blockno: INVALID_BLOCK_NUMBER, npages: 0, blocklist_start: 0 };
    assert!(!block_number_is_valid(fresh.start_blockno));
    assert!(!block_number_is_valid(fresh.last_blockno));
}

#[test]
fn alias_from_and_default() {
    let a = SearchAlias::from("top");
    assert_eq!(a.as_str(), "top");
    assert_eq!(a, SearchAlias("top".to_string()));
    assert_eq!(SearchAlias::default().as_str(), "");
    assert_ne!(a, SearchAlias::default());
}
