use vstd::prelude::*;
use vstd::bytes::{lemma_auto_spec_u32_to_from_le_bytes, spec_u32_from_le_bytes, spec_u32_to_le_bytes, u32_from_le_bytes, u32_to_le_bytes};
use vstd::slice::slice_subrange;

verus! {

/// Page number of the host storage.
pub type BlockNumber = u32;

/// Transaction id of the host storage.
pub type TransactionId = u32;

/// The host's "no such block" sentinel.
pub const INVALID_BLOCK_NUMBER: BlockNumber = 0xFFFF_FFFF;

/// The unset transaction id.
pub const INVALID_TRANSACTION_ID: TransactionId = 0;

/// The frozen transaction id; as an `xmax` it marks an entry removed by a merge.
pub const FROZEN_TRANSACTION_ID: TransactionId = 2;

/// A block number is usable as a list anchor when it is neither page zero
/// (the index's metadata page) nor the invalid sentinel.
pub open spec fn valid_block(b: BlockNumber) -> bool {
    b != 0 && b != INVALID_BLOCK_NUMBER
}

pub fn block_number_is_valid(block_number: BlockNumber) -> (r: bool)
    ensures
        r == valid_block(block_number),
{
    block_number != 0 && block_number != INVALID_BLOCK_NUMBER
}

/// Size of a page.
pub const BLCKSZ: usize = 8192;

/// Bytes of a page header up to its line-pointer array.
pub const PAGE_HEADER_SIZE: usize = 24;

/// Bytes of the special data that every page of the index carries.
pub const SPECIAL_DATA_SIZE: usize = 8;

/// `n` rounded up to a multiple of eight.
pub open spec fn maxalign(n: int) -> int {
    (n + 7) / 8 * 8
}

fn maxalign_exec(n: usize) -> (r: usize)
    requires
        n <= 0x1_0000,
    ensures
        r == maxalign(n as int),
{
    (n + 7) / 8 * 8
}

/// The special data of every page: the next page of its list, and the
/// transaction that removed the page, if any.
#[derive(Clone, Copy, Debug, PartialEq, Eq, Structural)]
pub struct BM25PageSpecialData {
    pub next_blockno: BlockNumber,
    pub xmax: TransactionId,
}

/// The bytes of a page that are left for items once the header and the
/// special data are laid out.
pub fn bm25_max_free_space() -> (r: usize)
    ensures
        r == BLCKSZ - maxalign(SPECIAL_DATA_SIZE as int) - maxalign(PAGE_HEADER_SIZE as int),
{
    BLCKSZ - maxalign_exec(SPECIAL_DATA_SIZE) - maxalign_exec(PAGE_HEADER_SIZE)
}

/// The header of a chained byte stream, held in the first page of its
/// content area.
#[derive(Clone, Copy, Debug, PartialEq, Eq, Structural)]
pub struct LinkedListData {
    /// The first data block of the list.
    pub start_blockno: BlockNumber,
    /// The last data block of the list, where appends go.
    pub last_blockno: BlockNumber,
    /// The number of data pages, the header page excluded.
    pub npages: u32,
    /// Where the index from item ordinal to block starts.
    pub blocklist_start: BlockNumber,
}

/// The header as stored: its four words, packed, little-endian.
pub open spec fn header_bytes(d: LinkedListData) -> Seq<u8> {
    spec_u32_to_le_bytes(d.start_blockno) + spec_u32_to_le_bytes(d.last_blockno)
        + spec_u32_to_le_bytes(d.npages) + spec_u32_to_le_bytes(d.blocklist_start)
}

impl LinkedListData {
    /// Reads the header from the start of its page's contents; `None` when
    /// fewer than sixteen bytes are given.
    pub fn from_page_bytes(b: &[u8]) -> (r: Option<LinkedListData>)
        ensures
            b@.len() >= 16 <==> r is Some,
            r matches Some(d) ==> header_bytes(d) == b@.take(16),
    {
        if b.len() < 16 {
            return None;
        }
        let start_blockno = u32_from_le_bytes(slice_subrange(b, 0, 4));
        let last_blockno = u32_from_le_bytes(slice_subrange(b, 4, 8));
        let npages = u32_from_le_bytes(slice_subrange(b, 8, 12));
        let blocklist_start = u32_from_le_bytes(slice_subrange(b, 12, 16));
        let d = LinkedListData { start_blockno, last_blockno, npages, blocklist_start };
        proof {
            lemma_auto_spec_u32_to_from_le_bytes();
            assert(b@.take(16) =~= b@.subrange(0, 4) + b@.subrange(4, 8) + b@.subrange(8, 12)
                + b@.subrange(12, 16));
        }
        Some(d)
    }

    /// The header's sixteen bytes as stored.
    pub fn to_page_bytes(&self) -> (r: Vec<u8>)
        ensures
            r@ == header_bytes(*self),
    {
        let mut v = u32_to_le_bytes(self.start_blockno);
        let mut w = u32_to_le_bytes(self.last_blockno);
        v.append(&mut w);
        let mut w = u32_to_le_bytes(self.npages);
        v.append(&mut w);
        let mut w = u32_to_le_bytes(self.blocklist_start);
        v.append(&mut w);
        v
    }

    /// The first data block, from which iteration starts. Headers are
    /// initialized before any reader uses them, so the stored block is
    /// never page zero nor the invalid sentinel.
    pub fn get_start_blockno(&self) -> (r: BlockNumber)
        requires
            valid_block(self.start_blockno),
        ensures
            r == self.start_blockno,
    {
        self.start_blockno
    }

    /// The last data block, read from the header rather than by walking the
    /// chain; this holds only while the list has a single writer.
    pub fn get_last_blockno(&self) -> (r: BlockNumber)
        requires
            valid_block(self.last_blockno),
        ensures
            r == self.last_blockno,
    {
        self.last_blockno
    }
}

/// Writing a header and reading it back gives the same header.
pub proof fn lemma_header_round_trip(d: LinkedListData, rest: Seq<u8>)
    ensures
        header_bytes(d).len() == 16,
        (header_bytes(d) + rest).take(16) == header_bytes(d),
        forall|e: LinkedListData| header_bytes(e) == header_bytes(d) ==> e == d,
{
    lemma_auto_spec_u32_to_from_le_bytes();
    assert((header_bytes(d) + rest).take(16) =~= header_bytes(d));
    assert forall|e: LinkedListData| header_bytes(e) == header_bytes(d) implies e == d by {
        let he = header_bytes(e);
        let hd = header_bytes(d);
        assert(he.subrange(0, 4) =~= spec_u32_to_le_bytes(e.start_blockno));
        assert(hd.subrange(0, 4) =~= spec_u32_to_le_bytes(d.start_blockno));
        assert(he.subrange(4, 8) =~= spec_u32_to_le_bytes(e.last_blockno));
        assert(hd.subrange(4, 8) =~= spec_u32_to_le_bytes(d.last_blockno));
        assert(he.subrange(8, 12) =~= spec_u32_to_le_bytes(e.npages));
        assert(hd.subrange(8, 12) =~= spec_u32_to_le_bytes(d.npages));
        assert(he.subrange(12, 16) =~= spec_u32_to_le_bytes(e.blocklist_start));
        assert(hd.subrange(12, 16) =~= spec_u32_to_le_bytes(d.blocklist_start));
    }
}

/// The common contract of every chained byte stream: a fixed header page,
/// its header, and the block that holds a given item.
pub trait LinkedList {
    /// The list's fixed root page.
    fn get_header_blockno(&self) -> BlockNumber;

    /// A point-in-time copy of the header; the page may be reused once this
    /// returns, so iteration must not start from it.
    fn get_linked_list_data(&self) -> LinkedListData;

    /// The block that holds item `ord`, found through the block index.
    fn block_for_ord(&self, ord: usize) -> Option<BlockNumber>;
}

} // verus!
