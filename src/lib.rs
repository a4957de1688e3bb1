//! Storage substrate for a search index kept in fixed-size database pages:
//! per-segment metadata with MVCC predicates, its positional binary codec,
//! chained page-list headers, and the parallel-scan claim protocol.
use vstd::prelude::*;

pub mod block;
pub mod codec;
pub mod file_name;
pub mod parallel;
pub mod tantivy_ids;
pub mod segment;
pub mod state;
