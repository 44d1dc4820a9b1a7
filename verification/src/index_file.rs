//! The layout of an index file.
//!
//! A file is a header (magic bytes, number of clusters, number of records, number of
//! coordinates), the centroids, the lower and the upper corners of the boxes of the clusters,
//! the offsets at which the clusters start and the last one ends, the records in the order of
//! their clusters, and one label byte per record. All numbers are little-endian.

use crate::bytes::{le_i16, le_u32};
use crate::metric::{DIMS, STRIDE};
use vstd::prelude::*;

verus! {

/// The bytes that every index file starts with.
pub const IVF_MAGIC: [u8; 8] = [0x52, 0x49, 0x4e, 0x48, 0x49, 0x56, 0x46, 0x35];

/// Bytes of the header.
pub const HEADER_SIZE: usize = 20;

/// Why a byte sequence is not an index file.
#[derive(Clone, Copy, Debug, PartialEq, Eq, Structural)]
pub enum IndexError {
    /// Shorter than a header.
    TooSmall,
    /// Does not start with the magic bytes.
    InvalidMagic,
    /// Made for another number of coordinates.
    UnexpectedDims,
}

/// What to tell the user of an error.
pub open spec fn message_text(e: IndexError) -> Seq<char> {
    match e {
        IndexError::TooSmall => "file too small"@,
        IndexError::InvalidMagic => "invalid magic bytes"@,
        IndexError::UnexpectedDims => "unexpected dims in index header"@,
    }
}

impl IndexError {
    /// What to tell the user.
    pub fn message(&self) -> (text: &'static str)
        ensures
            text@ == message_text(*self),
    {
        match self {
            IndexError::TooSmall => "file too small",
            IndexError::InvalidMagic => "invalid magic bytes",
            IndexError::UnexpectedDims => "unexpected dims in index header",
        }
    }
}

/// Number of clusters that the header of `f` gives.
pub open spec fn cluster_count(f: Seq<u8>) -> int {
    le_u32(f, 8) as int
}

/// Number of records that the header of `f` gives.
pub open spec fn record_count(f: Seq<u8>) -> int {
    le_u32(f, 12) as int
}

/// Number of coordinates that the header of `f` gives.
pub open spec fn dims(f: Seq<u8>) -> int {
    le_u32(f, 16) as int
}

/// Where the lower corners of the boxes of `k` clusters start.
pub open spec fn bbox_min_start(k: int) -> int {
    HEADER_SIZE + 2 * (k * DIMS)
}

/// Where the upper corners of the boxes of `k` clusters start.
pub open spec fn bbox_max_start(k: int) -> int {
    HEADER_SIZE + 4 * (k * DIMS)
}

/// Where the offsets of `k` clusters start.
pub open spec fn offsets_start(k: int) -> int {
    HEADER_SIZE + 6 * (k * DIMS)
}

/// Where the records of `k` clusters start.
pub open spec fn data_start(k: int) -> int {
    offsets_start(k) + 4 * (k + 1)
}

/// Where the labels of `n` records in `k` clusters start.
pub open spec fn labels_start(k: int, n: int) -> int {
    data_start(k) + n * STRIDE
}

/// `count` signed numbers from `start` on.
pub open spec fn i16_table(f: Seq<u8>, start: int, count: int) -> Seq<i16> {
    Seq::new(count as nat, |i: int| le_i16(f, start + 2 * i))
}

/// `count` unsigned numbers from `start` on.
pub open spec fn u32_table(f: Seq<u8>, start: int, count: int) -> Seq<u32> {
    Seq::new(count as nat, |i: int| le_u32(f, start + 4 * i))
}

/// The centroids of the clusters, row by row.
pub open spec fn centroids(f: Seq<u8>) -> Seq<i16> {
    i16_table(f, HEADER_SIZE as int, cluster_count(f) * DIMS)
}

/// The lower corners of the boxes of the clusters, row by row.
pub open spec fn bbox_mins(f: Seq<u8>) -> Seq<i16> {
    i16_table(f, bbox_min_start(cluster_count(f)), cluster_count(f) * DIMS)
}

/// The upper corners of the boxes of the clusters, row by row.
pub open spec fn bbox_maxs(f: Seq<u8>) -> Seq<i16> {
    i16_table(f, bbox_max_start(cluster_count(f)), cluster_count(f) * DIMS)
}

/// Where each cluster starts among the records, and where the last one ends.
pub open spec fn offsets(f: Seq<u8>) -> Seq<u32> {
    u32_table(f, offsets_start(cluster_count(f)), cluster_count(f) + 1)
}

/// The coordinates of record `j`.
pub open spec fn stored_vector(f: Seq<u8>, j: int) -> Seq<i16> {
    i16_table(f, data_start(cluster_count(f)) + j * STRIDE, DIMS as int)
}

/// Where record `j` ends.
pub open spec fn record_end(f: Seq<u8>, j: int) -> int {
    data_start(cluster_count(f)) + (j + 1) * STRIDE
}

/// The place of the label byte of record `j`.
pub open spec fn label_place(f: Seq<u8>, j: int) -> int {
    labels_start(cluster_count(f), record_count(f)) + j
}

/// The label byte of record `j`.
pub open spec fn stored_label(f: Seq<u8>, j: int) -> u8 {
    f[label_place(f, j)]
}

/// What is wrong with the header of `f`, if anything; the first fault found counts.
pub open spec fn header_error(f: Seq<u8>) -> Option<IndexError> {
    if f.len() < HEADER_SIZE {
        Some(IndexError::TooSmall)
    } else if f.take(8) != IVF_MAGIC@ {
        Some(IndexError::InvalidMagic)
    } else if dims(f) != DIMS {
        Some(IndexError::UnexpectedDims)
    } else {
        None
    }
}

/// All tables in front of the records are there.
pub open spec fn has_tables(f: Seq<u8>) -> bool {
    data_start(cluster_count(f)) <= f.len()
}

/// `f` holds all it announces: the tables, the records, a label for each record, and clusters
/// that lie within the records.
pub open spec fn complete(f: Seq<u8>) -> bool {
    &&& header_error(f) is None
    &&& label_place(f, record_count(f)) <= f.len()
    &&& forall|c: int| 0 <= c <= cluster_count(f) ==> #[trigger] offsets(f)[c] <= record_count(f)
}

/// `f` can be opened: the tables that a right header announces are there.
pub open spec fn openable(f: Seq<u8>) -> bool {
    header_error(f) is None ==> has_tables(f)
}

/// The coordinates of record `idx`, if `f` holds it.
pub open spec fn record_at(f: Seq<u8>, idx: int) -> Option<Seq<i16>> {
    if idx < record_count(f) && record_end(f, idx) <= f.len() {
        Some(stored_vector(f, idx))
    } else {
        None
    }
}

} // verus!
