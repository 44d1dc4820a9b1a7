//! The index file format, byte by byte.

use crate::bytes::{i16_byte, i16_round_trip, le_i16, le_u32, u32_byte, u32_round_trip};
use crate::index_file::{
    bbox_maxs, bbox_mins, centroids, cluster_count, complete, dims, has_tables, header_error,
    label_place, message_text, offsets, openable, record_at, record_count, record_end, stored_label,
    stored_vector, IndexError, IVF_MAGIC,
};
use crate::index_writer::{encodes, record_byte, Tables};
use vstd::prelude::*;

verus! {

/// A signed number is stored low byte first, in two's complement.
pub proof fn i16_bytes(s: Seq<u8>, off: int)
    ensures
        le_i16(s, off) as int == s[off] as int + 256 * (s[off + 1] as int) - (if s[off + 1] >= 128 {
            65_536int
        } else {
            0
        }),
{
}

/// An unsigned number is stored low byte first.
pub proof fn u32_bytes(s: Seq<u8>, off: int)
    ensures
        le_u32(s, off) as int == s[off] as int + 256 * (s[off + 1] as int) + 65_536 * (s[off
            + 2] as int) + 16_777_216 * (s[off + 3] as int),
{
}

/// The bytes that are written for a number add up to it.
pub proof fn written_bytes(v: i16, u: u32)
    ensures
        v as int == i16_byte(v, 0) as int + 256 * (i16_byte(v, 1) as int) - (if i16_byte(v, 1)
            >= 128 {
            65_536int
        } else {
            0
        }),
        u as int == u32_byte(u, 0) as int + 256 * (u32_byte(u, 1) as int) + 65_536 * (u32_byte(
            u,
            2,
        ) as int) + 16_777_216 * (u32_byte(u, 3) as int),
{
    let s = seq![i16_byte(v, 0), i16_byte(v, 1)];
    i16_round_trip(s, 0, v);
    i16_bytes(s, 0);
    let t = seq![u32_byte(u, 0), u32_byte(u, 1), u32_byte(u, 2), u32_byte(u, 3)];
    assert forall|b: int| 0 <= b < 4 implies t[0 + b] == #[trigger] u32_byte(u, b) by {
        assert(b == 0 || b == 1 || b == 2 || b == 3);
    }
    u32_round_trip(t, 0, u);
    u32_bytes(t, 0);
}

/// The header: eight magic bytes, then three numbers.
pub proof fn header_fields(f: Seq<u8>)
    ensures
        cluster_count(f) == le_u32(f, 8),
        record_count(f) == le_u32(f, 12),
        dims(f) == le_u32(f, 16),
{
}

/// `f` starts with the letters RINHIVF5.
spec fn starts_right(f: Seq<u8>) -> bool {
    f[0] == 82 && f[1] == 73 && f[2] == 78 && f[3] == 72 && f[4] == 73 && f[5] == 86 && f[6] == 70
        && f[7] == 53
}

/// A file is refused exactly if it is shorter than a header, does not start with the magic
/// letters, or is not made for 14 coordinates; the first of these faults is named.
pub proof fn header_verdict(f: Seq<u8>)
    ensures
        header_error(f) == Some(IndexError::TooSmall) <==> f.len() < 20,
        header_error(f) == Some(IndexError::InvalidMagic) <==> f.len() >= 20 && !(f[0] == 82 && f[1]
            == 73 && f[2] == 78 && f[3] == 72 && f[4] == 73 && f[5] == 86 && f[6] == 70 && f[7]
            == 53),
        header_error(f) == Some(IndexError::UnexpectedDims) <==> f.len() >= 20 && f[0] == 82 && f[1]
            == 73 && f[2] == 78 && f[3] == 72 && f[4] == 73 && f[5] == 86 && f[6] == 70 && f[7]
            == 53 && le_u32(f, 16) != 14,
        header_error(f) is None <==> f.len() >= 20 && f[0] == 82 && f[1] == 73 && f[2] == 78 && f[3]
            == 72 && f[4] == 73 && f[5] == 86 && f[6] == 70 && f[7] == 53 && le_u32(f, 16) == 14,
{
    if f.len() >= 20 {
        let t = f.take(8);
        assert(t.len() == 8 && IVF_MAGIC@.len() == 8);
        assert(t[0] == f[0] && t[1] == f[1] && t[2] == f[2] && t[3] == f[3] && t[4] == f[4] && t[5]
            == f[5] && t[6] == f[6] && t[7] == f[7]);
        if starts_right(f) {
            assert(t =~= IVF_MAGIC@);
        } else {
            assert(t != IVF_MAGIC@);
        }
    }
}

/// Where the numbers of an index file stand: 14 coordinates of each centroid, of each lower and
/// of each upper corner, then the offsets, then records of 32 bytes, then one label byte each.
pub proof fn number_places(f: Seq<u8>, x: int, c: int, j: int, d: int)
    requires
        0 <= x < 14 * le_u32(f, 8),
        0 <= c <= le_u32(f, 8),
        0 <= d < 14,
    ensures
        centroids(f).len() == 14 * le_u32(f, 8),
        bbox_mins(f).len() == 14 * le_u32(f, 8),
        bbox_maxs(f).len() == 14 * le_u32(f, 8),
        offsets(f).len() == le_u32(f, 8) + 1,
        stored_vector(f, j).len() == 14,
        centroids(f)[x] == le_i16(f, 20 + 2 * x),
        bbox_mins(f)[x] == le_i16(f, 20 + 28 * le_u32(f, 8) + 2 * x),
        bbox_maxs(f)[x] == le_i16(f, 20 + 56 * le_u32(f, 8) + 2 * x),
        offsets(f)[c] == le_u32(f, 20 + 84 * le_u32(f, 8) + 4 * c),
        stored_vector(f, j)[d] == le_i16(f, 24 + 88 * le_u32(f, 8) + 32 * j + 2 * d),
        record_end(f, j) == 24 + 88 * le_u32(f, 8) + 32 * j + 32,
{
}

/// The tables of a file without clusters are empty but for one offset.
pub proof fn table_lengths(f: Seq<u8>)
    ensures
        centroids(f).len() == 14 * le_u32(f, 8),
        bbox_mins(f).len() == 14 * le_u32(f, 8),
        bbox_maxs(f).len() == 14 * le_u32(f, 8),
        offsets(f).len() == le_u32(f, 8) + 1,
        offsets(f)[0] == le_u32(f, 20 + 84 * le_u32(f, 8)),
{
}

/// Where the label of record `j` stands.
pub proof fn label_places(f: Seq<u8>, j: int)
    ensures
        label_place(f, j) == 24 + 88 * le_u32(f, 8) + 32 * le_u32(f, 12) + j,
        stored_label(f, j) == f[24 + 88 * le_u32(f, 8) + 32 * le_u32(f, 12) + j],
{
}

/// A file has its tables if it reaches to the records, and is complete if it reaches to the end
/// of the labels and no cluster ends after the records.
pub proof fn sizes(f: Seq<u8>)
    ensures
        has_tables(f) <==> 24 + 88 * le_u32(f, 8) <= f.len(),
        complete(f) <==> {
            &&& header_error(f) is None
            &&& 24 + 88 * le_u32(f, 8) + 33 * le_u32(f, 12) <= f.len()
            &&& forall|c: int|
                0 <= c <= le_u32(f, 8) ==> #[trigger] offsets(f)[c] <= le_u32(f, 12)
        },
{
}

/// A written file reads back: all tables, every vector with its label, and zeros for padding;
/// and nothing follows.
pub proof fn written_file(f: Seq<u8>, t: Tables, j: int, b: int)
    requires
        encodes(f, t),
        t.wf(),
        0 <= j < t.order@.len(),
        28 <= b < 32,
    ensures
        header_error(f) is None,
        le_u32(f, 8) + 1 == t.offsets@.len(),
        le_u32(f, 12) == t.order@.len(),
        centroids(f) == t.centroids@,
        bbox_mins(f) == t.bbox_min@,
        bbox_maxs(f) == t.bbox_max@,
        offsets(f) == t.offsets@,
        stored_vector(f, j) == t.vectors@[t.order@[j] as int]@,
        stored_label(f, j) == t.labels@[t.order@[j] as int],
        f[24 + 88 * le_u32(f, 8) + 32 * j + b] == 0,
        f.len() == 24 + 88 * le_u32(f, 8) + 33 * le_u32(f, 12),
{
    assert(record_byte(f, j, b) == 0);
}

/// Each error has its message.
pub proof fn messages()
    ensures
        message_text(IndexError::TooSmall) == "file too small"@,
        message_text(IndexError::InvalidMagic) == "invalid magic bytes"@,
        message_text(IndexError::UnexpectedDims) == "unexpected dims in index header"@,
{
}

/// A file can be opened unless its header is right and its tables are cut off. A record can be
/// read if it is one of the records and does not lie beyond the end of the file.
pub proof fn readable_parts(f: Seq<u8>, idx: int)
    requires
        0 <= idx,
    ensures
        openable(f) <==> header_error(f) is Some || 24 + 88 * le_u32(f, 8) <= f.len(),
        idx < le_u32(f, 12) && 24 + 88 * le_u32(f, 8) + 32 * (idx + 1) <= f.len() ==> record_at(
            f,
            idx,
        ) == Some(stored_vector(f, idx)),
        idx >= le_u32(f, 12) || 24 + 88 * le_u32(f, 8) + 32 * (idx + 1) > f.len() ==> record_at(
            f,
            idx,
        ) is None,
{
}

} // verus!
