//! Writing an index file.

use crate::bytes::{
    i16_byte, i16_round_trip, le_i16, le_i16_injective, le_u32, le_u32_injective, push_i16,
    push_u32, u32_byte, u32_round_trip,
};
use crate::index_file::{
    bbox_max_start, bbox_maxs, bbox_min_start, bbox_mins, centroids, cluster_count, complete,
    data_start, has_tables, header_error, i16_table, labels_start, offsets, offsets_start,
    record_count, stored_label, stored_vector, u32_table, HEADER_SIZE, IVF_MAGIC,
};
use crate::metric::{DIMS, STRIDE};
use vstd::prelude::*;

verus! {

/// What an index file is made of.
pub struct Tables<'t> {
    /// The centroids of the clusters, row by row.
    pub centroids: &'t [i16],
    /// The lower corners of the boxes of the clusters, row by row.
    pub bbox_min: &'t [i16],
    /// The upper corners of the boxes of the clusters, row by row.
    pub bbox_max: &'t [i16],
    /// Where each cluster starts in `order`, and where the last one ends.
    pub offsets: &'t [u32],
    /// The vectors, in the order in which they came.
    pub vectors: &'t [[i16; DIMS]],
    /// The label byte of each vector.
    pub labels: &'t [u8],
    /// Which vector stands at each place of the file.
    pub order: &'t [usize],
}

impl<'t> Tables<'t> {
    /// Number of clusters.
    pub open spec fn k(self) -> int {
        self.offsets@.len() - 1
    }

    /// The tables have matching sizes, and the counts fit the header.
    pub open spec fn wf(self) -> bool {
        &&& 0 <= self.k() <= u32::MAX
        &&& self.order@.len() <= u32::MAX
        &&& self.centroids@.len() == self.k() * DIMS
        &&& self.bbox_min@.len() == self.k() * DIMS
        &&& self.bbox_max@.len() == self.k() * DIMS
        &&& self.vectors@.len() == self.labels@.len()
        &&& forall|p: int|
            0 <= p < self.order@.len() ==> (#[trigger] self.order@[p]) < self.vectors@.len()
    }
}

/// Byte `b` of record `j`.
pub open spec fn record_byte(f: Seq<u8>, j: int, b: int) -> u8 {
    f[data_start(cluster_count(f)) + j * STRIDE + b]
}

/// `f` is the index file made of `t`: every byte of it is determined by the tables.
pub open spec fn encodes(f: Seq<u8>, t: Tables) -> bool {
    let k = t.k();
    let n = t.order@.len() as int;
    &&& header_error(f) is None
    &&& cluster_count(f) == k
    &&& record_count(f) == n
    &&& centroids(f) == t.centroids@
    &&& bbox_mins(f) == t.bbox_min@
    &&& bbox_maxs(f) == t.bbox_max@
    &&& offsets(f) == t.offsets@
    &&& forall|j: int|
        0 <= j < n ==> #[trigger] stored_vector(f, j) == t.vectors@[t.order@[j] as int]@
    &&& forall|j: int, b: int|
        0 <= j < n && 2 * DIMS <= b < STRIDE ==> #[trigger] record_byte(f, j, b) == 0
    &&& forall|j: int|
        0 <= j < n ==> #[trigger] stored_label(f, j) == t.labels@[t.order@[j] as int]
    &&& f.len() == labels_start(k, n) + n
}

/// `g` starts with `f`.
spec fn extends(g: Seq<u8>, f: Seq<u8>) -> bool {
    &&& f.len() <= g.len()
    &&& forall|i: int| 0 <= i < f.len() ==> #[trigger] g[i] == f[i]
}

/// Numbers read from what is already written stay the same.
proof fn tables_stay(f: Seq<u8>, g: Seq<u8>, start: int, count: int)
    requires
        extends(g, f),
        0 <= start,
        0 <= count,
    ensures
        start + 2 * count <= f.len() ==> i16_table(g, start, count) == i16_table(f, start, count),
        start + 4 * count <= f.len() ==> u32_table(g, start, count) == u32_table(f, start, count),
{
    if start + 2 * count <= f.len() {
        assert forall|i: int| 0 <= i < count implies i16_table(g, start, count)[i] == i16_table(
            f,
            start,
            count,
        )[i] by {
            assert(g[start + 2 * i] == f[start + 2 * i]);
            assert(g[start + 2 * i + 1] == f[start + 2 * i + 1]);
        }
        assert(i16_table(g, start, count) =~= i16_table(f, start, count));
    }
    if start + 4 * count <= f.len() {
        assert forall|i: int| 0 <= i < count implies u32_table(g, start, count)[i] == u32_table(
            f,
            start,
            count,
        )[i] by {
            assert(g[start + 4 * i] == f[start + 4 * i]);
            assert(g[start + 4 * i + 1] == f[start + 4 * i + 1]);
            assert(g[start + 4 * i + 2] == f[start + 4 * i + 2]);
            assert(g[start + 4 * i + 3] == f[start + 4 * i + 3]);
        }
        assert(u32_table(g, start, count) =~= u32_table(f, start, count));
    }
}

/// Appends signed numbers.
fn write_i16s(out: &mut Vec<u8>, table: &[i16])
    ensures
        extends(final(out)@, old(out)@),
        final(out)@.len() == old(out)@.len() + 2 * table@.len(),
        i16_table(final(out)@, old(out)@.len() as int, table@.len() as int) == table@,
{
    let ghost before = out@;
    let ghost start = out@.len() as int;
    for i in 0..table.len()
        invariant
            start == before.len(),
            extends(out@, before),
            out@.len() == start + 2 * i,
            i16_table(out@, start, i as int) == table@.take(i as int),
    {
        let ghost step = out@;
        push_i16(out, table[i]);
        proof {
            assert(extends(out@, step));
            tables_stay(step, out@, start, i as int);
            assert(out@[start + 2 * i] == i16_byte(table@[i as int], 0));
            assert(out@[start + 2 * i + 1] == i16_byte(table@[i as int], 1));
            i16_round_trip(out@, start + 2 * i, table@[i as int]);
            let written = i16_table(out@, start, i + 1);
            let given = table@.take(i + 1);
            assert forall|j: int| 0 <= j < i + 1 implies #[trigger] written[j] == given[j] by {
                if j < i {
                    assert(i16_table(out@, start, i as int)[j] == table@.take(i as int)[j]);
                }
            }
            assert(written =~= given);
        }
    }
    assert(table@.take(table@.len() as int) =~= table@);
}

/// Appends unsigned numbers.
fn write_u32s(out: &mut Vec<u8>, table: &[u32])
    ensures
        extends(final(out)@, old(out)@),
        final(out)@.len() == old(out)@.len() + 4 * table@.len(),
        u32_table(final(out)@, old(out)@.len() as int, table@.len() as int) == table@,
{
    let ghost before = out@;
    let ghost start = out@.len() as int;
    for i in 0..table.len()
        invariant
            start == before.len(),
            extends(out@, before),
            out@.len() == start + 4 * i,
            u32_table(out@, start, i as int) == table@.take(i as int),
    {
        let ghost step = out@;
        push_u32(out, table[i]);
        proof {
            assert(extends(out@, step));
            tables_stay(step, out@, start, i as int);
            assert forall|b: int| 0 <= b < 4 implies out@[start + 4 * i + b] == #[trigger] u32_byte(
                table@[i as int],
                b,
            ) by {}
            u32_round_trip(out@, start + 4 * i, table@[i as int]);
            let written = u32_table(out@, start, i + 1);
            let given = table@.take(i + 1);
            assert forall|j: int| 0 <= j < i + 1 implies #[trigger] written[j] == given[j] by {
                if j < i {
                    assert(u32_table(out@, start, i as int)[j] == table@.take(i as int)[j]);
                }
            }
            assert(written =~= given);
        }
    }
    assert(table@.take(table@.len() as int) =~= table@);
}

/// Appends the records and their padding, in the order in which they stand in the file.
fn write_records(out: &mut Vec<u8>, vectors: &[[i16; DIMS]], order: &[usize])
    requires
        forall|p: int| 0 <= p < order@.len() ==> (#[trigger] order@[p]) < vectors@.len(),
    ensures
        extends(final(out)@, old(out)@),
        final(out)@.len() == old(out)@.len() + order@.len() * STRIDE,
        forall|p: int|
            0 <= p < order@.len() ==> i16_table(
                final(out)@,
                old(out)@.len() + p * STRIDE,
                DIMS as int,
            ) == vectors@[#[trigger] order@[p] as int]@,
        forall|p: int, b: int|
            #![trigger padding_at(final(out)@, old(out)@.len() as int, p, b)]
            0 <= p < order@.len() && 2 * DIMS <= b < STRIDE ==> padding_at(
                final(out)@,
                old(out)@.len() as int,
                p,
                b,
            ) == 0,
{
    let ghost before = out@;
    let ghost start = out@.len() as int;
    for i in 0..order.len()
        invariant
            start == before.len(),
            extends(out@, before),
            out@.len() == start + i * STRIDE,
            forall|p: int| 0 <= p < order@.len() ==> (#[trigger] order@[p]) < vectors@.len(),
            forall|p: int|
                0 <= p < i ==> i16_table(out@, start + p * STRIDE, DIMS as int)
                    == vectors@[#[trigger] order@[p] as int]@,
            forall|p: int, b: int|
                #![trigger padding_at(out@, start, p, b)]
                0 <= p < i && 2 * DIMS <= b < STRIDE ==> padding_at(out@, start, p, b) == 0,
    {
        let ghost step = out@;
        let v: [i16; DIMS] = vectors[order[i]];
        write_i16s(out, &v);
        let ghost wide = out@;
        out.push(0u8);
        out.push(0u8);
        out.push(0u8);
        out.push(0u8);
        proof {
            assert(extends(out@, wide));
            assert(extends(out@, step));
            tables_stay(wide, out@, start + i * STRIDE, DIMS as int);
            assert forall|p: int| 0 <= p < i + 1 implies i16_table(
                out@,
                start + p * STRIDE,
                DIMS as int,
            ) == vectors@[#[trigger] order@[p] as int]@ by {
                if p < i {
                    tables_stay(step, out@, start + p * STRIDE, DIMS as int);
                }
            }
            assert forall|p: int, b: int|
                #![trigger padding_at(out@, start, p, b)]
                0 <= p < i + 1 && 2 * DIMS <= b < STRIDE implies padding_at(out@, start, p, b)
                == 0 by {
                if p < i {
                    assert(padding_at(step, start, p, b) == 0);
                    assert(out@[start + p * STRIDE + b] == step[start + p * STRIDE + b]);
                }
            }
        }
    }
}

/// Byte `b` of the record at place `p` of the records that start at `start`.
spec fn padding_at(f: Seq<u8>, start: int, p: int, b: int) -> u8 {
    f[start + p * STRIDE + b]
}

/// Writes the index file made of `t`.
pub fn encode_index(t: &Tables) -> (file: Vec<u8>)
    requires
        t.wf(),
    ensures
        encodes(file@, *t),
{
    let ghost k = t.k();
    let ghost n = t.order@.len() as int;
    let mut out: Vec<u8> = Vec::new();
    for i in 0..IVF_MAGIC.len()
        invariant
            out@ == IVF_MAGIC@.take(i as int),
    {
        out.push(IVF_MAGIC[i]);
        assert(out@ =~= IVF_MAGIC@.take(i + 1));
    }
    let header: [u32; 3] = [(t.offsets.len() - 1) as u32, t.order.len() as u32, DIMS as u32];
    write_u32s(&mut out, &header);
    let ghost f1 = out@;
    assert(f1.take(8) =~= IVF_MAGIC@);
    assert(u32_table(f1, 8, 3)[0] == k && u32_table(f1, 8, 3)[1] == n && u32_table(f1, 8, 3)[2]
        == DIMS);
    write_i16s(&mut out, t.centroids);
    let ghost f2 = out@;
    write_i16s(&mut out, t.bbox_min);
    let ghost f3 = out@;
    write_i16s(&mut out, t.bbox_max);
    let ghost f4 = out@;
    write_u32s(&mut out, t.offsets);
    let ghost f5 = out@;
    write_records(&mut out, t.vectors, t.order);
    let ghost f6 = out@;
    for i in 0..t.order.len()
        invariant
            t.wf(),
            n == t.order@.len(),
            out@.len() == f6.len() + i,
            extends(out@, f6),
            forall|p: int|
                0 <= p < i ==> out@[f6.len() + p] == t.labels@[#[trigger] t.order@[p] as int],
    {
        out.push(t.labels[t.order[i]]);
    }
    proof {
        let f = out@;
        assert(extends(f, f1) && extends(f, f2) && extends(f, f3) && extends(f, f4) && extends(
            f,
            f5,
        ));
        tables_stay(f1, f, 8, 3);
        assert(u32_table(f, 8, 3)[0] == le_u32(f, 8));
        assert(u32_table(f, 8, 3)[1] == le_u32(f, 12));
        assert(u32_table(f, 8, 3)[2] == le_u32(f, 16));
        assert(f.take(8) =~= f1.take(8));
        tables_stay(f2, f, HEADER_SIZE as int, k * DIMS);
        tables_stay(f3, f, bbox_min_start(k), k * DIMS);
        tables_stay(f4, f, bbox_max_start(k), k * DIMS);
        tables_stay(f5, f, offsets_start(k), k + 1);
        assert forall|j: int| 0 <= j < n implies #[trigger] stored_vector(f, j)
            == t.vectors@[t.order@[j] as int]@ by {
            tables_stay(f6, f, data_start(k) + j * STRIDE, DIMS as int);
        }
        assert forall|j: int, b: int| 0 <= j < n && 2 * DIMS <= b < STRIDE implies
            #[trigger] record_byte(f, j, b) == 0 by {
            assert(padding_at(f6, data_start(k), j, b) == 0);
            assert(f[data_start(k) + j * STRIDE + b] == f6[data_start(k) + j * STRIDE + b]);
        }
        assert forall|j: int| 0 <= j < n implies #[trigger] stored_label(f, j)
            == t.labels@[t.order@[j] as int] by {
            assert(f[f6.len() + j] == t.labels@[t.order@[j] as int]);
        }
    }
    out
}

/// The byte at `i` lies in a table of signed numbers that both files hold alike.
proof fn same_in_i16_table(f: Seq<u8>, g: Seq<u8>, start: int, count: int, i: int)
    requires
        start <= i < start + 2 * count,
        i16_table(f, start, count) == i16_table(g, start, count),
    ensures
        f[i] == g[i],
{
    let x = (i - start) / 2;
    assert(i16_table(f, start, count)[x] == le_i16(f, start + 2 * x));
    assert(i16_table(g, start, count)[x] == le_i16(g, start + 2 * x));
    le_i16_injective(f, g, start + 2 * x);
    assert(i == start + 2 * x || i == start + 2 * x + 1);
}

/// The byte at `i` lies in a table of unsigned numbers that both files hold alike.
proof fn same_in_u32_table(f: Seq<u8>, g: Seq<u8>, start: int, count: int, i: int)
    requires
        start <= i < start + 4 * count,
        u32_table(f, start, count) == u32_table(g, start, count),
    ensures
        f[i] == g[i],
{
    let x = (i - start) / 4;
    assert(u32_table(f, start, count)[x] == le_u32(f, start + 4 * x));
    assert(u32_table(g, start, count)[x] == le_u32(g, start + 4 * x));
    le_u32_injective(f, g, start + 4 * x);
    assert(i == start + 4 * x || i == start + 4 * x + 1 || i == start + 4 * x + 2 || i == start + 4
        * x + 3);
}

/// Two index files that read alike are the same: the format leaves no byte open.
pub proof fn same_contents_same_file(f: Seq<u8>, g: Seq<u8>)
    requires
        header_error(f) is None,
        header_error(g) is None,
        cluster_count(f) == cluster_count(g),
        record_count(f) == record_count(g),
        centroids(f) == centroids(g),
        bbox_mins(f) == bbox_mins(g),
        bbox_maxs(f) == bbox_maxs(g),
        offsets(f) == offsets(g),
        forall|j: int|
            0 <= j < record_count(f) ==> #[trigger] stored_vector(f, j) == stored_vector(g, j),
        forall|j: int, b: int|
            0 <= j < record_count(f) && 2 * DIMS <= b < STRIDE ==> #[trigger] record_byte(f, j, b)
                == record_byte(g, j, b),
        forall|j: int|
            0 <= j < record_count(f) ==> #[trigger] stored_label(f, j) == stored_label(g, j),
        f.len() == labels_start(cluster_count(f), record_count(f)) + record_count(f),
        g.len() == f.len(),
    ensures
        f == g,
{
    let k = cluster_count(f);
    let n = record_count(f);
    assert forall|i: int| 0 <= i < f.len() implies f[i] == g[i] by {
        if i < 8 {
            assert(f.take(8)[i] == g.take(8)[i]);
        } else if i < 12 {
            le_u32_injective(f, g, 8);
        } else if i < 16 {
            le_u32_injective(f, g, 12);
        } else if i < HEADER_SIZE {
            le_u32_injective(f, g, 16);
        } else if i < bbox_min_start(k) {
            same_in_i16_table(f, g, HEADER_SIZE as int, k * DIMS, i);
        } else if i < bbox_max_start(k) {
            same_in_i16_table(f, g, bbox_min_start(k), k * DIMS, i);
        } else if i < offsets_start(k) {
            same_in_i16_table(f, g, bbox_max_start(k), k * DIMS, i);
        } else if i < data_start(k) {
            same_in_u32_table(f, g, offsets_start(k), k + 1, i);
        } else if i < labels_start(k, n) {
            let j = (i - data_start(k)) / STRIDE as int;
            let b = (i - data_start(k)) % STRIDE as int;
            assert(i == data_start(k) + j * STRIDE + b);
            if b < 2 * DIMS {
                assert(stored_vector(f, j) == stored_vector(g, j));
                same_in_i16_table(f, g, data_start(k) + j * STRIDE, DIMS as int, i);
            } else {
                assert(record_byte(f, j, b) == record_byte(g, j, b));
            }
        } else {
            let j = i - labels_start(k, n);
            assert(stored_label(f, j) == stored_label(g, j));
        }
    }
    assert(f =~= g);
}

/// Tables have one index file only.
pub proof fn encoding_unique(f: Seq<u8>, g: Seq<u8>, t: Tables)
    requires
        encodes(f, t),
        encodes(g, t),
    ensures
        f == g,
{
    same_contents_same_file(f, g);
}

/// What was written can be opened and is complete, if its clusters end within the records; and
/// reading it gives back what was written.
pub proof fn encoding_reads_back(f: Seq<u8>, t: Tables)
    requires
        encodes(f, t),
        t.wf(),
        forall|c: int| 0 <= c < t.offsets@.len() ==> (#[trigger] t.offsets@[c]) <= t.order@.len(),
    ensures
        header_error(f) is None,
        has_tables(f),
        complete(f),
        centroids(f) == t.centroids@,
        bbox_mins(f) == t.bbox_min@,
        bbox_maxs(f) == t.bbox_max@,
        offsets(f) == t.offsets@,
        record_count(f) == t.order@.len(),
        forall|j: int|
            0 <= j < t.order@.len() ==> #[trigger] stored_vector(f, j)
                == t.vectors@[t.order@[j] as int]@,
        forall|j: int|
            0 <= j < t.order@.len() ==> #[trigger] stored_label(f, j)
                == t.labels@[t.order@[j] as int],
{
}

} // verus!
