//! The index merge: one merged index buffer per group, each member's index
//! values re-based by the cumulative vertex count of the members before it,
//! or, for non-indexed groups, the accumulated vertex count.

use vstd::prelude::*;
use crate::types::{
    BatchError, GpuIndexBufferData, IndexData, IndexFormat, InstancedMeshKey, MeshId, MeshRecord,
    RenderMeshes,
};
use crate::vertices::group_present;
use crate::keying::sorted_unique_ids;

verus! {

/// The record of an identity that is known to be in the table.
pub open spec fn record_of(meshes: &RenderMeshes, m: MeshId) -> MeshRecord {
    meshes.spec_get(m).unwrap()
}

/// Shape of a record's index part: 16-bit indexed, 32-bit indexed, or
/// non-indexed. Members of one group must all have the same shape.
pub open spec fn data_tag(r: MeshRecord) -> int {
    match r.index_buffer_data {
        GpuIndexBufferData::Indexed { indices: IndexData::U16(_), .. } => 0,
        GpuIndexBufferData::Indexed { indices: IndexData::U32(_), .. } => 1,
        GpuIndexBufferData::NonIndexed { .. } => 2,
    }
}

/// All members share the first member's index shape.
pub open spec fn homogeneous(g: Seq<MeshId>, meshes: &RenderMeshes) -> bool {
    forall|i: int|
        0 <= i < g.len() ==> data_tag(record_of(meshes, #[trigger] g[i])) == data_tag(
            record_of(meshes, g[0]),
        )
}

/// Member `i` disagrees with the first member on the index shape.
pub open spec fn mismatch_at(g: Seq<MeshId>, meshes: &RenderMeshes, i: int) -> bool {
    data_tag(record_of(meshes, g[i])) != data_tag(record_of(meshes, g[0]))
}

/// A member's top-level vertex count, the unit of index re-basing.
pub open spec fn vertex_count_of(r: MeshRecord) -> int {
    r.vertex_count as int
}

/// Sum of the members' top-level vertex counts.
pub open spec fn vertex_count_sum(g: Seq<MeshId>, meshes: &RenderMeshes) -> int
    decreases g.len(),
{
    if g.len() == 0 {
        0
    } else {
        vertex_count_sum(g.drop_last(), meshes) + vertex_count_of(record_of(meshes, g.last()))
    }
}

/// A member's declared index count; zero for a non-indexed member.
pub open spec fn index_count_of(r: MeshRecord) -> int {
    match r.index_buffer_data {
        GpuIndexBufferData::Indexed { index_count, .. } => index_count as int,
        GpuIndexBufferData::NonIndexed { .. } => 0,
    }
}

/// Sum of the members' declared index counts.
pub open spec fn index_count_sum(g: Seq<MeshId>, meshes: &RenderMeshes) -> int
    decreases g.len(),
{
    if g.len() == 0 {
        0
    } else {
        index_count_sum(g.drop_last(), meshes) + index_count_of(record_of(meshes, g.last()))
    }
}

/// A member's non-indexed vertex count; zero for an indexed member.
pub open spec fn draw_count_of(r: MeshRecord) -> int {
    match r.index_buffer_data {
        GpuIndexBufferData::Indexed { .. } => 0,
        GpuIndexBufferData::NonIndexed { vertex_count } => vertex_count as int,
    }
}

/// Sum of the members' non-indexed vertex counts.
pub open spec fn draw_count_sum(g: Seq<MeshId>, meshes: &RenderMeshes) -> int
    decreases g.len(),
{
    if g.len() == 0 {
        0
    } else {
        draw_count_sum(g.drop_last(), meshes) + draw_count_of(record_of(meshes, g.last()))
    }
}

/// A 16-bit member's raw index values.
pub open spec fn indices16_of(r: MeshRecord) -> Seq<u16> {
    match r.index_buffer_data {
        GpuIndexBufferData::Indexed { indices: IndexData::U16(v), .. } => v@,
        _ => Seq::empty(),
    }
}

/// A 32-bit member's raw index values.
pub open spec fn indices32_of(r: MeshRecord) -> Seq<u32> {
    match r.index_buffer_data {
        GpuIndexBufferData::Indexed { indices: IndexData::U32(v), .. } => v@,
        _ => Seq::empty(),
    }
}

/// The declared width of an indexed member.
pub open spec fn format_of(r: MeshRecord) -> IndexFormat {
    r.index_buffer_data->Indexed_index_format
}

/// A 16-bit index sequence with `base` added to every value.
pub open spec fn rebase16(s: Seq<u16>, base: int) -> Seq<u16> {
    s.map_values(|x: u16| ((x + base) as u16))
}

/// A 32-bit index sequence with `base` added to every value.
pub open spec fn rebase32(s: Seq<u32>, base: int) -> Seq<u32> {
    s.map_values(|x: u32| ((x + base) as u32))
}

/// The merged 16-bit index sequence of a group: each member's values
/// re-based by the vertex count of the members before it, concatenated in
/// member order.
pub open spec fn merged16(g: Seq<MeshId>, meshes: &RenderMeshes) -> Seq<u16>
    decreases g.len(),
{
    if g.len() == 0 {
        Seq::empty()
    } else {
        merged16(g.drop_last(), meshes) + rebase16(
            indices16_of(record_of(meshes, g.last())),
            vertex_count_sum(g.drop_last(), meshes),
        )
    }
}

/// The merged 32-bit index sequence of a group.
pub open spec fn merged32(g: Seq<MeshId>, meshes: &RenderMeshes) -> Seq<u32>
    decreases g.len(),
{
    if g.len() == 0 {
        Seq::empty()
    } else {
        merged32(g.drop_last(), meshes) + rebase32(
            indices32_of(record_of(meshes, g.last())),
            vertex_count_sum(g.drop_last(), meshes),
        )
    }
}

/// Every re-based 16-bit value stays within 16 bits.
pub open spec fn rebase_fits16(g: Seq<MeshId>, meshes: &RenderMeshes) -> bool {
    forall|i: int, j: int|
        0 <= i < g.len() && 0 <= j < indices16_of(record_of(meshes, g[i])).len()
            ==> #[trigger] indices16_of(record_of(meshes, g[i]))[j] + vertex_count_sum(
            g.take(i),
            meshes,
        ) <= u16::MAX
}

/// Every re-based 32-bit value stays within 32 bits.
pub open spec fn rebase_fits32(g: Seq<MeshId>, meshes: &RenderMeshes) -> bool {
    forall|i: int, j: int|
        0 <= i < g.len() && 0 <= j < indices32_of(record_of(meshes, g[i])).len()
            ==> #[trigger] indices32_of(record_of(meshes, g[i]))[j] + vertex_count_sum(
            g.take(i),
            meshes,
        ) <= u32::MAX
}

/// What the machine forces of a mergeable group: records present, the
/// accumulated counts within 32 bits, and re-based index values within
/// their width.
pub open spec fn merge_feasible(g: Seq<MeshId>, meshes: &RenderMeshes) -> bool {
    &&& group_present(g, meshes)
    &&& vertex_count_sum(g, meshes) <= u32::MAX
    &&& index_count_sum(g, meshes) <= u32::MAX
    &&& draw_count_sum(g, meshes) <= u32::MAX
    &&& homogeneous(g, meshes) && data_tag(record_of(meshes, g[0])) == 0 ==> rebase_fits16(
        g,
        meshes,
    )
    &&& homogeneous(g, meshes) && data_tag(record_of(meshes, g[0])) == 1 ==> rebase_fits32(
        g,
        meshes,
    )
}

pub proof fn lemma_sums_nonneg(g: Seq<MeshId>, meshes: &RenderMeshes)
    ensures
        vertex_count_sum(g, meshes) >= 0,
        index_count_sum(g, meshes) >= 0,
        draw_count_sum(g, meshes) >= 0,
    decreases g.len(),
{
    if g.len() > 0 {
        lemma_sums_nonneg(g.drop_last(), meshes);
    }
}

/// A prefix contributes no more than the whole group to each sum.
pub proof fn lemma_sums_prefix(g: Seq<MeshId>, meshes: &RenderMeshes, i: int)
    requires
        0 <= i <= g.len(),
    ensures
        vertex_count_sum(g.take(i), meshes) <= vertex_count_sum(g, meshes),
        index_count_sum(g.take(i), meshes) <= index_count_sum(g, meshes),
        draw_count_sum(g.take(i), meshes) <= draw_count_sum(g, meshes),
    decreases g.len(),
{
    if i == g.len() {
        assert(g.take(i) =~= g);
    } else {
        assert(g.take(i) =~= g.drop_last().take(i));
        lemma_sums_prefix(g.drop_last(), meshes, i);
    }
}

/// A duplicate-free identity sequence contributes no more to each sum
/// than a duplicate-free sequence that contains it.
pub proof fn lemma_sums_subset(g: Seq<MeshId>, h: Seq<MeshId>, meshes: &RenderMeshes)
    requires
        sorted_unique_ids(g),
        sorted_unique_ids(h),
        forall|m: MeshId| g.contains(m) ==> h.contains(m),
    ensures
        vertex_count_sum(g, meshes) <= vertex_count_sum(h, meshes),
        index_count_sum(g, meshes) <= index_count_sum(h, meshes),
        draw_count_sum(g, meshes) <= draw_count_sum(h, meshes),
    decreases h.len(),
{
    if g.len() == 0 {
        lemma_sums_nonneg(h, meshes);
    } else {
        assert(g.contains(g.last()));
        assert(h.contains(g.last()));
        assert(h.len() > 0);
        if g.last() == h.last() {
            assert forall|m: MeshId| g.drop_last().contains(m) implies h.drop_last().contains(
                m,
            ) by {
                let k = choose|k: int| 0 <= k < g.drop_last().len() && g.drop_last()[k] == m;
                assert(g[k] == m);
                assert(m < g.last());
                assert(g.contains(m));
                assert(h.contains(m));
                let j = choose|j: int| 0 <= j < h.len() && h[j] == m;
                assert(j < h.len() - 1);
                assert(h.drop_last()[j] == m);
            }
            lemma_sums_subset(g.drop_last(), h.drop_last(), meshes);
        } else {
            let jg = choose|j: int| 0 <= j < h.len() && h[j] == g.last();
            assert(jg < h.len() - 1);
            assert forall|m: MeshId| g.contains(m) implies h.drop_last().contains(m) by {
                let k = choose|k: int| 0 <= k < g.len() && g[k] == m;
                assert(m <= g.last());
                let j = choose|j: int| 0 <= j < h.len() && h[j] == m;
                assert(h[j] <= h[jg]);
                assert(j < h.len() - 1);
                assert(h.drop_last()[j] == m);
            }
            lemma_sums_subset(g, h.drop_last(), meshes);
        }
    }
}

/// The merged sequences are as long as the members' index sequences
/// together.
pub proof fn lemma_merged_len(g: Seq<MeshId>, meshes: &RenderMeshes)
    ensures
        merged16(g, meshes).len() == len_sum16(g, meshes),
        merged32(g, meshes).len() == len_sum32(g, meshes),
    decreases g.len(),
{
    if g.len() > 0 {
        lemma_merged_len(g.drop_last(), meshes);
    }
}

/// Sum of the members' 16-bit index sequence lengths.
pub open spec fn len_sum16(g: Seq<MeshId>, meshes: &RenderMeshes) -> int
    decreases g.len(),
{
    if g.len() == 0 {
        0
    } else {
        len_sum16(g.drop_last(), meshes) + indices16_of(record_of(meshes, g.last())).len()
    }
}

/// Sum of the members' 32-bit index sequence lengths.
pub open spec fn len_sum32(g: Seq<MeshId>, meshes: &RenderMeshes) -> int
    decreases g.len(),
{
    if g.len() == 0 {
        0
    } else {
        len_sum32(g.drop_last(), meshes) + indices32_of(record_of(meshes, g.last())).len()
    }
}

pub proof fn lemma_len_sums_nonneg(g: Seq<MeshId>, meshes: &RenderMeshes)
    ensures
        len_sum16(g, meshes) >= 0,
        len_sum32(g, meshes) >= 0,
    decreases g.len(),
{
    if g.len() > 0 {
        lemma_len_sums_nonneg(g.drop_last(), meshes);
    }
}

pub proof fn lemma_len_sums_prefix(g: Seq<MeshId>, meshes: &RenderMeshes, i: int)
    requires
        0 <= i <= g.len(),
    ensures
        len_sum16(g.take(i), meshes) <= len_sum16(g, meshes),
        len_sum32(g.take(i), meshes) <= len_sum32(g, meshes),
    decreases g.len(),
{
    if i == g.len() {
        assert(g.take(i) =~= g);
    } else {
        assert(g.take(i) =~= g.drop_last().take(i));
        lemma_len_sums_prefix(g.drop_last(), meshes, i);
    }
}

/// Index re-basing correctness for 16-bit groups: the merged value at
/// member `i`'s position `j` is the member's raw value plus the total
/// vertex count of the members before `i`.
pub proof fn lemma_rebase16(g: Seq<MeshId>, meshes: &RenderMeshes, i: int, j: int)
    requires
        0 <= i < g.len(),
        0 <= j < indices16_of(record_of(meshes, g[i])).len(),
        rebase_fits16(g, meshes),
    ensures
        0 <= len_sum16(g.take(i), meshes) + j < merged16(g, meshes).len(),
        merged16(g, meshes)[len_sum16(g.take(i), meshes) + j] as int == indices16_of(
            record_of(meshes, g[i]),
        )[j] + vertex_count_sum(g.take(i), meshes),
    decreases g.len(),
{
    lemma_merged_len(g, meshes);
    lemma_merged_len(g.drop_last(), meshes);
    lemma_len_sums_nonneg(g.take(i), meshes);
    lemma_sums_nonneg(g.take(i), meshes);
    let pos = len_sum16(g.take(i), meshes) + j;
    if i == g.len() - 1 {
        assert(g.take(i) =~= g.drop_last());
        let ind = indices16_of(record_of(meshes, g.last()));
        let base = vertex_count_sum(g.drop_last(), meshes);
        assert(merged16(g, meshes) == merged16(g.drop_last(), meshes) + rebase16(ind, base));
        assert(rebase16(ind, base)[j] == ((ind[j] + base) as u16));
        assert(ind[j] + vertex_count_sum(g.take(i), meshes) <= u16::MAX);
        assert(merged16(g, meshes)[pos] == rebase16(ind, base)[j]);
    } else {
        assert forall|x: int, y: int|
            0 <= x < g.drop_last().len() && 0 <= y < indices16_of(
                record_of(meshes, g.drop_last()[x]),
            ).len() implies #[trigger] indices16_of(record_of(meshes, g.drop_last()[x]))[y]
            + vertex_count_sum(g.drop_last().take(x), meshes) <= u16::MAX by {
            assert(g.drop_last().take(x) =~= g.take(x));
            assert(g.drop_last()[x] == g[x]);
            assert(indices16_of(record_of(meshes, g[x]))[y] + vertex_count_sum(g.take(x), meshes)
                <= u16::MAX);
        }
        assert(g.drop_last().take(i) =~= g.take(i));
        lemma_rebase16(g.drop_last(), meshes, i, j);
        lemma_len_sums_prefix(g.drop_last(), meshes, i + 1);
        assert(g.drop_last().take(i + 1) =~= g.take(i + 1));
        assert(len_sum16(g.take(i + 1), meshes) == len_sum16(g.take(i), meshes) + indices16_of(
            record_of(meshes, g[i]),
        ).len()) by {
            assert(g.take(i + 1).drop_last() =~= g.take(i));
            assert(g.take(i + 1).last() == g[i]);
        }
        assert(pos < len_sum16(g.drop_last(), meshes));
        assert(merged16(g, meshes)[pos] == merged16(g.drop_last(), meshes)[pos]);
    }
}

/// Index re-basing correctness for 32-bit groups.
pub proof fn lemma_rebase32(g: Seq<MeshId>, meshes: &RenderMeshes, i: int, j: int)
    requires
        0 <= i < g.len(),
        0 <= j < indices32_of(record_of(meshes, g[i])).len(),
        rebase_fits32(g, meshes),
    ensures
        0 <= len_sum32(g.take(i), meshes) + j < merged32(g, meshes).len(),
        merged32(g, meshes)[len_sum32(g.take(i), meshes) + j] as int == indices32_of(
            record_of(meshes, g[i]),
        )[j] + vertex_count_sum(g.take(i), meshes),
    decreases g.len(),
{
    lemma_merged_len(g, meshes);
    lemma_merged_len(g.drop_last(), meshes);
    lemma_len_sums_nonneg(g.take(i), meshes);
    lemma_sums_nonneg(g.take(i), meshes);
    let pos = len_sum32(g.take(i), meshes) + j;
    if i == g.len() - 1 {
        assert(g.take(i) =~= g.drop_last());
        let ind = indices32_of(record_of(meshes, g.last()));
        let base = vertex_count_sum(g.drop_last(), meshes);
        assert(merged32(g, meshes) == merged32(g.drop_last(), meshes) + rebase32(ind, base));
        assert(rebase32(ind, base)[j] == ((ind[j] + base) as u32));
        assert(ind[j] + vertex_count_sum(g.take(i), meshes) <= u32::MAX);
        assert(merged32(g, meshes)[pos] == rebase32(ind, base)[j]);
    } else {
        assert forall|x: int, y: int|
            0 <= x < g.drop_last().len() && 0 <= y < indices32_of(
                record_of(meshes, g.drop_last()[x]),
            ).len() implies #[trigger] indices32_of(record_of(meshes, g.drop_last()[x]))[y]
            + vertex_count_sum(g.drop_last().take(x), meshes) <= u32::MAX by {
            assert(g.drop_last().take(x) =~= g.take(x));
            assert(g.drop_last()[x] == g[x]);
            assert(indices32_of(record_of(meshes, g[x]))[y] + vertex_count_sum(g.take(x), meshes)
                <= u32::MAX);
        }
        assert(g.drop_last().take(i) =~= g.take(i));
        lemma_rebase32(g.drop_last(), meshes, i, j);
        lemma_len_sums_prefix(g.drop_last(), meshes, i + 1);
        assert(g.drop_last().take(i + 1) =~= g.take(i + 1));
        assert(len_sum32(g.take(i + 1), meshes) == len_sum32(g.take(i), meshes) + indices32_of(
            record_of(meshes, g[i]),
        ).len()) by {
            assert(g.take(i + 1).drop_last() =~= g.take(i));
            assert(g.take(i + 1).last() == g[i]);
        }
        assert(pos < len_sum32(g.drop_last(), meshes));
        assert(merged32(g, meshes)[pos] == merged32(g.drop_last(), meshes)[pos]);
    }
}

fn data_tag_exec(r: &MeshRecord) -> (t: u8)
    ensures
        t as int == data_tag(*r),
{
    match &r.index_buffer_data {
        GpuIndexBufferData::Indexed { indices: IndexData::U16(_), .. } => 0u8,
        GpuIndexBufferData::Indexed { indices: IndexData::U32(_), .. } => 1u8,
        GpuIndexBufferData::NonIndexed { .. } => 2u8,
    }
}

fn find_mismatch(group: &Vec<MeshId>, meshes: &RenderMeshes) -> (r: Option<(usize, bool)>)
    requires
        group_present(group@, meshes),
        group@.len() > 0,
    ensures
        match r {
            None => homogeneous(group@, meshes),
            Some(p) => {
                &&& 1 <= p.0 < group@.len()
                &&& mismatch_at(group@, meshes, p.0 as int)
                &&& forall|j: int| 0 <= j < p.0 ==> !mismatch_at(group@, meshes, j)
                &&& p.1 == (data_tag(record_of(meshes, group@[0])) <= 1 && data_tag(
                    record_of(meshes, group@[p.0 as int]),
                ) <= 1)
            },
        },
{
    let rec0_opt = meshes.get(group[0]);
    proof {
        assert(meshes.contains_id(group@[0]));
    }
    let rec0 = rec0_opt.unwrap();
    let tag0 = data_tag_exec(rec0);
    let n = group.len();
    let mut i: usize = 1;
    while i < n
        invariant
            n == group@.len(),
            1 <= i <= n,
            group_present(group@, meshes),
            tag0 as int == data_tag(record_of(meshes, group@[0])),
            forall|j: int| 0 <= j < i ==> !mismatch_at(group@, meshes, j),
        decreases n - i,
    {
        let rec_opt = meshes.get(group[i]);
        proof {
            assert(meshes.contains_id(group@[i as int]));
        }
        let rec = rec_opt.unwrap();
        let tag = data_tag_exec(rec);
        if tag != tag0 {
            return Some((i, tag0 <= 1 && tag <= 1));
        }
        i = i + 1;
    }
    proof {
        assert forall|k: int| 0 <= k < group@.len() implies data_tag(
            record_of(meshes, #[trigger] group@[k]),
        ) == data_tag(record_of(meshes, group@[0])) by {
            assert(!mismatch_at(group@, meshes, k));
        }
    }
    None
}

fn merge_u16(group: &Vec<MeshId>, meshes: &RenderMeshes) -> (out: (Vec<u16>, u32, IndexFormat))
    requires
        group@.len() > 0,
        merge_feasible(group@, meshes),
        homogeneous(group@, meshes),
        data_tag(record_of(meshes, group@[0])) == 0,
    ensures
        out.0@ == merged16(group@, meshes),
        out.1 as int == index_count_sum(group@, meshes),
        out.2 == format_of(record_of(meshes, group@.last())),
{
    let n = group.len();
    let mut buf: Vec<u16> = Vec::new();
    let mut count: u32 = 0;
    let mut base: u32 = 0;
    let mut fmt: IndexFormat = IndexFormat::Uint16;
    proof {
        assert(group@.take(0) =~= Seq::<MeshId>::empty());
    }
    let mut i: usize = 0;
    while i < n
        invariant
            n == group@.len(),
            i <= n,
            merge_feasible(group@, meshes),
            homogeneous(group@, meshes),
            data_tag(record_of(meshes, group@[0])) == 0,
            buf@ == merged16(group@.take(i as int), meshes),
            count as int == index_count_sum(group@.take(i as int), meshes),
            base as int == vertex_count_sum(group@.take(i as int), meshes),
            i > 0 ==> fmt == format_of(record_of(meshes, group@[i - 1])),
        decreases n - i,
    {
        let rec_opt = meshes.get(group[i]);
        proof {
            assert(meshes.contains_id(group@[i as int]));
        }
        let rec = rec_opt.unwrap();
        proof {
            assert(*rec == record_of(meshes, group@[i as int]));
            assert(data_tag(*rec) == 0);
        }
        match &rec.index_buffer_data {
            GpuIndexBufferData::Indexed {
                indices: IndexData::U16(v),
                index_count,
                index_format,
            } => {
                let m = v.len();
                let ghost pre = buf@;
                proof {
                    assert(v@ == indices16_of(record_of(meshes, group@[i as int])));
                    assert(pre + rebase16(v@.take(0), base as int) =~= pre);
                }
                let mut j: usize = 0;
                while j < m
                    invariant
                        m == v@.len(),
                        j <= m,
                        merge_feasible(group@, meshes),
                        homogeneous(group@, meshes),
                        data_tag(record_of(meshes, group@[0])) == 0,
                        i < group@.len(),
                        v@ == indices16_of(record_of(meshes, group@[i as int])),
                        base as int == vertex_count_sum(group@.take(i as int), meshes),
                        buf@ == pre + rebase16(v@.take(j as int), base as int),
                    decreases m - j,
                {
                    proof {
                        assert(homogeneous(group@, meshes) && data_tag(record_of(meshes, group@[0]))
                            == 0);
                        assert(rebase_fits16(group@, meshes));
                        assert(indices16_of(record_of(meshes, group@[i as int]))[j as int]
                            + vertex_count_sum(group@.take(i as int), meshes) <= u16::MAX);
                    }
                    let x: u16 = v[j] + (base as u16);
                    buf.push(x);
                    proof {
                        assert(x as int == v@[j as int] + base as int);
                        assert(pre + rebase16(v@.take(j + 1), base as int) =~= (pre + rebase16(
                            v@.take(j as int),
                            base as int,
                        )).push(x));
                    }
                    j = j + 1;
                }
                proof {
                    assert(v@.take(m as int) =~= v@);
                    let t = group@.take(i + 1);
                    assert(t.drop_last() =~= group@.take(i as int));
                    assert(t.last() == group@[i as int]);
                    assert(buf@ == merged16(t, meshes));
                    lemma_sums_prefix(group@, meshes, i + 1);
                    lemma_sums_nonneg(group@, meshes);
                    assert(index_count_sum(t, meshes) == count as int + index_count_of(*rec));
                    assert(vertex_count_sum(t, meshes) == base as int + vertex_count_of(*rec));
                }
                count = count + *index_count;
                base = base + rec.vertex_count;
                fmt = *index_format;
            },
            _ => {
                proof {
                    assert(false);
                }
            },
        }
        i = i + 1;
    }
    proof {
        assert(group@.take(n as int) =~= group@);
    }
    (buf, count, fmt)
}

fn merge_u32(group: &Vec<MeshId>, meshes: &RenderMeshes) -> (out: (Vec<u32>, u32, IndexFormat))
    requires
        group@.len() > 0,
        merge_feasible(group@, meshes),
        homogeneous(group@, meshes),
        data_tag(record_of(meshes, group@[0])) == 1,
    ensures
        out.0@ == merged32(group@, meshes),
        out.1 as int == index_count_sum(group@, meshes),
        out.2 == format_of(record_of(meshes, group@.last())),
{
    let n = group.len();
    let mut buf: Vec<u32> = Vec::new();
    let mut count: u32 = 0;
    let mut base: u32 = 0;
    let mut fmt: IndexFormat = IndexFormat::Uint32;
    proof {
        assert(group@.take(0) =~= Seq::<MeshId>::empty());
    }
    let mut i: usize = 0;
    while i < n
        invariant
            n == group@.len(),
            i <= n,
            merge_feasible(group@, meshes),
            homogeneous(group@, meshes),
            data_tag(record_of(meshes, group@[0])) == 1,
            buf@ == merged32(group@.take(i as int), meshes),
            count as int == index_count_sum(group@.take(i as int), meshes),
            base as int == vertex_count_sum(group@.take(i as int), meshes),
            i > 0 ==> fmt == format_of(record_of(meshes, group@[i - 1])),
        decreases n - i,
    {
        let rec_opt = meshes.get(group[i]);
        proof {
            assert(meshes.contains_id(group@[i as int]));
        }
        let rec = rec_opt.unwrap();
        proof {
            assert(*rec == record_of(meshes, group@[i as int]));
            assert(data_tag(*rec) == 1);
        }
        match &rec.index_buffer_data {
            GpuIndexBufferData::Indexed {
                indices: IndexData::U32(v),
                index_count,
                index_format,
            } => {
                let m = v.len();
                let ghost pre = buf@;
                proof {
                    assert(v@ == indices32_of(record_of(meshes, group@[i as int])));
                    assert(pre + rebase32(v@.take(0), base as int) =~= pre);
                }
                let mut j: usize = 0;
                while j < m
                    invariant
                        m == v@.len(),
                        j <= m,
                        merge_feasible(group@, meshes),
                        homogeneous(group@, meshes),
                        data_tag(record_of(meshes, group@[0])) == 1,
                        i < group@.len(),
                        v@ == indices32_of(record_of(meshes, group@[i as int])),
                        base as int == vertex_count_sum(group@.take(i as int), meshes),
                        buf@ == pre + rebase32(v@.take(j as int), base as int),
                    decreases m - j,
                {
                    proof {
                        assert(homogeneous(group@, meshes) && data_tag(record_of(meshes, group@[0]))
                            == 1);
                        assert(rebase_fits32(group@, meshes));
                        assert(indices32_of(record_of(meshes, group@[i as int]))[j as int]
                            + vertex_count_sum(group@.take(i as int), meshes) <= u32::MAX);
                    }
                    let x: u32 = v[j] + base;
                    buf.push(x);
                    proof {
                        assert(x as int == v@[j as int] + base as int);
                        assert(pre + rebase32(v@.take(j + 1), base as int) =~= (pre + rebase32(
                            v@.take(j as int),
                            base as int,
                        )).push(x));
                    }
                    j = j + 1;
                }
                proof {
                    assert(v@.take(m as int) =~= v@);
                    let t = group@.take(i + 1);
                    assert(t.drop_last() =~= group@.take(i as int));
                    assert(t.last() == group@[i as int]);
                    assert(buf@ == merged32(t, meshes));
                    lemma_sums_prefix(group@, meshes, i + 1);
                    lemma_sums_nonneg(group@, meshes);
                    assert(index_count_sum(t, meshes) == count as int + index_count_of(*rec));
                    assert(vertex_count_sum(t, meshes) == base as int + vertex_count_of(*rec));
                }
                count = count + *index_count;
                base = base + rec.vertex_count;
                fmt = *index_format;
            },
            _ => {
                proof {
                    assert(false);
                }
            },
        }
        i = i + 1;
    }
    proof {
        assert(group@.take(n as int) =~= group@);
    }
    (buf, count, fmt)
}

fn merge_nonindexed(group: &Vec<MeshId>, meshes: &RenderMeshes) -> (out: u32)
    requires
        group@.len() > 0,
        merge_feasible(group@, meshes),
        homogeneous(group@, meshes),
        data_tag(record_of(meshes, group@[0])) == 2,
    ensures
        out as int == draw_count_sum(group@, meshes),
{
    let n = group.len();
    let mut count: u32 = 0;
    proof {
        assert(group@.take(0) =~= Seq::<MeshId>::empty());
    }
    let mut i: usize = 0;
    while i < n
        invariant
            n == group@.len(),
            i <= n,
            merge_feasible(group@, meshes),
            homogeneous(group@, meshes),
            data_tag(record_of(meshes, group@[0])) == 2,
            count as int == draw_count_sum(group@.take(i as int), meshes),
        decreases n - i,
    {
        let rec_opt = meshes.get(group[i]);
        proof {
            assert(meshes.contains_id(group@[i as int]));
        }
        let rec = rec_opt.unwrap();
        proof {
            assert(*rec == record_of(meshes, group@[i as int]));
            assert(data_tag(*rec) == 2);
        }
        match &rec.index_buffer_data {
            GpuIndexBufferData::NonIndexed { vertex_count } => {
                proof {
                    let t = group@.take(i + 1);
                    assert(t.drop_last() =~= group@.take(i as int));
                    assert(t.last() == group@[i as int]);
                    lemma_sums_prefix(group@, meshes, i + 1);
                    lemma_sums_nonneg(group@, meshes);
                    assert(draw_count_sum(t, meshes) == count as int + draw_count_of(*rec));
                }
                count = count + *vertex_count;
            },
            _ => {
                proof {
                    assert(false);
                }
            },
        }
        i = i + 1;
    }
    proof {
        assert(group@.take(n as int) =~= group@);
    }
    count
}

/// What the merged index data of a homogeneous group is: for an indexed
/// group, the concatenated re-based values in the members' width, the
/// summed index count, and the last member's declared format; for a
/// non-indexed group, the summed vertex count.
pub open spec fn merged_result(d: GpuIndexBufferData, g: Seq<MeshId>, meshes: &RenderMeshes) -> bool {
    if data_tag(record_of(meshes, g[0])) == 0 {
        &&& d matches GpuIndexBufferData::Indexed { indices, index_count, index_format }
        &&& indices matches IndexData::U16(v) && v@ == merged16(g, meshes)
        &&& index_count as int == index_count_sum(g, meshes)
        &&& index_format == format_of(record_of(meshes, g.last()))
    } else if data_tag(record_of(meshes, g[0])) == 1 {
        &&& d matches GpuIndexBufferData::Indexed { indices, index_count, index_format }
        &&& indices matches IndexData::U32(v) && v@ == merged32(g, meshes)
        &&& index_count as int == index_count_sum(g, meshes)
        &&& index_format == format_of(record_of(meshes, g.last()))
    } else {
        &&& d matches GpuIndexBufferData::NonIndexed { vertex_count }
        &&& vertex_count as int == draw_count_sum(g, meshes)
    }
}

/// What the error of a non-homogeneous group is: determined by the first
/// member that disagrees with the first member's shape, a format mismatch
/// when both are indexed and a kind mismatch otherwise.
pub open spec fn merge_mismatch_error(
    e: BatchError,
    key: InstancedMeshKey,
    g: Seq<MeshId>,
    meshes: &RenderMeshes,
) -> bool {
    exists|i: int|
        {
            &&& 1 <= i < g.len()
            &&& #[trigger] mismatch_at(g, meshes, i)
            &&& forall|j: int| 0 <= j < i ==> !mismatch_at(g, meshes, j)
            &&& e == (if data_tag(record_of(meshes, g[0])) <= 1 && data_tag(
                record_of(meshes, g[i]),
            ) <= 1 {
                BatchError::IndexFormatMismatch(key)
            } else {
                BatchError::BufferKindMismatch(key)
            })
        }
}

/// Merges a group's index data: adopts the first member's shape, re-bases
/// and appends each member's index values, and sums the counts; fails on
/// the first member whose shape disagrees. `key` only names the group in
/// the error.
pub fn merge_index_data(key: &InstancedMeshKey, group: &Vec<MeshId>, meshes: &RenderMeshes) -> (r:
    Result<GpuIndexBufferData, BatchError>)
    requires
        group@.len() > 0,
        merge_feasible(group@, meshes),
    ensures
        r is Ok <==> homogeneous(group@, meshes),
        r matches Ok(d) ==> merged_result(d, group@, meshes),
        r matches Err(e) ==> merge_mismatch_error(e, *key, group@, meshes),
{
    match find_mismatch(group, meshes) {
        Some((i, both_indexed)) => {
            let e = if both_indexed {
                BatchError::IndexFormatMismatch(*key)
            } else {
                BatchError::BufferKindMismatch(*key)
            };
            proof {
                assert(mismatch_at(group@, meshes, i as int));
                assert(!homogeneous(group@, meshes));
                assert(merge_mismatch_error(e, *key, group@, meshes)) by {
                    let gi = i as int;
                    assert(1 <= gi < group@.len() && mismatch_at(group@, meshes, gi) && (forall|
                        j: int,
                    | 0 <= j < gi ==> !mismatch_at(group@, meshes, j)));
                }
            }
            Err(e)
        },
        None => {
            let rec0_opt = meshes.get(group[0]);
            proof {
                assert(meshes.contains_id(group@[0]));
            }
            let rec0 = rec0_opt.unwrap();
            let tag0 = data_tag_exec(rec0);
            if tag0 == 0 {
                let (buf, count, fmt) = merge_u16(group, meshes);
                Ok(
                    GpuIndexBufferData::Indexed {
                        indices: IndexData::U16(buf),
                        index_count: count,
                        index_format: fmt,
                    },
                )
            } else if tag0 == 1 {
                let (buf, count, fmt) = merge_u32(group, meshes);
                Ok(
                    GpuIndexBufferData::Indexed {
                        indices: IndexData::U32(buf),
                        index_count: count,
                        index_format: fmt,
                    },
                )
            } else {
                let count = merge_nonindexed(group, meshes);
                Ok(GpuIndexBufferData::NonIndexed { vertex_count: count })
            }
        },
    }
}

} // verus!
