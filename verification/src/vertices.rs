//! Vertex concatenation: one byte sequence per group, the members' raw
//! vertex buffers laid end to end in member order.

use vstd::prelude::*;
use crate::types::{MeshId, RenderMeshes};

verus! {

/// Every identity of the group has a record in the table.
pub open spec fn group_present(g: Seq<MeshId>, meshes: &RenderMeshes) -> bool {
    forall|i: int| 0 <= i < g.len() ==> meshes.contains_id(#[trigger] g[i])
}

/// The concatenation of the members' vertex bytes, in member order.
pub open spec fn concat_vertices(g: Seq<MeshId>, meshes: &RenderMeshes) -> Seq<u8>
    decreases g.len(),
{
    if g.len() == 0 {
        Seq::empty()
    } else {
        concat_vertices(g.drop_last(), meshes) + meshes.spec_get(
            g.last(),
        ).unwrap().vertex_buffer_data@
    }
}

/// The total byte length of the members' vertex buffers.
pub open spec fn vertex_bytes_sum(g: Seq<MeshId>, meshes: &RenderMeshes) -> int
    decreases g.len(),
{
    if g.len() == 0 {
        0
    } else {
        vertex_bytes_sum(g.drop_last(), meshes) + meshes.spec_get(
            g.last(),
        ).unwrap().vertex_buffer_data@.len()
    }
}

/// The concatenated vertex data is exactly as long as the members' vertex
/// buffers together.
pub proof fn lemma_vertex_concat_length(g: Seq<MeshId>, meshes: &RenderMeshes)
    ensures
        concat_vertices(g, meshes).len() == vertex_bytes_sum(g, meshes),
    decreases g.len(),
{
    if g.len() > 0 {
        lemma_vertex_concat_length(g.drop_last(), meshes);
    }
}

/// Concatenates the members' vertex buffers verbatim, in group order.
pub fn concat_vertex_data(group: &Vec<MeshId>, meshes: &RenderMeshes) -> (r: Vec<u8>)
    requires
        group_present(group@, meshes),
    ensures
        r@ == concat_vertices(group@, meshes),
        r@.len() == vertex_bytes_sum(group@, meshes),
{
    let mut out: Vec<u8> = Vec::new();
    let n = group.len();
    proof {
        assert(group@.take(0) =~= Seq::<MeshId>::empty());
    }
    let mut i: usize = 0;
    while i < n
        invariant
            n == group@.len(),
            i <= n,
            group_present(group@, meshes),
            out@ == concat_vertices(group@.take(i as int), meshes),
        decreases n - i,
    {
        let rec_opt = meshes.get(group[i]);
        proof {
            assert(meshes.contains_id(group@[i as int]));
        }
        let rec = rec_opt.unwrap();
        let m = rec.vertex_buffer_data.len();
        let ghost before = out@;
        let mut j: usize = 0;
        while j < m
            invariant
                m == rec.vertex_buffer_data@.len(),
                j <= m,
                out@ == before + rec.vertex_buffer_data@.take(j as int),
            decreases m - j,
        {
            out.push(rec.vertex_buffer_data[j]);
            proof {
                assert(before + rec.vertex_buffer_data@.take(j + 1) =~= (before
                    + rec.vertex_buffer_data@.take(j as int)).push(rec.vertex_buffer_data@[j as int]));
            }
            j = j + 1;
        }
        proof {
            assert(rec.vertex_buffer_data@.take(m as int) =~= rec.vertex_buffer_data@);
            let t = group@.take(i + 1);
            assert(t.drop_last() =~= group@.take(i as int));
            assert(t.last() == group@[i as int]);
            assert(out@ == concat_vertices(t, meshes));
        }
        i = i + 1;
    }
    proof {
        assert(group@.take(n as int) =~= group@);
        lemma_vertex_concat_length(group@, meshes);
    }
    out
}

} // verus!
