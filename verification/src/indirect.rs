//! Indirect-argument synthesis: one draw argument per group member, in
//! member order, carrying that member's count; the other fields take
//! neutral values for the draw-issuing consumer.

use vstd::prelude::*;
use crate::types::{
    BatchError, DrawIndexedIndirect, DrawIndirect, GpuIndexBufferData, GpuIndirectData,
    InstancedMeshKey, MeshId, MeshRecord, RenderMeshes,
};
use crate::vertices::group_present;
use crate::index_merge::record_of;

verus! {

/// The indexed draw argument for a member with `c` indices.
pub open spec fn indexed_arg(c: u32) -> DrawIndexedIndirect {
    DrawIndexedIndirect {
        vertex_count: c,
        instance_count: 0,
        base_index: 0,
        vertex_offset: 0,
        base_instance: 0,
    }
}

/// The non-indexed draw argument for a member with `c` vertices.
pub open spec fn nonindexed_arg(c: u32) -> DrawIndirect {
    DrawIndirect { vertex_count: c, instance_count: 0, base_vertex: 0, base_instance: 0 }
}

/// Whether a member's index part has the kind the signature declares:
/// indexed under a signature with an index format, non-indexed under one
/// without.
pub open spec fn member_matches_kind(r: MeshRecord, indexed: bool) -> bool {
    if indexed {
        r.index_buffer_data is Indexed
    } else {
        r.index_buffer_data is NonIndexed
    }
}

/// Every member's index part has the kind the signature declares.
pub open spec fn all_match_kind(g: Seq<MeshId>, meshes: &RenderMeshes, indexed: bool) -> bool {
    forall|i: int|
        0 <= i < g.len() ==> member_matches_kind(record_of(meshes, #[trigger] g[i]), indexed)
}

/// What the indirect data of a group is: one entry per member, in member
/// order, each carrying the member's index count (indexed signature) or
/// non-indexed vertex count.
pub open spec fn indirect_result(
    d: GpuIndirectData,
    key: InstancedMeshKey,
    g: Seq<MeshId>,
    meshes: &RenderMeshes,
) -> bool {
    if key.index_format is Some {
        &&& d matches GpuIndirectData::Indexed { buffer }
        &&& buffer@.len() == g.len()
        &&& forall|i: int|
            0 <= i < g.len() ==> #[trigger] buffer@[i] == indexed_arg(
                record_of(meshes, g[i]).index_buffer_data->index_count,
            )
    } else {
        &&& d matches GpuIndirectData::NonIndexed { buffer }
        &&& buffer@.len() == g.len()
        &&& forall|i: int|
            0 <= i < g.len() ==> #[trigger] buffer@[i] == nonindexed_arg(
                record_of(meshes, g[i]).index_buffer_data->vertex_count,
            )
    }
}

/// What the error of a group with a wrongly shaped member is: determined
/// by the first member whose kind disagrees with the signature.
pub open spec fn kind_mismatch_error(
    e: BatchError,
    key: InstancedMeshKey,
    g: Seq<MeshId>,
    meshes: &RenderMeshes,
) -> bool {
    exists|i: int|
        {
            &&& 0 <= i < g.len()
            &&& !member_matches_kind(record_of(meshes, #[trigger] g[i]), key.index_format is Some)
            &&& forall|j: int|
                0 <= j < i ==> member_matches_kind(
                    record_of(meshes, #[trigger] g[j]),
                    key.index_format is Some,
                )
            &&& e == BatchError::BufferKindMismatch(key)
        }
}

/// Builds the per-mesh indirect draw arguments of a group, one entry per
/// member in member order; fails on the first member whose index kind
/// disagrees with the signature.
pub fn build_indirect_data(
    key: &InstancedMeshKey,
    group: &Vec<MeshId>,
    meshes: &RenderMeshes,
) -> (r: Result<GpuIndirectData, BatchError>)
    requires
        group_present(group@, meshes),
    ensures
        r is Ok <==> all_match_kind(group@, meshes, key.index_format is Some),
        r matches Ok(d) ==> indirect_result(d, *key, group@, meshes),
        r matches Err(e) ==> kind_mismatch_error(e, *key, group@, meshes),
{
    let n = group.len();
    match key.index_format {
        Some(_) => {
            let mut buf: Vec<DrawIndexedIndirect> = Vec::new();
            let mut i: usize = 0;
            while i < n
                invariant
                    n == group@.len(),
                    i <= n,
                    key.index_format is Some,
                    group_present(group@, meshes),
                    buf@.len() == i,
                    forall|k: int|
                        0 <= k < i ==> member_matches_kind(
                            record_of(meshes, #[trigger] group@[k]),
                            true,
                        ),
                    forall|k: int|
                        0 <= k < i ==> #[trigger] buf@[k] == indexed_arg(
                            record_of(meshes, group@[k]).index_buffer_data->index_count,
                        ),
                decreases n - i,
            {
                let rec_opt = meshes.get(group[i]);
                proof {
                    assert(meshes.contains_id(group@[i as int]));
                }
                let rec = rec_opt.unwrap();
                proof {
                    assert(*rec == record_of(meshes, group@[i as int]));
                }
                match &rec.index_buffer_data {
                    GpuIndexBufferData::Indexed { index_count, .. } => {
                        buf.push(
                            DrawIndexedIndirect {
                                vertex_count: *index_count,
                                instance_count: 0,
                                base_index: 0,
                                vertex_offset: 0,
                                base_instance: 0,
                            },
                        );
                    },
                    GpuIndexBufferData::NonIndexed { .. } => {
                        proof {
                            let gi = i as int;
                            assert(!member_matches_kind(
                                record_of(meshes, group@[gi]),
                                key.index_format is Some,
                            ));
                        }
                        return Err(BatchError::BufferKindMismatch(*key));
                    },
                }
                i = i + 1;
            }
            Ok(GpuIndirectData::Indexed { buffer: buf })
        },
        None => {
            let mut buf: Vec<DrawIndirect> = Vec::new();
            let mut i: usize = 0;
            while i < n
                invariant
                    n == group@.len(),
                    i <= n,
                    key.index_format is None,
                    group_present(group@, meshes),
                    buf@.len() == i,
                    forall|k: int|
                        0 <= k < i ==> member_matches_kind(
                            record_of(meshes, #[trigger] group@[k]),
                            false,
                        ),
                    forall|k: int|
                        0 <= k < i ==> #[trigger] buf@[k] == nonindexed_arg(
                            record_of(meshes, group@[k]).index_buffer_data->vertex_count,
                        ),
                decreases n - i,
            {
                let rec_opt = meshes.get(group[i]);
                proof {
                    assert(meshes.contains_id(group@[i as int]));
                }
                let rec = rec_opt.unwrap();
                proof {
                    assert(*rec == record_of(meshes, group@[i as int]));
                }
                match &rec.index_buffer_data {
                    GpuIndexBufferData::NonIndexed { vertex_count } => {
                        buf.push(
                            DrawIndirect {
                                vertex_count: *vertex_count,
                                instance_count: 0,
                                base_vertex: 0,
                                base_instance: 0,
                            },
                        );
                    },
                    GpuIndexBufferData::Indexed { .. } => {
                        proof {
                            let gi = i as int;
                            assert(!member_matches_kind(
                                record_of(meshes, group@[gi]),
                                key.index_format is Some,
                            ));
                        }
                        return Err(BatchError::BufferKindMismatch(*key));
                    },
                }
                i = i + 1;
            }
            Ok(GpuIndirectData::NonIndexed { buffer: buf })
        },
    }
}

} // verus!
