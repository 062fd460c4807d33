//! Batch assembly: one `MeshBatch` per signature group, and the
//! whole-pass rebuild of the batch table.

use vstd::prelude::*;
use core::marker::PhantomData;
use crate::types::{
    BatchError, InstancedMeshKey, MeshBatch, MeshId, RenderMeshes, key_lt,
};
use crate::keying::{
    all_refs_present, first_missing, group_matches, is_keyed_grouping, key_meshes,
    lemma_group_unique, sorted_unique_ids,
};
use crate::vertices::{concat_vertex_data, concat_vertices};
use crate::index_merge::{
    draw_count_sum, homogeneous, index_count_sum, indices16_of, indices32_of, lemma_sums_prefix,
    lemma_sums_subset, merge_feasible, merge_index_data, merge_mismatch_error, merged_result,
    record_of, vertex_count_sum,
};
use crate::indirect::{all_match_kind, build_indirect_data, indirect_result, kind_mismatch_error};

verus! {

/// What an assembled batch is for its group: the member identities, the
/// concatenated vertex bytes, the merged index data, and the per-member
/// indirect arguments.
pub open spec fn batch_result(
    b: MeshBatch,
    key: InstancedMeshKey,
    g: Seq<MeshId>,
    meshes: &RenderMeshes,
) -> bool {
    &&& b.meshes@ == g
    &&& b.vertex_data@ == concat_vertices(g, meshes)
    &&& merged_result(b.index_data, g, meshes)
    &&& indirect_result(b.indirect_data, key, g, meshes)
}

fn copy_ids(v: &Vec<MeshId>) -> (r: Vec<MeshId>)
    ensures
        r@ == v@,
{
    let mut out: Vec<MeshId> = Vec::new();
    let n = v.len();
    let mut i: usize = 0;
    while i < n
        invariant
            n == v@.len(),
            i <= n,
            out@ == v@.take(i as int),
        decreases n - i,
    {
        out.push(v[i]);
        proof {
            assert(v@.take(i + 1) =~= v@.take(i as int).push(v@[i as int]));
        }
        i = i + 1;
    }
    proof {
        assert(v@.take(n as int) =~= v@);
    }
    out
}

/// Assembles one batch from one signature group: concatenates the vertex
/// bytes, merges and re-bases the index data, and builds the indirect
/// arguments. Fails as the index merge or the indirect synthesis does,
/// the merge first.
pub fn assemble_batch(key: &InstancedMeshKey, group: &Vec<MeshId>, meshes: &RenderMeshes) -> (r:
    Result<MeshBatch, BatchError>)
    requires
        group@.len() > 0,
        merge_feasible(group@, meshes),
    ensures
        r is Ok <==> homogeneous(group@, meshes) && all_match_kind(
            group@,
            meshes,
            key.index_format is Some,
        ),
        r matches Ok(b) ==> batch_result(b, *key, group@, meshes),
        r matches Err(e) ==> {
            ||| merge_mismatch_error(e, *key, group@, meshes)
            ||| (homogeneous(group@, meshes) && kind_mismatch_error(e, *key, group@, meshes))
        },
{
    let vertex_data = concat_vertex_data(group, meshes);
    let index_data = match merge_index_data(key, group, meshes) {
        Ok(d) => d,
        Err(e) => {
            return Err(e);
        },
    };
    let indirect_data = match build_indirect_data(key, group, meshes) {
        Ok(d) => d,
        Err(e) => {
            return Err(e);
        },
    };
    let meshes_out = copy_ids(group);
    Ok(MeshBatch { meshes: meshes_out, vertex_data, index_data, indirect_data })
}

/// What the machine forces of a whole pass: every group that the keying
/// stage can produce from `refs` must be mergeable within 32-bit counts
/// and its width's range.
pub open spec fn grouping_feasible(refs: Seq<MeshId>, meshes: &RenderMeshes) -> bool {
    forall|k: InstancedMeshKey, g: Seq<MeshId>|
        #[trigger] group_matches(k, g, refs, meshes) ==> merge_feasible(g, meshes)
}

/// Derives the pass's machine-limit condition from bounds over one
/// duplicate-free identity sequence that covers every reference: when the
/// counts over that whole sequence fit, every group's do, because each
/// group is a duplicate-free subset of it.
pub proof fn lemma_grouping_feasible_from_bounds(
    refs: Seq<MeshId>,
    meshes: &RenderMeshes,
    all_ids: Seq<MeshId>,
)
    requires
        all_refs_present(refs, meshes),
        sorted_unique_ids(all_ids),
        forall|m: MeshId| refs.contains(m) ==> all_ids.contains(m),
        vertex_count_sum(all_ids, meshes) <= u32::MAX,
        index_count_sum(all_ids, meshes) <= u32::MAX,
        draw_count_sum(all_ids, meshes) <= u32::MAX,
        forall|m: MeshId, j: int|
            all_ids.contains(m) && 0 <= j < indices16_of(record_of(meshes, m)).len()
                ==> #[trigger] indices16_of(record_of(meshes, m))[j] + vertex_count_sum(
                all_ids,
                meshes,
            ) <= u16::MAX,
        forall|m: MeshId, j: int|
            all_ids.contains(m) && 0 <= j < indices32_of(record_of(meshes, m)).len()
                ==> #[trigger] indices32_of(record_of(meshes, m))[j] + vertex_count_sum(
                all_ids,
                meshes,
            ) <= u32::MAX,
    ensures
        grouping_feasible(refs, meshes),
{
    assert forall|k: InstancedMeshKey, g: Seq<MeshId>|
        #[trigger] group_matches(k, g, refs, meshes) implies merge_feasible(g, meshes) by {
        assert forall|i: int| 0 <= i < g.len() implies meshes.contains_id(#[trigger] g[i]) by {
            assert(g.contains(g[i]));
            assert(refs.contains(g[i]));
            let x = choose|x: int| 0 <= x < refs.len() && refs[x] == g[i];
            assert(meshes.contains_id(refs[x]));
        }
        assert forall|m: MeshId| g.contains(m) implies all_ids.contains(m) by {
            assert(refs.contains(m));
        }
        lemma_sums_subset(g, all_ids, meshes);
        assert forall|i: int, j: int|
            0 <= i < g.len() && 0 <= j < indices16_of(record_of(meshes, g[i])).len()
            implies #[trigger] indices16_of(record_of(meshes, g[i]))[j] + vertex_count_sum(
            g.take(i),
            meshes,
        ) <= u16::MAX by {
            lemma_sums_prefix(g, meshes, i);
            assert(g.contains(g[i]));
            assert(all_ids.contains(g[i]));
            assert(indices16_of(record_of(meshes, g[i]))[j] + vertex_count_sum(all_ids, meshes)
                <= u16::MAX);
        }
        assert forall|i: int, j: int|
            0 <= i < g.len() && 0 <= j < indices32_of(record_of(meshes, g[i])).len()
            implies #[trigger] indices32_of(record_of(meshes, g[i]))[j] + vertex_count_sum(
            g.take(i),
            meshes,
        ) <= u32::MAX by {
            lemma_sums_prefix(g, meshes, i);
            assert(g.contains(g[i]));
            assert(all_ids.contains(g[i]));
            assert(indices32_of(record_of(meshes, g[i]))[j] + vertex_count_sum(all_ids, meshes)
                <= u32::MAX);
        }
    }
}

/// Every group of `refs` is homogeneous and shaped as its signature
/// declares: exactly when this holds (and every record is present) does a
/// pass succeed.
pub open spec fn groups_consistent(refs: Seq<MeshId>, meshes: &RenderMeshes) -> bool {
    forall|k: InstancedMeshKey, g: Seq<MeshId>|
        #[trigger] group_matches(k, g, refs, meshes) ==> homogeneous(g, meshes) && all_match_kind(
            g,
            meshes,
            k.index_format is Some,
        )
}

/// What a finished pass is: batches in strictly increasing key order, one
/// per referenced signature, each batch assembled from exactly its group.
pub open spec fn batches_result(
    batches: Seq<(InstancedMeshKey, MeshBatch)>,
    refs: Seq<MeshId>,
    meshes: &RenderMeshes,
) -> bool {
    &&& forall|i: int, j: int| 0 <= i < j < batches.len() ==> key_lt(batches[i].0, batches[j].0)
    &&& forall|i: int|
        0 <= i < batches.len() ==> group_matches(
            (#[trigger] batches[i]).0,
            batches[i].1.meshes@,
            refs,
            meshes,
        )
    &&& forall|i: int|
        0 <= i < batches.len() ==> batch_result(
            (#[trigger] batches[i]).1,
            batches[i].0,
            batches[i].1.meshes@,
            meshes,
        )
    &&& forall|m: MeshId|
        refs.contains(m) ==> exists|i: int|
            0 <= i < batches.len() && #[trigger] batches[i].0 == meshes.spec_get(m).unwrap().key
}

/// Why a pass aborted: a missing record (the first one in reference
/// order), or a mismatch within one of the groups of `refs`.
pub open spec fn pass_error(e: BatchError, refs: Seq<MeshId>, meshes: &RenderMeshes) -> bool {
    match e {
        BatchError::MissingMeshRecord(id) => first_missing(refs, meshes, id),
        _ => exists|k: InstancedMeshKey, g: Seq<MeshId>|
            {
                &&& #[trigger] group_matches(k, g, refs, meshes)
                &&& {
                    ||| merge_mismatch_error(e, k, g, meshes)
                    ||| (homogeneous(g, meshes) && kind_mismatch_error(e, k, g, meshes))
                }
            },
    }
}

/// The whole batching pass: keys the referenced meshes into signature
/// groups and assembles one batch per group, in key order. Returns the
/// full new batch table, or the first error; no partial table.
pub fn prepare_mesh_batches(refs: &Vec<MeshId>, meshes: &RenderMeshes) -> (r: Result<
    Vec<(InstancedMeshKey, MeshBatch)>,
    BatchError,
>)
    requires
        grouping_feasible(refs@, meshes),
    ensures
        r is Ok <==> all_refs_present(refs@, meshes) && groups_consistent(refs@, meshes),
        r matches Ok(batches) ==> batches_result(batches@, refs@, meshes),
        r matches Err(e) ==> pass_error(e, refs@, meshes),
{
    let groups = match key_meshes(refs, meshes) {
        Ok(g) => g,
        Err(e) => {
            proof {
                assert(e matches BatchError::MissingMeshRecord(_));
            }
            return Err(e);
        },
    };
    let n = groups.len();
    let mut batches: Vec<(InstancedMeshKey, MeshBatch)> = Vec::new();
    let mut i: usize = 0;
    while i < n
        invariant
            n == groups@.len(),
            i <= n,
            grouping_feasible(refs@, meshes),
            all_refs_present(refs@, meshes),
            is_keyed_grouping(groups@, refs@, meshes),
            batches@.len() == i,
            forall|x: int| 0 <= x < i ==> (#[trigger] batches@[x]).0 == groups@[x].0,
            forall|x: int| 0 <= x < i ==> (#[trigger] batches@[x]).1.meshes@ == groups@[x].1@,
            forall|x: int|
                0 <= x < i ==> batch_result(
                    (#[trigger] batches@[x]).1,
                    batches@[x].0,
                    batches@[x].1.meshes@,
                    meshes,
                ),
            forall|x: int|
                0 <= x < i ==> homogeneous((#[trigger] groups@[x]).1@, meshes) && all_match_kind(
                    groups@[x].1@,
                    meshes,
                    groups@[x].0.index_format is Some,
                ),
        decreases n - i,
    {
        let (key, group) = &groups[i];
        proof {
            assert(group_matches(groups@[i as int].0, groups@[i as int].1@, refs@, meshes));
            assert(merge_feasible(group@, meshes));
        }
        let batch = match assemble_batch(key, group, meshes) {
            Ok(b) => b,
            Err(e) => {
                proof {
                    assert(group_matches(groups@[i as int].0, group@, refs@, meshes));
                }
                return Err(e);
            },
        };
        let key_out = *key;
        batches.push((key_out, batch));
        proof {
            assert(batches@.last() == (groups@[i as int].0, batch));
        }
        i = i + 1;
    }
    proof {
        assert forall|x: int, y: int| 0 <= x < y < batches@.len() implies key_lt(
            batches@[x].0,
            batches@[y].0,
        ) by {
            assert(key_lt(groups@[x].0, groups@[y].0));
        }
        assert forall|m: MeshId| refs@.contains(m) implies exists|x: int|
            0 <= x < batches@.len() && #[trigger] batches@[x].0 == meshes.spec_get(
            m,
        ).unwrap().key by {
            let x = choose|x: int|
                0 <= x < groups@.len() && #[trigger] groups@[x].0 == meshes.spec_get(
                m,
                ).unwrap().key;
            assert(batches@[x].0 == meshes.spec_get(m).unwrap().key);
        }
        assert forall|k: InstancedMeshKey, g: Seq<MeshId>|
            #[trigger] group_matches(k, g, refs@, meshes) implies homogeneous(g, meshes)
            && all_match_kind(g, meshes, k.index_format is Some) by {
            assert(g.len() > 0);
            let m = g[0];
            assert(g.contains(m));
            assert(refs@.contains(m) && meshes.spec_get(m).unwrap().key == k);
            let x = choose|x: int|
                0 <= x < groups@.len() && #[trigger] groups@[x].0 == meshes.spec_get(
                m,
                ).unwrap().key;
            assert(group_matches(k, groups@[x].1@, refs@, meshes));
            lemma_group_unique(k, g, groups@[x].1@, refs@, meshes);
            assert(homogeneous(groups@[x].1@, meshes));
            assert(all_match_kind(groups@[x].1@, meshes, groups@[x].0.index_format is Some));
        }
    }
    Ok(batches)
}

/// The batching pass over the two reference streams the keying stage
/// reads, single instances and instance slices: only the mesh identities
/// matter, so the pass runs on the streams laid end to end.
pub fn prepare_mesh_batches_from_streams(
    instance_refs: &Vec<MeshId>,
    slice_refs: &Vec<MeshId>,
    meshes: &RenderMeshes,
) -> (r: Result<Vec<(InstancedMeshKey, MeshBatch)>, BatchError>)
    requires
        grouping_feasible(instance_refs@ + slice_refs@, meshes),
    ensures
        r is Ok <==> all_refs_present(instance_refs@ + slice_refs@, meshes) && groups_consistent(
            instance_refs@ + slice_refs@,
            meshes,
        ),
        r matches Ok(batches) ==> batches_result(batches@, instance_refs@ + slice_refs@, meshes),
        r matches Err(e) ==> pass_error(e, instance_refs@ + slice_refs@, meshes),
{
    let mut refs = copy_ids(instance_refs);
    let n = slice_refs.len();
    let mut i: usize = 0;
    while i < n
        invariant
            n == slice_refs@.len(),
            i <= n,
            refs@ == instance_refs@ + slice_refs@.take(i as int),
        decreases n - i,
    {
        refs.push(slice_refs[i]);
        proof {
            assert(instance_refs@ + slice_refs@.take(i + 1) =~= (instance_refs@
                + slice_refs@.take(i as int)).push(slice_refs@[i as int]));
        }
        i = i + 1;
    }
    proof {
        assert(slice_refs@.take(n as int) =~= slice_refs@);
    }
    prepare_mesh_batches(&refs, meshes)
}

/// The batch table of one material kind: signature to batch, rebuilt in
/// full on every pass. The type parameter tags the material kind; one
/// table exists per kind.
#[verifier::reject_recursive_types(M)]
pub struct MeshBatches<M> {
    pub mesh_batches: Vec<(InstancedMeshKey, MeshBatch)>,
    pub _phantom: PhantomData<M>,
}

impl<M> Default for MeshBatches<M> {
    /// An empty table.
    fn default() -> (r: Self)
        ensures
            r.mesh_batches@.len() == 0,
    {
        MeshBatches { mesh_batches: Vec::new(), _phantom: PhantomData }
    }
}

impl<M> MeshBatches<M> {
    /// Rebuilds the table from the current references and mesh records:
    /// on success the prior contents are replaced atomically by the new
    /// pass result; on failure the table is left untouched.
    pub fn rebuild(&mut self, refs: &Vec<MeshId>, meshes: &RenderMeshes) -> (r: Result<
        (),
        BatchError,
    >)
        requires
            grouping_feasible(refs@, meshes),
        ensures
            r is Ok <==> all_refs_present(refs@, meshes) && groups_consistent(refs@, meshes),
            r is Ok ==> batches_result(final(self).mesh_batches@, refs@, meshes),
            r matches Err(e) ==> *final(self) == *old(self) && pass_error(e, refs@, meshes),
    {
        match prepare_mesh_batches(refs, meshes) {
            Ok(batches) => {
                self.mesh_batches = batches;
                Ok(())
            },
            Err(e) => Err(e),
        }
    }
}

} // verus!
