//! The data model: mesh records, structural signatures, merged index data,
//! indirect draw arguments, and the batch table.

use vstd::prelude::*;

verus! {

/// Identity of a distinct mesh asset. Batching deduplicates by this value
/// and orders batch members by it.
pub type MeshId = u64;

/// Width of the values in an index buffer.
#[derive(Clone, Copy, Debug, PartialEq, Eq)]
pub enum IndexFormat {
    Uint16,
    Uint32,
}

/// Structural signature of a mesh: two meshes share a batch exactly when
/// their keys are equal. The vertex layout and the primitive topology are
/// carried as opaque fingerprints; the index part records presence and
/// width of an index buffer.
#[derive(Clone, Copy, Debug, PartialEq, Eq)]
pub struct InstancedMeshKey {
    pub layout: u64,
    pub topology: u32,
    pub index_format: Option<IndexFormat>,
}

/// Raw index values of a mesh, in their native width.
#[derive(Clone, Debug, PartialEq, Eq)]
pub enum IndexData {
    U16(Vec<u16>),
    U32(Vec<u32>),
}

/// The index part of a mesh or of a merged batch: either an index buffer
/// with its count and width, or, for non-indexed geometry, a vertex count.
#[derive(Clone, Debug, PartialEq, Eq)]
pub enum GpuIndexBufferData {
    Indexed { indices: IndexData, index_count: u32, index_format: IndexFormat },
    NonIndexed { vertex_count: u32 },
}

/// One mesh asset as the batching pass reads it: its signature, its raw
/// vertex bytes, its vertex count, and its index part.
#[derive(Clone, Debug, PartialEq, Eq)]
pub struct MeshRecord {
    pub key: InstancedMeshKey,
    pub vertex_buffer_data: Vec<u8>,
    pub vertex_count: u32,
    pub index_buffer_data: GpuIndexBufferData,
}

/// The read-only mesh-data table: mesh identity to record. A lookup finds
/// the first entry with the given identity.
pub struct RenderMeshes {
    pub instanced_meshes: Vec<(MeshId, MeshRecord)>,
}

/// Indirect draw argument for indexed geometry. The batching pass fills
/// only the count; the remaining fields take neutral values for the
/// draw-issuing consumer to overwrite.
#[derive(Clone, Copy, Debug, PartialEq, Eq)]
pub struct DrawIndexedIndirect {
    pub vertex_count: u32,
    pub instance_count: u32,
    pub base_index: u32,
    pub vertex_offset: i32,
    pub base_instance: u32,
}

/// Indirect draw argument for non-indexed geometry.
#[derive(Clone, Copy, Debug, PartialEq, Eq)]
pub struct DrawIndirect {
    pub vertex_count: u32,
    pub instance_count: u32,
    pub base_vertex: u32,
    pub base_instance: u32,
}

/// The per-mesh indirect draw arguments of a batch, one entry per member,
/// in member order.
#[derive(Clone, Debug, PartialEq, Eq)]
pub enum GpuIndirectData {
    Indexed { buffer: Vec<DrawIndexedIndirect> },
    NonIndexed { buffer: Vec<DrawIndirect> },
}

/// One assembled batch: the ordered, duplicate-free member identities, the
/// concatenated vertex bytes, the merged index data, and the indirect draw
/// arguments.
#[derive(Clone, Debug, PartialEq, Eq)]
pub struct MeshBatch {
    pub meshes: Vec<MeshId>,
    pub vertex_data: Vec<u8>,
    pub index_data: GpuIndexBufferData,
    pub indirect_data: GpuIndirectData,
}

/// Why a batching pass aborted: a referenced mesh has no record, or two
/// members of one signature group disagree on index width or on the
/// indexed/non-indexed kind. Each variant carries what it needs to point
/// at the offending input.
#[derive(Clone, Copy, Debug, PartialEq, Eq)]
pub enum BatchError {
    MissingMeshRecord(MeshId),
    IndexFormatMismatch(InstancedMeshKey),
    BufferKindMismatch(InstancedMeshKey),
}

/// Rank of the index part of a signature, used for the total order on keys.
pub open spec fn format_rank(f: Option<IndexFormat>) -> int {
    match f {
        None => 0,
        Some(IndexFormat::Uint16) => 1,
        Some(IndexFormat::Uint32) => 2,
    }
}

/// The total order on signatures: lexicographic on layout, topology, and
/// the index part. Batch iteration is deterministic because batches are
/// kept sorted by this order.
pub open spec fn key_lt(a: InstancedMeshKey, b: InstancedMeshKey) -> bool {
    a.layout < b.layout
    || (a.layout == b.layout && a.topology < b.topology)
    || (a.layout == b.layout && a.topology == b.topology
        && format_rank(a.index_format) < format_rank(b.index_format))
}

/// `key_lt` is trichotomous: keys that order neither way are equal.
pub proof fn lemma_key_order_total(a: InstancedMeshKey, b: InstancedMeshKey)
    ensures
        key_lt(a, b) || key_lt(b, a) || a == b,
        key_lt(a, b) ==> !key_lt(b, a) && a != b,
{
    if !key_lt(a, b) && !key_lt(b, a) {
        assert(format_rank(a.index_format) == format_rank(b.index_format));
        assert(a.index_format == b.index_format);
    }
}

fn format_rank_exec(f: Option<IndexFormat>) -> (r: u8)
    ensures
        r as int == format_rank(f),
{
    match f {
        None => 0u8,
        Some(IndexFormat::Uint16) => 1u8,
        Some(IndexFormat::Uint32) => 2u8,
    }
}

/// Decides the total order on signatures.
pub fn key_less(a: &InstancedMeshKey, b: &InstancedMeshKey) -> (r: bool)
    ensures
        r == key_lt(*a, *b),
{
    if a.layout != b.layout {
        a.layout < b.layout
    } else if a.topology != b.topology {
        a.topology < b.topology
    } else {
        format_rank_exec(a.index_format) < format_rank_exec(b.index_format)
    }
}

/// Decides equality of signatures.
pub fn key_equal(a: &InstancedMeshKey, b: &InstancedMeshKey) -> (r: bool)
    ensures
        r == (*a == *b),
{
    let r = a.layout == b.layout && a.topology == b.topology
        && format_rank_exec(a.index_format) == format_rank_exec(b.index_format);
    proof {
        if r {
            assert(a.index_format == b.index_format);
        }
    }
    r
}

impl RenderMeshes {
    /// The record under an identity: the first entry that carries it.
    pub open spec fn spec_get(&self, id: MeshId) -> Option<MeshRecord> {
        lookup(self.instanced_meshes@, id)
    }

    /// Whether the table holds a record for the identity.
    pub open spec fn contains_id(&self, id: MeshId) -> bool {
        self.spec_get(id) is Some
    }

    /// Looks an identity up in the table.
    pub fn get(&self, id: MeshId) -> (r: Option<&MeshRecord>)
        ensures
            match r {
                Some(rec) => self.spec_get(id) == Some(*rec),
                None => self.spec_get(id) is None,
            },
    {
        let n = self.instanced_meshes.len();
        proof {
            assert(self.instanced_meshes@.skip(0) =~= self.instanced_meshes@);
        }
        for i in 0..n
            invariant
                n == self.instanced_meshes@.len(),
                forall|j: int| 0 <= j < i ==> self.instanced_meshes@[j].0 != id,
                lookup(self.instanced_meshes@.skip(i as int), id) == self.spec_get(id),
        {
            proof {
                lemma_lookup_step(self.instanced_meshes@, id, i as int);
            }
            if self.instanced_meshes[i].0 == id {
                return Some(&self.instanced_meshes[i].1);
            }
        }
        None
    }
}

/// First-match lookup in an association sequence.
pub open spec fn lookup(s: Seq<(MeshId, MeshRecord)>, id: MeshId) -> Option<MeshRecord>
    decreases s.len(),
{
    if s.len() == 0 {
        None
    } else if s[0].0 == id {
        Some(s[0].1)
    } else {
        lookup(s.drop_first(), id)
    }
}

proof fn lemma_lookup_step(s: Seq<(MeshId, MeshRecord)>, id: MeshId, i: int)
    requires
        0 <= i < s.len(),
    ensures
        s[i].0 == id ==> lookup(s.skip(i), id) == Some(s[i].1),
        s[i].0 != id ==> lookup(s.skip(i), id) == lookup(s.skip(i + 1), id),
{
    assert(s.skip(i).len() > 0);
    assert(s.skip(i)[0] == s[i]);
    if s[i].0 != id {
        assert(s.skip(i).drop_first() =~= s.skip(i + 1));
    }
}

} // verus!
