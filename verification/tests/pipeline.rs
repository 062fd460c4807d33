use mesh_batching::batching::{prepare_mesh_batches, prepare_mesh_batches_from_streams, MeshBatches};
use mesh_batching::types::{
    BatchError, GpuIndexBufferData, GpuIndirectData, IndexData, IndexFormat, InstancedMeshKey,
    MeshRecord, RenderMeshes,
};

fn key_u16() -> InstancedMeshKey {
    InstancedMeshKey { layout: 1, topology: 4, index_format: Some(IndexFormat::Uint16) }
}

fn key_u32() -> InstancedMeshKey {
    InstancedMeshKey { layout: 1, topology: 4, index_format: Some(IndexFormat::Uint32) }
}

fn key_plain() -> InstancedMeshKey {
    InstancedMeshKey { layout: 1, topology: 4, index_format: None }
}

fn indexed_u16(key: InstancedMeshKey, bytes: Vec<u8>, vertices: u32, idx: Vec<u16>) -> MeshRecord {
    let count = idx.len() as u32;
    MeshRecord {
        key,
        vertex_buffer_data: bytes,
        vertex_count: vertices,
        index_buffer_data: GpuIndexBufferData::Indexed {
            indices: IndexData::U16(idx),
            index_count: count,
            index_format: IndexFormat::Uint16,
        },
    }
}

fn indexed_u32(key: InstancedMeshKey, bytes: Vec<u8>, vertices: u32, idx: Vec<u32>) -> MeshRecord {
    let count = idx.len() as u32;
    MeshRecord {
        key,
        vertex_buffer_data: bytes,
        vertex_count: vertices,
        index_buffer_data: GpuIndexBufferData::Indexed {
            indices: IndexData::U32(idx),
            index_count: count,
            index_format: IndexFormat::Uint32,
        },
    }
}

fn non_indexed(key: InstancedMeshKey, bytes: Vec<u8>, vertices: u32, draw: u32) -> MeshRecord {
    MeshRecord {
        key,
        vertex_buffer_data: bytes,
        vertex_count: vertices,
        index_buffer_data: GpuIndexBufferData::NonIndexed { vertex_count: draw },
    }
}

#[test]
fn scenario_two_u16_meshes_merge() {
    let a = indexed_u16(key_u16(), vec![1u8; 16], 4, vec![0, 1, 2, 0, 2, 3]);
    let b = indexed_u16(key_u16(), vec![2u8; 12], 3, vec![0, 1, 2]);
    let meshes = RenderMeshes { instanced_meshes: vec![(10, a), (20, b)] };
    let refs: Vec<u64> = vec![10, 20];
    let batches = prepare_mesh_batches(&refs, &meshes).unwrap();
    assert_eq!(batches.len(), 1);
    let (key, batch) = &batches[0];
    assert_eq!(*key, key_u16());
    assert_eq!(batch.meshes, vec![10, 20]);
    assert_eq!(batch.vertex_data.len(), 16 + 12);
    let mut expected_bytes = vec![1u8; 16];
    expected_bytes.extend(vec![2u8; 12]);
    assert_eq!(batch.vertex_data, expected_bytes);
    match &batch.index_data {
        GpuIndexBufferData::Indexed { indices, index_count, index_format } => {
            assert_eq!(*index_count, 9);
            assert_eq!(*index_format, IndexFormat::Uint16);
            match indices {
                IndexData::U16(v) => assert_eq!(*v, vec![0, 1, 2, 0, 2, 3, 4, 5, 6]),
                IndexData::U32(_) => panic!("expected 16-bit indices"),
            }
        }
        GpuIndexBufferData::NonIndexed { .. } => panic!("expected an indexed merge"),
    }
    match &batch.indirect_data {
        GpuIndirectData::Indexed { buffer } => {
            assert_eq!(buffer.len(), 2);
            assert_eq!(buffer[0].vertex_count, 6);
            assert_eq!(buffer[1].vertex_count, 3);
            assert_eq!(buffer[0].instance_count, 0);
            assert_eq!(buffer[0].base_index, 0);
            assert_eq!(buffer[0].vertex_offset, 0);
            assert_eq!(buffer[0].base_instance, 0);
        }
        GpuIndirectData::NonIndexed { .. } => panic!("expected indexed draw arguments"),
    }
}

#[test]
fn mixed_kinds_in_one_group_fail() {
    let a = indexed_u16(key_u16(), vec![1u8; 16], 4, vec![0, 1, 2]);
    let b = non_indexed(key_u16(), vec![2u8; 12], 3, 3);
    let meshes = RenderMeshes { instanced_meshes: vec![(10, a), (20, b)] };
    let refs: Vec<u64> = vec![10, 20];
    let err = prepare_mesh_batches(&refs, &meshes).unwrap_err();
    assert_eq!(err, BatchError::BufferKindMismatch(key_u16()));
}

#[test]
fn mixed_widths_in_one_group_fail() {
    let a = indexed_u16(key_u16(), vec![1u8; 16], 4, vec![0, 1, 2]);
    let b = indexed_u32(key_u16(), vec![2u8; 12], 3, vec![0, 1, 2]);
    let meshes = RenderMeshes { instanced_meshes: vec![(10, a), (20, b)] };
    let refs: Vec<u64> = vec![10, 20];
    let err = prepare_mesh_batches(&refs, &meshes).unwrap_err();
    assert_eq!(err, BatchError::IndexFormatMismatch(key_u16()));
}

#[test]
fn missing_record_fails() {
    let a = indexed_u16(key_u16(), vec![1u8; 16], 4, vec![0, 1, 2]);
    let meshes = RenderMeshes { instanced_meshes: vec![(10, a)] };
    let refs: Vec<u64> = vec![10, 99];
    let err = prepare_mesh_batches(&refs, &meshes).unwrap_err();
    assert_eq!(err, BatchError::MissingMeshRecord(99));
}

#[test]
fn non_indexed_group_accumulates() {
    let a = non_indexed(key_plain(), vec![1u8; 20], 5, 5);
    let b = non_indexed(key_plain(), vec![2u8; 28], 7, 7);
    let meshes = RenderMeshes { instanced_meshes: vec![(10, a), (20, b)] };
    let refs: Vec<u64> = vec![10, 20];
    let batches = prepare_mesh_batches(&refs, &meshes).unwrap();
    assert_eq!(batches.len(), 1);
    let batch = &batches[0].1;
    assert_eq!(batch.index_data, GpuIndexBufferData::NonIndexed { vertex_count: 12 });
    match &batch.indirect_data {
        GpuIndirectData::NonIndexed { buffer } => {
            assert_eq!(buffer.len(), 2);
            assert_eq!(buffer[0].vertex_count, 5);
            assert_eq!(buffer[1].vertex_count, 7);
            assert_eq!(buffer[0].instance_count, 0);
            assert_eq!(buffer[0].base_vertex, 0);
            assert_eq!(buffer[0].base_instance, 0);
        }
        GpuIndirectData::Indexed { .. } => panic!("expected non-indexed draw arguments"),
    }
}

#[test]
fn u32_indices_are_rebased() {
    let a = indexed_u32(key_u32(), vec![1u8; 8], 100000, vec![0, 1, 99999]);
    let b = indexed_u32(key_u32(), vec![2u8; 8], 3, vec![2, 0, 1]);
    let meshes = RenderMeshes { instanced_meshes: vec![(10, a), (20, b)] };
    let refs: Vec<u64> = vec![10, 20];
    let batches = prepare_mesh_batches(&refs, &meshes).unwrap();
    let batch = &batches[0].1;
    match &batch.index_data {
        GpuIndexBufferData::Indexed { indices: IndexData::U32(v), index_count, .. } => {
            assert_eq!(*index_count, 6);
            assert_eq!(*v, vec![0, 1, 99999, 100002, 100000, 100001]);
        }
        _ => panic!("expected a 32-bit indexed merge"),
    }
}

#[test]
fn duplicate_references_count_once() {
    let a = indexed_u16(key_u16(), vec![1u8; 16], 4, vec![0, 1, 2]);
    let b = indexed_u16(key_u16(), vec![2u8; 12], 3, vec![0]);
    let meshes = RenderMeshes { instanced_meshes: vec![(10, a), (20, b)] };
    let refs: Vec<u64> = vec![20, 10, 20, 20, 10];
    let batches = prepare_mesh_batches(&refs, &meshes).unwrap();
    assert_eq!(batches.len(), 1);
    let batch = &batches[0].1;
    assert_eq!(batch.meshes, vec![10, 20]);
    assert_eq!(batch.vertex_data.len(), 16 + 12);
    match &batch.index_data {
        GpuIndexBufferData::Indexed { index_count, .. } => assert_eq!(*index_count, 4),
        GpuIndexBufferData::NonIndexed { .. } => panic!("expected an indexed merge"),
    }
}

#[test]
fn groups_come_out_in_key_order() {
    let low = InstancedMeshKey { layout: 1, topology: 4, index_format: None };
    let high = InstancedMeshKey { layout: 2, topology: 0, index_format: None };
    let a = non_indexed(high, vec![1u8; 4], 1, 1);
    let b = non_indexed(low, vec![2u8; 4], 1, 1);
    let meshes = RenderMeshes { instanced_meshes: vec![(10, a), (20, b)] };
    let refs: Vec<u64> = vec![10, 20];
    let batches = prepare_mesh_batches(&refs, &meshes).unwrap();
    assert_eq!(batches.len(), 2);
    assert_eq!(batches[0].0, low);
    assert_eq!(batches[1].0, high);
    assert_eq!(batches[0].1.meshes, vec![20]);
    assert_eq!(batches[1].1.meshes, vec![10]);
}

#[test]
fn empty_references_give_empty_table() {
    let meshes = RenderMeshes { instanced_meshes: vec![] };
    let refs: Vec<u64> = vec![];
    let batches = prepare_mesh_batches(&refs, &meshes).unwrap();
    assert_eq!(batches.len(), 0);
}

#[test]
fn identical_inputs_give_identical_batches() {
    let a = indexed_u16(key_u16(), vec![1u8; 16], 4, vec![0, 1, 2, 0, 2, 3]);
    let b = indexed_u16(key_u16(), vec![2u8; 12], 3, vec![0, 1, 2]);
    let c = non_indexed(key_plain(), vec![3u8; 8], 2, 2);
    let meshes = RenderMeshes {
        instanced_meshes: vec![(10, a), (20, b), (30, c)],
    };
    let refs: Vec<u64> = vec![30, 10, 20, 10];
    let once = prepare_mesh_batches(&refs, &meshes).unwrap();
    let twice = prepare_mesh_batches(&refs, &meshes).unwrap();
    assert_eq!(once, twice);
}

#[test]
fn both_streams_feed_one_pass() {
    let a = indexed_u16(key_u16(), vec![1u8; 16], 4, vec![0, 1, 2, 0, 2, 3]);
    let b = indexed_u16(key_u16(), vec![2u8; 12], 3, vec![0, 1, 2]);
    let meshes = RenderMeshes { instanced_meshes: vec![(10, a), (20, b)] };
    let instances: Vec<u64> = vec![20];
    let slices: Vec<u64> = vec![10, 20];
    let batches = prepare_mesh_batches_from_streams(&instances, &slices, &meshes).unwrap();
    assert_eq!(batches.len(), 1);
    assert_eq!(batches[0].1.meshes, vec![10, 20]);
    let joined: Vec<u64> = vec![20, 10, 20];
    let same = prepare_mesh_batches(&joined, &meshes).unwrap();
    assert_eq!(batches, same);
}

#[test]
fn rebuild_replaces_and_keeps_on_failure() {
    let a = indexed_u16(key_u16(), vec![1u8; 16], 4, vec![0, 1, 2]);
    let meshes = RenderMeshes { instanced_meshes: vec![(10, a)] };
    let refs: Vec<u64> = vec![10];
    let mut table: MeshBatches<u32> = MeshBatches::default();
    assert_eq!(table.mesh_batches.len(), 0);
    table.rebuild(&refs, &meshes).unwrap();
    assert_eq!(table.mesh_batches.len(), 1);
    let kept = table.mesh_batches.clone();
    let bad_refs: Vec<u64> = vec![10, 99];
    let err = table.rebuild(&bad_refs, &meshes).unwrap_err();
    assert_eq!(err, BatchError::MissingMeshRecord(99));
    assert_eq!(table.mesh_batches, kept);
}
