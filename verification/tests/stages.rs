use mesh_batching::index_merge::merge_index_data;
use mesh_batching::indirect::build_indirect_data;
use mesh_batching::keying::key_meshes;
use mesh_batching::types::{
    key_equal, key_less, BatchError, GpuIndexBufferData, GpuIndirectData, IndexData, IndexFormat,
    InstancedMeshKey, MeshRecord, RenderMeshes,
};
use mesh_batching::vertices::concat_vertex_data;

fn key(layout: u64, topology: u32, index_format: Option<IndexFormat>) -> InstancedMeshKey {
    InstancedMeshKey { layout, topology, index_format }
}

fn u16_mesh(bytes: Vec<u8>, vertices: u32, idx: Vec<u16>) -> MeshRecord {
    let count = idx.len() as u32;
    MeshRecord {
        key: key(1, 4, Some(IndexFormat::Uint16)),
        vertex_buffer_data: bytes,
        vertex_count: vertices,
        index_buffer_data: GpuIndexBufferData::Indexed {
            indices: IndexData::U16(idx),
            index_count: count,
            index_format: IndexFormat::Uint16,
        },
    }
}

#[test]
fn key_order_is_lexicographic() {
    let a = key(1, 9, Some(IndexFormat::Uint32));
    let b = key(2, 0, None);
    assert!(key_less(&a, &b));
    assert!(!key_less(&b, &a));
    let c = key(1, 1, None);
    let d = key(1, 2, None);
    assert!(key_less(&c, &d));
    let e = key(1, 1, Some(IndexFormat::Uint16));
    let f = key(1, 1, Some(IndexFormat::Uint32));
    assert!(key_less(&c, &e));
    assert!(key_less(&e, &f));
    assert!(!key_less(&e, &e));
    assert!(key_equal(&e, &e));
    assert!(!key_equal(&e, &f));
}

#[test]
fn keying_orders_groups_and_members() {
    let ka = key(3, 0, None);
    let kb = key(1, 0, None);
    let mesh = |k: InstancedMeshKey| MeshRecord {
        key: k,
        vertex_buffer_data: vec![0u8; 4],
        vertex_count: 1,
        index_buffer_data: GpuIndexBufferData::NonIndexed { vertex_count: 1 },
    };
    let meshes = RenderMeshes {
        instanced_meshes: vec![(7, mesh(ka)), (3, mesh(kb)), (5, mesh(ka))],
    };
    let refs: Vec<u64> = vec![7, 3, 5, 7];
    let groups = key_meshes(&refs, &meshes).unwrap();
    assert_eq!(groups.len(), 2);
    assert_eq!(groups[0].0, kb);
    assert_eq!(groups[0].1, vec![3]);
    assert_eq!(groups[1].0, ka);
    assert_eq!(groups[1].1, vec![5, 7]);
}

#[test]
fn keying_reports_first_missing_record() {
    let mesh = MeshRecord {
        key: key(1, 0, None),
        vertex_buffer_data: vec![],
        vertex_count: 0,
        index_buffer_data: GpuIndexBufferData::NonIndexed { vertex_count: 0 },
    };
    let meshes = RenderMeshes { instanced_meshes: vec![(1, mesh)] };
    let refs: Vec<u64> = vec![1, 8, 9];
    let err = key_meshes(&refs, &meshes).unwrap_err();
    assert_eq!(err, BatchError::MissingMeshRecord(8));
}

#[test]
fn vertex_concatenation_is_verbatim() {
    let a = u16_mesh(vec![1, 2, 3], 1, vec![0]);
    let b = u16_mesh(vec![4, 5], 1, vec![0]);
    let meshes = RenderMeshes { instanced_meshes: vec![(10, a), (20, b)] };
    let group: Vec<u64> = vec![10, 20];
    let bytes = concat_vertex_data(&group, &meshes);
    assert_eq!(bytes, vec![1, 2, 3, 4, 5]);
}

#[test]
fn merge_rebases_up_to_the_width_limit() {
    let a = u16_mesh(vec![0u8; 4], 65532, vec![0]);
    let b = u16_mesh(vec![0u8; 4], 3, vec![0, 1, 2, 3]);
    let meshes = RenderMeshes { instanced_meshes: vec![(10, a), (20, b)] };
    let group: Vec<u64> = vec![10, 20];
    let k = key(1, 4, Some(IndexFormat::Uint16));
    let merged = merge_index_data(&k, &group, &meshes).unwrap();
    match merged {
        GpuIndexBufferData::Indexed { indices: IndexData::U16(v), index_count, .. } => {
            assert_eq!(index_count, 5);
            assert_eq!(v, vec![0, 65532, 65533, 65534, 65535]);
        }
        _ => panic!("expected a 16-bit indexed merge"),
    }
}

#[test]
fn merge_takes_the_format_of_the_members() {
    let a = u16_mesh(vec![0u8; 4], 2, vec![0, 1]);
    let meshes = RenderMeshes { instanced_meshes: vec![(10, a)] };
    let group: Vec<u64> = vec![10];
    let k = key(1, 4, Some(IndexFormat::Uint16));
    let merged = merge_index_data(&k, &group, &meshes).unwrap();
    match merged {
        GpuIndexBufferData::Indexed { index_format, index_count, .. } => {
            assert_eq!(index_format, IndexFormat::Uint16);
            assert_eq!(index_count, 2);
        }
        GpuIndexBufferData::NonIndexed { .. } => panic!("expected an indexed merge"),
    }
}

#[test]
fn merge_mismatch_names_the_signature() {
    let a = u16_mesh(vec![0u8; 4], 2, vec![0, 1]);
    let b = MeshRecord {
        key: key(1, 4, Some(IndexFormat::Uint16)),
        vertex_buffer_data: vec![0u8; 4],
        vertex_count: 2,
        index_buffer_data: GpuIndexBufferData::NonIndexed { vertex_count: 2 },
    };
    let meshes = RenderMeshes { instanced_meshes: vec![(10, a), (20, b)] };
    let group: Vec<u64> = vec![10, 20];
    let k = key(9, 9, Some(IndexFormat::Uint16));
    let err = merge_index_data(&k, &group, &meshes).unwrap_err();
    assert_eq!(err, BatchError::BufferKindMismatch(k));
}

#[test]
fn empty_index_buffers_merge_to_nothing() {
    let a = u16_mesh(vec![0u8; 4], 2, vec![]);
    let b = u16_mesh(vec![0u8; 4], 3, vec![1]);
    let meshes = RenderMeshes { instanced_meshes: vec![(10, a), (20, b)] };
    let group: Vec<u64> = vec![10, 20];
    let k = key(1, 4, Some(IndexFormat::Uint16));
    let merged = merge_index_data(&k, &group, &meshes).unwrap();
    match merged {
        GpuIndexBufferData::Indexed { indices: IndexData::U16(v), index_count, .. } => {
            assert_eq!(index_count, 1);
            assert_eq!(v, vec![3]);
        }
        _ => panic!("expected a 16-bit indexed merge"),
    }
}

#[test]
fn single_member_group_is_unshifted() {
    let a = u16_mesh(vec![9u8; 8], 3, vec![2, 0, 1]);
    let meshes = RenderMeshes { instanced_meshes: vec![(10, a)] };
    let group: Vec<u64> = vec![10];
    let k = key(1, 4, Some(IndexFormat::Uint16));
    let merged = merge_index_data(&k, &group, &meshes).unwrap();
    match merged {
        GpuIndexBufferData::Indexed { indices: IndexData::U16(v), index_count, .. } => {
            assert_eq!(index_count, 3);
            assert_eq!(v, vec![2, 0, 1]);
        }
        _ => panic!("expected a 16-bit indexed merge"),
    }
}

#[test]
fn indirect_kind_follows_the_signature() {
    let a = u16_mesh(vec![0u8; 4], 2, vec![0, 1]);
    let meshes = RenderMeshes { instanced_meshes: vec![(10, a)] };
    let group: Vec<u64> = vec![10];
    let indexed_key = key(1, 4, Some(IndexFormat::Uint16));
    match build_indirect_data(&indexed_key, &group, &meshes).unwrap() {
        GpuIndirectData::Indexed { buffer } => {
            assert_eq!(buffer.len(), 1);
            assert_eq!(buffer[0].vertex_count, 2);
        }
        GpuIndirectData::NonIndexed { .. } => panic!("expected indexed draw arguments"),
    }
    let plain_key = key(1, 4, None);
    let err = build_indirect_data(&plain_key, &group, &meshes).unwrap_err();
    assert_eq!(err, BatchError::BufferKindMismatch(plain_key));
}
