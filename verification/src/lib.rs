//! Merging of independently authored 3D meshes into draw-ready GPU buffer
//! batches.
//!
//! Meshes that share a structural signature (vertex layout, primitive
//! topology, index presence and width) are grouped into one batch. A batch
//! owns the concatenation of its members' vertex bytes, a single merged
//! index buffer whose values are re-based onto the shared vertex range, and
//! one indirect draw argument per member, so that the whole batch can be
//! drawn with a single indirect multi-draw call.

pub mod types;
pub mod keying;
pub mod vertices;
pub mod index_merge;
pub mod indirect;
pub mod batching;
