//! Extraction of the zero level-set of a sampled scalar field as a
//! half-edge mesh, by marching tetrahedra over a regular lattice.
//!
//! The field itself is evaluated by the caller: the library works on the
//! sign of each lattice sample, allocates one vertex per sign-crossing
//! lattice edge, assembles the crossings of each tetrahedron into polygon
//! loops, triangulates them, and links the triangles into a half-edge
//! topology whose elements are addressed by plain indices.
use vstd::prelude::*;

pub mod lattice;
pub mod cell;
pub mod half_edge;
pub mod pipeline;
pub mod laws;
pub mod curves;

verus! {

/// Why a tessellation request was refused.
#[derive(Clone, Copy, Debug, PartialEq, Eq, Structural)]
pub enum MeshError {
    /// The split count is zero, so the lattice has no cell.
    InvalidSplit,
    /// The sample grid does not hold `split + 2` samples along each axis.
    SampleShape,
    /// A triangle names a vertex that the vertex arena does not hold.
    VertexOutOfRange,
    /// The triangles would need more half-edges than an index can address.
    TooManyTriangles,
}

} // verus!
