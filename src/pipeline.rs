//! The whole tessellation request: sampled signs in, half-edge mesh out.
use vstd::prelude::*;

use crate::cell::tessellate;
use crate::half_edge::HalfEdgeMesh;
use crate::lattice::{sample_crossings, CrossingTable, SampleGrid};
use crate::laws::lemma_sampling_deterministic;
use crate::MeshError;

verus! {

/// A tessellated level set: the crossing vertices, whose lattice edges let
/// the caller place each vertex, and the half-edge mesh over them.
#[derive(Debug)]
pub struct ImplicitMesh {
    pub crossings: CrossingTable,
    pub mesh: HalfEdgeMesh,
}

/// Samples, tessellates and links the level set of `grid` in one pass.
///
/// Fails with `InvalidSplit` or `SampleShape` on a malformed grid, and with
/// `TooManyTriangles` when the soup cannot be indexed; otherwise the mesh is
/// the one built from the crossing vertices and the triangle soup of the
/// grid's crossing table.
pub fn mesh_from_samples(grid: &SampleGrid) -> (r: Result<ImplicitMesh, MeshError>)
    ensures
        r matches Err(MeshError::InvalidSplit) <==> grid.split == 0,
        r matches Err(MeshError::SampleShape) <==> grid.split > 0 && !grid.shaped(),
        r matches Err(MeshError::TooManyTriangles) <==> grid.split > 0 && grid.shaped() && exists|
            t: CrossingTable,
        | #[trigger] t.samples(grid) && 3 * t.triangles().len() > usize::MAX,
        !(r matches Err(MeshError::VertexOutOfRange)),
        r is Ok ==> {
            let m = r->Ok_0;
            &&& m.crossings.samples(grid)
            &&& m.mesh.built_from(m.crossings.vertex_count(), m.crossings.triangles())
            &&& m.mesh.wf()
        },
{
    let crossings = sample_crossings(grid)?;
    let tris = tessellate(&crossings);
    proof {
        assert forall|t: CrossingTable| #[trigger] t.samples(grid) implies t.triangles()
            == crossings.triangles() by {
            lemma_sampling_deterministic(grid, &t, &crossings);
        }
    }
    let n = crossings.origins.len();
    match HalfEdgeMesh::from_triangles(n, &tris) {
        Ok(mesh) => Ok(ImplicitMesh { crossings, mesh }),
        Err(e) => Err(e),
    }
}

} // verus!
