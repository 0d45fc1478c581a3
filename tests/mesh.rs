use implicit_mesh::half_edge::HalfEdgeMesh;
use implicit_mesh::MeshError;

fn tetrahedron() -> Vec<(usize, usize, usize)> {
    vec![(0, 1, 2), (1, 0, 3), (2, 3, 0), (3, 2, 1)]
}

#[test]
fn tetrahedron_is_closed() {
    let mesh = HalfEdgeMesh::from_triangles(4, &tetrahedron()).unwrap();
    assert_eq!(mesh.vertex_count(), 4);
    assert_eq!(mesh.half_edge_count(), 12);
    assert_eq!(mesh.face_count(), 4);
    assert!(mesh.is_closed());
    assert!(mesh.unpaired_edges().is_empty());
    assert_eq!(mesh.edge_segments().len(), 12);
}

#[test]
fn pairs_join_opposite_half_edges() {
    let mesh = HalfEdgeMesh::from_triangles(4, &tetrahedron()).unwrap();
    assert_eq!(mesh.pair_of(0), Some(3));
    assert_eq!(mesh.pair_of(3), Some(0));
    assert_eq!(mesh.target_of(0), 1);
    for e in 0..mesh.half_edge_count() {
        let c = mesh.pair_of(e).unwrap();
        assert_eq!(mesh.pair_of(c), Some(e));
        assert_ne!(c, e);
        assert_eq!(mesh.edges[c].origin, mesh.target_of(e));
        assert_eq!(mesh.target_of(c), mesh.edges[e].origin);
    }
}

#[test]
fn next_closes_every_face() {
    let mesh = HalfEdgeMesh::from_triangles(4, &tetrahedron()).unwrap();
    for e in 0..mesh.half_edge_count() {
        let n1 = mesh.edges[e].next;
        let n2 = mesh.edges[n1].next;
        let n3 = mesh.edges[n2].next;
        assert_eq!(n3, e);
        assert_eq!(mesh.edges[n1].face, mesh.edges[e].face);
    }
}

#[test]
fn face_loops_give_back_the_triangles() {
    let tris = tetrahedron();
    let mesh = HalfEdgeMesh::from_triangles(4, &tris).unwrap();
    assert_eq!(mesh.face_loops(), tris);
}

#[test]
fn seeds_are_first_outgoing_half_edges() {
    let mesh = HalfEdgeMesh::from_triangles(5, &tetrahedron()).unwrap();
    assert_eq!(mesh.vertex_edges, vec![Some(0), Some(1), Some(2), Some(5), None]);
    assert_eq!(mesh.faces, vec![0, 3, 6, 9]);
}

#[test]
fn open_triangle_has_no_pairs() {
    let mesh = HalfEdgeMesh::from_triangles(3, &vec![(0, 1, 2)]).unwrap();
    assert!(!mesh.is_closed());
    assert_eq!(mesh.unpaired_edges(), vec![0, 1, 2]);
    assert!(mesh.edge_segments().is_empty());
    assert_eq!(mesh.pair_of(1), None);
}

#[test]
fn repeated_direction_stays_unpaired() {
    let tris = vec![(0, 1, 2), (1, 0, 3), (0, 1, 4)];
    let mesh = HalfEdgeMesh::from_triangles(5, &tris).unwrap();
    assert_eq!(mesh.pair_of(0), Some(3));
    assert_eq!(mesh.pair_of(3), Some(0));
    assert_eq!(mesh.pair_of(6), None);
    assert_eq!(mesh.unpaired_edges(), vec![1, 2, 4, 5, 6, 7, 8]);
    assert_eq!(mesh.edge_segments(), vec![(0, 1), (1, 0)]);
}

#[test]
fn degenerate_triangle_does_not_pair_with_itself() {
    let mesh = HalfEdgeMesh::from_triangles(2, &vec![(0, 0, 1)]).unwrap();
    assert_eq!(mesh.pair_of(0), None);
    assert_eq!(mesh.pair_of(1), Some(2));
    assert_eq!(mesh.unpaired_edges(), vec![0]);
}

#[test]
fn vertex_out_of_range_is_refused() {
    let r = HalfEdgeMesh::from_triangles(3, &vec![(0, 1, 2), (2, 1, 3)]);
    assert_eq!(r.err(), Some(MeshError::VertexOutOfRange));
}

#[test]
fn empty_soup_gives_empty_mesh() {
    let mesh = HalfEdgeMesh::from_triangles(0, &vec![]).unwrap();
    assert_eq!(mesh.vertex_count(), 0);
    assert_eq!(mesh.half_edge_count(), 0);
    assert_eq!(mesh.face_count(), 0);
    assert!(mesh.is_closed());
}
