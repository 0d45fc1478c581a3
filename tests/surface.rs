use std::collections::HashSet;

use implicit_mesh::lattice::{
    direction_step, sample_crossings, signs_opposite, EdgeSlot, SampleGrid, Sign,
};
use implicit_mesh::pipeline::{mesh_from_samples, ImplicitMesh};
use implicit_mesh::MeshError;

type Field = fn([f32; 3]) -> f32;

fn lattice_point(range: f32, split: usize, x: usize, y: usize, z: usize) -> [f32; 3] {
    let g = range * 2.0 / split as f32;
    [x as f32 * g - range, y as f32 * g - range, z as f32 * g - range]
}

fn sign_of(v: f32) -> Sign {
    if v < 0.0 {
        Sign::Negative
    } else if v > 0.0 {
        Sign::Positive
    } else {
        Sign::Zero
    }
}

fn sample(range: f32, split: usize, f: Field) -> (SampleGrid, Vec<Vec<Vec<f32>>>) {
    let side = split + 2;
    let mut values = vec![vec![vec![0.0f32; side]; side]; side];
    let mut signs = vec![vec![vec![Sign::Zero; side]; side]; side];
    for x in 0..side {
        for y in 0..side {
            for z in 0..side {
                let v = f(lattice_point(range, split, x, y, z));
                values[x][y][z] = v;
                signs[x][y][z] = sign_of(v);
            }
        }
    }
    (SampleGrid { split, signs }, values)
}

fn place(range: f32, split: usize, values: &[Vec<Vec<f32>>], s: &EdgeSlot) -> [f32; 3] {
    let (dx, dy, dz) = direction_step(s.dir);
    let p0 = lattice_point(range, split, s.x, s.y, s.z);
    let p1 = lattice_point(range, split, s.x + dx, s.y + dy, s.z + dz);
    let v0 = values[s.x][s.y][s.z];
    let v1 = values[s.x + dx][s.y + dy][s.z + dz];
    let t = v0 / (v0 - v1);
    [
        p0[0] + (p1[0] - p0[0]) * t,
        p0[1] + (p1[1] - p0[1]) * t,
        p0[2] + (p1[2] - p0[2]) * t,
    ]
}

fn tessellate_field(range: f32, split: usize, f: Field) -> (ImplicitMesh, Vec<[f32; 3]>) {
    let (grid, values) = sample(range, split, f);
    let out = mesh_from_samples(&grid).unwrap();
    let positions = out.crossings.origins.iter().map(|s| place(range, split, &values, s)).collect();
    (out, positions)
}

fn sphere(p: [f32; 3]) -> f32 {
    (p[0] * p[0] + p[1] * p[1] + p[2] * p[2]).sqrt() - 0.5
}

fn undirected_edges(faces: &[(usize, usize, usize)]) -> usize {
    let mut set = HashSet::new();
    for &(a, b, c) in faces {
        for (u, v) in [(a, b), (b, c), (c, a)] {
            set.insert((u.min(v), u.max(v)));
        }
    }
    set.len()
}

#[test]
fn sphere_scenario_stays_near_the_surface() {
    let (out, positions) = tessellate_field(1.0, 2, sphere);
    let faces = out.mesh.face_loops();
    assert!(!faces.is_empty());
    assert_eq!(positions.len(), out.mesh.vertex_count());
    let grid_size = 2.0 * 1.0 / 2.0;
    for p in &positions {
        let r = (p[0] * p[0] + p[1] * p[1] + p[2] * p[2]).sqrt();
        assert!((r - 0.5).abs() < grid_size);
    }
    for &(a, b, c) in &faces {
        assert!(a < positions.len() && b < positions.len() && c < positions.len());
    }
}

#[test]
fn sphere_scenario_counts() {
    let (out, _) = tessellate_field(1.0, 2, sphere);
    assert_eq!(out.mesh.vertex_count(), 14);
    assert_eq!(out.mesh.face_count(), 24);
    assert_eq!(out.mesh.half_edge_count(), 72);
}

#[test]
fn sphere_euler_characteristic() {
    for split in [2usize, 5, 10] {
        let (out, _) = tessellate_field(1.0, split, sphere);
        let faces = out.mesh.face_loops();
        let v = out.mesh.vertex_count() as i64;
        let e = undirected_edges(&faces) as i64;
        let f = faces.len() as i64;
        assert_eq!(v - e + f, 2, "split {}", split);
    }
}

fn swap_symmetric(p: [f32; 3]) -> f32 {
    p[0] * p[0] + p[1] * p[1] + 2.0 * p[2] * p[2] + 0.3 * (p[0] * p[1]) - 0.4
}

#[test]
fn symmetric_field_gives_symmetric_vertices() {
    let (out, positions) = tessellate_field(1.0, 6, swap_symmetric);
    assert!(!positions.is_empty());
    for p in &positions {
        let mirrored = [p[1], p[0], p[2]];
        let found = positions.iter().any(|q| {
            (q[0] - mirrored[0]).abs() < 1e-5
                && (q[1] - mirrored[1]).abs() < 1e-5
                && (q[2] - mirrored[2]).abs() < 1e-5
        });
        assert!(found);
    }
    for s in &out.crossings.origins {
        assert!(out.crossings.slots[s.y][s.x][s.z][swap_direction(s.dir)].is_some());
    }
}

fn swap_direction(d: usize) -> usize {
    [1, 0, 2, 3, 5, 4, 6][d]
}

#[test]
fn sphere_vertices_are_symmetric_under_every_axis_swap() {
    let (_, positions) = tessellate_field(1.0, 5, sphere);
    for p in &positions {
        for q in [[p[1], p[0], p[2]], [p[0], p[2], p[1]], [p[2], p[1], p[0]]] {
            assert!(positions.iter().any(|r| (0..3).all(|k| (r[k] - q[k]).abs() < 1e-5)));
        }
    }
}

fn positive(_: [f32; 3]) -> f32 {
    1.0
}

fn negative(_: [f32; 3]) -> f32 {
    -2.5
}

fn zero(_: [f32; 3]) -> f32 {
    0.0
}

#[test]
fn constant_sign_field_is_empty() {
    for f in [positive as Field, negative, zero] {
        let (out, positions) = tessellate_field(1.0, 3, f);
        assert!(positions.is_empty());
        assert_eq!(out.mesh.vertex_count(), 0);
        assert!(out.mesh.edge_segments().is_empty());
        assert!(out.mesh.face_loops().is_empty());
    }
}

fn one_negative_corner(split: usize, corner: (usize, usize, usize)) -> SampleGrid {
    let side = split + 2;
    let mut signs = vec![vec![vec![Sign::Positive; side]; side]; side];
    signs[corner.0][corner.1][corner.2] = Sign::Negative;
    SampleGrid { split, signs }
}

#[test]
fn single_negative_corner_gives_one_fan() {
    let grid = one_negative_corner(1, (0, 0, 0));
    let table = sample_crossings(&grid).unwrap();
    let expected: Vec<EdgeSlot> =
        (0..7).map(|d| EdgeSlot { x: 0, y: 0, z: 0, dir: d }).collect();
    assert_eq!(table.origins, expected);
    for d in 0..7 {
        assert_eq!(table.slots[0][0][0][d], Some(d));
    }
    assert_eq!(table.slots[1][0][0][1], None);
    let out = mesh_from_samples(&grid).unwrap();
    assert_eq!(
        out.mesh.face_loops(),
        vec![(2, 4, 6), (1, 4, 6), (1, 3, 6), (0, 3, 6), (0, 5, 6), (2, 5, 6)]
    );
}

#[test]
fn crossing_ids_follow_edge_order() {
    let side = 3;
    let mut signs = vec![vec![vec![Sign::Positive; side]; side]; side];
    signs[0][0][0] = Sign::Negative;
    signs[1][0][0] = Sign::Negative;
    let grid = SampleGrid { split: 1, signs };
    let table = sample_crossings(&grid).unwrap();
    assert_eq!(table.origins.len(), 13);
    for w in table.origins.windows(2) {
        let a = (w[0].x, w[0].y, w[0].z, w[0].dir);
        let b = (w[1].x, w[1].y, w[1].z, w[1].dir);
        assert!(a < b);
    }
    for (i, s) in table.origins.iter().enumerate() {
        assert_eq!(table.slots[s.x][s.y][s.z][s.dir], Some(i));
    }
    let out = mesh_from_samples(&grid).unwrap();
    assert_eq!(
        out.mesh.face_loops(),
        vec![(1, 3, 5), (0, 3, 5), (0, 2, 5), (2, 7, 5), (7, 10, 5), (4, 8, 5), (8, 10, 5), (1, 4, 5)]
    );
}

#[test]
fn zero_samples_never_cross() {
    let side = 3;
    let mut signs = vec![vec![vec![Sign::Positive; side]; side]; side];
    signs[0][0][0] = Sign::Zero;
    let grid = SampleGrid { split: 1, signs };
    let table = sample_crossings(&grid).unwrap();
    assert!(table.origins.is_empty());
}

#[test]
fn zero_split_is_refused() {
    let grid = SampleGrid { split: 0, signs: vec![vec![vec![Sign::Zero; 2]; 2]; 2] };
    assert_eq!(sample_crossings(&grid).err(), Some(MeshError::InvalidSplit));
    assert_eq!(mesh_from_samples(&grid).err(), Some(MeshError::InvalidSplit));
}

#[test]
fn misshapen_grid_is_refused() {
    let grid = SampleGrid { split: 2, signs: vec![vec![vec![Sign::Zero; 4]; 4]; 3] };
    assert_eq!(sample_crossings(&grid).err(), Some(MeshError::SampleShape));
    let mut signs = vec![vec![vec![Sign::Zero; 4]; 4]; 4];
    signs[3][2].pop();
    let ragged = SampleGrid { split: 2, signs };
    assert_eq!(mesh_from_samples(&ragged).err(), Some(MeshError::SampleShape));
}

#[test]
fn direction_steps() {
    let steps: Vec<(usize, usize, usize)> = (0..7).map(direction_step).collect();
    assert_eq!(
        steps,
        vec![(1, 0, 0), (0, 1, 0), (0, 0, 1), (1, 1, 0), (0, 1, 1), (1, 0, 1), (1, 1, 1)]
    );
}

#[test]
fn opposite_signs() {
    assert!(signs_opposite(Sign::Negative, Sign::Positive));
    assert!(signs_opposite(Sign::Positive, Sign::Negative));
    assert!(!signs_opposite(Sign::Zero, Sign::Negative));
    assert!(!signs_opposite(Sign::Positive, Sign::Positive));
}

fn lcg(state: &mut u64) -> u64 {
    *state = state.wrapping_mul(6364136223846793005).wrapping_add(1442695040888963407);
    *state >> 33
}

#[test]
fn arbitrary_signs_always_tessellate() {
    let mut state = 7u64;
    for split in 1..5usize {
        let side = split + 2;
        let mut signs = vec![vec![vec![Sign::Zero; side]; side]; side];
        for x in 0..side {
            for y in 0..side {
                for z in 0..side {
                    signs[x][y][z] = match lcg(&mut state) % 3 {
                        0 => Sign::Negative,
                        1 => Sign::Zero,
                        _ => Sign::Positive,
                    };
                }
            }
        }
        let grid = SampleGrid { split, signs };
        let out = mesh_from_samples(&grid).unwrap();
        let n = out.crossings.origins.len();
        assert_eq!(out.mesh.vertex_count(), n);
        for (a, b, c) in out.mesh.face_loops() {
            assert!(a < n && b < n && c < n);
            assert!(a != b && b != c && a != c);
        }
    }
}
