use implicit_mesh::cell::{assemble_loop, triangulate_loop};

#[test]
fn quad_split_determinism() {
    let quad = vec![10, 11, 12, 13];
    assert_eq!(triangulate_loop(&quad), Some(vec![(10, 11, 13), (11, 12, 13)]));
    let other = vec![7, 3, 9, 1];
    assert_eq!(triangulate_loop(&other), Some(vec![(7, 3, 1), (3, 9, 1)]));
}

#[test]
fn triangle_loop_is_kept() {
    assert_eq!(triangulate_loop(&vec![4, 8, 2]), Some(vec![(4, 8, 2)]));
}

#[test]
fn irregular_loops_are_rejected() {
    assert_eq!(triangulate_loop(&vec![1, 2, 3, 4, 5]), None);
    assert_eq!(triangulate_loop(&vec![1, 2]), None);
    assert_eq!(triangulate_loop(&vec![]), None);
}

#[test]
fn triangle_segments_chain_into_a_loop() {
    let edges = vec![(1, 2), (3, 1), (2, 3)];
    assert_eq!(assemble_loop(&edges), vec![2, 3, 1]);
}

#[test]
fn quad_segments_chain_into_a_loop() {
    let edges = vec![(1, 2), (3, 4), (2, 3), (4, 1)];
    assert_eq!(assemble_loop(&edges), vec![4, 1, 2, 3]);
}

#[test]
fn segments_are_followed_in_either_direction() {
    let edges = vec![(2, 7), (9, 7), (2, 9)];
    assert_eq!(assemble_loop(&edges), vec![2, 9, 7]);
}

#[test]
fn open_chain_stops_at_a_dead_end() {
    let edges = vec![(1, 2), (2, 3), (5, 6)];
    assert_eq!(assemble_loop(&edges), vec![5, 6]);
    let path = vec![(1, 2), (3, 4), (2, 3)];
    assert_eq!(assemble_loop(&path), vec![2, 3, 4]);
}

#[test]
fn no_segments_give_an_empty_loop() {
    assert_eq!(assemble_loop(&vec![]), Vec::<usize>::new());
}
