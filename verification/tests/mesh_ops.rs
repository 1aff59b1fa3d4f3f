use tank_engine::mesh_layout::box_indices;
use tank_engine::mesh_ops::{
    boundary_edges, flat_shading_indices, flip_winding, gather, is_watertight, remap_indices,
    vertex_triangles, Edge,
};

fn sorted(mut v: Vec<Edge>) -> Vec<Edge> {
    v.sort_by_key(|e| (e.0, e.1));
    v
}

#[test]
fn edge_is_unordered() {
    assert_eq!(Edge::new(3, 1), Edge(1, 3));
    assert_eq!(Edge::new(1, 3), Edge(1, 3));
    assert_eq!(Edge::new(2, 2), Edge(2, 2));
}

#[test]
fn single_triangle_has_three_boundary_edges() {
    let b = sorted(boundary_edges(&vec![0, 1, 2]));
    assert_eq!(b, vec![Edge(0, 1), Edge(0, 2), Edge(1, 2)]);
    assert!(!is_watertight(&vec![0, 1, 2]));
}

#[test]
fn shared_edge_is_interior() {
    let b = sorted(boundary_edges(&vec![0, 1, 2, 2, 1, 3]));
    assert_eq!(b, vec![Edge(0, 1), Edge(0, 2), Edge(1, 3), Edge(2, 3)]);
}

#[test]
fn tetrahedron_is_watertight() {
    let tet = vec![0, 1, 2, 0, 3, 1, 1, 3, 2, 2, 3, 0];
    assert!(boundary_edges(&tet).is_empty());
    assert!(is_watertight(&tet));
}

#[test]
fn box_faces_are_not_welded() {
    let b = box_indices(1);
    assert!(!is_watertight(&b));
    assert_eq!(boundary_edges(&b).len(), 24);
}

#[test]
fn degenerate_and_trailing_indices() {
    assert_eq!(boundary_edges(&vec![0, 0, 1]), vec![Edge(0, 0)]);
    assert_eq!(sorted(boundary_edges(&vec![0, 1, 2, 3])), vec![Edge(0, 1), Edge(0, 2), Edge(1, 2)]);
    assert!(boundary_edges(&vec![]).is_empty());
    assert!(is_watertight(&vec![4, 5]));
}

#[test]
fn flip_winding_swaps_last_two_corners() {
    let mut v = vec![0, 1, 2, 3, 4, 5, 6];
    flip_winding(&mut v);
    assert_eq!(v, vec![0, 2, 1, 3, 5, 4, 6]);
    flip_winding(&mut v);
    assert_eq!(v, vec![0, 1, 2, 3, 4, 5, 6]);
}

#[test]
fn flat_shading_layout() {
    assert_eq!(flat_shading_indices(4), vec![0, 1, 2, 3]);
    assert!(flat_shading_indices(0).is_empty());
    let positions = vec![[0.0f32, 0.0, 0.0], [1.0, 0.0, 0.0], [0.0, 1.0, 0.0]];
    let dup = gather(&positions, &vec![2, 0, 2]);
    assert_eq!(dup, vec![[0.0, 1.0, 0.0], [0.0, 0.0, 0.0], [0.0, 1.0, 0.0]]);
}

#[test]
fn remap_after_weld() {
    assert_eq!(remap_indices(&vec![0, 2, 1, 2], &vec![5, 6, 7]), vec![5, 7, 6, 7]);
}

#[test]
fn adjacency_of_two_triangles() {
    let adj = vertex_triangles(&vec![0, 1, 2, 2, 1, 3], 5);
    assert_eq!(adj, vec![vec![0], vec![0, 1], vec![0, 1], vec![1], vec![]]);
    let degenerate = vertex_triangles(&vec![0, 0, 1, 7], 2);
    assert_eq!(degenerate, vec![vec![0, 0], vec![0]]);
}
