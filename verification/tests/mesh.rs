use nurbs_kernel::interpolation::interpolation_degrees;
use nurbs_kernel::mesh::tessellate_grid;

#[test]
fn grid_has_expected_counts() {
    let mesh = tessellate_grid(4, 3, |iu: usize, iv: usize| (iu as f64 / 4.0, iv as f64 / 3.0));
    assert_eq!(mesh.vertex_count(), 5 * 4);
    assert_eq!(mesh.triangle_count(), 4 * 3 * 2);
}

#[test]
fn grid_vertices_follow_rows() {
    let mesh = tessellate_grid(2, 1, |iu: usize, iv: usize| (iu, iv));
    assert_eq!(
        mesh.vertices,
        vec![(0, 0), (1, 0), (2, 0), (0, 1), (1, 1), (2, 1)]
    );
}

#[test]
fn grid_triangles_split_each_cell() {
    let mesh = tessellate_grid(2, 1, |iu: usize, iv: usize| (iu, iv));
    assert_eq!(
        mesh.triangles,
        vec![[0, 3, 1], [1, 3, 4], [1, 4, 2], [2, 4, 5]]
    );
}

#[test]
fn grid_triangle_indices_are_vertices() {
    let mesh = tessellate_grid(5, 7, |iu: usize, iv: usize| iu + 100 * iv);
    assert_eq!(mesh.vertex_count(), 48);
    assert_eq!(mesh.triangle_count(), 70);
    for tri in &mesh.triangles {
        for &k in tri.iter() {
            assert!(k < mesh.vertex_count());
        }
    }
    assert_eq!(mesh.vertices[6 * 2 + 3], 3 + 100 * 2);
}

#[test]
fn single_cell_grid() {
    let mesh = tessellate_grid(1, 1, |iu: usize, iv: usize| (iu, iv));
    assert_eq!(mesh.vertices, vec![(0, 0), (1, 0), (0, 1), (1, 1)]);
    assert_eq!(mesh.triangles, vec![[0, 2, 1], [1, 2, 3]]);
}

#[test]
fn interpolation_degrees_clamp() {
    assert_eq!(interpolation_degrees(4, 4, 3, 3), Some((3, 3)));
    assert_eq!(interpolation_degrees(2, 5, 3, 3), Some((1, 3)));
    assert_eq!(interpolation_degrees(1, 1, 3, 0), Some((0, 0)));
    assert_eq!(interpolation_degrees(0, 4, 3, 3), None);
    assert_eq!(interpolation_degrees(4, 0, 3, 3), None);
}
