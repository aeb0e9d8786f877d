use renderer::shapes::{unit_cube_indices, unit_quad_indices, unit_sphere_geometry};

#[test]
fn quad_triangles() {
    assert_eq!(unit_quad_indices(), vec![0, 1, 2, 2, 3, 0]);
}

#[test]
fn cube_triangles() {
    let expected: Vec<usize> = vec![
        0, 2, 1, 2, 0, 3, 4, 6, 5, 6, 4, 7, 8, 10, 9, 10, 8, 11, 12, 14, 13, 14, 12, 15, 16, 18,
        17, 18, 16, 19, 20, 22, 21, 22, 20, 23,
    ];
    assert_eq!(unit_cube_indices(), expected);
}

#[test]
fn sphere_of_one_cell_a_face() {
    let (vertices, indices) = unit_sphere_geometry(1, &|face, u, v| (face, u, v));
    assert_eq!(vertices.len(), 24);
    assert_eq!(indices.len(), 36);
    assert_eq!(&vertices[..4], &[(0, 0, 0), (0, 0, 1), (0, 1, 0), (0, 1, 1)]);
    assert_eq!(vertices[23], (5, 1, 1));
    assert_eq!(&indices[..6], &[0, 3, 2, 3, 0, 1]);
    assert_eq!(&indices[6..12], &[4, 7, 6, 7, 4, 5]);
    assert_eq!(&indices[30..], &[20, 23, 22, 23, 20, 21]);
}

#[test]
fn sphere_of_two_cells_a_side() {
    let (vertices, indices) = unit_sphere_geometry(2, &|face, u, v| face * 100 + u * 10 + v);
    assert_eq!(vertices.len(), 6 * 9);
    assert_eq!(indices.len(), 6 * 4 * 6);
    // vertices of a face: u is the slow coordinate
    assert_eq!(&vertices[..9], &[0, 1, 2, 10, 11, 12, 20, 21, 22]);
    assert_eq!(vertices[9], 100);
    // cells of face 0, in the order (u, v) = (0,0), (0,1), (1,0), (1,1)
    assert_eq!(&indices[..6], &[0, 4, 3, 4, 0, 1]);
    assert_eq!(&indices[6..12], &[1, 5, 4, 5, 1, 2]);
    assert_eq!(&indices[12..18], &[3, 7, 6, 7, 3, 4]);
    assert_eq!(&indices[18..24], &[4, 8, 7, 8, 4, 5]);
    // first cell of face 1
    assert_eq!(&indices[24..30], &[9, 13, 12, 13, 9, 10]);
    assert!(indices.iter().all(|i| *i < vertices.len()));
}

#[test]
fn sphere_without_cells() {
    let (vertices, indices) = unit_sphere_geometry(0, &|face, _, _| face);
    assert_eq!(vertices, vec![0, 1, 2, 3, 4, 5]);
    assert!(indices.is_empty());
}
