use skeletal_animation::mesh::{Mesh, Shape, SingleShapeMesh};

#[test]
fn shapes_know_their_kind() {
    assert!(Shape::Triangle(0, 1, 2).is_triangle());
    assert!(!Shape::Triangle(0, 1, 2).is_line());
    assert!(!Shape::Triangle(0, 1, 2).is_point());
    assert!(Shape::Line(0, 1).is_line());
    assert!(!Shape::Line(0, 1).is_triangle());
    assert!(Shape::Point(4).is_point());
    assert!(!Shape::Point(4).is_line());
}

#[test]
fn flatten_keeps_corner_order() {
    let mesh = Mesh::new(
        vec![10u32, 11, 12, 13],
        vec![Shape::Triangle(0, 1, 2), Shape::Line(2, 3), Shape::Point(1)],
    );
    assert_eq!(mesh.flatten_indices(), vec![0, 1, 2, 2, 3, 1]);
    assert!(!mesh.only_triangles());
}

#[test]
fn a_mesh_without_shapes_is_all_triangles() {
    let mesh: Mesh<u8> = Mesh::new(vec![1, 2], vec![]);
    assert!(mesh.only_triangles());
    assert!(mesh.flatten_indices().is_empty());
    let triangles = mesh.get_triangles();
    assert_eq!(triangles.vertices, vec![1, 2]);
    assert!(triangles.indices.is_empty());
}

#[test]
fn triangles_of_a_triangle_mesh_are_handed_over() {
    let mesh = Mesh::new(
        vec!['a', 'b', 'c', 'd'],
        vec![Shape::Triangle(3, 1, 0), Shape::Triangle(1, 2, 3)],
    );
    assert!(mesh.only_triangles());
    let triangles = mesh.get_triangles();
    assert_eq!(triangles.vertices, vec!['a', 'b', 'c', 'd']);
    assert_eq!(triangles.indices, vec![3, 1, 0, 1, 2, 3]);
}

#[test]
fn triangles_of_a_mixed_mesh_are_renumbered_by_first_use() {
    let mesh = Mesh::new(
        vec!['a', 'b', 'c', 'd', 'e', 'f'],
        vec![
            Shape::Line(0, 1),
            Shape::Triangle(5, 3, 5),
            Shape::Point(2),
            Shape::Triangle(3, 4, 1),
        ],
    );
    let triangles = mesh.get_triangles();
    // Corners 5, 3, 4, 1 in order of first use become 0, 1, 2, 3.
    assert_eq!(triangles.indices, vec![0, 1, 0, 1, 2, 3]);
    // One leading vertex of the mesh for each distinct corner.
    assert_eq!(triangles.vertices, vec!['a', 'b', 'c', 'd']);
}

#[test]
fn lines_are_renumbered_by_first_use() {
    let mesh = Mesh::new(
        vec![7u8, 8, 9],
        vec![Shape::Line(2, 0), Shape::Triangle(0, 1, 2), Shape::Line(0, 2)],
    );
    let lines = mesh.get_lines();
    assert_eq!(lines.indices, vec![0, 1, 1, 0]);
    assert_eq!(lines.vertices, vec![7, 8]);

    let none: SingleShapeMesh<u8> = Mesh::new(vec![7u8], vec![Shape::Point(0)]).get_lines();
    assert!(none.indices.is_empty());
    assert!(none.vertices.is_empty());
}

#[test]
fn a_mesh_can_be_asked_whether_it_has_the_vertices_needed() {
    let shapes = vec![Shape::Line(7, 8), Shape::Triangle(9, 9, 4), Shape::Point(1), Shape::Line(8, 7)];
    let two = Mesh::new(vec![0u8, 1], shapes.clone());
    assert!(two.can_get_triangles());
    assert!(two.can_get_lines());
    let one = Mesh::new(vec![0u8], shapes);
    assert!(!one.can_get_triangles());
    assert!(!one.can_get_lines());
    // A mesh of triangles only is handed over whatever its corners name.
    let bare: Mesh<u8> = Mesh::new(vec![], vec![Shape::Triangle(5, 6, 7)]);
    assert!(bare.can_get_triangles());
    assert!(bare.can_get_lines());
    assert_eq!(bare.get_triangles().indices, vec![5, 6, 7]);
}

#[test]
fn single_shape_mesh_keeps_what_it_is_given() {
    let mesh = SingleShapeMesh::new(vec![1.5f32, 2.5], vec![1, 0, 1]);
    assert_eq!(mesh.vertices, vec![1.5, 2.5]);
    assert_eq!(mesh.indices, vec![1, 0, 1]);
}
