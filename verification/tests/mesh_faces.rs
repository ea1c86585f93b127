use lightly_rusted::mesh::triangle_indices;

#[test]
fn groups_indices_in_triples() {
    let t = triangle_indices(&vec![0, 1, 2, 2, 3, 0], 4);
    assert_eq!(t, vec![(0, 1, 2), (2, 3, 0)]);
}

#[test]
fn trailing_indices_ignored() {
    let t = triangle_indices(&vec![0, 1, 2, 1, 2], 3);
    assert_eq!(t, vec![(0, 1, 2)]);
}

#[test]
fn no_indices_no_triangles() {
    assert!(triangle_indices(&vec![], 0).is_empty());
}
