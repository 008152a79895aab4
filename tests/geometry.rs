use orbital::{subdivided_indices, Geodesic, SubdivisionMethod};

#[test]
fn unsubdivided_faces_have_no_triangles() {
    assert_eq!(subdivided_indices(0, false), Some(vec![]));
}

#[test]
fn one_row_per_face_is_one_triangle_per_face() {
    let idx = subdivided_indices(1, false).unwrap();
    assert_eq!(idx.len(), 60);
    assert_eq!(&idx[0..3], &[1, 0, 2]);
    assert_eq!(&idx[3..6], &[4, 3, 5]);
    assert_eq!(&idx[57..60], &[58, 57, 59]);
}

#[test]
fn two_rows_per_face() {
    let idx = subdivided_indices(2, false).unwrap();
    assert_eq!(idx.len(), 20 * 12);
    assert_eq!(&idx[0..12], &[1, 0, 2, 3, 1, 4, 4, 2, 5, 1, 2, 4]);
    assert_eq!(&idx[12..15], &[7, 6, 8]);
}

#[test]
fn flipped_winding_swaps_last_two_corners() {
    let idx = subdivided_indices(2, true).unwrap();
    assert_eq!(&idx[0..12], &[1, 2, 0, 3, 4, 1, 4, 5, 2, 1, 4, 2]);
}

#[test]
fn largest_subdivision_that_fits_sixteen_bits() {
    let idx = subdivided_indices(79, false).unwrap();
    assert_eq!(idx.len(), 60 * 79 * 79);
    assert_eq!(*idx.iter().max().unwrap() as usize, 20 * 80 * 81 / 2 - 1);
    assert_eq!(subdivided_indices(80, false), None);
    assert_eq!(subdivided_indices(100_000, true), None);
}

#[test]
fn geodesic_uses_forward_winding() {
    let g = Geodesic {
        subdivisions: 3,
        method: SubdivisionMethod::Slerp,
    };
    assert_eq!(g.indices(), subdivided_indices(3, false));
    assert_eq!(g.indices().unwrap().len(), 60 * 9);
}
