use pathrs_renderer::geometry::quad_corners;

#[test]
fn quad_splits_along_diagonal() {
    let r = quad_corners([0, 0], [1, 0], [0, 1], [1, 1]);
    assert_eq!(r, [[[0, 0], [1, 0], [0, 1]], [[1, 0], [1, 1], [0, 1]]]);
}
