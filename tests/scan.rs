use raytracer::scan::{pixel_coords, pixel_index, scan_order};

#[test]
fn scan_order_starts_at_top_left() {
    let order = scan_order(3, 2);
    assert_eq!(order, vec![(0, 1), (1, 1), (2, 1), (0, 0), (1, 0), (2, 0)]);
}

#[test]
fn scan_order_of_empty_image() {
    assert!(scan_order(0, 5).is_empty());
    assert!(scan_order(4, 0).is_empty());
}

#[test]
fn pixel_coords_of_last_pixel_is_bottom_right() {
    assert_eq!(pixel_coords(11, 4, 3), (3, 0));
    assert_eq!(pixel_coords(0, 4, 3), (0, 2));
    assert_eq!(pixel_coords(5, 4, 3), (1, 1));
}

#[test]
fn pixel_index_inverts_pixel_coords() {
    let (w, h) = (7usize, 5usize);
    for k in 0..w * h {
        let (i, j) = pixel_coords(k, w, h);
        assert_eq!(pixel_index(i, j, w, h), k);
    }
    assert_eq!(pixel_index(0, 4, w, h), 0);
    assert_eq!(pixel_index(6, 0, w, h), 34);
}
