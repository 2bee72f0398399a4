use fractal_core::window::WindowExtension;

#[test]
fn numpy_shape_is_rows_then_columns() {
    let w = WindowExtension::new(1024, 768);
    assert_eq!(w.get_numpy_shape(), (768, 1024));
    assert_eq!(w.get_numpy_shape_color(), (768, 1024, 3));
    assert_eq!(w.get_amount_of_pixels(), 1024 * 768);
    assert_eq!(w.get_smallest_size(), 768);
}

#[test]
fn from_numpy_extension_swaps_to_width_height() {
    let w = WindowExtension::from_numpy_extension(400, 600);
    assert_eq!(w.get_numpy_shape(), (400, 600));
    assert_eq!(w.get_smallest_size(), 400);
    let tall = WindowExtension::from_numpy_extension(900, 300);
    assert_eq!(tall.get_smallest_size(), 300);
}

#[test]
fn pixel_offsets_are_row_major_around_center() {
    let w = WindowExtension::new(4, 3);
    // row 0
    assert_eq!(w.get_pixel_offset(0), (-2, -1));
    assert_eq!(w.get_pixel_offset(3), (1, -1));
    // center pixel: row 1, column 2
    assert_eq!(w.get_pixel_offset(1 * 4 + 2), (0, 0));
    // last pixel
    assert_eq!(w.get_pixel_offset(11), (1, 1));
}

#[test]
fn pixel_offsets_cover_the_window_once() {
    let w = WindowExtension::new(5, 7);
    let mut seen = std::collections::HashSet::new();
    for i in 0..w.get_amount_of_pixels() {
        let (x, y) = w.get_pixel_offset(i);
        assert!((-2..=2).contains(&x) && (-3..=3).contains(&y));
        assert!(seen.insert((x, y)));
    }
    assert_eq!(seen.len(), 35);
}

#[test]
fn shape_matches_pixel_count() {
    let w = WindowExtension::new(13, 9);
    let (rows, cols) = w.get_numpy_shape();
    assert_eq!((rows * cols) as i32, w.get_amount_of_pixels());
    let (r, c, ch) = w.get_numpy_shape_color();
    assert_eq!(r * c * ch, 3 * w.get_amount_of_pixels() as usize);
}

#[test]
fn pixel_offsets_use_signed_division_toward_zero() {
    let w = WindowExtension::new(4, 3);
    assert_eq!(w.get_pixel_offset(-5), (-5 % 4 - 2, -5 / 4 - 1));
    assert_eq!(w.get_pixel_offset(-5), (-3, -2));
    let flipped = WindowExtension::new(4, -3);
    assert_eq!(flipped.get_pixel_offset(5), (-1, 2));
    let mirrored = WindowExtension::new(-4, 3);
    assert_eq!(mirrored.get_pixel_offset(5), (3, -2));
}
