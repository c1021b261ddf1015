use mandelbrot::raster::{Raster, BLACK};

#[test]
fn new_raster_is_black() {
    let raster = Raster::new(3, 2);
    assert_eq!(raster.width(), 3);
    assert_eq!(raster.height(), 2);
    for x in 0..3 {
        for y in 0..2 {
            assert_eq!(raster.get(x, y), Some((0, 0, 0)));
        }
    }
}

#[test]
fn black_is_all_zero() {
    assert_eq!(BLACK, (0, 0, 0));
}

#[test]
fn get_outside_the_raster_is_none() {
    let raster = Raster::new(3, 2);
    assert_eq!(raster.get(3, 0), None);
    assert_eq!(raster.get(0, 2), None);
    assert_eq!(raster.get(2, 1), Some(BLACK));
    assert_eq!(raster.get(u32::MAX, u32::MAX), None);
}

#[test]
fn empty_raster_has_no_pixels() {
    let raster = Raster::new(0, 5);
    assert_eq!(raster.width(), 0);
    assert_eq!(raster.height(), 5);
    assert_eq!(raster.get(0, 0), None);
    assert_eq!(raster.into_bytes(), Vec::<u8>::new());
}

#[test]
fn set_changes_one_pixel_only() {
    let mut raster = Raster::new(3, 2);
    raster.set(1, 1, (10, 20, 30));
    assert_eq!(raster.width(), 3);
    assert_eq!(raster.height(), 2);
    for x in 0..3 {
        for y in 0..2 {
            let expected = if (x, y) == (1, 1) { (10, 20, 30) } else { BLACK };
            assert_eq!(raster.get(x, y), Some(expected));
        }
    }
}

#[test]
fn set_overwrites_an_earlier_colour() {
    let mut raster = Raster::new(2, 2);
    raster.set(0, 1, (1, 2, 3));
    raster.set(0, 1, (4, 5, 6));
    assert_eq!(raster.get(0, 1), Some((4, 5, 6)));
}

#[test]
fn place_column_writes_each_row_of_the_column() {
    let mut raster = Raster::new(3, 4);
    let colors = vec![(1, 1, 1), (2, 2, 2), (3, 3, 3), (4, 4, 4)];
    raster.place_column(2, &colors);
    for y in 0..4u32 {
        assert_eq!(raster.get(0, y), Some(BLACK));
        assert_eq!(raster.get(1, y), Some(BLACK));
        assert_eq!(raster.get(2, y), Some(colors[y as usize]));
    }
}

#[test]
fn columns_may_be_placed_in_any_order() {
    let columns = vec![
        vec![(1, 0, 0), (2, 0, 0)],
        vec![(0, 3, 0), (0, 4, 0)],
        vec![(0, 0, 5), (0, 0, 6)],
    ];
    let mut forward = Raster::new(3, 2);
    for x in [0u32, 1, 2] {
        forward.place_column(x, &columns[x as usize]);
    }
    let mut shuffled = Raster::new(3, 2);
    for x in [2u32, 0, 1, 2] {
        shuffled.place_column(x, &columns[x as usize]);
    }
    assert_eq!(forward.into_bytes(), shuffled.into_bytes());
}

#[test]
fn bytes_are_row_major_with_three_channels() {
    let mut raster = Raster::new(2, 2);
    raster.set(0, 0, (1, 2, 3));
    raster.set(1, 0, (4, 5, 6));
    raster.set(0, 1, (7, 8, 9));
    raster.set(1, 1, (10, 11, 12));
    assert_eq!(raster.into_bytes(), vec![1, 2, 3, 4, 5, 6, 7, 8, 9, 10, 11, 12]);
}

#[test]
fn bytes_of_wide_raster_follow_rows() {
    let mut raster = Raster::new(3, 1);
    raster.set(2, 0, (9, 8, 7));
    assert_eq!(raster.into_bytes(), vec![0, 0, 0, 0, 0, 0, 9, 8, 7]);
}

#[test]
fn bytes_can_be_read_as_an_image() {
    let mut raster = Raster::new(2, 3);
    raster.set(1, 2, (50, 60, 70));
    let img = image::RgbImage::from_raw(2, 3, raster.into_bytes()).unwrap();
    assert_eq!(img.get_pixel(1, 2).0, [50, 60, 70]);
    assert_eq!(img.get_pixel(0, 0).0, [0, 0, 0]);
}

#[test]
fn fits_small_rasters() {
    assert!(Raster::fits(0, 0));
    assert!(Raster::fits(1000, 1000));
    assert!(Raster::fits(u32::MAX, 0));
    assert!(Raster::fits(0, u32::MAX));
}

#[test]
fn fits_is_decided_by_the_byte_count() {
    let limit = isize::MAX as u128;
    for (w, h) in [(u32::MAX, u32::MAX), (u32::MAX, 1), (1 << 31, 1 << 31), (1 << 20, 1 << 10)] {
        assert_eq!(Raster::fits(w, h), 3 * (w as u128) * (h as u128) <= limit);
    }
}
