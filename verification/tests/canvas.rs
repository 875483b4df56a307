use htipc::canvas::{fill, get_pixel, lattice, mmf_copy_to, set_pixel};
use htipc::memorymappedfile::MmfError;

/// A region with the short header `(size, width, height)` and `len` bytes in all.
fn region(size: i32, width: i32, height: i32, len: usize) -> Vec<u8> {
    let mut view = vec![0u8; len];
    htipc::memorymappedfile::write::<i32>(&mut view, 0, size).unwrap();
    htipc::memorymappedfile::write::<i32>(&mut view, 4, width).unwrap();
    htipc::memorymappedfile::write::<i32>(&mut view, 8, height).unwrap();
    view
}

#[test]
fn memorymappedfile_it_works_mmf() {
    let mut view = region(320 * 240, 320, 240, 32 + 320 * 240);
    for i in 0..(320 * 240) {
        set_pixel(&mut view, i, 200u8).unwrap();
    }
    assert!(view[32..].iter().all(|b| *b == 200));
    assert_eq!(set_pixel(&mut view, 320 * 240, 1), Err(MmfError::OutOfBounds));
}

#[test]
fn fill_sets_exactly_size_pixels() {
    let mut view = region(5, 0, 0, 40);
    fill(&mut view, 9).unwrap();
    assert_eq!(&view[32..37], &[9, 9, 9, 9, 9]);
    assert_eq!(&view[37..], &[0, 0, 0]);
    assert_eq!(&view[12..32], &[0u8; 20]);

    let mut too_big = region(9, 0, 0, 40);
    assert_eq!(fill(&mut too_big, 1), Err(MmfError::OutOfBounds));
    let mut negative = region(-1, 0, 0, 40);
    assert_eq!(fill(&mut negative, 1), Err(MmfError::OutOfBounds));
    assert_eq!(negative, region(-1, 0, 0, 40));
}

#[test]
fn copy_takes_the_leading_bytes() {
    let mut view = region(3, 0, 0, 36);
    mmf_copy_to(&mut view, &[1, 2, 3, 4, 5]).unwrap();
    assert_eq!(&view[32..], &[1, 2, 3, 0]);
}

#[test]
fn lattice_alternates_ten_pixel_tiles() {
    let (w, h) = (25usize, 21usize);
    let mut view = region(0, w as i32, h as i32, 32 + w * h + 3);
    lattice(&mut view).unwrap();
    for y in 0..h {
        for x in 0..w {
            let expected = if (x / 10) % 2 == (y / 10) % 2 { 215 } else { 40 };
            assert_eq!(view[32 + x + y * w], expected, "pixel ({}, {})", x, y);
        }
    }
    assert_eq!(view[32 + 9], 215);
    assert_eq!(view[32 + 10], 40);
    assert_eq!(view[32 + 10 * w], 40);
    assert_eq!(view[32 + 10 + 10 * w], 215);
    assert_eq!(&view[32 + w * h..], &[0, 0, 0]);

    let mut small = region(0, 10, 10, 32 + 99);
    assert_eq!(lattice(&mut small), Err(MmfError::OutOfBounds));
    let mut neg = region(0, -3, 2, 64);
    assert_eq!(lattice(&mut neg), Err(MmfError::OutOfBounds));
}

#[test]
fn raw_pixel_reads_count_from_the_region_start() {
    let mut view = region(4, 2, 2, 36);
    set_pixel(&mut view, 1, 66).unwrap();
    assert_eq!(get_pixel(&view, 33).unwrap(), 66);
    assert_eq!(get_pixel(&view, 0).unwrap(), 4);
    assert_eq!(get_pixel(&view, 36), Err(MmfError::OutOfBounds));
}

#[test]
fn empty_grids_draw_nothing() {
    let mut no_rows = region(0, -3, 0, 12);
    assert_eq!(lattice(&mut no_rows), Ok(()));
    assert_eq!(no_rows, region(0, -3, 0, 12));
    let mut no_columns = region(0, 0, 5, 20);
    assert_eq!(lattice(&mut no_columns), Ok(()));
    assert_eq!(no_columns, region(0, 0, 5, 20));
    let mut no_pixels = region(0, 0, 0, 16);
    assert_eq!(fill(&mut no_pixels, 9), Ok(()));
    assert_eq!(mmf_copy_to(&mut no_pixels, &[]), Ok(()));
    assert_eq!(no_pixels, region(0, 0, 0, 16));
    let mut no_state = vec![0u8; 11];
    assert_eq!(lattice(&mut no_state), Err(MmfError::OutOfBounds));
}
