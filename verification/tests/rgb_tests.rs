use cvr::rgb::{make_iter, make_iter_mut, make_iter_mut_indexed, Image};

#[test]
fn make_iter_zips_channels() {
    let r = [1u8, 2, 3];
    let g = [4u8, 5, 6];
    let b = [7u8, 8, 9];
    let pixels = make_iter(&r, &g, &b);
    assert_eq!(pixels, vec![[1, 4, 7], [2, 5, 8], [3, 6, 9]]);
}

#[test]
fn make_iter_stops_at_shortest_channel() {
    let r = [1u16, 2, 3];
    let g = [4u16, 5];
    let b = [7u16, 8, 9, 10];
    assert_eq!(make_iter(&r, &g, &b), vec![[1, 4, 7], [2, 5, 8]]);
    assert_eq!(make_iter(&g, &b, &r), vec![[4, 7, 1], [5, 8, 2]]);
    assert_eq!(make_iter(&b, &r, &g), vec![[7, 1, 4], [8, 2, 5]]);
}

#[test]
fn make_iter_empty_channel_gives_no_pixels() {
    let r: [i32; 0] = [];
    let g = [1i32, 2];
    let b = [3i32, 4];
    assert!(make_iter(&r, &g, &b).is_empty());
}

#[test]
fn make_iter_row_major_order() {
    // a 3 x 2 image: pixel (x, y) sits at index y * 3 + x
    let r = [10u8, 11, 12, 13, 14, 15];
    let g = [20u8, 21, 22, 23, 24, 25];
    let b = [30u8, 31, 32, 33, 34, 35];
    let pixels = make_iter(&r, &g, &b);
    assert_eq!(pixels.len(), 6);
    let (x, y) = (2usize, 1usize);
    assert_eq!(pixels[y * 3 + x], [15, 25, 35]);
}

#[test]
fn make_iter_mut_applies_map_in_place() {
    let mut r = [1u8, 2, 3];
    let mut g = [4u8, 5, 6];
    let mut b = [7u8, 8, 9];
    make_iter_mut(&mut r, &mut g, &mut b, |[x, y, z]: [u8; 3]| [z, x, y]);
    assert_eq!(r, [7, 8, 9]);
    assert_eq!(g, [1, 2, 3]);
    assert_eq!(b, [4, 5, 6]);
}

#[test]
fn make_iter_mut_leaves_tail_untouched() {
    let mut r = [1u8, 2, 3];
    let mut g = [4u8];
    let mut b = [7u8, 8];
    make_iter_mut(&mut r, &mut g, &mut b, |[x, y, z]: [u8; 3]| [x + 100, y + 100, z + 100]);
    assert_eq!(r, [101, 2, 3]);
    assert_eq!(g, [104]);
    assert_eq!(b, [107, 8]);
}

#[test]
fn make_iter_mut_identity_keeps_pixels() {
    let mut r = [1i64, -2];
    let mut g = [3i64, -4];
    let mut b = [5i64, -6];
    make_iter_mut(&mut r, &mut g, &mut b, |p: [i64; 3]| p);
    assert_eq!(make_iter(&r, &g, &b), vec![[1, 3, 5], [-2, -4, -6]]);
}

#[test]
fn make_iter_after_make_iter_mut_reads_back_the_map() {
    let mut r = [1u32, 2];
    let mut g = [3u32, 4];
    let mut b = [5u32, 6];
    make_iter_mut(&mut r, &mut g, &mut b, |[x, y, z]: [u32; 3]| [x * 2, y * 2, z * 2]);
    assert_eq!(make_iter(&r, &g, &b), vec![[2, 6, 10], [4, 8, 12]]);
}

#[test]
fn new_image_is_empty() {
    let img: Image<u8> = Image::new();
    assert_eq!(img.width(), 0);
    assert_eq!(img.height(), 0);
    assert_eq!(img.total(), 0);
    assert!(img.r().is_empty());
    assert!(img.g().is_empty());
    assert!(img.b().is_empty());
    assert!(img.rgb_iter().is_empty());
}

#[test]
fn new_image_pixel_count_is_total() {
    let img: Image<i16> = Image::new();
    assert_eq!(img.rgb_iter().len(), img.total());
    assert_eq!(img.total(), img.width() * img.height());
}

#[test]
fn rgb_iter_mut_on_empty_image_changes_nothing() {
    let mut img: Image<u16> = Image::new();
    img.rgb_iter_mut(|[x, y, z]: [u16; 3]| [z, y, x]);
    assert_eq!(img.width(), 0);
    assert_eq!(img.height(), 0);
    assert!(img.rgb_iter().is_empty());
}

#[test]
fn default_image_matches_new() {
    let img: Image<u32> = Image::default();
    assert_eq!(img.width(), 0);
    assert_eq!(img.height(), 0);
    assert_eq!(img.total(), 0);
    assert!(img.rgb_iter().is_empty());
}

#[test]
fn make_iter_mut_indexed_rewrites_one_pixel_among_equal_ones() {
    let mut r = [1u8, 1, 1];
    let mut g = [2u8, 2, 2];
    let mut b = [3u8, 3, 3];
    make_iter_mut_indexed(&mut r, &mut g, &mut b, |k: usize, px: [u8; 3]| {
        if k == 1 {
            [9, 8, 7]
        } else {
            px
        }
    });
    assert_eq!(r, [1, 9, 1]);
    assert_eq!(g, [2, 8, 2]);
    assert_eq!(b, [3, 7, 3]);
}

#[test]
fn make_iter_mut_indexed_passes_positions_in_row_major_order() {
    let mut r = [0u32; 4];
    let mut g = [0u32; 4];
    let mut b = [0u32; 5];
    make_iter_mut_indexed(&mut r, &mut g, &mut b, |k: usize, [x, y, z]: [u32; 3]| {
        [x + k as u32, y + 10 * k as u32, z + 100 * k as u32]
    });
    assert_eq!(r, [0, 1, 2, 3]);
    assert_eq!(g, [0, 10, 20, 30]);
    assert_eq!(b, [0, 100, 200, 300, 0]);
}

#[test]
fn rgb_iter_mut_indexed_on_empty_image_changes_nothing() {
    let mut img: Image<u8> = Image::new();
    img.rgb_iter_mut_indexed(|_k: usize, [x, y, z]: [u8; 3]| [z, y, x]);
    assert_eq!(img.total(), 0);
    assert!(img.rgb_iter().is_empty());
}
