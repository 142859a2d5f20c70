use image_converter::grid::PixelGrid;
use image_converter::mosaic::pixelate;
use image_converter::smoother::process_frequency_data;
use image_converter::transform::{blend, crop, invert, rotate180, Ratio};

fn grid(width: u32, height: u32) -> PixelGrid {
    let mut pixels = Vec::new();
    for k in 0..(width * height * 4) {
        pixels.push(((k * 37 + 11) % 256) as u8);
    }
    PixelGrid::from_raw(width, height, pixels).unwrap()
}

fn cell(g: &PixelGrid, x: u32, y: u32) -> [u8; 4] {
    [g.get(x, y, 0), g.get(x, y, 1), g.get(x, y, 2), g.get(x, y, 3)]
}

#[test]
fn rotate_maps_cells_to_opposite_corner() {
    let g = grid(3, 2);
    let r = rotate180(&g);
    assert_eq!((r.width, r.height), (3, 2));
    for y in 0..2 {
        for x in 0..3 {
            assert_eq!(cell(&r, x, y), cell(&g, 2 - x, 1 - y));
        }
    }
}

#[test]
fn rotate_twice_is_identity() {
    let g = grid(5, 3);
    let r = rotate180(&rotate180(&g));
    assert_eq!(r.pixels, g.pixels);
    assert_eq!((r.width, r.height), (5, 3));
}

#[test]
fn rotate_empty_grid() {
    let g = PixelGrid::empty(0, 4);
    let r = rotate180(&g);
    assert_eq!((r.width, r.height), (0, 4));
    assert!(r.pixels.is_empty());
}

#[test]
fn invert_keeps_alpha() {
    let g = PixelGrid::from_raw(1, 1, vec![10, 200, 0, 77]).unwrap();
    let r = invert(&g);
    assert_eq!(r.pixels, vec![245, 55, 255, 77]);
}

#[test]
fn invert_twice_is_identity() {
    let g = grid(4, 4);
    assert_eq!(invert(&invert(&g)).pixels, g.pixels);
}

#[test]
fn crop_inside_bounds() {
    let g = grid(5, 4);
    let r = crop(&g, 1, 2, 3, 2);
    assert_eq!((r.width, r.height), (3, 2));
    for j in 0..2 {
        for i in 0..3 {
            assert_eq!(cell(&r, i, j), cell(&g, 1 + i, 2 + j));
        }
    }
}

#[test]
fn crop_partly_outside_is_clamped() {
    let g = grid(5, 4);
    let r = crop(&g, 3, 1, 10, 10);
    assert_eq!((r.width, r.height), (2, 3));
    assert_eq!(cell(&r, 1, 2), cell(&g, 4, 3));
}

#[test]
fn crop_origin_outside_is_empty() {
    let g = grid(5, 4);
    let r = crop(&g, 7, 0, 3, 3);
    assert_eq!(r.width, 0);
    assert!(r.pixels.is_empty());
    let r = crop(&g, 0, 4, 3, 3);
    assert_eq!(r.height, 0);
    assert!(r.pixels.is_empty());
}

#[test]
fn pixelate_unit_block_is_identity() {
    let g = grid(4, 3);
    assert_eq!(pixelate(&g, 1).pixels, g.pixels);
}

#[test]
fn pixelate_large_block_gives_mean() {
    let g = PixelGrid::from_raw(2, 2, vec![
        0, 10, 100, 255, 10, 20, 100, 255,
        20, 30, 101, 255, 30, 41, 102, 0,
    ]).unwrap();
    let r = pixelate(&g, 5);
    for y in 0..2 {
        for x in 0..2 {
            // 60 / 4, 101 / 4, 403 / 4, 765 / 4, rounded down
            assert_eq!(cell(&r, x, y), [15, 25, 100, 191]);
        }
    }
}

#[test]
fn pixelate_clips_edge_blocks() {
    // one row of three cells, blocks of two: {0, 1} and {2}
    let g = PixelGrid::from_raw(3, 1, vec![
        10, 0, 0, 0, 21, 0, 0, 0, 50, 0, 0, 0,
    ]).unwrap();
    let r = pixelate(&g, 2);
    assert_eq!(r.pixels, vec![15, 0, 0, 0, 15, 0, 0, 0, 50, 0, 0, 0]);
}

#[test]
fn blend_ratio_ends_and_self() {
    let a = grid(3, 3);
    let b = invert(&a);
    let one = Ratio { num: 1, den: 1 };
    let zero = Ratio { num: 0, den: 1 };
    let third = Ratio { num: 1, den: 3 };
    assert_eq!(blend(&a, &b, &one).pixels, a.pixels);
    assert_eq!(blend(&a, &b, &zero).pixels, b.pixels);
    assert_eq!(blend(&a, &a, &third).pixels, a.pixels);
}

#[test]
fn blend_rounds_and_saturates() {
    let a = PixelGrid::from_raw(1, 1, vec![100, 0, 255, 3]).unwrap();
    let b = PixelGrid::from_raw(1, 1, vec![0, 100, 0, 0]).unwrap();
    let half = Ratio { num: 1, den: 2 };
    assert_eq!(blend(&a, &b, &half).pixels, vec![50, 50, 128, 2]);
    let double = Ratio { num: 2, den: 1 };
    // 2a - b: 200, -100, 510, 6
    assert_eq!(blend(&a, &b, &double).pixels, vec![200, 0, 255, 6]);
}

#[test]
fn smoother_empty() {
    assert!(process_frequency_data(&[]).is_empty());
}

#[test]
fn smoother_uniform_input() {
    assert_eq!(process_frequency_data(&[100, 100, 100, 100, 100]), vec![100, 100, 120, 120, 100]);
}

#[test]
fn smoother_weights_and_cap() {
    // index 1 (1/4 = 0.25, in the band): (0 + 2*200 + 100) / 4 * 1.2 = 150
    // index 2 (2/4 = 0.5): (200 + 2*100 + 250) / 4 * 1.2 = 195
    // index 3 (3/4 = 0.75, an end, in the band): 250 * 1.2 = 300, capped at 255
    assert_eq!(process_frequency_data(&[0, 200, 100, 250]), vec![0, 150, 195, 255]);
    // index 3 (0.6): 250 / 4 * 1.2 = 75; index 4 (0.8) is outside the band: 250 unchanged
    assert_eq!(process_frequency_data(&[0, 0, 0, 0, 250]), vec![0, 0, 0, 75, 250]);
    // 255 * 1.2 is capped at 255
    assert_eq!(process_frequency_data(&[255, 255, 255]), vec![255, 255, 255]);
}
