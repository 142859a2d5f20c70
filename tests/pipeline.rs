use image_converter::grid::PixelGrid;
use image_converter::pipeline::{
    blend_grids, blend_images, clip_image, convert_to_grayscale, decode_payload, encode_payload,
    invert_colors, pixelate_image, resize, resize_image, rotate_image, ProcessError,
};
use image_converter::transform::{rotate180, Ratio};

fn grid(width: u32, height: u32) -> PixelGrid {
    let mut pixels = Vec::new();
    for k in 0..(width * height * 4) {
        pixels.push(((k * 53 + 7) % 256) as u8);
    }
    PixelGrid::from_raw(width, height, pixels).unwrap()
}

fn payload(g: &PixelGrid) -> String {
    encode_payload(g).unwrap()
}

#[test]
fn payload_round_trip() {
    let g = grid(4, 3);
    let text = payload(&g);
    assert!(text.starts_with("iVBORw0KGgo"));
    assert_eq!(text.len() % 4, 0);
    let back = decode_payload(&text).unwrap();
    assert_eq!((back.width, back.height), (4, 3));
    assert_eq!(back.pixels, g.pixels);
}

#[test]
fn malformed_payload_is_reported_by_every_entry() {
    let bad = "not base64 !!";
    let r = Ratio { num: 1, den: 2 };
    assert_eq!(convert_to_grayscale(bad), Err(ProcessError::Base64Decode));
    assert_eq!(resize_image(bad, 2, 2), Err(ProcessError::Base64Decode));
    assert_eq!(rotate_image(bad), Err(ProcessError::Base64Decode));
    assert_eq!(clip_image(bad, 0, 0, 1, 1), Err(ProcessError::Base64Decode));
    assert_eq!(invert_colors(bad), Err(ProcessError::Base64Decode));
    assert_eq!(pixelate_image(bad, 2), Err(ProcessError::Base64Decode));
    assert_eq!(blend_images(bad, bad, &r), Err(ProcessError::Base64Decode));
}

#[test]
fn malformed_payload_wins_over_bad_parameters() {
    let bad = "not base64 !!";
    assert_eq!(resize_image(bad, 0, 3), Err(ProcessError::Base64Decode));
    assert_eq!(pixelate_image(bad, 0), Err(ProcessError::Base64Decode));
    assert_eq!(blend_images(bad, bad, &Ratio { num: 1, den: 0 }), Err(ProcessError::Base64Decode));
    let text = "aGVsbG8gd29ybGQ=";
    assert_eq!(resize_image(text, 0, 0), Err(ProcessError::ImageLoad));
    assert_eq!(pixelate_image(text, 0), Err(ProcessError::ImageLoad));
}

#[test]
fn blend_names_the_failing_payload() {
    let good = payload(&grid(2, 2));
    let bad = "not base64 !!";
    let text = "aGVsbG8gd29ybGQ=";
    let r = Ratio { num: 1, den: 2 };
    assert_eq!(blend_images(&good, bad, &r), Err(ProcessError::Base64DecodeSecond));
    // both texts are decoded before either image is read
    assert_eq!(blend_images(text, bad, &r), Err(ProcessError::Base64DecodeSecond));
    assert_eq!(blend_images(text, &good, &r), Err(ProcessError::ImageLoad));
    assert_eq!(blend_images(&good, text, &r), Err(ProcessError::ImageLoadSecond));
    assert_eq!(blend_images(text, text, &Ratio { num: 1, den: 0 }), Err(ProcessError::ImageLoad));
}

#[test]
fn undecodable_image_is_reported() {
    // valid base64 of bytes that are no image
    let text = "aGVsbG8gd29ybGQ=";
    assert_eq!(rotate_image(text), Err(ProcessError::ImageLoad));
    assert_eq!(decode_payload(text).err(), Some(ProcessError::ImageLoad));
    let good = payload(&grid(2, 2));
    assert_eq!(blend_images(&good, text, &Ratio { num: 1, den: 2 }), Err(ProcessError::ImageLoadSecond));
}

#[test]
fn zero_parameters_are_refused() {
    let good = payload(&grid(2, 2));
    assert_eq!(resize_image(&good, 0, 3), Err(ProcessError::InvalidParameter));
    assert_eq!(pixelate_image(&good, 0), Err(ProcessError::InvalidParameter));
    assert_eq!(blend_images(&good, &good, &Ratio { num: 1, den: 0 }), Err(ProcessError::InvalidParameter));
}

#[test]
fn rotate_entry_rotates() {
    let g = grid(3, 2);
    let out = decode_payload(&rotate_image(&payload(&g)).unwrap()).unwrap();
    assert_eq!(out.pixels, rotate180(&g).pixels);
}

#[test]
fn clip_entry_crops() {
    let g = grid(4, 4);
    let out = decode_payload(&clip_image(&payload(&g), 1, 1, 2, 5).unwrap()).unwrap();
    assert_eq!((out.width, out.height), (2, 3));
    assert_eq!(out.get(0, 0, 0), g.get(1, 1, 0));
}

#[test]
fn invert_entry_inverts() {
    let g = PixelGrid::from_raw(1, 1, vec![1, 2, 3, 200]).unwrap();
    let out = decode_payload(&invert_colors(&payload(&g)).unwrap()).unwrap();
    assert_eq!(out.pixels, vec![254, 253, 252, 200]);
}

#[test]
fn pixelate_entry_averages() {
    let g = PixelGrid::from_raw(2, 1, vec![0, 0, 0, 255, 100, 50, 20, 255]).unwrap();
    let out = decode_payload(&pixelate_image(&payload(&g), 2).unwrap()).unwrap();
    assert_eq!(out.pixels, vec![50, 25, 10, 255, 50, 25, 10, 255]);
}

#[test]
fn grayscale_entry_gives_gray() {
    let g = PixelGrid::from_raw(2, 1, vec![255, 0, 0, 255, 255, 255, 255, 255]).unwrap();
    let out = decode_payload(&convert_to_grayscale(&payload(&g)).unwrap()).unwrap();
    assert_eq!((out.width, out.height), (2, 1));
    // luma of pure red: 2126 * 255 / 10000 = 54; of white: 255
    assert_eq!([out.get(0, 0, 0), out.get(0, 0, 1), out.get(0, 0, 2), out.get(0, 0, 3)], [54, 54, 54, 255]);
    assert_eq!([out.get(1, 0, 0), out.get(1, 0, 1), out.get(1, 0, 2)], [255, 255, 255]);
}

#[test]
fn resize_same_size_is_identity() {
    let g = grid(5, 4);
    let r = resize(&g, 5, 4).unwrap();
    assert_eq!(r.pixels, g.pixels);
}

#[test]
fn resize_changes_size() {
    let g = grid(5, 4);
    let r = resize(&g, 10, 2).unwrap();
    assert_eq!((r.width, r.height), (10, 2));
    assert_eq!(r.pixels.len(), 80);
    assert!(resize(&g, 0, 2).is_none());
    let out = decode_payload(&resize_image(&payload(&g), 3, 7).unwrap()).unwrap();
    assert_eq!((out.width, out.height), (3, 7));
}

#[test]
fn resize_uniform_stays_uniform() {
    let g = PixelGrid::from_raw(4, 4, [10u8, 20, 30, 255].repeat(16)).unwrap();
    let r = resize(&g, 8, 8).unwrap();
    let mut diff: u64 = 0;
    for k in 0..r.pixels.len() {
        diff += (r.pixels[k] as i64 - [10i64, 20, 30, 255][k % 4]).unsigned_abs();
    }
    assert!(diff as f64 / r.pixels.len() as f64 <= 1.0);
}

#[test]
fn blend_resizes_second_image() {
    let a = grid(4, 4);
    let b = grid(2, 2);
    let zero = Ratio { num: 0, den: 1 };
    let r = blend_grids(&a, &b, &zero).unwrap();
    assert_eq!((r.width, r.height), (4, 4));
    assert_eq!(r.pixels, resize(&b, 4, 4).unwrap().pixels);
    let one = Ratio { num: 5, den: 5 };
    assert_eq!(blend_grids(&a, &b, &one).unwrap().pixels, a.pixels);
    let out = decode_payload(&blend_images(&payload(&a), &payload(&a), &Ratio { num: 3, den: 10 }).unwrap()).unwrap();
    assert_eq!(out.pixels, a.pixels);
}

#[test]
fn empty_result_cannot_be_encoded() {
    let g = grid(3, 3);
    assert_eq!(clip_image(&payload(&g), 5, 0, 2, 2), Err(ProcessError::ImageEncode));
    assert_eq!(encode_payload(&PixelGrid::empty(0, 0)), Err(ProcessError::ImageEncode));
}

#[test]
fn blend_with_empty_first_image() {
    let a = PixelGrid::empty(0, 3);
    let b = grid(2, 2);
    let r = blend_grids(&a, &b, &Ratio { num: 1, den: 2 }).unwrap();
    assert_eq!((r.width, r.height), (0, 3));
    assert!(r.pixels.is_empty());
}

#[test]
fn blend_with_empty_second_image_is_refused() {
    let a = grid(2, 2);
    let b = PixelGrid::empty(0, 0);
    assert!(blend_grids(&a, &b, &Ratio { num: 1, den: 2 }).is_none());
}
