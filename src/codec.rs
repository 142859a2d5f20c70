//! Calls into the base64 and image crates: text and byte encodings, decoding
//! to RGBA, resampling and luma conversion, with what they compute.
use vstd::prelude::*;
use base64::Engine;

verus! {

/// What the standard base64 alphabet (with padding) decodes `s` to, if it is valid.
pub uninterp spec fn base64_decoded(s: Seq<char>) -> Option<Seq<u8>>;

/// Digit `v` (`0 <= v < 64`) of the standard base64 alphabet:
/// `A-Z`, `a-z`, `0-9`, `+`, `/`.
pub open spec fn base64_digit(v: int) -> char {
    if v < 26 {
        ((65 + v) as u32) as char
    } else if v < 52 {
        ((97 + v - 26) as u32) as char
    } else if v < 62 {
        ((48 + v - 52) as u32) as char
    } else if v == 62 {
        '+'
    } else {
        '/'
    }
}

/// The standard base64 text of `b`, padded with `=`: each group of three
/// bytes gives four digits of six bits each, most significant first.
pub open spec fn base64_text(b: Seq<u8>) -> Seq<char>
    decreases b.len(),
{
    if b.len() == 0 {
        Seq::empty()
    } else {
        let x = b[0] as int;
        let y = if b.len() > 1 { b[1] as int } else { 0 };
        let z = if b.len() > 2 { b[2] as int } else { 0 };
        let d0 = base64_digit(x / 4);
        let d1 = base64_digit((x % 4) * 16 + y / 16);
        let d2 = base64_digit((y % 16) * 4 + z / 64);
        let d3 = base64_digit(z % 64);
        if b.len() == 1 {
            seq![d0, d1, '=', '=']
        } else if b.len() == 2 {
            seq![d0, d1, d2, '=']
        } else {
            seq![d0, d1, d2, d3] + base64_text(b.subrange(3, b.len() as int))
        }
    }
}

/// Width, height and RGBA bytes of the image encoded in `bytes`, if the image
/// crate can read it.
pub uninterp spec fn decoded_image(bytes: Seq<u8>) -> Option<(nat, nat, Seq<u8>)>;

/// The PNG file of an RGBA grid, if the encoder accepts it.
pub uninterp spec fn png_rgba(width: nat, height: nat, pixels: Seq<u8>) -> Option<Seq<u8>>;

/// The PNG file of a one-channel (luma) grid, if the encoder accepts it.
pub uninterp spec fn png_luma(width: nat, height: nat, luma: Seq<u8>) -> Option<Seq<u8>>;

/// The luma of one RGBA cell: `(2126 r + 7152 g + 722 b) / 10000`, rounded down.
pub open spec fn luma_cell(r: u8, g: u8, b: u8) -> u8 {
    ((2126 * r + 7152 * g + 722 * b) / 10000) as u8
}

/// One luma byte per cell of RGBA bytes, in the same order.
pub open spec fn luma_bytes(pixels: Seq<u8>) -> Seq<u8> {
    Seq::new(
        pixels.len() / 4,
        |p: int| luma_cell(pixels[4 * p], pixels[4 * p + 1], pixels[4 * p + 2]),
    )
}

/// An RGBA grid resampled to a new size with the Lanczos (window 3) filter.
pub uninterp spec fn lanczos_resized(width: nat, height: nat, pixels: Seq<u8>, new_width: nat, new_height: nat) -> Seq<u8>;

/// Relies on base64's `STANDARD.decode`: the bytes that the text stands for,
/// or an error on text that is not valid base64. It does not panic.
#[verifier::external_body]
pub(crate) fn base64_decode(s: &str) -> (r: Option<Vec<u8>>)
    ensures
        r is Some <==> base64_decoded(s@) is Some,
        r is Some ==> r->Some_0@ == base64_decoded(s@)->Some_0,
{
    base64::engine::general_purpose::STANDARD.decode(s).ok()
}

/// Relies on base64's `STANDARD.encode`: the padded base64 text of the bytes.
/// It panics only when the output length overflows `usize`, which `requires`
/// rules out.
#[verifier::external_body]
pub(crate) fn base64_encode(b: &[u8]) -> (r: String)
    requires
        b@.len() <= usize::MAX / 2,
    ensures
        r@ == base64_text(b@),
{
    base64::engine::general_purpose::STANDARD.encode(b)
}

/// Relies on `image::load_from_memory` (format guessed from the bytes, the
/// decoders' default limits) followed by `DynamicImage::to_rgba8`, whose
/// buffer is taken apart into width, height and bytes.
#[verifier::external_body]
pub(crate) fn decode_image(bytes: &[u8]) -> (r: Option<(u32, u32, Vec<u8>)>)
    ensures
        r is Some <==> decoded_image(bytes@) is Some,
        r is Some ==> decoded_image(bytes@)->Some_0 == (r->Some_0.0 as nat, r->Some_0.1 as nat, r->Some_0.2@),
{
    let img = image::load_from_memory(bytes).ok()?;
    let rgba = img.to_rgba8();
    Some((rgba.width(), rgba.height(), rgba.into_raw()))
}

/// Relies on `ImageBuffer::write_to` with `ImageFormat::Png` for an RGBA
/// buffer built by `RgbaImage::from_raw` (which accepts the bytes, their
/// count being `width * height * 4`).
#[verifier::external_body]
pub(crate) fn encode_png_rgba(width: u32, height: u32, pixels: &Vec<u8>) -> (r: Option<Vec<u8>>)
    requires
        pixels@.len() == width * height * 4,
    ensures
        r is Some <==> png_rgba(width as nat, height as nat, pixels@) is Some,
        r is Some ==> r->Some_0@ == png_rgba(width as nat, height as nat, pixels@)->Some_0,
{
    let img = image::RgbaImage::from_raw(width, height, pixels.clone())?;
    let mut buf: Vec<u8> = Vec::new();
    img.write_to(&mut std::io::Cursor::new(&mut buf), image::ImageFormat::Png).ok()?;
    Some(buf)
}

/// Relies on `ImageBuffer::write_to` with `ImageFormat::Png` for a luma
/// buffer built by `GrayImage::from_raw` (which accepts the bytes, their
/// count being `width * height`).
#[verifier::external_body]
pub(crate) fn encode_png_luma(width: u32, height: u32, luma: &Vec<u8>) -> (r: Option<Vec<u8>>)
    requires
        luma@.len() == width * height,
    ensures
        r is Some <==> png_luma(width as nat, height as nat, luma@) is Some,
        r is Some ==> r->Some_0@ == png_luma(width as nat, height as nat, luma@)->Some_0,
{
    let img = image::GrayImage::from_raw(width, height, luma.clone())?;
    let mut buf: Vec<u8> = Vec::new();
    img.write_to(&mut std::io::Cursor::new(&mut buf), image::ImageFormat::Png).ok()?;
    Some(buf)
}

/// Relies on `DynamicImage::to_luma8` on an RGBA8 image: a buffer made by
/// `ImageBuffer::new(width, height)` (one byte per cell), each cell set by
/// `rgb_to_luma` to `(2126 r + 7152 g + 722 b) / 10000` (alpha ignored).
#[verifier::external_body]
pub(crate) fn to_luma(width: u32, height: u32, pixels: &Vec<u8>) -> (r: Vec<u8>)
    requires
        pixels@.len() == width * height * 4,
    ensures
        r@ == luma_bytes(pixels@),
        r@.len() == width * height,
{
    let img = image::RgbaImage::from_raw(width, height, pixels.clone()).unwrap();
    image::DynamicImage::ImageRgba8(img).to_luma8().into_raw()
}

/// Relies on `image::imageops::resize` with `FilterType::Lanczos3`: a buffer
/// made by `ImageBuffer::new(new_width, new_height)`, and an exact copy of the
/// input when the size does not change. The sizes are those for which the
/// intermediate and final buffers' lengths fit in `usize`.
#[verifier::external_body]
pub(crate) fn resize_lanczos(
    width: u32,
    height: u32,
    pixels: &Vec<u8>,
    new_width: u32,
    new_height: u32,
) -> (r: Vec<u8>)
    requires
        pixels@.len() == width * height * 4,
        width > 0,
        height > 0,
        new_width > 0,
        new_height > 0,
        new_width * new_height * 4 <= usize::MAX,
        width * new_height * 4 <= usize::MAX,
    ensures
        r@ == lanczos_resized(width as nat, height as nat, pixels@, new_width as nat, new_height as nat),
        r@.len() == new_width * new_height * 4,
        new_width == width && new_height == height ==> r@ == pixels@,
{
    let img = image::RgbaImage::from_raw(width, height, pixels.clone()).unwrap();
    image::imageops::resize(&img, new_width, new_height, image::imageops::FilterType::Lanczos3).into_raw()
}

} // verus!
