//! Requests from base64 text to base64 text: decode, transform, re-encode as PNG.
use vstd::prelude::*;
use crate::grid::{GridView, PixelGrid};
use crate::codec::{
    base64_decoded, base64_text, decoded_image, png_rgba, png_luma, luma_bytes, lanczos_resized,
    base64_decode, base64_encode, decode_image, encode_png_rgba, encode_png_luma, to_luma,
    resize_lanczos,
};
use crate::transform::{Ratio, rotated, inverted, cropped, blended, rotate180, invert, crop, blend, lemma_blend_ends};
use crate::mosaic::{pixelated, pixelate};

verus! {

/// Why a request failed.
#[derive(PartialEq, Eq, Structural, Debug, Clone, Copy)]
pub enum ProcessError {
    /// The text (the first one, where there are two) is not valid base64.
    Base64Decode,
    /// The second of two texts is not valid base64.
    Base64DecodeSecond,
    /// The bytes (of the first payload, where there are two) are not an
    /// image that can be read.
    ImageLoad,
    /// The bytes of the second of two payloads are not an image that can be read.
    ImageLoadSecond,
    /// The result could not be encoded.
    ImageEncode,
    /// A parameter is out of its range (a zero size or block side, or sizes
    /// beyond what memory can address).
    InvalidParameter,
}

/// The RGBA grid of an encoded image, if it can be read.
pub open spec fn image_grid(bytes: Seq<u8>) -> Option<GridView> {
    match decoded_image(bytes) {
        None => None,
        Some(t) => {
            let g = GridView { width: t.0, height: t.1, pixels: t.2 };
            if g.wf() { Some(g) } else { None }
        },
    }
}

/// The grid that a base64 payload holds, or why there is none.
pub open spec fn payload_grid(s: Seq<char>) -> Result<GridView, ProcessError> {
    match base64_decoded(s) {
        None => Err(ProcessError::Base64Decode),
        Some(bytes) => match image_grid(bytes) {
            None => Err(ProcessError::ImageLoad),
            Some(g) => Ok(g),
        },
    }
}

/// Base64 text of a PNG file, or an encoding error.
pub open spec fn base64_of_png(png: Option<Seq<u8>>) -> Result<Seq<char>, ProcessError> {
    match png {
        None => Err(ProcessError::ImageEncode),
        Some(bytes) => if bytes.len() <= usize::MAX / 2 {
            Ok(base64_text(bytes))
        } else {
            Err(ProcessError::ImageEncode)
        },
    }
}

/// The base64 PNG payload of an RGBA grid.
pub open spec fn payload_of(g: GridView) -> Result<Seq<char>, ProcessError> {
    base64_of_png(png_rgba(g.width, g.height, g.pixels))
}

/// The base64 PNG payload of the luma version of an RGBA grid.
pub open spec fn luma_payload_of(g: GridView) -> Result<Seq<char>, ProcessError> {
    base64_of_png(png_luma(g.width, g.height, luma_bytes(g.pixels)))
}

/// The text of a result, or its error.
pub open spec fn outcome(r: Result<String, ProcessError>) -> Result<Seq<char>, ProcessError> {
    match r {
        Ok(t) => Ok(t@),
        Err(e) => Err(e),
    }
}

/// The grid of an optional result.
pub open spec fn grid_of(r: Option<PixelGrid>) -> Option<GridView> {
    match r {
        Some(g) => Some(g@),
        None => None,
    }
}

/// Resampling with the Lanczos filter, where the sizes allow it.
pub open spec fn resize_result(g: GridView, new_width: nat, new_height: nat) -> Option<GridView> {
    if new_width == 0 || new_height == 0 || g.width == 0 || g.height == 0
        || new_width * new_height * 4 > usize::MAX || g.width * new_height * 4 > usize::MAX {
        None
    } else {
        Some(GridView {
            width: new_width,
            height: new_height,
            pixels: lanczos_resized(g.width, g.height, g.pixels, new_width, new_height),
        })
    }
}

/// Blend of two grids, the second first resampled to the size of the first
/// where the sizes differ. A first grid without cells gives itself.
pub open spec fn blend_result(g1: GridView, g2: GridView, num: int, den: int) -> Option<GridView> {
    if g1.width == 0 || g1.height == 0 {
        Some(g1)
    } else if g1.width == g2.width && g1.height == g2.height {
        Some(blended(g1, g2, num, den))
    } else {
        match resize_result(g2, g1.width, g1.height) {
            None => None,
            Some(m) => Some(blended(g1, m, num, den)),
        }
    }
}

/// Reads an encoded image into an RGBA grid.
pub fn load_image(bytes: &[u8]) -> (r: Option<PixelGrid>)
    ensures
        grid_of(r) == image_grid(bytes@),
        r is Some ==> r->Some_0.wf(),
{
    match decode_image(bytes) {
        None => None,
        Some((w, h, pixels)) => PixelGrid::from_raw(w, h, pixels),
    }
}

/// Decodes a base64 payload into an RGBA grid.
pub fn decode_payload(s: &str) -> (r: Result<PixelGrid, ProcessError>)
    ensures
        r is Ok <==> payload_grid(s@) is Ok,
        r is Ok ==> r->Ok_0.wf() && r->Ok_0@ == payload_grid(s@)->Ok_0,
        r is Err ==> r->Err_0 == payload_grid(s@)->Err_0,
{
    let bytes = match base64_decode(s) {
        None => return Err(ProcessError::Base64Decode),
        Some(b) => b,
    };
    match load_image(bytes.as_slice()) {
        None => Err(ProcessError::ImageLoad),
        Some(g) => Ok(g),
    }
}

fn base64_of(png: Option<Vec<u8>>) -> (r: Result<String, ProcessError>)
    ensures
        outcome(r) == base64_of_png(match png { Some(v) => Some(v@), None => None }),
{
    match png {
        None => Err(ProcessError::ImageEncode),
        Some(bytes) => {
            if bytes.len() <= usize::MAX / 2 {
                Ok(base64_encode(bytes.as_slice()))
            } else {
                Err(ProcessError::ImageEncode)
            }
        },
    }
}

/// Encodes an RGBA grid as a base64 PNG payload.
pub fn encode_payload(g: &PixelGrid) -> (r: Result<String, ProcessError>)
    requires
        g.wf(),
    ensures
        outcome(r) == payload_of(g@),
{
    base64_of(encode_png_rgba(g.width, g.height, &g.pixels))
}

/// Resamples a grid to `new_width` x `new_height` with the Lanczos filter
/// (the aspect ratio is not kept). `None` for a zero target side, a grid
/// without cells, or sizes beyond what memory can address.
pub fn resize(g: &PixelGrid, new_width: u32, new_height: u32) -> (r: Option<PixelGrid>)
    requires
        g.wf(),
    ensures
        grid_of(r) == resize_result(g@, new_width as nat, new_height as nat),
        r is Some ==> r->Some_0.wf(),
        new_width == g.width && new_height == g.height && g.width > 0 && g.height > 0
            && new_width * new_height * 4 <= usize::MAX ==> grid_of(r) == Some(g@),
{
    if new_width == 0 || new_height == 0 || g.width == 0 || g.height == 0 {
        return None;
    }
    proof {
        assert(new_width * new_height <= 0xffff_ffff_ffff_ffff) by (nonlinear_arith)
            requires new_width <= 0xffff_ffff, new_height <= 0xffff_ffff;
        assert(g.width * new_height <= 0xffff_ffff_ffff_ffff) by (nonlinear_arith)
            requires g.width <= 0xffff_ffff, new_height <= 0xffff_ffff;
    }
    let max = usize::MAX as u128;
    if new_width as u128 * new_height as u128 * 4 > max || g.width as u128 * new_height as u128 * 4 > max {
        return None;
    }
    let pixels = resize_lanczos(g.width, g.height, &g.pixels, new_width, new_height);
    Some(PixelGrid { width: new_width, height: new_height, pixels })
}

/// Blends `g1` (weight `ratio`) with `g2` (weight `1 - ratio`); `g2` is first
/// resampled to the size of `g1` where the sizes differ. `None` where that
/// resampling is impossible (`g2` has no cells).
pub fn blend_grids(g1: &PixelGrid, g2: &PixelGrid, ratio: &Ratio) -> (r: Option<PixelGrid>)
    requires
        g1.wf(),
        g2.wf(),
        ratio.wf(),
    ensures
        grid_of(r) == blend_result(g1@, g2@, ratio.num as int, ratio.den as int),
        r is Some ==> r->Some_0.wf(),
        r is Some && ratio.num == ratio.den ==> r->Some_0@ == g1@,
        r is Some && ratio.num == 0 && g1.width == g2.width && g1.height == g2.height ==> r->Some_0@ == g2@,
        r is Some && ratio.num == 0 && g1.width > 0 && g1.height > 0 && (g1.width != g2.width
            || g1.height != g2.height) ==> r->Some_0@ == resize_result(
            g2@,
            g1.width as nat,
            g1.height as nat,
        )->Some_0,
        g1@ == g2@ ==> grid_of(r) == Some(g1@),
{
    if g1.width == 0 || g1.height == 0 {
        let r = PixelGrid { width: g1.width, height: g1.height, pixels: g1.pixels.clone() };
        proof {
            assert(r@.pixels =~= g1@.pixels);
            assert(g1.width * g1.height * 4 == 0) by (nonlinear_arith)
                requires g1.width == 0 || g1.height == 0;
            if g1.width == g2.width && g1.height == g2.height {
                assert(g2@.pixels =~= g1@.pixels);
            }
        }
        return Some(r);
    }
    if g1.width == g2.width && g1.height == g2.height {
        proof {
            lemma_blend_ends(g1@, g2@, ratio.num as int, ratio.den as int);
        }
        return Some(blend(g1, g2, ratio));
    }
    match resize(g2, g1.width, g1.height) {
        None => None,
        Some(m) => {
            proof {
                lemma_blend_ends(g1@, m@, ratio.num as int, ratio.den as int);
            }
            Some(blend(g1, &m, ratio))
        },
    }
}

/// The result of a request: the decoding error, or else what follows it.
pub open spec fn then_encode(
    d: Result<GridView, ProcessError>,
    rest: Result<Seq<char>, ProcessError>,
) -> Result<Seq<char>, ProcessError> {
    match d {
        Err(e) => Err(e),
        Ok(_) => rest,
    }
}

/// A payload that cannot be decoded makes every request fail with the
/// decoding error.
pub proof fn lemma_decode_failure_reported(s: Seq<char>, rest: Result<Seq<char>, ProcessError>)
    requires
        payload_grid(s) is Err,
    ensures
        then_encode(payload_grid(s), rest) == Err::<Seq<char>, ProcessError>(payload_grid(s)->Err_0),
        base64_decoded(s) is None ==> then_encode(payload_grid(s), rest) == Err::<Seq<char>, ProcessError>(ProcessError::Base64Decode),
{
}

/// Converts the image of a base64 payload to grayscale (one luma channel,
/// alpha dropped) and returns it as a base64 PNG payload.
pub fn convert_to_grayscale(base64_data: &str) -> (r: Result<String, ProcessError>)
    ensures
        outcome(r) == then_encode(payload_grid(base64_data@), luma_payload_of(payload_grid(base64_data@)->Ok_0)),
{
    let g = match decode_payload(base64_data) {
        Ok(g) => g,
        Err(e) => return Err(e),
    };
    let luma = to_luma(g.width, g.height, &g.pixels);
    base64_of(encode_png_luma(g.width, g.height, &luma))
}

/// Resamples the image of a base64 payload to exactly `width` x `height`
/// (Lanczos filter) and returns it as a base64 PNG payload. A zero side is
/// refused once the payload has been read.
pub fn resize_image(base64_data: &str, width: u32, height: u32) -> (r: Result<String, ProcessError>)
    ensures
        outcome(r) == then_encode(
            payload_grid(base64_data@),
            match resize_result(payload_grid(base64_data@)->Ok_0, width as nat, height as nat) {
                None => Err(ProcessError::InvalidParameter),
                Some(m) => payload_of(m),
            },
        ),
{
    let g = match decode_payload(base64_data) {
        Ok(g) => g,
        Err(e) => return Err(e),
    };
    match resize(&g, width, height) {
        None => Err(ProcessError::InvalidParameter),
        Some(m) => encode_payload(&m),
    }
}

/// Rotates the image of a base64 payload by 180 degrees and returns it as a
/// base64 PNG payload.
pub fn rotate_image(base64_data: &str) -> (r: Result<String, ProcessError>)
    ensures
        outcome(r) == then_encode(payload_grid(base64_data@), payload_of(rotated(payload_grid(base64_data@)->Ok_0))),
{
    let g = match decode_payload(base64_data) {
        Ok(g) => g,
        Err(e) => return Err(e),
    };
    encode_payload(&rotate180(&g))
}

/// Crops the image of a base64 payload to the rectangle at `(x, y)` of size
/// `width` x `height`, clamped to the image, and returns it as a base64 PNG
/// payload.
pub fn clip_image(base64_data: &str, x: u32, y: u32, width: u32, height: u32) -> (r: Result<String, ProcessError>)
    ensures
        outcome(r) == then_encode(
            payload_grid(base64_data@),
            payload_of(cropped(payload_grid(base64_data@)->Ok_0, x as nat, y as nat, width as nat, height as nat)),
        ),
{
    let g = match decode_payload(base64_data) {
        Ok(g) => g,
        Err(e) => return Err(e),
    };
    encode_payload(&crop(&g, x, y, width, height))
}

/// Inverts the colour channels of the image of a base64 payload (alpha kept)
/// and returns it as a base64 PNG payload.
pub fn invert_colors(base64_data: &str) -> (r: Result<String, ProcessError>)
    ensures
        outcome(r) == then_encode(payload_grid(base64_data@), payload_of(inverted(payload_grid(base64_data@)->Ok_0))),
{
    let g = match decode_payload(base64_data) {
        Ok(g) => g,
        Err(e) => return Err(e),
    };
    encode_payload(&invert(&g))
}

/// Pixelates the image of a base64 payload with square blocks of side
/// `pixel_size` and returns it as a base64 PNG payload. A zero side is refused
/// once the payload has been read.
pub fn pixelate_image(base64_data: &str, pixel_size: u32) -> (r: Result<String, ProcessError>)
    ensures
        outcome(r) == then_encode(
            payload_grid(base64_data@),
            if pixel_size == 0 {
                Err(ProcessError::InvalidParameter)
            } else {
                payload_of(pixelated(payload_grid(base64_data@)->Ok_0, pixel_size as nat))
            },
        ),
{
    let g = match decode_payload(base64_data) {
        Ok(g) => g,
        Err(e) => return Err(e),
    };
    if pixel_size == 0 {
        return Err(ProcessError::InvalidParameter);
    }
    encode_payload(&pixelate(&g, pixel_size))
}

/// Blends the images of two base64 payloads, the first weighted by `ratio`
/// and the second by `1 - ratio` (the second resampled to the first's size
/// where they differ), and returns the result as a base64 PNG payload. Both
/// texts are decoded before either image is read; a ratio with a zero
/// denominator is refused once both images have been read.
pub fn blend_images(base64_img1: &str, base64_img2: &str, ratio: &Ratio) -> (r: Result<String, ProcessError>)
    ensures
        outcome(r) == match (base64_decoded(base64_img1@), base64_decoded(base64_img2@)) {
            (None, _) => Err(ProcessError::Base64Decode),
            (Some(_), None) => Err(ProcessError::Base64DecodeSecond),
            (Some(b1), Some(b2)) => match (image_grid(b1), image_grid(b2)) {
                (None, _) => Err(ProcessError::ImageLoad),
                (Some(_), None) => Err(ProcessError::ImageLoadSecond),
                (Some(g1), Some(g2)) => if ratio.den == 0 {
                    Err(ProcessError::InvalidParameter)
                } else {
                    match blend_result(g1, g2, ratio.num as int, ratio.den as int) {
                        None => Err(ProcessError::InvalidParameter),
                        Some(b) => payload_of(b),
                    }
                },
            },
        },
{
    let bytes1 = match base64_decode(base64_img1) {
        None => return Err(ProcessError::Base64Decode),
        Some(b) => b,
    };
    let bytes2 = match base64_decode(base64_img2) {
        None => return Err(ProcessError::Base64DecodeSecond),
        Some(b) => b,
    };
    let g1 = match load_image(bytes1.as_slice()) {
        None => return Err(ProcessError::ImageLoad),
        Some(g) => g,
    };
    let g2 = match load_image(bytes2.as_slice()) {
        None => return Err(ProcessError::ImageLoadSecond),
        Some(g) => g,
    };
    if ratio.den == 0 {
        return Err(ProcessError::InvalidParameter);
    }
    match blend_grids(&g1, &g2, ratio) {
        None => Err(ProcessError::InvalidParameter),
        Some(b) => encode_payload(&b),
    }
}

} // verus!
