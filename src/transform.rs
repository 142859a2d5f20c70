//! Pure transforms on pixel grids.
use vstd::prelude::*;
use crate::grid::{GridView, PixelGrid, grid_from, lemma_cell_index, lemma_pixel_coords, lemma_grid_from_at, lemma_grid_ext};

verus! {

/// Byte `4 * p + c` of `grid_from` is channel `c` of pixel `p` in row-major order.
pub proof fn lemma_grid_from_cell(w: nat, h: nat, f: spec_fn(int, int, int) -> u8, p: int, c: int)
    requires
        0 <= p < w * h,
        0 <= c < 4,
    ensures
        grid_from(w, h, f).pixels[4 * p + c] == f(p % (w as int), p / (w as int), c),
{
    assert((4 * p + c) / 4 == p);
    assert((4 * p + c) % 4 == c);
}

pub proof fn lemma_pixel_count(g: GridView)
    requires
        g.wf(),
        g.pixels.len() <= usize::MAX,
    ensures
        g.width * g.height <= usize::MAX,
        g.width * g.height * 4 == g.pixels.len(),
{
}

// ---------------------------------------------------------------- rotate

/// The grid turned by half a turn: cell `(x, y)` comes from `(W-1-x, H-1-y)`.
pub open spec fn rotated(g: GridView) -> GridView {
    grid_from(
        g.width,
        g.height,
        |x: int, y: int, c: int| g.at(g.width - 1 - x, g.height - 1 - y, c),
    )
}

/// Rotates the grid by 180 degrees.
pub fn rotate180(g: &PixelGrid) -> (r: PixelGrid)
    requires
        g.wf(),
    ensures
        r.wf(),
        r@ == rotated(g@),
{
    let w = g.width;
    let h = g.height;
    let len = g.pixels.len();
    proof { lemma_pixel_count(g@); }
    let npix: usize = w as usize * h as usize;
    let ghost target = rotated(g@).pixels;
    let mut out: Vec<u8> = Vec::new();
    let mut p: usize = 0;
    while p < npix
        invariant
            g.wf(),
            w == g.width,
            h == g.height,
            npix == w * h,
            p <= npix,
            target == rotated(g@).pixels,
            target.len() == 4 * npix,
            out@ == target.take(4 * p as int),
        decreases npix - p,
    {
        proof { lemma_pixel_coords(w as nat, h as nat, p as int); }
        let x = (p % (w as usize)) as u32;
        let y = (p / (w as usize)) as u32;
        let sx = w - 1 - x;
        let sy = h - 1 - y;
        let mut c: u32 = 0;
        while c < 4
            invariant
                g.wf(),
                w == g.width,
                h == g.height,
                p < npix,
                npix == w * h,
                x == (p as int) % (w as int),
                y == (p as int) / (w as int),
                sx == w - 1 - x,
                sy == h - 1 - y,
                sx < w,
                sy < h,
                c <= 4,
                target == rotated(g@).pixels,
                target.len() == 4 * npix,
                out@ == target.take(4 * p + c),
            decreases 4 - c,
        {
            proof {
                lemma_grid_from_cell(
                    w as nat, h as nat,
                    |x: int, y: int, c: int| g@.at(g@.width - 1 - x, g@.height - 1 - y, c),
                    p as int, c as int,
                );
            }
            out.push(g.get(sx, sy, c));
            proof { assert(out@ =~= target.take(4 * p + c + 1)); }
            c += 1;
        }
        p += 1;
    }
    proof { assert(out@ =~= target); }
    PixelGrid { width: w, height: h, pixels: out }
}

/// Turning a grid by half a turn twice gives it back.
pub proof fn lemma_rotate_twice(g: GridView)
    requires
        g.wf(),
    ensures
        rotated(rotated(g)) == g,
{
    let f1 = |x: int, y: int, c: int| g.at(g.width - 1 - x, g.height - 1 - y, c);
    let r1 = rotated(g);
    let f2 = |x: int, y: int, c: int| r1.at(r1.width - 1 - x, r1.height - 1 - y, c);
    let r2 = rotated(r1);
    assert forall|x: int, y: int, c: int| r2.in_bounds(x, y) && 0 <= c < 4 implies #[trigger] r2.at(x, y, c) == g.at(x, y, c) by {
        lemma_grid_from_at(g.width, g.height, f2, x, y, c);
        lemma_grid_from_at(g.width, g.height, f1, g.width - 1 - x, g.height - 1 - y, c);
    }
    assert(r1.wf() && r2.wf());
    lemma_grid_ext(r2, g);
}

// ---------------------------------------------------------------- invert

/// The grid with red, green and blue replaced by `255 - value`; alpha kept.
pub open spec fn inverted(g: GridView) -> GridView {
    GridView {
        width: g.width,
        height: g.height,
        pixels: Seq::new(
            g.pixels.len(),
            |k: int| if k % 4 == 3 { g.pixels[k] } else { (255 - g.pixels[k]) as u8 },
        ),
    }
}

/// Inverts the colour channels of every cell, leaving alpha unchanged.
pub fn invert(g: &PixelGrid) -> (r: PixelGrid)
    requires
        g.wf(),
    ensures
        r.wf(),
        r@ == inverted(g@),
{
    let n = g.pixels.len();
    let mut out: Vec<u8> = Vec::new();
    let mut k: usize = 0;
    while k < n
        invariant
            n == g.pixels@.len(),
            k <= n,
            out@ == inverted(g@).pixels.take(k as int),
        decreases n - k,
    {
        let v = g.pixels[k];
        if k % 4 == 3 {
            out.push(v);
        } else {
            out.push(255 - v);
        }
        proof { assert(out@ =~= inverted(g@).pixels.take(k + 1)); }
        k += 1;
    }
    proof { assert(out@ =~= inverted(g@).pixels); }
    PixelGrid { width: g.width, height: g.height, pixels: out }
}

/// Inverting twice gives the grid back.
pub proof fn lemma_invert_twice(g: GridView)
    requires
        g.wf(),
    ensures
        inverted(inverted(g)) == g,
{
    assert(inverted(inverted(g)).pixels =~= g.pixels);
}

/// Inverting keeps the size and alpha, and maps each colour channel `v` to `255 - v`.
pub proof fn lemma_invert_at(g: GridView, x: int, y: int, c: int)
    requires
        g.wf(),
        g.in_bounds(x, y),
        0 <= c < 4,
    ensures
        inverted(g).wf(),
        inverted(g).at(x, y, c) == if c == 3 { g.at(x, y, c) } else { (255 - g.at(x, y, c)) as u8 },
{
    lemma_cell_index(g.width, g.height, x, y);
    let k = (y * g.width + x) * 4 + c;
    assert(k % 4 == c);
}

// ---------------------------------------------------------------- crop

pub open spec fn min_nat(a: nat, b: nat) -> nat {
    if a <= b { a } else { b }
}

/// Column of the crop origin, clamped to the grid.
pub open spec fn crop_x(g: GridView, x: nat) -> nat {
    min_nat(x, g.width)
}

/// Row of the crop origin, clamped to the grid.
pub open spec fn crop_y(g: GridView, y: nat) -> nat {
    min_nat(y, g.height)
}

/// Width of the crop, clamped to what the grid holds right of the origin.
pub open spec fn crop_width(g: GridView, x: nat, width: nat) -> nat {
    min_nat(width, (g.width - crop_x(g, x)) as nat)
}

/// Height of the crop, clamped to what the grid holds below the origin.
pub open spec fn crop_height(g: GridView, y: nat, height: nat) -> nat {
    min_nat(height, (g.height - crop_y(g, y)) as nat)
}

/// The part of the grid in the rectangle at `(x, y)` of size `width` x `height`,
/// clamped to the grid's bounds.
pub open spec fn cropped(g: GridView, x: nat, y: nat, width: nat, height: nat) -> GridView {
    grid_from(
        crop_width(g, x, width),
        crop_height(g, y, height),
        |i: int, j: int, c: int| g.at(crop_x(g, x) + i, crop_y(g, y) + j, c),
    )
}

/// Cuts out the rectangle at `(x, y)` of size `width` x `height`; the parts of
/// it that lie outside the grid are left out.
pub fn crop(g: &PixelGrid, x: u32, y: u32, width: u32, height: u32) -> (r: PixelGrid)
    requires
        g.wf(),
    ensures
        r.wf(),
        r@ == cropped(g@, x as nat, y as nat, width as nat, height as nat),
{
    let cx = if x <= g.width { x } else { g.width };
    let cy = if y <= g.height { y } else { g.height };
    let cw = if width <= g.width - cx { width } else { g.width - cx };
    let ch = if height <= g.height - cy { height } else { g.height - cy };
    let len = g.pixels.len();
    let ghost target = cropped(g@, x as nat, y as nat, width as nat, height as nat).pixels;
    let ghost f = |i: int, j: int, c: int| g@.at(cx + i, cy + j, c);
    proof {
        assert(cw * ch <= g.width * g.height) by (nonlinear_arith)
            requires cw <= g.width, ch <= g.height;
        lemma_pixel_count(g@);
        assert(cropped(g@, x as nat, y as nat, width as nat, height as nat) == grid_from(cw as nat, ch as nat, f));
    }
    let npix: usize = cw as usize * ch as usize;
    let mut out: Vec<u8> = Vec::new();
    let mut p: usize = 0;
    while p < npix
        invariant
            g.wf(),
            cx + cw <= g.width,
            cy + ch <= g.height,
            npix == cw * ch,
            p <= npix,
            f == (|i: int, j: int, c: int| g@.at(cx + i, cy + j, c)),
            target == grid_from(cw as nat, ch as nat, f).pixels,
            target.len() == 4 * npix,
            out@ == target.take(4 * p as int),
        decreases npix - p,
    {
        proof { lemma_pixel_coords(cw as nat, ch as nat, p as int); }
        let i = (p % (cw as usize)) as u32;
        let j = (p / (cw as usize)) as u32;
        let mut c: u32 = 0;
        while c < 4
            invariant
                g.wf(),
                cx + cw <= g.width,
                cy + ch <= g.height,
                p < npix,
                npix == cw * ch,
                i == (p as int) % (cw as int),
                j == (p as int) / (cw as int),
                i < cw,
                j < ch,
                c <= 4,
                f == (|i: int, j: int, c: int| g@.at(cx + i, cy + j, c)),
                target == grid_from(cw as nat, ch as nat, f).pixels,
                target.len() == 4 * npix,
                out@ == target.take(4 * p + c),
            decreases 4 - c,
        {
            proof { lemma_grid_from_cell(cw as nat, ch as nat, f, p as int, c as int); }
            out.push(g.get(cx + i, cy + j, c));
            proof { assert(out@ =~= target.take(4 * p + c + 1)); }
            c += 1;
        }
        p += 1;
    }
    proof { assert(out@ =~= target); }
    PixelGrid { width: cw, height: ch, pixels: out }
}

/// A rectangle inside the grid is cut out exactly, at its full size; one whose
/// origin lies outside the grid gives a grid without cells.
pub proof fn lemma_crop_bounds(g: GridView, x: nat, y: nat, width: nat, height: nat)
    requires
        g.wf(),
    ensures
        x + width <= g.width && y + height <= g.height ==> {
            let r = cropped(g, x, y, width, height);
            &&& r.width == width
            &&& r.height == height
            &&& forall|i: int, j: int, c: int|
                0 <= i < width && 0 <= j < height && 0 <= c < 4
                    ==> #[trigger] r.at(i, j, c) == g.at(x + i, y + j, c)
        },
        x >= g.width || y >= g.height ==> cropped(g, x, y, width, height).pixels.len() == 0,
        cropped(g, x, y, width, height).width <= width,
        cropped(g, x, y, width, height).height <= height,
{
    let f = |i: int, j: int, c: int| g.at(crop_x(g, x) + i, crop_y(g, y) + j, c);
    let r = cropped(g, x, y, width, height);
    if x + width <= g.width && y + height <= g.height {
        assert forall|i: int, j: int, c: int|
            0 <= i < width && 0 <= j < height && 0 <= c < 4 implies #[trigger] r.at(i, j, c) == g.at(x + i, y + j, c) by {
            lemma_grid_from_at(r.width, r.height, f, i, j, c);
        }
    }
    if x >= g.width || y >= g.height {
        assert(r.width == 0 || r.height == 0);
        assert(r.width * r.height * 4 == 0) by (nonlinear_arith)
            requires r.width == 0 || r.height == 0;
    }
}

// ---------------------------------------------------------------- blend

/// A blend ratio `num / den` (a real number, not limited to `[0, 1]`).
pub struct Ratio {
    pub num: i32,
    pub den: u32,
}

impl Ratio {
    pub open spec fn wf(&self) -> bool {
        self.den > 0
    }
}

pub open spec fn clamp_channel(v: int) -> u8 {
    if v < 0 { 0 } else if v > 255 { 255 } else { v as u8 }
}

/// `a * r + b * (1 - r)` for `r = num / den`, rounded to the nearest integer
/// (halves upward) and saturated to `0..=255`.
pub open spec fn blend_channel(a: u8, b: u8, num: int, den: int) -> u8 {
    clamp_channel((2 * (a * num + b * (den - num)) + den) / (2 * den))
}

/// Channel by channel blend of two grids of one size; the size is the first's.
pub open spec fn blended(g1: GridView, g2: GridView, num: int, den: int) -> GridView {
    GridView {
        width: g1.width,
        height: g1.height,
        pixels: Seq::new(
            g1.pixels.len(),
            |k: int| blend_channel(g1.pixels[k], g2.pixels[k], num, den),
        ),
    }
}

fn blend_value(a: u8, b: u8, num: i32, den: u32) -> (r: u8)
    requires
        den > 0,
    ensures
        r == blend_channel(a, b, num as int, den as int),
{
    let e: i64 = den as i64 - num as i64;
    proof {
        assert(-0x100_0000_0000 <= a * num <= 0x100_0000_0000) by (nonlinear_arith)
            requires 0 <= a <= 255, -0x8000_0000 <= num <= 0x8000_0000;
        assert(-0x400_0000_0000 <= b * e <= 0x400_0000_0000) by (nonlinear_arith)
            requires 0 <= b <= 255, -0x1_0000_0000 <= e <= 0x2_0000_0000;
    }
    let m: i64 = a as i64 * num as i64 + b as i64 * e;
    let t: i64 = 2 * m + den as i64;
    if t < 0 {
        proof {
            let d = 2 * den as int;
            vstd::arithmetic::div_mod::lemma_fundamental_div_mod(t as int, d);
            let q = t as int / d;
            assert(q < 0) by (nonlinear_arith)
                requires t == d * q + (t as int) % d, 0 <= (t as int) % d < d, t < 0, d > 0;
        }
        0
    } else {
        let q: u64 = t as u64 / (2 * den as u64);
        if q > 255 { 255 } else { q as u8 }
    }
}

/// Blends two grids of the same size cell by cell and channel by channel:
/// each output channel is `a * r + b * (1 - r)`, rounded, saturated to `0..=255`.
pub fn blend(g1: &PixelGrid, g2: &PixelGrid, ratio: &Ratio) -> (r: PixelGrid)
    requires
        g1.wf(),
        g2.wf(),
        g1.width == g2.width,
        g1.height == g2.height,
        ratio.wf(),
    ensures
        r.wf(),
        r@ == blended(g1@, g2@, ratio.num as int, ratio.den as int),
{
    let n = g1.pixels.len();
    let ghost target = blended(g1@, g2@, ratio.num as int, ratio.den as int).pixels;
    let mut out: Vec<u8> = Vec::new();
    let mut k: usize = 0;
    while k < n
        invariant
            n == g1.pixels@.len(),
            n == g2.pixels@.len(),
            ratio.wf(),
            k <= n,
            target == blended(g1@, g2@, ratio.num as int, ratio.den as int).pixels,
            out@ == target.take(k as int),
        decreases n - k,
    {
        out.push(blend_value(g1.pixels[k], g2.pixels[k], ratio.num, ratio.den));
        proof { assert(out@ =~= target.take(k + 1)); }
        k += 1;
    }
    proof { assert(out@ =~= target); }
    PixelGrid { width: g1.width, height: g1.height, pixels: out }
}

proof fn lemma_round_whole(a: int, d: int)
    requires
        d > 0,
        0 <= a <= 255,
    ensures
        (2 * (a * d) + d) / (2 * d) == a,
        clamp_channel(a) == a,
{
    assert(2 * (a * d) + d == a * (2 * d) + d) by (nonlinear_arith);
    vstd::arithmetic::div_mod::lemma_fundamental_div_mod_converse(2 * (a * d) + d, 2 * d, a, d);
}

/// Blending at ratio one gives the first grid, at ratio zero the second, and
/// a grid blended with itself at any ratio is itself.
pub proof fn lemma_blend_ends(g1: GridView, g2: GridView, num: int, den: int)
    requires
        g1.wf(),
        g2.wf(),
        g1.width == g2.width,
        g1.height == g2.height,
        den > 0,
    ensures
        num == den ==> blended(g1, g2, num, den) == g1,
        num == 0 ==> blended(g1, g2, num, den) == g2,
        blended(g1, g1, num, den) == g1,
{
    assert forall|k: int| 0 <= k < g1.pixels.len() implies
        (num == den ==> blend_channel(g1.pixels[k], g2.pixels[k], num, den) == g1.pixels[k])
        && (num == 0 ==> blend_channel(g1.pixels[k], g2.pixels[k], num, den) == g2.pixels[k])
        && blend_channel(g1.pixels[k], g1.pixels[k], num, den) == g1.pixels[k] by {
        let a = g1.pixels[k] as int;
        let b = g2.pixels[k] as int;
        if num == den {
            assert(a * num + b * (den - num) == a * den) by (nonlinear_arith) requires num == den;
            lemma_round_whole(a, den);
        }
        if num == 0 {
            assert(a * num + b * (den - num) == b * den) by (nonlinear_arith) requires num == 0;
            lemma_round_whole(b, den);
        }
        assert(a * num + a * (den - num) == a * den) by (nonlinear_arith);
        lemma_round_whole(a, den);
    }
    if num == den {
        assert(blended(g1, g2, num, den).pixels =~= g1.pixels);
    }
    if num == 0 {
        assert(blended(g1, g2, num, den).pixels =~= g2.pixels);
    }
    assert(blended(g1, g1, num, den).pixels =~= g1.pixels);
}

} // verus!
