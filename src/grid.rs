//! The RGBA pixel grid and its mathematical model.
use vstd::prelude::*;

verus! {

/// Mathematical model of a pixel grid: `width` x `height` cells, four
/// channels (red, green, blue, alpha) per cell, stored row by row.
pub struct GridView {
    pub width: nat,
    pub height: nat,
    pub pixels: Seq<u8>,
}

impl GridView {
    pub open spec fn wf(self) -> bool {
        self.pixels.len() == self.width * self.height * 4
    }

    pub open spec fn num_pixels(self) -> nat {
        self.width * self.height
    }

    /// Channel `c` of the cell at column `x`, row `y`.
    pub open spec fn at(self, x: int, y: int, c: int) -> u8 {
        self.pixels[(y * self.width + x) * 4 + c]
    }

    pub open spec fn in_bounds(self, x: int, y: int) -> bool {
        0 <= x < self.width && 0 <= y < self.height
    }
}

/// The grid of the given size whose channel `c` at `(x, y)` is `f(x, y, c)`.
pub open spec fn grid_from(width: nat, height: nat, f: spec_fn(int, int, int) -> u8) -> GridView {
    GridView {
        width,
        height,
        pixels: Seq::new(
            width * height * 4,
            |k: int| f((k / 4) % (width as int), (k / 4) / (width as int), k % 4),
        ),
    }
}

pub proof fn lemma_cell_index(w: nat, h: nat, x: int, y: int)
    requires
        0 <= x < w,
        0 <= y < h,
    ensures
        0 <= y * w + x < w * h,
        (y * w + x) * 4 + 3 < w * h * 4,
        (y * w + x) % (w as int) == x,
        (y * w + x) / (w as int) == y,
{
    assert(0 <= y * w + x < w * h) by (nonlinear_arith)
        requires 0 <= x < w, 0 <= y < h;
    vstd::arithmetic::div_mod::lemma_fundamental_div_mod_converse(y * w + x, w as int, y, x);
}

pub proof fn lemma_pixel_coords(w: nat, h: nat, p: int)
    requires
        0 <= p < w * h,
    ensures
        w > 0,
        0 <= p % (w as int) < w,
        0 <= p / (w as int) < h,
        (p / (w as int)) * w + p % (w as int) == p,
{
    assert(w > 0) by (nonlinear_arith)
        requires 0 <= p < w * h;
    vstd::arithmetic::div_mod::lemma_fundamental_div_mod(p, w as int);
    vstd::arithmetic::div_mod::lemma_div_pos_is_pos(p, w as int);
    let q = p / (w as int);
    let r = p % (w as int);
    assert(q < h) by (nonlinear_arith)
        requires p == w * q + r, 0 <= r, p < w * h, w > 0;
}

/// The cells of `grid_from` are given by `f`.
pub proof fn lemma_grid_from_at(width: nat, height: nat, f: spec_fn(int, int, int) -> u8, x: int, y: int, c: int)
    requires
        0 <= x < width,
        0 <= y < height,
        0 <= c < 4,
    ensures
        grid_from(width, height, f).wf(),
        grid_from(width, height, f).at(x, y, c) == f(x, y, c),
{
    lemma_cell_index(width, height, x, y);
    let k = (y * width + x) * 4 + c;
    assert(k / 4 == y * width + x);
    assert(k % 4 == c);
}

/// Two well-formed grids of one size that agree on every cell are equal.
pub proof fn lemma_grid_ext(a: GridView, b: GridView)
    requires
        a.wf(),
        b.wf(),
        a.width == b.width,
        a.height == b.height,
        forall|x: int, y: int, c: int|
            a.in_bounds(x, y) && 0 <= c < 4 ==> #[trigger] a.at(x, y, c) == b.at(x, y, c),
    ensures
        a == b,
{
    assert forall|k: int| 0 <= k < a.pixels.len() implies a.pixels[k] == b.pixels[k] by {
        let p = k / 4;
        let c = k % 4;
        assert(0 <= p < a.width * a.height);
        lemma_pixel_coords(a.width, a.height, p);
        let x = p % (a.width as int);
        let y = p / (a.width as int);
        assert(a.at(x, y, c) == b.at(x, y, c));
        assert((y * a.width + x) * 4 + c == k);
    }
    assert(a.pixels =~= b.pixels);
}

/// An RGBA pixel grid: `width` x `height` cells of four bytes, row by row.
pub struct PixelGrid {
    pub width: u32,
    pub height: u32,
    pub pixels: Vec<u8>,
}

impl View for PixelGrid {
    type V = GridView;

    open spec fn view(&self) -> GridView {
        GridView { width: self.width as nat, height: self.height as nat, pixels: self.pixels@ }
    }
}

impl PixelGrid {
    pub open spec fn wf(&self) -> bool {
        self@.wf()
    }

    /// Builds a grid from raw RGBA bytes; `None` when the byte count does not
    /// match the size.
    pub fn from_raw(width: u32, height: u32, pixels: Vec<u8>) -> (r: Option<PixelGrid>)
        ensures
            r is Some <==> pixels@.len() == width * height * 4,
            r is Some ==> r->Some_0@ == (GridView {
                width: width as nat,
                height: height as nat,
                pixels: pixels@,
            }),
    {
        assert(width * height <= 0xffff_ffff_ffff_ffff) by (nonlinear_arith)
            requires width <= 0xffff_ffff, height <= 0xffff_ffff;
        let n = width as u128 * height as u128 * 4;
        if n == pixels.len() as u128 {
            Some(PixelGrid { width, height, pixels })
        } else {
            None
        }
    }

    /// The grid with no cells and the given size; one of the sides must be zero.
    pub fn empty(width: u32, height: u32) -> (r: PixelGrid)
        requires
            width == 0 || height == 0,
        ensures
            r.wf(),
            r@.width == width,
            r@.height == height,
            r@.pixels.len() == 0,
    {
        assert(width * height * 4 == 0) by (nonlinear_arith)
            requires width == 0 || height == 0;
        PixelGrid { width, height, pixels: Vec::new() }
    }

    /// Channel `c` of the cell at `(x, y)`.
    pub fn get(&self, x: u32, y: u32, c: u32) -> (r: u8)
        requires
            self.wf(),
            x < self.width,
            y < self.height,
            c < 4,
        ensures
            r == self@.at(x as int, y as int, c as int),
    {
        proof {
            lemma_cell_index(self.width as nat, self.height as nat, x as int, y as int);
        }
        let len = self.pixels.len();
        let i = (y as usize * self.width as usize + x as usize) * 4 + c as usize;
        self.pixels[i]
    }
}

} // verus!
