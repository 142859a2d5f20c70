//! Block pixelation: each square block takes the mean colour of its cells.
use vstd::prelude::*;
use crate::grid::{GridView, PixelGrid, grid_from, lemma_cell_index, lemma_pixel_coords, lemma_grid_from_at, lemma_grid_ext};
use crate::transform::{lemma_grid_from_cell, lemma_pixel_count};

verus! {

/// Sum of channel `c` over the cells `x0 <= x < x1` of row `y`.
pub open spec fn row_sum(g: GridView, c: int, y: int, x0: int, x1: int) -> int
    decreases x1 - x0,
{
    if x1 <= x0 { 0 } else { row_sum(g, c, y, x0, x1 - 1) + g.at(x1 - 1, y, c) }
}

/// Sum of channel `c` over the rectangle `x0 <= x < x1`, `y0 <= y < y1`.
pub open spec fn rect_sum(g: GridView, c: int, x0: int, x1: int, y0: int, y1: int) -> int
    decreases y1 - y0,
{
    if y1 <= y0 { 0 } else { rect_sum(g, c, x0, x1, y0, y1 - 1) + row_sum(g, c, y1 - 1, x0, x1) }
}

pub open spec fn min_int(a: int, b: int) -> int {
    if a <= b { a } else { b }
}

/// Mean of channel `c` (rounded down) over block `(bx, by)` of side `s`,
/// clipped at the grid's right and bottom edges.
pub open spec fn block_mean(g: GridView, s: nat, bx: int, by: int, c: int) -> int {
    let x0 = bx * s;
    let y0 = by * s;
    let x1 = min_int(x0 + s, g.width as int);
    let y1 = min_int(y0 + s, g.height as int);
    rect_sum(g, c, x0, x1, y0, y1) / ((x1 - x0) * (y1 - y0))
}

/// The grid cut into blocks of side `s` from the top-left corner, each cell
/// taking the mean colour of its block.
pub open spec fn pixelated(g: GridView, s: nat) -> GridView {
    grid_from(
        g.width,
        g.height,
        |x: int, y: int, c: int| block_mean(g, s, x / (s as int), y / (s as int), c) as u8,
    )
}

/// Number of blocks of side `s` that cover `n` cells.
pub open spec fn blocks_across(n: nat, s: nat) -> nat {
    ((n + s - 1) / (s as int)) as nat
}

proof fn lemma_block_index(n: nat, s: nat, x: int)
    requires
        s > 0,
        0 <= x < n,
    ensures
        0 <= x / (s as int) < blocks_across(n, s),
{
    let q = x / (s as int);
    vstd::arithmetic::div_mod::lemma_fundamental_div_mod(x, s as int);
    vstd::arithmetic::div_mod::lemma_div_pos_is_pos(x, s as int);
    assert((q + 1) * s <= n + s - 1) by (nonlinear_arith)
        requires x == s * q + x % (s as int), x % (s as int) < s, x < n, s > 0;
    vstd::arithmetic::div_mod::lemma_div_is_ordered((q + 1) * s, n + s - 1, s as int);
    vstd::arithmetic::div_mod::lemma_div_by_multiple(q + 1, s as int);
}

proof fn lemma_block_origin(n: nat, s: nat, b: int)
    requires
        s > 0,
        0 <= b < blocks_across(n, s),
    ensures
        0 <= b * s < n,
{
    let m = blocks_across(n, s) as int;
    vstd::arithmetic::div_mod::lemma_fundamental_div_mod(n + s - 1, s as int);
    assert(m * s <= n + s - 1) by (nonlinear_arith)
        requires n + s - 1 == s * m + (n + s - 1) % (s as int), (n + s - 1) % (s as int) >= 0;
    assert(0 <= b * s < n) by (nonlinear_arith)
        requires b + 1 <= m, m * s <= n + s - 1, s > 0, b >= 0;
}

/// Sums the four channels over the rectangle `x0 <= x < x1`, `y0 <= y < y1`.
fn block_sums(g: &PixelGrid, x0: u32, x1: u32, y0: u32, y1: u32) -> (r: [u128; 4])
    requires
        g.wf(),
        x0 <= x1 <= g.width,
        y0 <= y1 <= g.height,
    ensures
        forall|c: int| 0 <= c < 4 ==> r[c] == rect_sum(g@, c, x0 as int, x1 as int, y0 as int, y1 as int),
{
    let mut sums: [u128; 4] = [0, 0, 0, 0];
    let mut yy = y0;
    while yy < y1
        invariant
            g.wf(),
            x0 <= x1 <= g.width,
            y0 <= yy <= y1 <= g.height,
            forall|c: int| 0 <= c < 4 ==> sums[c] == rect_sum(g@, c, x0 as int, x1 as int, y0 as int, yy as int),
            forall|c: int| 0 <= c < 4 ==> sums[c] <= 255 * 0x1_0000_0000 * (yy - y0),
        decreases y1 - yy,
    {
        let mut xx = x0;
        while xx < x1
            invariant
                g.wf(),
                x0 <= xx <= x1 <= g.width,
                y0 <= yy < y1 <= g.height,
                forall|c: int| 0 <= c < 4 ==> sums[c] == rect_sum(g@, c, x0 as int, x1 as int, y0 as int, yy as int)
                    + row_sum(g@, c, yy as int, x0 as int, xx as int),
                forall|c: int| 0 <= c < 4 ==> sums[c] <= 255 * 0x1_0000_0000 * (yy - y0) + 255 * (xx - x0),
            decreases x1 - xx,
        {
            let mut c: usize = 0;
            while c < 4
                invariant
                    g.wf(),
                    x0 <= xx < x1 <= g.width,
                    y0 <= yy < y1 <= g.height,
                    c <= 4,
                    forall|k: int| 0 <= k < c ==> sums[k] == rect_sum(g@, k, x0 as int, x1 as int, y0 as int, yy as int)
                        + row_sum(g@, k, yy as int, x0 as int, xx + 1),
                    forall|k: int| c <= k < 4 ==> sums[k] == rect_sum(g@, k, x0 as int, x1 as int, y0 as int, yy as int)
                        + row_sum(g@, k, yy as int, x0 as int, xx as int),
                    forall|k: int| 0 <= k < c ==> sums[k] <= 255 * 0x1_0000_0000 * (yy - y0) + 255 * (xx + 1 - x0),
                    forall|k: int| c <= k < 4 ==> sums[k] <= 255 * 0x1_0000_0000 * (yy - y0) + 255 * (xx - x0),
                decreases 4 - c,
            {
                assert(sums[c as int] <= 255 * 0x1_0000_0000 * (yy - y0) + 255 * (xx - x0));
                assert(yy - y0 < 0x1_0000_0000);
                assert(xx - x0 < 0x1_0000_0000);
                assert(sums[c as int] + 255 <= 255 * 0x1_0000_0000 * (yy - y0 + 1)) by (nonlinear_arith)
                    requires
                        sums[c as int] <= 255 * 0x1_0000_0000 * (yy - y0) + 255 * (xx - x0),
                        xx - x0 < 0x1_0000_0000 - 1;
                assert(255 * 0x1_0000_0000 * (yy - y0 + 1) <= 255 * 0x1_0000_0000 * 0x1_0000_0000) by (nonlinear_arith)
                    requires yy - y0 < 0x1_0000_0000;
                let v = g.get(xx, yy, c as u32);
                sums[c] = sums[c] + v as u128;
                c += 1;
            }
            xx += 1;
        }
        assert(x1 - x0 <= 0x1_0000_0000);
        assert forall|c: int| 0 <= c < 4 implies sums[c] <= 255 * 0x1_0000_0000 * (yy + 1 - y0) by {
            assert(255 * 0x1_0000_0000 * (yy - y0) + 255 * (x1 - x0) <= 255 * 0x1_0000_0000 * (yy + 1 - y0)) by (nonlinear_arith)
                requires x1 - x0 <= 0x1_0000_0000;
        }
        yy += 1;
    }
    sums
}

/// Replaces every cell by the mean colour (rounded down, all four channels)
/// of its block, the grid being cut into blocks of side `pixel_size` from the
/// top-left corner; the blocks at the right and bottom edges may be smaller.
pub fn pixelate(g: &PixelGrid, pixel_size: u32) -> (r: PixelGrid)
    requires
        g.wf(),
        pixel_size >= 1,
    ensures
        r.wf(),
        r@ == pixelated(g@, pixel_size as nat),
        pixel_size == 1 ==> r@ == g@,
        pixel_size >= g.width && pixel_size >= g.height ==> forall|x: int, y: int, c: int|
            g@.in_bounds(x, y) && 0 <= c < 4 ==> #[trigger] r@.at(x, y, c) as int
                == rect_sum(g@, c, 0, g.width as int, 0, g.height as int) / (g.width * g.height) as int,
{
    proof {
        lemma_pixelate_unit(g@);
        if pixel_size >= g.width && pixel_size >= g.height {
            lemma_pixelate_whole(g@, pixel_size as nat);
        }
    }
    let w = g.width;
    let h = g.height;
    let s = pixel_size;
    let len = g.pixels.len();
    proof { lemma_pixel_count(g@); }
    let ghost gv = g@;
    let ghost f = |x: int, y: int, c: int| block_mean(gv, s as nat, x / (s as int), y / (s as int), c) as u8;
    let ghost target = pixelated(g@, s as nat).pixels;
    if w == 0 || h == 0 {
        proof {
            assert(w * h * 4 == 0) by (nonlinear_arith) requires w == 0 || h == 0;
            assert(target =~= g@.pixels);
        }
        let r = PixelGrid::empty(w, h);
        proof { assert(r@.pixels =~= target); }
        return r;
    }
    let nbx64: u64 = (w as u64 + s as u64 - 1) / s as u64;
    let nby64: u64 = (h as u64 + s as u64 - 1) / s as u64;
    proof {
        assert(nbx64 == blocks_across(w as nat, s as nat));
        assert(nby64 == blocks_across(h as nat, s as nat));
        lemma_block_index(w as nat, s as nat, 0);
        lemma_block_index(h as nat, s as nat, 0);
        lemma_block_origin(w as nat, s as nat, nbx64 - 1);
        lemma_block_origin(h as nat, s as nat, nby64 - 1);
        assert(nbx64 <= w && nby64 <= h) by (nonlinear_arith)
            requires (nbx64 - 1) * s < w, (nby64 - 1) * s < h, s >= 1;
    }
    let nbx = nbx64 as u32;
    let nby = nby64 as u32;
    proof {
        assert(nbx * nby <= w * h) by (nonlinear_arith)
            requires nbx <= w, nby <= h;
    }
    let nblocks: usize = nbx as usize * nby as usize;
    let mut means: Vec<u8> = Vec::new();
    let mut b: usize = 0;
    while b < nblocks
        invariant
            g.wf(),
            gv == g@,
            w == g.width,
            h == g.height,
            s >= 1,
            nbx == blocks_across(w as nat, s as nat),
            nby == blocks_across(h as nat, s as nat),
            nblocks == nbx * nby,
            b <= nblocks,
            means@.len() == 4 * b,
            forall|q: int, c: int| 0 <= q < b && 0 <= c < 4 ==>
                #[trigger] means@[4 * q + c] == block_mean(gv, s as nat, q % (nbx as int), q / (nbx as int), c) as u8,
        decreases nblocks - b,
    {
        proof { lemma_pixel_coords(nbx as nat, nby as nat, b as int); }
        let bx = (b % nbx as usize) as u32;
        let by = (b / nbx as usize) as u32;
        proof {
            lemma_block_origin(w as nat, s as nat, bx as int);
            lemma_block_origin(h as nat, s as nat, by as int);
        }
        let x0 = (bx as u64 * s as u64) as u32;
        let y0 = (by as u64 * s as u64) as u32;
        let x1 = if x0 as u64 + s as u64 <= w as u64 { x0 + s } else { w };
        let y1 = if y0 as u64 + s as u64 <= h as u64 { y0 + s } else { h };
        let sums = block_sums(g, x0, x1, y0, y1);
        proof {
            assert((x1 - x0) * (y1 - y0) <= 0xffff_ffff_ffff_ffff) by (nonlinear_arith)
                requires x1 - x0 <= 0xffff_ffff, y1 - y0 <= 0xffff_ffff, x1 >= x0, y1 >= y0;
        }
        let area: u128 = (x1 - x0) as u128 * (y1 - y0) as u128;
        proof {
            assert(area > 0) by (nonlinear_arith) requires area == (x1 - x0) * (y1 - y0), x1 > x0, y1 > y0;
        }
        let ghost old_means = means@;
        let mut c: usize = 0;
        while c < 4
            invariant
                gv.width == w,
                gv.height == h,
                b < nblocks,
                bx == (b as int) % (nbx as int),
                by == (b as int) / (nbx as int),
                x0 == bx * s,
                y0 == by * s,
                x1 == min_int(x0 + s, w as int),
                y1 == min_int(y0 + s, h as int),
                area == (x1 - x0) * (y1 - y0),
                area > 0,
                forall|k: int| 0 <= k < 4 ==> sums[k] == rect_sum(gv, k, x0 as int, x1 as int, y0 as int, y1 as int),
                c <= 4,
                means@.len() == 4 * b + c,
                means@.take(4 * b as int) == old_means,
                old_means.len() == 4 * b,
                forall|k: int| 0 <= k < c ==> means@[4 * b + k] == block_mean(gv, s as nat, bx as int, by as int, k) as u8,
            decreases 4 - c,
        {
            means.push((sums[c] / area) as u8);
            proof {
                assert(means@.take(4 * b as int) =~= old_means);
            }
            c += 1;
        }
        proof {
            assert forall|q: int, c: int| 0 <= q < b + 1 && 0 <= c < 4 implies
                #[trigger] means@[4 * q + c] == block_mean(gv, s as nat, q % (nbx as int), q / (nbx as int), c) as u8 by {
                if q < b {
                    assert(means@[4 * q + c] == old_means[4 * q + c]);
                }
            }
        }
        b += 1;
    }
    let npix: usize = w as usize * h as usize;
    let mlen = means.len();
    let mut out: Vec<u8> = Vec::new();
    let mut p: usize = 0;
    while p < npix
        invariant
            g.wf(),
            gv == g@,
            w == g.width,
            h == g.height,
            s >= 1,
            nbx == blocks_across(w as nat, s as nat),
            nby == blocks_across(h as nat, s as nat),
            nblocks == nbx * nby,
            means@.len() == 4 * nblocks,
            mlen == means@.len(),
            forall|q: int, c: int| 0 <= q < nblocks && 0 <= c < 4 ==>
                #[trigger] means@[4 * q + c] == block_mean(gv, s as nat, q % (nbx as int), q / (nbx as int), c) as u8,
            npix == w * h,
            p <= npix,
            f == (|x: int, y: int, c: int| block_mean(gv, s as nat, x / (s as int), y / (s as int), c) as u8),
            target == grid_from(w as nat, h as nat, f).pixels,
            target.len() == 4 * npix,
            out@ == target.take(4 * p as int),
        decreases npix - p,
    {
        proof { lemma_pixel_coords(w as nat, h as nat, p as int); }
        let x = (p % (w as usize)) as u32;
        let y = (p / (w as usize)) as u32;
        proof {
            lemma_block_index(w as nat, s as nat, x as int);
            lemma_block_index(h as nat, s as nat, y as int);
            lemma_cell_index(nbx as nat, nby as nat, (x / s) as int, (y / s) as int);
        }
        let blk: usize = (y / s) as usize * nbx as usize + (x / s) as usize;
        let mut c: usize = 0;
        while c < 4
            invariant
                p < npix,
                npix == w * h,
                x == (p as int) % (w as int),
                y == (p as int) / (w as int),
                blk < nblocks,
                (blk as int) % (nbx as int) == x / s,
                (blk as int) / (nbx as int) == y / s,
                means@.len() == 4 * nblocks,
                mlen == means@.len(),
                forall|q: int, c: int| 0 <= q < nblocks && 0 <= c < 4 ==>
                    #[trigger] means@[4 * q + c] == block_mean(gv, s as nat, q % (nbx as int), q / (nbx as int), c) as u8,
                c <= 4,
                f == (|x: int, y: int, c: int| block_mean(gv, s as nat, x / (s as int), y / (s as int), c) as u8),
                target == grid_from(w as nat, h as nat, f).pixels,
                target.len() == 4 * npix,
                out@ == target.take(4 * p + c),
            decreases 4 - c,
        {
            proof {
                lemma_grid_from_cell(w as nat, h as nat, f, p as int, c as int);
                assert(means@[4 * blk + c] == block_mean(gv, s as nat, blk as int % (nbx as int), blk as int / (nbx as int), c as int) as u8);
            }
            out.push(means[4 * blk + c]);
            proof { assert(out@ =~= target.take(4 * p + c + 1)); }
            c += 1;
        }
        p += 1;
    }
    proof { assert(out@ =~= target); }
    PixelGrid { width: w, height: h, pixels: out }
}

proof fn lemma_row_sum_bounds(g: GridView, c: int, y: int, x0: int, x1: int)
    requires
        x0 <= x1,
    ensures
        0 <= row_sum(g, c, y, x0, x1) <= 255 * (x1 - x0),
    decreases x1 - x0,
{
    if x1 > x0 {
        lemma_row_sum_bounds(g, c, y, x0, x1 - 1);
    }
}

proof fn lemma_rect_sum_bounds(g: GridView, c: int, x0: int, x1: int, y0: int, y1: int)
    requires
        x0 <= x1,
        y0 <= y1,
    ensures
        0 <= rect_sum(g, c, x0, x1, y0, y1) <= 255 * ((x1 - x0) * (y1 - y0)),
    decreases y1 - y0,
{
    if y1 > y0 {
        lemma_rect_sum_bounds(g, c, x0, x1, y0, y1 - 1);
        lemma_row_sum_bounds(g, c, y1 - 1, x0, x1);
        assert((x1 - x0) * (y1 - 1 - y0) + (x1 - x0) == (x1 - x0) * (y1 - y0)) by (nonlinear_arith);
    }
}

/// The mean of a non-empty rectangle lies in `0..=255`.
pub proof fn lemma_rect_mean_bounds(g: GridView, c: int, x0: int, x1: int, y0: int, y1: int)
    requires
        x0 < x1,
        y0 < y1,
    ensures
        0 <= rect_sum(g, c, x0, x1, y0, y1) / ((x1 - x0) * (y1 - y0)) <= 255,
{
    let a = (x1 - x0) * (y1 - y0);
    assert(a > 0) by (nonlinear_arith) requires x0 < x1, y0 < y1, a == (x1 - x0) * (y1 - y0);
    lemma_rect_sum_bounds(g, c, x0, x1, y0, y1);
    vstd::arithmetic::div_mod::lemma_div_is_ordered(rect_sum(g, c, x0, x1, y0, y1), 255 * a, a);
    vstd::arithmetic::div_mod::lemma_div_by_multiple(255, a);
    vstd::arithmetic::div_mod::lemma_div_pos_is_pos(rect_sum(g, c, x0, x1, y0, y1), a);
}

/// With blocks of side one, pixelation leaves the grid unchanged.
pub proof fn lemma_pixelate_unit(g: GridView)
    requires
        g.wf(),
    ensures
        pixelated(g, 1) == g,
{
    let f = |x: int, y: int, c: int| block_mean(g, 1, x / 1, y / 1, c) as u8;
    let r = pixelated(g, 1);
    assert forall|x: int, y: int, c: int| r.in_bounds(x, y) && 0 <= c < 4 implies #[trigger] r.at(x, y, c) == g.at(x, y, c) by {
        lemma_grid_from_at(g.width, g.height, f, x, y, c);
        assert(x / 1 == x && y / 1 == y);
        assert(row_sum(g, c, y, x, x) == 0);
        assert(row_sum(g, c, y, x, x + 1) == g.at(x, y, c));
        assert(rect_sum(g, c, x, x + 1, y, y) == 0);
        assert(rect_sum(g, c, x, x + 1, y, y + 1) == g.at(x, y, c));
        assert(x * 1 == x && y * 1 == y);
        assert(min_int(x + 1, g.width as int) == x + 1);
        assert(min_int(y + 1, g.height as int) == y + 1);
        assert((x + 1 - x) * (y + 1 - y) == 1);
        assert((g.at(x, y, c) as int) / 1 == g.at(x, y, c) as int);
        assert(block_mean(g, 1, x, y, c) == g.at(x, y, c) as int);
    }
    assert(r.wf());
    lemma_grid_ext(r, g);
}

/// With blocks at least as large as the grid, every cell takes the mean
/// colour (rounded down) of the whole grid.
pub proof fn lemma_pixelate_whole(g: GridView, s: nat)
    requires
        g.wf(),
        s >= g.width,
        s >= g.height,
    ensures
        forall|x: int, y: int, c: int| g.in_bounds(x, y) && 0 <= c < 4 ==>
            #[trigger] pixelated(g, s).at(x, y, c) as int
                == rect_sum(g, c, 0, g.width as int, 0, g.height as int) / (g.width * g.height) as int,
{
    let f = |x: int, y: int, c: int| block_mean(g, s, x / (s as int), y / (s as int), c) as u8;
    assert forall|x: int, y: int, c: int| g.in_bounds(x, y) && 0 <= c < 4 implies
        #[trigger] pixelated(g, s).at(x, y, c) as int
            == rect_sum(g, c, 0, g.width as int, 0, g.height as int) / (g.width * g.height) as int by {
        lemma_grid_from_at(g.width, g.height, f, x, y, c);
        vstd::arithmetic::div_mod::lemma_basic_div(x, s as int);
        vstd::arithmetic::div_mod::lemma_basic_div(y, s as int);
        lemma_rect_mean_bounds(g, c, 0, g.width as int, 0, g.height as int);
    }
}

} // verus!
