use vstd::prelude::*;
use vstd::arithmetic::div_mod::{
    lemma_div_is_ordered, lemma_div_multiples_vanish, lemma_multiply_divide_le,
    lemma_multiply_divide_lt,
};
use crate::config::Config;
use crate::error::HashError;
use crate::fingerprint::Fingerprint;
use crate::pixel::{PixelGrid, Rgb};

verus! {

// The mean-hash generator. The source grid is resampled to the configured
// cell grid by area averaging: each cell covers a rectangle of source
// pixels, and its value is the truncated mean of their luminances. A pixel's
// luminance uses the common luma weights 0.299 / 0.587 / 0.114, held here as
// exact integer thousandths (299 R + 587 G + 114 B, a value scaled by 1000),
// so every step is integer arithmetic with one fixed rounding rule:
// truncation. Each cell then contributes one bit, set exactly when the cell
// value is strictly greater than the truncated mean of all cell values, in
// row-major cell order; ties give a zero bit, so a uniform image always
// yields an all-zero fingerprint.

/// Luminance of a pixel, scaled by 1000: `299 R + 587 G + 114 B`.
pub open spec fn spec_lum(p: Rgb) -> int {
    299 * (p.r as int) + 587 * (p.g as int) + 114 * (p.b as int)
}

/// Sum of the luminances of row `y`, columns `x0` (inclusive) to `x1`
/// (exclusive), in a row-major buffer of row length `w`.
pub open spec fn row_sum(pix: Seq<Rgb>, w: int, y: int, x0: int, x1: int) -> int
    decreases x1 - x0,
{
    if x1 <= x0 {
        0
    } else {
        row_sum(pix, w, y, x0, x1 - 1) + spec_lum(pix[y * w + (x1 - 1)])
    }
}

/// Sum of the luminances of the rectangle of columns `x0 <= x < x1` and
/// rows `y0 <= y < y1`.
pub open spec fn region_sum(pix: Seq<Rgb>, w: int, x0: int, x1: int, y0: int, y1: int) -> int
    decreases y1 - y0,
{
    if y1 <= y0 {
        0
    } else {
        region_sum(pix, w, x0, x1, y0, y1 - 1) + row_sum(pix, w, y1 - 1, x0, x1)
    }
}

/// First source index covered by cell `g` of `dst` cells over `src` source
/// indices: `g * src / dst`, truncated.
pub open spec fn cell_start(g: int, src: int, dst: int) -> int {
    g * src / dst
}

/// One past the last source index covered by cell `g`. When upsampling makes
/// the raw end collide with the start, the cell takes a single source index,
/// so every cell averages at least one sample.
pub open spec fn cell_end(g: int, src: int, dst: int) -> int {
    let e = cell_start(g + 1, src, dst);
    if e <= cell_start(g, src, dst) {
        cell_start(g, src, dst) + 1
    } else {
        e
    }
}

/// The resampled luminance of cell `i` (row-major over a `gw` by `gh` cell
/// grid): the truncated mean of the luminances of the source rectangle the
/// cell covers.
pub open spec fn cell_value(pix: Seq<Rgb>, w: int, h: int, gw: int, gh: int, i: int) -> int {
    let gx = i % gw;
    let gy = i / gw;
    let x0 = cell_start(gx, w, gw);
    let x1 = cell_end(gx, w, gw);
    let y0 = cell_start(gy, h, gh);
    let y1 = cell_end(gy, h, gh);
    region_sum(pix, w, x0, x1, y0, y1) / ((x1 - x0) * (y1 - y0))
}

/// All `gw * gh` cell values in row-major order.
pub open spec fn cell_values(pix: Seq<Rgb>, w: int, h: int, gw: int, gh: int) -> Seq<int> {
    Seq::new((gw * gh) as nat, |i: int| cell_value(pix, w, h, gw, gh, i))
}

/// Sum of a sequence of integers.
pub open spec fn seq_total(s: Seq<int>) -> int
    decreases s.len(),
{
    if s.len() == 0 {
        0
    } else {
        seq_total(s.drop_last()) + s.last()
    }
}

/// The truncated arithmetic mean of a non-empty sequence.
pub open spec fn mean_value(s: Seq<int>) -> int
    recommends
        s.len() > 0,
{
    seq_total(s) / s.len() as int
}

/// The fingerprint of a pixel grid: one bit per cell, row-major, set exactly
/// when the cell's value strictly exceeds the mean cell value.
pub open spec fn fingerprint_bits(pix: Seq<Rgb>, w: int, h: int, gw: int, gh: int) -> Seq<
    bool,
> {
    let cells = cell_values(pix, w, h, gw, gh);
    Seq::new(cells.len(), |i: int| cells[i] > mean_value(cells))
}

/// Determinism: the fingerprint is a function of the pixel grid and the
/// configuration alone, so two independently generated results from equal
/// inputs carry identical bits.
pub proof fn lemma_generate_deterministic(
    pix: Seq<Rgb>,
    w: int,
    h: int,
    gw: int,
    gh: int,
    b1: Seq<bool>,
    b2: Seq<bool>,
)
    requires
        b1 == fingerprint_bits(pix, w, h, gw, gh),
        b2 == fingerprint_bits(pix, w, h, gw, gh),
    ensures
        b1 == b2,
{
}

/// A luminance is at most 255000, so a row's sum is bounded by its width.
pub proof fn lemma_row_sum_bounds(pix: Seq<Rgb>, w: int, y: int, x0: int, x1: int)
    requires
        x0 <= x1,
    ensures
        0 <= row_sum(pix, w, y, x0, x1) <= 255000 * (x1 - x0),
    decreases x1 - x0,
{
    if x1 > x0 {
        lemma_row_sum_bounds(pix, w, y, x0, x1 - 1);
    }
}

/// A region's luminance sum is bounded by its area.
pub proof fn lemma_region_sum_bounds(pix: Seq<Rgb>, w: int, x0: int, x1: int, y0: int, y1: int)
    requires
        x0 <= x1,
        y0 <= y1,
    ensures
        0 <= region_sum(pix, w, x0, x1, y0, y1) <= 255000 * ((y1 - y0) * (x1 - x0)),
    decreases y1 - y0,
{
    if y1 > y0 {
        lemma_region_sum_bounds(pix, w, x0, x1, y0, y1 - 1);
        lemma_row_sum_bounds(pix, w, y1 - 1, x0, x1);
        assert(255000 * ((y1 - 1 - y0) * (x1 - x0)) + 255000 * (x1 - x0) == 255000 * ((y1 - y0)
            * (x1 - x0))) by (nonlinear_arith);
    }
}

/// Exact integer luminance of a pixel, scaled by 1000.
pub fn lum_milli(p: Rgb) -> (r: u32)
    ensures
        r as int == spec_lum(p),
        r <= 255000,
{
    299 * (p.r as u32) + 587 * (p.g as u32) + 114 * (p.b as u32)
}

/// The truncated quotient `g * src / dst`, computed without overflow.
fn cell_edge(g: usize, src: usize, dst: usize) -> (r: usize)
    requires
        1 <= dst,
        g <= dst,
    ensures
        r as int == cell_start(g as int, src as int, dst as int),
        r <= src,
{
    proof {
        assert((g as int) * (src as int) <= (dst as int) * (src as int)) by (nonlinear_arith)
            requires
                g <= dst,
                0 <= src,
        ;
        lemma_multiply_divide_le((g as int) * (src as int), dst as int, src as int);
        assert((g as int) * (src as int) < u128::MAX) by (nonlinear_arith)
            requires
                0 <= g <= usize::MAX,
                0 <= src <= usize::MAX,
        ;
    }
    let q = (g as u128 * src as u128) / (dst as u128);
    q as usize
}

/// Generates the fingerprint of `grid` under `config`: never fails for a
/// non-empty grid, and rejects a grid of zero width or height with
/// `InvalidInput` rather than guessing.
#[verifier::loop_isolation(false)]
pub fn generate(grid: &PixelGrid, config: &Config) -> (r: Result<Fingerprint, HashError>)
    requires
        grid.wf(),
        config.wf(),
    ensures
        r is Ok <==> 1 <= grid.spec_width() && 1 <= grid.spec_height(),
        r matches Ok(f) ==> f@ == fingerprint_bits(
            grid.spec_pixels(),
            grid.spec_width() as int,
            grid.spec_height() as int,
            config.spec_grid_width() as int,
            config.spec_grid_height() as int,
        ) && f@.len() == config.spec_bit_count(),
        r is Err ==> r == Err::<Fingerprint, HashError>(HashError::InvalidInput),
{
    let w = grid.width();
    let h = grid.height();
    if w == 0 || h == 0 {
        return Err(HashError::InvalidInput);
    }
    let gw = config.grid_width();
    let gh = config.grid_height();
    let bc = config.bit_count();
    proof {
        assert(1 <= bc) by (nonlinear_arith)
            requires
                1 <= gw,
                1 <= gh,
                bc as int == (gw as int) * (gh as int),
        ;
    }
    let ghost pix = grid.spec_pixels();
    let ghost wi = w as int;
    let ghost hi = h as int;
    let n_pix = grid.pixel_count();
    proof {
        assert(n_pix as int == pix.len());
        assert(pix.len() == wi * hi);
        assert(hi * wi == wi * hi) by (nonlinear_arith);
        assert(hi * wi <= usize::MAX);
    }
    let ghost cellseq = cell_values(pix, wi, hi, gw as int, gh as int);
    let mut cells: Vec<u32> = Vec::new();
    let mut i: usize = 0;
    while i < bc
        invariant
            i <= bc,
            cells@.len() == i,
            forall|t: int| 0 <= t < i ==> cells@[t] as int == cellseq[t],
            forall|t: int| 0 <= t < i ==> cells@[t] <= 255000,
        decreases bc - i,
    {
        let gx = i % gw;
        let gy = i / gw;
        proof {
            assert(gy < gh) by {
                lemma_multiply_divide_lt(i as int, gw as int, gh as int);
            }
        }
        let x0 = cell_edge(gx, w, gw);
        proof {
            assert((gx as int) * wi < (gw as int) * wi) by (nonlinear_arith)
                requires
                    gx < gw,
                    1 <= wi,
            ;
            assert(x0 < w) by {
                lemma_multiply_divide_lt((gx as int) * wi, gw as int, wi);
            }
        }
        let xe = cell_edge(gx + 1, w, gw);
        let x1 = if xe <= x0 {
            x0 + 1
        } else {
            xe
        };
        let y0 = cell_edge(gy, h, gh);
        proof {
            assert((gy as int) * hi < (gh as int) * hi) by (nonlinear_arith)
                requires
                    gy < gh,
                    1 <= hi,
            ;
            assert(y0 < h) by {
                lemma_multiply_divide_lt((gy as int) * hi, gh as int, hi);
            }
        }
        let ye = cell_edge(gy + 1, h, gh);
        let y1 = if ye <= y0 {
            y0 + 1
        } else {
            ye
        };
        proof {
            assert(x1 as int == cell_end(gx as int, wi, gw as int));
            assert(y1 as int == cell_end(gy as int, hi, gh as int));
        }
        let mut total: u128 = 0;
        let mut y = y0;
        while y < y1
            invariant
                y0 <= y <= y1,
                x0 < x1 <= w,
                y1 <= h,
                total as int == region_sum(pix, wi, x0 as int, x1 as int, y0 as int, y as int),
            decreases y1 - y,
        {
            let mut x = x0;
            while x < x1
                invariant
                    x0 <= x <= x1,
                    y < y1,
                    total as int == region_sum(pix, wi, x0 as int, x1 as int, y0 as int, y as int)
                        + row_sum(pix, wi, y as int, x0 as int, x as int),
                decreases x1 - x,
            {
                proof {
                    assert((y as int) * wi + (x as int) < hi * wi) by (nonlinear_arith)
                        requires
                            y < hi,
                            x < wi,
                            0 <= y,
                            0 <= x,
                    ;
                    lemma_region_sum_bounds(pix, wi, x0 as int, x1 as int, y0 as int, y as int);
                    lemma_row_sum_bounds(pix, wi, y as int, x0 as int, x as int);
                    assert(total as int <= 255000 * (((y - y0) as int) * ((x1 - x0) as int))
                        + 255000 * ((x - x0) as int));
                    assert(total as int + 255000 < u128::MAX) by (nonlinear_arith)
                        requires
                            total as int <= 255000 * (((y - y0) as int) * ((x1 - x0) as int))
                                + 255000 * ((x - x0) as int),
                            0 <= (y - y0) as int <= hi,
                            0 <= (x - x0) as int <= wi,
                            0 < (x1 - x0) as int <= wi,
                            0 <= wi <= usize::MAX,
                            0 <= hi <= usize::MAX,
                            0 <= hi * wi <= usize::MAX,
                    ;
                }
                let p = grid.pixel(y * w + x);
                let l = lum_milli(p);
                total = total + l as u128;
                x = x + 1;
            }
            y = y + 1;
        }
        proof {
            assert(((x1 - x0) as int) * ((y1 - y0) as int) < u128::MAX) by (nonlinear_arith)
                requires
                    0 <= (x1 - x0) as int <= usize::MAX,
                    0 <= (y1 - y0) as int <= usize::MAX,
            ;
        }
        let area = (x1 - x0) as u128 * (y1 - y0) as u128;
        proof {
            lemma_region_sum_bounds(pix, wi, x0 as int, x1 as int, y0 as int, y1 as int);
            assert(area as int == (x1 - x0) as int * (y1 - y0) as int);
            assert(255000 * (((y1 - y0) as int) * ((x1 - x0) as int)) == 255000 * (area as int))
                by (nonlinear_arith)
                requires
                    area as int == (x1 - x0) as int * (y1 - y0) as int,
            ;
            assert(0 < area as int) by (nonlinear_arith)
                requires
                    0 < (x1 - x0) as int,
                    0 < (y1 - y0) as int,
                    area as int == (x1 - x0) as int * (y1 - y0) as int,
            ;
            lemma_div_is_ordered(total as int, 255000 * (area as int), area as int);
            lemma_div_multiples_vanish(255000, area as int);
        }
        let cellv = total / area;
        let cell32 = cellv as u32;
        proof {
            assert(cell32 as int == cell_value(pix, wi, hi, gw as int, gh as int, i as int));
        }
        cells.push(cell32);
        i = i + 1;
    }
    let ghost cell_ints = cells@.map_values(|c: u32| c as int);
    proof {
        assert(cell_ints =~= cellseq);
    }
    let mut total_all: u128 = 0;
    let mut j: usize = 0;
    while j < bc
        invariant
            j <= bc,
            total_all as int == seq_total(cell_ints.subrange(0, j as int)),
            total_all as int <= 255000 * (j as int),
        decreases bc - j,
    {
        proof {
            assert(cell_ints.subrange(0, j as int + 1).drop_last() =~= cell_ints.subrange(
                0,
                j as int,
            ));
            assert(255000 * (j as int) + 255000 == 255000 * (j as int + 1));
            assert(255000 * (j as int + 1) <= 255000 * (bc as int)) by (nonlinear_arith)
                requires
                    j as int + 1 <= bc as int,
            ;
        }
        total_all = total_all + cells[j] as u128;
        j = j + 1;
    }
    proof {
        assert(cell_ints.subrange(0, bc as int) =~= cell_ints);
    }
    let mean = total_all / bc as u128;
    proof {
        assert(mean as int == mean_value(cellseq));
    }
    let mut bitvec: Vec<bool> = Vec::new();
    let mut t: usize = 0;
    while t < bc
        invariant
            t <= bc,
            bitvec@.len() == t,
            forall|q: int| 0 <= q < t ==> bitvec@[q] == (cellseq[q] > mean_value(cellseq)),
        decreases bc - t,
    {
        bitvec.push((cells[t] as u128) > mean);
        t = t + 1;
    }
    proof {
        assert(bitvec@ =~= fingerprint_bits(pix, wi, hi, gw as int, gh as int));
    }
    Ok(Fingerprint::from_bits(bitvec))
}

} // verus!
