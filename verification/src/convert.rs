//! The tile converter: adjusts each tile, scores every glyph against it and
//! selects the best. Equal scores go to the glyph that comes first in the
//! catalog.

use vstd::prelude::*;
use crate::error::ConversionError;
use crate::font::{Catalog, CatalogModel};
use crate::frame::{Frame, FrameModel};
use crate::grid::{rectangular, rows_view, CharGrid};
use crate::metrics::{score, score_glyph, Metric};
use crate::sampler::{
    lemma_rows_preserve_aspect, lemma_single_pixel_frame, sampler_outcome, Sampler, SamplerModel,
};

verus! {

/// What is done to a tile's luminance before glyphs are scored against it.
#[derive(Clone, Copy, Debug, PartialEq, Eq)]
pub struct Adjustment {
    /// Added to every luminance value; negative darkens.
    pub brightness_offset: i32,
    /// Largest perturbation, up or down, that noise adds to a luminance value.
    pub noise_scale: u8,
    /// Selects the noise pattern. Without noise it has no effect.
    pub noise_seed: u64,
    /// Whether luminance edges inside the tile are steepened before matching.
    pub edge_detection: bool,
}

/// One step of the generator behind the noise pattern.
pub open spec fn mix(a: int, b: int) -> int {
    (a * 6364136223846793005 + b + 1442695040888963407) % 0x1_0000_0000_0000_0000
}

/// The perturbation of pixel `p` of the tile in row `row` and column `col`:
/// a value between `-scale` and `scale` that depends on nothing but the seed
/// and the pixel's place.
pub open spec fn noise(scale: u8, seed: u64, row: int, col: int, p: int) -> int {
    (mix(mix(mix(seed as int, row), col), p) / 0x1_0000_0000) % (2 * scale + 1) - scale
}

/// Noise is bounded by its scale, and without scale there is none.
pub proof fn lemma_noise_is_bounded(scale: u8, seed: u64, row: int, col: int, p: int)
    ensures
        -scale <= noise(scale, seed, row, col, p) <= scale,
        scale == 0 ==> noise(scale, seed, row, col, p) == 0,
{
}

/// The nearest luminance value.
pub open spec fn clamp_luma(v: int) -> int {
    if v < 0 {
        0
    } else if v > 255 {
        255
    } else {
        v
    }
}

/// The tile after brightness offset and noise.
pub open spec fn adjusted(tile: Seq<u8>, adj: Adjustment, row: int, col: int) -> Seq<u8> {
    Seq::new(
        tile.len(),
        |p: int|
            clamp_luma(
                tile[p] + adj.brightness_offset + noise(
                    adj.noise_scale,
                    adj.noise_seed,
                    row,
                    col,
                    p,
                ),
            ) as u8,
    )
}

/// Pixel `p` of the tile after steepening: five times its luminance less that
/// of its four neighbours, clamped. At the tile's border a missing neighbour
/// counts as the pixel itself.
pub open spec fn sharpened_pixel(tile: Seq<u8>, width: int, p: int) -> int {
    let here = tile[p] as int;
    let left = if p % width > 0 {
        tile[p - 1] as int
    } else {
        here
    };
    let right = if p % width + 1 < width && p + 1 < tile.len() {
        tile[p + 1] as int
    } else {
        here
    };
    let up = if p >= width {
        tile[p - width] as int
    } else {
        here
    };
    let down = if p + width < tile.len() {
        tile[p + width] as int
    } else {
        here
    };
    clamp_luma(5 * here - left - right - up - down)
}

/// The tile with its luminance edges steepened.
pub open spec fn sharpened(tile: Seq<u8>, width: int) -> Seq<u8> {
    Seq::new(tile.len(), |p: int| sharpened_pixel(tile, width, p) as u8)
}

/// The tile as glyphs are scored against it.
pub open spec fn prepared(tile: Seq<u8>, width: int, adj: Adjustment, row: int, col: int) -> Seq<
    u8,
> {
    if adj.edge_detection {
        sharpened(adjusted(tile, adj, row, col), width)
    } else {
        adjusted(tile, adj, row, col)
    }
}

/// Position of the first least value.
pub open spec fn first_min(s: Seq<int>) -> int
    decreases s.len(),
{
    if s.len() <= 1 {
        0
    } else {
        let k = first_min(s.drop_last());
        if s.last() < s[k] {
            s.len() - 1
        } else {
            k
        }
    }
}

/// `first_min` names a least value, and no value before it is as small.
pub proof fn lemma_first_min(s: Seq<int>)
    requires
        s.len() >= 1,
    ensures
        0 <= first_min(s) < s.len(),
        forall|j: int| 0 <= j < s.len() ==> s[first_min(s)] <= #[trigger] s[j],
        forall|j: int| 0 <= j < first_min(s) ==> s[first_min(s)] < #[trigger] s[j],
    decreases s.len(),
{
    if s.len() > 1 {
        let t = s.drop_last();
        lemma_first_min(t);
        assert forall|j: int| 0 <= j < s.len() implies s[first_min(s)] <= #[trigger] s[j] by {
            if j < t.len() {
                assert(t[j] == s[j]);
            }
        }
        assert forall|j: int| 0 <= j < first_min(s) implies s[first_min(s)] < #[trigger] s[j] by {
            assert(t[j] == s[j]);
        }
    }
}

/// A position that holds a least value with no equal before it is `first_min`.
pub proof fn lemma_first_min_is(s: Seq<int>, k: int)
    requires
        0 <= k < s.len(),
        forall|j: int| 0 <= j < s.len() ==> s[k] <= #[trigger] s[j],
        forall|j: int| 0 <= j < k ==> s[k] < #[trigger] s[j],
    ensures
        first_min(s) == k,
{
    lemma_first_min(s);
    let m = first_min(s);
    if m < k {
        assert(s[k] < s[m]);
        assert(s[m] <= s[k]);
    } else if k < m {
        assert(s[m] < s[k]);
        assert(s[k] <= s[m]);
    }
}

/// The score of every glyph of the catalog against a tile, in catalog order.
pub open spec fn glyph_scores(metric: Metric, tile: Seq<u8>, catalog: CatalogModel) -> Seq<int> {
    Seq::new(
        catalog.glyphs.len(),
        |i: int| score(metric, tile, catalog.glyphs[i].mask, catalog.cell_width as int),
    )
}

/// Position of the glyph that matches the tile best: the lowest score, and
/// among equal scores the first in catalog order.
pub open spec fn best_glyph_index(metric: Metric, tile: Seq<u8>, catalog: CatalogModel) -> int {
    first_min(glyph_scores(metric, tile, catalog))
}

/// The character selected for the tile in row `row` and column `col`.
pub open spec fn cell_char(
    s: SamplerModel,
    catalog: CatalogModel,
    metric: Metric,
    adj: Adjustment,
    row: int,
    col: int,
) -> char {
    catalog.glyphs[best_glyph_index(
        metric,
        prepared(s.tile(row, col), s.cell_width as int, adj, row, col),
        catalog,
    )].ch
}

/// The characters selected for the tiles of row `row`.
pub open spec fn converted_row(
    s: SamplerModel,
    catalog: CatalogModel,
    metric: Metric,
    adj: Adjustment,
    row: int,
) -> Seq<char> {
    Seq::new(s.cols, |col: int| cell_char(s, catalog, metric, adj, row, col))
}

/// The characters selected for all tiles, row by row.
pub open spec fn converted(
    s: SamplerModel,
    catalog: CatalogModel,
    metric: Metric,
    adj: Adjustment,
) -> Seq<Seq<char>> {
    Seq::new(s.rows() as nat, |row: int| converted_row(s, catalog, metric, adj, row))
}

/// What a conversion yields: the grid, or the reason for which it is refused.
/// The number of workers decides only whether the request is valid.
pub open spec fn conversion_outcome(
    catalog: CatalogModel,
    frame: FrameModel,
    metric: Metric,
    width: nat,
    adj: Adjustment,
    threads: nat,
) -> Result<Seq<Seq<char>>, ConversionError> {
    if threads == 0 {
        Err(ConversionError::InvalidThreadCount)
    } else {
        match sampler_outcome(frame, width, catalog.cell_width, catalog.cell_height) {
            Ok(s) => Ok(converted(s, catalog, metric, adj)),
            Err(e) => Err(e),
        }
    }
}

/// First row of the share of worker `w` among `workers`; its share ends where
/// the next worker's begins.
pub open spec fn span_start(rows: int, workers: int, w: int) -> int {
    w * rows / workers
}

/// The workers' shares are consecutive stretches that together make up all rows.
pub proof fn lemma_spans_cover(rows: int, workers: int, w: int)
    requires
        0 <= rows,
        1 <= workers,
        0 <= w < workers,
    ensures
        span_start(rows, workers, 0) == 0,
        span_start(rows, workers, workers) == rows,
        0 <= span_start(rows, workers, w) <= span_start(rows, workers, w + 1) <= rows,
{
    assert(0 * rows == 0);
    assert(workers * rows / workers == rows) by {
        vstd::arithmetic::div_mod::lemma_div_multiples_vanish(rows, workers);
        assert(workers * rows == rows * workers) by (nonlinear_arith);
    }
    assert(0 <= w * rows <= (w + 1) * rows <= workers * rows) by (nonlinear_arith)
        requires
            0 <= rows,
            0 <= w < workers,
    ;
    vstd::arithmetic::div_mod::lemma_div_is_ordered(w * rows, (w + 1) * rows, workers);
    vstd::arithmetic::div_mod::lemma_div_is_ordered((w + 1) * rows, workers * rows, workers);
    vstd::arithmetic::div_mod::lemma_div_is_ordered(0, w * rows, workers);
}

/// Without noise the seed has no effect on a tile.
pub proof fn lemma_seed_is_idle_without_noise(tile: Seq<u8>, a: Adjustment, b: Adjustment, row: int, col: int)
    requires
        a.noise_scale == 0,
        b.noise_scale == 0,
        a.brightness_offset == b.brightness_offset,
    ensures
        adjusted(tile, a, row, col) == adjusted(tile, b, row, col),
{
    assert(adjusted(tile, a, row, col) =~= adjusted(tile, b, row, col));
}

/// A conversion is a function of its inputs, and neither the number of workers
/// nor, without noise, the seed is among those that the grid depends on: two
/// conversions of one frame with one catalog, metric, width, brightness offset
/// and edge setting, both without noise and both with at least one worker,
/// yield the same.
pub proof fn lemma_conversion_deterministic(
    catalog: CatalogModel,
    frame: FrameModel,
    metric: Metric,
    width: nat,
    a: Adjustment,
    b: Adjustment,
    threads_a: nat,
    threads_b: nat,
)
    requires
        a.noise_scale == 0,
        b.noise_scale == 0,
        a.brightness_offset == b.brightness_offset,
        a.edge_detection == b.edge_detection,
        threads_a >= 1,
        threads_b >= 1,
    ensures
        conversion_outcome(catalog, frame, metric, width, a, threads_a) == conversion_outcome(
            catalog,
            frame,
            metric,
            width,
            b,
            threads_b,
        ),
{
    match sampler_outcome(frame, width, catalog.cell_width, catalog.cell_height) {
        Ok(s) => {
            assert forall|row: int| 0 <= row < s.rows() implies converted_row(
                s,
                catalog,
                metric,
                a,
                row,
            ) == converted_row(s, catalog, metric, b, row) by {
                assert forall|col: int| 0 <= col < s.cols implies cell_char(
                    s,
                    catalog,
                    metric,
                    a,
                    row,
                    col,
                ) == cell_char(s, catalog, metric, b, row, col) by {
                    lemma_seed_is_idle_without_noise(s.tile(row, col), a, b, row, col);
                }
                assert(converted_row(s, catalog, metric, a, row) =~= converted_row(
                    s,
                    catalog,
                    metric,
                    b,
                    row,
                ));
            }
            assert(converted(s, catalog, metric, a) =~= converted(s, catalog, metric, b));
        },
        Err(_) => {},
    }
}

/// A conversion that succeeds yields as many columns as were asked for, and
/// the number of rows that keeps the frame's aspect ratio.
pub proof fn lemma_conversion_dimensions(
    catalog: CatalogModel,
    frame: FrameModel,
    metric: Metric,
    width: nat,
    adj: Adjustment,
    threads: nat,
)
    requires
        frame.wf(),
        conversion_outcome(catalog, frame, metric, width, adj, threads) is Ok,
    ensures
        ({
            let grid = conversion_outcome(catalog, frame, metric, width, adj, threads)->Ok_0;
            let s = SamplerModel {
                frame,
                cell_width: catalog.cell_width,
                cell_height: catalog.cell_height,
                cols: width,
            };
            &&& rectangular(grid, width)
            &&& grid.len() == s.rows()
            &&& grid.len() >= 1
            &&& width >= 1
        }),
{
    let s = sampler_outcome(frame, width, catalog.cell_width, catalog.cell_height)->Ok_0;
    lemma_rows_preserve_aspect(s);
}

/// A frame of a single pixel converts without failure: at a width of one
/// column, and with a cell that is not wider than high, the grid is a single
/// character of the catalog.
pub proof fn lemma_single_pixel_converts(
    catalog: CatalogModel,
    frame: FrameModel,
    metric: Metric,
    adj: Adjustment,
    threads: nat,
)
    requires
        catalog.wf(),
        frame.wf(),
        frame.width == 1,
        frame.height == 1,
        catalog.cell_width <= catalog.cell_height,
        threads >= 1,
    ensures
        conversion_outcome(catalog, frame, metric, 1, adj, threads) is Ok,
        conversion_outcome(catalog, frame, metric, 1, adj, threads)->Ok_0.len() == 1,
        conversion_outcome(catalog, frame, metric, 1, adj, threads)->Ok_0[0].len() == 1,
        catalog.has(conversion_outcome(catalog, frame, metric, 1, adj, threads)->Ok_0[0][0]),
{
    let m = SamplerModel {
        frame,
        cell_width: catalog.cell_width,
        cell_height: catalog.cell_height,
        cols: 1,
    };
    let cw = catalog.cell_width as int;
    assert(m.scaled_width() == cw) by (nonlinear_arith)
        requires
            m.scaled_width() == 1 * cw,
    ;
    assert(1 * cw == cw);
    assert(m.scaled_height() == cw);
    assert(m.wf());
    lemma_rows_preserve_aspect(m);
    assert(m.area() >= 1) by (nonlinear_arith)
        requires
            m.area() == m.cell_width * m.cell_height,
            m.cell_width >= 1,
            m.cell_height >= 1,
    ;
    lemma_single_pixel_frame(m, 0, 0, 0);
    let grid = converted(m, catalog, metric, adj);
    let tile = prepared(m.tile(0, 0), m.cell_width as int, adj, 0, 0);
    lemma_first_min(glyph_scores(metric, tile, catalog));
    let k = best_glyph_index(metric, tile, catalog);
    assert(grid[0][0] == catalog.glyphs[k].ch);
}

/// One step of the generator behind the noise pattern.
fn mix_step(a: u64, b: u64) -> (h: u64)
    ensures
        h as int == mix(a as int, b as int),
{
    assert(0 <= a * 6364136223846793005 <= 0xffff_ffff_ffff_ffff * 6364136223846793005)
        by (nonlinear_arith)
        requires
            0 <= a <= 0xffff_ffff_ffff_ffff,
    ;
    let t: u128 = a as u128 * 6364136223846793005u128 + b as u128 + 1442695040888963407u128;
    (t % 0x1_0000_0000_0000_0000u128) as u64
}

/// The perturbation of one pixel.
fn noise_at(scale: u8, seed: u64, row: u32, col: u32, p: usize) -> (v: i32)
    ensures
        v as int == noise(scale, seed, row as int, col as int, p as int),
        -255 <= v <= 255,
{
    let h: u64 = mix_step(mix_step(mix_step(seed, row as u64), col as u64), p as u64);
    let span: u64 = 2 * (scale as u64) + 1;
    let r: u64 = (h / 0x1_0000_0000) % span;
    r as i32 - scale as i32
}

/// Applies brightness offset and noise to the tile in row `row` and column `col`.
pub fn adjust_tile(tile: &Vec<u8>, adj: &Adjustment, row: u32, col: u32) -> (out: Vec<u8>)
    ensures
        out@ == adjusted(tile@, *adj, row as int, col as int),
{
    let n: usize = tile.len();
    let mut out: Vec<u8> = Vec::new();
    let mut p: usize = 0;
    while p < n
        invariant
            p <= n,
            n == tile@.len(),
            out@.len() == p,
            forall|q: int|
                0 <= q < p ==> out@[q] == adjusted(tile@, *adj, row as int, col as int)[q],
        decreases n - p,
    {
        let shifted: i64 = tile[p] as i64 + adj.brightness_offset as i64 + noise_at(
            adj.noise_scale,
            adj.noise_seed,
            row,
            col,
            p,
        ) as i64;
        let value: u8 = if shifted < 0 {
            0
        } else if shifted > 255 {
            255
        } else {
            shifted as u8
        };
        out.push(value);
        p = p + 1;
    }
    assert(out@ =~= adjusted(tile@, *adj, row as int, col as int));
    out
}

/// Steepens the luminance edges of a tile whose rows are `width` pixels long.
pub fn sharpen_tile(tile: &Vec<u8>, width: usize) -> (out: Vec<u8>)
    requires
        width >= 1,
    ensures
        out@ == sharpened(tile@, width as int),
{
    let n: usize = tile.len();
    let mut out: Vec<u8> = Vec::new();
    let mut p: usize = 0;
    while p < n
        invariant
            p <= n,
            n == tile@.len(),
            width >= 1,
            out@.len() == p,
            forall|q: int| 0 <= q < p ==> out@[q] as int == sharpened_pixel(tile@, width as int, q),
        decreases n - p,
    {
        let here: i32 = tile[p] as i32;
        let left: i32 = if p % width > 0 {
            assert(p > 0) by {
                if p == 0 {
                    vstd::arithmetic::div_mod::lemma_small_mod(0, width as nat);
                }
            }
            tile[p - 1] as i32
        } else {
            here
        };
        let right: i32 = if p % width + 1 < width && 1 < n - p {
            tile[p + 1] as i32
        } else {
            here
        };
        let up: i32 = if p >= width {
            tile[p - width] as i32
        } else {
            here
        };
        let down: i32 = if width < n - p {
            tile[p + width] as i32
        } else {
            here
        };
        let steep: i32 = 5 * here - left - right - up - down;
        let value: u8 = if steep < 0 {
            0
        } else if steep > 255 {
            255
        } else {
            steep as u8
        };
        out.push(value);
        p = p + 1;
    }
    assert(out@ =~= sharpened(tile@, width as int));
    out
}

/// Finds the glyph that matches a tile of the catalog's cell size best.
pub fn best_glyph(metric: Metric, tile: &Vec<u8>, catalog: &Catalog) -> (k: usize)
    requires
        tile@.len() == catalog@.area(),
    ensures
        k as int == best_glyph_index(metric, tile@, catalog@),
        k < catalog@.glyphs.len(),
        catalog@.wf(),
{
    let n: usize = catalog.len();
    let ghost all = glyph_scores(metric, tile@, catalog@);
    let mut k: usize = 0;
    let mut least: u64 = score_glyph(metric, tile, catalog, 0);
    let mut i: usize = 1;
    assert(first_min(all.take(1)) == 0);
    while i < n
        invariant
            1 <= i <= n,
            n == catalog@.glyphs.len(),
            tile@.len() == catalog@.area(),
            all == glyph_scores(metric, tile@, catalog@),
            k < i,
            k as int == first_min(all.take(i as int)),
            least as int == all[k as int],
        decreases n - i,
    {
        let s: u64 = score_glyph(metric, tile, catalog, i);
        proof {
            assert(all.take(i + 1).drop_last() =~= all.take(i as int));
            assert(all.take(i + 1).last() == all[i as int]);
            assert(all.take(i + 1)[k as int] == all[k as int]);
        }
        if s < least {
            least = s;
            k = i;
        }
        i = i + 1;
    }
    assert(all.take(n as int) =~= all);
    k
}

/// Selects the character for the tile in row `row` and column `col`.
pub fn convert_tile(
    sampler: &Sampler,
    catalog: &Catalog,
    metric: Metric,
    adj: &Adjustment,
    row: u32,
    col: u32,
) -> (c: char)
    requires
        sampler@.cell_width == catalog@.cell_width,
        sampler@.cell_height == catalog@.cell_height,
        row < sampler@.rows(),
        col < sampler@.cols,
    ensures
        c == cell_char(sampler@, catalog@, metric, *adj, row as int, col as int),
{
    let (cell_width, _) = catalog.cell_dimensions();
    let tile = sampler.tile(row, col);
    let lit = adjust_tile(&tile, adj, row, col);
    let ready = if adj.edge_detection {
        sharpen_tile(&lit, cell_width as usize)
    } else {
        lit
    };
    let k = best_glyph(metric, &ready, catalog);
    catalog.glyph(k).ch()
}

/// Selects the characters for the tile rows from `start` up to, not
/// including, `end`: the share of one worker.
pub fn convert_rows(
    sampler: &Sampler,
    catalog: &Catalog,
    metric: Metric,
    adj: &Adjustment,
    start: u32,
    end: u32,
) -> (out: Vec<Vec<char>>)
    requires
        sampler@.cell_width == catalog@.cell_width,
        sampler@.cell_height == catalog@.cell_height,
        start <= end <= sampler@.rows(),
    ensures
        out@.len() == end - start,
        forall|i: int|
            0 <= i < end - start ==> (#[trigger] out@[i])@ == converted_row(
                sampler@,
                catalog@,
                metric,
                *adj,
                start + i,
            ),
{
    let cols: u32 = sampler.cols();
    let mut out: Vec<Vec<char>> = Vec::new();
    let mut row: u32 = start;
    while row < end
        invariant
            start <= row <= end,
            end <= sampler@.rows(),
            cols == sampler@.cols,
            sampler@.cell_width == catalog@.cell_width,
            sampler@.cell_height == catalog@.cell_height,
            out@.len() == row - start,
            forall|i: int|
                0 <= i < row - start ==> (#[trigger] out@[i])@ == converted_row(
                    sampler@,
                    catalog@,
                    metric,
                    *adj,
                    start + i,
                ),
        decreases end - row,
    {
        let mut line: Vec<char> = Vec::new();
        let mut col: u32 = 0;
        while col < cols
            invariant
                col <= cols,
                row < end,
                end <= sampler@.rows(),
                cols == sampler@.cols,
                sampler@.cell_width == catalog@.cell_width,
                sampler@.cell_height == catalog@.cell_height,
                line@.len() == col,
                forall|j: int|
                    0 <= j < col ==> line@[j] == cell_char(
                        sampler@,
                        catalog@,
                        metric,
                        *adj,
                        row as int,
                        j,
                    ),
            decreases cols - col,
        {
            let c = convert_tile(sampler, catalog, metric, adj, row, col);
            line.push(c);
            col = col + 1;
        }
        assert(line@ =~= converted_row(sampler@, catalog@, metric, *adj, row as int));
        out.push(line);
        row = row + 1;
    }
    out
}

/// Number of workers that share the rows: as many as were asked for, but no
/// more than there are rows.
pub fn worker_count(rows: u32, threads: usize) -> (n: u32)
    requires
        rows >= 1,
        threads >= 1,
    ensures
        n as int == if threads <= rows {
            threads as int
        } else {
            rows as int
        },
        1 <= n <= rows,
{
    if threads <= rows as usize {
        threads as u32
    } else {
        rows
    }
}

/// The share of worker `w` among `workers`: its first row, and the row after its last.
pub fn worker_span(rows: u32, workers: u32, w: u32) -> (span: (u32, u32))
    requires
        workers >= 1,
        w < workers,
    ensures
        span.0 as int == span_start(rows as int, workers as int, w as int),
        span.1 as int == span_start(rows as int, workers as int, w + 1),
        span.0 <= span.1 <= rows,
{
    proof {
        lemma_spans_cover(rows as int, workers as int, w as int);
    }
    assert(0 <= w * rows <= 0xffff_ffff * 0xffff_ffff && 0 <= (w + 1) * rows <= 0xffff_ffff
        * 0xffff_ffff) by (nonlinear_arith)
        requires
            0 <= w < 0xffff_ffff,
            0 <= rows <= 0xffff_ffff,
    ;
    let a: u64 = w as u64 * rows as u64 / workers as u64;
    let b: u64 = (w as u64 + 1) * rows as u64 / workers as u64;
    (a as u32, b as u32)
}

/// Converts a frame into a grid of `width` columns of characters of the
/// catalog. The rows are shared among `threads` workers, whose shares are
/// worked off one after the other; the grid does not depend on their number.
///
/// Fails with `InvalidThreadCount` for no worker; otherwise with
/// `InvalidConfiguration` for a width of zero, with `EmptyImage` for a frame
/// without pixels, and with `InvalidConfiguration` where the scaled image
/// would be larger than 32 bits can address.
pub fn img_to_char_rows(
    font: &Catalog,
    img: &Frame,
    metric: Metric,
    width: usize,
    adj: &Adjustment,
    threads: usize,
) -> (r: Result<CharGrid, ConversionError>)
    ensures
        match r {
            Ok(g) => conversion_outcome(font@, img@, metric, width as nat, *adj, threads as nat)
                == Ok::<Seq<Seq<char>>, ConversionError>(g@) && g.spec_cols() == width,
            Err(e) => conversion_outcome(font@, img@, metric, width as nat, *adj, threads as nat)
                == Err::<Seq<Seq<char>>, ConversionError>(e),
        },
{
    if threads == 0 {
        return Err(ConversionError::InvalidThreadCount);
    }
    let sampler = match Sampler::new(img, width, font.cell_dimensions()) {
        Ok(s) => s,
        Err(e) => {
            return Err(e);
        },
    };
    let ghost s = sampler@;
    let ghost whole = converted(s, font@, metric, *adj);
    let rows: u32 = sampler.rows();
    proof {
        lemma_rows_preserve_aspect(s);
    }
    let workers: u32 = worker_count(rows, threads);
    let mut lines: Vec<Vec<char>> = Vec::new();
    let mut w: u32 = 0;
    proof {
        lemma_spans_cover(rows as int, workers as int, 0);
    }
    while w < workers
        invariant
            w <= workers,
            1 <= workers <= rows,
            s == sampler@,
            rows == s.rows(),
            s.cell_width == font@.cell_width,
            s.cell_height == font@.cell_height,
            whole == converted(s, font@, metric, *adj),
            lines@.len() == span_start(rows as int, workers as int, w as int),
            forall|i: int| 0 <= i < lines@.len() ==> (#[trigger] lines@[i])@ == whole[i],
        decreases workers - w,
    {
        let (a, b) = worker_span(rows, workers, w);
        let mut part = convert_rows(&sampler, font, metric, adj, a, b);
        let ghost before = lines@;
        let ghost added = part@;
        lines.append(&mut part);
        proof {
            assert forall|i: int| 0 <= i < lines@.len() implies (#[trigger] lines@[i])@
                == whole[i] by {
                if i < before.len() {
                    assert(lines@[i] == before[i]);
                } else {
                    assert(lines@[i] == added[i - a]);
                }
            }
        }
        w = w + 1;
    }
    proof {
        lemma_spans_cover(rows as int, workers as int, 0);
        assert(rows_view(lines@) =~= whole);
        assert(rectangular(whole, width as nat));
    }
    match CharGrid::from_rows(lines, width) {
        Ok(g) => Ok(g),
        Err(e) => Err(e),
    }
}

} // verus!
