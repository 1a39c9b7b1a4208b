//! Similarity metrics: how well a glyph's mask matches a tile of luminance
//! values. A score is a distance: lower is better, and zero is a perfect match.

use vstd::prelude::*;
use crate::error::ConversionError;
use crate::font::{Catalog, CatalogModel, MAX_CELL_SIDE};
use crate::text::str_equals;

verus! {

/// The similarity metrics that a conversion can use.
#[derive(Clone, Copy, Debug, PartialEq, Eq, Structural)]
pub enum Metric {
    /// Pixel by pixel: how far the tile's luminance is from the glyph's ink.
    Coverage,
    /// As `Coverage`, and in addition how far the tile's horizontal and
    /// vertical luminance gradients are from those of the glyph.
    Grad,
}

/// The metric that a name denotes: `"coverage"` or `"grad"`.
pub open spec fn metric_named(name: Seq<char>) -> Option<Metric> {
    if name == "grad"@ {
        Some(Metric::Grad)
    } else if name == "coverage"@ {
        Some(Metric::Coverage)
    } else {
        None
    }
}

/// Selects a metric by name. Fails with `UnknownMetric` for any other name.
pub fn get_converter(name: &str) -> (r: Result<Metric, ConversionError>)
    ensures
        r == match metric_named(name@) {
            Some(m) => Ok::<Metric, ConversionError>(m),
            None => Err::<Metric, ConversionError>(ConversionError::UnknownMetric),
        },
{
    if str_equals(name, "grad") {
        Ok(Metric::Grad)
    } else if str_equals(name, "coverage") {
        Ok(Metric::Coverage)
    } else {
        Err(ConversionError::UnknownMetric)
    }
}

/// Luminance that a mask pixel prints: ink is black, paper is white.
pub open spec fn ink(bit: bool) -> int {
    if bit {
        0
    } else {
        255
    }
}

/// The tile that shows exactly a mask.
pub open spec fn printed(mask: Seq<bool>) -> Seq<u8> {
    Seq::new(mask.len(), |p: int| ink(mask[p]) as u8)
}

/// The mask with every pixel flipped.
pub open spec fn inverse(mask: Seq<bool>) -> Seq<bool> {
    Seq::new(mask.len(), |p: int| !mask[p])
}

/// Absolute value.
pub open spec fn dist(a: int, b: int) -> int {
    if a >= b {
        a - b
    } else {
        b - a
    }
}

/// Luminance error of the glyph at pixel `p`.
pub open spec fn pixel_error(tile: Seq<u8>, mask: Seq<bool>, p: int) -> int {
    dist(tile[p] as int, ink(mask[p]))
}

/// How far the luminance step from pixel `p` to pixel `q` in the tile is from
/// the same step in the glyph.
pub open spec fn step_error(tile: Seq<u8>, mask: Seq<bool>, p: int, q: int) -> int {
    dist(tile[q] - tile[p], ink(mask[q]) - ink(mask[p]))
}

/// Gradient error at pixel `p`: the step to the right neighbour, where there
/// is one in the same row, plus the step to the neighbour below, where there is one.
pub open spec fn gradient_error(tile: Seq<u8>, mask: Seq<bool>, width: int, p: int) -> int {
    (if p % width + 1 < width && p + 1 < tile.len() {
        step_error(tile, mask, p, p + 1)
    } else {
        0
    }) + (if p + width < tile.len() {
        step_error(tile, mask, p, p + width)
    } else {
        0
    })
}

/// What pixel `p` adds to the score.
pub open spec fn pixel_score(metric: Metric, tile: Seq<u8>, mask: Seq<bool>, width: int, p: int) -> int {
    match metric {
        Metric::Coverage => pixel_error(tile, mask, p),
        Metric::Grad => pixel_error(tile, mask, p) + gradient_error(tile, mask, width, p),
    }
}

/// Sum of the first `n` pixels' scores.
pub open spec fn score_upto(
    metric: Metric,
    tile: Seq<u8>,
    mask: Seq<bool>,
    width: int,
    n: nat,
) -> int
    decreases n,
{
    if n == 0 {
        0
    } else {
        score_upto(metric, tile, mask, width, (n - 1) as nat) + pixel_score(
            metric,
            tile,
            mask,
            width,
            n - 1,
        )
    }
}

/// The score of a mask against a tile whose rows are `width` pixels long:
/// the sum of all pixels' scores. Lower is better.
pub open spec fn score(metric: Metric, tile: Seq<u8>, mask: Seq<bool>, width: int) -> int {
    score_upto(metric, tile, mask, width, tile.len())
}

/// Every pixel adds between 0 and 1275 to the score.
pub proof fn lemma_pixel_score_bounds(
    metric: Metric,
    tile: Seq<u8>,
    mask: Seq<bool>,
    width: int,
    p: int,
)
    ensures
        0 <= pixel_score(metric, tile, mask, width, p) <= 1275,
{
}

/// A partial sum is at least each of its terms and at most 1275 per pixel.
pub proof fn lemma_score_upto_bounds(
    metric: Metric,
    tile: Seq<u8>,
    mask: Seq<bool>,
    width: int,
    n: nat,
)
    ensures
        0 <= score_upto(metric, tile, mask, width, n) <= 1275 * n,
        forall|p: int|
            0 <= p < n ==> #[trigger] pixel_score(metric, tile, mask, width, p) <= score_upto(
                metric,
                tile,
                mask,
                width,
                n,
            ),
    decreases n,
{
    if n > 0 {
        lemma_score_upto_bounds(metric, tile, mask, width, (n - 1) as nat);
        lemma_pixel_score_bounds(metric, tile, mask, width, n - 1);
        assert forall|p: int| 0 <= p < n implies #[trigger] pixel_score(
            metric,
            tile,
            mask,
            width,
            p,
        ) <= score_upto(metric, tile, mask, width, n) by {
            lemma_pixel_score_bounds(metric, tile, mask, width, p);
        }
    }
}

/// A glyph scores zero against the tile that shows exactly its mask.
pub proof fn lemma_exact_match_scores_zero(metric: Metric, mask: Seq<bool>, width: int, n: nat)
    requires
        n <= mask.len(),
        width >= 1,
    ensures
        score_upto(metric, printed(mask), mask, width, n) == 0,
    decreases n,
{
    if n > 0 {
        lemma_exact_match_scores_zero(metric, mask, width, (n - 1) as nat);
        let tile = printed(mask);
        let p = n - 1;
        assert(pixel_error(tile, mask, p) == 0);
        if p + 1 < tile.len() {
            assert(step_error(tile, mask, p, p + 1) == 0);
        }
        if p + width < tile.len() {
            assert(step_error(tile, mask, p, p + width) == 0);
        }
        assert(gradient_error(tile, mask, width, p) == 0);
    }
}

/// A glyph whose mask differs from what a tile shows scores above zero.
pub proof fn lemma_mismatch_scores_above_zero(
    metric: Metric,
    shown: Seq<bool>,
    mask: Seq<bool>,
    width: int,
)
    requires
        shown.len() == mask.len(),
        shown != mask,
    ensures
        score(metric, printed(shown), mask, width) > 0,
{
    assert(exists|p: int| 0 <= p < mask.len() && shown[p] != mask[p]) by {
        if forall|p: int| 0 <= p < mask.len() ==> shown[p] == mask[p] {
            assert(shown =~= mask);
        }
    }
    let p = choose|p: int| 0 <= p < mask.len() && shown[p] != mask[p];
    let tile = printed(shown);
    lemma_score_upto_bounds(metric, tile, mask, width, tile.len());
    lemma_pixel_score_bounds(metric, tile, mask, width, p);
    assert(pixel_error(tile, mask, p) == 255);
    assert(gradient_error(tile, mask, width, p) >= 0);
    assert(pixel_score(metric, tile, mask, width, p) >= 255);
}

/// Against a tile that shows exactly a mask, a glyph with that mask scores
/// strictly better than a glyph with the inverse mask, under every metric;
/// and any two glyphs with that mask score alike, namely zero.
pub proof fn lemma_match_beats_inverse(metric: Metric, mask: Seq<bool>, width: int)
    requires
        mask.len() > 0,
        width >= 1,
    ensures
        score(metric, printed(mask), mask, width) == 0,
        score(metric, printed(mask), mask, width) < score(
            metric,
            printed(mask),
            inverse(mask),
            width,
        ),
{
    lemma_exact_match_scores_zero(metric, mask, width, mask.len());
    assert(inverse(mask)[0] != mask[0]);
    lemma_mismatch_scores_above_zero(metric, mask, inverse(mask), width);
}

/// Distance between two luminance values.
fn gap(a: i32, b: i32) -> (d: u64)
    requires
        -1000 <= a <= 1000,
        -1000 <= b <= 1000,
    ensures
        d as int == dist(a as int, b as int),
{
    if a >= b {
        (a - b) as u64
    } else {
        (b - a) as u64
    }
}

/// Luminance that a mask pixel prints.
fn ink_of(bit: bool) -> (v: i32)
    ensures
        v as int == ink(bit),
{
    if bit {
        0
    } else {
        255
    }
}

/// Scores the glyph at position `index` of the catalog against a tile of
/// the catalog's cell size.
pub fn score_glyph(metric: Metric, tile: &Vec<u8>, catalog: &Catalog, index: usize) -> (s: u64)
    requires
        index < catalog@.glyphs.len(),
        tile@.len() == catalog@.area(),
    ensures
        s as int == score(
            metric,
            tile@,
            catalog@.glyphs[index as int].mask,
            catalog@.cell_width as int,
        ),
{
    let (cell_width, cell_height) = catalog.cell_dimensions();
    let glyph = catalog.glyph(index);
    let mask = glyph.mask();
    let n: usize = tile.len();
    let w: usize = cell_width as usize;
    let ghost width = catalog@.cell_width as int;
    proof {
        assert(n <= 0xffff * 0xffff) by (nonlinear_arith)
            requires
                n == cell_width * cell_height,
                0 <= cell_width <= 0xffff,
                0 <= cell_height <= 0xffff,
        ;
    }
    let mut total: u64 = 0;
    let mut p: usize = 0;
    while p < n
        invariant
            p <= n,
            n == tile@.len(),
            n == mask@.len(),
            n <= 0xffff * 0xffff,
            1 <= w <= 0xffff,
            w == width,
            total as int == score_upto(metric, tile@, mask@, width, p as nat),
            total <= 1275 * p,
        decreases n - p,
    {
        let t: i32 = tile[p] as i32;
        let g: i32 = ink_of(mask[p]);
        let mut term: u64 = gap(t, g);
        if metric == Metric::Grad {
            if p % w + 1 < w && p + 1 < n {
                let t1: i32 = tile[p + 1] as i32;
                let g1: i32 = ink_of(mask[p + 1]);
                term = term + gap(t1 - t, g1 - g);
            }
            if p + w < n {
                let t2: i32 = tile[p + w] as i32;
                let g2: i32 = ink_of(mask[p + w]);
                term = term + gap(t2 - t, g2 - g);
            }
        }
        proof {
            lemma_pixel_score_bounds(metric, tile@, mask@, width, p as int);
            assert(term as int == pixel_score(metric, tile@, mask@, width, p as int));
        }
        total = total + term;
        p = p + 1;
    }
    total
}

} // verus!
