//! Stability under self-conversion: a grid that is rendered as a bitmap in
//! one colour and converted again with the same catalog comes back unchanged.

use vstd::prelude::*;
use crate::convert::{
    adjusted, best_glyph_index, cell_char, conversion_outcome, converted, converted_row,
    glyph_scores, lemma_first_min_is, mix, noise, prepared, sharpened, sharpened_pixel, Adjustment,
};
use crate::error::ConversionError;
use crate::font::{lemma_index_of_unique, CatalogModel};
use crate::frame::{luma, FrameModel};
use crate::grid::rectangular;
use crate::metrics::{
    ink, lemma_exact_match_scores_zero, lemma_mismatch_scores_above_zero, printed, score, Metric,
};
use crate::render::{bitmap_fits, inked, is_bitmap_of, stamped_pixel};
use crate::sampler::{
    lemma_columns_disjoint, lemma_tile_reads_frame, sampler_outcome, SamplerModel,
};

verus! {

/// No two glyphs of the catalog have the same mask.
pub open spec fn masks_differ(catalog: CatalogModel) -> bool {
    forall|i: int, j: int|
        0 <= i < j < catalog.glyphs.len() ==> (#[trigger] catalog.glyphs[i]).mask != (
        #[trigger] catalog.glyphs[j]).mask
}

/// Every character of the grid has a glyph in the catalog.
pub open spec fn drawable(grid: Seq<Seq<char>>, catalog: CatalogModel) -> bool {
    forall|r: int, c: int|
        0 <= r < grid.len() && 0 <= c < grid[r].len() ==> catalog.has(#[trigger] grid[r][c])
}

/// A tile that shows exactly a mask has no edge that steepening could move.
pub proof fn lemma_sharpen_keeps_printed(mask: Seq<bool>, width: int)
    requires
        width >= 1,
    ensures
        sharpened(printed(mask), width) == printed(mask),
{
    let tile = printed(mask);
    assert forall|p: int| 0 <= p < tile.len() implies sharpened_pixel(tile, width, p)
        == tile[p] as int by {
        if p % width > 0 {
            assert(p - 1 >= 0) by {
                if p == 0 {
                    vstd::arithmetic::div_mod::lemma_small_mod(0, width as nat);
                }
            }
            assert(tile[p - 1] == 0 || tile[p - 1] == 255);
        }
        if p + 1 < tile.len() {
            assert(tile[p + 1] == 0 || tile[p + 1] == 255);
        }
        if p >= width {
            assert(tile[p - width] == 0 || tile[p - width] == 255);
        }
        if p + width < tile.len() {
            assert(tile[p + width] == 0 || tile[p + width] == 255);
        }
    }
    assert(sharpened(tile, width) =~= tile);
}

/// Without brightness offset and noise a tile stays as it is.
pub proof fn lemma_neutral_adjustment(tile: Seq<u8>, adj: Adjustment, row: int, col: int)
    requires
        adj.brightness_offset == 0,
        adj.noise_scale == 0,
    ensures
        adjusted(tile, adj, row, col) == tile,
{
    assert(adjusted(tile, adj, row, col) =~= tile);
}

/// Where no two masks are alike, the glyph that a tile shows exactly is the
/// best match for it.
pub proof fn lemma_exact_glyph_is_best(metric: Metric, catalog: CatalogModel, k: int)
    requires
        catalog.wf(),
        masks_differ(catalog),
        0 <= k < catalog.glyphs.len(),
    ensures
        best_glyph_index(metric, printed(catalog.glyphs[k].mask), catalog) == k,
{
    let mask = catalog.glyphs[k].mask;
    let tile = printed(mask);
    let width = catalog.cell_width as int;
    let all = glyph_scores(metric, tile, catalog);
    lemma_exact_match_scores_zero(metric, mask, width, mask.len());
    assert(all[k] == 0);
    assert forall|j: int| 0 <= j < all.len() && j != k implies #[trigger] all[j] > 0 by {
        assert(catalog.glyphs[j].mask.len() == catalog.area());
        assert(catalog.glyphs[k].mask.len() == catalog.area());
        if j < k {
            assert(catalog.glyphs[j].mask != catalog.glyphs[k].mask);
        } else {
            assert(catalog.glyphs[k].mask != catalog.glyphs[j].mask);
        }
        lemma_mismatch_scores_above_zero(metric, mask, catalog.glyphs[j].mask, width);
    }
    lemma_first_min_is(all, k);
}

/// The sampler that reads a bitmap of the grid at the grid's own width reads
/// it pixel by pixel: its scaled image is the bitmap itself.
pub proof fn lemma_bitmap_is_read_unscaled(
    grid: Seq<Seq<char>>,
    cols: nat,
    catalog: CatalogModel,
    bitmap: FrameModel,
)
    requires
        catalog.wf(),
        grid.len() >= 1,
        cols >= 1,
        bitmap_fits(grid.len(), cols, catalog),
        bitmap.wf(),
        bitmap.width == cols * catalog.cell_width,
        bitmap.height == grid.len() * catalog.cell_height,
    ensures
        ({
            let s = SamplerModel {
                frame: bitmap,
                cell_width: catalog.cell_width,
                cell_height: catalog.cell_height,
                cols,
            };
            &&& sampler_outcome(bitmap, cols, catalog.cell_width, catalog.cell_height) == Ok::<
                SamplerModel,
                ConversionError,
            >(s)
            &&& s.wf()
            &&& s.scaled_width() == bitmap.width
            &&& s.scaled_height() == bitmap.height
            &&& s.rows() == grid.len()
        }),
{
    let s = SamplerModel {
        frame: bitmap,
        cell_width: catalog.cell_width,
        cell_height: catalog.cell_height,
        cols,
    };
    let cw = catalog.cell_width as int;
    let ch = catalog.cell_height as int;
    let sw = s.scaled_width();
    let bh = bitmap.height as int;
    let g = grid.len() as int;
    assert(sw >= 1) by (nonlinear_arith)
        requires
            sw == cols * cw,
            cols >= 1,
            cw >= 1,
    ;
    assert(bh >= 1) by (nonlinear_arith)
        requires
            bh == g * ch,
            g >= 1,
            ch >= 1,
    ;
    assert(bh * sw + sw - 1 == bh * sw + (sw - 1));
    vstd::arithmetic::div_mod::lemma_fundamental_div_mod_converse(
        bh * sw + sw - 1,
        sw,
        bh,
        sw - 1,
    );
    assert(s.scaled_height() == bh);
    vstd::arithmetic::div_mod::lemma_fundamental_div_mod_converse(g * ch + ch - 1, ch, g, ch - 1);
    assert(s.rows() == g);
}

/// The tile that the sampler cuts from a bitmap of the grid shows exactly the
/// mask of the glyph of the character in that cell.
pub proof fn lemma_tile_of_bitmap(
    grid: Seq<Seq<char>>,
    cols: nat,
    catalog: CatalogModel,
    bitmap: FrameModel,
    row: int,
    col: int,
)
    requires
        catalog.wf(),
        rectangular(grid, cols),
        drawable(grid, catalog),
        bitmap_fits(grid.len(), cols, catalog),
        is_bitmap_of(bitmap, grid, cols, catalog, None),
        0 <= row < grid.len(),
        0 <= col < cols,
    ensures
        (SamplerModel {
            frame: bitmap,
            cell_width: catalog.cell_width,
            cell_height: catalog.cell_height,
            cols,
        }).tile(row, col) == printed(catalog.glyphs[catalog.index_of(grid[row][col])].mask),
{
    let s = SamplerModel {
        frame: bitmap,
        cell_width: catalog.cell_width,
        cell_height: catalog.cell_height,
        cols,
    };
    lemma_bitmap_is_read_unscaled(grid, cols, catalog, bitmap);
    let cw = catalog.cell_width as int;
    let ch = catalog.cell_height as int;
    let symbol = grid[row][col];
    assert(grid[row].len() == cols);
    assert(catalog.has(symbol));
    let k = catalog.index_of(symbol);
    let mask = catalog.glyphs[k].mask;
    assert(mask.len() == catalog.area());
    assert forall|p: int| 0 <= p < s.area() implies s.tile_pixel(row, col, p) == ink(mask[p]) by {
        lemma_tile_reads_frame(s, row, col, p);
        let tx = p % cw;
        let ty = p / cw;
        let x = col * cw + tx;
        let y = row * ch + ty;
        lemma_columns_disjoint(s, col, tx);
        vstd::arithmetic::div_mod::lemma_fundamental_div_mod_converse(y, ch, row, ty);
        vstd::arithmetic::div_mod::lemma_fundamental_div_mod(p, cw);
        assert(cw * ty == ty * cw) by (nonlinear_arith);
        assert(ty * cw + tx == p);
        assert(s.source_x(x) == x) by {
            vstd::arithmetic::div_mod::lemma_div_multiples_vanish(x, s.scaled_width());
            assert(x * s.scaled_width() == s.scaled_width() * x) by (nonlinear_arith);
        }
        assert(s.source_y(y) == y) by {
            vstd::arithmetic::div_mod::lemma_div_multiples_vanish(y, s.scaled_height());
            assert(y * s.scaled_height() == s.scaled_height() * y) by (nonlinear_arith);
        }
        assert(bitmap.pixel(x, y) == stamped_pixel(grid, catalog, None, x, y));
        assert(inked(grid, catalog, x, y) == mask[p]);
    }
    assert(s.tile(row, col) =~= printed(mask));
}

/// Round trip: let a grid of at least one cell, all of whose characters have
/// glyphs, be rendered as a bitmap in one colour with a catalog in which no
/// two masks are alike. Converting that bitmap with the same catalog, at the
/// grid's width, under any metric, with or without edge detection and with
/// any number of workers, but without brightness offset and noise, yields
/// the grid again.
pub proof fn lemma_round_trip(
    grid: Seq<Seq<char>>,
    cols: nat,
    catalog: CatalogModel,
    bitmap: FrameModel,
    metric: Metric,
    adj: Adjustment,
    threads: nat,
)
    requires
        catalog.wf(),
        masks_differ(catalog),
        rectangular(grid, cols),
        drawable(grid, catalog),
        grid.len() >= 1,
        cols >= 1,
        bitmap_fits(grid.len(), cols, catalog),
        is_bitmap_of(bitmap, grid, cols, catalog, None),
        adj.brightness_offset == 0,
        adj.noise_scale == 0,
        threads >= 1,
    ensures
        conversion_outcome(catalog, bitmap, metric, cols, adj, threads) == Ok::<
            Seq<Seq<char>>,
            ConversionError,
        >(grid),
{
    let s = SamplerModel {
        frame: bitmap,
        cell_width: catalog.cell_width,
        cell_height: catalog.cell_height,
        cols,
    };
    lemma_bitmap_is_read_unscaled(grid, cols, catalog, bitmap);
    let width = catalog.cell_width as int;
    assert forall|row: int| 0 <= row < grid.len() implies converted_row(
        s,
        catalog,
        metric,
        adj,
        row,
    ) == grid[row] by {
        assert(grid[row].len() == cols);
        assert forall|col: int| 0 <= col < cols implies cell_char(
            s,
            catalog,
            metric,
            adj,
            row,
            col,
        ) == grid[row][col] by {
            let symbol = grid[row][col];
            assert(catalog.has(symbol));
            let k = catalog.index_of(symbol);
            let mask = catalog.glyphs[k].mask;
            lemma_tile_of_bitmap(grid, cols, catalog, bitmap, row, col);
            lemma_neutral_adjustment(s.tile(row, col), adj, row, col);
            lemma_sharpen_keeps_printed(mask, width);
            assert(prepared(s.tile(row, col), width, adj, row, col) == printed(mask));
            lemma_exact_glyph_is_best(metric, catalog, k);
        }
        assert(converted_row(s, catalog, metric, adj, row) =~= grid[row]);
    }
    assert(converted(s, catalog, metric, adj) =~= grid);
}

} // verus!
