//! The tile sampler: how a frame is cut into tiles of the glyph cell's size
//! for a requested number of output columns.
//!
//! The frame is scaled, by nearest-neighbour sampling, to a width of
//! `cols * cell_width` pixels and to the height that keeps its aspect ratio,
//! rounded up. The scaled image is cut into cells. Where the last row of cells
//! reaches below the scaled image, it reads the frame's last pixel row again.

use vstd::prelude::*;
use crate::error::ConversionError;
use crate::font::MAX_CELL_SIDE;
use crate::frame::{lemma_offset_in_bounds, luma, luminance, Frame, FrameModel, Rgb};

verus! {

/// Quotient rounded up.
pub open spec fn ceil_div(a: int, b: int) -> int {
    (a + b - 1) / b
}

/// The mathematical content of a sampler: the frame, the cell size, and the
/// number of tile columns.
pub struct SamplerModel {
    pub frame: FrameModel,
    pub cell_width: nat,
    pub cell_height: nat,
    pub cols: nat,
}

impl SamplerModel {
    /// Width in pixels of the scaled image.
    pub open spec fn scaled_width(self) -> int {
        (self.cols * self.cell_width) as int
    }

    /// Height in pixels of the scaled image: the least height that is not
    /// flatter than the frame.
    pub open spec fn scaled_height(self) -> int {
        ceil_div(self.frame.height * self.scaled_width(), self.frame.width as int)
    }

    /// Number of tile rows: the least number of cells that covers the scaled height.
    pub open spec fn rows(self) -> int {
        ceil_div(self.scaled_height(), self.cell_height as int)
    }

    /// Number of pixels in a tile.
    pub open spec fn area(self) -> int {
        (self.cell_width * self.cell_height) as int
    }

    /// The frame has pixels, the cell and the column count are in range, and
    /// the scaled image's sides fit in 32 bits.
    pub open spec fn wf(self) -> bool {
        &&& self.frame.wf()
        &&& self.frame.width >= 1
        &&& self.frame.height >= 1
        &&& self.cols >= 1
        &&& 1 <= self.cell_width <= MAX_CELL_SIDE
        &&& 1 <= self.cell_height <= MAX_CELL_SIDE
        &&& self.scaled_width() <= u32::MAX
        &&& self.scaled_height() <= u32::MAX
    }

    /// The frame column that column `x` of the scaled image shows.
    pub open spec fn source_x(self, x: int) -> int {
        x * self.frame.width / self.scaled_width()
    }

    /// The frame row that row `y` of the scaled image shows; below the scaled
    /// image, the frame's last row.
    pub open spec fn source_y(self, y: int) -> int {
        if y < self.scaled_height() {
            y * self.frame.height / self.scaled_height()
        } else {
            self.frame.height - 1
        }
    }

    /// Luminance of the scaled image at `(x, y)`.
    pub open spec fn sample(self, x: int, y: int) -> int {
        luma(self.frame.pixel(self.source_x(x), self.source_y(y)))
    }

    /// Luminance of pixel `p` of the tile in row `row` and column `col`.
    pub open spec fn tile_pixel(self, row: int, col: int, p: int) -> int {
        self.sample(
            col * self.cell_width + p % (self.cell_width as int),
            row * self.cell_height + p / (self.cell_width as int),
        )
    }

    /// The tile in row `row` and column `col`: its luminance values, rows from
    /// top to bottom.
    pub open spec fn tile(self, row: int, col: int) -> Seq<u8> {
        Seq::new(self.area() as nat, |p: int| self.tile_pixel(row, col, p) as u8)
    }
}

/// What making a sampler yields: the sampler's content, or the reason for
/// which the request is refused.
pub open spec fn sampler_outcome(
    frame: FrameModel,
    width: nat,
    cell_width: nat,
    cell_height: nat,
) -> Result<SamplerModel, ConversionError> {
    let m = SamplerModel { frame, cell_width, cell_height, cols: width };
    if width == 0 || cell_width < 1 || cell_width > MAX_CELL_SIDE || cell_height < 1
        || cell_height > MAX_CELL_SIDE {
        Err(ConversionError::InvalidConfiguration)
    } else if frame.width == 0 || frame.height == 0 {
        Err(ConversionError::EmptyImage)
    } else if m.scaled_width() > u32::MAX || m.scaled_height() > u32::MAX {
        Err(ConversionError::InvalidConfiguration)
    } else {
        Ok(m)
    }
}

/// Rounding up yields the least multiple that covers.
pub proof fn lemma_ceil_div(a: int, b: int)
    requires
        0 <= a,
        1 <= b,
    ensures
        (ceil_div(a, b) - 1) * b < a <= ceil_div(a, b) * b || (a == 0 && ceil_div(a, b) == 0),
        0 <= ceil_div(a, b) <= a,
        a >= 1 ==> ceil_div(a, b) >= 1,
{
    let q = (a + b - 1) / b;
    let r = (a + b - 1) % b;
    assert(a + b - 1 == q * b + r && 0 <= r < b) by {
        vstd::arithmetic::div_mod::lemma_fundamental_div_mod(a + b - 1, b);
        assert(b * q == q * b) by (nonlinear_arith);
    }
    assert((q - 1) * b == q * b - b) by (nonlinear_arith);
    assert(q >= 0 && q <= a && (a >= 1 ==> q >= 1)) by (nonlinear_arith)
        requires
            a + b - 1 == q * b + r,
            0 <= r < b,
            0 <= a,
            1 <= b,
    ;
}

/// A floored quotient of a product stays below the factor that the divisor bounds.
pub proof fn lemma_scale_in_range(x: int, n: int, d: int)
    requires
        0 <= x < d,
        0 <= n,
    ensures
        0 <= x * n / d,
        n >= 1 ==> x * n / d < n,
        x * n / d <= x * n,
{
    let q = x * n / d;
    let r = x * n % d;
    assert(x * n == q * d + r && 0 <= r < d) by {
        vstd::arithmetic::div_mod::lemma_fundamental_div_mod(x * n, d);
        assert(d * q == q * d) by (nonlinear_arith);
    }
    assert(0 <= x * n) by (nonlinear_arith)
        requires
            0 <= x,
            0 <= n,
    ;
    assert(q >= 0 && q <= x * n && (n >= 1 ==> q < n)) by (nonlinear_arith)
        requires
            x * n == q * d + r,
            0 <= r < d,
            0 <= x < d,
            0 <= n,
            0 <= x * n,
    ;
}

/// The grid keeps the frame's aspect ratio: the scaled height is the least
/// height that is not flatter than the frame, and the rows are the fewest
/// cells that cover it. In particular there is at least one row.
pub proof fn lemma_rows_preserve_aspect(m: SamplerModel)
    requires
        m.wf(),
    ensures
        m.rows() >= 1,
        m.scaled_height() >= 1,
        (m.scaled_height() - 1) * m.frame.width < m.frame.height * m.scaled_width(),
        m.frame.height * m.scaled_width() <= m.scaled_height() * m.frame.width,
        (m.rows() - 1) * m.cell_height < m.scaled_height() <= m.rows() * m.cell_height,
        m.rows() <= u32::MAX,
{
    let sw = m.scaled_width();
    assert(sw >= 1) by (nonlinear_arith)
        requires
            sw == m.cols * m.cell_width,
            m.cols >= 1,
            m.cell_width >= 1,
    ;
    let a = m.frame.height * sw;
    assert(a >= 1) by (nonlinear_arith)
        requires
            a == m.frame.height * sw,
            sw >= 1,
            m.frame.height >= 1,
    ;
    lemma_ceil_div(a, m.frame.width as int);
    lemma_ceil_div(m.scaled_height(), m.cell_height as int);
}

/// Every pixel of every tile reads a pixel of the frame.
pub proof fn lemma_tile_reads_frame(m: SamplerModel, row: int, col: int, p: int)
    requires
        m.wf(),
        0 <= row < m.rows(),
        0 <= col < m.cols,
        0 <= p < m.area(),
    ensures
        0 <= p % (m.cell_width as int) < m.cell_width,
        0 <= p / (m.cell_width as int) < m.cell_height,
        0 <= col * m.cell_width + p % (m.cell_width as int) < m.scaled_width(),
        0 <= row * m.cell_height + p / (m.cell_width as int) < m.rows() * m.cell_height,
        m.frame.contains(
            m.source_x(col * m.cell_width + p % (m.cell_width as int)),
            m.source_y(row * m.cell_height + p / (m.cell_width as int)),
        ),
        0 <= m.tile_pixel(row, col, p) <= 255,
{
    let cw = m.cell_width as int;
    let ch = m.cell_height as int;
    let tx = p % cw;
    let ty = p / cw;
    assert(p == ty * cw + tx && 0 <= tx < cw) by {
        vstd::arithmetic::div_mod::lemma_fundamental_div_mod(p, cw);
        assert(cw * ty == ty * cw) by (nonlinear_arith);
    }
    assert(0 <= ty < ch) by (nonlinear_arith)
        requires
            p == ty * cw + tx,
            0 <= tx < cw,
            0 <= p < cw * ch,
    ;
    let x = col * cw + tx;
    let y = row * ch + ty;
    assert(0 <= x < m.cols * cw) by (nonlinear_arith)
        requires
            x == col * cw + tx,
            0 <= tx < cw,
            0 <= col < m.cols,
    ;
    assert(0 <= y < m.rows() * ch) by (nonlinear_arith)
        requires
            y == row * ch + ty,
            0 <= ty < ch,
            0 <= row < m.rows(),
    ;
    lemma_rows_preserve_aspect(m);
    lemma_scale_in_range(x, m.frame.width as int, m.scaled_width());
    if y < m.scaled_height() {
        lemma_scale_in_range(y, m.frame.height as int, m.scaled_height());
    }
}

/// No column of the scaled image is dropped: each lies in a tile column of
/// the grid, at a place inside that tile.
pub proof fn lemma_columns_cover(m: SamplerModel, x: int)
    requires
        m.wf(),
        0 <= x < m.scaled_width(),
    ensures
        0 <= x / (m.cell_width as int) < m.cols,
        0 <= x % (m.cell_width as int) < m.cell_width,
        x == (x / (m.cell_width as int)) * m.cell_width + x % (m.cell_width as int),
{
    let cw = m.cell_width as int;
    let q = x / cw;
    let r = x % cw;
    assert(x == q * cw + r && 0 <= r < cw) by {
        vstd::arithmetic::div_mod::lemma_fundamental_div_mod(x, cw);
        assert(cw * q == q * cw) by (nonlinear_arith);
    }
    assert(0 <= q < m.cols) by (nonlinear_arith)
        requires
            x == q * cw + r,
            0 <= r < cw,
            0 <= x < m.cols * cw,
    ;
}

/// No column of the scaled image is read twice: the pixel column `tx` of
/// tile column `col` is a column of the scaled image that belongs to no other
/// tile column and to no other place in the tile.
pub proof fn lemma_columns_disjoint(m: SamplerModel, col: int, tx: int)
    requires
        m.wf(),
        0 <= col < m.cols,
        0 <= tx < m.cell_width,
    ensures
        0 <= col * m.cell_width + tx < m.scaled_width(),
        (col * m.cell_width + tx) / (m.cell_width as int) == col,
        (col * m.cell_width + tx) % (m.cell_width as int) == tx,
{
    let cw = m.cell_width as int;
    let x = col * cw + tx;
    assert(0 <= x < m.cols * cw) by (nonlinear_arith)
        requires
            x == col * cw + tx,
            0 <= tx < cw,
            0 <= col < m.cols,
    ;
    vstd::arithmetic::div_mod::lemma_fundamental_div_mod_converse(x, cw, col, tx);
}

/// Every tile column reads from its own share of the frame, whether the
/// frame is shrunk or stretched and whether or not the cell width divides its
/// width. The shares cut the frame's width into as many equal stretches as
/// there are tile columns, from left to right. A frame column that pixel
/// column `tx` of tile column `col` reads lies inside the frame and overlaps
/// the share of `col`: no tile column reads beyond the right edge or from
/// another's share, so the last one is neither dropped nor a copy of its
/// neighbour.
pub proof fn lemma_tile_column_reads_its_share(m: SamplerModel, col: int, tx: int)
    requires
        m.wf(),
        0 <= col < m.cols,
        0 <= tx < m.cell_width,
    ensures
        0 <= m.source_x(col * m.cell_width + tx) < m.frame.width,
        col * m.frame.width < (m.source_x(col * m.cell_width + tx) + 1) * m.cols,
        m.source_x(col * m.cell_width + tx) * m.cols < (col + 1) * m.frame.width,
{
    let cw = m.cell_width as int;
    let fw = m.frame.width as int;
    let cols = m.cols as int;
    let sw = m.scaled_width();
    let x = col * cw + tx;
    lemma_columns_disjoint(m, col, tx);
    lemma_scale_in_range(x, fw, sw);
    let s = m.source_x(x);
    let r = (x * fw) % sw;
    assert(x * fw == s * sw + r && 0 <= r < sw) by {
        vstd::arithmetic::div_mod::lemma_fundamental_div_mod(x * fw, sw);
        assert(sw * s == s * sw) by (nonlinear_arith);
    }
    assert(s * cols < (col + 1) * fw) by (nonlinear_arith)
        requires
            x * fw == s * sw + r,
            0 <= r,
            sw == cols * cw,
            x == col * cw + tx,
            0 <= tx < cw,
            fw >= 1,
            0 <= s,
            0 <= col,
            cols >= 1,
    ;
    assert(col * fw < (s + 1) * cols) by (nonlinear_arith)
        requires
            x * fw == s * sw + r,
            r < sw,
            sw == cols * cw,
            x == col * cw + tx,
            0 <= tx < cw,
            fw >= 1,
            0 <= s,
            0 <= col,
            cols >= 1,
    ;
}

/// The scaled image shows the frame's columns from left to right: it begins
/// with the first, and a column further right never shows one further left.
pub proof fn lemma_columns_in_order(m: SamplerModel, x: int, y: int)
    requires
        m.wf(),
        0 <= x <= y < m.scaled_width(),
    ensures
        m.source_x(0) == 0,
        m.source_x(x) <= m.source_x(y),
{
    let fw = m.frame.width as int;
    let sw = m.scaled_width();
    assert(0 * fw == 0);
    assert(0 <= x * fw <= y * fw) by (nonlinear_arith)
        requires
            0 <= x <= y,
            0 <= fw,
    ;
    vstd::arithmetic::div_mod::lemma_div_is_ordered(x * fw, y * fw, sw);
}

/// The column of the scaled image that shows frame column `c` where the
/// scaled image is at least as wide as the frame.
pub open spec fn shown_at(m: SamplerModel, c: int) -> int {
    ceil_div(c * m.scaled_width(), m.frame.width as int)
}

/// Where the frame is not shrunk, no column of the frame is dropped: each is
/// shown by a column of the scaled image, and the last column of the frame
/// by the last column of the scaled image, which lies in the last tile column.
pub proof fn lemma_every_column_is_shown(m: SamplerModel, c: int)
    requires
        m.wf(),
        m.scaled_width() >= m.frame.width,
        0 <= c < m.frame.width,
    ensures
        0 <= shown_at(m, c) < m.scaled_width(),
        m.source_x(shown_at(m, c)) == c,
        m.source_x(m.scaled_width() - 1) == m.frame.width - 1,
        (m.scaled_width() - 1) / (m.cell_width as int) == m.cols - 1,
{
    let sw = m.scaled_width();
    let fw = m.frame.width as int;
    let cw = m.cell_width as int;
    let x = shown_at(m, c);
    assert(0 <= c * sw) by (nonlinear_arith)
        requires
            0 <= c,
            0 <= sw,
    ;
    lemma_ceil_div(c * sw, fw);
    assert(c * sw <= x * fw < c * sw + fw) by {
        assert((x - 1) * fw == x * fw - fw) by (nonlinear_arith);
        if x == 0 {
            assert(x * fw == 0) by (nonlinear_arith)
                requires
                    x == 0,
            ;
        }
    }
    assert(0 <= x < sw) by (nonlinear_arith)
        requires
            c * sw <= x * fw < c * sw + fw,
            0 <= c < fw,
            fw <= sw,
            0 <= c * sw,
    ;
    let r = x * fw - c * sw;
    vstd::arithmetic::div_mod::lemma_fundamental_div_mod_converse(x * fw, sw, c, r);
    let last = (sw - 1) * fw;
    assert(last == (fw - 1) * sw + (sw - fw)) by (nonlinear_arith)
        requires
            last == (sw - 1) * fw,
    ;
    vstd::arithmetic::div_mod::lemma_fundamental_div_mod_converse(last, sw, fw - 1, sw - fw);
    assert(sw - 1 == (m.cols - 1) * cw + (cw - 1)) by (nonlinear_arith)
        requires
            sw == m.cols * cw,
    ;
    vstd::arithmetic::div_mod::lemma_fundamental_div_mod_converse(
        sw - 1,
        cw,
        m.cols - 1,
        cw - 1,
    );
}

/// A frame of a single pixel yields `ceil(cols * cell_width / cell_height)`
/// rows, each tile pixel showing that pixel; with one column and a cell that
/// is not wider than high, the grid is a single cell.
pub proof fn lemma_single_pixel_frame(m: SamplerModel, row: int, col: int, p: int)
    requires
        m.wf(),
        m.frame.width == 1,
        m.frame.height == 1,
        0 <= row < m.rows(),
        0 <= col < m.cols,
        0 <= p < m.area(),
    ensures
        m.rows() == ceil_div(m.scaled_width(), m.cell_height as int),
        m.cols == 1 && m.cell_width <= m.cell_height ==> m.rows() == 1,
        m.tile_pixel(row, col, p) == luma(m.frame.pixel(0, 0)),
{
    lemma_tile_reads_frame(m, row, col, p);
    let sw = m.scaled_width();
    assert(1 * sw == sw);
    assert(m.scaled_height() == sw);
    if m.cols == 1 && m.cell_width <= m.cell_height {
        assert(sw == m.cell_width) by (nonlinear_arith)
            requires
                sw == m.cols * m.cell_width,
                m.cols == 1,
        ;
        lemma_ceil_div(sw, m.cell_height as int);
        let r = m.rows();
        assert(r == 1) by (nonlinear_arith)
            requires
                (r - 1) * m.cell_height < sw <= r * m.cell_height,
                1 <= sw <= m.cell_height,
        ;
    }
}

/// Cuts a frame into tiles of a glyph cell's size.
pub struct Sampler<'a> {
    frame: &'a Frame,
    cell_width: u32,
    cell_height: u32,
    cols: u32,
    rows: u32,
    scaled_width: u32,
    scaled_height: u32,
}

impl<'a> View for Sampler<'a> {
    type V = SamplerModel;

    closed spec fn view(&self) -> SamplerModel {
        SamplerModel {
            frame: self.frame@,
            cell_width: self.cell_width as nat,
            cell_height: self.cell_height as nat,
            cols: self.cols as nat,
        }
    }
}

impl<'a> Sampler<'a> {
    #[verifier::type_invariant]
    spec fn inv(&self) -> bool {
        &&& self@.wf()
        &&& self.rows == self@.rows()
        &&& self.scaled_width == self@.scaled_width()
        &&& self.scaled_height == self@.scaled_height()
    }

    /// Lays out the tiles of `frame` for `width` output columns and cells of
    /// the given width and height. Fails with `InvalidConfiguration` for a
    /// width of zero or a cell side out of range, with `EmptyImage` for a frame
    /// without pixels, and with `InvalidConfiguration` where a side of the
    /// scaled image does not fit in 32 bits.
    pub fn new(frame: &'a Frame, width: usize, cell_dimensions: (u32, u32)) -> (r: Result<
        Sampler<'a>,
        ConversionError,
    >)
        ensures
            match r {
                Ok(s) => sampler_outcome(
                    frame@,
                    width as nat,
                    cell_dimensions.0 as nat,
                    cell_dimensions.1 as nat,
                ) == Ok::<SamplerModel, ConversionError>(s@) && s@.wf(),
                Err(e) => sampler_outcome(
                    frame@,
                    width as nat,
                    cell_dimensions.0 as nat,
                    cell_dimensions.1 as nat,
                ) == Err::<SamplerModel, ConversionError>(e),
            },
    {
        let (cell_width, cell_height) = cell_dimensions;
        let ghost m = SamplerModel {
            frame: frame@,
            cell_width: cell_width as nat,
            cell_height: cell_height as nat,
            cols: width as nat,
        };
        if width == 0 || cell_width < 1 || cell_width > MAX_CELL_SIDE || cell_height < 1
            || cell_height > MAX_CELL_SIDE {
            return Err(ConversionError::InvalidConfiguration);
        }
        let fw: u64 = frame.width() as u64;
        let fh: u64 = frame.height() as u64;
        let _ = frame.data();
        if fw == 0 || fh == 0 {
            return Err(ConversionError::EmptyImage);
        }
        if width > 0xffff_ffff {
            assert(m.scaled_width() > u32::MAX) by (nonlinear_arith)
                requires
                    m.scaled_width() == width * cell_width,
                    width > 0xffff_ffff,
                    cell_width >= 1,
            ;
            return Err(ConversionError::InvalidConfiguration);
        }
        assert(0 <= width * cell_width <= 0xffff_ffff * 0xffff) by (nonlinear_arith)
            requires
                0 <= width <= 0xffff_ffff,
                0 <= cell_width <= 0xffff,
        ;
        let sw: u64 = width as u64 * cell_width as u64;
        if sw > 0xffff_ffff {
            return Err(ConversionError::InvalidConfiguration);
        }
        assert(0 <= fh * sw <= 0xffff_ffff * 0xffff_ffff) by (nonlinear_arith)
            requires
                0 <= fh <= 0xffff_ffff,
                0 <= sw <= 0xffff_ffff,
        ;
        let sh: u64 = (fh * sw + fw - 1) / fw;
        assert(sh == m.scaled_height());
        if sh > 0xffff_ffff {
            return Err(ConversionError::InvalidConfiguration);
        }
        let rows: u64 = (sh + cell_height as u64 - 1) / (cell_height as u64);
        proof {
            lemma_rows_preserve_aspect(m);
        }
        Ok(
            Sampler {
                frame,
                cell_width,
                cell_height,
                cols: width as u32,
                rows: rows as u32,
                scaled_width: sw as u32,
                scaled_height: sh as u32,
            },
        )
    }

    /// Number of tile rows.
    pub fn rows(&self) -> (n: u32)
        ensures
            n == self@.rows(),
            self@.wf(),
    {
        proof {
            use_type_invariant(self);
        }
        self.rows
    }

    /// Number of tile columns.
    pub fn cols(&self) -> (n: u32)
        ensures
            n == self@.cols,
            self@.wf(),
    {
        proof {
            use_type_invariant(self);
        }
        self.cols
    }

    /// The luminance values of the tile in row `row` and column `col`.
    pub fn tile(&self, row: u32, col: u32) -> (t: Vec<u8>)
        requires
            row < self@.rows(),
            col < self@.cols,
        ensures
            t@ == self@.tile(row as int, col as int),
            self@.wf(),
    {
        proof {
            use_type_invariant(self);
        }
        let ghost m = self@;
        let cw: u64 = self.cell_width as u64;
        let ch: u64 = self.cell_height as u64;
        let fw: u64 = self.frame.width() as u64;
        let fh: u64 = self.frame.height() as u64;
        let sw: u64 = self.scaled_width as u64;
        let sh: u64 = self.scaled_height as u64;
        assert(0 <= cw * ch <= 0xffff * 0xffff) by (nonlinear_arith)
            requires
                0 <= cw <= 0xffff,
                0 <= ch <= 0xffff,
        ;
        let area: u64 = cw * ch;
        assert(0 <= col * cw <= 0xffff_ffff * 0xffff && 0 <= row * ch <= 0xffff_ffff * 0xffff)
            by (nonlinear_arith)
            requires
                0 <= cw <= 0xffff,
                0 <= ch <= 0xffff,
                0 <= col <= 0xffff_ffff,
                0 <= row <= 0xffff_ffff,
        ;
        let x0: u64 = col as u64 * cw;
        let y0: u64 = row as u64 * ch;
        let mut out: Vec<u8> = Vec::new();
        let mut p: u64 = 0;
        while p < area
            invariant
                p <= area,
                m == self@,
                m.wf(),
                area == m.area(),
                cw == m.cell_width,
                ch == m.cell_height,
                fw == m.frame.width,
                fh == m.frame.height,
                sw == m.scaled_width(),
                sh == m.scaled_height(),
                x0 == col * cw,
                y0 == row * ch,
                fw <= 0xffff_ffff,
                fh <= 0xffff_ffff,
                sw <= 0xffff_ffff,
                sh <= 0xffff_ffff,
                1 <= cw <= 0xffff,
                1 <= ch <= 0xffff,
                y0 <= 0xffff_ffff * 0xffff,
                row < m.rows(),
                col < m.cols,
                self.frame@ == m.frame,
                out@.len() == p,
                forall|q: int| 0 <= q < p ==> out@[q] as int == m.tile_pixel(row as int, col as int, q),
            decreases area - p,
        {
            proof {
                lemma_tile_reads_frame(m, row as int, col as int, p as int);
                lemma_rows_preserve_aspect(m);
            }
            let x: u64 = x0 + p % cw;
            let y: u64 = y0 + p / cw;
            assert(0 <= x * fw <= 0xffff_ffff * 0xffff_ffff) by (nonlinear_arith)
                requires
                    0 <= x <= 0xffff_ffff,
                    0 <= fw <= 0xffff_ffff,
            ;
            let sx: u64 = x * fw / sw;
            let sy: u64 = if y < sh {
                assert(0 <= y * fh <= 0xffff_ffff * 0xffff_ffff) by (nonlinear_arith)
                    requires
                        0 <= y <= 0xffff_ffff,
                        0 <= fh <= 0xffff_ffff,
                ;
                y * fh / sh
            } else {
                fh - 1
            };
            assert(sx == m.source_x(x as int));
            assert(sy == m.source_y(y as int));
            let value: u8 = match self.frame.pixel(sx as u32, sy as u32) {
                Some(c) => luminance(c),
                None => 0,
            };
            out.push(value);
            p = p + 1;
        }
        assert(out@ =~= m.tile(row as int, col as int));
        out
    }
}

} // verus!
