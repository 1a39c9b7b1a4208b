//! The renderers: a character grid as plain text, as coloured text for a
//! terminal or for a web page, and as a bitmap in one colour or in the
//! colours of the source frame.

use vstd::prelude::*;
use vstd::string::*;
use crate::error::ConversionError;
use crate::font::{Catalog, CatalogModel};
use crate::frame::{Frame, FrameModel, Rgb};
use crate::grid::{rectangular, CharGrid};
use crate::sampler::lemma_scale_in_range;
use crate::text::{
    decimal, hex_pair, join_lines, joined, push_decimal, push_hex_pair, strings_view,
};

verus! {

/// The colour of a cell of a grid of `rows` by `cols` cells laid over the
/// frame: that of the frame's pixel under the cell's centre.
pub open spec fn cell_color(frame: FrameModel, rows: int, cols: int, r: int, c: int) -> Rgb {
    frame.pixel((2 * c + 1) * frame.width / (2 * cols), (2 * r + 1) * frame.height / (2 * rows))
}

/// Finds the colour of a cell of a grid laid over the frame.
pub fn sample_color(frame: &Frame, rows: usize, cols: usize, r: usize, c: usize) -> (color: Rgb)
    requires
        frame@.width >= 1,
        frame@.height >= 1,
        r < rows,
        c < cols,
    ensures
        color == cell_color(frame@, rows as int, cols as int, r as int, c as int),
{
    let fw: u128 = frame.width() as u128;
    let fh: u128 = frame.height() as u128;
    proof {
        lemma_scale_in_range(2 * c + 1, fw as int, 2 * cols);
        lemma_scale_in_range(2 * r + 1, fh as int, 2 * rows);
        assert(0 <= (2 * c + 1) * fw <= 0x2_0000_0000_0000_0000 * 0xffff_ffff) by (nonlinear_arith)
            requires
                0 <= c <= 0xffff_ffff_ffff_ffff,
                0 <= fw <= 0xffff_ffff,
        ;
        assert(0 <= (2 * r + 1) * fh <= 0x2_0000_0000_0000_0000 * 0xffff_ffff) by (nonlinear_arith)
            requires
                0 <= r <= 0xffff_ffff_ffff_ffff,
                0 <= fh <= 0xffff_ffff,
        ;
    }
    let x: u128 = (2 * (c as u128) + 1) * fw / (2 * (cols as u128));
    let y: u128 = (2 * (r as u128) + 1) * fh / (2 * (rows as u128));
    match frame.pixel(x as u32, y as u32) {
        Some(color) => color,
        None => Rgb { r: 0, g: 0, b: 0 },
    }
}

/// The rows of the grid, each on a line of its own.
pub open spec fn plain_text(grid: Seq<Seq<char>>) -> Seq<char> {
    joined(grid, seq!['\n'])
}

/// Copies characters into a string.
fn line_of(chars: &Vec<char>) -> (s: String)
    ensures
        s@ == chars@,
{
    let mut s = String::new();
    let mut i: usize = 0;
    while i < chars.len()
        invariant
            i <= chars.len(),
            s@ == chars@.take(i as int),
        decreases chars.len() - i,
    {
        s.push(chars[i]);
        assert(chars@.take(i + 1) =~= chars@.take(i as int).push(chars@[i as int]));
        i = i + 1;
    }
    assert(chars@.take(i as int) =~= chars@);
    s
}

/// Renders the grid as plain text: its rows joined by line breaks.
pub fn char_rows_to_string(grid: &CharGrid) -> (s: String)
    ensures
        s@ == plain_text(grid@),
{
    let mut lines: Vec<String> = Vec::new();
    let mut r: usize = 0;
    while r < grid.height()
        invariant
            r <= grid@.len(),
            lines@.len() == r,
            forall|i: int| 0 <= i < r ==> (#[trigger] lines@[i])@ == grid@[i],
        decreases grid@.len() - r,
    {
        lines.push(line_of(grid.row(r)));
        r = r + 1;
    }
    assert(strings_view(lines@) =~= grid@);
    proof {
        reveal_strlit("\n");
        assert("\n"@ =~= seq!['\n']);
    }
    join_lines(&lines, "\n")
}

/// The two kinds of coloured text.
#[derive(Clone, Copy, Debug, PartialEq, Eq, Structural)]
pub enum Markup {
    /// Escape sequences that set a terminal's foreground colour.
    Terminal,
    /// Elements of a web page with a colour style.
    Html,
}

/// A character as a web page shows it.
pub open spec fn escaped(c: char) -> Seq<char> {
    if c == '<' {
        "&lt;"@
    } else if c == '>' {
        "&gt;"@
    } else if c == '&' {
        "&amp;"@
    } else if c == '"' {
        "&quot;"@
    } else {
        seq![c]
    }
}

/// One character in its colour.
pub open spec fn marked_cell(kind: Markup, color: Rgb, c: char) -> Seq<char> {
    match kind {
        Markup::Terminal => "\x1b[38;2;"@ + decimal(color.r) + ";"@ + decimal(color.g) + ";"@
            + decimal(color.b) + "m"@ + seq![c],
        Markup::Html => "<span style=\"color:#"@ + hex_pair(color.r) + hex_pair(color.g)
            + hex_pair(color.b) + "\">"@ + escaped(c) + "</span>"@,
    }
}

/// What ends a row: for a terminal, the return to its own colours.
pub open spec fn row_end(kind: Markup) -> Seq<char> {
    match kind {
        Markup::Terminal => "\x1b[0m"@,
        Markup::Html => Seq::empty(),
    }
}

/// What stands between two rows.
pub open spec fn row_break(kind: Markup) -> Seq<char> {
    match kind {
        Markup::Terminal => "\n"@,
        Markup::Html => "<br>"@,
    }
}

/// The first `n` characters of row `r`, each in the colour of its cell.
pub open spec fn marked_cells(
    kind: Markup,
    grid: Seq<Seq<char>>,
    frame: FrameModel,
    r: int,
    n: nat,
) -> Seq<char>
    decreases n,
{
    if n == 0 {
        Seq::empty()
    } else {
        marked_cells(kind, grid, frame, r, (n - 1) as nat) + marked_cell(
            kind,
            cell_color(frame, grid.len() as int, grid[r].len() as int, r, n - 1),
            grid[r][n - 1],
        )
    }
}

/// Row `r` in colour.
pub open spec fn marked_row(kind: Markup, grid: Seq<Seq<char>>, frame: FrameModel, r: int) -> Seq<
    char,
> {
    marked_cells(kind, grid, frame, r, grid[r].len()) + row_end(kind)
}

/// The grid in colour.
pub open spec fn marked_text(kind: Markup, grid: Seq<Seq<char>>, frame: FrameModel) -> Seq<char> {
    joined(Seq::new(grid.len(), |r: int| marked_row(kind, grid, frame, r)), row_break(kind))
}

/// Appends one character in its colour.
fn push_marked_cell(s: &mut String, kind: Markup, color: Rgb, c: char)
    ensures
        final(s)@ == old(s)@ + marked_cell(kind, color, c),
{
    match kind {
        Markup::Terminal => {
            s.append("\x1b[38;2;");
            push_decimal(s, color.r);
            s.append(";");
            push_decimal(s, color.g);
            s.append(";");
            push_decimal(s, color.b);
            s.append("m");
            s.push(c);
            assert(s@ =~= old(s)@ + marked_cell(kind, color, c));
        },
        Markup::Html => {
            s.append("<span style=\"color:#");
            push_hex_pair(s, color.r);
            push_hex_pair(s, color.g);
            push_hex_pair(s, color.b);
            s.append("\">");
            if c == '<' {
                s.append("&lt;");
            } else if c == '>' {
                s.append("&gt;");
            } else if c == '&' {
                s.append("&amp;");
            } else if c == '"' {
                s.append("&quot;");
            } else {
                s.push(c);
            }
            s.append("</span>");
            assert(s@ =~= old(s)@ + marked_cell(kind, color, c));
        },
    }
}

/// Renders the grid as coloured text of the given kind, each character in
/// the colour of the frame under its cell. Fails with `EmptyImage` for a frame
/// without pixels.
pub fn render_marked(kind: Markup, grid: &CharGrid, frame: &Frame) -> (r: Result<String, ConversionError>)
    ensures
        frame@.width >= 1 && frame@.height >= 1 ==> r is Ok,
        r matches Ok(s) ==> s@ == marked_text(kind, grid@, frame@),
        r matches Err(e) ==> e == ConversionError::EmptyImage && (frame@.width == 0 || frame@.height == 0),
{
    if frame.width() == 0 || frame.height() == 0 {
        return Err(ConversionError::EmptyImage);
    }
    let rows: usize = grid.height();
    let cols: usize = grid.width();
    let ghost want = Seq::new(grid@.len(), |r: int| marked_row(kind, grid@, frame@, r));
    let mut lines: Vec<String> = Vec::new();
    let mut r: usize = 0;
    while r < rows
        invariant
            r <= rows,
            rows == grid@.len(),
            cols == grid.spec_cols(),
            rectangular(grid@, cols as nat),
            frame@.width >= 1,
            frame@.height >= 1,
            lines@.len() == r,
            forall|i: int|
                0 <= i < r ==> (#[trigger] lines@[i])@ == marked_row(kind, grid@, frame@, i),
        decreases rows - r,
    {
        let chars = grid.row(r);
        let mut s = String::new();
        let mut c: usize = 0;
        while c < cols
            invariant
                c <= cols,
                r < rows,
                rows == grid@.len(),
                cols == grid@[r as int].len(),
                chars@ == grid@[r as int],
                frame@.width >= 1,
                frame@.height >= 1,
                s@ == marked_cells(kind, grid@, frame@, r as int, c as nat),
            decreases cols - c,
        {
            let color = sample_color(frame, rows, cols, r, c);
            push_marked_cell(&mut s, kind, color, chars[c]);
            c = c + 1;
        }
        match kind {
            Markup::Terminal => {
                s.append("\x1b[0m");
            },
            Markup::Html => {
                assert(s@ + Seq::<char>::empty() =~= s@);
            },
        }
        lines.push(s);
        r = r + 1;
    }
    assert(strings_view(lines@) =~= want);
    let text = match kind {
        Markup::Terminal => join_lines(&lines, "\n"),
        Markup::Html => join_lines(&lines, "<br>"),
    };
    Ok(text)
}

/// Renders the grid for a terminal: every character after the escape sequence
/// that sets its colour, every row followed by the sequence that resets the
/// colours, the rows joined by line breaks.
pub fn char_rows_to_terminal_color_string(grid: &CharGrid, frame: &Frame) -> (r: Result<
    String,
    ConversionError,
>)
    ensures
        frame@.width >= 1 && frame@.height >= 1 ==> r is Ok,
        r matches Ok(s) ==> s@ == marked_text(Markup::Terminal, grid@, frame@),
        r matches Err(e) ==> e == ConversionError::EmptyImage && (frame@.width == 0 || frame@.height == 0),
{
    render_marked(Markup::Terminal, grid, frame)
}

/// Renders the grid for a web page: every character, escaped, in an element
/// that sets its colour, the rows joined by line-break elements.
pub fn char_rows_to_html_color_string(grid: &CharGrid, frame: &Frame) -> (r: Result<
    String,
    ConversionError,
>)
    ensures
        frame@.width >= 1 && frame@.height >= 1 ==> r is Ok,
        r matches Ok(s) ==> s@ == marked_text(Markup::Html, grid@, frame@),
        r matches Err(e) ==> e == ConversionError::EmptyImage && (frame@.width == 0 || frame@.height == 0),
{
    render_marked(Markup::Html, grid, frame)
}

/// The colour of paper: white.
pub open spec fn paper() -> Rgb {
    Rgb { r: 255, g: 255, b: 255 }
}

/// The colour of ink where no frame gives one: black.
pub open spec fn black() -> Rgb {
    Rgb { r: 0, g: 0, b: 0 }
}

/// Whether pixel `(x, y)` of the bitmap carries ink: whether the glyph of the
/// character in whose cell the pixel lies has the pixel set. A character
/// without a glyph leaves its cell blank.
pub open spec fn inked(grid: Seq<Seq<char>>, catalog: CatalogModel, x: int, y: int) -> bool {
    let cw = catalog.cell_width as int;
    let ch = catalog.cell_height as int;
    match catalog.glyph_for(grid[y / ch][x / cw]) {
        Some(g) => g.mask[(y % ch) * cw + x % cw],
        None => false,
    }
}

/// The colour of pixel `(x, y)` of the bitmap: paper where there is no ink;
/// where there is, the colour of the frame under the cell, or black without a frame.
pub open spec fn stamped_pixel(
    grid: Seq<Seq<char>>,
    catalog: CatalogModel,
    frame: Option<FrameModel>,
    x: int,
    y: int,
) -> Rgb {
    if inked(grid, catalog, x, y) {
        match frame {
            Some(f) => cell_color(
                f,
                grid.len() as int,
                grid[y / (catalog.cell_height as int)].len() as int,
                y / (catalog.cell_height as int),
                x / (catalog.cell_width as int),
            ),
            None => black(),
        }
    } else {
        paper()
    }
}

/// Whether the bitmap of a grid of `rows` by `cols` cells can be held: its
/// sides fit in 32 bits and its bytes can be addressed.
pub open spec fn bitmap_fits(rows: nat, cols: nat, catalog: CatalogModel) -> bool {
    &&& cols * catalog.cell_width <= u32::MAX
    &&& rows * catalog.cell_height <= u32::MAX
    &&& 3 * (cols * catalog.cell_width) * (rows * catalog.cell_height) <= usize::MAX
}

/// Whether `f` is the bitmap of the grid: one cell of the catalog's size per
/// character, every pixel as `stamped_pixel` says.
pub open spec fn is_bitmap_of(
    f: FrameModel,
    grid: Seq<Seq<char>>,
    cols: nat,
    catalog: CatalogModel,
    frame: Option<FrameModel>,
) -> bool {
    &&& f.wf()
    &&& f.width == cols * catalog.cell_width
    &&& f.height == grid.len() * catalog.cell_height
    &&& forall|x: int, y: int|
        0 <= x < f.width && 0 <= y < f.height ==> #[trigger] f.pixel(x, y) == stamped_pixel(
            grid,
            catalog,
            frame,
            x,
            y,
        )
}

/// Quotient and remainder of a number below `n * b`.
pub proof fn lemma_cell_of(a: int, b: int, n: int)
    requires
        0 <= a < n * b,
        1 <= b,
    ensures
        0 <= a / b < n,
        0 <= a % b < b,
        a == (a / b) * b + a % b,
{
    vstd::arithmetic::div_mod::lemma_fundamental_div_mod(a, b);
    let q = a / b;
    let r = a % b;
    assert(b * q == q * b) by (nonlinear_arith);
    assert(0 <= q < n) by (nonlinear_arith)
        requires
            a == q * b + r,
            0 <= r < b,
            0 <= a < n * b,
    ;
}

/// Stamps the glyphs of the grid's characters into a bitmap.
fn stamp(grid: &CharGrid, font: &Catalog, frame: Option<&Frame>) -> (r: Result<Frame, ConversionError>)
    ensures
        match r {
            Ok(f) => is_bitmap_of(
                f@,
                grid@,
                grid.spec_cols(),
                font@,
                match frame {
                    Some(src) => Some(src@),
                    None => None,
                },
            ) && bitmap_fits(grid@.len(), grid.spec_cols(), font@) && (frame matches Some(src)
                ==> src@.width >= 1 && src@.height >= 1),
            Err(e) => if frame matches Some(src) && (src@.width == 0 || src@.height == 0) {
                e == ConversionError::EmptyImage
            } else {
                e == ConversionError::InvalidConfiguration && !bitmap_fits(
                    grid@.len(),
                    grid.spec_cols(),
                    font@,
                )
            },
        },
{
    let ghost source: Option<FrameModel> = match frame {
        Some(src) => Some(src@),
        None => None,
    };
    match frame {
        Some(src) => {
            if src.width() == 0 || src.height() == 0 {
                return Err(ConversionError::EmptyImage);
            }
        },
        None => {},
    }
    let (cell_width, cell_height) = font.cell_dimensions();
    let rows: usize = grid.height();
    let cols: usize = grid.width();
    let cw: u64 = cell_width as u64;
    let ch: u64 = cell_height as u64;
    if cols > 0xffff_ffff || rows > 0xffff_ffff {
        proof {
            assert(cols > 0xffff_ffff ==> cols * cw > u32::MAX) by (nonlinear_arith)
                requires
                    cw >= 1,
            ;
            assert(rows > 0xffff_ffff ==> rows * ch > u32::MAX) by (nonlinear_arith)
                requires
                    ch >= 1,
            ;
        }
        return Err(ConversionError::InvalidConfiguration);
    }
    assert(0 <= cols * cw <= 0xffff_ffff * 0xffff && 0 <= rows * ch <= 0xffff_ffff * 0xffff)
        by (nonlinear_arith)
        requires
            0 <= cols <= 0xffff_ffff,
            0 <= rows <= 0xffff_ffff,
            0 <= cw <= 0xffff,
            0 <= ch <= 0xffff,
    ;
    let width: u64 = cols as u64 * cw;
    let height: u64 = rows as u64 * ch;
    if width > 0xffff_ffff || height > 0xffff_ffff {
        return Err(ConversionError::InvalidConfiguration);
    }
    assert(0 <= width * height <= 0xffff_ffff * 0xffff_ffff) by (nonlinear_arith)
        requires
            0 <= width <= 0xffff_ffff,
            0 <= height <= 0xffff_ffff,
    ;
    assert(3 * width * height == 3 * (width * height)) by (nonlinear_arith);
    let bytes: u128 = 3 * (width as u128 * height as u128);
    if bytes > usize::MAX as u128 {
        return Err(ConversionError::InvalidConfiguration);
    }
    let n: usize = (width * height) as usize;
    let mut data: Vec<u8> = Vec::new();
    let mut i: usize = 0;
    while i < n
        invariant
            i <= n,
            n == width * height,
            3 * n <= usize::MAX,
            width == cols * cw,
            height == rows * ch,
            width <= 0xffff_ffff,
            height <= 0xffff_ffff,
            cw == font@.cell_width,
            ch == font@.cell_height,
            font@.wf(),
            rows == grid@.len(),
            cols == grid.spec_cols(),
            rectangular(grid@, cols as nat),
            source == match frame {
                Some(src) => Some(src@),
                None => None::<FrameModel>,
            },
            frame matches Some(src) ==> src@.width >= 1 && src@.height >= 1,
            data@.len() == 3 * i,
            forall|j: int|
                0 <= j < i ==> (Rgb {
                    r: #[trigger] data@[3 * j],
                    g: data@[3 * j + 1],
                    b: data@[3 * j + 2],
                }) == stamped_pixel(grid@, font@, source, j % (width as int), j / (width as int)),
        decreases n - i,
    {
        proof {
            assert(width >= 1) by (nonlinear_arith)
                requires
                    i < width * height,
                    0 <= width,
                    0 <= height,
                    0 <= i,
            ;
            assert(i < height * width) by (nonlinear_arith)
                requires
                    i < width * height,
            ;
            lemma_cell_of(i as int, width as int, height as int);
            lemma_cell_of(i as int % (width as int), cw as int, cols as int);
            lemma_cell_of(i as int / (width as int), ch as int, rows as int);
        }
        let x: u64 = i as u64 % width;
        let y: u64 = i as u64 / width;
        let r: usize = (y / ch) as usize;
        let c: usize = (x / cw) as usize;
        let ty: u64 = y % ch;
        let tx: u64 = x % cw;
        assert(0 <= ty * cw && ty * cw + tx < cw * ch && cw * ch <= 0xffff * 0xffff)
            by (nonlinear_arith)
            requires
                0 <= ty < ch,
                0 <= tx < cw,
                cw <= 0xffff,
                ch <= 0xffff,
        ;
        let symbol: char = grid.row(r)[c];
        let ink: bool = match font.glyph_for(symbol) {
            Some(g) => {
                proof {
                    let k = font@.index_of(symbol);
                    assert(font@.has(symbol));
                    assert(font@.glyphs[k].mask.len() == font@.area());
                }
                g.mask()[(ty * cw + tx) as usize]
            },
            None => false,
        };
        let color: Rgb = if ink {
            match frame {
                Some(src) => sample_color(src, rows, cols, r, c),
                None => Rgb { r: 0, g: 0, b: 0 },
            }
        } else {
            Rgb { r: 255, g: 255, b: 255 }
        };
        assert(color == stamped_pixel(grid@, font@, source, x as int, y as int));
        let ghost before = data@;
        data.push(color.r);
        data.push(color.g);
        data.push(color.b);
        proof {
            assert forall|j: int| 0 <= j < i + 1 implies (Rgb {
                r: #[trigger] data@[3 * j],
                g: data@[3 * j + 1],
                b: data@[3 * j + 2],
            }) == stamped_pixel(
                grid@,
                font@,
                source,
                j % (width as int),
                j / (width as int),
            ) by {
                if j < i {
                    assert(data@[3 * j] == before[3 * j]);
                    assert(data@[3 * j + 1] == before[3 * j + 1]);
                    assert(data@[3 * j + 2] == before[3 * j + 2]);
                }
            }
        }
        i = i + 1;
    }
    let ghost bytes_view = data@;
    match Frame::new(width as u32, height as u32, data) {
        Ok(f) => {
            proof {
                assert forall|x: int, y: int|
                    0 <= x < f@.width && 0 <= y < f@.height implies #[trigger] f@.pixel(x, y)
                    == stamped_pixel(grid@, font@, source, x, y) by {
                    let j = y * (width as int) + x;
                    vstd::arithmetic::div_mod::lemma_fundamental_div_mod_converse(
                        j,
                        width as int,
                        y,
                        x,
                    );
                    assert(0 <= j < width * height) by (nonlinear_arith)
                        requires
                            j == y * (width as int) + x,
                            0 <= x < width,
                            0 <= y < height,
                    ;
                    assert(f@.offset(x, y) == 3 * j);
                    assert(bytes_view[3 * j] == f@.data[3 * j]);
                }
            }
            Ok(f)
        },
        Err(e) => Err(e),
    }
}

/// Renders the grid as a bitmap in one colour: black ink on white paper,
/// one cell of the catalog's size per character, each character's glyph
/// stamped into its cell. Fails with `InvalidConfiguration` where the bitmap
/// would be too large to hold.
pub fn char_rows_to_bitmap(grid: &CharGrid, font: &Catalog) -> (r: Result<Frame, ConversionError>)
    ensures
        r is Ok <==> bitmap_fits(grid@.len(), grid.spec_cols(), font@),
        r matches Ok(f) ==> is_bitmap_of(f@, grid@, grid.spec_cols(), font@, None),
        r matches Err(e) ==> e == ConversionError::InvalidConfiguration,
{
    stamp(grid, font, None)
}

/// Renders the grid as a bitmap in colour: as in one colour, but the ink of
/// each cell has the colour of the frame under the cell. Fails with
/// `EmptyImage` for a frame without pixels, and otherwise with
/// `InvalidConfiguration` where the bitmap would be too large to hold.
pub fn char_rows_to_color_bitmap(grid: &CharGrid, font: &Catalog, frame: &Frame) -> (r: Result<
    Frame,
    ConversionError,
>)
    ensures
        r is Ok <==> frame@.width >= 1 && frame@.height >= 1 && bitmap_fits(
            grid@.len(),
            grid.spec_cols(),
            font@,
        ),
        r matches Ok(f) ==> is_bitmap_of(f@, grid@, grid.spec_cols(), font@, Some(frame@)),
        r matches Err(e) ==> e == if frame@.width == 0 || frame@.height == 0 {
            ConversionError::EmptyImage
        } else {
            ConversionError::InvalidConfiguration
        },
{
    stamp(grid, font, Some(frame))
}

} // verus!
