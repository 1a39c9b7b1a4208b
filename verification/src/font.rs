//! Glyphs and glyph catalogs: the fixed-size pixel masks of the characters
//! that a conversion may select.

use vstd::prelude::*;
use crate::bdf::{load_font, loaded};
use crate::error::ConversionError;

verus! {

/// The largest cell side that a catalog accepts.
pub const MAX_CELL_SIDE: u32 = 0xffff;

/// Number of set pixels in a mask.
pub open spec fn count_set(mask: Seq<bool>) -> nat
    decreases mask.len(),
{
    if mask.len() == 0 {
        0
    } else {
        count_set(mask.drop_last()) + if mask.last() {
            1nat
        } else {
            0nat
        }
    }
}

/// The mathematical content of a glyph: a character and its pixel mask, rows
/// from top to bottom, each from left to right. A set pixel carries ink.
pub struct GlyphModel {
    pub ch: char,
    pub mask: Seq<bool>,
}

/// The mathematical content of a catalog: the cell size shared by all glyphs
/// and the glyphs in catalog order.
pub struct CatalogModel {
    pub cell_width: nat,
    pub cell_height: nat,
    pub glyphs: Seq<GlyphModel>,
}

impl CatalogModel {
    /// Number of pixels in a cell.
    pub open spec fn area(self) -> nat {
        self.cell_width * self.cell_height
    }

    /// The cell is not empty and not oversized, there is at least one glyph,
    /// every mask fills the cell, and no character occurs twice.
    pub open spec fn wf(self) -> bool {
        &&& 1 <= self.cell_width <= MAX_CELL_SIDE
        &&& 1 <= self.cell_height <= MAX_CELL_SIDE
        &&& self.glyphs.len() >= 1
        &&& forall|i: int|
            0 <= i < self.glyphs.len() ==> (#[trigger] self.glyphs[i]).mask.len() == self.area()
        &&& forall|i: int, j: int|
            0 <= i < j < self.glyphs.len() ==> (#[trigger] self.glyphs[i]).ch != (
            #[trigger] self.glyphs[j]).ch
    }

    /// Whether the catalog has a glyph for `c`.
    pub open spec fn has(self, c: char) -> bool {
        exists|i: int| 0 <= i < self.glyphs.len() && (#[trigger] self.glyphs[i]).ch == c
    }

    /// Position in catalog order of the glyph for `c`, where there is one.
    pub open spec fn index_of(self, c: char) -> int {
        choose|i: int| 0 <= i < self.glyphs.len() && (#[trigger] self.glyphs[i]).ch == c
    }

    /// The glyph for `c`, if the catalog has one.
    pub open spec fn glyph_for(self, c: char) -> Option<GlyphModel> {
        if self.has(c) {
            Some(self.glyphs[self.index_of(c)])
        } else {
            None
        }
    }
}

/// In a well-formed catalog a character determines its glyph's position.
pub proof fn lemma_index_of_unique(m: CatalogModel, i: int)
    requires
        m.wf(),
        0 <= i < m.glyphs.len(),
    ensures
        m.has(m.glyphs[i].ch),
        m.index_of(m.glyphs[i].ch) == i,
        m.glyph_for(m.glyphs[i].ch) == Some(m.glyphs[i]),
{
    let c = m.glyphs[i].ch;
    let j = m.index_of(c);
    assert(0 <= j < m.glyphs.len() && m.glyphs[j].ch == c);
    if j < i {
        assert(m.glyphs[j].ch != m.glyphs[i].ch);
    }
    if i < j {
        assert(m.glyphs[i].ch != m.glyphs[j].ch);
    }
}

/// A character with its pixel mask and the number of its set pixels.
#[derive(Debug, PartialEq, Eq)]
pub struct Glyph {
    ch: char,
    mask: Vec<bool>,
    coverage: usize,
}

impl View for Glyph {
    type V = GlyphModel;

    closed spec fn view(&self) -> GlyphModel {
        GlyphModel { ch: self.ch, mask: self.mask@ }
    }
}

impl Glyph {
    #[verifier::type_invariant]
    spec fn inv(&self) -> bool {
        self.coverage == count_set(self.mask@)
    }

    /// Makes a glyph from a character and its mask, and counts the set pixels.
    pub fn new(ch: char, mask: Vec<bool>) -> (g: Glyph)
        ensures
            g@ == (GlyphModel { ch, mask: mask@ }),
    {
        let mut coverage: usize = 0;
        let mut i: usize = 0;
        while i < mask.len()
            invariant
                i <= mask.len(),
                coverage == count_set(mask@.take(i as int)),
                coverage <= i,
            decreases mask.len() - i,
        {
            proof {
                assert(mask@.take(i + 1).drop_last() =~= mask@.take(i as int));
            }
            if mask[i] {
                coverage = coverage + 1;
            }
            i = i + 1;
        }
        proof {
            assert(mask@.take(i as int) =~= mask@);
        }
        Glyph { ch, mask, coverage }
    }

    /// The character that the glyph draws.
    pub fn ch(&self) -> (c: char)
        ensures
            c == self@.ch,
    {
        self.ch
    }

    /// The pixel mask, rows from top to bottom.
    pub fn mask(&self) -> (m: &Vec<bool>)
        ensures
            m@ == self@.mask,
    {
        &self.mask
    }

    /// Number of set pixels: how dark the glyph prints.
    pub fn coverage(&self) -> (n: usize)
        ensures
            n == count_set(self@.mask),
    {
        proof {
            use_type_invariant(self);
        }
        self.coverage
    }
}

/// The models of a sequence of glyphs.
pub open spec fn glyph_models(glyphs: Seq<Glyph>) -> Seq<GlyphModel> {
    Seq::new(glyphs.len(), |i: int| glyphs[i]@)
}

/// An ordered collection of glyphs of one cell size, at most one per character.
#[derive(Debug, PartialEq, Eq)]
pub struct Catalog {
    cell_width: u32,
    cell_height: u32,
    glyphs: Vec<Glyph>,
}

impl View for Catalog {
    type V = CatalogModel;

    closed spec fn view(&self) -> CatalogModel {
        CatalogModel {
            cell_width: self.cell_width as nat,
            cell_height: self.cell_height as nat,
            glyphs: glyph_models(self.glyphs@),
        }
    }
}

impl Catalog {
    #[verifier::type_invariant]
    spec fn inv(&self) -> bool {
        self@.wf()
    }

    /// Makes a catalog of the given cell size from glyphs in catalog order.
    /// Fails with `FontLoad` unless the result is well formed: a cell side of
    /// zero or beyond `MAX_CELL_SIDE`, no glyph at all, a mask that does not
    /// fill the cell, or a character that occurs twice.
    pub fn new(cell_width: u32, cell_height: u32, glyphs: Vec<Glyph>) -> (r: Result<
        Catalog,
        ConversionError,
    >)
        ensures
            r is Ok <==> (CatalogModel {
                cell_width: cell_width as nat,
                cell_height: cell_height as nat,
                glyphs: glyph_models(glyphs@),
            }).wf(),
            r matches Ok(c) ==> c@ == (CatalogModel {
                cell_width: cell_width as nat,
                cell_height: cell_height as nat,
                glyphs: glyph_models(glyphs@),
            }),
            r matches Err(e) ==> e == ConversionError::FontLoad,
    {
        let ghost m = CatalogModel {
            cell_width: cell_width as nat,
            cell_height: cell_height as nat,
            glyphs: glyph_models(glyphs@),
        };
        if cell_width < 1 || cell_width > MAX_CELL_SIDE || cell_height < 1 || cell_height
            > MAX_CELL_SIDE || glyphs.len() < 1 {
            return Err(ConversionError::FontLoad);
        }
        assert(0 <= cell_width * cell_height <= 0xffff * 0xffff) by (nonlinear_arith)
            requires
                0 <= cell_width <= 0xffff,
                0 <= cell_height <= 0xffff,
        ;
        let area: usize = (cell_width * cell_height) as usize;
        let mut i: usize = 0;
        while i < glyphs.len()
            invariant
                i <= glyphs.len(),
                area == m.area(),
                m == (CatalogModel {
                    cell_width: cell_width as nat,
                    cell_height: cell_height as nat,
                    glyphs: glyph_models(glyphs@),
                }),
                forall|k: int| 0 <= k < i ==> (#[trigger] m.glyphs[k]).mask.len() == area,
                forall|k: int, l: int|
                    0 <= k < l < i ==> (#[trigger] m.glyphs[k]).ch != (#[trigger] m.glyphs[l]).ch,
            decreases glyphs.len() - i,
        {
            if glyphs[i].mask.len() != area {
                assert(m.glyphs[i as int].mask.len() != m.area());
                return Err(ConversionError::FontLoad);
            }
            let mut j: usize = 0;
            while j < i
                invariant
                    j <= i < glyphs.len(),
                    m == (CatalogModel {
                        cell_width: cell_width as nat,
                        cell_height: cell_height as nat,
                        glyphs: glyph_models(glyphs@),
                    }),
                    forall|k: int| 0 <= k < j ==> (#[trigger] m.glyphs[k]).ch != m.glyphs[i as int].ch,
                decreases i - j,
            {
                if glyphs[j].ch == glyphs[i].ch {
                    assert(m.glyphs[j as int].ch == m.glyphs[i as int].ch);
                    return Err(ConversionError::FontLoad);
                }
                j = j + 1;
            }
            i = i + 1;
        }
        Ok(Catalog { cell_width, cell_height, glyphs })
    }

    /// Loads the catalog of an alphabet from a bitmap font in the Glyph Bitmap
    /// Distribution Format: one glyph for each character of the alphabet, in
    /// the alphabet's order. Fails with `FontLoad` where the source is
    /// malformed, the alphabet is empty, the font lacks a glyph for one of its
    /// characters, or the glyphs are not all of one size.
    pub fn load(font_source: &[u8], alphabet: &[char]) -> (r: Result<Catalog, ConversionError>)
        ensures
            match r {
                Ok(c) => loaded(font_source@, alphabet@) == Some(c@) && c@.wf(),
                Err(e) => e == ConversionError::FontLoad && loaded(font_source@, alphabet@) is None,
            },
    {
        load_font(font_source, alphabet)
    }

    /// The cell size shared by all glyphs: width, then height.
    pub fn cell_dimensions(&self) -> (d: (u32, u32))
        ensures
            d.0 == self@.cell_width,
            d.1 == self@.cell_height,
            self@.wf(),
    {
        proof {
            use_type_invariant(self);
        }
        (self.cell_width, self.cell_height)
    }

    /// Number of glyphs.
    pub fn len(&self) -> (n: usize)
        ensures
            n == self@.glyphs.len(),
            self@.wf(),
    {
        proof {
            use_type_invariant(self);
        }
        self.glyphs.len()
    }

    /// The glyph at position `i` in catalog order.
    pub fn glyph(&self, i: usize) -> (g: &Glyph)
        requires
            i < self@.glyphs.len(),
        ensures
            g@ == self@.glyphs[i as int],
            g@.mask.len() == self@.area(),
    {
        proof {
            use_type_invariant(self);
            assert(self@.glyphs[i as int].mask.len() == self@.area());
        }
        &self.glyphs[i]
    }

    /// Position in catalog order of the glyph for `c`, if there is one.
    pub fn position(&self, c: char) -> (r: Option<usize>)
        ensures
            self@.wf(),
            r is Some <==> self@.has(c),
            r matches Some(i) ==> i as int == self@.index_of(c) && i < self@.glyphs.len(),
    {
        proof {
            use_type_invariant(self);
        }
        let mut i: usize = 0;
        while i < self.glyphs.len()
            invariant
                i <= self.glyphs.len(),
                self@.wf(),
                forall|k: int| 0 <= k < i ==> (#[trigger] self@.glyphs[k]).ch != c,
            decreases self.glyphs.len() - i,
        {
            if self.glyphs[i].ch == c {
                proof {
                    assert(self@.glyphs[i as int].ch == c);
                    lemma_index_of_unique(self@, i as int);
                }
                return Some(i);
            }
            i = i + 1;
        }
        None
    }

    /// The glyph for `c`, if the catalog has one.
    pub fn glyph_for(&self, c: char) -> (r: Option<&Glyph>)
        ensures
            self@.wf(),
            match r {
                Some(g) => self@.glyph_for(c) == Some(g@),
                None => self@.glyph_for(c) is None,
            },
    {
        match self.position(c) {
            Some(i) => Some(&self.glyphs[i]),
            None => None,
        }
    }
}

} // verus!
