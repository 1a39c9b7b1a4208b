//! Frames: rectangular buffers of RGB pixels, used both for source images
//! and for rendered bitmaps.

use vstd::prelude::*;
use crate::error::ConversionError;

verus! {

/// One pixel's colour.
#[derive(Clone, Copy, Debug, PartialEq, Eq, Structural)]
pub struct Rgb {
    pub r: u8,
    pub g: u8,
    pub b: u8,
}

/// Luminance of a colour on the scale 0 (black) to 255 (white), with the
/// usual weights of 29.9%, 58.7% and 11.4% for red, green and blue.
pub open spec fn luma(c: Rgb) -> int {
    (299 * (c.r as int) + 587 * (c.g as int) + 114 * (c.b as int)) / 1000
}

/// Computes the luminance of a colour.
pub fn luminance(c: Rgb) -> (l: u8)
    ensures
        l as int == luma(c),
{
    let total: u32 = 299 * (c.r as u32) + 587 * (c.g as u32) + 114 * (c.b as u32);
    (total / 1000) as u8
}

/// The mathematical content of a frame: its size and its bytes, three per
/// pixel (red, green, blue), rows from top to bottom, each from left to right.
pub struct FrameModel {
    pub width: nat,
    pub height: nat,
    pub data: Seq<u8>,
}

impl FrameModel {
    /// The buffer holds exactly three bytes per pixel.
    pub open spec fn wf(self) -> bool {
        self.data.len() == 3 * self.width * self.height
    }

    /// Whether `(x, y)` names a pixel of the frame.
    pub open spec fn contains(self, x: int, y: int) -> bool {
        0 <= x < self.width && 0 <= y < self.height
    }

    /// Position in the buffer of the first byte of pixel `(x, y)`.
    pub open spec fn offset(self, x: int, y: int) -> int {
        3 * (y * self.width + x)
    }

    /// The colour of pixel `(x, y)`.
    pub open spec fn pixel(self, x: int, y: int) -> Rgb {
        Rgb {
            r: self.data[self.offset(x, y)],
            g: self.data[self.offset(x, y) + 1],
            b: self.data[self.offset(x, y) + 2],
        }
    }
}

/// The three bytes of every pixel of a well-formed frame lie inside its buffer,
/// and different pixels occupy different bytes.
pub proof fn lemma_offset_in_bounds(m: FrameModel, x: int, y: int)
    requires
        m.wf(),
        m.contains(x, y),
    ensures
        0 <= m.offset(x, y),
        m.offset(x, y) + 3 <= m.data.len(),
        m.offset(x, y) + 3 <= 3 * m.width * m.height,
{
    let w = m.width as int;
    let h = m.height as int;
    assert(y * w + x + 1 <= h * w) by (nonlinear_arith)
        requires
            0 <= x < w,
            0 <= y < h,
    ;
    assert(y * w >= 0) by (nonlinear_arith)
        requires
            0 <= w,
            0 <= y,
    ;
    assert(3 * w * h == 3 * (h * w)) by (nonlinear_arith);
}

/// A rectangular buffer of RGB pixels.
#[derive(Debug, PartialEq, Eq)]
pub struct Frame {
    width: u32,
    height: u32,
    data: Vec<u8>,
}

impl View for Frame {
    type V = FrameModel;

    closed spec fn view(&self) -> FrameModel {
        FrameModel { width: self.width as nat, height: self.height as nat, data: self.data@ }
    }
}

impl Frame {
    #[verifier::type_invariant]
    spec fn inv(&self) -> bool {
        self@.wf()
    }

    /// Makes a frame of the given size from its bytes. The buffer must hold
    /// exactly three bytes per pixel.
    pub fn new(width: u32, height: u32, data: Vec<u8>) -> (r: Result<Frame, ConversionError>)
        ensures
            data@.len() == 3 * width * height ==> r is Ok,
            r matches Ok(f) ==> f@ == (FrameModel {
                width: width as nat,
                height: height as nat,
                data: data@,
            }) && f@.wf(),
            r matches Err(e) ==> e == ConversionError::InvalidConfiguration && data@.len() != 3 * width
                * height,
    {
        assert(0 <= width * height <= 0xffff_ffff * 0xffff_ffff) by (nonlinear_arith)
            requires
                0 <= width <= 0xffff_ffff,
                0 <= height <= 0xffff_ffff,
        ;
        let pixels: u64 = (width as u64) * (height as u64);
        assert(3 * width * height == 3 * (width * height)) by (nonlinear_arith);
        let len: u64 = data.len() as u64;
        if len % 3 == 0 && len / 3 == pixels {
            Ok(Frame { width, height, data })
        } else {
            Err(ConversionError::InvalidConfiguration)
        }
    }

    /// Number of pixel columns.
    pub fn width(&self) -> (w: u32)
        ensures
            w == self@.width,
    {
        self.width
    }

    /// Number of pixel rows.
    pub fn height(&self) -> (h: u32)
        ensures
            h == self@.height,
    {
        self.height
    }

    /// The frame's bytes, three per pixel.
    pub fn data(&self) -> (d: &Vec<u8>)
        ensures
            d@ == self@.data,
            self@.wf(),
    {
        proof {
            use_type_invariant(self);
        }
        &self.data
    }

    /// The colour of pixel `(x, y)`, or `None` outside the frame.
    pub fn pixel(&self, x: u32, y: u32) -> (p: Option<Rgb>)
        ensures
            self@.wf(),
            p == if self@.contains(x as int, y as int) {
                Some(self@.pixel(x as int, y as int))
            } else {
                None::<Rgb>
            },
    {
        proof {
            use_type_invariant(self);
        }
        if x < self.width && y < self.height {
            let len: usize = self.data.len();
            proof {
                lemma_offset_in_bounds(self@, x as int, y as int);
                assert(self@.offset(x as int, y as int) == 3 * ((y as int) * (self.width as int)
                    + x as int));
                assert(0 <= (y as int) * (self.width as int)) by (nonlinear_arith);
                assert(self.data@.len() == len);
            }
            let w: usize = self.width as usize;
            let i: usize = 3 * (y as usize * w + x as usize);
            Some(Rgb { r: self.data[i], g: self.data[i + 1], b: self.data[i + 2] })
        } else {
            None
        }
    }
}

} // verus!
