//! The failures that the library reports to its callers.

use vstd::prelude::*;

verus! {

/// Every way in which a conversion can be refused. Each failure aborts the
/// conversion as a whole: no partial result is handed out.
#[derive(Clone, Copy, Debug, PartialEq, Eq, Structural)]
pub enum ConversionError {
    /// The font source is malformed, lacks a glyph for a character of the
    /// alphabet, or its glyphs disagree on the cell size.
    FontLoad,
    /// The name does not denote a similarity metric.
    UnknownMetric,
    /// The source frame has no pixels.
    EmptyImage,
    /// Fewer than one worker was asked for.
    InvalidThreadCount,
    /// A setting is out of range: a width of zero, a frame rate of zero, a
    /// pixel buffer of the wrong length, or a result too large to address.
    InvalidConfiguration,
    /// The bytes are not an image that the decoder accepts.
    Undecodable,
}

} // verus!
