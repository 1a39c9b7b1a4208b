//! The places where the library relies on other crates: the decoder that
//! turns the bytes of an image file into pixels, and the encoder that writes
//! strings as JSON. What is said of them here is believed, not proved.

use vstd::prelude::*;
use crate::animation::frame_models;
use crate::error::ConversionError;
use crate::frame::{Frame, FrameModel};
use crate::text::{digit_char, joined, strings_view};
use image::codecs::gif::GifDecoder;
use image::io::Limits;
use image::{AnimationDecoder, DynamicImage, ImageDecoder, ImageError};

verus! {

/// Width and height of a decoded image.
pub uninterp spec fn image_size(img: DynamicImage) -> (nat, nat);

/// The pixels that a decoded image holds, as bytes of red, green and blue,
/// rows from top to bottom.
pub uninterp spec fn image_rgb(img: DynamicImage) -> Seq<u8>;

/// Whether a decoded image holds its samples as floating-point numbers.
pub uninterp spec fn image_is_float(img: DynamicImage) -> bool;

/// What the decoder makes of the bytes of an animated image file: the size
/// and the pixels of every frame in playing order, or nothing where it
/// refuses the bytes.
pub uninterp spec fn decoded_frames(bytes: Seq<u8>) -> Option<Seq<((nat, nat), Seq<u8>)>>;

/// A character as it stands inside a JSON string: the quotation mark and
/// the reverse solidus after a reverse solidus; backspace, tab, line feed,
/// form feed and carriage return as `\b`, `\t`, `\n`, `\f` and `\r`; any other
/// character below the space as `\u00` and two hexadecimal digits; every
/// other character as it is.
pub open spec fn json_escape(c: char) -> Seq<char> {
    if c == '"' {
        seq!['\\', '"']
    } else if c == '\\' {
        seq!['\\', '\\']
    } else if c == '\u{8}' {
        seq!['\\', 'b']
    } else if c == '\t' {
        seq!['\\', 't']
    } else if c == '\n' {
        seq!['\\', 'n']
    } else if c == '\u{c}' {
        seq!['\\', 'f']
    } else if c == '\r' {
        seq!['\\', 'r']
    } else if (c as u32) < 0x20 {
        seq![
            '\\',
            'u',
            '0',
            '0',
            digit_char((c as u32) as int / 16),
            digit_char((c as u32) as int % 16),
        ]
    } else {
        seq![c]
    }
}

/// The characters of a text as they stand inside a JSON string.
pub open spec fn json_escaped(text: Seq<char>) -> Seq<char>
    decreases text.len(),
{
    if text.len() == 0 {
        Seq::empty()
    } else {
        json_escaped(text.drop_last()) + json_escape(text.last())
    }
}

/// A text as a JSON string: its characters between quotation marks.
pub open spec fn json_string(text: Seq<char>) -> Seq<char> {
    seq!['"'] + json_escaped(text) + seq!['"']
}

/// The JSON text for an array of strings: the strings between square
/// brackets, with a comma between each two and no white space.
pub open spec fn json_array(texts: Seq<Seq<char>>) -> Seq<char> {
    seq!['['] + joined(Seq::new(texts.len(), |i: int| json_string(texts[i])), seq![',']) + seq![
        ']',
    ]
}

/// The bytes with which a file in the Radiance format begins.
pub open spec fn radiance_signature() -> Seq<u8> {
    seq![35u8, 63u8, 82u8, 65u8, 68u8, 73u8, 65u8, 78u8, 67u8, 69u8]
}

/// Whether the bytes begin as a file in the Radiance format does. The
/// decoder of that format can overflow a counter on bytes that it ought to
/// refuse, so the library hands it nothing.
pub open spec fn is_radiance(bytes: Seq<u8>) -> bool {
    radiance_signature().is_prefix_of(bytes)
}

/// Size and pixels of each image.
pub open spec fn image_contents(images: Seq<DynamicImage>) -> Seq<((nat, nat), Seq<u8>)> {
    Seq::new(images.len(), |i: int| (image_size(images[i]), image_rgb(images[i])))
}

/// Calls `image::load_from_memory`, which guesses the format from the first
/// bytes and decodes the image under the crate's default limits. Nothing is
/// claimed of the outcome: some decoders choose their arithmetic by the
/// machine. Files in the Radiance format are left out.
#[verifier::external_body]
fn open_image(bytes: &[u8]) -> (r: Result<DynamicImage, ImageError>)
    requires
        !is_radiance(bytes@),
{
    image::load_from_memory(bytes)
}

/// Calls `GifDecoder::new`, sets the crate's default limits and collects the
/// frames with `into_frames().collect_frames()`; each frame's buffer is
/// taken as an image of 8-bit samples. Claimed: the outcome depends on the
/// bytes alone.
#[verifier::external_body]
fn open_frames(bytes: &[u8]) -> (r: Result<Vec<DynamicImage>, ImageError>)
    ensures
        match r {
            Ok(images) => decoded_frames(bytes@) == Some(image_contents(images@)) && forall|
                i: int,
            |
                0 <= i < images@.len() ==> !image_is_float(#[trigger] images@[i]),
            Err(_) => decoded_frames(bytes@) is None,
        },
{
    let mut decoder = GifDecoder::new(std::io::Cursor::new(bytes))?;
    decoder.set_limits(Limits::default())?;
    let frames = decoder.into_frames().collect_frames()?;
    Ok(frames.into_iter().map(|f| DynamicImage::ImageRgba8(f.into_buffer())).collect())
}

/// Tells the two variants of floating-point samples from the others, and
/// for the others calls `DynamicImage::to_rgb8` and hands out the buffer
/// with its width and height. Claimed: these are the image's size and
/// pixels, three bytes for each pixel.
#[verifier::external_body]
fn image_pixels(img: &DynamicImage) -> (r: Option<(u32, u32, Vec<u8>)>)
    ensures
        r is None <==> image_is_float(*img),
        r matches Some(t) ==> (t.0 as nat, t.1 as nat) == image_size(*img) && t.2@ == image_rgb(
            *img,
        ) && t.2@.len() == 3 * t.0 * t.1,
{
    match img {
        DynamicImage::ImageRgb32F(_) => None,
        DynamicImage::ImageRgba32F(_) => None,
        other => {
            let rgb = other.to_rgb8();
            Some((rgb.width(), rgb.height(), rgb.into_raw()))
        },
    }
}

/// Calls `serde_json::to_string` on the strings. Claimed: the encoder does
/// not fail on strings, and writes the array in its compact form with the
/// escapes of `json_escape`.
#[verifier::external_body]
fn encode_json(texts: &Vec<String>) -> (r: Result<String, serde_json::Error>)
    ensures
        r is Ok,
        r matches Ok(s) ==> s@ == json_array(strings_view(texts@)),
{
    serde_json::to_string(texts)
}

/// The frame of a size and its pixels.
pub open spec fn frame_of(content: ((nat, nat), Seq<u8>)) -> FrameModel {
    FrameModel { width: content.0.0, height: content.0.1, data: content.1 }
}

/// The frames that the bytes of an animated image file hold, in playing
/// order; none where the decoder refuses the bytes.
pub open spec fn animation_of(bytes: Seq<u8>) -> Option<Seq<FrameModel>> {
    match decoded_frames(bytes) {
        Some(contents) => Some(Seq::new(contents.len(), |i: int| frame_of(contents[i]))),
        None => None,
    }
}

/// Tells whether the bytes begin as a file in the Radiance format does.
pub fn has_radiance_signature(bytes: &[u8]) -> (r: bool)
    ensures
        r == is_radiance(bytes@),
{
    let sig: [u8; 10] = [35, 63, 82, 65, 68, 73, 65, 78, 67, 69];
    assert(sig@ =~= radiance_signature());
    if bytes.len() < 10 {
        return false;
    }
    let mut i: usize = 0;
    while i < 10
        invariant
            i <= 10,
            bytes@.len() >= 10,
            sig@ == radiance_signature(),
            forall|k: int| 0 <= k < i ==> bytes@[k] == sig@[k],
        decreases 10 - i,
    {
        if bytes[i] != sig[i] {
            return false;
        }
        i = i + 1;
    }
    assert(radiance_signature() =~= bytes@.subrange(0, 10));
    true
}

/// Makes a frame of a decoded image's pixels. Fails with `Undecodable` for
/// an image of floating-point samples.
pub fn frame_of_image(img: &DynamicImage) -> (r: Result<Frame, ConversionError>)
    ensures
        match r {
            Ok(f) => !image_is_float(*img) && f@ == frame_of(
                (image_size(*img), image_rgb(*img)),
            ) && f@.wf(),
            Err(e) => e == ConversionError::Undecodable && image_is_float(*img),
        },
{
    match image_pixels(img) {
        Some(t) => {
            let (width, height, data) = t;
            match Frame::new(width, height, data) {
                Ok(f) => Ok(f),
                Err(_) => Err(ConversionError::Undecodable),
            }
        },
        None => Err(ConversionError::Undecodable),
    }
}

/// Decodes the bytes of an image file into a frame; of a file that holds
/// several images, the first. Which pixels come back is the decoder's
/// matter. Fails with `Undecodable` for a file in the Radiance format, for
/// an image of floating-point samples, and where the decoder refuses the
/// bytes.
pub fn decode_image(bytes: &[u8]) -> (r: Result<Frame, ConversionError>)
    ensures
        match r {
            Ok(f) => f@.wf() && !is_radiance(bytes@),
            Err(e) => e == ConversionError::Undecodable,
        },
{
    if has_radiance_signature(bytes) {
        return Err(ConversionError::Undecodable);
    }
    match open_image(bytes) {
        Ok(img) => frame_of_image(&img),
        Err(_) => Err(ConversionError::Undecodable),
    }
}

/// Decodes the bytes of an animated image file into its frames, in playing
/// order. Fails with `Undecodable` where the decoder refuses the bytes.
pub fn decode_frames(bytes: &[u8]) -> (r: Result<Vec<Frame>, ConversionError>)
    ensures
        match r {
            Ok(frames) => animation_of(bytes@) == Some(frame_models(frames@)) && forall|i: int|
                0 <= i < frames@.len() ==> (#[trigger] frames@[i])@.wf(),
            Err(e) => e == ConversionError::Undecodable && animation_of(bytes@) is None,
        },
{
    let images = match open_frames(bytes) {
        Ok(images) => images,
        Err(_) => {
            return Err(ConversionError::Undecodable);
        },
    };
    let ghost contents = image_contents(images@);
    let mut frames: Vec<Frame> = Vec::new();
    let mut i: usize = 0;
    while i < images.len()
        invariant
            i <= images@.len(),
            contents == image_contents(images@),
            decoded_frames(bytes@) == Some(contents),
            forall|k: int| 0 <= k < images@.len() ==> !image_is_float(#[trigger] images@[k]),
            frames@.len() == i,
            forall|k: int|
                0 <= k < i ==> (#[trigger] frames@[k])@ == frame_of(contents[k]) && frames@[k]@.wf(),
        decreases images@.len() - i,
    {
        assert(!image_is_float(images@[i as int]));
        match frame_of_image(&images[i]) {
            Ok(f) => {
                frames.push(f);
            },
            Err(e) => {
                return Err(e);
            },
        }
        i = i + 1;
    }
    assert(frame_models(frames@) =~= Seq::new(contents.len(), |i: int| frame_of(contents[i])));
    Ok(frames)
}

/// Writes the texts as a JSON array of strings.
pub fn frames_to_json(texts: &Vec<String>) -> (s: String)
    ensures
        s@ == json_array(strings_view(texts@)),
{
    match encode_json(texts) {
        Ok(s) => s,
        Err(_) => String::new(),
    }
}

} // verus!
