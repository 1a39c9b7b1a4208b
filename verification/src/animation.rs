//! The animation assembler: frames in order with one delay for all, and the
//! pacing of playback on a terminal.
//!
//! Frame rates are given in thousandths of a frame per second, so that 10
//! frames per second are `10_000`; times are in microseconds.

use vstd::prelude::*;
use crate::error::ConversionError;
use crate::frame::{Frame, FrameModel};

verus! {

/// Time from one frame to the next at the given rate: `1 / fps` seconds,
/// rounded down to whole microseconds.
pub open spec fn period_us(fps_millis: nat) -> nat {
    1_000_000_000nat / fps_millis
}

/// Computes the time from one frame to the next. Fails with
/// `InvalidConfiguration` for a rate of zero.
pub fn frame_period(fps_millis: u64) -> (r: Result<u64, ConversionError>)
    ensures
        r == if fps_millis == 0 {
            Err::<u64, ConversionError>(ConversionError::InvalidConfiguration)
        } else {
            Ok::<u64, ConversionError>(period_us(fps_millis as nat) as u64)
        },
        r matches Ok(p) ==> p == period_us(fps_millis as nat),
{
    if fps_millis == 0 {
        Err(ConversionError::InvalidConfiguration)
    } else {
        Ok(1_000_000_000 / fps_millis)
    }
}

/// The mathematical content of an animation.
pub struct AnimationModel {
    pub frames: Seq<FrameModel>,
    pub delay_us: nat,
}

/// The models of a sequence of frames.
pub open spec fn frame_models(frames: Seq<Frame>) -> Seq<FrameModel> {
    Seq::new(frames.len(), |i: int| frames[i]@)
}

/// Bitmaps in playing order, each shown for the same time.
#[derive(Debug, PartialEq, Eq)]
pub struct Animation {
    frames: Vec<Frame>,
    delay_us: u64,
}

impl View for Animation {
    type V = AnimationModel;

    closed spec fn view(&self) -> AnimationModel {
        AnimationModel { frames: frame_models(self.frames@), delay_us: self.delay_us as nat }
    }
}

impl Animation {
    /// Number of frames.
    pub fn frame_count(&self) -> (n: usize)
        ensures
            n == self@.frames.len(),
    {
        self.frames.len()
    }

    /// Time for which each frame is shown, in microseconds.
    pub fn delay_us(&self) -> (d: u64)
        ensures
            d == self@.delay_us,
    {
        self.delay_us
    }

    /// Time for which each frame is shown, in whole milliseconds.
    pub fn delay_ms(&self) -> (d: u64)
        ensures
            d == self@.delay_us / 1000,
    {
        self.delay_us / 1000
    }

    /// The frame at position `i` in playing order.
    pub fn frame(&self, i: usize) -> (f: &Frame)
        requires
            i < self@.frames.len(),
        ensures
            f@ == self@.frames[i as int],
    {
        &self.frames[i]
    }
}

/// Assembles bitmaps into an animation that plays them in the given order
/// at the given rate. Fails with `InvalidConfiguration` for a rate of zero.
pub fn assemble(frames: Vec<Frame>, fps_millis: u64) -> (r: Result<Animation, ConversionError>)
    ensures
        r is Ok <==> fps_millis > 0,
        r matches Ok(a) ==> a@ == (AnimationModel {
            frames: frame_models(frames@),
            delay_us: period_us(fps_millis as nat),
        }),
        r matches Err(e) ==> e == ConversionError::InvalidConfiguration,
{
    match frame_period(fps_millis) {
        Ok(delay_us) => Ok(Animation { frames, delay_us }),
        Err(e) => Err(e),
    }
}

/// How long playback waits after a frame that took `elapsed_us` to show, so
/// that frames follow each other at the period: the rest of the period, and
/// nothing where showing took longer. Lost time is not made up later.
pub open spec fn wait_us(period: nat, elapsed: nat) -> nat {
    if elapsed >= period {
        0
    } else {
        (period - elapsed) as nat
    }
}

/// Computes how long playback waits after a frame.
pub fn playback_delay(period_us: u64, elapsed_us: u64) -> (d: u64)
    ensures
        d == wait_us(period_us as nat, elapsed_us as nat),
{
    if elapsed_us >= period_us {
        0
    } else {
        period_us - elapsed_us
    }
}

/// The frame that playback shows after frame `current` of `count`: the next
/// one, and after the last the first again.
pub fn next_frame(current: usize, count: usize) -> (next: usize)
    requires
        current < count,
    ensures
        next == if current + 1 == count {
            0
        } else {
            current + 1
        },
        next < count,
{
    if current + 1 == count {
        0
    } else {
        current + 1
    }
}

} // verus!
