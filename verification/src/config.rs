//! The plain facts about a hardware stream and about a take on disk.

use vstd::prelude::*;

verus! {

/// The shape of one hardware stream.
#[derive(Debug, Clone, Copy, PartialEq, Eq, Structural)]
pub struct StreamConfig {
    /// How many channels are interleaved in the stream's buffers.
    pub channels: u16,
    /// Frames per second.
    pub sample_rate: u32,
}

/// How the device represents one sample.
#[derive(Debug, Clone, Copy, PartialEq, Eq, Structural)]
pub enum SampleFormat {
    /// Signed 16-bit integer.
    I16,
    /// Unsigned 16-bit integer.
    U16,
    /// 32-bit floating point.
    F32,
}

impl SampleFormat {
    /// The size of one sample in bytes.
    pub open spec fn byte_size(self) -> nat {
        match self {
            SampleFormat::I16 => 2,
            SampleFormat::U16 => 2,
            SampleFormat::F32 => 4,
        }
    }

    /// The size of one sample in bytes.
    pub fn sample_size(&self) -> (size: usize)
        ensures
            size == self.byte_size(),
    {
        match self {
            SampleFormat::I16 => 2,
            SampleFormat::U16 => 2,
            SampleFormat::F32 => 4,
        }
    }
}

/// How a take on disk represents one sample.
#[derive(Debug, Clone, Copy, PartialEq, Eq, Structural)]
pub enum WavFormat {
    /// Floating point.
    Float,
    /// Integer.
    Int,
}

/// The header of a take on disk.
#[derive(Debug, Clone, Copy, PartialEq, Eq, Structural)]
pub struct WavSpec {
    /// How many channels each frame holds.
    pub channels: u16,
    /// Frames per second.
    pub sample_rate: u32,
    /// Bits in one sample.
    pub bits_per_sample: u16,
    /// Whether the samples are integers or floating point.
    pub sample_format: WavFormat,
}

} // verus!
