//! Interleaved sample storage handed to sampler nodes. Decoding to the
//! engine's sample type is the caller's concern; the engine only needs
//! the frame arithmetic.

use vstd::prelude::*;

verus! {

/// An interleaved signed 16-bit sample resource.
pub struct InterleavedResourceI16 {
    pub data: Vec<i16>,
    pub channels: usize,
}

impl InterleavedResourceI16 {
    /// The number of frames: samples per channel.
    pub fn len_frames_inner(&self) -> (r: u64)
        requires
            self.channels >= 1,
        ensures
            r == self.data@.len() as u64 / self.channels as u64,
    {
        (self.data.len() / self.channels) as u64
    }
}

/// An interleaved unsigned 16-bit sample resource.
pub struct InterleavedResourceU16 {
    pub data: Vec<u16>,
    pub channels: usize,
}

impl InterleavedResourceU16 {
    /// The number of frames: samples per channel.
    pub fn len_frames_inner(&self) -> (r: u64)
        requires
            self.channels >= 1,
        ensures
            r == self.data@.len() as u64 / self.channels as u64,
    {
        (self.data.len() / self.channels) as u64
    }
}

} // verus!
