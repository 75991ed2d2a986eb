//! A frame count bounded by the maximum block size.

use vstd::prelude::*;

verus! {

/// A number of frames guaranteed to be less than the maximum block size
/// it was constructed with.
#[derive(Debug, Clone, Copy, PartialEq, Eq, Structural)]
pub struct BlockFrames {
    pub frames: usize,
    pub max_block_frames: usize,
}

impl BlockFrames {
    /// The bound holds.
    pub open spec fn wf(&self) -> bool {
        self.frames < self.max_block_frames
    }

    /// Clamp a frame count below the maximum block size.
    pub fn new(frames: usize, max_block_frames: usize) -> (r: Self)
        requires
            max_block_frames >= 1,
        ensures
            r.wf(),
            r.max_block_frames == max_block_frames,
            r.frames == if frames < max_block_frames {
                frames as int
            } else {
                max_block_frames - 1
            },
    {
        if frames < max_block_frames {
            BlockFrames { frames, max_block_frames }
        } else {
            BlockFrames { frames: max_block_frames - 1, max_block_frames }
        }
    }

    /// The frame count; always less than the maximum block size.
    pub fn get(&self) -> (r: usize)
        requires
            self.wf(),
        ensures
            r == self.frames && r < self.max_block_frames,
    {
        self.frames
    }
}

} // verus!
