//! The two halves of an audio node: the control-side descriptor
//! ([`AudioNode`]) that creates and finalises processors, and the
//! realtime-side processor ([`AudioNodeProcessor`]) that fills audio
//! buffers block by block.

use vstd::prelude::*;

use crate::SilenceMask;

verus! {

/// A sample value. The engine is generic over the sample type; it only
/// needs to ask whether a sample is zero when it computes silence hints,
/// and the hints are never load-bearing for correctness.
pub trait Sample: Copy {
    /// Whether this sample is a zero (silent) sample.
    fn is_zero(&self) -> bool;
}

impl Sample for i64 {
    fn is_zero(&self) -> bool {
        *self == 0i64
    }
}

/// Flags describing the state of the audio stream for the current block.
#[derive(Debug, Clone, Copy, PartialEq, Eq, Structural)]
pub struct StreamStatus(pub u32);

impl StreamStatus {
    /// No condition flagged.
    pub fn empty() -> (r: Self)
        ensures
            r.0 == 0u32,
    {
        StreamStatus(0)
    }

    /// Input data was discarded because of an overflow at the driver.
    pub fn input_overflow() -> (r: Self)
        ensures
            r.0 == 1u32,
    {
        StreamStatus(1)
    }

    /// The output buffer ran low, likely causing a glitch.
    pub fn output_underflow() -> (r: Self)
        ensures
            r.0 == 2u32,
    {
        StreamStatus(2)
    }
}

/// Static information a node reports about itself.
#[derive(Debug, Clone, Copy, PartialEq, Eq, Structural)]
pub struct AudioNodeInfo {
    pub num_min_supported_inputs: u32,
    pub num_max_supported_inputs: u32,
    pub num_min_supported_outputs: u32,
    pub num_max_supported_outputs: u32,
    pub updates: bool,
}

/// Per-block information handed to a processor.
#[derive(Debug, Clone, Copy, PartialEq, Eq, Structural)]
pub struct ProcInfo {
    /// A hint naming input channels that hold only zeros this block.
    pub in_silence_mask: SilenceMask,
    /// Stream time at the first frame of this block, in nanoseconds.
    pub stream_time_nanos: u64,
    /// The state of the audio stream.
    pub stream_status: StreamStatus,
}

/// The realtime half of a node: fills its output channels for each block.
/// Implementations must fill every output channel up to `frames` and
/// return a mask of output channels they know to be silent.
pub trait AudioNodeProcessor<S>: Sized {
    fn process(
        &mut self,
        frames: usize,
        inputs: &Vec<Vec<S>>,
        num_inputs: usize,
        outputs: &mut Vec<Vec<S>>,
        num_outputs: usize,
        info: ProcInfo,
    ) -> (r: SilenceMask)
        requires
            num_inputs <= inputs@.len(),
            num_outputs <= old(outputs)@.len(),
            forall|c: int| 0 <= c < inputs@.len() ==> frames
                <= (#[trigger] inputs@[c])@.len(),
            forall|c: int| 0 <= c < old(outputs)@.len() ==> frames
                <= (#[trigger] old(outputs)@[c])@.len(),
        ensures
            final(outputs)@.len() == old(outputs)@.len(),
            forall|c: int| 0 <= c < old(outputs)@.len() ==>
                (#[trigger] final(outputs)@[c])@.len() == old(outputs)@[c]@.len(),
    ;
}

/// The control half of a node: reports its port support, creates its
/// realtime processor on activation and finalises it on deactivation.
pub trait AudioNode<P>: Sized {
    fn info(&self) -> AudioNodeInfo;

    fn activate(
        &mut self,
        sample_rate: u32,
        max_block_frames: usize,
        num_inputs: usize,
        num_outputs: usize,
    ) -> Result<P, String>;

    fn deactivate(&mut self, processor: Option<P>);
}

/// A node with no behaviour: it supports any port counts and its
/// processor leaves every buffer untouched.
#[derive(Debug, Clone, Copy, PartialEq, Eq, Structural)]
pub struct DummyAudioNode;

/// The processor of [`DummyAudioNode`]: does nothing.
#[derive(Debug, Clone, Copy, PartialEq, Eq, Structural)]
pub struct DummyAudioNodeProcessor;

impl<S> AudioNodeProcessor<S> for DummyAudioNodeProcessor {
    fn process(
        &mut self,
        frames: usize,
        inputs: &Vec<Vec<S>>,
        num_inputs: usize,
        outputs: &mut Vec<Vec<S>>,
        num_outputs: usize,
        info: ProcInfo,
    ) -> (r: SilenceMask) {
        SilenceMask(0)
    }
}

impl AudioNode<DummyAudioNodeProcessor> for DummyAudioNode {
    fn info(&self) -> AudioNodeInfo {
        AudioNodeInfo {
            num_min_supported_inputs: 0,
            num_max_supported_inputs: 64,
            num_min_supported_outputs: 0,
            num_max_supported_outputs: 64,
            updates: false,
        }
    }

    fn activate(
        &mut self,
        sample_rate: u32,
        max_block_frames: usize,
        num_inputs: usize,
        num_outputs: usize,
    ) -> Result<DummyAudioNodeProcessor, String> {
        Ok(DummyAudioNodeProcessor)
    }

    fn deactivate(&mut self, processor: Option<DummyAudioNodeProcessor>) {
    }
}

} // verus!
