//! Library-provided nodes whose behaviour the engine itself can state
//! exactly: routing nodes that only move samples between channels.

use vstd::prelude::*;

use crate::node::{AudioNode, AudioNodeInfo, AudioNodeProcessor, ProcInfo};
use crate::SilenceMask;

verus! {

/// A node that duplicates its one input channel onto every output
/// channel.
#[derive(Debug, Clone, Copy, PartialEq, Eq, Structural)]
pub struct MonoToStereoNode;

/// The processor of [`MonoToStereoNode`].
#[derive(Debug, Clone, Copy, PartialEq, Eq, Structural)]
pub struct MonoToStereoProcessor;

/// Copy the first `frames` samples of the first input channel onto every
/// output channel.
fn copy_mono_to_all<S: Copy>(
    frames: usize,
    inputs: &Vec<Vec<S>>,
    outputs: &mut Vec<Vec<S>>,
    num_outputs: usize,
)
    requires
        1 <= inputs@.len(),
        frames <= inputs@[0]@.len(),
        num_outputs <= old(outputs)@.len(),
        forall|c: int| 0 <= c < old(outputs)@.len() ==> frames
            <= (#[trigger] old(outputs)@[c])@.len(),
    ensures
        final(outputs)@.len() == old(outputs)@.len(),
        forall|c: int| 0 <= c < old(outputs)@.len() ==>
            (#[trigger] final(outputs)@[c])@.len() == old(outputs)@[c]@.len(),
        forall|c: int, f: int|
            #![trigger final(outputs)@[c]@[f]]
            0 <= c < num_outputs && 0 <= f < frames ==> final(outputs)@[c]@[f] == inputs@[0]@[f],
        forall|c: int| num_outputs <= c < old(outputs)@.len() ==>
            (#[trigger] final(outputs)@[c]) == old(outputs)@[c],
{
    let mut c: usize = 0;
    while c < num_outputs
        invariant
            c <= num_outputs,
            1 <= inputs@.len(),
            frames <= inputs@[0]@.len(),
            num_outputs <= outputs@.len(),
            outputs@.len() == old(outputs)@.len(),
            forall|x: int| 0 <= x < outputs@.len() ==>
                (#[trigger] outputs@[x])@.len() == old(outputs)@[x]@.len(),
            forall|x: int| 0 <= x < outputs@.len() ==> frames <= (#[trigger] outputs@[x])@.len(),
            forall|x: int, f: int|
                #![trigger outputs@[x]@[f]]
                0 <= x < c && 0 <= f < frames ==> outputs@[x]@[f] == inputs@[0]@[f],
            forall|x: int| c <= x < outputs@.len() ==>
                (#[trigger] outputs@[x]) == old(outputs)@[x],
        decreases num_outputs - c,
    {
        let mut f: usize = 0;
        let ghost pre = outputs@;
        while f < frames
            invariant
                f <= frames,
                c < outputs@.len(),
                1 <= inputs@.len(),
                frames <= inputs@[0]@.len(),
                outputs@.len() == pre.len(),
                frames <= outputs@[c as int]@.len(),
                forall|x: int| 0 <= x < outputs@.len() && x != c ==>
                    (#[trigger] outputs@[x]) == pre[x],
                outputs@[c as int]@.len() == pre[c as int]@.len(),
                forall|y: int| 0 <= y < f ==>
                    (#[trigger] outputs@[c as int]@[y]) == inputs@[0]@[y],
            decreases frames - f,
        {
            let v = inputs[0][f];
            let row = &mut outputs[c];
            row[f] = v;
            f += 1;
        }
        c += 1;
    }
}

impl<S: Copy> AudioNodeProcessor<S> for MonoToStereoProcessor {
    fn process(
        &mut self,
        frames: usize,
        inputs: &Vec<Vec<S>>,
        num_inputs: usize,
        outputs: &mut Vec<Vec<S>>,
        num_outputs: usize,
        info: ProcInfo,
    ) -> (r: SilenceMask) {
        if num_inputs >= 1 {
            copy_mono_to_all(frames, inputs, outputs, num_outputs);
            if info.in_silence_mask.is_channel_silent(0) {
                return SilenceMask::new_all_silent(num_outputs);
            }
        }
        SilenceMask(0)
    }
}

impl AudioNode<MonoToStereoProcessor> for MonoToStereoNode {
    fn info(&self) -> AudioNodeInfo {
        AudioNodeInfo {
            num_min_supported_inputs: 1,
            num_max_supported_inputs: 1,
            num_min_supported_outputs: 2,
            num_max_supported_outputs: 2,
            updates: false,
        }
    }

    fn activate(
        &mut self,
        sample_rate: u32,
        max_block_frames: usize,
        num_inputs: usize,
        num_outputs: usize,
    ) -> Result<MonoToStereoProcessor, String> {
        Ok(MonoToStereoProcessor)
    }

    fn deactivate(&mut self, processor: Option<MonoToStereoProcessor>) {
    }
}

} // verus!
