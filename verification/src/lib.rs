//! An audio-graph engine: a directed acyclic multigraph of audio nodes,
//! a compiler that turns the graph into an executable schedule with a
//! minimal pool of audio buffers, and a realtime executor that runs the
//! schedule from an audio callback.

mod arena;
mod backend;
mod basic_nodes;
mod block_frames;
mod compiler;
mod context;
mod graph;
mod laws;
mod node;
mod param;
mod processor;
mod sample_resource;
mod schedule;

pub use arena::{Arena, ArenaIndex, ArenaSlot, Slab};
pub use backend::{DeviceInfo, PollStatus, StartStreamResult};
pub use basic_nodes::{MonoToStereoNode, MonoToStereoProcessor};
pub use block_frames::BlockFrames;
pub use compiler::{BufferAllocator, BufferRef, InBufferAssignment, OutBufferAssignment, ScheduledNode};
pub use context::{ActiveState, Config, FirewheelGraphCtx, UpdateStatus};
pub use node::{AudioNode, AudioNodeInfo, AudioNodeProcessor, DummyAudioNode, DummyAudioNodeProcessor, ProcInfo, Sample, StreamStatus};
pub use param::SmootherStatus;
pub use processor::{ContextToProcessorMsg, FirewheelProcessor, FirewheelProcessorStatus, ProcessStatus, ProcessorToContextMsg};
pub use schedule::ScheduleHeapData;
pub use sample_resource::{InterleavedResourceI16, InterleavedResourceU16};
pub use schedule::{CompileGraphError, CompiledSchedule};
pub use laws::{lemma_add_remove_node_round_trip, lemma_connect_disconnect_round_trip, lemma_sibling_inputs_distinct};
pub use graph::{AddEdgeError, AudioGraph, AudioGraphConfig, Edge, EdgeID, InPortIdx, NodeEntry, NodeID, NodeWeight, OutPortIdx};

use vstd::prelude::*;

verus! {

/// A mask with one bit per audio channel; a set bit marks the channel as
/// known to be silent (all zeros) for the current block.
#[derive(Debug, Clone, Copy, PartialEq, Eq, Structural)]
pub struct SilenceMask(pub u64);

impl SilenceMask {
    /// Whether channel `i` is marked silent in mask `m`.
    pub open spec fn spec_is_silent(m: u64, i: int) -> bool {
        (m >> i) & 1u64 == 1u64
    }

    /// A mask with no channels marked as silent.
    pub fn none_silent() -> (r: Self)
        ensures
            r.0 == 0u64,
            forall|i: int| 0 <= i < 64 ==> !Self::spec_is_silent(r.0, i),
    {
        proof {
            assert forall|i: int| 0 <= i < 64 implies !Self::spec_is_silent(0u64, i) by {
                let j = i as u64;
                assert((0u64 >> j) & 1u64 == 0u64) by (bit_vector);
            }
        }
        SilenceMask(0)
    }

    /// Construct a mask with the first `num_channels` channels marked silent.
    pub fn new_all_silent(num_channels: usize) -> (r: Self)
        ensures
            forall|i: int| 0 <= i < 64 ==> (Self::spec_is_silent(r.0, i) <==> i < num_channels),
    {
        if num_channels >= 64 {
            proof {
                assert forall|i: int| 0 <= i < 64 implies Self::spec_is_silent(u64::MAX, i) by {
                    let j = i as u64;
                    assert(j < 64 ==> (0xffff_ffff_ffff_ffffu64 >> j) & 1u64 == 1u64) by (bit_vector);
                }
            }
            SilenceMask(u64::MAX)
        } else {
            let n = num_channels as u64;
            proof {
                assert(n < 64 ==> 1u64 << n >= 1) by (bit_vector);
            }
            let m = (1u64 << n) - 1;
            proof {
                assert forall|i: int| 0 <= i < 64 implies
                    (#[trigger] Self::spec_is_silent(((1u64 << n) - 1) as u64, i) <==> i < n) by {
                    let j = i as u64;
                    assert(n < 64 && j < 64 ==>
                        ((((1u64 << n) - 1) as u64 >> j) & 1u64 == 1u64 <==> j < n)) by (bit_vector);
                }
            }
            SilenceMask(m)
        }
    }

    /// Whether channel `i` is marked as silent.
    pub fn is_channel_silent(&self, i: usize) -> (r: bool)
        requires
            i < 64,
        ensures
            r == Self::spec_is_silent(self.0, i as int),
    {
        let m = self.0;
        let j = i as u64;
        let r = m & (1u64 << j) != 0;
        proof {
            assert(j < 64 ==> ((m & (1u64 << j) != 0) <==> (m >> j) & 1u64 == 1u64)) by (bit_vector);
        }
        r
    }

    /// Whether any of the first `num_channels` channels is marked silent.
    pub fn any_channel_silent(&self, num_channels: usize) -> (r: bool)
        ensures
            r <==> exists|i: int| 0 <= i < 64 && i < num_channels && Self::spec_is_silent(self.0, i),
    {
        let n = if num_channels >= 64 { 64 } else { num_channels };
        let mut i: usize = 0;
        while i < n
            invariant
                i <= n <= 64,
                n <= num_channels,
                num_channels >= 64 ==> n == 64,
                forall|k: int| 0 <= k < i ==> !Self::spec_is_silent(self.0, k),
            decreases n - i,
        {
            if self.is_channel_silent(i) {
                return true;
            }
            i += 1;
        }
        false
    }

    /// Whether all of the first `num_channels` channels are marked silent.
    pub fn all_channels_silent(&self, num_channels: usize) -> (r: bool)
        ensures
            r <==> forall|i: int| 0 <= i < 64 && i < num_channels ==> Self::spec_is_silent(self.0, i),
    {
        let n = if num_channels >= 64 { 64 } else { num_channels };
        let mut i: usize = 0;
        while i < n
            invariant
                i <= n <= 64,
                n <= num_channels,
                num_channels >= 64 ==> n == 64,
                forall|k: int| 0 <= k < i ==> Self::spec_is_silent(self.0, k),
            decreases n - i,
        {
            if !self.is_channel_silent(i) {
                return false;
            }
            i += 1;
        }
        true
    }

    /// Mark or un-mark channel `i` as silent.
    pub fn set_channel(&mut self, i: usize, silent: bool)
        requires
            i < 64,
        ensures
            Self::spec_is_silent(final(self).0, i as int) == silent,
            forall|k: int| 0 <= k < 64 && k != i ==>
                Self::spec_is_silent(final(self).0, k) == Self::spec_is_silent(old(self).0, k),
    {
        let m = self.0;
        let j = i as u64;
        if silent {
            self.0 = m | (1u64 << j);
            proof {
                assert(j < 64 ==> ((m | (1u64 << j)) >> j) & 1u64 == 1u64) by (bit_vector);
                assert forall|k: int| 0 <= k < 64 && k != i implies
                    Self::spec_is_silent((m | (1u64 << j)) as u64, k) ==
                        Self::spec_is_silent(m, k) by {
                    let kk = k as u64;
                    assert(j < 64 && kk < 64 && kk != j ==>
                        ((m | (1u64 << j)) >> kk) & 1u64 == (m >> kk) & 1u64) by (bit_vector);
                }
            }
        } else {
            self.0 = m & !(1u64 << j);
            proof {
                assert(j < 64 ==> ((m & !(1u64 << j)) >> j) & 1u64 == 0u64) by (bit_vector);
                assert forall|k: int| 0 <= k < 64 && k != i implies
                    Self::spec_is_silent((m & !(1u64 << j)) as u64, k) ==
                        Self::spec_is_silent(m, k) by {
                    let kk = k as u64;
                    assert(j < 64 && kk < 64 && kk != j ==>
                        ((m & !(1u64 << j)) >> kk) & 1u64 == (m >> kk) & 1u64) by (bit_vector);
                }
            }
        }
    }
}

} // verus!
