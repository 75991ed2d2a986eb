//! The compiled schedule: the ordered list of scheduled nodes plus the
//! pool of audio buffers they share, and the compile step that builds it
//! from the graph and activates newly added nodes.

use vstd::prelude::*;

use crate::arena::Slab;
use crate::compiler::ScheduledNode;
use crate::graph::{AudioGraph, InPortIdx, NodeID};
use crate::node::{AudioNode, AudioNodeProcessor, ProcInfo, Sample};
use crate::SilenceMask;

verus! {

/// Why a compile failed.
#[derive(Debug)]
pub enum CompileGraphError {
    /// The graph has no topological order.
    CycleDetected,
    /// An input port with more than one incoming edge was found. The
    /// graph invariants rule this out; the variant is kept for callers
    /// that match on the full error surface.
    ManyToOneError(NodeID, InPortIdx),
    /// A node's control half refused to activate.
    NodeActivationFailed(NodeID, String),
    /// The message channel to the executor is full.
    MessageChannelFull,
}

/// The number of samples in every pool buffer is the compile-time block
/// size; the pool size is the compiler's buffer count.
pub struct CompiledSchedule<S> {
    pub schedule: Vec<ScheduledNode>,
    pub graph_in_idx: usize,
    pub graph_out_idx: usize,
    pub buffers: Vec<Vec<S>>,
    pub buffer_silence_flags: Vec<bool>,
    pub zero: S,
    pub max_block_frames: usize,
    pub scratch_in: Vec<Vec<S>>,
    pub scratch_out: Vec<Vec<S>>,
}

impl<S: Sample> CompiledSchedule<S> {
    /// Structural well-formedness of the schedule and its pool.
    pub open spec fn wf(&self) -> bool {
        &&& self.max_block_frames >= 1
        &&& self.buffers@.len() == self.buffer_silence_flags@.len()
        &&& forall|b: int| 0 <= b < self.buffers@.len() ==>
            (#[trigger] self.buffers@[b])@.len() == self.max_block_frames
        &&& self.scratch_in@.len() == 64 && self.scratch_out@.len() == 64
        &&& forall|c: int| 0 <= c < 64 ==>
            (#[trigger] self.scratch_in@[c])@.len() == self.max_block_frames
        &&& forall|c: int| 0 <= c < 64 ==>
            (#[trigger] self.scratch_out@[c])@.len() == self.max_block_frames
        &&& self.schedule@.len() >= 1
        &&& self.graph_in_idx < self.schedule@.len()
        &&& self.graph_out_idx < self.schedule@.len()
        &&& forall|j: int, p: int|
            #![trigger self.schedule@[j].input_buffers@[p]]
            0 <= j < self.schedule@.len() && 0 <= p < self.schedule@[j].input_buffers@.len() ==>
                self.schedule@[j].input_buffers@[p].buffer_index < self.buffers@.len()
        &&& forall|j: int, p: int|
            #![trigger self.schedule@[j].output_buffers@[p]]
            0 <= j < self.schedule@.len() && 0 <= p < self.schedule@[j].output_buffers@.len() ==>
                self.schedule@[j].output_buffers@[p].buffer_index < self.buffers@.len()
        &&& forall|j: int| 0 <= j < self.schedule@.len() ==>
            (#[trigger] self.schedule@[j]).input_buffers@.len() <= 64
        &&& forall|j: int| 0 <= j < self.schedule@.len() ==>
            (#[trigger] self.schedule@[j]).output_buffers@.len() <= 64
        &&& forall|j: int, p1: int, p2: int|
            #![trigger self.schedule@[j].output_buffers@[p1], self.schedule@[j].output_buffers@[p2]]
            0 <= j < self.schedule@.len() && 0 <= p1 < p2 < self.schedule@[j].output_buffers@.len()
                ==> self.schedule@[j].output_buffers@[p1].buffer_index
                    != self.schedule@[j].output_buffers@[p2].buffer_index
    }

    /// Build a schedule: `num_buffers` zeroed buffers of `max_block_frames`
    /// samples each, all flagged silent, plus preallocated scratch space so
    /// processing never allocates.
    pub fn new(
        schedule: Vec<ScheduledNode>,
        graph_in_idx: usize,
        graph_out_idx: usize,
        num_buffers: usize,
        max_block_frames: usize,
        zero: S,
    ) -> (r: Self)
        requires
            max_block_frames >= 1,
            schedule@.len() >= 1,
            graph_in_idx < schedule@.len(),
            graph_out_idx < schedule@.len(),
            forall|j: int, p: int|
                #![trigger schedule@[j].input_buffers@[p]]
                0 <= j < schedule@.len() && 0 <= p < schedule@[j].input_buffers@.len() ==>
                    schedule@[j].input_buffers@[p].buffer_index < num_buffers,
            forall|j: int, p: int|
                #![trigger schedule@[j].output_buffers@[p]]
                0 <= j < schedule@.len() && 0 <= p < schedule@[j].output_buffers@.len() ==>
                    schedule@[j].output_buffers@[p].buffer_index < num_buffers,
            forall|j: int| 0 <= j < schedule@.len() ==>
                (#[trigger] schedule@[j]).input_buffers@.len() <= 64,
            forall|j: int| 0 <= j < schedule@.len() ==>
                (#[trigger] schedule@[j]).output_buffers@.len() <= 64,
            forall|j: int, p1: int, p2: int|
                #![trigger schedule@[j].output_buffers@[p1], schedule@[j].output_buffers@[p2]]
                0 <= j < schedule@.len() && 0 <= p1 < p2 < schedule@[j].output_buffers@.len() ==>
                    schedule@[j].output_buffers@[p1].buffer_index
                        != schedule@[j].output_buffers@[p2].buffer_index,
        ensures
            r.wf(),
            r.schedule == schedule,
            r.graph_in_idx == graph_in_idx,
            r.graph_out_idx == graph_out_idx,
            r.buffers@.len() == num_buffers,
            r.max_block_frames == max_block_frames,
            r.zero == zero,
    {
        let buffers = Self::filled_pool(num_buffers, max_block_frames, zero);
        let mut buffer_silence_flags: Vec<bool> = Vec::new();
        while buffer_silence_flags.len() < num_buffers
            invariant
                buffer_silence_flags@.len() <= num_buffers,
            decreases num_buffers - buffer_silence_flags@.len(),
        {
            buffer_silence_flags.push(true);
        }
        let scratch_in = Self::filled_pool(64, max_block_frames, zero);
        let scratch_out = Self::filled_pool(64, max_block_frames, zero);
        CompiledSchedule {
            schedule,
            graph_in_idx,
            graph_out_idx,
            buffers,
            buffer_silence_flags,
            zero,
            max_block_frames,
            scratch_in,
            scratch_out,
        }
    }

    /// A pool of `n` buffers, each holding `len` copies of `zero`.
    fn filled_pool(n: usize, len: usize, zero: S) -> (r: Vec<Vec<S>>)
        ensures
            r@.len() == n,
            forall|b: int| 0 <= b < n ==> (#[trigger] r@[b])@.len() == len,
            forall|b: int, f: int| 0 <= b < n && 0 <= f < len ==> (#[trigger] r@[b]@[f]) == zero,
    {
        let mut pool: Vec<Vec<S>> = Vec::new();
        while pool.len() < n
            invariant
                pool@.len() <= n,
                forall|b: int| 0 <= b < pool@.len() ==> (#[trigger] pool@[b])@.len() == len,
                forall|b: int, f: int| 0 <= b < pool@.len() && 0 <= f < len ==>
                    (#[trigger] pool@[b]@[f]) == zero,
            decreases n - pool@.len(),
        {
            let mut buf: Vec<S> = Vec::new();
            while buf.len() < len
                invariant
                    buf@.len() <= len,
                    forall|f: int| 0 <= f < buf@.len() ==> (#[trigger] buf@[f]) == zero,
                decreases len - buf@.len(),
            {
                buf.push(zero);
            }
            pool.push(buf);
        }
        pool
    }

    /// The number of buffers in the pool.
    pub fn num_buffers(&self) -> (r: usize)
        ensures
            r == self.buffers@.len(),
    {
        self.buffers.len()
    }

    /// Zero the first `frames` samples of buffer `b` and flag it silent.
    fn clear_buffer(&mut self, b: usize, frames: usize)
        requires
            old(self).wf(),
            b < old(self).buffers@.len(),
            frames <= old(self).max_block_frames,
        ensures
            final(self).wf(),
            final(self).schedule == old(self).schedule,
            final(self).graph_in_idx == old(self).graph_in_idx,
            final(self).graph_out_idx == old(self).graph_out_idx,
            final(self).zero == old(self).zero,
            final(self).max_block_frames == old(self).max_block_frames,
            final(self).buffers@.len() == old(self).buffers@.len(),
            forall|x: int| 0 <= x < old(self).buffers@.len() && x != b ==>
                (#[trigger] final(self).buffers@[x]) == old(self).buffers@[x],
            forall|f: int| 0 <= f < frames ==>
                (#[trigger] final(self).buffers@[b as int]@[f]) == old(self).zero,
            forall|f: int| frames <= f < old(self).max_block_frames ==>
                (#[trigger] final(self).buffers@[b as int]@[f]) == old(self).buffers@[b as int]@[f],
            final(self).buffer_silence_flags@ == old(self).buffer_silence_flags@.update(
                b as int,
                true,
            ),
    {
        let zero = self.zero;
        let buf = &mut self.buffers[b];
        let mut f: usize = 0;
        while f < frames
            invariant
                f <= frames,
                frames <= buf@.len(),
                buf@.len() == old(self).max_block_frames,
                forall|x: int| 0 <= x < f ==> (#[trigger] buf@[x]) == zero,
                forall|x: int| f <= x < buf@.len() ==>
                    (#[trigger] buf@[x]) == old(self).buffers@[b as int]@[x],
                zero == old(self).zero,
            decreases frames - f,
        {
            buf[f] = zero;
            f += 1;
        }
        self.buffer_silence_flags[b] = true;
    }

    /// Deinterleave the stream input into the graph input node's output
    /// buffers and compute their silence flags. Channels beyond the
    /// stream's channel count are zeroed and flagged silent.
    pub fn prepare_graph_inputs(
        &mut self,
        frames: usize,
        num_stream_inputs: usize,
        input: &Vec<S>,
        base: usize,
    )
        requires
            old(self).wf(),
            frames <= old(self).max_block_frames,
            base + frames * num_stream_inputs <= input@.len(),
        ensures
            final(self).wf(),
            final(self).schedule == old(self).schedule,
            final(self).graph_in_idx == old(self).graph_in_idx,
            final(self).graph_out_idx == old(self).graph_out_idx,
            final(self).zero == old(self).zero,
            final(self).max_block_frames == old(self).max_block_frames,
            final(self).buffers@.len() == old(self).buffers@.len(),
            ({
                let outs = old(self).schedule@[old(self).graph_in_idx as int].output_buffers@;
                forall|ch: int, f: int|
                    #![trigger outs[ch].buffer_index, final(self).buffers@[outs[ch].buffer_index as int]@[f]]
                    0 <= ch < outs.len() && ch < num_stream_inputs && 0 <= f < frames ==>
                        final(self).buffers@[outs[ch].buffer_index as int]@[f] == input@[base + f
                            * num_stream_inputs + ch]
            }),
            ({
                let outs = old(self).schedule@[old(self).graph_in_idx as int].output_buffers@;
                forall|ch: int, f: int|
                    #![trigger outs[ch].buffer_index, final(self).buffers@[outs[ch].buffer_index as int]@[f]]
                    0 <= ch < outs.len() && ch >= num_stream_inputs && 0 <= f < frames ==>
                        final(self).buffers@[outs[ch].buffer_index as int]@[f] == old(self).zero
            }),
            // a zero-filled channel is flagged silent
            ({
                let outs = old(self).schedule@[old(self).graph_in_idx as int].output_buffers@;
                forall|ch: int|
                    #![trigger outs[ch]]
                    0 <= ch < outs.len() && ch >= num_stream_inputs ==>
                        final(self).buffer_silence_flags@[outs[ch].buffer_index as int]
            }),
    {
        let ghost outs = self.schedule@[self.graph_in_idx as int].output_buffers@;
        let num_outs = self.schedule[self.graph_in_idx].output_buffers.len();
        let mut ch: usize = 0;
        while ch < num_outs
            invariant
                self.wf(),
                ch <= num_outs,
                frames <= self.max_block_frames,
                base + frames * num_stream_inputs <= input@.len(),
                num_outs == outs.len(),
                outs == self.schedule@[self.graph_in_idx as int].output_buffers@,
                self.schedule == old(self).schedule,
                self.graph_in_idx == old(self).graph_in_idx,
                self.graph_out_idx == old(self).graph_out_idx,
                self.zero == old(self).zero,
                self.max_block_frames == old(self).max_block_frames,
                self.buffers@.len() == old(self).buffers@.len(),
                forall|c: int, f: int|
                    #![trigger outs[c].buffer_index, self.buffers@[outs[c].buffer_index as int]@[f]]
                    0 <= c < ch && c < num_stream_inputs && 0 <= f < frames ==>
                        self.buffers@[outs[c].buffer_index as int]@[f] == input@[base + f
                            * num_stream_inputs + c],
                forall|c: int, f: int|
                    #![trigger outs[c].buffer_index, self.buffers@[outs[c].buffer_index as int]@[f]]
                    0 <= c < ch && c >= num_stream_inputs && 0 <= f < frames ==>
                        self.buffers@[outs[c].buffer_index as int]@[f] == old(self).zero,
                forall|c: int|
                    #![trigger outs[c]]
                    0 <= c < ch && c >= num_stream_inputs ==>
                        self.buffer_silence_flags@[outs[c].buffer_index as int],
            decreases num_outs - ch,
        {
            let b = self.schedule[self.graph_in_idx].output_buffers[ch].buffer_index;
            proof {
                assert(outs[ch as int].buffer_index == b);
                assert(b < self.buffers@.len());
                assert forall|p1: int, p2: int| 0 <= p1 < p2 < outs.len() implies
                    outs[p1].buffer_index != outs[p2].buffer_index by {}
            }
            if ch < num_stream_inputs {
                let zero = self.zero;
                let ghost pre_buffers = self.buffers@;
                let buf = &mut self.buffers[b];
                let mut all_zero = true;
                let mut f: usize = 0;
                while f < frames
                    invariant
                        f <= frames,
                        frames <= buf@.len(),
                        ch < num_stream_inputs,
                        base + frames * num_stream_inputs <= input@.len(),
                        buf@.len() == old(self).max_block_frames,
                        forall|x: int| 0 <= x < f ==>
                            (#[trigger] buf@[x]) == input@[base + x * num_stream_inputs + ch],
                    decreases frames - f,
                {
                    proof {
                        vstd::std_specs::vec::axiom_spec_len(input);
                        assert(f * num_stream_inputs + ch < frames * num_stream_inputs) by (nonlinear_arith)
                            requires
                                0 <= f < frames,
                                0 <= ch < num_stream_inputs,
                        ;
                        assert(f * num_stream_inputs >= 0) by (nonlinear_arith)
                            requires
                                f >= 0,
                                num_stream_inputs >= 0,
                        ;
                    }
                    let sample = input[base + f * num_stream_inputs + ch];
                    buf[f] = sample;
                    if !sample.is_zero() {
                        all_zero = false;
                    }
                    f += 1;
                }
                if ch < 64 {
                    self.buffer_silence_flags[b] = all_zero;
                } else {
                    self.buffer_silence_flags[b] = false;
                }
                proof {
                    assert forall|c: int, f2: int|
                        #![trigger outs[c].buffer_index, self.buffers@[outs[c].buffer_index as int]@[f2]]
                        0 <= c < ch && 0 <= f2 < frames implies
                        self.buffers@[outs[c].buffer_index as int]@[f2]
                            == pre_buffers[outs[c].buffer_index as int]@[f2] by {
                        assert(outs[c].buffer_index != outs[ch as int].buffer_index);
                    }
                    assert forall|c: int|
                        #![trigger outs[c]]
                        0 <= c < ch && c >= num_stream_inputs implies
                        self.buffer_silence_flags@[outs[c].buffer_index as int] by {
                        assert(outs[c].buffer_index != outs[ch as int].buffer_index);
                    }
                }
            } else {
                let ghost pre_buffers = self.buffers@;
                let ghost pre_flags = self.buffer_silence_flags@;
                self.clear_buffer(b, frames);
                proof {
                    assert forall|c: int, f2: int|
                        #![trigger outs[c].buffer_index, self.buffers@[outs[c].buffer_index as int]@[f2]]
                        0 <= c < ch && 0 <= f2 < frames implies
                        self.buffers@[outs[c].buffer_index as int]@[f2]
                            == pre_buffers[outs[c].buffer_index as int]@[f2] by {
                        assert(outs[c].buffer_index != outs[ch as int].buffer_index);
                    }
                    assert(self.buffer_silence_flags@[outs[ch as int].buffer_index as int]);
                    assert forall|c: int|
                        #![trigger outs[c]]
                        0 <= c < ch && c >= num_stream_inputs implies
                        self.buffer_silence_flags@[outs[c].buffer_index as int] by {
                        assert(outs[c].buffer_index != outs[ch as int].buffer_index);
                        assert(self.buffer_silence_flags@[outs[c].buffer_index as int]
                            == pre_flags[outs[c].buffer_index as int]);
                    }
                }
            }
            ch += 1;
        }
    }

    /// Interleave the graph output node's input buffers into the stream
    /// output. A buffer flagged silent is written as zeros, as are stream
    /// channels beyond the graph's output count.
    pub fn read_graph_outputs(
        &self,
        frames: usize,
        num_stream_outputs: usize,
        output: &mut Vec<S>,
        base: usize,
    )
        requires
            self.wf(),
            frames <= self.max_block_frames,
            base + frames * num_stream_outputs <= old(output)@.len(),
        ensures
            final(output)@.len() == old(output)@.len(),
            forall|i: int| 0 <= i < old(output)@.len() && !(base <= i < base + frames
                * num_stream_outputs) ==> (#[trigger] final(output)@[i]) == old(output)@[i],
            ({
                let ins = self.schedule@[self.graph_out_idx as int].input_buffers@;
                forall|f: int, ch: int|
                    #![trigger final(output)@[base + f * num_stream_outputs + ch]]
                    0 <= f < frames && 0 <= ch < num_stream_outputs ==>
                        final(output)@[base + f * num_stream_outputs + ch] == (if ch < ins.len() {
                            if self.buffer_silence_flags@[ins[ch].buffer_index as int] {
                                self.zero
                            } else {
                                self.buffers@[ins[ch].buffer_index as int]@[f]
                            }
                        } else {
                            self.zero
                        })
            }),
    {
        let ghost ins = self.schedule@[self.graph_out_idx as int].input_buffers@;
        let num_ins = self.schedule[self.graph_out_idx].input_buffers.len();
        let mut f: usize = 0;
        while f < frames
            invariant
                self.wf(),
                f <= frames,
                frames <= self.max_block_frames,
                base + frames * num_stream_outputs <= output@.len(),
                output@.len() == old(output)@.len(),
                num_ins == ins.len(),
                ins == self.schedule@[self.graph_out_idx as int].input_buffers@,
                forall|i: int| 0 <= i < old(output)@.len() && !(base <= i < base + frames
                    * num_stream_outputs) ==> (#[trigger] output@[i]) == old(output)@[i],
                forall|f2: int, ch: int|
                    #![trigger output@[base + f2 * num_stream_outputs + ch]]
                    0 <= f2 < f && 0 <= ch < num_stream_outputs ==>
                        output@[base + f2 * num_stream_outputs + ch] == (if ch < ins.len() {
                            if self.buffer_silence_flags@[ins[ch].buffer_index as int] {
                                self.zero
                            } else {
                                self.buffers@[ins[ch].buffer_index as int]@[f2]
                            }
                        } else {
                            self.zero
                        }),
            decreases frames - f,
        {
            let mut ch: usize = 0;
            while ch < num_stream_outputs
                invariant
                    self.wf(),
                    f < frames,
                    ch <= num_stream_outputs,
                    frames <= self.max_block_frames,
                    base + frames * num_stream_outputs <= output@.len(),
                    output@.len() == old(output)@.len(),
                    num_ins == ins.len(),
                    ins == self.schedule@[self.graph_out_idx as int].input_buffers@,
                    forall|i: int| 0 <= i < old(output)@.len() && !(base <= i < base + frames
                        * num_stream_outputs) ==> (#[trigger] output@[i]) == old(output)@[i],
                    forall|f2: int, c: int|
                        #![trigger output@[base + f2 * num_stream_outputs + c]]
                        0 <= f2 < f && 0 <= c < num_stream_outputs ==>
                            output@[base + f2 * num_stream_outputs + c] == (if c < ins.len() {
                                if self.buffer_silence_flags@[ins[c].buffer_index as int] {
                                    self.zero
                                } else {
                                    self.buffers@[ins[c].buffer_index as int]@[f2]
                                }
                            } else {
                                self.zero
                            }),
                    forall|c: int|
                        #![trigger output@[base + f * num_stream_outputs + c]]
                        0 <= c < ch ==>
                            output@[base + f * num_stream_outputs + c] == (if c < ins.len() {
                                if self.buffer_silence_flags@[ins[c].buffer_index as int] {
                                    self.zero
                                } else {
                                    self.buffers@[ins[c].buffer_index as int]@[f as int]
                                }
                            } else {
                                self.zero
                            }),
                decreases num_stream_outputs - ch,
            {
                proof {
                    vstd::std_specs::vec::axiom_spec_len(output);
                    assert(f * num_stream_outputs + ch < frames * num_stream_outputs) by (nonlinear_arith)
                        requires
                            0 <= f < frames,
                            0 <= ch < num_stream_outputs,
                    ;
                    assert(f * num_stream_outputs >= 0) by (nonlinear_arith)
                        requires
                            f >= 0,
                            num_stream_outputs >= 0,
                    ;
                }
                let sample = if ch < num_ins {
                    let b = self.schedule[self.graph_out_idx].input_buffers[ch].buffer_index;
                    if self.buffer_silence_flags[b] {
                        self.zero
                    } else {
                        self.buffers[b][f]
                    }
                } else {
                    self.zero
                };
                let idx = base + f * num_stream_outputs + ch;
                let ghost prev_out = output@;
                output[idx] = sample;
                proof {
                    assert forall|i: int| 0 <= i < old(output)@.len() && !(base <= i < base
                        + frames * num_stream_outputs) implies (#[trigger] output@[i])
                        == old(output)@[i] by {
                        assert(i != idx);
                        assert(output@[i] == prev_out[i]);
                    }
                    assert forall|f2: int, c: int|
                        #![trigger output@[base + f2 * num_stream_outputs + c]]
                        0 <= f2 < f && 0 <= c < num_stream_outputs implies output@[base + f2
                        * num_stream_outputs + c] == prev_out[base + f2 * num_stream_outputs
                        + c] by {
                        lemma_interleave_index_distinct(f2, c, f as int, ch as int,
                            num_stream_outputs as int);
                        assert(base + f2 * num_stream_outputs + c != idx);
                        assert(0 <= f2 * num_stream_outputs + c < frames * num_stream_outputs)
                            by (nonlinear_arith)
                            requires
                                0 <= f2 < frames,
                                0 <= c < num_stream_outputs,
                        ;
                    }
                    assert forall|c: int|
                        #![trigger output@[base + f as int * num_stream_outputs + c]]
                        0 <= c < ch implies output@[base + f as int * num_stream_outputs + c]
                        == prev_out[base + f as int * num_stream_outputs + c] by {
                        lemma_interleave_index_distinct(f as int, c, f as int, ch as int,
                            num_stream_outputs as int);
                        assert(base + f as int * num_stream_outputs + c != idx);
                        assert(0 <= f as int * num_stream_outputs + c < frames
                            * num_stream_outputs) by (nonlinear_arith)
                            requires
                                0 <= f < frames,
                                0 <= c < num_stream_outputs,
                        ;
                    }
                }
                ch += 1;
            }
            f += 1;
        }
    }
}

/// Whether some scheduled node writes buffer `b` as one of its outputs.
pub open spec fn spec_buffer_written(sched: Seq<ScheduledNode>, b: int) -> bool {
    exists|j: int, p: int|
        0 <= j < sched.len() && 0 <= p < sched[j].output_buffers@.len()
            && (#[trigger] sched[j].output_buffers@[p]).buffer_index == b
}

/// Whether some scheduled node clears buffer `b` as an unconnected input.
pub open spec fn spec_buffer_cleared(sched: Seq<ScheduledNode>, b: int) -> bool {
    exists|j: int, p: int|
        0 <= j < sched.len() && 0 <= p < sched[j].input_buffers@.len()
            && (#[trigger] sched[j].input_buffers@[p]).buffer_index == b
            && sched[j].input_buffers@[p].should_clear
}

/// Whether one of the first `upto` input assignments of `entry` clears
/// buffer `b`.
pub open spec fn spec_entry_clears(entry: ScheduledNode, upto: int, b: int) -> bool {
    exists|p: int|
        0 <= p < upto && p < entry.input_buffers@.len()
            && (#[trigger] entry.input_buffers@[p]).buffer_index == b
            && entry.input_buffers@[p].should_clear
}

impl<S: Sample> CompiledSchedule<S> {
    /// Copy the first `frames` samples of pool buffer `b` into input
    /// scratch channel `p`.
    fn load_scratch_in(&mut self, b: usize, p: usize, frames: usize)
        requires
            old(self).wf(),
            b < old(self).buffers@.len(),
            p < 64,
            frames <= old(self).max_block_frames,
        ensures
            final(self).wf(),
            final(self).schedule == old(self).schedule,
            final(self).graph_in_idx == old(self).graph_in_idx,
            final(self).graph_out_idx == old(self).graph_out_idx,
            final(self).zero == old(self).zero,
            final(self).max_block_frames == old(self).max_block_frames,
            final(self).buffers == old(self).buffers,
            final(self).buffer_silence_flags == old(self).buffer_silence_flags,
            final(self).scratch_out == old(self).scratch_out,
            forall|c: int| 0 <= c < 64 && c != p ==>
                (#[trigger] final(self).scratch_in@[c]) == old(self).scratch_in@[c],
            forall|f: int| 0 <= f < frames ==> (#[trigger] final(self).scratch_in@[p as int]@[f])
                == old(self).buffers@[b as int]@[f],
    {
        let mut f: usize = 0;
        while f < frames
            invariant
                self.wf(),
                f <= frames,
                b < self.buffers@.len(),
                p < 64,
                frames <= self.max_block_frames,
                self.schedule == old(self).schedule,
                self.graph_in_idx == old(self).graph_in_idx,
                self.graph_out_idx == old(self).graph_out_idx,
                self.zero == old(self).zero,
                self.max_block_frames == old(self).max_block_frames,
                self.buffers == old(self).buffers,
                self.buffer_silence_flags == old(self).buffer_silence_flags,
                self.scratch_out == old(self).scratch_out,
                forall|c: int| 0 <= c < 64 && c != p ==>
                    (#[trigger] self.scratch_in@[c]) == old(self).scratch_in@[c],
                forall|x: int| 0 <= x < f ==> (#[trigger] self.scratch_in@[p as int]@[x])
                    == old(self).buffers@[b as int]@[x],
            decreases frames - f,
        {
            let v = self.buffers[b][f];
            let row = &mut self.scratch_in[p];
            row[f] = v;
            f += 1;
        }
    }

    /// Copy the first `frames` samples of pool buffer `b` into output
    /// scratch channel `q`, so a node that leaves an output untouched
    /// passes the buffer through unchanged.
    fn load_scratch_out(&mut self, b: usize, q: usize, frames: usize)
        requires
            old(self).wf(),
            b < old(self).buffers@.len(),
            q < 64,
            frames <= old(self).max_block_frames,
        ensures
            final(self).wf(),
            final(self).schedule == old(self).schedule,
            final(self).graph_in_idx == old(self).graph_in_idx,
            final(self).graph_out_idx == old(self).graph_out_idx,
            final(self).zero == old(self).zero,
            final(self).max_block_frames == old(self).max_block_frames,
            final(self).buffers == old(self).buffers,
            final(self).buffer_silence_flags == old(self).buffer_silence_flags,
            final(self).scratch_in == old(self).scratch_in,
            forall|c: int| 0 <= c < 64 && c != q ==>
                (#[trigger] final(self).scratch_out@[c]) == old(self).scratch_out@[c],
            forall|f: int| 0 <= f < frames ==> (#[trigger] final(self).scratch_out@[q as int]@[f])
                == old(self).buffers@[b as int]@[f],
    {
        let mut f: usize = 0;
        while f < frames
            invariant
                self.wf(),
                f <= frames,
                b < self.buffers@.len(),
                q < 64,
                frames <= self.max_block_frames,
                self.schedule == old(self).schedule,
                self.graph_in_idx == old(self).graph_in_idx,
                self.graph_out_idx == old(self).graph_out_idx,
                self.zero == old(self).zero,
                self.max_block_frames == old(self).max_block_frames,
                self.buffers == old(self).buffers,
                self.buffer_silence_flags == old(self).buffer_silence_flags,
                self.scratch_in == old(self).scratch_in,
                forall|c: int| 0 <= c < 64 && c != q ==>
                    (#[trigger] self.scratch_out@[c]) == old(self).scratch_out@[c],
                forall|x: int| 0 <= x < f ==> (#[trigger] self.scratch_out@[q as int]@[x])
                    == old(self).buffers@[b as int]@[x],
            decreases frames - f,
        {
            let v = self.buffers[b][f];
            let row = &mut self.scratch_out[q];
            row[f] = v;
            f += 1;
        }
    }

    /// Copy the first `frames` samples of output scratch channel `q` into
    /// pool buffer `b`.
    fn store_scratch_out(&mut self, q: usize, b: usize, frames: usize)
        requires
            old(self).wf(),
            b < old(self).buffers@.len(),
            q < 64,
            frames <= old(self).max_block_frames,
        ensures
            final(self).wf(),
            final(self).schedule == old(self).schedule,
            final(self).graph_in_idx == old(self).graph_in_idx,
            final(self).graph_out_idx == old(self).graph_out_idx,
            final(self).zero == old(self).zero,
            final(self).max_block_frames == old(self).max_block_frames,
            final(self).buffers@.len() == old(self).buffers@.len(),
            final(self).buffer_silence_flags == old(self).buffer_silence_flags,
            final(self).scratch_in == old(self).scratch_in,
            final(self).scratch_out == old(self).scratch_out,
            forall|x: int| 0 <= x < old(self).buffers@.len() && x != b ==>
                (#[trigger] final(self).buffers@[x]) == old(self).buffers@[x],
            forall|f: int| 0 <= f < frames ==> (#[trigger] final(self).buffers@[b as int]@[f])
                == old(self).scratch_out@[q as int]@[f],
    {
        let mut f: usize = 0;
        while f < frames
            invariant
                self.wf(),
                f <= frames,
                b < self.buffers@.len(),
                q < 64,
                frames <= self.max_block_frames,
                self.schedule == old(self).schedule,
                self.graph_in_idx == old(self).graph_in_idx,
                self.graph_out_idx == old(self).graph_out_idx,
                self.zero == old(self).zero,
                self.max_block_frames == old(self).max_block_frames,
                self.buffers@.len() == old(self).buffers@.len(),
                self.buffer_silence_flags == old(self).buffer_silence_flags,
                self.scratch_in == old(self).scratch_in,
                self.scratch_out == old(self).scratch_out,
                forall|x: int| 0 <= x < old(self).buffers@.len() && x != b ==>
                    (#[trigger] self.buffers@[x]) == old(self).buffers@[x],
                forall|x: int| 0 <= x < f ==> (#[trigger] self.buffers@[b as int]@[x])
                    == old(self).scratch_out@[q as int]@[x],
            decreases frames - f,
        {
            let v = self.scratch_out[q][f];
            let row = &mut self.buffers[b];
            row[f] = v;
            f += 1;
        }
    }

    /// Run every scheduled node in order for one block: clear the inputs
    /// that must be cleared, hand each node its input channels and collect
    /// its outputs, and update the silence flags from the masks the nodes
    /// return. The buffer pool never grows. A node whose processor is
    /// missing from `procs` is skipped for the block.
    pub fn process<P: AudioNodeProcessor<S>>(
        &mut self,
        frames: usize,
        procs: &mut Slab<P>,
        info: ProcInfo,
    )
        requires
            old(self).wf(),
            frames <= old(self).max_block_frames,
        ensures
            final(self).wf(),
            final(self).schedule == old(self).schedule,
            final(self).graph_in_idx == old(self).graph_in_idx,
            final(self).graph_out_idx == old(self).graph_out_idx,
            final(self).zero == old(self).zero,
            final(self).max_block_frames == old(self).max_block_frames,
            final(self).buffers@.len() == old(self).buffers@.len(),
            forall|j: crate::arena::ArenaIndex|
                #![trigger final(procs).valid(j)]
                #![trigger old(procs).valid(j)]
                final(procs).valid(j) == old(procs).valid(j),
            // a buffer no scheduled node writes or clears is untouched
            forall|b: int|
                #![trigger final(self).buffers@[b]]
                0 <= b < old(self).buffers@.len() && !spec_buffer_written(
                    old(self).schedule@,
                    b,
                ) && !spec_buffer_cleared(old(self).schedule@, b) ==> final(self).buffers@[b]
                    == old(self).buffers@[b] && final(self).buffer_silence_flags@[b]
                    == old(self).buffer_silence_flags@[b],
            // a buffer that is cleared and never written ends zeroed and
            // flagged silent
            forall|b: int|
                #![trigger final(self).buffer_silence_flags@[b]]
                0 <= b < old(self).buffers@.len() && !spec_buffer_written(
                    old(self).schedule@,
                    b,
                ) && spec_buffer_cleared(old(self).schedule@, b) ==>
                    final(self).buffer_silence_flags@[b] && (forall|f: int| 0 <= f < frames ==>
                        (#[trigger] final(self).buffers@[b]@[f]) == old(self).zero),
    {
        let n = self.schedule.len();
        let mut k: usize = 0;
        while k < n
            invariant
                self.wf(),
                k <= n,
                n == self.schedule@.len(),
                frames <= self.max_block_frames,
                self.schedule == old(self).schedule,
                self.graph_in_idx == old(self).graph_in_idx,
                self.graph_out_idx == old(self).graph_out_idx,
                self.zero == old(self).zero,
                self.max_block_frames == old(self).max_block_frames,
                self.buffers@.len() == old(self).buffers@.len(),
                forall|j: crate::arena::ArenaIndex|
                    #![trigger procs.valid(j)]
                    #![trigger old(procs).valid(j)]
                    procs.valid(j) == old(procs).valid(j),
                forall|b: int|
                    #![trigger self.buffers@[b]]
                    0 <= b < old(self).buffers@.len() && !spec_buffer_written(
                        old(self).schedule@,
                        b,
                    ) && !spec_buffer_cleared(old(self).schedule@, b) ==> self.buffers@[b]
                        == old(self).buffers@[b] && self.buffer_silence_flags@[b]
                        == old(self).buffer_silence_flags@[b],
                forall|b: int|
                    #![trigger self.buffer_silence_flags@[b]]
                    0 <= b < old(self).buffers@.len() && !spec_buffer_written(
                        old(self).schedule@,
                        b,
                    ) && spec_buffer_cleared(old(self).schedule@.take(k as int), b) ==>
                        self.buffer_silence_flags@[b] && (forall|f: int| 0 <= f < frames ==>
                            (#[trigger] self.buffers@[b]@[f]) == old(self).zero),
            decreases n - k,
        {
            let node_id = self.schedule[k].id;
            let n_in = self.schedule[k].input_buffers.len();
            let n_out = self.schedule[k].output_buffers.len();

            let mut in_mask = SilenceMask::none_silent();
            let mut p: usize = 0;
            while p < n_in
                invariant
                    self.wf(),
                    k < n,
                    p <= n_in,
                    n == self.schedule@.len(),
                    n_in == self.schedule@[k as int].input_buffers@.len(),
                    frames <= self.max_block_frames,
                    self.schedule == old(self).schedule,
                    self.graph_in_idx == old(self).graph_in_idx,
                    self.graph_out_idx == old(self).graph_out_idx,
                    self.zero == old(self).zero,
                    self.max_block_frames == old(self).max_block_frames,
                    self.buffers@.len() == old(self).buffers@.len(),
                    forall|b: int|
                        #![trigger self.buffers@[b]]
                        0 <= b < old(self).buffers@.len() && !spec_buffer_written(
                            old(self).schedule@,
                            b,
                        ) && !spec_buffer_cleared(old(self).schedule@, b) ==> self.buffers@[b]
                            == old(self).buffers@[b] && self.buffer_silence_flags@[b]
                            == old(self).buffer_silence_flags@[b],
                    forall|b: int|
                        #![trigger self.buffer_silence_flags@[b]]
                        0 <= b < old(self).buffers@.len() && !spec_buffer_written(
                            old(self).schedule@,
                            b,
                        ) && (spec_buffer_cleared(old(self).schedule@.take(k as int), b)
                            || spec_entry_clears(old(self).schedule@[k as int], p as int, b)) ==>
                            self.buffer_silence_flags@[b] && (forall|f: int| 0 <= f < frames ==>
                                (#[trigger] self.buffers@[b]@[f]) == old(self).zero),
                decreases n_in - p,
            {
                let ghost pre_step: Self = *self;
                let a = self.schedule[k].input_buffers[p];
                proof {
                    assert(old(self).schedule@[k as int].input_buffers@[p as int] == a);
                    if a.should_clear {
                        assert(spec_buffer_cleared(old(self).schedule@, a.buffer_index as int));
                        assert(spec_entry_clears(
                            old(self).schedule@[k as int],
                            p as int + 1,
                            a.buffer_index as int,
                        ));
                    }
                }
                if a.should_clear {
                    self.clear_buffer(a.buffer_index, frames);
                }
                let ghost post_clear: Self = *self;
                if self.buffer_silence_flags[a.buffer_index] {
                    in_mask.set_channel(if p < 64 {
                        p
                    } else {
                        63
                    }, true);
                }
                self.load_scratch_in(a.buffer_index, p, frames);
                proof {
                    assert forall|b: int|
                        #![trigger self.buffers@[b]]
                        0 <= b < old(self).buffers@.len() && !spec_buffer_written(
                            old(self).schedule@,
                            b,
                        ) && !spec_buffer_cleared(old(self).schedule@, b) implies self.buffers@[b]
                        == old(self).buffers@[b] && self.buffer_silence_flags@[b]
                        == old(self).buffer_silence_flags@[b] by {
                        if a.should_clear {
                            assert(b != a.buffer_index as int);
                        }
                        assert(self.buffers@[b] == pre_step.buffers@[b]);
                        assert(self.buffer_silence_flags@[b]
                            == pre_step.buffer_silence_flags@[b]);
                        assert(pre_step.buffers@[b] == old(self).buffers@[b]);
                        assert(pre_step.buffer_silence_flags@[b]
                            == old(self).buffer_silence_flags@[b]);
                    }
                    assert forall|b: int|
                        #![trigger self.buffer_silence_flags@[b]]
                        0 <= b < old(self).buffers@.len() && !spec_buffer_written(
                            old(self).schedule@,
                            b,
                        ) && (spec_buffer_cleared(old(self).schedule@.take(k as int), b)
                            || spec_entry_clears(
                            old(self).schedule@[k as int],
                            p as int + 1,
                            b,
                        )) implies self.buffer_silence_flags@[b] && (forall|f: int|
                        0 <= f < frames ==> (#[trigger] self.buffers@[b]@[f])
                            == old(self).zero) by {
                        if a.should_clear && b == a.buffer_index as int {
                            // freshly cleared this step; the scratch load
                            // does not touch the pool
                            assert(post_clear.buffer_silence_flags@[b]);
                            assert(forall|f: int| 0 <= f < frames ==>
                                (#[trigger] post_clear.buffers@[b]@[f]) == old(self).zero);
                            assert(self.buffers@[b] == post_clear.buffers@[b]);
                            assert(self.buffer_silence_flags@[b]
                                == post_clear.buffer_silence_flags@[b]);
                        } else {
                            if a.should_clear {
                                assert(b != a.buffer_index as int);
                            }
                            if spec_entry_clears(old(self).schedule@[k as int], p as int + 1, b) {
                                let p2 = choose|p2: int|
                                    0 <= p2 < p as int + 1 && p2 < old(self).schedule@[
                                    k as int].input_buffers@.len() && (#[trigger] old(
                                        self,
                                    ).schedule@[k as int].input_buffers@[p2]).buffer_index == b
                                        && old(self).schedule@[k as int].input_buffers@[p2]
                                        .should_clear;
                                assert(p2 < p as int);
                                assert(spec_entry_clears(
                                    old(self).schedule@[k as int],
                                    p as int,
                                    b,
                                ));
                            }
                            assert(self.buffers@[b] == pre_step.buffers@[b]);
                            assert(self.buffer_silence_flags@[b]
                                == pre_step.buffer_silence_flags@[b]);
                            assert(pre_step.buffer_silence_flags@[b] && (forall|f: int|
                                0 <= f < frames ==> (#[trigger] pre_step.buffers@[b]@[f])
                                    == old(self).zero));
                        }
                    }
                }
                p += 1;
            }

            let mut q0: usize = 0;
            while q0 < n_out
                invariant
                    self.wf(),
                    k < n,
                    q0 <= n_out,
                    n == self.schedule@.len(),
                    n_out == self.schedule@[k as int].output_buffers@.len(),
                    frames <= self.max_block_frames,
                    self.schedule == old(self).schedule,
                    self.graph_in_idx == old(self).graph_in_idx,
                    self.graph_out_idx == old(self).graph_out_idx,
                    self.zero == old(self).zero,
                    self.max_block_frames == old(self).max_block_frames,
                    self.buffers@.len() == old(self).buffers@.len(),
                    forall|b: int|
                        #![trigger self.buffers@[b]]
                        0 <= b < old(self).buffers@.len() && !spec_buffer_written(
                            old(self).schedule@,
                            b,
                        ) && !spec_buffer_cleared(old(self).schedule@, b) ==> self.buffers@[b]
                            == old(self).buffers@[b] && self.buffer_silence_flags@[b]
                            == old(self).buffer_silence_flags@[b],
                    forall|b: int|
                        #![trigger self.buffer_silence_flags@[b]]
                        0 <= b < old(self).buffers@.len() && !spec_buffer_written(
                            old(self).schedule@,
                            b,
                        ) && (spec_buffer_cleared(old(self).schedule@.take(k as int), b)
                            || spec_entry_clears(
                            old(self).schedule@[k as int],
                            old(self).schedule@[k as int].input_buffers@.len() as int,
                            b,
                        )) ==> self.buffer_silence_flags@[b] && (forall|f: int| 0 <= f < frames
                            ==> (#[trigger] self.buffers@[b]@[f]) == old(self).zero),
                decreases n_out - q0,
            {
                let ghost pre_step: Self = *self;
                let a = self.schedule[k].output_buffers[q0];
                self.load_scratch_out(a.buffer_index, q0, frames);
                proof {
                    assert forall|b: int|
                        #![trigger self.buffers@[b]]
                        0 <= b < old(self).buffers@.len() implies self.buffers@[b]
                        == pre_step.buffers@[b] && self.buffer_silence_flags@[b]
                        == pre_step.buffer_silence_flags@[b] by {
                        assert(pre_step.buffers@[b] == pre_step.buffers@[b]);
                    }
                }
                q0 += 1;
            }

            let block_info = ProcInfo {
                in_silence_mask: in_mask,
                stream_time_nanos: info.stream_time_nanos,
                stream_status: info.stream_status,
            };
            let ghost pre_call: Self = *self;
            let out_mask = match procs.get_mut(node_id.idx) {
                Some(pr) => pr.process(
                    frames,
                    &self.scratch_in,
                    n_in,
                    &mut self.scratch_out,
                    n_out,
                    block_info,
                ),
                None => SilenceMask::none_silent(),
            };
            proof {
                assert forall|b: int|
                    #![trigger self.buffers@[b]]
                    0 <= b < old(self).buffers@.len() && !spec_buffer_written(
                        old(self).schedule@,
                        b,
                    ) && !spec_buffer_cleared(old(self).schedule@, b) implies self.buffers@[b]
                    == old(self).buffers@[b] && self.buffer_silence_flags@[b]
                    == old(self).buffer_silence_flags@[b] by {
                    assert(self.buffers@[b] == pre_call.buffers@[b]);
                    assert(self.buffer_silence_flags@[b] == pre_call.buffer_silence_flags@[b]);
                    assert(pre_call.buffers@[b] == old(self).buffers@[b]);
                    assert(pre_call.buffer_silence_flags@[b]
                        == old(self).buffer_silence_flags@[b]);
                }
                assert forall|b: int|
                    #![trigger self.buffer_silence_flags@[b]]
                    0 <= b < old(self).buffers@.len() && !spec_buffer_written(
                        old(self).schedule@,
                        b,
                    ) && (spec_buffer_cleared(old(self).schedule@.take(k as int), b)
                        || spec_entry_clears(
                        old(self).schedule@[k as int],
                        old(self).schedule@[k as int].input_buffers@.len() as int,
                        b,
                    )) implies self.buffer_silence_flags@[b] && (forall|f: int| 0 <= f < frames
                    ==> (#[trigger] self.buffers@[b]@[f]) == old(self).zero) by {
                    assert(self.buffers@[b] == pre_call.buffers@[b]);
                    assert(self.buffer_silence_flags@[b] == pre_call.buffer_silence_flags@[b]);
                    assert(pre_call.buffer_silence_flags@[b] && (forall|f: int| 0 <= f < frames
                        ==> (#[trigger] pre_call.buffers@[b]@[f]) == old(self).zero));
                }
            }

            let mut q: usize = 0;
            while q < n_out
                invariant
                    self.wf(),
                    k < n,
                    q <= n_out,
                    n == self.schedule@.len(),
                    n_out == self.schedule@[k as int].output_buffers@.len(),
                    frames <= self.max_block_frames,
                    self.schedule == old(self).schedule,
                    self.graph_in_idx == old(self).graph_in_idx,
                    self.graph_out_idx == old(self).graph_out_idx,
                    self.zero == old(self).zero,
                    self.max_block_frames == old(self).max_block_frames,
                    self.buffers@.len() == old(self).buffers@.len(),
                    forall|b: int|
                        #![trigger self.buffers@[b]]
                        0 <= b < old(self).buffers@.len() && !spec_buffer_written(
                            old(self).schedule@,
                            b,
                        ) && !spec_buffer_cleared(old(self).schedule@, b) ==> self.buffers@[b]
                            == old(self).buffers@[b] && self.buffer_silence_flags@[b]
                            == old(self).buffer_silence_flags@[b],
                    forall|b: int|
                        #![trigger self.buffer_silence_flags@[b]]
                        0 <= b < old(self).buffers@.len() && !spec_buffer_written(
                            old(self).schedule@,
                            b,
                        ) && (spec_buffer_cleared(old(self).schedule@.take(k as int), b)
                            || spec_entry_clears(
                            old(self).schedule@[k as int],
                            old(self).schedule@[k as int].input_buffers@.len() as int,
                            b,
                        )) ==> self.buffer_silence_flags@[b] && (forall|f: int| 0 <= f < frames
                            ==> (#[trigger] self.buffers@[b]@[f]) == old(self).zero),
                decreases n_out - q,
            {
                let ghost pre_step: Self = *self;
                let a = self.schedule[k].output_buffers[q];
                proof {
                    assert(old(self).schedule@[k as int].output_buffers@[q as int] == a);
                    assert(spec_buffer_written(old(self).schedule@, a.buffer_index as int));
                }
                self.store_scratch_out(q, a.buffer_index, frames);
                let silent = if q < 64 {
                    out_mask.is_channel_silent(q)
                } else {
                    false
                };
                self.buffer_silence_flags[a.buffer_index] = silent;
                proof {
                    assert forall|b: int|
                        #![trigger self.buffers@[b]]
                        0 <= b < old(self).buffers@.len() && !spec_buffer_written(
                            old(self).schedule@,
                            b,
                        ) && !spec_buffer_cleared(old(self).schedule@, b) implies self.buffers@[b]
                        == old(self).buffers@[b] && self.buffer_silence_flags@[b]
                        == old(self).buffer_silence_flags@[b] by {
                        assert(b != a.buffer_index as int);
                        assert(self.buffers@[b] == pre_step.buffers@[b]);
                        assert(self.buffer_silence_flags@[b]
                            == pre_step.buffer_silence_flags@[b]);
                        assert(pre_step.buffers@[b] == old(self).buffers@[b]);
                        assert(pre_step.buffer_silence_flags@[b]
                            == old(self).buffer_silence_flags@[b]);
                    }
                    assert forall|b: int|
                        #![trigger self.buffer_silence_flags@[b]]
                        0 <= b < old(self).buffers@.len() && !spec_buffer_written(
                            old(self).schedule@,
                            b,
                        ) && (spec_buffer_cleared(old(self).schedule@.take(k as int), b)
                            || spec_entry_clears(
                            old(self).schedule@[k as int],
                            old(self).schedule@[k as int].input_buffers@.len() as int,
                            b,
                        )) implies self.buffer_silence_flags@[b] && (forall|f: int|
                        0 <= f < frames ==> (#[trigger] self.buffers@[b]@[f])
                            == old(self).zero) by {
                        assert(b != a.buffer_index as int);
                        assert(self.buffers@[b] == pre_step.buffers@[b]);
                        assert(self.buffer_silence_flags@[b]
                            == pre_step.buffer_silence_flags@[b]);
                        assert(pre_step.buffer_silence_flags@[b] && (forall|f: int|
                            0 <= f < frames ==> (#[trigger] pre_step.buffers@[b]@[f])
                                == old(self).zero));
                    }
                }
                q += 1;
            }
            proof {
                assert forall|b: int|
                    #![trigger self.buffer_silence_flags@[b]]
                    0 <= b < old(self).buffers@.len() && !spec_buffer_written(
                        old(self).schedule@,
                        b,
                    ) && spec_buffer_cleared(old(self).schedule@.take(k as int + 1), b) implies
                    self.buffer_silence_flags@[b] && (forall|f: int| 0 <= f < frames ==>
                        (#[trigger] self.buffers@[b]@[f]) == old(self).zero) by {
                    let (j, p2) = choose|j: int, p2: int|
                        0 <= j < old(self).schedule@.take(k as int + 1).len() && 0 <= p2
                            < old(self).schedule@.take(k as int + 1)[j].input_buffers@.len()
                            && (#[trigger] old(self).schedule@.take(
                            k as int + 1,
                        )[j].input_buffers@[p2]).buffer_index == b && old(self).schedule@.take(
                            k as int + 1,
                        )[j].input_buffers@[p2].should_clear;
                    if j < k as int {
                        assert(old(self).schedule@.take(k as int)[j].input_buffers@[p2].buffer_index
                            == b && old(self).schedule@.take(
                            k as int,
                        )[j].input_buffers@[p2].should_clear);
                        assert(spec_buffer_cleared(old(self).schedule@.take(k as int), b));
                    } else {
                        assert(old(self).schedule@[k as int].input_buffers@[p2].buffer_index == b
                            && old(self).schedule@[k as int].input_buffers@[p2].should_clear);
                        assert(spec_entry_clears(
                            old(self).schedule@[k as int],
                            old(self).schedule@[k as int].input_buffers@.len() as int,
                            b,
                        ));
                    }
                }
            }
            k += 1;
        }
        proof {
            assert(old(self).schedule@.take(old(self).schedule@.len() as int)
                =~= old(self).schedule@);
            assert forall|b: int|
                #![trigger self.buffer_silence_flags@[b]]
                0 <= b < old(self).buffers@.len() && !spec_buffer_written(
                    old(self).schedule@,
                    b,
                ) && spec_buffer_cleared(old(self).schedule@, b) implies
                self.buffer_silence_flags@[b] && (forall|f: int| 0 <= f < frames ==>
                    (#[trigger] self.buffers@[b]@[f]) == old(self).zero) by {
                assert(k as int == old(self).schedule@.len());
                assert(spec_buffer_cleared(
                    old(self).schedule@.take(old(self).schedule@.len() as int),
                    b,
                ));
                assert(spec_buffer_cleared(old(self).schedule@.take(k as int), b));
                assert(self.buffer_silence_flags@[b]);
                assert(forall|f: int| 0 <= f < frames ==>
                    (#[trigger] self.buffers@[b]@[f]) == old(self).zero);
            }
        }
    }
}

/// Everything the control side ships to the executor for one schedule
/// swap: the schedule itself, the nodes whose processors the executor must
/// hand back, and the processors of newly activated nodes.
pub struct ScheduleHeapData<P, S> {
    pub schedule: CompiledSchedule<S>,
    pub nodes_to_remove: Vec<NodeID>,
    pub removed_node_processors: Vec<(NodeID, P)>,
    pub new_node_processors: Vec<(NodeID, P)>,
}

/// The ids carried by a processor list, in order.
pub open spec fn processor_ids<P>(list: Seq<(NodeID, P)>) -> Seq<NodeID> {
    list.map_values(|pr: (NodeID, P)| pr.0)
}

/// The ids of `pending` that name live nodes of `g`, in order: the nodes
/// one compile pass activates.
pub open spec fn live_pending<N>(g: AudioGraph<N>, pending: Seq<NodeID>) -> Seq<NodeID>
    decreases pending.len(),
{
    if pending.len() == 0 {
        Seq::empty()
    } else {
        let rest = live_pending(g, pending.drop_last());
        if g.has_node(pending.last()) {
            rest.push(pending.last())
        } else {
            rest
        }
    }
}

impl<N> AudioGraph<N> {
    /// Compile the graph: sort it topologically, assign buffers, and
    /// activate every node added since the last successful compile.
    /// Returns `CycleDetected` exactly when the graph has no topological
    /// order; activation failures surface as `NodeActivationFailed` after
    /// already-activated nodes from this pass are deactivated again.
    #[verifier::rlimit(100)]
    #[verifier::spinoff_prover]
    pub fn compile<P, S: Sample>(
        &mut self,
        sample_rate: u32,
        max_block_frames: usize,
        zero: S,
    ) -> (r: Result<ScheduleHeapData<P, S>, CompileGraphError>)
        where N: AudioNode<P>
        requires
            old(self).wf(),
            sample_rate >= 1,
            max_block_frames >= 1,
        ensures
            final(self).wf(),
            r matches Err(CompileGraphError::CycleDetected) <==> !old(self).schedulable(),
            r matches Err(CompileGraphError::CycleDetected) ==> *final(self) == *old(self),
            // activation is the only outside decision: with nothing
            // pending, a schedulable graph always compiles
            old(self).schedulable() && old(self).nodes_to_activate@.len() == 0 ==> r is Ok,
            r matches Err(CompileGraphError::NodeActivationFailed(id, msg)) ==> {
                &&& final(self).needs_compile == old(self).needs_compile
                &&& final(self).nodes_to_activate@ == old(self).nodes_to_activate@
                &&& final(self).nodes_to_remove_from_schedule@
                    == old(self).nodes_to_remove_from_schedule@
            },
            final(self).graph_in_id == old(self).graph_in_id,
            final(self).graph_out_id == old(self).graph_out_id,
            r matches Ok(data) ==> {
                &&& !final(self).needs_compile
                &&& data.schedule.wf()
                &&& data.schedule.max_block_frames == max_block_frames
                &&& data.schedule.zero == zero
                &&& exists|order: Seq<NodeID>| old(self).is_topo_order(order)
                    && order.len() >= 2 && order[0] == old(self).graph_in_id
                    && order.last() == old(self).graph_out_id
                    && #[trigger] old(self).schedule_structure(
                    order,
                    data.schedule.schedule@,
                    data.schedule.buffers@.len() as int,
                ) && old(self).schedule_routes_edges(order, data.schedule.schedule@)
                    && old(self).schedule_inputs_distinct(order, data.schedule.schedule@)
                &&& data.schedule.graph_in_idx == 0
                &&& data.schedule.graph_out_idx == data.schedule.schedule@.len() - 1
                &&& data.nodes_to_remove@ == old(self).nodes_to_remove_from_schedule@
                &&& data.removed_node_processors@.len() == 0
                &&& processor_ids(data.new_node_processors@) == live_pending(
                    *old(self),
                    old(self).nodes_to_activate@,
                )
                &&& final(self).nodes_to_remove_from_schedule@.len() == 0
                &&& final(self).nodes_to_activate@.len() == 0
            },
    {
        let order = match self.topo_order() {
            Some(order) => order,
            None => {
                return Err(CompileGraphError::CycleDetected);
            },
        };
        let (sched_nodes, num_buffers) = self.solve_buffers(&order);
        let graph_out_idx = sched_nodes.len() - 1;
        let schedule = CompiledSchedule::new(
            sched_nodes,
            0,
            graph_out_idx,
            num_buffers,
            max_block_frames,
            zero,
        );

        // Activate every node added since the last successful compile.
        let mut new_node_processors: Vec<(NodeID, P)> = Vec::new();
        let mut i: usize = 0;
        while i < self.nodes_to_activate.len()
            invariant
                self.wf(),
                i <= self.nodes_to_activate@.len(),
                old(self).schedulable(),
                self.graph_in_id == old(self).graph_in_id,
                self.graph_out_id == old(self).graph_out_id,
                self.needs_compile == old(self).needs_compile,
                self.nodes_to_activate@ == old(self).nodes_to_activate@,
                self.nodes_to_remove_from_schedule@ == old(self).nodes_to_remove_from_schedule@,
                forall|j: NodeID| #![trigger self.has_node(j)] #![trigger old(self).has_node(j)]
                    self.has_node(j) == old(self).has_node(j),
                processor_ids(new_node_processors@) == live_pending(
                    *old(self),
                    old(self).nodes_to_activate@.take(i as int),
                ),
            decreases self.nodes_to_activate@.len() - i,
        {
            let node_id = self.nodes_to_activate[i];
            let ghost before: Self = *self;
            let ghost pre_procs = new_node_processors@;
            if let Some(entry) = self.nodes.get_mut(node_id.idx) {
                let activation = entry.weight.node.activate(
                    sample_rate,
                    max_block_frames,
                    entry.num_inputs as usize,
                    entry.num_outputs as usize,
                );
                match activation {
                    Ok(processor) => {
                        entry.weight.activated = true;
                        new_node_processors.push((node_id, processor));
                    },
                    Err(msg) => {
                        proof {
                            self.lemma_same_shape_after_weight_change(before);
                        }
                        self.rollback_activations(new_node_processors);
                        return Err(CompileGraphError::NodeActivationFailed(node_id, msg));
                    },
                }
            }
            proof {
                self.lemma_same_shape_after_weight_change(before);
                assert forall|j: NodeID| #![trigger self.has_node(j)] #![trigger old(self).has_node(j)]
                    self.has_node(j) == old(self).has_node(j) by {
                    assert(self.nodes.valid(j.idx) == before.nodes.valid(j.idx));
                    assert(before.has_node(j) == old(self).has_node(j));
                }
                let pending = old(self).nodes_to_activate@;
                assert(pending.take(i as int + 1) =~= pending.take(i as int).push(node_id));
                assert(pending.take(i as int + 1).drop_last() =~= pending.take(i as int));
                if old(self).has_node(node_id) {
                    assert(before.has_node(node_id));
                    assert(new_node_processors@ == pre_procs.push(
                        (node_id, new_node_processors@.last().1),
                    ));
                    assert(processor_ids(new_node_processors@) =~= processor_ids(
                        pre_procs,
                    ).push(node_id));
                } else {
                    assert(!before.has_node(node_id));
                    assert(new_node_processors@ == pre_procs);
                }
                assert(processor_ids(new_node_processors@) == live_pending(
                    *old(self),
                    pending.take(i as int + 1),
                ));
            }
            i += 1;
        }

        let ghost g_end: Self = *self;
        let mut nodes_to_remove: Vec<NodeID> = Vec::new();
        core::mem::swap(&mut nodes_to_remove, &mut self.nodes_to_remove_from_schedule);
        self.nodes_to_activate = Vec::new();
        self.needs_compile = false;
        proof {
            assert(old(self).nodes_to_activate@.take(old(self).nodes_to_activate@.len() as int)
                =~= old(self).nodes_to_activate@);
            self.lemma_same_shape_after_weight_change(g_end);
            let order_seq = order@;
            assert(old(self).is_topo_order(order_seq));
            assert(old(self).schedule_structure(order_seq, schedule.schedule@,
                schedule.buffers@.len() as int));
            assert(old(self).schedule_inputs_distinct(order_seq, schedule.schedule@));
        }
        Ok(ScheduleHeapData {
            schedule,
            nodes_to_remove,
            removed_node_processors: Vec::new(),
            new_node_processors,
        })
    }

    /// Mutating a node's payload leaves the graph's shape (node set, port
    /// counts, edges) intact.
    pub(crate) proof fn lemma_same_shape_after_weight_change(&self, pre: Self)
        requires
            pre.wf(),
            self.nodes.wf(),
            self.edges == pre.edges,
            self.graph_in_id == pre.graph_in_id,
            self.graph_out_id == pre.graph_out_id,
            forall|j: NodeID| #![trigger self.has_node(j)] #![trigger pre.has_node(j)]
                self.has_node(j) == pre.has_node(j),
            forall|j: NodeID| pre.has_node(j) ==> (#[trigger] self.node_of(j)).id
                == pre.node_of(j).id && self.node_of(j).num_inputs == pre.node_of(j).num_inputs
                && self.node_of(j).num_outputs == pre.node_of(j).num_outputs,
            self.nodes.len() == pre.nodes.len(),
        ensures
            self.wf(),
    {
        assert(pre.has_node(self.graph_in_id));
        assert(pre.has_node(self.graph_out_id));
        assert forall|id: NodeID| #[trigger] self.has_node(id) implies self.node_of(id).id == id
            && self.node_of(id).num_inputs <= crate::graph::MAX_PORTS
            && self.node_of(id).num_outputs <= crate::graph::MAX_PORTS by {
            assert(pre.has_node(id));
        }
        assert forall|eid: crate::graph::EdgeID| #[trigger] self.has_edge_id(eid) implies
            self.edge_of(eid).id == eid && self.edge_ok(self.edge_of(eid)) by {
            assert(pre.has_edge_id(eid));
            let e = self.edge_of(eid);
            assert(pre.edge_ok(e));
            assert(pre.has_node(e.src_node) && pre.has_node(e.dst_node));
        }
        assert forall|e1: crate::graph::EdgeID, e2: crate::graph::EdgeID|
            #[trigger] self.has_edge_id(e1) && #[trigger] self.has_edge_id(e2) && e1 != e2
            implies !(self.edge_of(e1).dst_node == self.edge_of(e2).dst_node
                && self.edge_of(e1).dst_port == self.edge_of(e2).dst_port) by {
            assert(pre.has_edge_id(e1));
            assert(pre.has_edge_id(e2));
        }
    }

    /// Undo the activations of one failed compile pass: each node is
    /// deactivated without its processor, which is dropped here on the
    /// control thread.
    fn rollback_activations<P>(&mut self, processors: Vec<(NodeID, P)>)
        where N: AudioNode<P>
        requires
            old(self).wf(),
        ensures
            final(self).wf(),
            final(self).graph_in_id == old(self).graph_in_id,
            final(self).graph_out_id == old(self).graph_out_id,
            final(self).needs_compile == old(self).needs_compile,
            final(self).nodes_to_activate@ == old(self).nodes_to_activate@,
            final(self).nodes_to_remove_from_schedule@
                == old(self).nodes_to_remove_from_schedule@,
    {
        let mut processors = processors;
        while processors.len() > 0
            invariant
                self.wf(),
                self.graph_in_id == old(self).graph_in_id,
                self.graph_out_id == old(self).graph_out_id,
                self.needs_compile == old(self).needs_compile,
                self.nodes_to_activate@ == old(self).nodes_to_activate@,
                self.nodes_to_remove_from_schedule@
                    == old(self).nodes_to_remove_from_schedule@,
            decreases processors@.len(),
        {
            let ghost before: Self = *self;
            let (id2, processor) = processors.pop().unwrap();
            if let Some(entry) = self.nodes.get_mut(id2.idx) {
                entry.weight.node.deactivate(None::<P>);
                entry.weight.activated = false;
            }
            proof {
                self.lemma_same_shape_after_weight_change(before);
            }
        }
    }
}

impl<S: Sample> CompiledSchedule<S> {
    /// Runtime validation of the structural invariants; `true` implies
    /// [`CompiledSchedule::wf`]. The executor checks a schedule it
    /// receives over the channel before installing it.
    pub fn check_wf(&self) -> (r: bool)
        ensures
            r ==> self.wf(),
    {
        if self.max_block_frames < 1 {
            return false;
        }
        if self.buffers.len() != self.buffer_silence_flags.len() {
            return false;
        }
        if self.scratch_in.len() != 64 || self.scratch_out.len() != 64 {
            return false;
        }
        if self.schedule.len() < 1 {
            return false;
        }
        if self.graph_in_idx >= self.schedule.len() || self.graph_out_idx >= self.schedule.len() {
            return false;
        }
        let nb = self.buffers.len();
        let mut b: usize = 0;
        while b < nb
            invariant
                b <= nb,
                nb == self.buffers@.len(),
                forall|x: int| 0 <= x < b ==>
                    (#[trigger] self.buffers@[x])@.len() == self.max_block_frames,
            decreases nb - b,
        {
            if self.buffers[b].len() != self.max_block_frames {
                return false;
            }
            b += 1;
        }
        let mut c: usize = 0;
        while c < 64
            invariant
                c <= 64,
                self.scratch_in@.len() == 64,
                self.scratch_out@.len() == 64,
                forall|x: int| 0 <= x < c ==>
                    (#[trigger] self.scratch_in@[x])@.len() == self.max_block_frames,
                forall|x: int| 0 <= x < c ==>
                    (#[trigger] self.scratch_out@[x])@.len() == self.max_block_frames,
            decreases 64 - c,
        {
            if self.scratch_in[c].len() != self.max_block_frames {
                return false;
            }
            if self.scratch_out[c].len() != self.max_block_frames {
                return false;
            }
            c += 1;
        }
        let n = self.schedule.len();
        let mut j: usize = 0;
        while j < n
            invariant
                j <= n,
                n == self.schedule@.len(),
                nb == self.buffers@.len(),
                forall|x: int| 0 <= x < j ==>
                    (#[trigger] self.schedule@[x]).input_buffers@.len() <= 64,
                forall|x: int| 0 <= x < j ==>
                    (#[trigger] self.schedule@[x]).output_buffers@.len() <= 64,
                forall|x: int, p: int|
                    #![trigger self.schedule@[x].input_buffers@[p]]
                    0 <= x < j && 0 <= p < self.schedule@[x].input_buffers@.len() ==>
                        self.schedule@[x].input_buffers@[p].buffer_index < nb,
                forall|x: int, p: int|
                    #![trigger self.schedule@[x].output_buffers@[p]]
                    0 <= x < j && 0 <= p < self.schedule@[x].output_buffers@.len() ==>
                        self.schedule@[x].output_buffers@[p].buffer_index < nb,
                forall|x: int, p1: int, p2: int|
                    #![trigger self.schedule@[x].output_buffers@[p1], self.schedule@[x].output_buffers@[p2]]
                    0 <= x < j && 0 <= p1 < p2 < self.schedule@[x].output_buffers@.len() ==>
                        self.schedule@[x].output_buffers@[p1].buffer_index
                            != self.schedule@[x].output_buffers@[p2].buffer_index,
            decreases n - j,
        {
            let n_in = self.schedule[j].input_buffers.len();
            let n_out = self.schedule[j].output_buffers.len();
            if n_in > 64 || n_out > 64 {
                return false;
            }
            let mut p: usize = 0;
            while p < n_in
                invariant
                    p <= n_in,
                    j < n,
                    n == self.schedule@.len(),
                    nb == self.buffers@.len(),
                    n_in == self.schedule@[j as int].input_buffers@.len(),
                    forall|q: int| 0 <= q < p ==>
                        (#[trigger] self.schedule@[j as int].input_buffers@[q]).buffer_index < nb,
                decreases n_in - p,
            {
                if self.schedule[j].input_buffers[p].buffer_index >= nb {
                    return false;
                }
                p += 1;
            }
            let mut p1: usize = 0;
            while p1 < n_out
                invariant
                    p1 <= n_out,
                    j < n,
                    n == self.schedule@.len(),
                    nb == self.buffers@.len(),
                    n_out == self.schedule@[j as int].output_buffers@.len(),
                    forall|q: int| 0 <= q < p1 ==>
                        (#[trigger] self.schedule@[j as int].output_buffers@[q]).buffer_index < nb,
                    forall|q1: int, q2: int|
                        #![trigger self.schedule@[j as int].output_buffers@[q1], self.schedule@[j as int].output_buffers@[q2]]
                        0 <= q1 < q2 < p1 ==>
                            self.schedule@[j as int].output_buffers@[q1].buffer_index
                                != self.schedule@[j as int].output_buffers@[q2].buffer_index,
                decreases n_out - p1,
            {
                let bi = self.schedule[j].output_buffers[p1].buffer_index;
                if bi >= nb {
                    return false;
                }
                let mut p2: usize = 0;
                while p2 < p1
                    invariant
                        p2 <= p1 < n_out,
                        j < n,
                        n == self.schedule@.len(),
                        n_out == self.schedule@[j as int].output_buffers@.len(),
                        bi == self.schedule@[j as int].output_buffers@[p1 as int].buffer_index,
                        forall|q: int| 0 <= q < p2 ==>
                            (#[trigger] self.schedule@[j as int].output_buffers@[q]).buffer_index
                                != bi,
                    decreases p1 - p2,
                {
                    if self.schedule[j].output_buffers[p2].buffer_index == bi {
                        return false;
                    }
                    p2 += 1;
                }
                p1 += 1;
            }
            j += 1;
        }
        true
    }
}

/// Two distinct (frame, channel) pairs land at distinct interleaved
/// positions.
proof fn lemma_interleave_index_distinct(f2: int, c: int, f: int, ch: int, n: int)
    requires
        0 <= f2,
        0 <= c < n,
        0 <= f,
        0 <= ch < n,
        !(f2 == f && c == ch),
    ensures
        f2 * n + c != f * n + ch,
{
    assert(f2 * n + c != f * n + ch) by (nonlinear_arith)
        requires
            0 <= f2,
            0 <= c < n,
            0 <= f,
            0 <= ch < n,
            !(f2 == f && c == ch),
    ;
}

} // verus!
