//! The realtime executor: owns the current schedule and the realtime
//! halves of the nodes, drains control messages at block boundaries, and
//! renders interleaved audio. Everything it replaces is sent back to the
//! control thread for deallocation; the audio path never allocates a
//! schedule or processor.

use vstd::prelude::*;

use crate::arena::Slab;
use crate::node::{AudioNodeProcessor, ProcInfo, Sample, StreamStatus};
use crate::schedule::ScheduleHeapData;
use crate::graph::NodeID;

verus! {

#[verifier::external_type_specification]
#[verifier::external_body]
#[verifier::reject_recursive_types(T)]
pub struct ExProducer<T>(rtrb::Producer<T>);

#[verifier::external_type_specification]
#[verifier::external_body]
#[verifier::reject_recursive_types(T)]
pub struct ExConsumer<T>(rtrb::Consumer<T>);

/// Relies on rtrb::RingBuffer::new: creates the two endpoints of a
/// bounded single-producer single-consumer queue of the given capacity.
#[verifier::external_body]
pub(crate) fn channel_new<T>(capacity: usize) -> (r: (rtrb::Producer<T>, rtrb::Consumer<T>)) {
    rtrb::RingBuffer::new(capacity)
}

/// Relies on rtrb::Producer::push: a non-blocking push that hands the
/// value back when the queue is full.
#[verifier::external_body]
pub(crate) fn channel_push<T>(p: &mut rtrb::Producer<T>, value: T) -> (r: Result<(), T>)
    ensures
        r matches Err(v) ==> v == value,
{
    match p.push(value) {
        Ok(()) => Ok(()),
        Err(rtrb::PushError::Full(v)) => Err(v),
    }
}

/// Relies on rtrb::Consumer::pop: a non-blocking pop that returns `None`
/// when the queue is empty.
#[verifier::external_body]
pub(crate) fn channel_pop<T>(c: &mut rtrb::Consumer<T>) -> (r: Option<T>) {
    c.pop().ok()
}

/// What the executor reports after a callback.
#[derive(Debug, Clone, Copy, PartialEq, Eq, Structural)]
pub enum FirewheelProcessorStatus {
    /// Keep calling.
    Running,
    /// The executor has stopped; it must be dropped via
    /// [`FirewheelProcessor::finish`].
    DropProcessor,
}

/// What the executor reports after a callback; the same signal under the
/// name the realtime half of the engine uses.
#[derive(Debug, Clone, Copy, PartialEq, Eq, Structural)]
pub enum ProcessStatus {
    Running,
    DropProcessor,
}

/// A message from the control thread to the executor.
#[verifier::reject_recursive_types(P)]
#[verifier::reject_recursive_types(S)]
pub enum ContextToProcessorMsg<P, S> {
    NewSchedule(Box<ScheduleHeapData<P, S>>),
    Stop,
}

/// A message from the executor back to the control thread. Every payload
/// is dropped on the control thread.
#[verifier::reject_recursive_types(P)]
#[verifier::reject_recursive_types(S)]
pub enum ProcessorToContextMsg<P, S> {
    ReturnSchedule(Box<ScheduleHeapData<P, S>>),
    Dropped { nodes: Slab<P>, schedule_data: Option<Box<ScheduleHeapData<P, S>>> },
}

/// The realtime half of the engine.
#[verifier::reject_recursive_types(P)]
#[verifier::reject_recursive_types(S)]
pub struct FirewheelProcessor<P, S> {
    pub nodes: Slab<P>,
    pub schedule_data: Option<Box<ScheduleHeapData<P, S>>>,
    pub from_graph_rx: rtrb::Consumer<ContextToProcessorMsg<P, S>>,
    pub to_graph_tx: rtrb::Producer<ProcessorToContextMsg<P, S>>,
    pub running: bool,
    pub max_block_frames: usize,
    pub channel_capacity: usize,
    pub zero: S,
}

impl<P, S: Sample> FirewheelProcessor<P, S> where P: AudioNodeProcessor<S> {
    /// Structural well-formedness: a held schedule matches the block size.
    pub open spec fn wf(&self) -> bool {
        &&& self.max_block_frames >= 1
        &&& self.schedule_data is Some ==> {
            &&& self.schedule_data->Some_0.schedule.wf()
            &&& self.schedule_data->Some_0.schedule.max_block_frames == self.max_block_frames
        }
    }

    /// Build an executor around the two channel endpoints.
    pub(crate) fn new(
        from_graph_rx: rtrb::Consumer<ContextToProcessorMsg<P, S>>,
        to_graph_tx: rtrb::Producer<ProcessorToContextMsg<P, S>>,
        max_block_frames: usize,
        channel_capacity: usize,
        zero: S,
    ) -> (r: Self)
        requires
            max_block_frames >= 1,
        ensures
            r.wf(),
            r.running,
            r.schedule_data is None,
            r.max_block_frames == max_block_frames,
            r.zero == zero,
    {
        FirewheelProcessor {
            nodes: Slab::new(),
            schedule_data: None,
            from_graph_rx,
            to_graph_tx,
            running: true,
            max_block_frames,
            channel_capacity,
            zero,
        }
    }

    /// Drain pending control messages: swap in a new schedule (shipping
    /// the old one and any displaced processors back) or stop. At most a
    /// channel's worth of messages is drained per call, so the callback
    /// stays bounded.
    pub fn poll_messages(&mut self)
        requires
            old(self).wf(),
        ensures
            final(self).wf(),
            final(self).max_block_frames == old(self).max_block_frames,
            final(self).zero == old(self).zero,
            final(self).running ==> old(self).running,
            old(self).schedule_data is Some ==> final(self).schedule_data is Some,
    {
        let mut budget = self.channel_capacity;
        loop
            invariant
                self.wf(),
                self.max_block_frames == old(self).max_block_frames,
                self.zero == old(self).zero,
                self.running ==> old(self).running,
                old(self).schedule_data is Some ==> self.schedule_data is Some,
            decreases budget,
        {
            if budget == 0 {
                break;
            }
            budget -= 1;
            match channel_pop(&mut self.from_graph_rx) {
                None => {
                    break;
                },
                Some(msg) => match msg {
                    ContextToProcessorMsg::NewSchedule(new_data) => {
                        self.install_schedule(new_data);
                    },
                    ContextToProcessorMsg::Stop => {
                        self.running = false;
                    },
                },
            }
        }
    }

    /// Swap in a new schedule. The displaced schedule, together with the
    /// processors of nodes the new schedule removes, travels back to the
    /// control thread; the processors of newly activated nodes move into
    /// the node table.
    fn install_schedule(&mut self, new_data: Box<ScheduleHeapData<P, S>>)
        requires
            old(self).wf(),
        ensures
            final(self).wf(),
            final(self).max_block_frames == old(self).max_block_frames,
            final(self).zero == old(self).zero,
            final(self).running == old(self).running,
            old(self).schedule_data is Some ==> final(self).schedule_data is Some,
    {
        let mut new_data = new_data;
        if new_data.schedule.max_block_frames != self.max_block_frames
            || !new_data.schedule.check_wf() {
            // A schedule built for another block size cannot run here;
            // hand it straight back.
            match channel_push(
                &mut self.to_graph_tx,
                ProcessorToContextMsg::ReturnSchedule(new_data),
            ) {
                Ok(()) => {},
                Err(rejected) => {
                    // Last resort: the channel is full, drop it here.
                },
            }
            return;
        }
        let taken = self.schedule_data.take();
        if let Some(old_data) = taken {
            let mut old_data = old_data;
            core::mem::swap(
                &mut old_data.removed_node_processors,
                &mut new_data.removed_node_processors,
            );
            let mut i: usize = 0;
            while i < new_data.nodes_to_remove.len()
                invariant
                    0 <= i <= new_data.nodes_to_remove@.len(),
                    self.max_block_frames == old(self).max_block_frames,
                    self.zero == old(self).zero,
                    self.running == old(self).running,
                    self.max_block_frames >= 1,
                    self.schedule_data is None,
                    new_data.schedule.wf(),
                    new_data.schedule.max_block_frames == self.max_block_frames,
                decreases new_data.nodes_to_remove@.len() - i,
            {
                let id = new_data.nodes_to_remove[i];
                match self.nodes.remove(id.idx) {
                    Some(processor) => {
                        old_data.removed_node_processors.push((id, processor));
                    },
                    None => {},
                }
                i += 1;
            }
            match channel_push(
                &mut self.to_graph_tx,
                ProcessorToContextMsg::ReturnSchedule(old_data),
            ) {
                Ok(()) => {},
                Err(rejected) => {
                    // Last resort: the channel is full, drop it here.
                },
            }
        }
        while new_data.new_node_processors.len() > 0
            invariant
                self.max_block_frames == old(self).max_block_frames,
                self.zero == old(self).zero,
                self.running == old(self).running,
                self.max_block_frames >= 1,
                self.schedule_data is None,
                new_data.schedule.wf(),
                new_data.schedule.max_block_frames == self.max_block_frames,
            decreases new_data.new_node_processors@.len(),
        {
            let (id, processor) = new_data.new_node_processors.pop().unwrap();
            let displaced = self.nodes.insert_at(id.idx, processor);
        }
        self.schedule_data = Some(new_data);
    }

    /// Render one callback's worth of interleaved audio. With no schedule
    /// or zero frames the output is zeroed; after a stop request the
    /// whole output (not only the unrendered tail) is zeroed and
    /// `DropProcessor` is returned.
    pub fn process_interleaved(
        &mut self,
        input: &Vec<S>,
        output: &mut Vec<S>,
        num_in_channels: usize,
        num_out_channels: usize,
        frames: usize,
        stream_time_nanos: u64,
        stream_status: StreamStatus,
    ) -> (r: FirewheelProcessorStatus)
        requires
            old(self).wf(),
            input@.len() == frames * num_in_channels,
            old(output)@.len() == frames * num_out_channels,
        ensures
            final(self).wf(),
            final(output)@.len() == old(output)@.len(),
            r is DropProcessor <==> !final(self).running,
            !old(self).running ==> r is DropProcessor,
            frames == 0 ==> forall|i: int| 0 <= i < old(output)@.len() ==>
                (#[trigger] final(output)@[i]) == old(self).zero,
            old(self).schedule_data is None && final(self).schedule_data is None ==> forall|i: int|
                0 <= i < old(output)@.len() ==> (#[trigger] final(output)@[i]) == old(self).zero,
            r is DropProcessor ==> forall|i: int| 0 <= i < old(output)@.len() ==>
                (#[trigger] final(output)@[i]) == old(self).zero,
            // for a single-block call the rendered output is exactly the
            // interleaving of the graph output node's buffers, silent
            // buffers written as zeros
            r is Running && old(self).schedule_data is Some && 1 <= frames && frames <= old(
                self,
            ).max_block_frames ==> final(self).schedule_data is Some && ({
                let sched = final(self).schedule_data->Some_0.schedule;
                let ins = sched.schedule@[sched.graph_out_idx as int].input_buffers@;
                forall|f: int, ch: int|
                    #![trigger final(output)@[f * num_out_channels + ch]]
                    0 <= f < frames && 0 <= ch < num_out_channels ==> final(output)@[f
                        * num_out_channels + ch] == (if ch < ins.len() {
                        if sched.buffer_silence_flags@[ins[ch].buffer_index as int] {
                            sched.zero
                        } else {
                            sched.buffers@[ins[ch].buffer_index as int]@[f]
                        }
                    } else {
                        sched.zero
                    })
            }),
    {
        if !self.running {
            fill_zero(output, 0, output.len(), self.zero);
            return FirewheelProcessorStatus::DropProcessor;
        }

        if self.schedule_data.is_none() {
            self.poll_messages();
            if !self.running {
                fill_zero(output, 0, output.len(), self.zero);
                return FirewheelProcessorStatus::DropProcessor;
            }
        }

        if self.schedule_data.is_none() || frames == 0 {
            fill_zero(output, 0, output.len(), self.zero);
            return FirewheelProcessorStatus::Running;
        }

        let mut frames_processed: usize = 0;
        while frames_processed < frames
            invariant
                self.wf(),
                frames_processed <= frames,
                self.running,
                self.schedule_data is Some,
                self.max_block_frames == old(self).max_block_frames,
                self.zero == old(self).zero,
                input@.len() == frames * num_in_channels,
                output@.len() == frames * num_out_channels,
                output@.len() == old(output)@.len(),
                frames <= self.max_block_frames ==> frames_processed == 0 || frames_processed
                    >= frames,
                1 <= frames <= self.max_block_frames && frames_processed >= frames ==> ({
                    let sched = self.schedule_data->Some_0.schedule;
                    let ins = sched.schedule@[sched.graph_out_idx as int].input_buffers@;
                    forall|f: int, ch: int|
                        #![trigger output@[f * num_out_channels + ch]]
                        0 <= f < frames && 0 <= ch < num_out_channels ==> output@[f
                            * num_out_channels + ch] == (if ch < ins.len() {
                            if sched.buffer_silence_flags@[ins[ch].buffer_index as int] {
                                sched.zero
                            } else {
                                sched.buffers@[ins[ch].buffer_index as int]@[f]
                            }
                        } else {
                            sched.zero
                        })
                }),
            decreases frames - frames_processed,
        {
            let remaining = frames - frames_processed;
            let block = if remaining < self.max_block_frames {
                remaining
            } else {
                self.max_block_frames
            };
            proof {
                vstd::std_specs::vec::axiom_spec_len(input);
                vstd::std_specs::vec::axiom_spec_len(output);
                assert((frames_processed + block) * num_in_channels <= frames * num_in_channels)
                    by (nonlinear_arith)
                    requires
                        0 <= frames_processed,
                        0 <= block,
                        frames_processed + block <= frames,
                        num_in_channels >= 0,
                ;
                assert(frames_processed * num_in_channels + block * num_in_channels
                    == (frames_processed + block) * num_in_channels) by (nonlinear_arith);
                assert(frames_processed * num_in_channels >= 0) by (nonlinear_arith)
                    requires
                        frames_processed >= 0,
                        num_in_channels >= 0,
                ;
                assert((frames_processed + block) * num_out_channels <= frames * num_out_channels)
                    by (nonlinear_arith)
                    requires
                        0 <= frames_processed,
                        0 <= block,
                        frames_processed + block <= frames,
                        num_out_channels >= 0,
                ;
                assert(frames_processed * num_out_channels + block * num_out_channels
                    == (frames_processed + block) * num_out_channels) by (nonlinear_arith);
                assert(frames_processed * num_out_channels >= 0) by (nonlinear_arith)
                    requires
                        frames_processed >= 0,
                        num_out_channels >= 0,
                ;
            }

            self.poll_messages();
            if !self.running {
                fill_zero(output, 0, output.len(), self.zero);
                return FirewheelProcessorStatus::DropProcessor;
            }
            let in_base = frames_processed * num_in_channels;
            let out_base = frames_processed * num_out_channels;
            match self.schedule_data.as_mut() {
                Some(data) => {
                    let sched = &mut data.schedule;
                    sched.prepare_graph_inputs(block, num_in_channels, input, in_base);
                    let info = ProcInfo {
                        in_silence_mask: crate::SilenceMask(0),
                        stream_time_nanos,
                        stream_status,
                    };
                    sched.process(block, &mut self.nodes, info);
                    sched.read_graph_outputs(block, num_out_channels, output, out_base);
                },
                None => {
                    fill_zero(output, 0, output.len(), self.zero);
                    return FirewheelProcessorStatus::Running;
                },
            }
            proof {
                if 1 <= frames && frames <= self.max_block_frames {
                    assert(out_base == 0 && block == frames);
                    let sched = self.schedule_data->Some_0.schedule;
                    let ins = sched.schedule@[sched.graph_out_idx as int].input_buffers@;
                    assert forall|f: int, ch: int|
                        #![trigger output@[f * num_out_channels + ch]]
                        0 <= f < frames && 0 <= ch < num_out_channels implies output@[f
                            * num_out_channels + ch] == (if ch < ins.len() {
                            if sched.buffer_silence_flags@[ins[ch].buffer_index as int] {
                                sched.zero
                            } else {
                                sched.buffers@[ins[ch].buffer_index as int]@[f]
                            }
                        } else {
                            sched.zero
                        }) by {
                        assert(output@[out_base + f * num_out_channels + ch] == (
                        if ch < ins.len() {
                            if sched.buffer_silence_flags@[ins[ch].buffer_index as int] {
                                sched.zero
                            } else {
                                sched.buffers@[ins[ch].buffer_index as int]@[f]
                            }
                        } else {
                            sched.zero
                        }));
                    }
                }
            }
            frames_processed += block;
        }
        FirewheelProcessorStatus::Running
    }

    /// Tear the executor down: everything it owns travels back to the
    /// control thread for deallocation, as far as the channel allows.
    pub fn finish(self)
    {
        let FirewheelProcessor {
            nodes,
            schedule_data,
            from_graph_rx,
            mut to_graph_tx,
            running,
            max_block_frames,
            channel_capacity,
            zero,
        } = self;
        match channel_push(
            &mut to_graph_tx,
            ProcessorToContextMsg::Dropped { nodes, schedule_data },
        ) {
            Ok(()) => {},
            Err(rejected) => {
                // Last resort: the control side is gone, drop everything
                // here.
            },
        }
    }
}

/// Overwrite `v[from..to]` with `zero`.
pub(crate) fn fill_zero<S: Sample>(v: &mut Vec<S>, from: usize, to: usize, zero: S)
    requires
        from <= to <= old(v)@.len(),
    ensures
        final(v)@.len() == old(v)@.len(),
        forall|i: int| from <= i < to ==> (#[trigger] final(v)@[i]) == zero,
        forall|i: int| 0 <= i < old(v)@.len() && !(from <= i < to) ==>
            (#[trigger] final(v)@[i]) == old(v)@[i],
{
    let mut i = from;
    while i < to
        invariant
            from <= i <= to <= v@.len(),
            v@.len() == old(v)@.len(),
            forall|x: int| from <= x < i ==> (#[trigger] v@[x]) == zero,
            forall|x: int| 0 <= x < old(v)@.len() && !(from <= x < i) ==>
                (#[trigger] v@[x]) == old(v)@[x],
        decreases to - i,
    {
        v[i] = zero;
        i += 1;
    }
}

} // verus!
