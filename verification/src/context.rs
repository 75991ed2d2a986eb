//! The control-plane context: owns the graph, compiles it when it has
//! changed, ships schedules to the executor over a bounded queue, and
//! reclaims everything the executor sends back so that all deallocation
//! happens on the control thread.

use vstd::prelude::*;

use crate::arena::Slab;
use crate::graph::{AudioGraph, AudioGraphConfig, NodeEntry, NodeID, NodeWeight};
use crate::node::{AudioNode, Sample};
use crate::processor::{
    channel_new, channel_push, channel_pop, ContextToProcessorMsg, FirewheelProcessor,
    ProcessorToContextMsg,
};
use crate::schedule::{CompileGraphError, ScheduleHeapData};

verus! {

/// Configuration for a [`FirewheelGraphCtx`]. The message channel
/// capacity bounds how many schedules can be in flight to the executor
/// at once.
#[derive(Debug, Clone, Copy, PartialEq, Eq, Structural)]
pub struct Config {
    pub num_graph_inputs: u32,
    pub num_graph_outputs: u32,
    pub max_block_frames: usize,
    pub initial_node_capacity: usize,
    pub initial_edge_capacity: usize,
    pub message_channel_capacity: usize,
}

impl Default for Config {
    /// No stream inputs, stereo output, blocks of 256 frames and a
    /// message channel of 256 entries.
    fn default() -> (r: Self)
        ensures
            r.num_graph_inputs == 0,
            r.num_graph_outputs == 2,
            r.max_block_frames == 256,
            r.message_channel_capacity == 256,
    {
        Config {
            num_graph_inputs: 0,
            num_graph_outputs: 2,
            max_block_frames: 256,
            initial_node_capacity: 64,
            initial_edge_capacity: 256,
            message_channel_capacity: 256,
        }
    }
}

/// What [`FirewheelGraphCtx::update`] reports.
#[derive(Debug)]
pub enum UpdateStatus {
    /// The context has no executor.
    Inactive,
    /// The context is active; a compile error, if any, is surfaced.
    Active { graph_error: Option<CompileGraphError> },
    /// The executor announced its teardown; the context is now inactive.
    Deactivated,
}

/// The channel endpoints and stream parameters of an active context.
#[verifier::reject_recursive_types(P)]
#[verifier::reject_recursive_types(S)]
pub struct ActiveState<P, S> {
    pub to_executor_tx: rtrb::Producer<ContextToProcessorMsg<P, S>>,
    pub from_executor_rx: rtrb::Consumer<ProcessorToContextMsg<P, S>>,
    pub sample_rate: u32,
}

/// The control half of the engine: the graph plus, when a stream runs,
/// the channel endpoints to its executor.
#[verifier::reject_recursive_types(P)]
#[verifier::reject_recursive_types(S)]
pub struct FirewheelGraphCtx<N, P, S> {
    pub graph: AudioGraph<N>,
    pub active_state: Option<ActiveState<P, S>>,
    pub config: Config,
    pub zero: S,
}

impl<N, P, S: Sample> FirewheelGraphCtx<N, P, S> where N: AudioNode<P>, P: crate::node::AudioNodeProcessor<S> {
    /// The context invariants: the graph's, plus a usable configuration.
    pub open spec fn wf(&self) -> bool {
        &&& self.graph.wf()
        &&& self.config.max_block_frames >= 1
        &&& self.config.message_channel_capacity >= 1
    }

    /// Build an inactive context around a fresh graph holding only the
    /// two sentinels. The caller supplies the sentinel payloads and the
    /// zero sample.
    pub fn new(config: Config, zero: S, graph_in_node: N, graph_out_node: N) -> (r: Self)
        requires
            config.num_graph_inputs <= 64,
            config.num_graph_outputs <= 64,
            config.max_block_frames >= 1,
            config.message_channel_capacity >= 1,
        ensures
            r.wf(),
            r.active_state is None,
            r.config == config,
            r.graph.node_count() == 2,
            r.graph.edge_count() == 0,
    {
        let graph = AudioGraph::new(
            &AudioGraphConfig {
                num_graph_inputs: config.num_graph_inputs,
                num_graph_outputs: config.num_graph_outputs,
                initial_node_capacity: config.initial_node_capacity,
                initial_edge_capacity: config.initial_edge_capacity,
            },
            graph_in_node,
            graph_out_node,
        );
        FirewheelGraphCtx { graph, active_state: None, config, zero }
    }

    /// Whether an executor currently exists.
    pub fn is_activated(&self) -> (r: bool)
        ensures
            r == (self.active_state is Some),
    {
        self.active_state.is_some()
    }

    /// Create the executor and the two message channels. Returns `None`
    /// if the context is already active.
    pub fn activate(&mut self, sample_rate: u32) -> (r: Option<FirewheelProcessor<P, S>>)
        requires
            old(self).wf(),
            sample_rate >= 1,
        ensures
            final(self).wf(),
            old(self).active_state is Some ==> r is None && *final(self) == *old(self),
            old(self).active_state is None ==> r is Some && final(self).active_state is Some,
    {
        if self.active_state.is_some() {
            return None;
        }
        let capacity = self.config.message_channel_capacity;
        let (to_executor_tx, from_graph_rx) = channel_new::<ContextToProcessorMsg<P, S>>(capacity);
        let (to_graph_tx, from_executor_rx) = channel_new::<ProcessorToContextMsg<P, S>>(capacity);
        self.active_state = Some(ActiveState { to_executor_tx, from_executor_rx, sample_rate });
        Some(
            FirewheelProcessor::new(
                from_graph_rx,
                to_graph_tx,
                self.config.max_block_frames,
                capacity,
                self.zero,
            ),
        )
    }

    /// Service the context: reclaim whatever the executor sent back, and
    /// if the graph changed, compile it and ship the new schedule. When
    /// the channel is full the schedule is reclaimed immediately, as if
    /// the compile had not happened. Reports a teardown observed from the
    /// executor as `Deactivated`.
    pub fn update(&mut self) -> (r: UpdateStatus)
        requires
            old(self).wf(),
        ensures
            final(self).wf(),
            old(self).active_state is None <==> r is Inactive,
            r is Deactivated ==> final(self).active_state is None,
            r is Active ==> final(self).active_state is Some,
            // a reported cycle is a real cycle in the graph as left
            // behind, and a clean active report means nothing was left to
            // compile
            r matches UpdateStatus::Active { graph_error } ==> ((graph_error matches Some(e)
                ==> (e is CycleDetected ==> !final(self).graph.schedulable())) && (graph_error
                is None ==> !final(self).graph.needs_compile)),
    {
        if self.active_state.is_none() {
            return UpdateStatus::Inactive;
        }
        let dropped = self.drain_executor_messages();
        if dropped {
            self.graph.deactivate_nodes::<P>();
            self.active_state = None;
            return UpdateStatus::Deactivated;
        }

        if self.graph.needs_compile() {
            let sample_rate = match &self.active_state {
                Some(state) => state.sample_rate,
                None => 1,
            };
            let sample_rate = if sample_rate >= 1 {
                sample_rate
            } else {
                1
            };
            let compiled = self.graph.compile::<P, S>(
                sample_rate,
                self.config.max_block_frames,
                self.zero,
            );
            match compiled {
                Ok(data) => {
                    match &mut self.active_state {
                        Some(state) => {
                            let push_result = channel_push(
                                &mut state.to_executor_tx,
                                ContextToProcessorMsg::NewSchedule(Box::new(data)),
                            );
                            match push_result {
                                Ok(()) => {},
                                Err(msg) => {
                                    // The channel is full: reclaim the
                                    // schedule as if it had come back.
                                    match msg {
                                        ContextToProcessorMsg::NewSchedule(data) => {
                                            self.graph.on_schedule_returned(data);
                                            return UpdateStatus::Active {
                                                graph_error: Some(
                                                    CompileGraphError::MessageChannelFull,
                                                ),
                                            };
                                        },
                                        ContextToProcessorMsg::Stop => {},
                                    }
                                },
                            }
                        },
                        None => {},
                    }
                },
                Err(e) => {
                    return UpdateStatus::Active { graph_error: Some(e) };
                },
            }
        }
        UpdateStatus::Active { graph_error: None }
    }

    /// Drain the executor-to-control queue, reclaiming returned payloads.
    /// Returns whether a teardown message was seen.
    fn drain_executor_messages(&mut self) -> (r: bool)
        requires
            old(self).wf(),
        ensures
            final(self).wf(),
            final(self).active_state is Some == (old(self).active_state is Some),
            final(self).config == old(self).config,
    {
        let mut dropped = false;
        let mut budget = self.config.message_channel_capacity;
        loop
            invariant
                self.wf(),
                self.active_state is Some == (old(self).active_state is Some),
                self.config == old(self).config,
            decreases budget,
        {
            if budget == 0 {
                break;
            }
            budget -= 1;
            let msg = match &mut self.active_state {
                Some(state) => channel_pop(&mut state.from_executor_rx),
                None => None,
            };
            match msg {
                None => {
                    break;
                },
                Some(ProcessorToContextMsg::ReturnSchedule(data)) => {
                    self.graph.on_schedule_returned(data);
                },
                Some(ProcessorToContextMsg::Dropped { nodes, schedule_data }) => {
                    self.graph.on_processor_dropped(nodes);
                    dropped = true;
                },
            }
        }
        dropped
    }

    /// Ask the executor to stop. Returns whether the request could be
    /// queued; the caller polls [`FirewheelGraphCtx::poll_deactivate`]
    /// until the executor acknowledges, and gives up after its own
    /// timeout with [`FirewheelGraphCtx::force_deactivate`].
    pub fn start_deactivate(&mut self) -> (r: bool)
        requires
            old(self).wf(),
        ensures
            final(self).wf(),
            old(self).active_state is None ==> r,
    {
        match &mut self.active_state {
            Some(state) => {
                match channel_push(&mut state.to_executor_tx, ContextToProcessorMsg::Stop) {
                    Ok(()) => true,
                    Err(msg) => false,
                }
            },
            None => true,
        }
    }

    /// One polling step of an orderly shutdown: drain the executor's
    /// messages; once its teardown message arrives, finalise every node
    /// and go inactive. Returns whether the shutdown completed.
    pub fn poll_deactivate(&mut self) -> (r: bool)
        requires
            old(self).wf(),
        ensures
            final(self).wf(),
            r ==> final(self).active_state is None,
            old(self).active_state is None ==> r,
    {
        if self.active_state.is_none() {
            return true;
        }
        let dropped = self.drain_executor_messages();
        if dropped {
            self.graph.deactivate_nodes::<P>();
            self.active_state = None;
            true
        } else {
            false
        }
    }

    /// Abandon the executor after a timeout: finalise every node and go
    /// inactive without waiting for the teardown message.
    pub fn force_deactivate(&mut self)
        requires
            old(self).wf(),
        ensures
            final(self).wf(),
            final(self).active_state is None,
    {
        self.graph.deactivate_nodes::<P>();
        self.active_state = None;
    }
}

impl<N> AudioGraph<N> {
    /// Whether some entry of the pending-removal list carries `id`.
    pub open spec fn pending_has_id(
        list: Seq<(NodeID, NodeEntry<NodeWeight<N>>)>,
        id: NodeID,
    ) -> bool
        decreases list.len(),
    {
        if list.len() == 0 {
            false
        } else {
            list.last().0 == id || Self::pending_has_id(list.drop_last(), id)
        }
    }

    /// Every entry's own id is in the list.
    proof fn lemma_pending_has_at(list: Seq<(NodeID, NodeEntry<NodeWeight<N>>)>, m: int)
        requires
            0 <= m < list.len(),
        ensures
            Self::pending_has_id(list, list[m].0),
        decreases list.len(),
    {
        if m < list.len() - 1 {
            Self::lemma_pending_has_at(list.drop_last(), m);
        }
    }

    /// Reclaim a schedule the executor handed back: every processor it
    /// carries is reunited with its control-side node, which finalises it
    /// and is left inactive; a node that is still present and was active
    /// goes back on the activation queue. A processor whose node was
    /// awaiting removal finalises that pending entry instead. Nodes never
    /// become active here.
    pub fn on_schedule_returned<P, S>(&mut self, data: Box<ScheduleHeapData<P, S>>)
        where N: AudioNode<P>
        requires
            old(self).wf(),
        ensures
            final(self).wf(),
            forall|j: NodeID| #![trigger final(self).has_node(j)] #![trigger old(self).has_node(j)]
                final(self).has_node(j) == old(self).has_node(j),
            forall|j: NodeID| final(self).has_node(j)
                && (#[trigger] final(self).node_of(j)).weight.activated ==>
                old(self).node_of(j).weight.activated,
            old(self).needs_compile ==> final(self).needs_compile,
            // every returned processor leaves its node inactive, unless
            // the node was awaiting removal
            forall|i: int|
                0 <= i < data.removed_node_processors@.len() ==> ((final(self).has_node(
                    (#[trigger] data.removed_node_processors@[i]).0,
                ) && final(self).node_of(data.removed_node_processors@[i].0).weight.activated)
                    ==> Self::pending_has_id(
                    old(self).active_nodes_to_remove@,
                    data.removed_node_processors@[i].0,
                )),
    {
        let ghost orig: Seq<(NodeID, P)> = data.removed_node_processors@;
        let ghost orig_pending = old(self).active_nodes_to_remove@;
        proof {
            assert(orig.take(orig.len() as int) =~= orig);
            assert forall|m: int|
                #![trigger self.active_nodes_to_remove@[m]]
                0 <= m < self.active_nodes_to_remove@.len() implies Self::pending_has_id(
                orig_pending,
                self.active_nodes_to_remove@[m].0,
            ) by {
                Self::lemma_pending_has_at(orig_pending, m);
            }
        }
        let mut data = data;
        while data.removed_node_processors.len() > 0
            invariant
                self.wf(),
                data.removed_node_processors@ == orig.take(
                    data.removed_node_processors@.len() as int,
                ),
                data.removed_node_processors@.len() <= orig.len(),
                forall|j: NodeID| #![trigger self.has_node(j)] #![trigger old(self).has_node(j)]
                    self.has_node(j) == old(self).has_node(j),
                forall|j: NodeID| self.has_node(j)
                    && (#[trigger] self.node_of(j)).weight.activated ==>
                    old(self).node_of(j).weight.activated,
                old(self).needs_compile ==> self.needs_compile,
                forall|m: int|
                    #![trigger self.active_nodes_to_remove@[m]]
                    0 <= m < self.active_nodes_to_remove@.len() ==> Self::pending_has_id(
                        orig_pending,
                        self.active_nodes_to_remove@[m].0,
                    ),
                forall|i: int|
                    data.removed_node_processors@.len() as int <= i < orig.len() ==> ((
                    self.has_node((#[trigger] orig[i]).0) && self.node_of(
                        orig[i].0,
                    ).weight.activated) ==> Self::pending_has_id(orig_pending, orig[i].0)),
            decreases data.removed_node_processors@.len(),
        {
            let ghost pre_list = data.removed_node_processors@;
            let (node_id, processor) = data.removed_node_processors.pop().unwrap();
            proof {
                assert(pre_list == orig.take(pre_list.len() as int));
                assert(orig[pre_list.len() - 1] == (node_id, processor));
                assert(data.removed_node_processors@ =~= orig.take(
                    data.removed_node_processors@.len() as int,
                ));
            }
            let ghost before: Self = *self;
            // A node that was removed from the graph waits in
            // `active_nodes_to_remove` for its processor to come home.
            let mut found: Option<usize> = None;
            let mut i: usize = 0;
            while i < self.active_nodes_to_remove.len()
                invariant
                    i <= self.active_nodes_to_remove@.len(),
                    found matches Some(j) ==> j < self.active_nodes_to_remove@.len()
                        && self.active_nodes_to_remove@[j as int].0 == node_id,
                decreases self.active_nodes_to_remove@.len() - i,
            {
                if found.is_none() {
                    if self.active_nodes_to_remove[i].0 == node_id {
                        found = Some(i);
                    }
                }
                i += 1;
            }
            match found {
                Some(j) => {
                    proof {
                        assert(self.active_nodes_to_remove@[j as int].0 == node_id);
                        assert(Self::pending_has_id(orig_pending, node_id));
                    }
                    let ghost pre_pending = self.active_nodes_to_remove@;
                    let (removed_id, mut entry) = self.active_nodes_to_remove.remove(j);
                    entry.weight.node.deactivate(Some(processor));
                    proof {
                        self.lemma_wf_stable_under_bookkeeping(before);
                        assert forall|m: int|
                            #![trigger self.active_nodes_to_remove@[m]]
                            0 <= m < self.active_nodes_to_remove@.len() implies
                            Self::pending_has_id(
                            orig_pending,
                            self.active_nodes_to_remove@[m].0,
                        ) by {
                            if m < j {
                                assert(self.active_nodes_to_remove@[m] == pre_pending[m]);
                            } else {
                                assert(self.active_nodes_to_remove@[m] == pre_pending[m + 1]);
                            }
                        }
                        assert forall|j2: NodeID| #![trigger self.has_node(j2)] #![trigger old(self).has_node(j2)]
                            self.has_node(j2) == old(self).has_node(j2) by {
                            assert(self.nodes.valid(j2.idx) == before.nodes.valid(j2.idx));
                            assert(before.has_node(j2) == old(self).has_node(j2));
                        }
                        assert forall|j2: NodeID| self.has_node(j2)
                            && (#[trigger] self.node_of(j2)).weight.activated implies
                            old(self).node_of(j2).weight.activated by {
                            assert(before.has_node(j2));
                            assert(self.node_of(j2) == before.node_of(j2));
                        }
                    }
                },
                None => {
                    let mut reactivate = false;
                    if let Some(entry) = self.nodes.get_mut(node_id.idx) {
                        if entry.weight.activated {
                            entry.weight.node.deactivate(Some(processor));
                            entry.weight.activated = false;
                            reactivate = true;
                        }
                    }
                    proof {
                        self.lemma_same_shape_after_weight_change(before);
                        assert forall|j: NodeID| #![trigger self.has_node(j)] #![trigger old(self).has_node(j)]
                            self.has_node(j) == old(self).has_node(j) by {
                            assert(self.nodes.valid(j.idx) == before.nodes.valid(j.idx));
                            assert(before.has_node(j) == old(self).has_node(j));
                        }
                        assert forall|j: NodeID| self.has_node(j)
                            && (#[trigger] self.node_of(j)).weight.activated implies
                            old(self).node_of(j).weight.activated by {
                            if j.idx == node_id.idx {
                            } else {
                                assert(before.has_node(j));
                                assert(self.node_of(j) == before.node_of(j));
                            }
                        }
                        assert(self.has_node(node_id) ==> !self.node_of(
                            node_id,
                        ).weight.activated);
                        assert(self.active_nodes_to_remove@ == before.active_nodes_to_remove@);
                    }
                    if reactivate {
                        let ghost mid: Self = *self;
                        self.nodes_to_activate.push(node_id);
                        self.needs_compile = true;
                        proof {
                            self.lemma_wf_stable_under_bookkeeping(mid);
                            assert(self.active_nodes_to_remove@
                                == mid.active_nodes_to_remove@);
                            assert forall|j2: NodeID| #![trigger self.has_node(j2)] #![trigger old(self).has_node(j2)]
                                self.has_node(j2) == old(self).has_node(j2) by {
                                assert(self.nodes.valid(j2.idx) == mid.nodes.valid(j2.idx));
                                assert(mid.has_node(j2) == old(self).has_node(j2));
                            }
                            assert forall|j2: NodeID| self.has_node(j2)
                                && (#[trigger] self.node_of(j2)).weight.activated implies
                                old(self).node_of(j2).weight.activated by {
                                assert(mid.has_node(j2));
                                assert(self.node_of(j2) == mid.node_of(j2));
                            }
                        }
                    }
                },
            }
            proof {
                assert forall|i2: int|
                    data.removed_node_processors@.len() as int <= i2 < orig.len() implies ((
                    self.has_node((#[trigger] orig[i2]).0) && self.node_of(
                        orig[i2].0,
                    ).weight.activated) ==> Self::pending_has_id(orig_pending, orig[i2].0)) by {
                    if i2 >= pre_list.len() {
                        // carried from the previous iterations: the node
                        // has not become active since
                        if self.has_node(orig[i2].0) && self.node_of(
                            orig[i2].0,
                        ).weight.activated {
                            assert(before.has_node(orig[i2].0));
                            assert(before.node_of(orig[i2].0).weight.activated);
                        }
                    }
                }
            }
        }
        proof {
            assert(orig.take(0) =~= Seq::<(NodeID, P)>::empty());
        }
    }

    /// Reclaim the executor's node table after its teardown: every
    /// processor still inside is handed to its control-side node, which
    /// is left inactive. Nodes never become active here.
    pub fn on_processor_dropped<P>(&mut self, nodes: Slab<P>)
        where N: AudioNode<P>
        requires
            old(self).wf(),
        ensures
            final(self).wf(),
            forall|j: NodeID| #![trigger final(self).has_node(j)] #![trigger old(self).has_node(j)]
                final(self).has_node(j) == old(self).has_node(j),
            forall|j: NodeID| final(self).has_node(j)
                && (#[trigger] final(self).node_of(j)).weight.activated ==>
                old(self).node_of(j).weight.activated,
            forall|j: NodeID| final(self).has_node(j) && j.idx.slot < nodes.slots@.len()
                && (#[trigger] nodes.slots@[j.idx.slot as int]).value is Some ==>
                !final(self).node_of(j).weight.activated,
    {
        let ghost orig_slots = nodes.slots@;
        let mut nodes = nodes;
        let n_slots = nodes.slot_count();
        let mut s: usize = 0;
        while s < n_slots
            invariant
                self.wf(),
                s <= n_slots,
                n_slots == orig_slots.len(),
                nodes.slots@.len() == orig_slots.len(),
                forall|t: int| s <= t < orig_slots.len() ==>
                    (#[trigger] nodes.slots@[t]) == orig_slots[t],
                forall|j: NodeID| #![trigger self.has_node(j)] #![trigger old(self).has_node(j)]
                    self.has_node(j) == old(self).has_node(j),
                forall|j: NodeID| self.has_node(j)
                    && (#[trigger] self.node_of(j)).weight.activated ==>
                    old(self).node_of(j).weight.activated,
                forall|j: NodeID| self.has_node(j) && j.idx.slot < s
                    && (#[trigger] orig_slots[j.idx.slot as int]).value is Some ==>
                    !self.node_of(j).weight.activated,
            decreases n_slots - s,
        {
            let taken = nodes.take_at_slot(s);
            match taken {
                Some(processor) => {
                    let ghost before: Self = *self;
                    let id_here = self.nodes.index_at(s);
                    match id_here {
                        Some(idx) => {
                            if let Some(entry) = self.nodes.get_mut(idx) {
                                if entry.weight.activated {
                                    entry.weight.node.deactivate(Some(processor));
                                }
                                entry.weight.activated = false;
                            }
                        },
                        None => {},
                    }
                    proof {
                        self.lemma_same_shape_after_weight_change(before);
                        assert forall|j: NodeID| #![trigger self.has_node(j)] #![trigger old(self).has_node(j)]
                            self.has_node(j) == old(self).has_node(j) by {
                            assert(self.nodes.valid(j.idx) == before.nodes.valid(j.idx));
                            assert(before.has_node(j) == old(self).has_node(j));
                        }
                        assert forall|j: NodeID| self.has_node(j)
                            && (#[trigger] self.node_of(j)).weight.activated implies
                            old(self).node_of(j).weight.activated by {
                            if id_here matches Some(idx2) && j.idx == idx2 {
                            } else {
                                assert(before.has_node(j));
                                assert(self.node_of(j) == before.node_of(j));
                            }
                        }
                        assert forall|j: NodeID| self.has_node(j) && j.idx.slot < s + 1
                            && (#[trigger] orig_slots[j.idx.slot as int]).value is Some implies
                            !self.node_of(j).weight.activated by {
                            if j.idx.slot < s {
                                assert(before.has_node(j));
                                assert(self.node_of(j) == before.node_of(j));
                            } else {
                                assert(id_here matches Some(idx2) && j.idx == idx2);
                            }
                        }
                    }
                },
                None => {
                    proof {
                        assert forall|j: NodeID| self.has_node(j) && j.idx.slot < s + 1
                            && (#[trigger] orig_slots[j.idx.slot as int]).value is Some implies
                            !self.node_of(j).weight.activated by {
                            assert(j.idx.slot != s);
                        }
                    }
                },
            }
            s += 1;
        }
    }

    /// Put every node back in the inactive state, finalising without a
    /// processor, and queue all of them for reactivation on the next
    /// compile.
    pub fn deactivate_nodes<P>(&mut self)
        where N: AudioNode<P>
        requires
            old(self).wf(),
        ensures
            final(self).wf(),
            forall|j: NodeID| #![trigger final(self).has_node(j)] #![trigger old(self).has_node(j)]
                final(self).has_node(j) == old(self).has_node(j),
            forall|j: NodeID| final(self).has_node(j) ==>
                !(#[trigger] final(self).node_of(j)).weight.activated,
            final(self).active_nodes_to_remove@.len() == 0,
            final(self).nodes_to_remove_from_schedule@.len() == 0,
            final(self).needs_compile,
    {
        let ghost pre: Self = *self;
        self.needs_compile = true;
        proof {
            self.lemma_wf_stable_under_bookkeeping(pre);
        }
        let n_slots = self.nodes.slot_count();
        let mut s: usize = 0;
        while s < n_slots
            invariant
                self.wf(),
                s <= n_slots,
                n_slots == self.nodes.num_slots(),
                self.needs_compile,
                forall|j: NodeID| #![trigger self.has_node(j)] #![trigger old(self).has_node(j)]
                    self.has_node(j) == old(self).has_node(j),
                forall|j: NodeID| #[trigger] self.has_node(j) && j.idx.slot < s ==>
                    !self.node_of(j).weight.activated,
            decreases n_slots - s,
        {
            let ghost before: Self = *self;
            let id_here = self.nodes.index_at(s);
            match id_here {
                Some(idx) => {
                    let id = NodeID { idx };
                    if let Some(entry) = self.nodes.get_mut(idx) {
                        if entry.weight.activated {
                            entry.weight.node.deactivate(None::<P>);
                        }
                        entry.weight.activated = false;
                    }
                    self.nodes_to_activate.push(id);
                    proof {
                        self.lemma_same_shape_after_weight_change(before);
                        assert forall|j: NodeID| #![trigger self.has_node(j)] #![trigger old(self).has_node(j)]
                            self.has_node(j) == old(self).has_node(j) by {
                            assert(self.nodes.valid(j.idx) == before.nodes.valid(j.idx));
                            assert(before.has_node(j) == old(self).has_node(j));
                        }
                        assert forall|j: NodeID| #[trigger] self.has_node(j) && j.idx.slot < s + 1
                            implies !self.node_of(j).weight.activated by {
                            if j.idx.slot < s {
                                assert(j.idx != idx);
                                assert(before.has_node(j));
                                assert(self.node_of(j) == before.node_of(j));
                            } else {
                                assert(j.idx == idx);
                            }
                        }
                    }
                },
                None => {
                    proof {
                        assert forall|j: NodeID| #[trigger] self.has_node(j) && j.idx.slot < s + 1
                            implies !self.node_of(j).weight.activated by {
                            assert(j.idx.slot != s);
                        }
                    }
                },
            }
            s += 1;
        }
        let ghost before3: Self = *self;
        self.active_nodes_to_remove = Vec::new();
        self.nodes_to_remove_from_schedule = Vec::new();
        proof {
            self.lemma_wf_stable_under_bookkeeping(before3);
            assert forall|j: NodeID| self.has_node(j) implies
                !(#[trigger] self.node_of(j)).weight.activated by {
                assert(j.idx.slot < n_slots);
                assert(before3.has_node(j) && !before3.node_of(j).weight.activated);
            }
        }
    }

    /// The graph invariants ignore the bookkeeping lists and flags, so
    /// changing those cannot break them.
    proof fn lemma_wf_stable_under_bookkeeping(&self, pre: Self)
        requires
            pre.wf(),
            self.nodes == pre.nodes,
            self.edges == pre.edges,
            self.graph_in_id == pre.graph_in_id,
            self.graph_out_id == pre.graph_out_id,
        ensures
            self.wf(),
    {
        assert(pre.has_node(self.graph_in_id));
        assert(pre.has_node(self.graph_out_id));
        assert forall|id: NodeID| #[trigger] self.has_node(id) implies self.node_of(id).id == id
            && self.node_of(id).num_inputs <= crate::graph::MAX_PORTS
            && self.node_of(id).num_outputs <= crate::graph::MAX_PORTS by {
            assert(pre.has_node(id));
        }
        assert forall|eid: crate::graph::EdgeID| #[trigger] self.has_edge_id(eid) implies
            self.edge_of(eid).id == eid && self.edge_ok(self.edge_of(eid)) by {
            assert(pre.has_edge_id(eid));
            let e = self.edge_of(eid);
            assert(pre.edge_ok(e));
            assert(pre.has_node(e.src_node) && pre.has_node(e.dst_node));
        }
        assert forall|e1: crate::graph::EdgeID, e2: crate::graph::EdgeID|
            #[trigger] self.has_edge_id(e1) && #[trigger] self.has_edge_id(e2) && e1 != e2
            implies !(self.edge_of(e1).dst_node == self.edge_of(e2).dst_node
                && self.edge_of(e1).dst_port == self.edge_of(e2).dst_port) by {
            assert(pre.has_edge_id(e1));
            assert(pre.has_edge_id(e2));
        }
    }
}

} // verus!
