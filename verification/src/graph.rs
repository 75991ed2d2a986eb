//! The audio graph store: an arena of nodes, an arena of edges, and the
//! mutation API. Every successful mutation preserves the graph invariants:
//! edges connect live, distinct nodes through in-range ports, and at most
//! one edge terminates at any given input port.

use vstd::prelude::*;

use crate::arena::{Arena, ArenaIndex};

verus! {

/// A globally unique, stable identifier for a node.
#[derive(Debug, Clone, Copy, PartialEq, Eq, Hash, Structural)]
pub struct NodeID {
    pub idx: ArenaIndex,
}

/// A globally unique, stable identifier for an edge.
#[derive(Debug, Clone, Copy, PartialEq, Eq, Hash, Structural)]
pub struct EdgeID(pub ArenaIndex);

/// The index of an input port on a node.
#[derive(Debug, Clone, Copy, PartialEq, Eq, Hash, Structural)]
pub struct InPortIdx(pub u32);

/// The index of an output port on a node.
#[derive(Debug, Clone, Copy, PartialEq, Eq, Hash, Structural)]
pub struct OutPortIdx(pub u32);

/// A connection from an output port of a source node to an input port of
/// a destination node.
#[derive(Debug, Clone, Copy, PartialEq, Eq, Structural)]
pub struct Edge {
    pub id: EdgeID,
    pub src_node: NodeID,
    pub src_port: OutPortIdx,
    pub dst_node: NodeID,
    pub dst_port: InPortIdx,
}

/// The maximum number of input or output ports a node may have.
pub const MAX_PORTS: u32 = 64;

/// The control-side payload of a node: the user's node object plus the
/// flag saying whether its realtime processor is currently active.
pub struct NodeWeight<N> {
    pub node: N,
    pub activated: bool,
}

/// A node stored in the graph: its identifier, port counts and payload.
pub struct NodeEntry<N> {
    pub id: NodeID,
    pub num_inputs: u32,
    pub num_outputs: u32,
    pub weight: N,
}

/// Configuration for constructing an [`AudioGraph`].
#[derive(Debug, Clone, Copy, PartialEq, Eq, Structural)]
pub struct AudioGraphConfig {
    pub num_graph_inputs: u32,
    pub num_graph_outputs: u32,
    pub initial_node_capacity: usize,
    pub initial_edge_capacity: usize,
}

/// The reason an edge could not be added to the graph.
#[derive(Debug, Clone, Copy, PartialEq, Eq, Structural)]
pub enum AddEdgeError {
    /// The given source node was not found in the graph.
    SrcNodeNotFound(NodeID),
    /// The given destination node was not found in the graph.
    DstNodeNotFound(NodeID),
    /// The given output port index is out of range.
    OutPortOutOfRange { node: NodeID, port_idx: OutPortIdx, num_out_ports: u32 },
    /// The given input port index is out of range.
    InPortOutOfRange { node: NodeID, port_idx: InPortIdx, num_in_ports: u32 },
    /// An edge with the same endpoints and ports already exists.
    EdgeAlreadyExists,
    /// The input port already has an edge terminating at it.
    InputPortAlreadyConnected(NodeID, InPortIdx),
    /// Adding this edge would have created a cycle.
    CycleDetected,
}

/// The audio graph store, generic over the user's node type `N`.
pub struct AudioGraph<N> {
    pub nodes: Arena<NodeEntry<NodeWeight<N>>>,
    pub edges: Arena<Edge>,
    pub graph_in_id: NodeID,
    pub graph_out_id: NodeID,
    pub needs_compile: bool,
    pub nodes_to_remove_from_schedule: Vec<NodeID>,
    pub nodes_to_activate: Vec<NodeID>,
    pub active_nodes_to_remove: Vec<(NodeID, NodeEntry<NodeWeight<N>>)>,
}

impl<N> AudioGraph<N> {
    /// Whether `id` names a live node.
    pub open spec fn has_node(&self, id: NodeID) -> bool {
        self.nodes.valid(id.idx)
    }

    /// The entry of a live node.
    pub open spec fn node_of(&self, id: NodeID) -> NodeEntry<NodeWeight<N>> {
        self.nodes.value_of(id.idx)
    }

    /// Whether `eid` names a live edge.
    pub open spec fn has_edge_id(&self, eid: EdgeID) -> bool {
        self.edges.valid(eid.0)
    }

    /// The edge named by a live edge id.
    pub open spec fn edge_of(&self, eid: EdgeID) -> Edge {
        self.edges.value_of(eid.0)
    }

    /// The number of live nodes.
    pub open spec fn node_count(&self) -> nat {
        self.nodes.len()
    }

    /// The number of live edges.
    pub open spec fn edge_count(&self) -> nat {
        self.edges.len()
    }

    /// Whether an edge value is consistent with the live nodes: both
    /// endpoints exist, they differ, and the ports are in range.
    pub open spec fn edge_ok(&self, e: Edge) -> bool {
        &&& self.has_node(e.src_node)
        &&& self.has_node(e.dst_node)
        &&& e.src_node != e.dst_node
        &&& e.src_port.0 < self.node_of(e.src_node).num_outputs
        &&& e.dst_port.0 < self.node_of(e.dst_node).num_inputs
    }

    /// Whether a live edge with exactly these endpoints and ports exists.
    pub open spec fn spec_edge_exists(
        &self,
        src_node: NodeID,
        src_port: OutPortIdx,
        dst_node: NodeID,
        dst_port: InPortIdx,
    ) -> bool {
        exists|eid: EdgeID| #[trigger] self.has_edge_id(eid) && self.edge_of(eid).src_node == src_node
            && self.edge_of(eid).src_port == src_port && self.edge_of(eid).dst_node == dst_node
            && self.edge_of(eid).dst_port == dst_port
    }

    /// Whether some live edge terminates at the given input port.
    pub open spec fn spec_port_connected(&self, dst_node: NodeID, dst_port: InPortIdx) -> bool {
        exists|eid: EdgeID| #[trigger] self.has_edge_id(eid) && self.edge_of(eid).dst_node == dst_node
            && self.edge_of(eid).dst_port == dst_port
    }

    /// The graph invariants, preserved by every mutation.
    pub open spec fn wf(&self) -> bool {
        &&& self.nodes.wf()
        &&& self.edges.wf()
        &&& self.has_node(self.graph_in_id)
        &&& self.has_node(self.graph_out_id)
        &&& self.graph_in_id != self.graph_out_id
        &&& self.node_of(self.graph_in_id).num_inputs == 0
        &&& self.node_of(self.graph_out_id).num_outputs == 0
        &&& forall|id: NodeID| #[trigger] self.has_node(id) ==> self.node_of(id).id == id
            && self.node_of(id).num_inputs <= MAX_PORTS && self.node_of(id).num_outputs <= MAX_PORTS
        &&& forall|eid: EdgeID| #[trigger] self.has_edge_id(eid) ==> self.edge_of(eid).id == eid
            && self.edge_ok(self.edge_of(eid))
        &&& forall|e1: EdgeID, e2: EdgeID|
            #[trigger] self.has_edge_id(e1) && #[trigger] self.has_edge_id(e2) && e1 != e2 ==>
                !(self.edge_of(e1).dst_node == self.edge_of(e2).dst_node
                    && self.edge_of(e1).dst_port == self.edge_of(e2).dst_port)
    }

    /// Whether the edge has `id` as one of its endpoints.
    pub open spec fn touches(e: Edge, id: NodeID) -> bool {
        e.src_node == id || e.dst_node == id
    }

    /// `post` is `pre` with exactly the edge `eid` removed.
    pub open spec fn edge_removed(pre: Self, post: Self, eid: EdgeID) -> bool {
        &&& !post.has_edge_id(eid)
        &&& forall|e: EdgeID| #![trigger pre.has_edge_id(e)] #![trigger post.has_edge_id(e)]
            e != eid ==> post.has_edge_id(e) == pre.has_edge_id(e)
        &&& forall|e: EdgeID| #![trigger pre.edge_of(e)] #![trigger post.edge_of(e)]
            e != eid && pre.has_edge_id(e) ==> post.edge_of(e) == pre.edge_of(e)
        &&& post.edge_count() == pre.edge_count() - 1
    }

    /// The sentinel ids and the compile bookkeeping lists are the same.
    pub open spec fn same_control(pre: Self, post: Self) -> bool {
        &&& post.graph_in_id == pre.graph_in_id
        &&& post.graph_out_id == pre.graph_out_id
        &&& post.nodes_to_activate@ == pre.nodes_to_activate@
        &&& post.nodes_to_remove_from_schedule@ == pre.nodes_to_remove_from_schedule@
    }

    /// Live nodes and their entries are the same in both graphs.
    pub open spec fn same_nodes(pre: Self, post: Self) -> bool {
        &&& forall|id: NodeID| pre.has_node(id) == #[trigger] post.has_node(id)
        &&& forall|id: NodeID| pre.has_node(id) ==>
            #[trigger] post.node_of(id) == pre.node_of(id)
        &&& post.node_count() == pre.node_count()
    }

    /// Live edges and their values are the same in both graphs.
    pub open spec fn same_edges(pre: Self, post: Self) -> bool {
        &&& forall|eid: EdgeID| pre.has_edge_id(eid) == #[trigger] post.has_edge_id(eid)
        &&& forall|eid: EdgeID| pre.has_edge_id(eid) ==>
            #[trigger] post.edge_of(eid) == pre.edge_of(eid)
        &&& post.edge_count() == pre.edge_count()
    }

    /// Construct a graph holding only the two sentinel nodes: `graph_in`
    /// with `num_graph_inputs` outputs and no inputs, and `graph_out` with
    /// `num_graph_outputs` inputs and no outputs. The caller supplies the
    /// payloads for the two sentinels.
    pub fn new(config: &AudioGraphConfig, graph_in_node: N, graph_out_node: N) -> (r: Self)
        requires
            config.num_graph_inputs <= MAX_PORTS,
            config.num_graph_outputs <= MAX_PORTS,
        ensures
            r.wf(),
            r.node_count() == 2,
            r.edge_count() == 0,
            r.node_of(r.graph_in_id).num_outputs == config.num_graph_inputs,
            r.node_of(r.graph_out_id).num_inputs == config.num_graph_outputs,
            forall|id: NodeID| #[trigger] r.has_node(id) ==> id == r.graph_in_id || id == r.graph_out_id,
            forall|eid: EdgeID| !r.has_edge_id(eid),
            r.needs_compile,
    {
        let mut nodes: Arena<NodeEntry<NodeWeight<N>>> = Arena::new();

        let in_idx = nodes.insert(NodeEntry {
            id: NodeID { idx: ArenaIndex { slot: 0, generation: 0 } },
            num_inputs: 0,
            num_outputs: config.num_graph_inputs,
            weight: NodeWeight { node: graph_in_node, activated: false },
        });
        let graph_in_id = NodeID { idx: in_idx };
        if let Some(entry) = nodes.get_mut(in_idx) {
            entry.id = graph_in_id;
        }

        let out_idx = nodes.insert(NodeEntry {
            id: NodeID { idx: ArenaIndex { slot: 0, generation: 0 } },
            num_inputs: config.num_graph_outputs,
            num_outputs: 0,
            weight: NodeWeight { node: graph_out_node, activated: false },
        });
        let graph_out_id = NodeID { idx: out_idx };
        if let Some(entry) = nodes.get_mut(out_idx) {
            entry.id = graph_out_id;
        }

        let mut nodes_to_activate: Vec<NodeID> = Vec::new();
        nodes_to_activate.push(graph_in_id);
        nodes_to_activate.push(graph_out_id);

        AudioGraph {
            nodes,
            edges: Arena::new(),
            graph_in_id,
            graph_out_id,
            needs_compile: true,
            nodes_to_remove_from_schedule: Vec::new(),
            nodes_to_activate,
            active_nodes_to_remove: Vec::new(),
        }
    }

    /// The ID of the graph input sentinel.
    pub fn graph_in_node(&self) -> (r: NodeID)
        ensures
            r == self.graph_in_id,
    {
        self.graph_in_id
    }

    /// The ID of the graph output sentinel.
    pub fn graph_out_node(&self) -> (r: NodeID)
        ensures
            r == self.graph_out_id,
    {
        self.graph_out_id
    }

    /// The number of live nodes in the graph.
    pub fn num_nodes(&self) -> (r: usize)
        ensures
            r == self.node_count(),
    {
        self.nodes.num_entries()
    }

    /// The number of live edges in the graph.
    pub fn num_edges(&self) -> (r: usize)
        ensures
            r == self.edge_count(),
    {
        self.edges.num_entries()
    }

    /// Whether the graph has changed since the last successful compile.
    pub fn needs_compile(&self) -> (r: bool)
        ensures
            r == self.needs_compile,
    {
        self.needs_compile
    }

    /// Read access to a node entry.
    pub fn node_info(&self, node_id: NodeID) -> (r: Option<&NodeEntry<NodeWeight<N>>>)
        ensures
            self.has_node(node_id) ==> r is Some && *r->Some_0 == self.node_of(node_id),
            !self.has_node(node_id) ==> r is None,
    {
        self.nodes.get(node_id.idx)
    }

    /// Read access to an edge.
    pub fn edge(&self, edge_id: EdgeID) -> (r: Option<&Edge>)
        ensures
            self.has_edge_id(edge_id) ==> r is Some && *r->Some_0 == self.edge_of(edge_id),
            !self.has_edge_id(edge_id) ==> r is None,
    {
        self.edges.get(edge_id.0)
    }

    /// Add a node with the given port counts and payload. Fails exactly
    /// when a port count exceeds [`MAX_PORTS`]; on failure the graph is
    /// unchanged and the payload is handed back.
    pub fn add_node(&mut self, num_inputs: usize, num_outputs: usize, node: N) -> (r: Result<
        NodeID,
        N,
    >)
        requires
            old(self).wf(),
        ensures
            final(self).wf(),
            r is Err <==> num_inputs > MAX_PORTS || num_outputs > MAX_PORTS,
            r is Err ==> *final(self) == *old(self) && r->Err_0 == node,
            r matches Ok(id) ==> {
                &&& !old(self).has_node(id)
                &&& final(self).has_node(id)
                &&& final(self).node_of(id).id == id
                &&& final(self).node_of(id).num_inputs == num_inputs
                &&& final(self).node_of(id).num_outputs == num_outputs
                &&& final(self).node_of(id).weight.node == node
                &&& !final(self).node_of(id).weight.activated
                &&& final(self).node_count() == old(self).node_count() + 1
                &&& forall|j: NodeID| j != id ==>
                    (#[trigger] final(self).has_node(j) == old(self).has_node(j))
                &&& forall|j: NodeID| j != id && old(self).has_node(j) ==>
                    (#[trigger] final(self).node_of(j)) == old(self).node_of(j)
                &&& Self::same_edges(*old(self), *final(self))
                &&& final(self).graph_in_id == old(self).graph_in_id
                &&& final(self).graph_out_id == old(self).graph_out_id
                &&& final(self).needs_compile
                &&& final(self).nodes_to_activate@ == old(self).nodes_to_activate@.push(id)
                &&& final(self).nodes_to_remove_from_schedule@
                    == old(self).nodes_to_remove_from_schedule@
            },
    {
        if num_inputs > MAX_PORTS as usize || num_outputs > MAX_PORTS as usize {
            return Err(node);
        }
        let idx = self.nodes.insert(NodeEntry {
            id: NodeID { idx: ArenaIndex { slot: 0, generation: 0 } },
            num_inputs: num_inputs as u32,
            num_outputs: num_outputs as u32,
            weight: NodeWeight { node, activated: false },
        });
        let new_id = NodeID { idx };
        if let Some(entry) = self.nodes.get_mut(idx) {
            entry.id = new_id;
        }
        self.nodes_to_activate.push(new_id);
        self.needs_compile = true;
        proof {
            assert forall|id: NodeID| #[trigger] self.has_node(id) implies self.node_of(id).id == id
                && self.node_of(id).num_inputs <= MAX_PORTS
                && self.node_of(id).num_outputs <= MAX_PORTS by {
                if id != new_id {
                    assert(old(self).has_node(id));
                }
            }
            assert forall|eid: EdgeID| #[trigger] self.has_edge_id(eid) implies
                self.edge_of(eid).id == eid && self.edge_ok(self.edge_of(eid)) by {
                assert(old(self).has_edge_id(eid));
                let e = self.edge_of(eid);
                assert(old(self).edge_ok(e));
                assert(old(self).has_node(e.src_node) && old(self).has_node(e.dst_node));
                assert(self.has_node(e.src_node) && self.has_node(e.dst_node));
            }
            assert forall|e1: EdgeID, e2: EdgeID|
                #[trigger] self.has_edge_id(e1) && #[trigger] self.has_edge_id(e2) && e1 != e2
                implies !(self.edge_of(e1).dst_node == self.edge_of(e2).dst_node
                    && self.edge_of(e1).dst_port == self.edge_of(e2).dst_port) by {
                assert(old(self).has_edge_id(e1));
                assert(old(self).has_edge_id(e2));
            }
            assert(Self::same_edges(*old(self), *self));
        }
        Ok(new_id)
    }

    /// Remove the edge named by `edge_id`. Returns whether it existed; on
    /// `false` the graph is unchanged.
    pub fn disconnect_by_edge_id(&mut self, edge_id: EdgeID) -> (r: bool)
        requires
            old(self).wf(),
        ensures
            final(self).wf(),
            r == old(self).has_edge_id(edge_id),
            !r ==> *final(self) == *old(self),
            r ==> Self::edge_removed(*old(self), *final(self), edge_id),
            Self::same_nodes(*old(self), *final(self)),
            Self::same_control(*old(self), *final(self)),
            r ==> final(self).needs_compile,
            !r ==> final(self).needs_compile == old(self).needs_compile,
            final(self).active_nodes_to_remove@ == old(self).active_nodes_to_remove@,
    {
        match self.edges.remove(edge_id.0) {
            Some(_) => {
                self.needs_compile = true;
                proof {
                    self.lemma_wf_after_edge_removal(*old(self));
                }
                true
            },
            None => false,
        }
    }

    /// Re-establish the invariants after any operation that only removed
    /// edges and left the nodes untouched.
    proof fn lemma_wf_after_edge_removal(&self, pre: Self)
        requires
            pre.wf(),
            self.nodes == pre.nodes,
            self.graph_in_id == pre.graph_in_id,
            self.graph_out_id == pre.graph_out_id,
            self.edges.wf(),
            forall|e: EdgeID| #[trigger] self.has_edge_id(e) ==> pre.has_edge_id(e)
                && self.edge_of(e) == pre.edge_of(e),
        ensures
            self.wf(),
    {
        assert forall|id: NodeID| #[trigger] self.has_node(id) implies self.node_of(id).id == id
            && self.node_of(id).num_inputs <= MAX_PORTS
            && self.node_of(id).num_outputs <= MAX_PORTS by {
            assert(pre.has_node(id));
        }
        assert forall|eid: EdgeID| #[trigger] self.has_edge_id(eid) implies
            self.edge_of(eid).id == eid && self.edge_ok(self.edge_of(eid)) by {
            assert(pre.has_edge_id(eid));
            let e = self.edge_of(eid);
            assert(pre.edge_ok(e));
            assert(pre.has_node(e.src_node) && pre.has_node(e.dst_node));
        }
        assert forall|e1: EdgeID, e2: EdgeID|
            #[trigger] self.has_edge_id(e1) && #[trigger] self.has_edge_id(e2) && e1 != e2
            implies !(self.edge_of(e1).dst_node == self.edge_of(e2).dst_node
                && self.edge_of(e1).dst_port == self.edge_of(e2).dst_port) by {
            assert(pre.has_edge_id(e1));
            assert(pre.has_edge_id(e2));
        }
        assert(pre.has_node(self.graph_in_id));
        assert(pre.has_node(self.graph_out_id));
    }

    /// Remove the edge with exactly these endpoints and ports, if one
    /// exists. Returns whether one did.
    pub fn disconnect(
        &mut self,
        src_node: NodeID,
        src_port: OutPortIdx,
        dst_node: NodeID,
        dst_port: InPortIdx,
    ) -> (r: bool)
        requires
            old(self).wf(),
        ensures
            final(self).wf(),
            r == old(self).spec_edge_exists(src_node, src_port, dst_node, dst_port),
            !r ==> *final(self) == *old(self),
            r ==> exists|eid: EdgeID| old(self).has_edge_id(eid)
                && old(self).edge_of(eid).src_node == src_node
                && old(self).edge_of(eid).src_port == src_port
                && old(self).edge_of(eid).dst_node == dst_node
                && old(self).edge_of(eid).dst_port == dst_port
                && #[trigger] Self::edge_removed(*old(self), *final(self), eid),
            r ==> final(self).needs_compile,
            Self::same_nodes(*old(self), *final(self)),
            Self::same_control(*old(self), *final(self)),
            final(self).active_nodes_to_remove@ == old(self).active_nodes_to_remove@,
    {
        let n_slots = self.edges.slot_count();
        let mut s: usize = 0;
        while s < n_slots
            invariant
                self.wf(),
                n_slots == self.edges.num_slots(),
                forall|eid: EdgeID| #[trigger] self.has_edge_id(eid) && eid.0.slot < s ==>
                    !(self.edge_of(eid).src_node == src_node
                        && self.edge_of(eid).src_port == src_port
                        && self.edge_of(eid).dst_node == dst_node
                        && self.edge_of(eid).dst_port == dst_port),
                *self == *old(self),
            decreases n_slots - s,
        {
            if let Some(i) = self.edges.index_at(s) {
                let e = *self.edges.get(i).unwrap();
                if e.src_node == src_node && e.src_port.0 == src_port.0
                    && e.dst_node == dst_node && e.dst_port.0 == dst_port.0 {
                    let eid = EdgeID(i);
                    proof {
                        assert(self.has_edge_id(eid));
                        assert(self.edge_of(eid) == e);
                        assert(e.id == eid);
                    }
                    self.disconnect_by_edge_id(eid);
                    return true;
                }
            }
            s += 1;
        }
        proof {
            assert forall|eid: EdgeID| #[trigger] self.has_edge_id(eid) implies
                !(self.edge_of(eid).src_node == src_node
                    && self.edge_of(eid).src_port == src_port
                    && self.edge_of(eid).dst_node == dst_node
                    && self.edge_of(eid).dst_port == dst_port) by {
                assert(eid.0.slot < n_slots);
            }
        }
        false
    }

    /// Remove the node named by `node_id` together with every edge that
    /// touches it. Fails exactly when `node_id` is a sentinel or unknown;
    /// on failure the graph is unchanged. On success returns the ids of
    /// all removed edges.
    pub fn remove_node(&mut self, node_id: NodeID) -> (r: Result<Vec<EdgeID>, ()>)
        requires
            old(self).wf(),
        ensures
            final(self).wf(),
            r is Err <==> node_id == old(self).graph_in_id || node_id == old(self).graph_out_id
                || !old(self).has_node(node_id),
            r is Err ==> *final(self) == *old(self),
            r matches Ok(removed) ==> {
                &&& !final(self).has_node(node_id)
                &&& forall|j: NodeID| #![trigger final(self).has_node(j)] #![trigger old(self).has_node(j)]
                    j != node_id ==> final(self).has_node(j) == old(self).has_node(j)
                &&& forall|j: NodeID| #![trigger final(self).node_of(j)] #![trigger old(self).node_of(j)]
                    j != node_id && old(self).has_node(j) ==>
                        final(self).node_of(j) == old(self).node_of(j)
                &&& final(self).node_count() == old(self).node_count() - 1
                &&& forall|eid: EdgeID| #[trigger] final(self).has_edge_id(eid) <==>
                    old(self).has_edge_id(eid) && !Self::touches(old(self).edge_of(eid), node_id)
                &&& forall|eid: EdgeID| #[trigger] final(self).has_edge_id(eid) ==>
                    final(self).edge_of(eid) == old(self).edge_of(eid)
                &&& forall|k: int| 0 <= k < removed@.len() ==>
                    old(self).has_edge_id(#[trigger] removed@[k])
                        && Self::touches(old(self).edge_of(removed@[k]), node_id)
                &&& forall|eid: EdgeID| old(self).has_edge_id(eid)
                    && Self::touches(#[trigger] old(self).edge_of(eid), node_id) ==>
                        removed@.contains(eid)
                &&& forall|k1: int, k2: int| 0 <= k1 < k2 < removed@.len() ==>
                    removed@[k1] != removed@[k2]
                &&& final(self).nodes.num_slots() == old(self).nodes.num_slots()
                &&& final(self).graph_in_id == old(self).graph_in_id
                &&& final(self).graph_out_id == old(self).graph_out_id
                &&& final(self).needs_compile
                &&& final(self).nodes_to_remove_from_schedule@
                    == old(self).nodes_to_remove_from_schedule@.push(node_id)
                &&& final(self).nodes_to_activate@ == old(self).nodes_to_activate@
                &&& old(self).node_of(node_id).weight.activated ==>
                    final(self).active_nodes_to_remove@.len()
                        == old(self).active_nodes_to_remove@.len() + 1
                &&& !old(self).node_of(node_id).weight.activated ==>
                    final(self).active_nodes_to_remove@ == old(self).active_nodes_to_remove@
            },
    {
        if node_id == self.graph_in_id || node_id == self.graph_out_id {
            return Err(());
        }
        if !self.nodes.contains(node_id.idx) {
            return Err(());
        }

        // Collect every edge that touches the node.
        let mut removed: Vec<EdgeID> = Vec::new();
        let n_slots = self.edges.slot_count();
        let mut s: usize = 0;
        while s < n_slots
            invariant
                self.wf(),
                *self == *old(self),
                n_slots == self.edges.num_slots(),
                s <= n_slots,
                forall|k: int| 0 <= k < removed@.len() ==>
                    self.has_edge_id(#[trigger] removed@[k])
                        && Self::touches(self.edge_of(removed@[k]), node_id)
                        && removed@[k].0.slot < s,
                forall|k1: int, k2: int| 0 <= k1 < k2 < removed@.len() ==>
                    removed@[k1].0.slot < removed@[k2].0.slot,
                forall|eid: EdgeID| #[trigger] self.has_edge_id(eid) && eid.0.slot < s
                    && Self::touches(self.edge_of(eid), node_id) ==> removed@.contains(eid),
            decreases n_slots - s,
        {
            if let Some(i) = self.edges.index_at(s) {
                let e = *self.edges.get(i).unwrap();
                if e.src_node == node_id || e.dst_node == node_id {
                    let ghost pre_removed = removed@;
                    removed.push(EdgeID(i));
                    proof {
                        assert forall|eid: EdgeID| #[trigger] self.has_edge_id(eid)
                            && eid.0.slot < s + 1
                            && Self::touches(self.edge_of(eid), node_id) implies
                            removed@.contains(eid) by {
                            if eid.0.slot < s {
                                assert(pre_removed.contains(eid));
                                let k = pre_removed.index_of(eid);
                                assert(removed@[k] == eid);
                            } else {
                                assert(eid.0 == i);
                                assert(removed@[removed@.len() - 1] == eid);
                            }
                        }
                    }
                }
            }
            s += 1;
        }
        proof {
            assert forall|eid: EdgeID| old(self).has_edge_id(eid)
                && Self::touches(#[trigger] old(self).edge_of(eid), node_id) implies
                removed@.contains(eid) by {
                assert(self.has_edge_id(eid));
                assert(eid.0.slot < n_slots);
                assert(Self::touches(self.edge_of(eid), node_id));
            }
        }

        // Remove the node itself.
        let entry = match self.nodes.remove(node_id.idx) {
            Some(e) => e,
            None => {
                proof {
                    assert(false);
                }
                return Err(());
            },
        };
        let ghost g1: Self = *self;

        remove_edges(&mut self.edges, &removed);

        // Record the removal for the executor handoff.
        self.nodes_to_remove_from_schedule.push(node_id);
        let activated = entry.weight.activated;
        if activated {
            self.active_nodes_to_remove.push((node_id, entry));
        }
        self.needs_compile = true;

        proof {
            assert(removed@.take(removed@.len() as int) =~= removed@);
            assert forall|eid: EdgeID| #[trigger] self.has_edge_id(eid) implies
                old(self).has_edge_id(eid) && !Self::touches(old(self).edge_of(eid), node_id) by {
                assert(self.edges.valid(eid.0));
                if Self::touches(old(self).edge_of(eid), node_id) {
                    assert(removed@.contains(eid));
                }
            }
            assert forall|eid: EdgeID| old(self).has_edge_id(eid)
                && !Self::touches(#[trigger] old(self).edge_of(eid), node_id) implies
                self.has_edge_id(eid) by {
                if removed@.contains(eid) {
                    let j = removed@.index_of(eid);
                    assert(old(self).has_edge_id(removed@[j]));
                    assert(Self::touches(old(self).edge_of(eid), node_id));
                }
                assert(self.edges.valid(eid.0));
            }
            self.lemma_wf_after_node_removal(*old(self), node_id);
        }
        Ok(removed)
    }

    /// Re-establish the invariants after removing one non-sentinel node
    /// and every edge that touched it.
    proof fn lemma_wf_after_node_removal(&self, pre: Self, node_id: NodeID)
        requires
            pre.wf(),
            node_id != pre.graph_in_id,
            node_id != pre.graph_out_id,
            self.graph_in_id == pre.graph_in_id,
            self.graph_out_id == pre.graph_out_id,
            self.nodes.wf(),
            self.edges.wf(),
            forall|j: NodeID| #![trigger self.has_node(j)] #![trigger pre.has_node(j)]
                j != node_id ==> self.has_node(j) == pre.has_node(j),
            !self.has_node(node_id),
            forall|j: NodeID| #![trigger self.node_of(j)] #![trigger pre.node_of(j)]
                j != node_id && pre.has_node(j) ==> self.node_of(j) == pre.node_of(j),
            forall|eid: EdgeID| #[trigger] self.has_edge_id(eid) ==> pre.has_edge_id(eid)
                && self.edge_of(eid) == pre.edge_of(eid)
                && !Self::touches(pre.edge_of(eid), node_id),
        ensures
            self.wf(),
    {
        assert(pre.has_node(self.graph_in_id));
        assert(pre.has_node(self.graph_out_id));
        assert forall|id: NodeID| #[trigger] self.has_node(id) implies self.node_of(id).id == id
            && self.node_of(id).num_inputs <= MAX_PORTS
            && self.node_of(id).num_outputs <= MAX_PORTS by {
            assert(pre.has_node(id));
        }
        assert forall|eid: EdgeID| #[trigger] self.has_edge_id(eid) implies
            self.edge_of(eid).id == eid && self.edge_ok(self.edge_of(eid)) by {
            assert(pre.has_edge_id(eid));
            let e = self.edge_of(eid);
            assert(pre.edge_ok(e));
            assert(pre.has_node(e.src_node) && pre.has_node(e.dst_node));
            assert(e.src_node != node_id && e.dst_node != node_id);
        }
        assert forall|e1: EdgeID, e2: EdgeID|
            #[trigger] self.has_edge_id(e1) && #[trigger] self.has_edge_id(e2) && e1 != e2
            implies !(self.edge_of(e1).dst_node == self.edge_of(e2).dst_node
                && self.edge_of(e1).dst_port == self.edge_of(e2).dst_port) by {
            assert(pre.has_edge_id(e1));
            assert(pre.has_edge_id(e2));
        }
    }

    /// The first rule that rejects this connection, if any. The rules are
    /// checked in order: unknown source, unknown destination, output port
    /// out of range, input port out of range, self-loop, duplicate edge,
    /// input port already connected. The cycle check comes last and only
    /// when requested.
    pub open spec fn spec_connect_error(
        &self,
        src_node: NodeID,
        src_port: OutPortIdx,
        dst_node: NodeID,
        dst_port: InPortIdx,
        check_for_cycles: bool,
    ) -> Option<AddEdgeError> {
        if !self.has_node(src_node) {
            Some(AddEdgeError::SrcNodeNotFound(src_node))
        } else if !self.has_node(dst_node) {
            Some(AddEdgeError::DstNodeNotFound(dst_node))
        } else if src_port.0 >= self.node_of(src_node).num_outputs {
            Some(AddEdgeError::OutPortOutOfRange {
                node: src_node,
                port_idx: src_port,
                num_out_ports: self.node_of(src_node).num_outputs,
            })
        } else if dst_port.0 >= self.node_of(dst_node).num_inputs {
            Some(AddEdgeError::InPortOutOfRange {
                node: dst_node,
                port_idx: dst_port,
                num_in_ports: self.node_of(dst_node).num_inputs,
            })
        } else if src_node == dst_node {
            Some(AddEdgeError::CycleDetected)
        } else if self.spec_edge_exists(src_node, src_port, dst_node, dst_port) {
            Some(AddEdgeError::EdgeAlreadyExists)
        } else if self.spec_port_connected(dst_node, dst_port) {
            Some(AddEdgeError::InputPortAlreadyConnected(dst_node, dst_port))
        } else if check_for_cycles && !self.spec_can_order_before(src_node, dst_node) {
            Some(AddEdgeError::CycleDetected)
        } else {
            None
        }
    }

    /// Add an edge from an output port of `src_node` to an input port of
    /// `dst_node`. The error cases, in order of precedence, are given by
    /// [`AudioGraph::spec_connect_error`]; on any error the graph is
    /// unchanged. With `check_for_cycles` the edge is inserted
    /// tentatively, checked, and rolled back if it closed a cycle, so a
    /// successful checked connect leaves the graph schedulable.
    pub fn connect(
        &mut self,
        src_node: NodeID,
        src_port: OutPortIdx,
        dst_node: NodeID,
        dst_port: InPortIdx,
        check_for_cycles: bool,
    ) -> (r: Result<EdgeID, AddEdgeError>)
        requires
            old(self).wf(),
        ensures
            final(self).wf(),
            r matches Err(err) ==> Some(err) == old(self).spec_connect_error(
                src_node,
                src_port,
                dst_node,
                dst_port,
                check_for_cycles,
            ),
            r is Ok <==> old(self).spec_connect_error(
                src_node,
                src_port,
                dst_node,
                dst_port,
                check_for_cycles,
            ) is None,
            r is Err ==> Self::same_nodes(*old(self), *final(self))
                && Self::same_edges(*old(self), *final(self))
                && Self::same_control(*old(self), *final(self))
                && final(self).active_nodes_to_remove@ == old(self).active_nodes_to_remove@
                && final(self).needs_compile == old(self).needs_compile,
            r matches Ok(eid) ==> {
                &&& !old(self).has_edge_id(eid)
                &&& final(self).has_edge_id(eid)
                &&& final(self).edge_of(eid) == (Edge {
                    id: eid,
                    src_node,
                    src_port,
                    dst_node,
                    dst_port,
                })
                &&& final(self).edge_count() == old(self).edge_count() + 1
                &&& forall|x: EdgeID| #![trigger final(self).has_edge_id(x)] #![trigger old(self).has_edge_id(x)]
                    x != eid ==> final(self).has_edge_id(x) == old(self).has_edge_id(x)
                &&& forall|x: EdgeID| #![trigger final(self).edge_of(x)] #![trigger old(self).edge_of(x)]
                    x != eid && old(self).has_edge_id(x) ==> final(self).edge_of(x)
                        == old(self).edge_of(x)
                &&& Self::same_nodes(*old(self), *final(self))
                &&& Self::same_control(*old(self), *final(self))
                &&& final(self).active_nodes_to_remove@ == old(self).active_nodes_to_remove@
                &&& final(self).needs_compile
                &&& check_for_cycles ==> final(self).schedulable()
            },
    {
        let src_entry = match self.nodes.get(src_node.idx) {
            Some(entry) => entry,
            None => {
                proof {
                    assert(old(self).spec_connect_error(src_node, src_port, dst_node, dst_port,
                        check_for_cycles) == Some(AddEdgeError::SrcNodeNotFound(src_node)));
                }
                return Err(AddEdgeError::SrcNodeNotFound(src_node));
            },
        };
        let num_out_ports = src_entry.num_outputs;
        let dst_entry = match self.nodes.get(dst_node.idx) {
            Some(entry) => entry,
            None => {
                proof {
                    assert(old(self).spec_connect_error(src_node, src_port, dst_node, dst_port,
                        check_for_cycles) == Some(AddEdgeError::DstNodeNotFound(dst_node)));
                }
                return Err(AddEdgeError::DstNodeNotFound(dst_node));
            },
        };
        let num_in_ports = dst_entry.num_inputs;
        if src_port.0 >= num_out_ports {
            proof {
                assert(old(self).spec_connect_error(src_node, src_port, dst_node, dst_port,
                    check_for_cycles) == Some(AddEdgeError::OutPortOutOfRange {
                    node: src_node, port_idx: src_port, num_out_ports: num_out_ports }));
            }
            return Err(AddEdgeError::OutPortOutOfRange { node: src_node, port_idx: src_port, num_out_ports });
        }
        if dst_port.0 >= num_in_ports {
            proof {
                assert(old(self).spec_connect_error(src_node, src_port, dst_node, dst_port,
                    check_for_cycles) == Some(AddEdgeError::InPortOutOfRange {
                    node: dst_node, port_idx: dst_port, num_in_ports: num_in_ports }));
            }
            return Err(AddEdgeError::InPortOutOfRange { node: dst_node, port_idx: dst_port, num_in_ports });
        }
        if src_node == dst_node {
            proof {
                assert(old(self).spec_connect_error(src_node, src_port, dst_node, dst_port,
                    check_for_cycles) == Some(AddEdgeError::CycleDetected));
            }
            return Err(AddEdgeError::CycleDetected);
        }

        // Scan for a duplicate edge or an occupied input port.
        let n_slots = self.edges.slot_count();
        let mut s: usize = 0;
        while s < n_slots
            invariant
                self.wf(),
                *self == *old(self),
                n_slots == self.edges.num_slots(),
                s <= n_slots,
                old(self).has_node(src_node),
                old(self).has_node(dst_node),
                src_port.0 < old(self).node_of(src_node).num_outputs,
                dst_port.0 < old(self).node_of(dst_node).num_inputs,
                src_node != dst_node,
                forall|eid: EdgeID| #[trigger] self.has_edge_id(eid) && eid.0.slot < s ==>
                    !(self.edge_of(eid).dst_node == dst_node
                        && self.edge_of(eid).dst_port == dst_port),
            decreases n_slots - s,
        {
            if let Some(i) = self.edges.index_at(s) {
                let e = *self.edges.get(i).unwrap();
                if e.dst_node == dst_node && e.dst_port.0 == dst_port.0 {
                    proof {
                        assert(old(self).has_edge_id(EdgeID(i)));
                        assert(old(self).edge_of(EdgeID(i)) == e);
                    }
                    if e.src_node == src_node && e.src_port.0 == src_port.0 {
                        proof {
                            assert(old(self).has_edge_id(EdgeID(i)) && old(self).edge_of(EdgeID(i))
                                == e && e.src_node == src_node && e.src_port == src_port
                                && e.dst_node == dst_node && e.dst_port == dst_port);
                            assert(old(self).spec_edge_exists(src_node, src_port, dst_node,
                                dst_port));
                            assert(old(self).spec_connect_error(src_node, src_port, dst_node,
                                dst_port, check_for_cycles)
                                == Some(AddEdgeError::EdgeAlreadyExists));
                        }
                        return Err(AddEdgeError::EdgeAlreadyExists);
                    }
                    proof {
                        assert(!old(self).spec_edge_exists(src_node, src_port, dst_node, dst_port))
                            by {
                            if old(self).spec_edge_exists(src_node, src_port, dst_node, dst_port) {
                                let other = choose|eid: EdgeID|
                                    #[trigger] old(self).has_edge_id(eid)
                                        && old(self).edge_of(eid).src_node == src_node
                                        && old(self).edge_of(eid).src_port == src_port
                                        && old(self).edge_of(eid).dst_node == dst_node
                                        && old(self).edge_of(eid).dst_port == dst_port;
                                assert(old(self).has_edge_id(other));
                                assert(old(self).has_edge_id(EdgeID(i)));
                                if other != EdgeID(i) {
                                    assert(!(old(self).edge_of(other).dst_node
                                        == old(self).edge_of(EdgeID(i)).dst_node
                                        && old(self).edge_of(other).dst_port
                                        == old(self).edge_of(EdgeID(i)).dst_port));
                                } else {
                                    assert(e.src_node == src_node && e.src_port == src_port);
                                }
                            }
                        }
                        assert(old(self).has_edge_id(EdgeID(i)) && old(self).edge_of(
                            EdgeID(i),
                        ).dst_node == dst_node && old(self).edge_of(EdgeID(i)).dst_port
                            == dst_port);
                        assert(old(self).spec_port_connected(dst_node, dst_port));
                        assert(old(self).has_node(src_node));
                        assert(old(self).has_node(dst_node));
                        assert(src_port.0 < old(self).node_of(src_node).num_outputs);
                        assert(dst_port.0 < old(self).node_of(dst_node).num_inputs);
                        assert(src_node != dst_node);
                        assert(!old(self).spec_edge_exists(src_node, src_port, dst_node,
                            dst_port));
                        assert(old(self).spec_connect_error(src_node, src_port, dst_node,
                            dst_port, check_for_cycles)
                            == Some(AddEdgeError::InputPortAlreadyConnected(dst_node, dst_port)));
                    }
                    return Err(AddEdgeError::InputPortAlreadyConnected(dst_node, dst_port));
                }
            }
            s += 1;
        }
        proof {
            assert forall|eid: EdgeID| #[trigger] old(self).has_edge_id(eid) implies
                !(old(self).edge_of(eid).dst_node == dst_node
                    && old(self).edge_of(eid).dst_port == dst_port) by {
                assert(self.has_edge_id(eid));
                assert(eid.0.slot < n_slots);
            }
            assert(!old(self).spec_port_connected(dst_node, dst_port));
            assert(!old(self).spec_edge_exists(src_node, src_port, dst_node, dst_port)) by {
                if old(self).spec_edge_exists(src_node, src_port, dst_node, dst_port) {
                    let other = choose|eid: EdgeID|
                        #[trigger] old(self).has_edge_id(eid)
                            && old(self).edge_of(eid).src_node == src_node
                            && old(self).edge_of(eid).src_port == src_port
                            && old(self).edge_of(eid).dst_node == dst_node
                            && old(self).edge_of(eid).dst_port == dst_port;
                    assert(old(self).has_edge_id(other));
                }
            }
        }

        // Insert the edge, then patch its own id in.
        let saved_needs_compile = self.needs_compile;
        let idx = self.edges.insert(Edge {
            id: EdgeID(ArenaIndex { slot: 0, generation: 0 }),
            src_node,
            src_port,
            dst_node,
            dst_port,
        });
        let new_id = EdgeID(idx);
        if let Some(edge) = self.edges.get_mut(idx) {
            edge.id = new_id;
        }
        self.needs_compile = true;
        let ghost temp: Self = *self;
        proof {
            self.lemma_wf_after_edge_insert(*old(self), new_id);
        }

        if check_for_cycles {
            let cyc = self.cycle_detected();
            proof {
                old(self).lemma_extend_order(temp, new_id, temp.edge_of(new_id));
            }
            if cyc {
                self.edges.remove(new_id.0);
                self.needs_compile = saved_needs_compile;
                proof {
                    self.lemma_wf_after_edge_removal(temp);
                    assert(Self::same_edges(*old(self), *self)) by {
                        assert forall|x: EdgeID| #![trigger self.has_edge_id(x)] #![trigger old(self).has_edge_id(x)]
                            old(self).has_edge_id(x) == self.has_edge_id(x) by {
                            if x != new_id {
                                assert(temp.has_edge_id(x) == old(self).has_edge_id(x));
                            }
                        }
                        assert forall|x: EdgeID| old(self).has_edge_id(x) implies
                            #[trigger] self.edge_of(x) == old(self).edge_of(x) by {
                            assert(x != new_id);
                            assert(self.has_edge_id(x));
                        }
                    }
                    assert(old(self).spec_connect_error(src_node, src_port, dst_node, dst_port,
                        check_for_cycles) == Some(AddEdgeError::CycleDetected));
                }
                return Err(AddEdgeError::CycleDetected);
            }
        }
        Ok(new_id)
    }

    /// Re-establish the invariants after inserting one well-formed edge
    /// whose input port was previously unconnected.
    proof fn lemma_wf_after_edge_insert(&self, pre: Self, eid: EdgeID)
        requires
            pre.wf(),
            self.nodes == pre.nodes,
            self.graph_in_id == pre.graph_in_id,
            self.graph_out_id == pre.graph_out_id,
            self.edges.wf(),
            forall|x: EdgeID| #![trigger self.has_edge_id(x)] #![trigger pre.has_edge_id(x)]
                x != eid ==> self.has_edge_id(x) == pre.has_edge_id(x),
            forall|x: EdgeID| #![trigger self.edge_of(x)] #![trigger pre.edge_of(x)]
                x != eid && pre.has_edge_id(x) ==> self.edge_of(x) == pre.edge_of(x),
            self.has_edge_id(eid),
            !pre.has_edge_id(eid),
            self.edge_of(eid).id == eid,
            pre.edge_ok(self.edge_of(eid)),
            !pre.spec_port_connected(self.edge_of(eid).dst_node, self.edge_of(eid).dst_port),
        ensures
            self.wf(),
    {
        assert(pre.has_node(self.graph_in_id));
        assert(pre.has_node(self.graph_out_id));
        assert forall|id: NodeID| #[trigger] self.has_node(id) implies self.node_of(id).id == id
            && self.node_of(id).num_inputs <= MAX_PORTS
            && self.node_of(id).num_outputs <= MAX_PORTS by {
            assert(pre.has_node(id));
        }
        assert forall|x: EdgeID| #[trigger] self.has_edge_id(x) implies self.edge_of(x).id == x
            && self.edge_ok(self.edge_of(x)) by {
            if x != eid {
                assert(pre.has_edge_id(x));
                let e = self.edge_of(x);
                assert(pre.edge_ok(e));
                assert(pre.has_node(e.src_node) && pre.has_node(e.dst_node));
            } else {
                let e = self.edge_of(x);
                assert(pre.has_node(e.src_node) && pre.has_node(e.dst_node));
            }
        }
        assert forall|e1: EdgeID, e2: EdgeID|
            #[trigger] self.has_edge_id(e1) && #[trigger] self.has_edge_id(e2) && e1 != e2
            implies !(self.edge_of(e1).dst_node == self.edge_of(e2).dst_node
                && self.edge_of(e1).dst_port == self.edge_of(e2).dst_port) by {
            if e1 != eid && e2 != eid {
                assert(pre.has_edge_id(e1));
                assert(pre.has_edge_id(e2));
            } else if e1 == eid {
                assert(pre.has_edge_id(e2));
                if self.edge_of(e1).dst_node == self.edge_of(e2).dst_node
                    && self.edge_of(e1).dst_port == self.edge_of(e2).dst_port {
                    assert(pre.spec_port_connected(self.edge_of(eid).dst_node,
                        self.edge_of(eid).dst_port));
                }
            } else {
                assert(pre.has_edge_id(e1));
                if self.edge_of(e1).dst_node == self.edge_of(e2).dst_node
                    && self.edge_of(e1).dst_port == self.edge_of(e2).dst_port {
                    assert(pre.spec_port_connected(self.edge_of(eid).dst_node,
                        self.edge_of(eid).dst_port));
                }
            }
        }
    }

    /// Set the number of input ports of a node, removing any edges into
    /// ports that the new count truncates. Fails exactly when the node is
    /// the graph input sentinel, unknown, or the count exceeds
    /// [`MAX_PORTS`]; on failure the graph is unchanged.
    pub fn set_num_inputs(&mut self, node_id: NodeID, num_inputs: usize) -> (r: Result<
        Vec<EdgeID>,
        (),
    >)
        requires
            old(self).wf(),
        ensures
            final(self).wf(),
            r is Err <==> node_id == old(self).graph_in_id || !old(self).has_node(node_id)
                || num_inputs > MAX_PORTS,
            r is Err ==> *final(self) == *old(self),
            r matches Ok(removed) ==> {
                &&& forall|j: NodeID| #![trigger final(self).has_node(j)] #![trigger old(self).has_node(j)]
                    final(self).has_node(j) == old(self).has_node(j)
                &&& forall|j: NodeID| #![trigger final(self).node_of(j)] #![trigger old(self).node_of(j)]
                    j != node_id && old(self).has_node(j) ==>
                        final(self).node_of(j) == old(self).node_of(j)
                &&& final(self).node_of(node_id).num_inputs == num_inputs
                &&& final(self).node_of(node_id).num_outputs == old(self).node_of(node_id).num_outputs
                &&& final(self).node_of(node_id).id == old(self).node_of(node_id).id
                &&& final(self).node_of(node_id).weight == old(self).node_of(node_id).weight
                &&& final(self).node_count() == old(self).node_count()
                &&& forall|eid: EdgeID| #[trigger] final(self).has_edge_id(eid) <==>
                    old(self).has_edge_id(eid) && !(old(self).edge_of(eid).dst_node == node_id
                        && old(self).edge_of(eid).dst_port.0 >= num_inputs)
                &&& forall|eid: EdgeID| #[trigger] final(self).has_edge_id(eid) ==>
                    final(self).edge_of(eid) == old(self).edge_of(eid)
                &&& forall|k: int| 0 <= k < removed@.len() ==>
                    old(self).has_edge_id(#[trigger] removed@[k])
                        && old(self).edge_of(removed@[k]).dst_node == node_id
                        && old(self).edge_of(removed@[k]).dst_port.0 >= num_inputs
                &&& forall|eid: EdgeID| old(self).has_edge_id(eid)
                    && (#[trigger] old(self).edge_of(eid)).dst_node == node_id
                    && old(self).edge_of(eid).dst_port.0 >= num_inputs ==> removed@.contains(eid)
                &&& forall|k1: int, k2: int| 0 <= k1 < k2 < removed@.len() ==>
                    removed@[k1] != removed@[k2]
                &&& Self::same_control(*old(self), *final(self))
                &&& final(self).active_nodes_to_remove@ == old(self).active_nodes_to_remove@
                &&& final(self).needs_compile
            },
    {
        if node_id == self.graph_in_id || num_inputs > MAX_PORTS as usize {
            return Err(());
        }
        if !self.nodes.contains(node_id.idx) {
            return Err(());
        }
        let n = num_inputs as u32;

        // Collect every edge into a truncated input port.
        let mut removed: Vec<EdgeID> = Vec::new();
        let n_slots = self.edges.slot_count();
        let mut s: usize = 0;
        while s < n_slots
            invariant
                self.wf(),
                *self == *old(self),
                n == num_inputs,
                n_slots == self.edges.num_slots(),
                s <= n_slots,
                forall|k: int| 0 <= k < removed@.len() ==>
                    self.has_edge_id(#[trigger] removed@[k])
                        && self.edge_of(removed@[k]).dst_node == node_id
                        && self.edge_of(removed@[k]).dst_port.0 >= n
                        && removed@[k].0.slot < s,
                forall|k1: int, k2: int| 0 <= k1 < k2 < removed@.len() ==>
                    removed@[k1].0.slot < removed@[k2].0.slot,
                forall|eid: EdgeID| #[trigger] self.has_edge_id(eid) && eid.0.slot < s
                    && self.edge_of(eid).dst_node == node_id
                    && self.edge_of(eid).dst_port.0 >= n ==> removed@.contains(eid),
            decreases n_slots - s,
        {
            if let Some(i) = self.edges.index_at(s) {
                let e = *self.edges.get(i).unwrap();
                if e.dst_node == node_id && e.dst_port.0 >= n {
                    let ghost pre_removed = removed@;
                    removed.push(EdgeID(i));
                    proof {
                        assert forall|eid: EdgeID| #[trigger] self.has_edge_id(eid)
                            && eid.0.slot < s + 1 && self.edge_of(eid).dst_node == node_id
                            && self.edge_of(eid).dst_port.0 >= n implies
                            removed@.contains(eid) by {
                            if eid.0.slot < s {
                                assert(pre_removed.contains(eid));
                                let k = pre_removed.index_of(eid);
                                assert(removed@[k] == eid);
                            } else {
                                assert(eid.0 == i);
                                assert(removed@[removed@.len() - 1] == eid);
                            }
                        }
                    }
                }
            }
            s += 1;
        }
        proof {
            assert forall|eid: EdgeID| old(self).has_edge_id(eid)
                && (#[trigger] old(self).edge_of(eid)).dst_node == node_id
                && old(self).edge_of(eid).dst_port.0 >= num_inputs implies
                removed@.contains(eid) by {
                assert(self.has_edge_id(eid));
                assert(eid.0.slot < n_slots);
            }
        }

        remove_edges(&mut self.edges, &removed);
        let ghost g1: Self = *self;

        if let Some(entry) = self.nodes.get_mut(node_id.idx) {
            entry.num_inputs = n;
        }
        self.needs_compile = true;

        proof {
            assert forall|eid: EdgeID| #[trigger] self.has_edge_id(eid) implies
                old(self).has_edge_id(eid) && !(old(self).edge_of(eid).dst_node == node_id
                    && old(self).edge_of(eid).dst_port.0 >= num_inputs) by {
                assert(self.edges.valid(eid.0));
                assert(!removed@.contains(eid));
            }
            assert forall|eid: EdgeID| old(self).has_edge_id(eid)
                && !((#[trigger] old(self).edge_of(eid)).dst_node == node_id
                    && old(self).edge_of(eid).dst_port.0 >= num_inputs) implies
                self.has_edge_id(eid) by {
                if removed@.contains(eid) {
                    let j = removed@.index_of(eid);
                    assert(old(self).has_edge_id(removed@[j]));
                }
                assert(self.edges.valid(eid.0));
            }
            assert forall|j: NodeID| #![trigger self.has_node(j)] #![trigger old(self).has_node(j)]
                self.has_node(j) == old(self).has_node(j) by {
                assert(self.nodes.valid(j.idx) == old(self).nodes.valid(j.idx));
            }
            assert forall|j: NodeID| j != node_id && old(self).has_node(j) implies
                #[trigger] self.node_of(j) == old(self).node_of(j) by {
                assert(j.idx != node_id.idx);
                assert(self.nodes.value_of(j.idx) == old(self).nodes.value_of(j.idx));
            }
            assert(old(self).has_node(node_id));
            self.lemma_wf_after_port_change(
                *old(self),
                node_id,
                num_inputs as u32,
                old(self).node_of(node_id).num_outputs,
            );
        }
        Ok(removed)
    }

    /// Set the number of output ports of a node, removing any edges out of
    /// ports that the new count truncates. Fails exactly when the node is
    /// the graph output sentinel, unknown, or the count exceeds
    /// [`MAX_PORTS`]; on failure the graph is unchanged.
    pub fn set_num_outputs(&mut self, node_id: NodeID, num_outputs: usize) -> (r: Result<
        Vec<EdgeID>,
        (),
    >)
        requires
            old(self).wf(),
        ensures
            final(self).wf(),
            r is Err <==> node_id == old(self).graph_out_id || !old(self).has_node(node_id)
                || num_outputs > MAX_PORTS,
            r is Err ==> *final(self) == *old(self),
            r matches Ok(removed) ==> {
                &&& forall|j: NodeID| #![trigger final(self).has_node(j)] #![trigger old(self).has_node(j)]
                    final(self).has_node(j) == old(self).has_node(j)
                &&& forall|j: NodeID| #![trigger final(self).node_of(j)] #![trigger old(self).node_of(j)]
                    j != node_id && old(self).has_node(j) ==>
                        final(self).node_of(j) == old(self).node_of(j)
                &&& final(self).node_of(node_id).num_outputs == num_outputs
                &&& final(self).node_of(node_id).num_inputs == old(self).node_of(node_id).num_inputs
                &&& final(self).node_of(node_id).id == old(self).node_of(node_id).id
                &&& final(self).node_of(node_id).weight == old(self).node_of(node_id).weight
                &&& final(self).node_count() == old(self).node_count()
                &&& forall|eid: EdgeID| #[trigger] final(self).has_edge_id(eid) <==>
                    old(self).has_edge_id(eid) && !(old(self).edge_of(eid).src_node == node_id
                        && old(self).edge_of(eid).src_port.0 >= num_outputs)
                &&& forall|eid: EdgeID| #[trigger] final(self).has_edge_id(eid) ==>
                    final(self).edge_of(eid) == old(self).edge_of(eid)
                &&& forall|k: int| 0 <= k < removed@.len() ==>
                    old(self).has_edge_id(#[trigger] removed@[k])
                        && old(self).edge_of(removed@[k]).src_node == node_id
                        && old(self).edge_of(removed@[k]).src_port.0 >= num_outputs
                &&& forall|eid: EdgeID| old(self).has_edge_id(eid)
                    && (#[trigger] old(self).edge_of(eid)).src_node == node_id
                    && old(self).edge_of(eid).src_port.0 >= num_outputs ==> removed@.contains(eid)
                &&& forall|k1: int, k2: int| 0 <= k1 < k2 < removed@.len() ==>
                    removed@[k1] != removed@[k2]
                &&& Self::same_control(*old(self), *final(self))
                &&& final(self).active_nodes_to_remove@ == old(self).active_nodes_to_remove@
                &&& final(self).needs_compile
            },
    {
        if node_id == self.graph_out_id || num_outputs > MAX_PORTS as usize {
            return Err(());
        }
        if !self.nodes.contains(node_id.idx) {
            return Err(());
        }
        let n = num_outputs as u32;

        // Collect every edge out of a truncated output port.
        let mut removed: Vec<EdgeID> = Vec::new();
        let n_slots = self.edges.slot_count();
        let mut s: usize = 0;
        while s < n_slots
            invariant
                self.wf(),
                *self == *old(self),
                n == num_outputs,
                n_slots == self.edges.num_slots(),
                s <= n_slots,
                forall|k: int| 0 <= k < removed@.len() ==>
                    self.has_edge_id(#[trigger] removed@[k])
                        && self.edge_of(removed@[k]).src_node == node_id
                        && self.edge_of(removed@[k]).src_port.0 >= n
                        && removed@[k].0.slot < s,
                forall|k1: int, k2: int| 0 <= k1 < k2 < removed@.len() ==>
                    removed@[k1].0.slot < removed@[k2].0.slot,
                forall|eid: EdgeID| #[trigger] self.has_edge_id(eid) && eid.0.slot < s
                    && self.edge_of(eid).src_node == node_id
                    && self.edge_of(eid).src_port.0 >= n ==> removed@.contains(eid),
            decreases n_slots - s,
        {
            if let Some(i) = self.edges.index_at(s) {
                let e = *self.edges.get(i).unwrap();
                if e.src_node == node_id && e.src_port.0 >= n {
                    let ghost pre_removed = removed@;
                    removed.push(EdgeID(i));
                    proof {
                        assert forall|eid: EdgeID| #[trigger] self.has_edge_id(eid)
                            && eid.0.slot < s + 1 && self.edge_of(eid).src_node == node_id
                            && self.edge_of(eid).src_port.0 >= n implies
                            removed@.contains(eid) by {
                            if eid.0.slot < s {
                                assert(pre_removed.contains(eid));
                                let k = pre_removed.index_of(eid);
                                assert(removed@[k] == eid);
                            } else {
                                assert(eid.0 == i);
                                assert(removed@[removed@.len() - 1] == eid);
                            }
                        }
                    }
                }
            }
            s += 1;
        }
        proof {
            assert forall|eid: EdgeID| old(self).has_edge_id(eid)
                && (#[trigger] old(self).edge_of(eid)).src_node == node_id
                && old(self).edge_of(eid).src_port.0 >= num_outputs implies
                removed@.contains(eid) by {
                assert(self.has_edge_id(eid));
                assert(eid.0.slot < n_slots);
            }
        }

        remove_edges(&mut self.edges, &removed);
        let ghost g1: Self = *self;

        if let Some(entry) = self.nodes.get_mut(node_id.idx) {
            entry.num_outputs = n;
        }
        self.needs_compile = true;

        proof {
            assert forall|eid: EdgeID| #[trigger] self.has_edge_id(eid) implies
                old(self).has_edge_id(eid) && !(old(self).edge_of(eid).src_node == node_id
                    && old(self).edge_of(eid).src_port.0 >= num_outputs) by {
                assert(self.edges.valid(eid.0));
                assert(!removed@.contains(eid));
            }
            assert forall|eid: EdgeID| old(self).has_edge_id(eid)
                && !((#[trigger] old(self).edge_of(eid)).src_node == node_id
                    && old(self).edge_of(eid).src_port.0 >= num_outputs) implies
                self.has_edge_id(eid) by {
                if removed@.contains(eid) {
                    let j = removed@.index_of(eid);
                    assert(old(self).has_edge_id(removed@[j]));
                }
                assert(self.edges.valid(eid.0));
            }
            assert forall|j: NodeID| #![trigger self.has_node(j)] #![trigger old(self).has_node(j)]
                self.has_node(j) == old(self).has_node(j) by {
                assert(self.nodes.valid(j.idx) == old(self).nodes.valid(j.idx));
            }
            assert forall|j: NodeID| j != node_id && old(self).has_node(j) implies
                #[trigger] self.node_of(j) == old(self).node_of(j) by {
                assert(j.idx != node_id.idx);
                assert(self.nodes.value_of(j.idx) == old(self).nodes.value_of(j.idx));
            }
            assert(old(self).has_node(node_id));
            self.lemma_wf_after_port_change(
                *old(self),
                node_id,
                old(self).node_of(node_id).num_inputs,
                num_outputs as u32,
            );
        }
        Ok(removed)
    }

    /// Re-establish the invariants after changing one node's port counts
    /// and removing every edge that used a truncated port.
    proof fn lemma_wf_after_port_change(&self, pre: Self, node_id: NodeID, new_in: u32, new_out: u32)
        requires
            pre.wf(),
            new_in <= MAX_PORTS,
            new_out <= MAX_PORTS,
            pre.has_node(node_id),
            self.graph_in_id == pre.graph_in_id,
            self.graph_out_id == pre.graph_out_id,
            node_id == pre.graph_in_id ==> new_in == 0,
            node_id == pre.graph_out_id ==> new_out == 0,
            self.nodes.wf(),
            self.edges.wf(),
            forall|j: NodeID| #![trigger self.has_node(j)] #![trigger pre.has_node(j)]
                self.has_node(j) == pre.has_node(j),
            forall|j: NodeID| #![trigger self.node_of(j)] #![trigger pre.node_of(j)]
                j != node_id && pre.has_node(j) ==> self.node_of(j) == pre.node_of(j),
            self.node_of(node_id).id == pre.node_of(node_id).id,
            self.node_of(node_id).num_inputs == new_in,
            self.node_of(node_id).num_outputs == new_out,
            forall|eid: EdgeID| #[trigger] self.has_edge_id(eid) ==> pre.has_edge_id(eid)
                && self.edge_of(eid) == pre.edge_of(eid),
            forall|eid: EdgeID| #[trigger] self.has_edge_id(eid)
                && self.edge_of(eid).dst_node == node_id ==> self.edge_of(eid).dst_port.0 < new_in,
            forall|eid: EdgeID| #[trigger] self.has_edge_id(eid)
                && self.edge_of(eid).src_node == node_id ==> self.edge_of(eid).src_port.0 < new_out,
        ensures
            self.wf(),
    {
        assert(pre.has_node(self.graph_in_id));
        assert(pre.has_node(self.graph_out_id));
        assert forall|id: NodeID| #[trigger] self.has_node(id) implies self.node_of(id).id == id
            && self.node_of(id).num_inputs <= MAX_PORTS
            && self.node_of(id).num_outputs <= MAX_PORTS by {
            assert(pre.has_node(id));
        }
        assert forall|eid: EdgeID| #[trigger] self.has_edge_id(eid) implies
            self.edge_of(eid).id == eid && self.edge_ok(self.edge_of(eid)) by {
            assert(pre.has_edge_id(eid));
            let e = self.edge_of(eid);
            assert(pre.edge_ok(e));
            assert(pre.has_node(e.src_node) && pre.has_node(e.dst_node));
            assert(self.has_node(e.src_node) && self.has_node(e.dst_node));
        }
        assert forall|e1: EdgeID, e2: EdgeID|
            #[trigger] self.has_edge_id(e1) && #[trigger] self.has_edge_id(e2) && e1 != e2
            implies !(self.edge_of(e1).dst_node == self.edge_of(e2).dst_node
                && self.edge_of(e1).dst_port == self.edge_of(e2).dst_port) by {
            assert(pre.has_edge_id(e1));
            assert(pre.has_edge_id(e2));
        }
    }

    /// Remove every node except the two sentinels, together with all
    /// edges that touched a removed node.
    pub fn reset(&mut self)
        requires
            old(self).wf(),
        ensures
            final(self).wf(),
            forall|id: NodeID| #[trigger] final(self).has_node(id) <==>
                id == old(self).graph_in_id || id == old(self).graph_out_id,
            final(self).node_count() == 2,
            final(self).graph_in_id == old(self).graph_in_id,
            final(self).graph_out_id == old(self).graph_out_id,
            final(self).node_of(final(self).graph_in_id)
                == old(self).node_of(old(self).graph_in_id),
            final(self).node_of(final(self).graph_out_id)
                == old(self).node_of(old(self).graph_out_id),
            forall|eid: EdgeID| #[trigger] final(self).has_edge_id(eid) ==>
                old(self).has_edge_id(eid) && final(self).edge_of(eid) == old(self).edge_of(eid),
            forall|eid: EdgeID| #[trigger] old(self).has_edge_id(eid)
                && old(self).edge_of(eid).src_node == old(self).graph_in_id
                && old(self).edge_of(eid).dst_node == old(self).graph_out_id ==>
                final(self).has_edge_id(eid),
    {
        let n_slots = self.nodes.slot_count();
        let mut s: usize = 0;
        while s < n_slots
            invariant
                self.wf(),
                self.graph_in_id == old(self).graph_in_id,
                self.graph_out_id == old(self).graph_out_id,
                self.nodes.num_slots() == n_slots,
                s <= n_slots,
                forall|id: NodeID| #![trigger self.has_node(id)] #![trigger old(self).has_node(id)]
                    self.has_node(id) ==> old(self).has_node(id)
                        && self.node_of(id) == old(self).node_of(id),
                forall|id: NodeID| #[trigger] self.has_node(id) && id.idx.slot < s ==>
                    id == self.graph_in_id || id == self.graph_out_id,
                forall|eid: EdgeID| #[trigger] self.has_edge_id(eid) ==>
                    old(self).has_edge_id(eid)
                        && self.edge_of(eid) == old(self).edge_of(eid),
                forall|eid: EdgeID| #[trigger] old(self).has_edge_id(eid)
                    && old(self).edge_of(eid).src_node == old(self).graph_in_id
                    && old(self).edge_of(eid).dst_node == old(self).graph_out_id ==>
                    self.has_edge_id(eid),
            decreases n_slots - s,
        {
            if let Some(i) = self.nodes.index_at(s) {
                let id = self.nodes.get(i).unwrap().id;
                proof {
                    assert(self.has_node(NodeID { idx: i }));
                    assert(id == NodeID { idx: i });
                }
                if !(id == self.graph_in_id) && !(id == self.graph_out_id) {
                    let ghost pre = *self;
                    self.remove_node(id).unwrap();
                    proof {
                        assert forall|j: NodeID| #[trigger] self.has_node(j) implies
                            old(self).has_node(j) && self.node_of(j) == old(self).node_of(j) by {
                            assert(pre.has_node(j));
                        }
                        assert forall|eid: EdgeID| #[trigger] self.has_edge_id(eid) implies
                            old(self).has_edge_id(eid)
                                && self.edge_of(eid) == old(self).edge_of(eid) by {
                            assert(pre.has_edge_id(eid));
                        }
                    }
                }
            }
            s += 1;
        }
        proof {
            assert forall|id: NodeID| #[trigger] self.has_node(id) implies
                id == self.graph_in_id || id == self.graph_out_id by {
                assert(id.idx.slot < n_slots);
            }
            vstd::std_specs::vec::axiom_spec_len(&self.nodes.slots);
            crate::arena::lemma_valid_set_len(self.nodes.slots@);
            let sentinels = Set::<ArenaIndex>::empty().insert(self.graph_in_id.idx).insert(
                self.graph_out_id.idx,
            );
            assert forall|i: ArenaIndex|
                crate::arena::valid_set_of(self.nodes.slots@).contains(i) == sentinels.contains(i) by {
                if crate::arena::valid_set_of(self.nodes.slots@).contains(i) {
                    assert(self.has_node(NodeID { idx: i }));
                }
                if sentinels.contains(i) {
                    assert(self.has_node(NodeID { idx: i }));
                    assert(crate::arena::valid_set_of(self.nodes.slots@).contains(i));
                }
            }
            assert(crate::arena::valid_set_of(self.nodes.slots@) =~= sentinels);
            assert(!Set::<ArenaIndex>::empty().insert(self.graph_in_id.idx).contains(
                self.graph_out_id.idx,
            ));
            assert(sentinels.len() == 2);
        }
    }
}

/// Remove every edge named in `removed` from the arena. The entries must
/// be live and pairwise distinct.
fn remove_edges(edges: &mut Arena<Edge>, removed: &Vec<EdgeID>)
    requires
        old(edges).wf(),
        forall|j: int| 0 <= j < removed@.len() ==> old(edges).valid((#[trigger] removed@[j]).0),
        forall|j1: int, j2: int| 0 <= j1 < j2 < removed@.len() ==> removed@[j1] != removed@[j2],
    ensures
        final(edges).wf(),
        forall|eid: EdgeID| #[trigger] final(edges).valid(eid.0) <==>
            old(edges).valid(eid.0) && !removed@.contains(eid),
        forall|eid: EdgeID| #[trigger] final(edges).valid(eid.0) ==>
            final(edges).value_of(eid.0) == old(edges).value_of(eid.0),
        final(edges).len() == old(edges).len() - removed@.len(),
        final(edges).num_slots() == old(edges).num_slots(),
{
    let mut k: usize = 0;
    while k < removed.len()
        invariant
            0 <= k <= removed@.len(),
            edges.wf(),
            forall|j: int| 0 <= j < removed@.len() ==> old(edges).valid((#[trigger] removed@[j]).0),
            forall|j1: int, j2: int| 0 <= j1 < j2 < removed@.len() ==> removed@[j1] != removed@[j2],
            forall|eid: EdgeID| #[trigger] edges.valid(eid.0) <==>
                old(edges).valid(eid.0) && !removed@.take(k as int).contains(eid),
            forall|eid: EdgeID| #[trigger] edges.valid(eid.0) ==>
                edges.value_of(eid.0) == old(edges).value_of(eid.0),
            edges.len() == old(edges).len() - k,
            edges.num_slots() == old(edges).num_slots(),
        decreases removed@.len() - k,
    {
        let eid = removed[k];
        proof {
            assert(!removed@.take(k as int).contains(eid));
            assert(edges.valid(eid.0));
        }
        let ghost pre = *edges;
        edges.remove(eid.0);
        proof {
            assert forall|e: EdgeID| #[trigger] edges.valid(e.0) implies
                old(edges).valid(e.0) && !removed@.take(k as int + 1).contains(e) by {
                assert(pre.valid(e.0));
                if removed@.take(k as int + 1).contains(e) {
                    let j = removed@.take(k as int + 1).index_of(e);
                    if j < k as int {
                        assert(removed@.take(k as int)[j] == e);
                    } else {
                        assert(e == eid);
                    }
                }
            }
            assert forall|e: EdgeID| old(edges).valid(e.0)
                && !removed@.take(k as int + 1).contains(e) implies
                #[trigger] edges.valid(e.0) by {
                assert(!removed@.take(k as int).contains(e)) by {
                    if removed@.take(k as int).contains(e) {
                        let j = removed@.take(k as int).index_of(e);
                        assert(removed@.take(k as int + 1)[j] == e);
                    }
                }
                assert(e != eid) by {
                    assert(removed@.take(k as int + 1)[k as int] == eid);
                }
                assert(pre.valid(e.0));
            }
            assert forall|e: EdgeID| #[trigger] edges.valid(e.0) implies
                edges.value_of(e.0) == old(edges).value_of(e.0) by {
                assert(e.0 != eid.0);
                assert(pre.valid(e.0));
            }
        }
        k += 1;
    }
    proof {
        assert(removed@.take(removed@.len() as int) =~= removed@);
    }
}

} // verus!
