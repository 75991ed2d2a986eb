//! Round-trip laws of the mutation API, stated over the same observations
//! (live nodes, live edges and their values) that the mutation contracts
//! use, and proved from those contracts alone.

use vstd::prelude::*;

use crate::compiler::ScheduledNode;
use crate::graph::{AudioGraph, EdgeID, NodeID};

verus! {

/// Two input ports of one scheduled node that are fed from the same
/// source node through different output ports receive distinct buffers:
/// each input shares its edge's source output buffer, and one node's
/// output buffers are pairwise distinct. (Two inputs fed from the same
/// source output port share that buffer by design, and that is the one
/// exception to input distinctness.)
pub proof fn lemma_sibling_inputs_distinct<N>(
    g: AudioGraph<N>,
    order: Seq<NodeID>,
    sched: Seq<ScheduledNode>,
    num_buffers: int,
    eid1: EdgeID,
    eid2: EdgeID,
    k: int,
    k_src: int,
)
    requires
        g.schedule_structure(order, sched, num_buffers),
        g.schedule_routes_edges(order, sched),
        g.has_edge_id(eid1),
        g.has_edge_id(eid2),
        0 <= k < sched.len(),
        0 <= k_src < sched.len(),
        g.edge_of(eid1).dst_node == order[k],
        g.edge_of(eid2).dst_node == order[k],
        g.edge_of(eid1).src_node == order[k_src],
        g.edge_of(eid2).src_node == order[k_src],
        g.edge_of(eid1).src_port != g.edge_of(eid2).src_port,
        g.edge_of(eid1).src_port.0 < sched[k_src].output_buffers@.len(),
        g.edge_of(eid2).src_port.0 < sched[k_src].output_buffers@.len(),
        g.edge_of(eid1).dst_port.0 < sched[k].input_buffers@.len(),
        g.edge_of(eid2).dst_port.0 < sched[k].input_buffers@.len(),
    ensures
        sched[k].input_buffers@[g.edge_of(eid1).dst_port.0 as int].buffer_index
            != sched[k].input_buffers@[g.edge_of(eid2).dst_port.0 as int].buffer_index,
{
    let e1 = g.edge_of(eid1);
    let e2 = g.edge_of(eid2);
    assert(sched[k].input_buffers@[e1.dst_port.0 as int].buffer_index
        == sched[k_src].output_buffers@[e1.src_port.0 as int].buffer_index);
    assert(sched[k].input_buffers@[e2.dst_port.0 as int].buffer_index
        == sched[k_src].output_buffers@[e2.src_port.0 as int].buffer_index);
    let p1 = e1.src_port.0 as int;
    let p2 = e2.src_port.0 as int;
    if p1 < p2 {
        assert(sched[k_src].output_buffers@[p1].buffer_index
            != sched[k_src].output_buffers@[p2].buffer_index);
    } else {
        assert(sched[k_src].output_buffers@[p2].buffer_index
            != sched[k_src].output_buffers@[p1].buffer_index);
    }
}

/// Adding a node and then removing it restores the node count, and every
/// edge of the original graph survives untouched: the fresh node had no
/// edges of its own, and removal only deletes edges that touch it.
///
/// `g0` is the graph before `add_node`, `g1` the graph after it returned
/// the fresh `id`, and `g2` the graph after `remove_node(id)` succeeded;
/// the hypotheses are exactly what those two contracts ensure.
pub proof fn lemma_add_remove_node_round_trip<N>(
    g0: AudioGraph<N>,
    g1: AudioGraph<N>,
    g2: AudioGraph<N>,
    id: NodeID,
)
    requires
        g0.wf(),
        g1.wf(),
        !g0.has_node(id),
        g1.has_node(id),
        forall|j: NodeID| #![trigger g1.has_node(j)] #![trigger g0.has_node(j)]
            j != id ==> g1.has_node(j) == g0.has_node(j),
        g1.node_count() == g0.node_count() + 1,
        AudioGraph::same_edges(g0, g1),
        !g2.has_node(id),
        forall|j: NodeID| #![trigger g2.has_node(j)] #![trigger g1.has_node(j)]
            j != id ==> g2.has_node(j) == g1.has_node(j),
        g2.node_count() == g1.node_count() - 1,
        forall|eid: EdgeID| #[trigger] g2.has_edge_id(eid) <==> g1.has_edge_id(eid)
            && !AudioGraph::<N>::touches(g1.edge_of(eid), id),
        forall|eid: EdgeID| #[trigger] g2.has_edge_id(eid) ==> g2.edge_of(eid) == g1.edge_of(eid),
    ensures
        g2.node_count() == g0.node_count(),
        forall|j: NodeID| #![trigger g2.has_node(j)] #![trigger g0.has_node(j)]
            g2.has_node(j) == g0.has_node(j),
        forall|eid: EdgeID| #![trigger g2.has_edge_id(eid)] #![trigger g0.has_edge_id(eid)]
            g2.has_edge_id(eid) == g0.has_edge_id(eid),
        forall|eid: EdgeID| g0.has_edge_id(eid) ==> #[trigger] g2.edge_of(eid) == g0.edge_of(eid),
{
    assert forall|eid: EdgeID| #[trigger] g1.has_edge_id(eid) implies !AudioGraph::<N>::touches(
        g1.edge_of(eid),
        id,
    ) by {
        assert(g0.has_edge_id(eid));
        let e = g1.edge_of(eid);
        assert(e == g0.edge_of(eid));
        assert(g0.edge_ok(e));
        assert(g0.has_node(e.src_node) && g0.has_node(e.dst_node));
    }
    assert forall|j: NodeID| #![trigger g2.has_node(j)] #![trigger g0.has_node(j)]
        true implies g2.has_node(j) == g0.has_node(j) by {
        if j == id {
            assert(!g2.has_node(j) && !g0.has_node(j));
        }
    }
    assert forall|eid: EdgeID| #![trigger g2.has_edge_id(eid)] #![trigger g0.has_edge_id(eid)]
        true implies g2.has_edge_id(eid) == g0.has_edge_id(eid) by {
        if g1.has_edge_id(eid) {
            assert(!AudioGraph::<N>::touches(g1.edge_of(eid), id));
        }
    }
}

/// Connecting an edge and then disconnecting it by its id returns the
/// edge set, edge for edge and value for value, to its prior state.
///
/// `g0` is the graph before `connect`, `g1` the graph after it returned
/// the fresh `eid`, and `g2` the graph after `disconnect_by_edge_id(eid)`
/// returned `true`; the hypotheses are exactly what those two contracts
/// ensure.
pub proof fn lemma_connect_disconnect_round_trip<N>(
    g0: AudioGraph<N>,
    g1: AudioGraph<N>,
    g2: AudioGraph<N>,
    eid: EdgeID,
)
    requires
        !g0.has_edge_id(eid),
        g1.has_edge_id(eid),
        g1.edge_count() == g0.edge_count() + 1,
        forall|x: EdgeID| #![trigger g1.has_edge_id(x)] #![trigger g0.has_edge_id(x)]
            x != eid ==> g1.has_edge_id(x) == g0.has_edge_id(x),
        forall|x: EdgeID| #![trigger g1.edge_of(x)] #![trigger g0.edge_of(x)]
            x != eid && g0.has_edge_id(x) ==> g1.edge_of(x) == g0.edge_of(x),
        AudioGraph::edge_removed(g1, g2, eid),
    ensures
        g2.edge_count() == g0.edge_count(),
        forall|x: EdgeID| #![trigger g2.has_edge_id(x)] #![trigger g0.has_edge_id(x)]
            g2.has_edge_id(x) == g0.has_edge_id(x),
        forall|x: EdgeID| g0.has_edge_id(x) ==> #[trigger] g2.edge_of(x) == g0.edge_of(x),
{
    assert forall|x: EdgeID| #![trigger g2.has_edge_id(x)] #![trigger g0.has_edge_id(x)]
        true implies g2.has_edge_id(x) == g0.has_edge_id(x) by {
        if x == eid {
            assert(!g2.has_edge_id(x));
        } else {
            assert(g2.has_edge_id(x) == g1.has_edge_id(x));
        }
    }
    assert forall|x: EdgeID| g0.has_edge_id(x) implies #[trigger] g2.edge_of(x)
        == g0.edge_of(x) by {
        assert(x != eid);
        assert(g1.has_edge_id(x));
        assert(g2.edge_of(x) == g1.edge_of(x));
    }
}

} // verus!
