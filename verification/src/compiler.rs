//! The graph compiler: a topological sort of the nodes (Kahn's algorithm)
//! followed by buffer assignment. The sort succeeds exactly when the graph
//! has a topological order, so its failure is the cycle check.

use vstd::prelude::*;

use crate::arena::ArenaSlot;
use crate::graph::{AudioGraph, Edge, EdgeID, InPortIdx, NodeID};

verus! {

/// The number of edges stored in slots `[0, upto)` that end at a node in
/// slot `dslot` and start at a node outside `visited`.
pub open spec fn unvisited_in_degree(
    edges: Seq<ArenaSlot<Edge>>,
    upto: int,
    visited: Set<NodeID>,
    dslot: int,
) -> nat
    decreases upto,
{
    if upto <= 0 || upto > edges.len() {
        0
    } else {
        unvisited_in_degree(edges, upto - 1, visited, dslot) + (match edges[upto - 1].value {
            Some(e) => {
                if e.dst_node.idx.slot == dslot && !visited.contains(e.src_node) {
                    1nat
                } else {
                    0nat
                }
            },
            None => 0nat,
        })
    }
}

/// The number of edges stored in slots `[0, upto)` that start at `src` and
/// end at a node in slot `dslot`.
pub open spec fn out_degree_to(
    edges: Seq<ArenaSlot<Edge>>,
    upto: int,
    src: NodeID,
    dslot: int,
) -> nat
    decreases upto,
{
    if upto <= 0 || upto > edges.len() {
        0
    } else {
        out_degree_to(edges, upto - 1, src, dslot) + (match edges[upto - 1].value {
            Some(e) => {
                if e.src_node == src && e.dst_node.idx.slot == dslot {
                    1nat
                } else {
                    0nat
                }
            },
            None => 0nat,
        })
    }
}

/// Growing the visited set can only lower the unvisited in-degree.
proof fn lemma_in_degree_monotone(
    edges: Seq<ArenaSlot<Edge>>,
    upto: int,
    v1: Set<NodeID>,
    v2: Set<NodeID>,
    dslot: int,
)
    requires
        forall|id: NodeID| v1.contains(id) ==> v2.contains(id),
    ensures
        unvisited_in_degree(edges, upto, v2, dslot) <= unvisited_in_degree(edges, upto, v1, dslot),
    decreases upto,
{
    if upto > 0 && upto <= edges.len() {
        lemma_in_degree_monotone(edges, upto - 1, v1, v2, dslot);
    }
}

/// The unvisited in-degree is zero exactly when every stored edge into
/// `dslot` starts inside `visited`.
proof fn lemma_in_degree_zero(
    edges: Seq<ArenaSlot<Edge>>,
    upto: int,
    visited: Set<NodeID>,
    dslot: int,
)
    requires
        0 <= upto <= edges.len(),
    ensures
        unvisited_in_degree(edges, upto, visited, dslot) == 0 <==> forall|j: int|
            0 <= j < upto && (#[trigger] edges[j]).value is Some
                && edges[j].value->Some_0.dst_node.idx.slot == dslot ==> visited.contains(
                edges[j].value->Some_0.src_node,
            ),
    decreases upto,
{
    if upto > 0 {
        lemma_in_degree_zero(edges, upto - 1, visited, dslot);
    }
}

/// Marking one more node visited removes exactly its outgoing edges from
/// the unvisited in-degree.
proof fn lemma_in_degree_split(
    edges: Seq<ArenaSlot<Edge>>,
    upto: int,
    visited: Set<NodeID>,
    id: NodeID,
    dslot: int,
)
    requires
        !visited.contains(id),
    ensures
        unvisited_in_degree(edges, upto, visited, dslot) == unvisited_in_degree(
            edges,
            upto,
            visited.insert(id),
            dslot,
        ) + out_degree_to(edges, upto, id, dslot),
    decreases upto,
{
    if upto > 0 && upto <= edges.len() {
        lemma_in_degree_split(edges, upto - 1, visited, id, dslot);
    }
}

/// The out-degree count grows with the scanned prefix.
proof fn lemma_out_degree_monotone(
    edges: Seq<ArenaSlot<Edge>>,
    u1: int,
    u2: int,
    src: NodeID,
    dslot: int,
)
    requires
        0 <= u1 <= u2 <= edges.len(),
    ensures
        out_degree_to(edges, u1, src, dslot) <= out_degree_to(edges, u2, src, dslot),
    decreases u2,
{
    if u2 > u1 {
        lemma_out_degree_monotone(edges, u1, u2 - 1, src, dslot);
    }
}

/// A subset of a finite set with the same size is that set.
proof fn lemma_subset_same_len<A>(s1: Set<A>, s2: Set<A>)
    requires
        s1.subset_of(s2),
        s2.finite(),
        s1.len() == s2.len(),
    ensures
        s1 =~= s2,
{
    vstd::set_lib::lemma_len_subset(s1, s2);
    assert forall|x: A| s2.contains(x) implies s1.contains(x) by {
        if !s1.contains(x) {
            s1.lemma_subset_not_in_lt(s2, x);
        }
    }
}

/// Taking one more element appends it to the prefix's set.
proof fn lemma_take_push_to_set(s: Seq<NodeID>, k: int)
    requires
        0 <= k < s.len(),
    ensures
        s.take(k + 1).to_set() == s.take(k).to_set().insert(s[k]),
        s.take(k + 1).to_set().contains(s[k]),
    decreases 0int,
{
    assert(s.take(k + 1) =~= s.take(k).push(s[k]));
    assert forall|x: NodeID| s.take(k + 1).to_set().contains(x) implies s.take(k).to_set().insert(
        s[k],
    ).contains(x) by {
        let j = s.take(k + 1).lemma_contains_to_index(x);
        if j < k {
            assert(s.take(k)[j] == x);
        }
    }
    assert forall|x: NodeID| s.take(k).to_set().insert(s[k]).contains(x) implies s.take(k + 1)
        .to_set().contains(x) by {
        if s.take(k).to_set().contains(x) {
            let j = s.take(k).lemma_contains_to_index(x);
            assert(s.take(k + 1)[j] == x);
        } else {
            assert(s.take(k + 1)[k] == x);
        }
    }
    assert(s.take(k + 1).to_set() =~= s.take(k).to_set().insert(s[k]));
    assert(s.take(k + 1)[k] == s[k]);
}

impl<N> AudioGraph<N> {
    /// Whether `order` is a topological order of the whole graph: it lists
    /// every live node exactly once, and every edge points forward in it.
    pub open spec fn is_topo_order(&self, order: Seq<NodeID>) -> bool {
        &&& order.len() == self.node_count()
        &&& forall|k: int| 0 <= k < order.len() ==> self.has_node(#[trigger] order[k])
        &&& forall|id: NodeID| #[trigger] self.has_node(id) ==> order.contains(id)
        &&& order.no_duplicates()
        &&& forall|eid: EdgeID| #[trigger] self.has_edge_id(eid) ==> exists|k1: int, k2: int|
            0 <= k1 < k2 < order.len() && order[k1] == self.edge_of(eid).src_node && order[k2]
                == self.edge_of(eid).dst_node
    }

    /// Whether the graph can be scheduled at all: acyclicity, expressed as
    /// the existence of a topological order.
    pub open spec fn schedulable(&self) -> bool {
        exists|order: Seq<NodeID>| self.is_topo_order(order)
    }

    /// The set of live node ids.
    pub open spec fn node_id_set(&self) -> Set<NodeID> {
        Set::new(|id: NodeID| self.has_node(id))
    }

    /// The live node ids form a finite set of size `node_count`.
    proof fn lemma_node_id_set_len(&self)
        requires
            self.nodes.wf(),
        ensures
            self.node_id_set().finite(),
            self.node_id_set().len() == self.node_count(),
    {
        vstd::std_specs::vec::axiom_spec_len(&self.nodes.slots);
        crate::arena::lemma_valid_set_len(self.nodes.slots@);
        let vs = crate::arena::valid_set_of(self.nodes.slots@);
        let g = |i: crate::arena::ArenaIndex| NodeID { idx: i };
        assert forall|id: NodeID| self.node_id_set().contains(id) implies vs.map(g).contains(
            id,
        ) by {
            assert(vs.contains(id.idx) && g(id.idx) == id);
        }
        assert(self.node_id_set() =~= vs.map(g));
        assert(vstd::relations::injective_on(g, vs));
        vstd::set_lib::lemma_map_size(vs, self.node_id_set(), g);
    }

    /// If Kahn's queue drained without reaching a node, no topological
    /// order can place that node either: every prefix of a topological
    /// order is contained in the drained queue (the graph output sentinel
    /// aside, which the sort holds back).
    proof fn lemma_sigma_prefix(
        &self,
        q: Seq<NodeID>,
        indeg: Seq<usize>,
        sigma: Seq<NodeID>,
        m: int,
    )
        requires
            self.wf(),
            self.is_topo_order(sigma),
            indeg.len() == self.nodes.num_slots(),
            forall|ns: int| 0 <= ns < indeg.len() ==> indeg[ns] == unvisited_in_degree(
                self.edges.slots@,
                self.edges.num_slots() as int,
                q.to_set(),
                ns,
            ),
            forall|id: NodeID| #[trigger] self.has_node(id) && id != self.graph_out_id
                && !q.contains(id) ==> indeg[id.idx.slot as int] >= 1,
            0 <= m <= sigma.len(),
        ensures
            forall|j: int| 0 <= j < m && sigma[j] != self.graph_out_id ==> q.contains(
                #[trigger] sigma[j],
            ),
        decreases m,
    {
        vstd::std_specs::vec::axiom_spec_len(&self.edges.slots);
        if m > 0 {
            self.lemma_sigma_prefix(q, indeg, sigma, m - 1);
            let id = sigma[m - 1];
            if id != self.graph_out_id {
                assert(self.has_node(id));
                let all_edges = self.edges.slots@;
                let ne = self.edges.num_slots() as int;
                assert forall|j: int|
                    0 <= j < ne && (#[trigger] all_edges[j]).value is Some
                        && all_edges[j].value->Some_0.dst_node.idx.slot == id.idx.slot as int
                    implies q.to_set().contains(all_edges[j].value->Some_0.src_node) by {
                    let eid = EdgeID(crate::arena::ArenaIndex {
                        slot: j as usize,
                        generation: all_edges[j].generation,
                    });
                    assert(self.has_edge_id(eid));
                    let e = self.edge_of(eid);
                    assert(self.edge_ok(e));
                    assert(self.has_node(e.dst_node));
                    assert(e.dst_node == id);
                    let (k1, k2) = choose|k1: int, k2: int|
                        0 <= k1 < k2 < sigma.len() && sigma[k1] == e.src_node && sigma[k2]
                            == e.dst_node;
                    assert(sigma[k2] == sigma[m - 1]);
                    assert(k2 == m - 1);
                    let ps = k1;
                    assert(0 <= ps < sigma.len() && sigma[ps] == e.src_node);
                    assert(ps < m - 1);
                    assert(e.src_node != self.graph_out_id) by {
                        assert(e.src_port.0 < self.node_of(e.src_node).num_outputs);
                    }
                    assert(q.contains(e.src_node));
                    let pq = q.index_of(e.src_node);
                    assert(q[pq] == e.src_node);
                }
                lemma_in_degree_zero(all_edges, ne, q.to_set(), id.idx.slot as int);
                assert(indeg[id.idx.slot as int] == 0);
                assert(q.contains(id));
            }
            assert forall|j: int| 0 <= j < m && sigma[j] != self.graph_out_id implies q.contains(
                #[trigger] sigma[j],
            ) by {}
        }
    }

    /// Sort the live nodes topologically with Kahn's algorithm. The graph
    /// input sentinel is scheduled first and the graph output sentinel
    /// last; ties are broken by slot order. Returns `None` exactly when
    /// the graph has no topological order, that is, when it has a cycle.
    pub fn topo_order(&self) -> (r: Option<Vec<NodeID>>)
        requires
            self.wf(),
        ensures
            r matches Some(order) ==> self.is_topo_order(order@) && order@.len() >= 2
                && order@[0] == self.graph_in_id && order@.last() == self.graph_out_id,
            r is Some <==> self.schedulable(),
    {
        let n_node_slots = self.nodes.slot_count();
        let n_edge_slots = self.edges.slot_count();
        let total = self.nodes.num_entries();
        let ghost all_edges = self.edges.slots@;
        let ghost ne = self.edges.num_slots() as int;

        // Build the in-degree of every node, indexed by node slot.
        let mut indeg: Vec<usize> = Vec::new();
        while indeg.len() < n_node_slots
            invariant
                indeg@.len() <= n_node_slots,
                forall|ns: int| 0 <= ns < indeg@.len() ==> indeg@[ns] == 0,
            decreases n_node_slots - indeg@.len(),
        {
            indeg.push(0);
        }
        proof {
            assert forall|ns: int| 0 <= ns < indeg@.len() implies indeg@[ns]
                == unvisited_in_degree(all_edges, 0, Set::empty(), ns) by {}
        }
        let mut es: usize = 0;
        while es < n_edge_slots
            invariant
                self.wf(),
                es <= n_edge_slots,
                n_edge_slots == self.edges.num_slots(),
                all_edges == self.edges.slots@,
                indeg@.len() == n_node_slots,
                n_node_slots == self.nodes.num_slots(),
                forall|ns: int| 0 <= ns < indeg@.len() ==> indeg@[ns] == unvisited_in_degree(
                    all_edges,
                    es as int,
                    Set::empty(),
                    ns,
                ),
            decreases n_edge_slots - es,
        {
            if let Some(i) = self.edges.index_at(es) {
                let e = *self.edges.get(i).unwrap();
                proof {
                    assert(self.has_edge_id(EdgeID(i)));
                    assert(self.edge_ok(e));
                    assert(self.has_node(e.dst_node));
                    assert(indeg@[e.dst_node.idx.slot as int] + 1 <= es + 1) by {
                        lemma_in_degree_bounded(all_edges, es as int, Set::empty(),
                            e.dst_node.idx.slot as int);
                    }
                }
                let ds = e.dst_node.idx.slot;
                let old_v = indeg[ds];
                indeg[ds] = old_v + 1;
            }
            es += 1;
        }

        // Seed the queue: the graph input sentinel first, then every other
        // node with no incoming edges, in slot order. The graph output
        // sentinel is always held back for the final position.
        let mut queue: Vec<NodeID> = Vec::new();
        queue.push(self.graph_in_id);
        proof {
            assert(unvisited_in_degree(all_edges, ne, Set::empty(),
                self.graph_in_id.idx.slot as int) == 0) by {
                lemma_in_degree_zero(all_edges, ne, Set::empty(),
                    self.graph_in_id.idx.slot as int);
                assert forall|j: int|
                    0 <= j < ne && (#[trigger] all_edges[j]).value is Some
                        && all_edges[j].value->Some_0.dst_node.idx.slot
                        == self.graph_in_id.idx.slot as int implies Set::<NodeID>::empty().contains(
                    all_edges[j].value->Some_0.src_node,
                ) by {
                    let eid = EdgeID(crate::arena::ArenaIndex {
                        slot: j as usize,
                        generation: all_edges[j].generation,
                    });
                    assert(self.has_edge_id(eid));
                    let e = self.edge_of(eid);
                    assert(self.edge_ok(e));
                    assert(self.has_node(e.dst_node));
                    assert(e.dst_node == self.graph_in_id);
                    assert(e.dst_port.0 < self.node_of(self.graph_in_id).num_inputs);
                }
            }
        }
        let mut s: usize = 0;
        while s < n_node_slots
            invariant
                self.wf(),
                s <= n_node_slots,
                n_node_slots == self.nodes.num_slots(),
                all_edges == self.edges.slots@,
                ne == self.edges.num_slots() as int,
                indeg@.len() == n_node_slots,
                forall|ns: int| 0 <= ns < indeg@.len() ==> indeg@[ns] == unvisited_in_degree(
                    all_edges,
                    ne,
                    Set::empty(),
                    ns,
                ),
                queue@.len() >= 1,
                queue@[0] == self.graph_in_id,
                forall|k: int| 0 <= k < queue@.len() ==> self.has_node(#[trigger] queue@[k])
                    && queue@[k] != self.graph_out_id,
                queue@.no_duplicates(),
                forall|k: int| 1 <= k < queue@.len() ==> (#[trigger] queue@[k]).idx.slot < s
                    && queue@[k] != self.graph_in_id,
                forall|k1: int, k2: int| 1 <= k1 < k2 < queue@.len() ==>
                    queue@[k1].idx.slot < queue@[k2].idx.slot,
                forall|k: int| 0 <= k < queue@.len() ==> unvisited_in_degree(
                    all_edges,
                    ne,
                    Set::empty(),
                    (#[trigger] queue@[k]).idx.slot as int,
                ) == 0,
                forall|id: NodeID| #[trigger] self.has_node(id) && id != self.graph_out_id
                    && id.idx.slot < s && unvisited_in_degree(all_edges, ne, Set::empty(),
                        id.idx.slot as int) == 0 ==> queue@.contains(id),
            decreases n_node_slots - s,
        {
            if let Some(i) = self.nodes.index_at(s) {
                let id = NodeID { idx: i };
                proof {
                    assert(self.has_node(id));
                }
                if !(id == self.graph_in_id) && !(id == self.graph_out_id) && indeg[s] == 0 {
                    let ghost prev = queue@;
                    queue.push(id);
                    proof {
                        assert forall|idq: NodeID| #[trigger] self.has_node(idq)
                            && idq != self.graph_out_id && idq.idx.slot < s + 1
                            && unvisited_in_degree(all_edges, ne, Set::empty(),
                                idq.idx.slot as int) == 0 implies queue@.contains(idq) by {
                            if idq.idx.slot < s {
                                assert(prev.contains(idq));
                                let j = prev.index_of(idq);
                                assert(queue@[j] == idq);
                            } else {
                                assert(idq == id);
                                assert(queue@[queue@.len() - 1] == idq);
                            }
                        }
                    }
                }
            }
            s += 1;
        }
        proof {
            assert forall|id: NodeID| #[trigger] self.has_node(id) && id != self.graph_out_id
                && !queue@.contains(id) implies indeg@[id.idx.slot as int] >= 1 by {
                assert(id.idx.slot < n_node_slots);
            }
            assert(queue@.take(0).to_set() =~= Set::<NodeID>::empty());
            queue@.unique_seq_to_set();
            self.lemma_node_id_set_len();
            assert forall|x: NodeID| queue@.to_set().contains(x) implies
                self.node_id_set().contains(x) by {
                let kx = queue@.lemma_contains_to_index(x);
                assert(self.has_node(queue@[kx]));
            }
            vstd::set_lib::lemma_len_subset(queue@.to_set(), self.node_id_set());
            assert forall|k: int| 0 <= k < queue@.len() implies unvisited_in_degree(
                all_edges,
                ne,
                queue@.take(0).to_set(),
                (#[trigger] queue@[k]).idx.slot as int,
            ) == 0 by {}
        }

        // Kahn's main loop: pop in order, mark visited, decrement the
        // in-degree of each successor, enqueueing those that reach zero.
        let mut head: usize = 0;
        while head < queue.len()
            invariant
                self.wf(),
                head <= queue@.len(),
                n_edge_slots == self.edges.num_slots(),
                n_node_slots == self.nodes.num_slots(),
                all_edges == self.edges.slots@,
                ne == self.edges.num_slots() as int,
                indeg@.len() == n_node_slots,
                queue@.len() >= 1,
                queue@[0] == self.graph_in_id,
                forall|k: int| 0 <= k < queue@.len() ==> self.has_node(#[trigger] queue@[k])
                    && queue@[k] != self.graph_out_id,
                queue@.no_duplicates(),
                forall|ns: int| 0 <= ns < indeg@.len() ==> indeg@[ns] == unvisited_in_degree(
                    all_edges,
                    ne,
                    queue@.take(head as int).to_set(),
                    ns,
                ),
                forall|k: int| 0 <= k < queue@.len() ==>
                    indeg@[(#[trigger] queue@[k]).idx.slot as int] == 0,
                forall|id: NodeID| #[trigger] self.has_node(id) && id != self.graph_out_id
                    && !queue@.contains(id) ==> indeg@[id.idx.slot as int] >= 1,
                queue@.len() <= self.node_count(),
                forall|k: int, eid: EdgeID|
                    #![trigger queue@[k], self.has_edge_id(eid)]
                    0 <= k < head && self.has_edge_id(eid)
                        && self.edge_of(eid).dst_node == queue@[k] ==> exists|k2: int|
                        0 <= k2 < k && queue@[k2] == self.edge_of(eid).src_node,
            decreases self.node_count() - head,
        {
            let id = queue[head];
            head += 1;
            proof {
                lemma_take_push_to_set(queue@, head as int - 1);
                assert(!queue@.take(head as int - 1).to_set().contains(id)) by {
                    if queue@.take(head as int - 1).to_set().contains(id) {
                        let j = queue@.take(head as int - 1).lemma_contains_to_index(id);
                        assert(queue@[j] == id);
                        assert(queue@[head as int - 1] == id);
                    }
                }
            }

            let mut es2: usize = 0;
            while es2 < n_edge_slots
                invariant
                    self.wf(),
                    es2 <= n_edge_slots,
                    1 <= head <= queue@.len(),
                    n_edge_slots == self.edges.num_slots(),
                    n_node_slots == self.nodes.num_slots(),
                    all_edges == self.edges.slots@,
                    ne == self.edges.num_slots() as int,
                    indeg@.len() == n_node_slots,
                    queue@.len() >= 1,
                    queue@[0] == self.graph_in_id,
                    id == queue@[head as int - 1],
                    self.has_node(id),
                    !queue@.take(head as int - 1).to_set().contains(id),
                    queue@.take(head as int).to_set() == queue@.take(head as int - 1)
                        .to_set().insert(id),
                    forall|k: int| 0 <= k < queue@.len() ==> self.has_node(#[trigger] queue@[k])
                        && queue@[k] != self.graph_out_id,
                    queue@.no_duplicates(),
                    forall|ns: int| 0 <= ns < indeg@.len() ==> indeg@[ns] == unvisited_in_degree(
                        all_edges,
                        ne,
                        queue@.take(head as int - 1).to_set(),
                        ns,
                    ) - out_degree_to(all_edges, es2 as int, id, ns),
                    forall|k: int| 0 <= k < queue@.len() ==>
                        indeg@[(#[trigger] queue@[k]).idx.slot as int] == 0,
                    queue@.len() <= self.node_count(),
                    forall|idq: NodeID| #[trigger] self.has_node(idq) && idq != self.graph_out_id
                        && !queue@.contains(idq) ==> indeg@[idq.idx.slot as int] >= 1,
                    forall|k: int, eid: EdgeID|
                        #![trigger queue@[k], self.has_edge_id(eid)]
                        0 <= k < head - 1 && self.has_edge_id(eid)
                            && self.edge_of(eid).dst_node == queue@[k] ==> exists|k2: int|
                            0 <= k2 < k && queue@[k2] == self.edge_of(eid).src_node,
                decreases n_edge_slots - es2,
            {
                if let Some(i) = self.edges.index_at(es2) {
                    let e = *self.edges.get(i).unwrap();
                    proof {
                        assert(self.has_edge_id(EdgeID(i)));
                        assert(self.edge_ok(e));
                        assert(all_edges[es2 as int].value->Some_0 == e);
                    }
                    if e.src_node == id {
                        let ds = e.dst_node.idx.slot;
                        let ghost visited = queue@.take(head as int - 1).to_set();
                        let ghost vnew = queue@.take(head as int).to_set();
                        proof {
                            lemma_in_degree_split(all_edges, ne, visited, id, ds as int);
                            lemma_out_degree_step(all_edges, es2 as int, id, ds as int);
                            lemma_out_degree_monotone(all_edges, es2 as int + 1, ne, id, ds as int);
                            assert(indeg@[ds as int] >= 1);
                        }
                        let old_v = indeg[ds];
                        proof {
                            // The destination cannot already be queued: every
                            // queued node has in-degree zero right now, while
                            // this one is about to be decremented from >= 1.
                            if queue@.contains(e.dst_node) {
                                let kq = queue@.lemma_contains_to_index(e.dst_node);
                                assert(queue@[kq] == e.dst_node);
                                assert(indeg@[ds as int] == 0);
                            }
                        }
                        indeg[ds] = old_v - 1;
                        proof {
                            assert forall|ns: int| 0 <= ns < indeg@.len() implies indeg@[ns]
                                == unvisited_in_degree(
                                all_edges,
                                ne,
                                queue@.take(head as int - 1).to_set(),
                                ns,
                            ) - out_degree_to(all_edges, es2 as int + 1, id, ns) by {
                                lemma_out_degree_step(all_edges, es2 as int, id, ns);
                            }
                        }
                        if old_v - 1 == 0 && !(e.dst_node == self.graph_out_id) {
                            let ghost prev = queue@;
                            queue.push(e.dst_node);
                            proof {
                                assert(!prev.contains(e.dst_node));
                                lemma_queue_push_facts(prev, queue@, head as int, e.dst_node);
                                lemma_queue_push_facts(prev, queue@, head as int - 1, e.dst_node);
                                assert forall|k: int| 0 <= k < queue@.len() implies
                                    indeg@[(#[trigger] queue@[k]).idx.slot as int] == 0 by {
                                    if k < prev.len() {
                                        assert(prev[k] == queue@[k]);
                                    } else {
                                        assert(queue@[k] == e.dst_node);
                                    }
                                }
                                assert forall|k: int, eid: EdgeID|
                                    #![trigger queue@[k], self.has_edge_id(eid)]
                                    0 <= k < head - 1 && self.has_edge_id(eid)
                                        && self.edge_of(eid).dst_node == queue@[k] implies exists|
                                    k2: int,
                                |
                                    0 <= k2 < k && queue@[k2] == self.edge_of(eid).src_node by {
                                    assert(prev[k] == queue@[k]);
                                    let k2 = choose|k2: int|
                                        0 <= k2 < k && prev[k2] == self.edge_of(eid).src_node;
                                    assert(queue@[k2] == self.edge_of(eid).src_node);
                                }
                                queue@.unique_seq_to_set();
                                self.lemma_node_id_set_len();
                                assert forall|x: NodeID| queue@.to_set().contains(x) implies
                                    self.node_id_set().contains(x) by {
                                    let kx = queue@.lemma_contains_to_index(x);
                                    assert(self.has_node(queue@[kx]));
                                }
                                vstd::set_lib::lemma_len_subset(
                                    queue@.to_set(),
                                    self.node_id_set(),
                                );
                            }
                        }
                    }
                }
                es2 += 1;
            }
            proof {
                let visited = queue@.take(head as int - 1).to_set();
                let vnew = queue@.take(head as int).to_set();
                assert forall|ns: int| 0 <= ns < indeg@.len() implies indeg@[ns]
                    == unvisited_in_degree(all_edges, ne, vnew, ns) by {
                    lemma_in_degree_split(all_edges, ne, visited, id, ns);
                }
                // Every edge into the node just scheduled starts at an
                // already-scheduled node.
                assert forall|k: int, eid: EdgeID|
                    #![trigger queue@[k], self.has_edge_id(eid)]
                    0 <= k < head && self.has_edge_id(eid)
                        && self.edge_of(eid).dst_node == queue@[k] implies exists|k2: int|
                    0 <= k2 < k && queue@[k2] == self.edge_of(eid).src_node by {
                    if k == head as int - 1 {
                        vstd::std_specs::vec::axiom_spec_len(&self.edges.slots);
                        let e = self.edge_of(eid);
                        assert(indeg@[id.idx.slot as int] == 0);
                        assert(unvisited_in_degree(all_edges, ne, vnew, id.idx.slot as int) == 0);
                        lemma_in_degree_monotone(all_edges, ne, visited, vnew, id.idx.slot as int);
                        lemma_in_degree_split(all_edges, ne, visited, id, id.idx.slot as int);
                        assert(unvisited_in_degree(all_edges, ne, visited, id.idx.slot as int)
                            == out_degree_to(all_edges, ne, id, id.idx.slot as int));
                        assert(out_degree_to(all_edges, ne, id, id.idx.slot as int) == 0) by {
                            lemma_no_self_out_degree(self, all_edges, ne, id);
                        }
                        lemma_in_degree_zero(all_edges, ne, visited, id.idx.slot as int);
                        assert((#[trigger] all_edges[eid.0.slot as int]).value is Some);
                        assert(all_edges[eid.0.slot as int].value->Some_0 == e);
                        assert(visited.contains(e.src_node));
                        let j = queue@.take(head as int - 1).index_of(e.src_node);
                        assert(queue@.take(head as int - 1)[j] == e.src_node);
                        assert(queue@[j] == e.src_node);
                    }
                }
            }
        }

        // All of the queue is scheduled. Success exactly when every node
        // except the graph output sentinel was reached.
        let ghost q = queue@;
        let ghost qset = q.to_set();
        let ghost nset = self.node_id_set();
        let ghost nset_no_out = nset.remove(self.graph_out_id);
        proof {
            self.lemma_node_id_set_len();
            queue@.unique_seq_to_set();
            assert(q.take(q.len() as int) =~= q);
            assert(nset.contains(self.graph_in_id));
            assert(nset.contains(self.graph_out_id));
            assert(nset.remove(self.graph_in_id).contains(self.graph_out_id));
            assert(nset.len() >= 2);
            assert forall|x: NodeID| qset.contains(x) implies nset_no_out.contains(x) by {
                let k = q.lemma_contains_to_index(x);
                assert(self.has_node(q[k]));
            }
            vstd::set_lib::lemma_len_subset(qset, nset_no_out);
            assert(nset_no_out.len() == nset.len() - 1);
        }
        if queue.len() == total - 1 {
            proof {
                lemma_subset_same_len(qset, nset_no_out);
            }
            let mut order = queue;
            order.push(self.graph_out_id);
            proof {
                let o = order@;
                assert(o == q.push(self.graph_out_id));
                assert(!q.contains(self.graph_out_id)) by {
                    if q.contains(self.graph_out_id) {
                        let k = q.lemma_contains_to_index(self.graph_out_id);
                        assert(q[k] == self.graph_out_id);
                    }
                }
                assert forall|i1: int, i2: int|
                    0 <= i1 < o.len() && 0 <= i2 < o.len() && i1 != i2 implies o[i1] != o[i2] by {
                    if i1 < o.len() - 1 && i2 < o.len() - 1 {
                        assert(o[i1] == q[i1] && o[i2] == q[i2]);
                    } else if i1 == o.len() - 1 {
                        assert(o[i2] == q[i2] && q[i2] != self.graph_out_id);
                    } else {
                        assert(o[i1] == q[i1] && q[i1] != self.graph_out_id);
                    }
                }
                assert(o.no_duplicates());
                assert forall|k: int| 0 <= k < o.len() implies self.has_node(#[trigger] o[k]) by {
                    if k < o.len() - 1 {
                        assert(o[k] == q[k]);
                    } else {
                        assert(o[k] == self.graph_out_id);
                    }
                }
                assert forall|id: NodeID| #[trigger] self.has_node(id) implies o.contains(id) by {
                    if id == self.graph_out_id {
                        assert(o[o.len() - 1] == id);
                    } else {
                        assert(nset_no_out.contains(id));
                        assert(qset.contains(id));
                        let k = q.lemma_contains_to_index(id);
                        assert(o[k] == id);
                    }
                }
                assert forall|eid: EdgeID| #[trigger] self.has_edge_id(eid) implies exists|
                    k1: int,
                    k2: int,
                |
                    0 <= k1 < k2 < o.len() && o[k1] == self.edge_of(eid).src_node && o[k2]
                        == self.edge_of(eid).dst_node by {
                    let e = self.edge_of(eid);
                    assert(self.edge_ok(e));
                    assert(e.src_node != self.graph_out_id) by {
                        assert(e.src_port.0 < self.node_of(e.src_node).num_outputs);
                    }
                    assert(qset.contains(e.src_node)) by {
                        assert(nset_no_out.contains(e.src_node));
                    }
                    let ks = q.lemma_contains_to_index(e.src_node);
                    assert(o[ks] == e.src_node);
                    if e.dst_node == self.graph_out_id {
                        assert(o[o.len() - 1] == e.dst_node);
                        assert(0 <= ks < o.len() - 1 < o.len());
                    } else {
                        assert(qset.contains(e.dst_node)) by {
                            assert(nset_no_out.contains(e.dst_node));
                        }
                        let kd = q.lemma_contains_to_index(e.dst_node);
                        assert(q[kd] == e.dst_node);
                        assert(exists|j2: int| 0 <= j2 < kd && q[j2] == e.src_node);
                        let j2 = choose|j2: int| 0 <= j2 < kd && q[j2] == e.src_node;
                        assert(o[j2] == e.src_node && o[kd] == e.dst_node);
                        assert(0 <= j2 < kd < o.len());
                    }
                }
                assert(o.len() == self.node_count());
                assert(self.is_topo_order(o));
            }
            Some(order)
        } else {
            proof {
                assert(qset.len() < nset_no_out.len());
                if self.schedulable() {
                    let sigma = choose|o: Seq<NodeID>| self.is_topo_order(o);
                    self.lemma_sigma_prefix(q, indeg@, sigma, sigma.len() as int);
                    assert forall|id: NodeID| nset_no_out.contains(id) implies qset.contains(
                        id,
                    ) by {
                        assert(self.has_node(id));
                        assert(sigma.contains(id));
                        let j = sigma.lemma_contains_to_index(id);
                        assert(sigma[j] == id);
                        assert(q.contains(id));
                    }
                    vstd::set_lib::lemma_len_subset(nset_no_out, qset);
                    assert(false);
                }
            }
            None
        }
    }

    /// Whether the graph admits a topological order that places `a`
    /// strictly before `b`: exactly the condition under which the edge
    /// `a -> b` can be added without creating a cycle.
    pub open spec fn spec_can_order_before(&self, a: NodeID, b: NodeID) -> bool {
        exists|order: Seq<NodeID>|
            #[trigger] self.is_topo_order(order) && exists|k1: int, k2: int|
                0 <= k1 < k2 < order.len() && order[k1] == a && order[k2] == b
    }

    /// Run the cycle check: a topological sort in detect-only mode.
    /// Returns `true` exactly when the graph has no topological order.
    pub fn cycle_detected(&self) -> (r: bool)
        requires
            self.wf(),
        ensures
            r == !self.schedulable(),
    {
        self.topo_order().is_none()
    }

    /// Adding one edge to a graph leaves it schedulable exactly when the
    /// original graph has a topological order that places the new edge's
    /// source before its destination.
    pub(crate) proof fn lemma_extend_order(&self, temp: Self, eid: EdgeID, e: Edge)
        requires
            self.wf(),
            temp.wf(),
            forall|j: NodeID| #![trigger temp.has_node(j)] #![trigger self.has_node(j)]
                temp.has_node(j) == self.has_node(j),
            temp.node_count() == self.node_count(),
            forall|x: EdgeID| #![trigger temp.has_edge_id(x)] #![trigger self.has_edge_id(x)]
                x != eid ==> temp.has_edge_id(x) == self.has_edge_id(x),
            forall|x: EdgeID| #![trigger temp.edge_of(x)] #![trigger self.edge_of(x)]
                x != eid && self.has_edge_id(x) ==> temp.edge_of(x) == self.edge_of(x),
            temp.has_edge_id(eid),
            !self.has_edge_id(eid),
            temp.edge_of(eid) == e,
        ensures
            temp.schedulable() <==> self.spec_can_order_before(e.src_node, e.dst_node),
    {
        if temp.schedulable() {
            let order = choose|order: Seq<NodeID>| temp.is_topo_order(order);
            assert(temp.is_topo_order(order));
            assert forall|x: EdgeID| #[trigger] self.has_edge_id(x) implies exists|k1: int, k2: int|
                0 <= k1 < k2 < order.len() && order[k1] == self.edge_of(x).src_node && order[k2]
                    == self.edge_of(x).dst_node by {
                assert(temp.has_edge_id(x));
                assert(temp.edge_of(x) == self.edge_of(x));
            }
            assert forall|id: NodeID| #[trigger] self.has_node(id) implies order.contains(id) by {
                assert(temp.has_node(id));
            }
            assert forall|k: int| 0 <= k < order.len() implies self.has_node(
                #[trigger] order[k],
            ) by {
                assert(temp.has_node(order[k]));
            }
            assert(self.is_topo_order(order));
            assert(exists|k1: int, k2: int|
                0 <= k1 < k2 < order.len() && order[k1] == e.src_node && order[k2] == e.dst_node);
            assert(self.spec_can_order_before(e.src_node, e.dst_node));
        }
        if self.spec_can_order_before(e.src_node, e.dst_node) {
            let order = choose|order: Seq<NodeID>|
                #[trigger] self.is_topo_order(order) && exists|k1: int, k2: int|
                    0 <= k1 < k2 < order.len() && order[k1] == e.src_node && order[k2]
                        == e.dst_node;
            assert(self.is_topo_order(order));
            assert forall|x: EdgeID| #[trigger] temp.has_edge_id(x) implies exists|k1: int, k2: int|
                0 <= k1 < k2 < order.len() && order[k1] == temp.edge_of(x).src_node && order[k2]
                    == temp.edge_of(x).dst_node by {
                if x != eid {
                    assert(self.has_edge_id(x));
                    assert(temp.edge_of(x) == self.edge_of(x));
                }
            }
            assert forall|id: NodeID| #[trigger] temp.has_node(id) implies order.contains(id) by {
                assert(self.has_node(id));
            }
            assert forall|k: int| 0 <= k < order.len() implies temp.has_node(
                #[trigger] order[k],
            ) by {
                assert(self.has_node(order[k]));
            }
            assert(temp.is_topo_order(order));
            assert(temp.schedulable());
        }
    }
}

/// The unvisited in-degree of any slot is at most the scanned prefix.
proof fn lemma_in_degree_bounded(
    edges: Seq<ArenaSlot<Edge>>,
    upto: int,
    visited: Set<NodeID>,
    dslot: int,
)
    ensures
        unvisited_in_degree(edges, upto, visited, dslot) <= if upto >= 0 {
            upto
        } else {
            0
        },
    decreases upto,
{
    if upto > 0 && upto <= edges.len() {
        lemma_in_degree_bounded(edges, upto - 1, visited, dslot);
    }
}

/// Unfold one scan step of the out-degree count.
proof fn lemma_out_degree_step(edges: Seq<ArenaSlot<Edge>>, es: int, src: NodeID, dslot: int)
    requires
        0 <= es < edges.len(),
    ensures
        out_degree_to(edges, es + 1, src, dslot) == out_degree_to(edges, es, src, dslot) + (
        match edges[es].value {
            Some(e) => {
                if e.src_node == src && e.dst_node.idx.slot == dslot {
                    1nat
                } else {
                    0nat
                }
            },
            None => 0nat,
        }),
{
}

/// A node never has an edge back into its own slot: the graph forbids
/// self-loops.
proof fn lemma_no_self_out_degree<N>(
    g: &AudioGraph<N>,
    edges: Seq<ArenaSlot<Edge>>,
    upto: int,
    id: NodeID,
)
    requires
        g.wf(),
        g.has_node(id),
        edges == g.edges.slots@,
        0 <= upto <= edges.len(),
    ensures
        out_degree_to(edges, upto, id, id.idx.slot as int) == 0,
    decreases upto,
{
    vstd::std_specs::vec::axiom_spec_len(&g.edges.slots);
    if upto > 0 {
        lemma_no_self_out_degree(g, edges, upto - 1, id);
        if edges[upto - 1].value is Some {
            let eid = EdgeID(crate::arena::ArenaIndex {
                slot: (upto - 1) as usize,
                generation: edges[upto - 1].generation,
            });
            assert(g.has_edge_id(eid));
            let e = g.edge_of(eid);
            assert(g.edge_ok(e));
            assert(edges[upto - 1].value->Some_0 == e);
            if e.src_node == id && e.dst_node.idx.slot == id.idx.slot as int {
                assert(g.has_node(e.dst_node));
                assert(e.dst_node == id);
            }
        }
    }
}

/// Pushing onto the queue preserves its basic shape.
proof fn lemma_queue_push_facts(prev: Seq<NodeID>, cur: Seq<NodeID>, head: int, pushed: NodeID)
    requires
        cur == prev.push(pushed),
        0 <= head <= prev.len(),
        prev.no_duplicates(),
        !prev.contains(pushed),
    ensures
        cur.no_duplicates(),
        cur.take(head) =~= prev.take(head),
        cur.take(head).to_set() == prev.take(head).to_set(),
        forall|j: int| 0 <= j < prev.len() ==> cur[j] == prev[j],
        cur[cur.len() - 1] == pushed,
{
    assert(cur.take(head) =~= prev.take(head));
}

/// The number of live buffers: counters that are currently nonzero.
pub open spec fn live_count(refs: Seq<usize>) -> nat
    decreases refs.len(),
{
    if refs.len() == 0 {
        0
    } else {
        live_count(refs.drop_last()) + (if refs.last() > 0 {
            1nat
        } else {
            0nat
        })
    }
}

/// Changing one counter exchanges only its own liveness contribution.
proof fn lemma_live_count_update(refs: Seq<usize>, j: int, x: usize)
    requires
        0 <= j < refs.len(),
    ensures
        live_count(refs.update(j, x)) == live_count(refs) - (if refs[j] > 0 {
            1int
        } else {
            0int
        }) + (if x > 0 {
            1int
        } else {
            0int
        }),
    decreases refs.len(),
{
    let ru = refs.update(j, x);
    if j == refs.len() - 1 {
        assert(ru.drop_last() =~= refs.drop_last());
        assert(ru.last() == x);
    } else {
        lemma_live_count_update(refs.drop_last(), j, x);
        assert(ru.drop_last() =~= refs.drop_last().update(j, x));
        assert(ru.last() == refs.last());
    }
}

/// A reference to an abstract audio buffer handed out by the allocator:
/// its index in the eventual pool and its reuse generation.
#[derive(Debug, Clone, Copy, PartialEq, Eq, Structural)]
pub struct BufferRef {
    pub idx: usize,
    pub generation: u64,
}

/// A compile-time allocator of abstract buffers. Buffers are reference
/// counted; a released buffer returns to the free list (with its
/// generation bumped) only when its count reaches zero, and a new index
/// is minted only when the free list is empty, so the final count is the
/// high-water mark of simultaneously live buffers.
pub struct BufferAllocator {
    pub free_list: Vec<BufferRef>,
    pub refs: Vec<usize>,
    pub count: usize,
}

impl BufferAllocator {
    /// The reference count of buffer index `i`.
    pub open spec fn rc(&self, i: int) -> nat {
        self.refs@[i] as nat
    }

    /// Structural well-formedness: one counter per minted buffer, the
    /// free list names distinct zero-count buffers, and every minted
    /// buffer is either free or live. Together with the rule that
    /// `acquire` mints a new index only when the free list is empty, the
    /// last clause makes the final count the high-water mark of
    /// simultaneously live buffers.
    pub open spec fn wf(&self) -> bool {
        &&& self.refs@.len() == self.count
        &&& forall|k: int| 0 <= k < self.free_list@.len() ==>
            (#[trigger] self.free_list@[k]).idx < self.count
                && self.refs@[self.free_list@[k].idx as int] == 0
        &&& forall|k1: int, k2: int| 0 <= k1 < k2 < self.free_list@.len() ==>
            self.free_list@[k1].idx != self.free_list@[k2].idx
        &&& self.count == self.free_list@.len() + live_count(self.refs@)
    }

    /// A fresh allocator with no buffers.
    pub fn new() -> (r: Self)
        ensures
            r.wf(),
            r.count == 0,
    {
        BufferAllocator { free_list: Vec::new(), refs: Vec::new(), count: 0 }
    }

    /// Acquire a buffer with reference count one: a free one if any
    /// exists, else a newly minted index. The result is fresh: its count
    /// was zero before the call, so it aliases no live buffer.
    pub fn acquire(&mut self) -> (r: BufferRef)
        requires
            old(self).wf(),
        ensures
            final(self).wf(),
            r.idx < final(self).count,
            final(self).rc(r.idx as int) == 1,
            r.idx < old(self).count ==> old(self).rc(r.idx as int) == 0,
            final(self).count == old(self).count || (final(self).count == old(self).count + 1
                && r.idx == old(self).count),
            old(self).free_list@.len() > 0 ==> final(self).count == old(self).count,
            forall|i: int| 0 <= i < old(self).count && i != r.idx ==>
                final(self).rc(i) == old(self).rc(i),
    {
        match self.free_list.pop() {
            Some(entry) => {
                let ghost pre_refs = self.refs@;
                self.refs[entry.idx] = 1;
                proof {
                    lemma_live_count_update(pre_refs, entry.idx as int, 1);
                }
                BufferRef { idx: entry.idx, generation: entry.generation }
            },
            None => {
                let idx = self.count;
                let ghost pre_refs = self.refs@;
                self.refs.push(1);
                proof {
                    vstd::std_specs::vec::axiom_spec_len(&self.refs);
                    assert(self.refs@.drop_last() =~= pre_refs);
                }
                self.count = self.count + 1;
                BufferRef { idx, generation: 0 }
            },
        }
    }

    /// Set the reference count of a freshly acquired buffer to the number
    /// of consumers that will release it.
    pub fn retain(&mut self, r: BufferRef, n: usize)
        requires
            old(self).wf(),
            r.idx < old(self).count,
            old(self).rc(r.idx as int) == 1,
            n >= 1,
        ensures
            final(self).wf(),
            final(self).count == old(self).count,
            final(self).rc(r.idx as int) == n,
            forall|i: int| 0 <= i < old(self).count && i != r.idx ==>
                final(self).rc(i) == old(self).rc(i),
    {
        let ghost pre_refs = self.refs@;
        self.refs[r.idx] = n;
        proof {
            lemma_live_count_update(pre_refs, r.idx as int, n);
        }
    }

    /// Release one reference to a buffer. When the count reaches zero the
    /// index returns to the free list with its generation bumped; a
    /// release of an already-free buffer does nothing.
    pub fn release(&mut self, r: BufferRef)
        requires
            old(self).wf(),
            r.idx < old(self).count,
        ensures
            final(self).wf(),
            final(self).count == old(self).count,
            old(self).rc(r.idx as int) >= 1 ==> final(self).rc(r.idx as int)
                == old(self).rc(r.idx as int) - 1,
            old(self).rc(r.idx as int) == 0 ==> final(self).rc(r.idx as int) == 0,
            forall|i: int| 0 <= i < old(self).count && i != r.idx ==>
                final(self).rc(i) == old(self).rc(i),
    {
        let c = self.refs[r.idx];
        if c == 0 {
            return;
        }
        let ghost pre_refs = self.refs@;
        self.refs[r.idx] = c - 1;
        proof {
            lemma_live_count_update(pre_refs, r.idx as int, (c - 1) as usize);
        }
        if c == 1 {
            let new_generation = if r.generation == u64::MAX {
                0
            } else {
                r.generation + 1
            };
            self.free_list.push(BufferRef { idx: r.idx, generation: new_generation });
            proof {
                assert forall|k1: int, k2: int|
                    0 <= k1 < k2 < self.free_list@.len() implies self.free_list@[k1].idx
                    != self.free_list@[k2].idx by {
                    if k2 == self.free_list@.len() - 1 {
                        assert(old(self).refs@[self.free_list@[k1].idx as int] == 0);
                    }
                }
            }
        }
    }

    /// Consume the allocator, returning the total number of buffers used:
    /// the high-water mark of simultaneously live buffers.
    pub fn num_buffers(self) -> (r: usize)
        ensures
            r == self.count,
    {
        self.count
    }
}

/// The number of routing-table entries that hold buffer index `idx`.
pub open spec fn table_refs(table: Seq<Option<BufferRef>>, idx: int) -> nat
    decreases table.len(),
{
    if table.len() == 0 {
        0
    } else {
        table_refs(table.drop_last(), idx) + (match table.last() {
            Some(b) => {
                if b.idx == idx {
                    1nat
                } else {
                    0nat
                }
            },
            None => 0nat,
        })
    }
}

/// The number of entries from position `from` on that hold buffer index
/// `idx`.
pub open spec fn list_refs(list: Seq<BufferRef>, from: int, idx: int) -> nat
    decreases list.len() - from,
{
    if from < 0 || from >= list.len() {
        0
    } else {
        (if list[from].idx == idx {
            1nat
        } else {
            0nat
        }) + list_refs(list, from + 1, idx)
    }
}

/// Updating one table slot exchanges only that slot's contribution.
broadcast proof fn lemma_table_refs_update(
    table: Seq<Option<BufferRef>>,
    t: int,
    x: Option<BufferRef>,
    idx: int,
)
    requires
        0 <= t < table.len(),
    ensures
        #[trigger] table_refs(table.update(t, x), idx) == table_refs(table, idx) - (
        match table[t] {
            Some(b) => {
                if b.idx == idx {
                    1int
                } else {
                    0int
                }
            },
            None => 0int,
        }) + (match x {
            Some(b) => {
                if b.idx == idx {
                    1int
                } else {
                    0int
                }
            },
            None => 0int,
        }),
    decreases table.len(),
{
    let tu = table.update(t, x);
    if t == table.len() - 1 {
        assert(tu.drop_last() =~= table.drop_last());
        assert(tu.last() == x);
    } else {
        lemma_table_refs_update(table.drop_last(), t, x, idx);
        assert(tu.drop_last() =~= table.drop_last().update(t, x));
        assert(tu.last() == table.last());
    }
}

/// Appending to a reference list adds only the new entry's contribution,
/// for every suffix of the old list.
proof fn lemma_list_refs_push(list: Seq<BufferRef>, x: BufferRef, from: int, idx: int)
    requires
        0 <= from <= list.len(),
    ensures
        list_refs(list.push(x), from, idx) == list_refs(list, from, idx) + (if x.idx == idx {
            1nat
        } else {
            0nat
        }),
    decreases list.len() - from,
{
    let lp = list.push(x);
    if from < list.len() {
        lemma_list_refs_push(list, x, from + 1, idx);
        assert(lp[from] == list[from]);
        assert(list_refs(lp, from, idx) == (if lp[from].idx == idx {
            1nat
        } else {
            0nat
        }) + list_refs(lp, from + 1, idx));
        assert(list_refs(list, from, idx) == (if list[from].idx == idx {
            1nat
        } else {
            0nat
        }) + list_refs(list, from + 1, idx));
    } else {
        assert(from == list.len());
        assert(lp[from] == x);
        assert(list_refs(lp, from, idx) == (if x.idx == idx {
            1nat
        } else {
            0nat
        }) + list_refs(lp, from + 1, idx));
        assert(list_refs(lp, from + 1, idx) == 0);
        assert(list_refs(list, from, idx) == 0);
    }
}

/// The number of edges stored in slots `[0, upto)` leaving one output
/// port of one node.
pub open spec fn port_out_degree(
    edges: Seq<ArenaSlot<Edge>>,
    upto: int,
    node: NodeID,
    port: u32,
) -> nat
    decreases upto,
{
    if upto <= 0 || upto > edges.len() {
        0
    } else {
        port_out_degree(edges, upto - 1, node, port) + (match edges[upto - 1].value {
            Some(e) => {
                if e.src_node == node && e.src_port.0 == port {
                    1nat
                } else {
                    0nat
                }
            },
            None => 0nat,
        })
    }
}

/// The per-port out-degree grows with the scanned prefix.
proof fn lemma_port_out_degree_monotone(
    edges: Seq<ArenaSlot<Edge>>,
    u1: int,
    u2: int,
    node: NodeID,
    port: u32,
)
    requires
        0 <= u1 <= u2 <= edges.len(),
    ensures
        port_out_degree(edges, u1, node, port) <= port_out_degree(edges, u2, node, port),
    decreases u2,
{
    if u2 > u1 {
        lemma_port_out_degree_monotone(edges, u1, u2 - 1, node, port);
    }
}

/// One buffer assigned to an input port of a scheduled node. When
/// `should_clear` is set the port had no incoming edge and the buffer
/// must be zeroed before the node runs.
#[derive(Debug, Clone, Copy, PartialEq, Eq, Structural)]
pub struct InBufferAssignment {
    pub buffer_index: usize,
    pub generation: u64,
    pub should_clear: bool,
}

/// One buffer assigned to an output port of a scheduled node.
#[derive(Debug, Clone, Copy, PartialEq, Eq, Structural)]
pub struct OutBufferAssignment {
    pub buffer_index: usize,
    pub generation: u64,
}

/// A node with its place in the schedule and its buffer assignments.
#[derive(Debug, Clone)]
pub struct ScheduledNode {
    pub id: NodeID,
    pub input_buffers: Vec<InBufferAssignment>,
    pub output_buffers: Vec<OutBufferAssignment>,
}

impl<N> AudioGraph<N> {
    /// Structural agreement between a schedule and this graph: one entry
    /// per node of `order`, with one buffer assignment per port, every
    /// buffer index inside the pool, and `should_clear` set exactly on
    /// unconnected input ports.
    pub open spec fn schedule_structure(
        &self,
        order: Seq<NodeID>,
        sched: Seq<ScheduledNode>,
        num_buffers: int,
    ) -> bool {
        &&& sched.len() == order.len()
        &&& forall|j: int| 0 <= j < sched.len() ==> (#[trigger] sched[j]).id == order[j]
        &&& forall|j: int| 0 <= j < sched.len() ==> (#[trigger] sched[j]).input_buffers@.len()
            == self.node_of(order[j]).num_inputs
        &&& forall|j: int| 0 <= j < sched.len() ==> (#[trigger] sched[j]).output_buffers@.len()
            == self.node_of(order[j]).num_outputs
        &&& forall|j: int, p: int|
            #![trigger sched[j].input_buffers@[p]]
            0 <= j < sched.len() && 0 <= p < sched[j].input_buffers@.len() ==>
                sched[j].input_buffers@[p].buffer_index < num_buffers
        &&& forall|j: int, p: int|
            #![trigger sched[j].output_buffers@[p]]
            0 <= j < sched.len() && 0 <= p < sched[j].output_buffers@.len() ==>
                sched[j].output_buffers@[p].buffer_index < num_buffers
        &&& forall|j: int, p: int|
            #![trigger sched[j].input_buffers@[p]]
            0 <= j < sched.len() && 0 <= p < sched[j].input_buffers@.len() ==>
                (sched[j].input_buffers@[p].should_clear <==> !self.spec_port_connected(
                    order[j],
                    InPortIdx(p as u32),
                ))
        &&& forall|j: int, p1: int, p2: int|
            #![trigger sched[j].output_buffers@[p1], sched[j].output_buffers@[p2]]
            0 <= j < sched.len() && 0 <= p1 < p2 < sched[j].output_buffers@.len() ==>
                sched[j].output_buffers@[p1].buffer_index
                    != sched[j].output_buffers@[p2].buffer_index
        &&& forall|j: int, p1: int, p2: int|
            #![trigger sched[j].input_buffers@[p1], sched[j].output_buffers@[p2]]
            0 <= j < sched.len() && 0 <= p1 < sched[j].input_buffers@.len() && 0 <= p2
                < sched[j].output_buffers@.len() ==> sched[j].input_buffers@[p1].buffer_index
                != sched[j].output_buffers@[p2].buffer_index
    }

    /// Every edge is routed through one buffer: in any schedule produced
    /// for `order`, the buffer assigned to the edge's source output port
    /// is the buffer assigned to its destination input port.
    pub open spec fn schedule_routes_edges(&self, order: Seq<NodeID>, sched: Seq<ScheduledNode>) -> bool {
        forall|eid: EdgeID, k1: int, k2: int|
            #![trigger self.has_edge_id(eid), order[k1], order[k2]]
            self.has_edge_id(eid) && 0 <= k1 < sched.len() && 0 <= k2 < sched.len()
                && order[k1] == self.edge_of(eid).src_node && order[k2]
                == self.edge_of(eid).dst_node
                && self.edge_of(eid).src_port.0 < sched[k1].output_buffers@.len()
                && self.edge_of(eid).dst_port.0 < sched[k2].input_buffers@.len() ==>
                sched[k1].output_buffers@[self.edge_of(eid).src_port.0 as int].buffer_index
                    == sched[k2].input_buffers@[self.edge_of(eid).dst_port.0 as int].buffer_index
    }

    /// Routing entries of edges that leave different source ports name
    /// different buffers: each source port got its own fresh buffer.
    pub open spec fn table_pairwise_distinct(&self, table: Seq<Option<BufferRef>>) -> bool {
        forall|eid1: EdgeID, eid2: EdgeID|
            #![trigger self.has_edge_id(eid1), self.has_edge_id(eid2)]
            self.has_edge_id(eid1) && self.has_edge_id(eid2) && eid1.0.slot < table.len()
                && eid2.0.slot < table.len() && table[eid1.0.slot as int] is Some
                && table[eid2.0.slot as int] is Some && !(self.edge_of(eid1).src_node
                == self.edge_of(eid2).src_node && self.edge_of(eid1).src_port == self.edge_of(
                eid2,
            ).src_port) ==> table[eid1.0.slot as int]->Some_0.idx
                != table[eid2.0.slot as int]->Some_0.idx
    }

    /// Inputs of one scheduled node alias only when they are fed from the
    /// same source output port, and an unconnected (cleared) input never
    /// aliases another input of the same node.
    #[verifier::opaque]
    pub open spec fn schedule_inputs_distinct(
        &self,
        order: Seq<NodeID>,
        sched: Seq<ScheduledNode>,
    ) -> bool {
        &&& forall|k: int, eid1: EdgeID, eid2: EdgeID|
            #![trigger order[k], self.has_edge_id(eid1), self.has_edge_id(eid2)]
            0 <= k < sched.len() && self.has_edge_id(eid1) && self.has_edge_id(eid2)
                && self.edge_of(eid1).dst_node == order[k] && self.edge_of(eid2).dst_node
                == order[k] && self.edge_of(eid1).dst_port != self.edge_of(eid2).dst_port
                && self.edge_of(eid1).dst_port.0 < sched[k].input_buffers@.len()
                && self.edge_of(eid2).dst_port.0 < sched[k].input_buffers@.len() && !(
            self.edge_of(eid1).src_node == self.edge_of(eid2).src_node && self.edge_of(
                eid1,
            ).src_port == self.edge_of(eid2).src_port) ==> sched[k].input_buffers@[self.edge_of(
                eid1,
            ).dst_port.0 as int].buffer_index != sched[k].input_buffers@[self.edge_of(
                eid2,
            ).dst_port.0 as int].buffer_index
        &&& forall|k: int, p1: int, p2: int|
            #![trigger order[k], sched[k].input_buffers@[p1], sched[k].input_buffers@[p2]]
            0 <= k < sched.len() && 0 <= p1 < sched[k].input_buffers@.len() && 0 <= p2
                < sched[k].input_buffers@.len() && p1 != p2 && !self.spec_port_connected(
                order[k],
                InPortIdx(p1 as u32),
            ) ==> sched[k].input_buffers@[p1].buffer_index
                != sched[k].input_buffers@[p2].buffer_index
    }

    /// The routing table is consistent with the prefix of the schedule:
    /// for every edge whose source has been scheduled and whose
    /// destination has not, the table holds the buffer assigned to the
    /// source's output port.
    pub open spec fn table_ok(
        &self,
        order: Seq<NodeID>,
        sched: Seq<ScheduledNode>,
        table: Seq<Option<BufferRef>>,
        processed: int,
    ) -> bool {
        forall|eid: EdgeID, k1: int, k2: int|
            #![trigger self.has_edge_id(eid), order[k1], order[k2]]
            self.has_edge_id(eid) && 0 <= k1 < processed && processed <= k2 < order.len()
                && k1 < sched.len() && order[k1] == self.edge_of(eid).src_node && order[k2]
                == self.edge_of(eid).dst_node && self.edge_of(eid).src_port.0
                < sched[k1].output_buffers@.len() && eid.0.slot < table.len() ==>
                table[eid.0.slot as int] is Some && table[eid.0.slot as int]->Some_0.idx
                    == sched[k1].output_buffers@[self.edge_of(eid).src_port.0 as int].buffer_index
    }

    /// Edges whose source has not been scheduled yet have no routing
    /// entry.
    pub open spec fn table_unrouted(
        &self,
        order: Seq<NodeID>,
        table: Seq<Option<BufferRef>>,
        processed: int,
    ) -> bool {
        forall|eid: EdgeID, k1: int|
            #![trigger self.has_edge_id(eid), order[k1]]
            self.has_edge_id(eid) && processed <= k1 < order.len() && order[k1]
                == self.edge_of(eid).src_node && eid.0.slot < table.len() ==>
                table[eid.0.slot as int] is None
    }

    /// Buffer assignment: walk the schedule in topological order, give
    /// every port a buffer, route each edge's buffer from its source's
    /// output to its destination's input, and recycle a buffer as soon as
    /// its last reader has been scheduled.
    pub fn solve_buffers(&self, order: &Vec<NodeID>) -> (r: (Vec<ScheduledNode>, usize))
        requires
            self.wf(),
            self.is_topo_order(order@),
        ensures
            self.schedule_structure(order@, r.0@, r.1 as int),
            self.schedule_routes_edges(order@, r.0@),
            self.schedule_inputs_distinct(order@, r.0@),
    {
        broadcast use lemma_table_refs_update;

        let mut alloc = BufferAllocator::new();
        let n_edge_slots = self.edges.slot_count();
        let ghost all_edges = self.edges.slots@;
        let ghost ne = self.edges.num_slots() as int;
        let mut table: Vec<Option<BufferRef>> = Vec::new();
        while table.len() < n_edge_slots
            invariant
                table@.len() <= n_edge_slots,
                forall|t: int| 0 <= t < table@.len() ==> table@[t] is None,
            decreases n_edge_slots - table@.len(),
        {
            table.push(None);
        }

        let mut sched: Vec<ScheduledNode> = Vec::new();
        proof {
            reveal(AudioGraph::schedule_inputs_distinct);
            assert(self.schedule_inputs_distinct(order@.take(0), Seq::<ScheduledNode>::empty()));
        }
        let mut k: usize = 0;
        while k < order.len()
            invariant
                self.wf(),
                self.is_topo_order(order@),
                k <= order@.len(),
                alloc.wf(),
                table@.len() == n_edge_slots,
                n_edge_slots == self.edges.num_slots(),
                all_edges == self.edges.slots@,
                ne == self.edges.num_slots() as int,
                sched@.len() == k,
                self.schedule_structure(order@.take(k as int), sched@, alloc.count as int),
                self.schedule_routes_edges(order@, sched@),
                self.schedule_inputs_distinct(order@.take(k as int), sched@),
                self.table_ok(order@, sched@, table@, k as int),
                self.table_unrouted(order@, table@, k as int),
                self.table_pairwise_distinct(table@),
                forall|t: int| 0 <= t < table@.len() ==> ((#[trigger] table@[t]) is Some ==>
                    table@[t]->Some_0.idx < alloc.count),
                forall|bi: int| #![trigger alloc.rc(bi)] 0 <= bi < alloc.count ==>
                    alloc.rc(bi) >= table_refs(table@, bi),
            decreases order@.len() - k,
        {
            let ghost count0 = alloc.count as int;
            let node_id = order[k];
            proof {
                assert(self.has_node(node_id));
            }
            let entry = self.nodes.get(node_id.idx).unwrap();
            let num_inputs = entry.num_inputs;
            let num_outputs = entry.num_outputs;
            let mut input_buffers: Vec<InBufferAssignment> = Vec::new();
            let mut output_buffers: Vec<OutBufferAssignment> = Vec::new();
            let mut to_release: Vec<BufferRef> = Vec::new();

            let mut p: u32 = 0;
            while p < num_inputs
                invariant
                    self.wf(),
                    self.is_topo_order(order@),
                    alloc.wf(),
                    count0 <= alloc.count,
                    table@.len() == n_edge_slots,
                    n_edge_slots == self.edges.num_slots(),
                    all_edges == self.edges.slots@,
                    ne == self.edges.num_slots() as int,
                    k < order@.len(),
                    sched@.len() == k,
                    node_id == order@[k as int],
                    self.has_node(node_id),
                    num_inputs == self.node_of(node_id).num_inputs,
                    p <= num_inputs,
                    input_buffers@.len() == p,
                    self.schedule_structure(order@.take(k as int), sched@, count0),
                    self.schedule_routes_edges(order@, sched@),
                    self.table_unrouted(order@, table@, k as int),
                    forall|q: int| 0 <= q < p ==>
                        (#[trigger] input_buffers@[q]).buffer_index < alloc.count,
                    forall|q: int| 0 <= q < p ==>
                        alloc.rc((#[trigger] input_buffers@[q]).buffer_index as int) >= 1,
                    forall|q: int| 0 <= q < p ==> ((#[trigger] input_buffers@[q]).should_clear
                        <==> !self.spec_port_connected(node_id, InPortIdx(q as u32))),
                    forall|j: int| 0 <= j < to_release@.len() ==>
                        (#[trigger] to_release@[j]).idx < alloc.count,
                    forall|t: int| 0 <= t < table@.len() ==> ((#[trigger] table@[t]) is Some ==>
                        table@[t]->Some_0.idx < alloc.count),
                    forall|bi: int| #![trigger alloc.rc(bi)] 0 <= bi < alloc.count ==>
                        alloc.rc(bi) >= table_refs(table@, bi) + list_refs(to_release@, 0, bi),
                    self.table_pairwise_distinct(table@),
                    // inputs recorded so far: pairwise distinct unless fed
                    // from one source port
                    forall|eid1: EdgeID, eid2: EdgeID|
                        #![trigger self.has_edge_id(eid1), self.has_edge_id(eid2)]
                        self.has_edge_id(eid1) && self.has_edge_id(eid2) && self.edge_of(
                            eid1,
                        ).dst_node == node_id && self.edge_of(eid2).dst_node == node_id
                            && self.edge_of(eid1).dst_port != self.edge_of(eid2).dst_port
                            && self.edge_of(eid1).dst_port.0 < p && self.edge_of(
                            eid2,
                        ).dst_port.0 < p && !(self.edge_of(eid1).src_node == self.edge_of(
                            eid2,
                        ).src_node && self.edge_of(eid1).src_port == self.edge_of(
                            eid2,
                        ).src_port) ==> input_buffers@[self.edge_of(
                            eid1,
                        ).dst_port.0 as int].buffer_index != input_buffers@[self.edge_of(
                            eid2,
                        ).dst_port.0 as int].buffer_index,
                    forall|q1: int, q2: int|
                        #![trigger input_buffers@[q1], input_buffers@[q2]]
                        0 <= q1 < p && 0 <= q2 < p && q1 != q2 && !self.spec_port_connected(
                            node_id,
                            InPortIdx(q1 as u32),
                        ) ==> input_buffers@[q1].buffer_index != input_buffers@[q2].buffer_index,
                    // a recorded connected input stays distinct from every
                    // pending buffer of a different source port
                    forall|eidc: EdgeID, eidt: EdgeID|
                        #![trigger self.has_edge_id(eidc), self.has_edge_id(eidt)]
                        self.has_edge_id(eidc) && self.has_edge_id(eidt) && self.edge_of(
                            eidc,
                        ).dst_node == node_id && self.edge_of(eidc).dst_port.0 < p
                            && eidt.0.slot < table@.len() && table@[eidt.0.slot as int] is Some
                            && !(self.edge_of(eidc).src_node == self.edge_of(eidt).src_node
                            && self.edge_of(eidc).src_port == self.edge_of(eidt).src_port) ==>
                            table@[eidt.0.slot as int]->Some_0.idx != input_buffers@[self.edge_of(
                                eidc,
                            ).dst_port.0 as int].buffer_index,
                    // a recorded unconnected input is distinct from every
                    // pending buffer
                    forall|q: int, eidt: EdgeID|
                        #![trigger input_buffers@[q], self.has_edge_id(eidt)]
                        0 <= q < p && !self.spec_port_connected(node_id, InPortIdx(q as u32))
                            && self.has_edge_id(eidt) && eidt.0.slot < table@.len()
                            && table@[eidt.0.slot as int] is Some ==>
                            table@[eidt.0.slot as int]->Some_0.idx
                                != input_buffers@[q].buffer_index,
                    // the routing table still covers every pending edge,
                    // except those this node has already consumed
                    forall|eid: EdgeID, k1: int, k2: int|
                        #![trigger self.has_edge_id(eid), order@[k1], order@[k2]]
                        self.has_edge_id(eid) && 0 <= k1 < k && (k as int) <= k2 < order@.len()
                            && order@[k1] == self.edge_of(eid).src_node && order@[k2]
                            == self.edge_of(eid).dst_node && self.edge_of(eid).src_port.0
                            < sched@[k1].output_buffers@.len() && eid.0.slot < table@.len()
                            && !(self.edge_of(eid).dst_node == node_id
                            && self.edge_of(eid).dst_port.0 < p) ==>
                            table@[eid.0.slot as int] is Some
                                && table@[eid.0.slot as int]->Some_0.idx == sched@[k1]
                                .output_buffers@[self.edge_of(eid).src_port.0 as int].buffer_index,
                    // what each consumed input port was assigned
                    forall|eid: EdgeID, k1: int|
                        #![trigger self.has_edge_id(eid), order@[k1]]
                        self.has_edge_id(eid) && 0 <= k1 < k && order@[k1] == self.edge_of(
                            eid,
                        ).src_node && self.edge_of(eid).dst_node == node_id && self.edge_of(
                            eid,
                        ).dst_port.0 < p && self.edge_of(eid).src_port.0
                            < sched@[k1].output_buffers@.len() ==>
                            input_buffers@[self.edge_of(eid).dst_port.0 as int].buffer_index
                                == sched@[k1].output_buffers@[self.edge_of(
                                eid,
                            ).src_port.0 as int].buffer_index,
                decreases num_inputs - p,
            {
                // Find the edge ending at this input port, if any. By
                // input-port uniqueness there is at most one.
                let mut found_slot: Option<usize> = None;
                let ghost mut found_eid: EdgeID = EdgeID(
                    crate::arena::ArenaIndex { slot: 0, generation: 0 },
                );
                let mut es: usize = 0;
                while es < n_edge_slots
                    invariant
                        self.wf(),
                        es <= n_edge_slots,
                        n_edge_slots == self.edges.num_slots(),
                        table@.len() == n_edge_slots,
                        self.has_node(node_id),
                        found_slot is None ==> forall|eid: EdgeID| #[trigger] self.has_edge_id(eid)
                            && eid.0.slot < es ==> !(self.edge_of(eid).dst_node == node_id
                                && self.edge_of(eid).dst_port == InPortIdx(p)),
                        found_slot matches Some(t) ==> t < n_edge_slots
                            && self.has_edge_id(found_eid) && found_eid.0.slot == t
                            && self.edge_of(found_eid).dst_node == node_id
                            && self.edge_of(found_eid).dst_port == InPortIdx(p)
                            && self.spec_port_connected(node_id, InPortIdx(p)),
                    decreases n_edge_slots - es,
                {
                    if found_slot.is_none() {
                        if let Some(i) = self.edges.index_at(es) {
                            let e = *self.edges.get(i).unwrap();
                            if e.dst_node == node_id && e.dst_port.0 == p {
                                proof {
                                    assert(self.has_edge_id(EdgeID(i)));
                                    assert(self.edge_of(EdgeID(i)) == e);
                                    assert(self.edge_of(EdgeID(i)).dst_port == InPortIdx(p));
                                    assert(self.spec_port_connected(node_id, InPortIdx(p)));
                                    found_eid = EdgeID(i);
                                }
                                found_slot = Some(es);
                            }
                        }
                    }
                    es += 1;
                }
                match found_slot {
                    Some(t) => {
                        // The port is connected; the source has already
                        // been scheduled, so the table must hold the
                        // source's buffer.
                        proof {
                            let e = self.edge_of(found_eid);
                            assert(exists|a: int, b: int|
                                0 <= a < b < order@.len() && order@[a] == e.src_node && order@[b]
                                    == e.dst_node);
                            let (a, b) = choose|a: int, b: int|
                                0 <= a < b < order@.len() && order@[a] == e.src_node && order@[b]
                                    == e.dst_node;
                            assert(order@[b] == order@[k as int]);
                            assert(b == k as int);
                            assert(self.edge_ok(e));
                            assert(self.has_node(e.src_node));
                            assert(order@.take(k as int)[a] == e.src_node);
                            assert(sched@[a].output_buffers@.len() == self.node_of(
                                e.src_node,
                            ).num_outputs);
                            assert(e.src_port.0 < sched@[a].output_buffers@.len());
                            assert(table@[found_eid.0.slot as int] is Some);
                        }
                        let ghost pre_table = table@;
                        let b = match table[t] {
                            Some(b) => {
                                table[t] = None;
                                b
                            },
                            None => {
                                proof {
                                    assert(false);
                                }
                                alloc.acquire()
                            },
                        };
                        let ghost pre_list = to_release@;
                        input_buffers.push(InBufferAssignment {
                            buffer_index: b.idx,
                            generation: b.generation,
                            should_clear: false,
                        });
                        to_release.push(b);
                        proof {
                            assert(pre_table[t as int] == Some(b));
                            assert(table@ == pre_table.update(t as int, None::<BufferRef>));
                            assert forall|bi: int| 0 <= bi < alloc.count implies alloc.rc(bi)
                                >= table_refs(table@, bi) + list_refs(to_release@, 0, bi) by {
                                lemma_list_refs_push(pre_list, b, 0, bi);
                                lemma_table_refs_update(pre_table, t as int, None::<BufferRef>,
                                    bi);
                            }
                            assert(alloc.rc(b.idx as int) >= 1) by {
                                lemma_list_refs_push(pre_list, b, 0, b.idx as int);
                                assert(list_refs(to_release@, 0, b.idx as int) >= 1);
                            }
                            // the consumed edge was the only edge into
                            // this port, so other pending edges keep
                            // their entries
                            assert forall|eid: EdgeID| #[trigger] self.has_edge_id(eid)
                                && eid != found_eid implies eid.0.slot != found_eid.0.slot by {}
                            assert forall|eid1: EdgeID, eid2: EdgeID|
                                #![trigger self.has_edge_id(eid1), self.has_edge_id(eid2)]
                                self.has_edge_id(eid1) && self.has_edge_id(eid2)
                                    && eid1.0.slot < table@.len() && eid2.0.slot < table@.len()
                                    && table@[eid1.0.slot as int] is Some
                                    && table@[eid2.0.slot as int] is Some
                                    && !(self.edge_of(eid1).src_node == self.edge_of(
                                    eid2,
                                ).src_node && self.edge_of(eid1).src_port == self.edge_of(
                                    eid2,
                                ).src_port) implies table@[eid1.0.slot as int]->Some_0.idx
                                != table@[eid2.0.slot as int]->Some_0.idx by {
                                assert(table@[eid1.0.slot as int]
                                    == pre_table[eid1.0.slot as int]);
                                assert(table@[eid2.0.slot as int]
                                    == pre_table[eid2.0.slot as int]);
                            }
                            assert(self.table_pairwise_distinct(table@));
                            let e_new = self.edge_of(found_eid);
                            assert(e_new.dst_port.0 == p);
                            assert(input_buffers@[p as int].buffer_index == b.idx);
                            assert(pre_table[found_eid.0.slot as int] == Some(b));
                            assert forall|eid1: EdgeID, eid2: EdgeID|
                                #![trigger self.has_edge_id(eid1), self.has_edge_id(eid2)]
                                self.has_edge_id(eid1) && self.has_edge_id(eid2)
                                    && self.edge_of(eid1).dst_node == node_id && self.edge_of(
                                    eid2,
                                ).dst_node == node_id && self.edge_of(eid1).dst_port
                                    != self.edge_of(eid2).dst_port && self.edge_of(
                                    eid1,
                                ).dst_port.0 < p + 1 && self.edge_of(eid2).dst_port.0 < p + 1
                                    && !(self.edge_of(eid1).src_node == self.edge_of(
                                    eid2,
                                ).src_node && self.edge_of(eid1).src_port == self.edge_of(
                                    eid2,
                                ).src_port) implies input_buffers@[self.edge_of(
                                    eid1,
                                ).dst_port.0 as int].buffer_index != input_buffers@[self.edge_of(
                                    eid2,
                                ).dst_port.0 as int].buffer_index by {
                                if self.edge_of(eid1).dst_port.0 == p {
                                    assert(eid1 == found_eid);
                                    assert(self.edge_of(eid2).dst_port.0 < p);
                                } else if self.edge_of(eid2).dst_port.0 == p {
                                    assert(eid2 == found_eid);
                                    assert(self.edge_of(eid1).dst_port.0 < p);
                                }
                            }
                            assert forall|q1: int, q2: int|
                                #![trigger input_buffers@[q1], input_buffers@[q2]]
                                0 <= q1 < p + 1 && 0 <= q2 < p + 1 && q1 != q2
                                    && !self.spec_port_connected(node_id, InPortIdx(q1 as u32))
                                implies input_buffers@[q1].buffer_index
                                    != input_buffers@[q2].buffer_index by {
                                if q2 == p as int {
                                    assert(q1 < p);
                                } else if q1 == p as int {
                                    assert(self.spec_port_connected(node_id, InPortIdx(p)));
                                }
                            }
                            assert forall|eidc: EdgeID, eidt: EdgeID|
                                #![trigger self.has_edge_id(eidc), self.has_edge_id(eidt)]
                                self.has_edge_id(eidc) && self.has_edge_id(eidt) && self.edge_of(
                                    eidc,
                                ).dst_node == node_id && self.edge_of(eidc).dst_port.0 < p + 1
                                    && eidt.0.slot < table@.len()
                                    && table@[eidt.0.slot as int] is Some && !(self.edge_of(
                                    eidc,
                                ).src_node == self.edge_of(eidt).src_node && self.edge_of(
                                    eidc,
                                ).src_port == self.edge_of(eidt).src_port) implies
                                table@[eidt.0.slot as int]->Some_0.idx != input_buffers@[
                                self.edge_of(eidc).dst_port.0 as int].buffer_index by {
                                assert(table@[eidt.0.slot as int]
                                    == pre_table[eidt.0.slot as int]);
                                if self.edge_of(eidc).dst_port.0 == p {
                                    assert(eidc == found_eid);
                                }
                            }
                            assert forall|q: int, eidt: EdgeID|
                                #![trigger input_buffers@[q], self.has_edge_id(eidt)]
                                0 <= q < p + 1 && !self.spec_port_connected(
                                    node_id,
                                    InPortIdx(q as u32),
                                ) && self.has_edge_id(eidt) && eidt.0.slot < table@.len()
                                    && table@[eidt.0.slot as int] is Some implies
                                table@[eidt.0.slot as int]->Some_0.idx
                                    != input_buffers@[q].buffer_index by {
                                assert(table@[eidt.0.slot as int]
                                    == pre_table[eidt.0.slot as int]);
                                if q == p as int {
                                    assert(self.spec_port_connected(node_id, InPortIdx(p)));
                                }
                            }
                        }
                    },
                    None => {
                        proof {
                            assert forall|eid: EdgeID| #[trigger] self.has_edge_id(eid) implies
                                !(self.edge_of(eid).dst_node == node_id && self.edge_of(eid)
                                    .dst_port == InPortIdx(p)) by {
                                assert(eid.0.slot < n_edge_slots);
                            }
                            assert(!self.spec_port_connected(node_id, InPortIdx(p)));
                        }
                        let ghost pre_alloc = alloc;
                        let b = alloc.acquire();
                        proof {
                            if b.idx < pre_alloc.count {
                                assert(pre_alloc.rc(b.idx as int) == 0);
                                assert(pre_alloc.rc(b.idx as int) >= table_refs(table@,
                                    b.idx as int) + list_refs(to_release@, 0, b.idx as int));
                            } else {
                                assert(b.idx == pre_alloc.count);
                                lemma_table_refs_none_of(table@, b.idx as int);
                                lemma_list_refs_none_of(to_release@, 0, b.idx as int);
                            }
                            assert(table_refs(table@, b.idx as int) == 0);
                            assert(list_refs(to_release@, 0, b.idx as int) == 0);
                            assert forall|eid: EdgeID| #[trigger] self.has_edge_id(eid)
                                && eid.0.slot < table@.len()
                                && table@[eid.0.slot as int] is Some implies
                                table@[eid.0.slot as int]->Some_0.idx != b.idx by {
                                lemma_table_refs_at_least_one(table@, eid.0.slot as int);
                            }
                            assert forall|q: int| 0 <= q < p implies
                                (#[trigger] input_buffers@[q]).buffer_index != b.idx by {
                                if b.idx < pre_alloc.count {
                                    assert(pre_alloc.rc(input_buffers@[q].buffer_index as int)
                                        >= 1);
                                } else {
                                    assert(input_buffers@[q].buffer_index < pre_alloc.count);
                                }
                            }
                        }
                        let ghost pre_list = to_release@;
                        input_buffers.push(InBufferAssignment {
                            buffer_index: b.idx,
                            generation: b.generation,
                            should_clear: true,
                        });
                        to_release.push(b);
                        proof {
                            assert forall|bi: int| 0 <= bi < alloc.count implies alloc.rc(bi)
                                >= table_refs(table@, bi) + list_refs(to_release@, 0, bi) by {
                                lemma_list_refs_push(pre_list, b, 0, bi);
                            }
                            assert(input_buffers@[p as int].buffer_index == b.idx);
                            assert forall|eid1: EdgeID, eid2: EdgeID|
                                #![trigger self.has_edge_id(eid1), self.has_edge_id(eid2)]
                                self.has_edge_id(eid1) && self.has_edge_id(eid2)
                                    && self.edge_of(eid1).dst_node == node_id && self.edge_of(
                                    eid2,
                                ).dst_node == node_id && self.edge_of(eid1).dst_port
                                    != self.edge_of(eid2).dst_port && self.edge_of(
                                    eid1,
                                ).dst_port.0 < p + 1 && self.edge_of(eid2).dst_port.0 < p + 1
                                    && !(self.edge_of(eid1).src_node == self.edge_of(
                                    eid2,
                                ).src_node && self.edge_of(eid1).src_port == self.edge_of(
                                    eid2,
                                ).src_port) implies input_buffers@[self.edge_of(
                                    eid1,
                                ).dst_port.0 as int].buffer_index != input_buffers@[self.edge_of(
                                    eid2,
                                ).dst_port.0 as int].buffer_index by {
                                assert(self.edge_of(eid1).dst_port.0 != p) by {
                                    if self.edge_of(eid1).dst_port.0 == p {
                                        assert(self.spec_port_connected(node_id, InPortIdx(p)));
                                    }
                                }
                                assert(self.edge_of(eid2).dst_port.0 != p) by {
                                    if self.edge_of(eid2).dst_port.0 == p {
                                        assert(self.spec_port_connected(node_id, InPortIdx(p)));
                                    }
                                }
                            }
                            assert forall|q1: int, q2: int|
                                #![trigger input_buffers@[q1], input_buffers@[q2]]
                                0 <= q1 < p + 1 && 0 <= q2 < p + 1 && q1 != q2
                                    && !self.spec_port_connected(node_id, InPortIdx(q1 as u32))
                                implies input_buffers@[q1].buffer_index
                                    != input_buffers@[q2].buffer_index by {
                                if q1 == p as int || q2 == p as int {
                                }
                            }
                            assert forall|eidc: EdgeID, eidt: EdgeID|
                                #![trigger self.has_edge_id(eidc), self.has_edge_id(eidt)]
                                self.has_edge_id(eidc) && self.has_edge_id(eidt) && self.edge_of(
                                    eidc,
                                ).dst_node == node_id && self.edge_of(eidc).dst_port.0 < p + 1
                                    && eidt.0.slot < table@.len()
                                    && table@[eidt.0.slot as int] is Some && !(self.edge_of(
                                    eidc,
                                ).src_node == self.edge_of(eidt).src_node && self.edge_of(
                                    eidc,
                                ).src_port == self.edge_of(eidt).src_port) implies
                                table@[eidt.0.slot as int]->Some_0.idx != input_buffers@[
                                self.edge_of(eidc).dst_port.0 as int].buffer_index by {
                                assert(self.edge_of(eidc).dst_port.0 != p) by {
                                    if self.edge_of(eidc).dst_port.0 == p {
                                        assert(self.spec_port_connected(node_id, InPortIdx(p)));
                                    }
                                }
                            }
                            assert forall|q: int, eidt: EdgeID|
                                #![trigger input_buffers@[q], self.has_edge_id(eidt)]
                                0 <= q < p + 1 && !self.spec_port_connected(
                                    node_id,
                                    InPortIdx(q as u32),
                                ) && self.has_edge_id(eidt) && eidt.0.slot < table@.len()
                                    && table@[eidt.0.slot as int] is Some implies
                                table@[eidt.0.slot as int]->Some_0.idx
                                    != input_buffers@[q].buffer_index by {
                                if q == p as int {
                                }
                            }
                        }
                    },
                }
                p += 1;
            }

            let mut p2: u32 = 0;
            while p2 < num_outputs
                invariant
                    self.wf(),
                    self.is_topo_order(order@),
                    alloc.wf(),
                    count0 <= alloc.count,
                    table@.len() == n_edge_slots,
                    n_edge_slots == self.edges.num_slots(),
                    all_edges == self.edges.slots@,
                    ne == self.edges.num_slots() as int,
                    k < order@.len(),
                    sched@.len() == k,
                    node_id == order@[k as int],
                    self.has_node(node_id),
                    num_outputs == self.node_of(node_id).num_outputs,
                    num_inputs == self.node_of(node_id).num_inputs,
                    p2 <= num_outputs,
                    input_buffers@.len() == num_inputs,
                    output_buffers@.len() == p2,
                    self.schedule_structure(order@.take(k as int), sched@, count0),
                    self.schedule_routes_edges(order@, sched@),
                    forall|q: int| 0 <= q < p2 ==>
                        (#[trigger] output_buffers@[q]).buffer_index < alloc.count
                            && alloc.rc(output_buffers@[q].buffer_index as int) >= 1,
                    forall|q1: int, q2: int|
                        #![trigger output_buffers@[q1], output_buffers@[q2]]
                        0 <= q1 < q2 < p2 ==> output_buffers@[q1].buffer_index
                            != output_buffers@[q2].buffer_index,
                    forall|q: int| 0 <= q < input_buffers@.len() ==>
                        (#[trigger] input_buffers@[q]).buffer_index < alloc.count,
                    forall|q: int| 0 <= q < input_buffers@.len() ==>
                        alloc.rc((#[trigger] input_buffers@[q]).buffer_index as int) >= 1,
                    forall|q: int| 0 <= q < input_buffers@.len() ==> ((
                    #[trigger] input_buffers@[q]).should_clear <==> !self.spec_port_connected(
                        node_id,
                        InPortIdx(q as u32),
                    )),
                    forall|q1: int, q2: int|
                        #![trigger input_buffers@[q1], output_buffers@[q2]]
                        0 <= q1 < input_buffers@.len() && 0 <= q2 < p2 ==>
                            input_buffers@[q1].buffer_index != output_buffers@[q2].buffer_index,
                    forall|j: int| 0 <= j < to_release@.len() ==>
                        (#[trigger] to_release@[j]).idx < alloc.count,
                    forall|t: int| 0 <= t < table@.len() ==> ((#[trigger] table@[t]) is Some ==>
                        table@[t]->Some_0.idx < alloc.count),
                    forall|bi: int| #![trigger alloc.rc(bi)] 0 <= bi < alloc.count ==>
                        alloc.rc(bi) >= table_refs(table@, bi) + list_refs(to_release@, 0, bi),
                    self.table_pairwise_distinct(table@),
                    // pending edges of earlier nodes stay routed
                    forall|eid: EdgeID, k1: int, k2: int|
                        #![trigger self.has_edge_id(eid), order@[k1], order@[k2]]
                        self.has_edge_id(eid) && 0 <= k1 < k && (k as int) <= k2 < order@.len()
                            && order@[k1] == self.edge_of(eid).src_node && order@[k2]
                            == self.edge_of(eid).dst_node && self.edge_of(eid).src_port.0
                            < sched@[k1].output_buffers@.len() && eid.0.slot < table@.len()
                            && self.edge_of(eid).dst_node != node_id ==>
                            table@[eid.0.slot as int] is Some
                                && table@[eid.0.slot as int]->Some_0.idx == sched@[k1]
                                .output_buffers@[self.edge_of(eid).src_port.0 as int].buffer_index,
                    // consumed input assignments agree with their sources
                    forall|eid: EdgeID, k1: int|
                        #![trigger self.has_edge_id(eid), order@[k1]]
                        self.has_edge_id(eid) && 0 <= k1 < k && order@[k1] == self.edge_of(
                            eid,
                        ).src_node && self.edge_of(eid).dst_node == node_id && self.edge_of(
                            eid,
                        ).src_port.0 < sched@[k1].output_buffers@.len() ==>
                            self.edge_of(eid).dst_port.0 < input_buffers@.len()
                                && input_buffers@[self.edge_of(eid).dst_port.0 as int].buffer_index
                                == sched@[k1].output_buffers@[self.edge_of(
                                eid,
                            ).src_port.0 as int].buffer_index,
                    // this node's own edges are routed for ports < p2
                    forall|eid: EdgeID|
                        #![trigger self.has_edge_id(eid)]
                        self.has_edge_id(eid) && self.edge_of(eid).src_node == node_id
                            && self.edge_of(eid).src_port.0 < p2 && eid.0.slot < table@.len() ==>
                            table@[eid.0.slot as int] is Some
                                && table@[eid.0.slot as int]->Some_0.idx == output_buffers@[
                                self.edge_of(eid).src_port.0 as int].buffer_index,
                    // edges of nodes not yet scheduled stay unrouted
                    forall|eid: EdgeID, k1: int|
                        #![trigger self.has_edge_id(eid), order@[k1]]
                        self.has_edge_id(eid) && (k as int) < k1 < order@.len() && order@[k1]
                            == self.edge_of(eid).src_node && eid.0.slot < table@.len() ==>
                            table@[eid.0.slot as int] is None,
                    // this node's edges at ports >= p2 are still unrouted
                    forall|eid: EdgeID|
                        #![trigger self.has_edge_id(eid)]
                        self.has_edge_id(eid) && self.edge_of(eid).src_node == node_id
                            && self.edge_of(eid).src_port.0 >= p2 && eid.0.slot < table@.len() ==>
                            table@[eid.0.slot as int] is None,
                decreases num_outputs - p2,
            {
                // Count the edges leaving this output port.
                let mut cnt: usize = 0;
                let mut es: usize = 0;
                while es < n_edge_slots
                    invariant
                        self.wf(),
                        es <= n_edge_slots,
                        cnt == port_out_degree(all_edges, es as int, node_id, p2),
                        cnt <= es,
                        all_edges == self.edges.slots@,
                        n_edge_slots == self.edges.num_slots(),
                    decreases n_edge_slots - es,
                {
                    if let Some(i) = self.edges.index_at(es) {
                        let e = *self.edges.get(i).unwrap();
                        proof {
                            assert(all_edges[es as int].value->Some_0 == e);
                        }
                        if e.src_node == node_id && e.src_port.0 == p2 {
                            cnt += 1;
                        }
                    }
                    es += 1;
                }

                let ghost pre_alloc = alloc;
                let b = alloc.acquire();
                proof {
                    // the fresh buffer aliases nothing live: not the
                    // inputs, not the earlier outputs, not the table
                    if b.idx < pre_alloc.count {
                        assert(pre_alloc.rc(b.idx as int) == 0);
                        assert(pre_alloc.rc(b.idx as int) >= table_refs(table@, b.idx as int)
                            + list_refs(to_release@, 0, b.idx as int));
                    } else {
                        assert(b.idx == pre_alloc.count);
                        lemma_table_refs_none_of(table@, b.idx as int);
                        lemma_list_refs_none_of(to_release@, 0, b.idx as int);
                    }
                    assert(table_refs(table@, b.idx as int) == 0);
                    assert(list_refs(to_release@, 0, b.idx as int) == 0);
                    assert forall|eid: EdgeID| #[trigger] self.has_edge_id(eid)
                        && eid.0.slot < table@.len() && table@[eid.0.slot as int] is Some implies
                        table@[eid.0.slot as int]->Some_0.idx != b.idx by {
                        lemma_table_refs_at_least_one(table@, eid.0.slot as int);
                    }
                }
                if cnt == 0 {
                    // Dead output: the node still fills it, and it is
                    // recycled as soon as the node has been scheduled.
                    let ghost pre_list = to_release@;
                    to_release.push(b);
                    proof {
                        assert forall|bi: int| 0 <= bi < alloc.count implies alloc.rc(bi)
                            >= table_refs(table@, bi) + list_refs(to_release@, 0, bi) by {
                            lemma_list_refs_push(pre_list, b, 0, bi);
                        }
                        assert forall|eid: EdgeID|
                            #![trigger self.has_edge_id(eid)]
                            self.has_edge_id(eid) && self.edge_of(eid).src_node == node_id
                                && self.edge_of(eid).src_port.0 == p2 implies false by {
                            assert(eid.0.slot < ne);
                            lemma_port_out_degree_at_least_one(self, all_edges, eid, node_id, p2);
                            lemma_port_out_degree_monotone(all_edges, eid.0.slot as int + 1, ne,
                                node_id, p2);
                        }
                    }
                } else {
                    alloc.retain(b, cnt);
                    let mut es2: usize = 0;
                    while es2 < n_edge_slots
                        invariant
                            self.wf(),
                            self.is_topo_order(order@),
                            es2 <= n_edge_slots,
                            n_edge_slots == self.edges.num_slots(),
                            all_edges == self.edges.slots@,
                            ne == self.edges.num_slots() as int,
                            table@.len() == n_edge_slots,
                            alloc.wf(),
                            count0 <= alloc.count,
                            b.idx < alloc.count,
                            alloc.rc(b.idx as int) == cnt,
                            cnt == port_out_degree(all_edges, ne, node_id, p2),
                            self.has_node(node_id),
                            node_id == order@[k as int],
                            k < order@.len(),
                            sched@.len() == k,
                            table_refs(table@, b.idx as int) <= port_out_degree(all_edges,
                                es2 as int, node_id, p2),
                            list_refs(to_release@, 0, b.idx as int) == 0,
                            forall|q: int| 0 <= q < output_buffers@.len() ==>
                                (#[trigger] output_buffers@[q]).buffer_index < alloc.count
                                    && alloc.rc(output_buffers@[q].buffer_index as int) >= 1
                                    && output_buffers@[q].buffer_index != b.idx,
                            forall|q: int| 0 <= q < input_buffers@.len() ==>
                                (#[trigger] input_buffers@[q]).buffer_index < alloc.count
                                    && alloc.rc(input_buffers@[q].buffer_index as int) >= 1
                                    && input_buffers@[q].buffer_index != b.idx,
                            forall|j: int| 0 <= j < to_release@.len() ==>
                                (#[trigger] to_release@[j]).idx < alloc.count,
                            forall|t: int| 0 <= t < table@.len() ==>
                                ((#[trigger] table@[t]) is Some ==>
                                    table@[t]->Some_0.idx < alloc.count),
                            forall|bi: int| #![trigger alloc.rc(bi)] 0 <= bi < alloc.count
                                && bi != b.idx ==> alloc.rc(bi) >= table_refs(table@, bi)
                                    + list_refs(to_release@, 0, bi),
                            self.table_pairwise_distinct(table@),
                            forall|eid: EdgeID| #[trigger] self.has_edge_id(eid)
                                && eid.0.slot < table@.len()
                                && table@[eid.0.slot as int] is Some ==>
                                (table@[eid.0.slot as int]->Some_0.idx != b.idx
                                    || (self.edge_of(eid).src_node == node_id
                                    && self.edge_of(eid).src_port.0 == p2)),
                            forall|eid: EdgeID, k1: int, k2: int|
                                #![trigger self.has_edge_id(eid), order@[k1], order@[k2]]
                                self.has_edge_id(eid) && 0 <= k1 < k && k as int <= k2
                                    < order@.len() && order@[k1] == self.edge_of(eid).src_node
                                    && order@[k2] == self.edge_of(eid).dst_node && self.edge_of(
                                    eid,
                                ).src_port.0 < sched@[k1].output_buffers@.len() && eid.0.slot
                                    < table@.len() && self.edge_of(eid).dst_node != node_id ==>
                                    table@[eid.0.slot as int] is Some
                                        && table@[eid.0.slot as int]->Some_0.idx == sched@[k1]
                                        .output_buffers@[self.edge_of(
                                        eid,
                                    ).src_port.0 as int].buffer_index,
                            forall|eid: EdgeID|
                                #![trigger self.has_edge_id(eid)]
                                self.has_edge_id(eid) && self.edge_of(eid).src_node == node_id
                                    && self.edge_of(eid).src_port.0 < p2 && eid.0.slot
                                    < table@.len() ==> table@[eid.0.slot as int] is Some
                                    && table@[eid.0.slot as int]->Some_0.idx == output_buffers@[
                                    self.edge_of(eid).src_port.0 as int].buffer_index,
                            forall|eid: EdgeID|
                                #![trigger self.has_edge_id(eid)]
                                self.has_edge_id(eid) && self.edge_of(eid).src_node == node_id
                                    && self.edge_of(eid).src_port.0 == p2 && eid.0.slot
                                    < table@.len() ==> (if eid.0.slot < es2 {
                                    table@[eid.0.slot as int] == Some(b)
                                } else {
                                    table@[eid.0.slot as int] is None
                                }),
                            forall|eid: EdgeID, k1: int|
                                #![trigger self.has_edge_id(eid), order@[k1]]
                                self.has_edge_id(eid) && (k as int) < k1 < order@.len() && order@[k1]
                                    == self.edge_of(eid).src_node && eid.0.slot < table@.len() ==>
                                    table@[eid.0.slot as int] is None,
                            forall|eid: EdgeID|
                                #![trigger self.has_edge_id(eid)]
                                self.has_edge_id(eid) && self.edge_of(eid).src_node == node_id
                                    && self.edge_of(eid).src_port.0 > p2 && eid.0.slot
                                    < table@.len() ==> table@[eid.0.slot as int] is None,
                        decreases n_edge_slots - es2,
                    {
                        if let Some(i) = self.edges.index_at(es2) {
                            let e = *self.edges.get(i).unwrap();
                            proof {
                                assert(self.has_edge_id(EdgeID(i)));
                                assert(self.edge_of(EdgeID(i)) == e);
                                assert(all_edges[es2 as int].value->Some_0 == e);
                            }
                            if e.src_node == node_id && e.src_port.0 == p2 {
                                let ghost pre_tab = table@;
                                table[i.slot] = Some(b);
                                proof {
                                    assert(table@ == pre_tab.update(i.slot as int, Some(b)));
                                    assert forall|eid: EdgeID| #[trigger] self.has_edge_id(eid)
                                        && eid != EdgeID(i) implies eid.0.slot != i.slot by {}
                                    lemma_table_refs_update(pre_tab, i.slot as int, Some(b),
                                        b.idx as int);
                                    assert(port_out_degree(all_edges, es2 as int + 1, node_id, p2)
                                        == port_out_degree(all_edges, es2 as int, node_id, p2)
                                        + 1);
                                    assert forall|bi: int| #![trigger alloc.rc(bi)]
                                        0 <= bi < alloc.count && bi != b.idx implies alloc.rc(bi)
                                        >= table_refs(table@, bi) + list_refs(to_release@, 0,
                                        bi) by {
                                        lemma_table_refs_update(pre_tab, i.slot as int, Some(b),
                                            bi);
                                    }
                                    assert(i.slot == es2);
                                    assert forall|eid: EdgeID| #[trigger] self.has_edge_id(eid)
                                        && eid.0.slot < table@.len()
                                        && table@[eid.0.slot as int] is Some implies
                                        (table@[eid.0.slot as int]->Some_0.idx != b.idx
                                            || (self.edge_of(eid).src_node == node_id
                                            && self.edge_of(eid).src_port.0 == p2)) by {
                                        if eid.0.slot == es2 {
                                            assert(eid == EdgeID(i));
                                        } else {
                                            assert(table@[eid.0.slot as int]
                                                == pre_tab[eid.0.slot as int]);
                                        }
                                    }
                                    assert forall|eid1: EdgeID, eid2: EdgeID|
                                        #![trigger self.has_edge_id(eid1), self.has_edge_id(eid2)]
                                        self.has_edge_id(eid1) && self.has_edge_id(eid2)
                                            && eid1.0.slot < table@.len()
                                            && eid2.0.slot < table@.len()
                                            && table@[eid1.0.slot as int] is Some
                                            && table@[eid2.0.slot as int] is Some
                                            && !(self.edge_of(eid1).src_node == self.edge_of(
                                            eid2,
                                        ).src_node && self.edge_of(eid1).src_port
                                            == self.edge_of(eid2).src_port) implies
                                        table@[eid1.0.slot as int]->Some_0.idx
                                            != table@[eid2.0.slot as int]->Some_0.idx by {
                                        if eid1.0.slot != es2 && eid2.0.slot != es2 {
                                            assert(table@[eid1.0.slot as int]
                                                == pre_tab[eid1.0.slot as int]);
                                            assert(table@[eid2.0.slot as int]
                                                == pre_tab[eid2.0.slot as int]);
                                        } else if eid1.0.slot == es2 {
                                            assert(eid1 == EdgeID(i));
                                            assert(table@[eid2.0.slot as int]
                                                == pre_tab[eid2.0.slot as int]);
                                            assert(pre_tab[eid2.0.slot as int]->Some_0.idx
                                                != b.idx);
                                        } else {
                                            assert(eid2 == EdgeID(i));
                                            assert(table@[eid1.0.slot as int]
                                                == pre_tab[eid1.0.slot as int]);
                                            assert(pre_tab[eid1.0.slot as int]->Some_0.idx
                                                != b.idx);
                                        }
                                    }
                                    assert(self.table_pairwise_distinct(table@));
                                    assert forall|eid: EdgeID|
                                        #![trigger self.has_edge_id(eid)]
                                        self.has_edge_id(eid) && self.edge_of(eid).src_node
                                            == node_id && self.edge_of(eid).src_port.0 == p2
                                            && eid.0.slot < table@.len() implies (if eid.0.slot
                                            < es2 + 1 {
                                            table@[eid.0.slot as int] == Some(b)
                                        } else {
                                            table@[eid.0.slot as int] is None
                                        }) by {
                                        if eid.0.slot == es2 {
                                            assert(eid == EdgeID(i));
                                        } else {
                                            assert(table@[eid.0.slot as int]
                                                == pre_tab[eid.0.slot as int]);
                                        }
                                    }
                                    assert forall|eid: EdgeID, k1: int|
                                        #![trigger self.has_edge_id(eid), order@[k1]]
                                        self.has_edge_id(eid) && (k as int) < k1 < order@.len()
                                            && order@[k1] == self.edge_of(eid).src_node
                                            && eid.0.slot < table@.len() implies
                                        table@[eid.0.slot as int] is None by {
                                        if eid.0.slot == es2 {
                                            assert(eid == EdgeID(i));
                                            assert(order@[k1] == order@[k as int]);
                                            assert(false);
                                        } else {
                                            assert(table@[eid.0.slot as int]
                                                == pre_tab[eid.0.slot as int]);
                                        }
                                    }
                                }
                            }
                        }
                        es2 += 1;
                    }
                    proof {
                        lemma_port_out_degree_monotone(all_edges, 0, ne, node_id, p2);
                    }
                }
                output_buffers.push(OutBufferAssignment {
                    buffer_index: b.idx,
                    generation: b.generation,
                });
                p2 += 1;
            }

            // All of this node's assignments are recorded; drop the
            // references taken for its inputs and dead outputs. Buffers
            // still routed to later nodes keep their references.
            let ghost table_at_release = table@;
            let mut j: usize = 0;
            while j < to_release.len()
                invariant
                    alloc.wf(),
                    count0 <= alloc.count,
                    j <= to_release@.len(),
                    table@ == table_at_release,
                    forall|q: int| 0 <= q < to_release@.len() ==>
                        (#[trigger] to_release@[q]).idx < alloc.count,
                    forall|q: int| 0 <= q < input_buffers@.len() ==>
                        (#[trigger] input_buffers@[q]).buffer_index < alloc.count,
                    forall|q: int| 0 <= q < output_buffers@.len() ==>
                        (#[trigger] output_buffers@[q]).buffer_index < alloc.count,
                    forall|t: int| 0 <= t < table@.len() ==> ((#[trigger] table@[t]) is Some ==>
                        table@[t]->Some_0.idx < alloc.count),
                    forall|bi: int| #![trigger alloc.rc(bi)] 0 <= bi < alloc.count ==>
                        alloc.rc(bi) >= table_refs(table@, bi) + list_refs(to_release@, j as int,
                            bi),
                decreases to_release@.len() - j,
            {
                let b = to_release[j];
                proof {
                    assert(list_refs(to_release@, j as int, b.idx as int) >= 1);
                }
                alloc.release(b);
                j += 1;
            }

            let ghost pre_sched = sched@;
            sched.push(ScheduledNode { id: node_id, input_buffers, output_buffers });
            proof {
                reveal(AudioGraph::schedule_inputs_distinct);
                assert(order@.take(k as int + 1) =~= order@.take(k as int).push(node_id));
                assert forall|j2: int| 0 <= j2 < sched@.len() implies (#[trigger] sched@[j2]).id
                    == order@.take(k as int + 1)[j2] by {
                    if j2 < pre_sched.len() {
                        assert(sched@[j2] == pre_sched[j2]);
                        assert(order@.take(k as int)[j2] == order@.take(k as int + 1)[j2]);
                    }
                }
                assert forall|j2: int, q: int|
                    #![trigger sched@[j2].input_buffers@[q]]
                    0 <= j2 < sched@.len() && 0 <= q < sched@[j2].input_buffers@.len() implies
                    sched@[j2].input_buffers@[q].buffer_index < alloc.count
                        && (sched@[j2].input_buffers@[q].should_clear
                        <==> !self.spec_port_connected(
                        order@.take(k as int + 1)[j2],
                        InPortIdx(q as u32),
                    )) by {
                    if j2 < pre_sched.len() {
                        assert(sched@[j2] == pre_sched[j2]);
                        assert(order@.take(k as int)[j2] == order@.take(k as int + 1)[j2]);
                    }
                }
                assert forall|j2: int, q: int|
                    #![trigger sched@[j2].output_buffers@[q]]
                    0 <= j2 < sched@.len() && 0 <= q < sched@[j2].output_buffers@.len() implies
                    sched@[j2].output_buffers@[q].buffer_index < alloc.count by {
                    if j2 < pre_sched.len() {
                        assert(sched@[j2] == pre_sched[j2]);
                    }
                }
                assert forall|j2: int, q1: int, q2: int|
                    #![trigger sched@[j2].output_buffers@[q1], sched@[j2].output_buffers@[q2]]
                    0 <= j2 < sched@.len() && 0 <= q1 < q2 < sched@[j2].output_buffers@.len()
                    implies sched@[j2].output_buffers@[q1].buffer_index
                        != sched@[j2].output_buffers@[q2].buffer_index by {
                    if j2 < pre_sched.len() {
                        assert(sched@[j2] == pre_sched[j2]);
                    }
                }
                assert forall|j2: int, q1: int, q2: int|
                    #![trigger sched@[j2].input_buffers@[q1], sched@[j2].output_buffers@[q2]]
                    0 <= j2 < sched@.len() && 0 <= q1 < sched@[j2].input_buffers@.len() && 0 <= q2
                        < sched@[j2].output_buffers@.len() implies
                    sched@[j2].input_buffers@[q1].buffer_index
                        != sched@[j2].output_buffers@[q2].buffer_index by {
                    if j2 < pre_sched.len() {
                        assert(sched@[j2] == pre_sched[j2]);
                    }
                }
                assert forall|j2: int| 0 <= j2 < sched@.len() implies
                    (#[trigger] sched@[j2]).input_buffers@.len() == self.node_of(
                    order@.take(k as int + 1)[j2],
                ).num_inputs && sched@[j2].output_buffers@.len() == self.node_of(
                    order@.take(k as int + 1)[j2],
                ).num_outputs by {
                    if j2 < pre_sched.len() {
                        assert(sched@[j2] == pre_sched[j2]);
                        assert(order@.take(k as int)[j2] == order@.take(k as int + 1)[j2]);
                    }
                }
                assert forall|k2: int, eid1: EdgeID, eid2: EdgeID|
                    #![trigger order@.take(k as int + 1)[k2], self.has_edge_id(eid1), self.has_edge_id(eid2)]
                    0 <= k2 < sched@.len() && self.has_edge_id(eid1) && self.has_edge_id(eid2)
                        && self.edge_of(eid1).dst_node == order@.take(k as int + 1)[k2]
                        && self.edge_of(eid2).dst_node == order@.take(k as int + 1)[k2]
                        && self.edge_of(eid1).dst_port != self.edge_of(eid2).dst_port
                        && self.edge_of(eid1).dst_port.0 < sched@[k2].input_buffers@.len()
                        && self.edge_of(eid2).dst_port.0 < sched@[k2].input_buffers@.len() && !(
                    self.edge_of(eid1).src_node == self.edge_of(eid2).src_node && self.edge_of(
                        eid1,
                    ).src_port == self.edge_of(eid2).src_port) implies sched@[k2].input_buffers@[
                    self.edge_of(eid1).dst_port.0 as int].buffer_index != sched@[k2]
                    .input_buffers@[self.edge_of(eid2).dst_port.0 as int].buffer_index by {
                    if k2 < k as int {
                        assert(sched@[k2] == pre_sched[k2]);
                        assert(order@.take(k as int)[k2] == order@.take(k as int + 1)[k2]);
                    } else {
                        assert(order@.take(k as int + 1)[k2] == node_id);
                    }
                }
                assert forall|k2: int, p1: int, p2: int|
                    #![trigger order@.take(k as int + 1)[k2], sched@[k2].input_buffers@[p1], sched@[k2].input_buffers@[p2]]
                    0 <= k2 < sched@.len() && 0 <= p1 < sched@[k2].input_buffers@.len() && 0 <= p2
                        < sched@[k2].input_buffers@.len() && p1 != p2
                        && !self.spec_port_connected(
                        order@.take(k as int + 1)[k2],
                        InPortIdx(p1 as u32),
                    ) implies sched@[k2].input_buffers@[p1].buffer_index
                    != sched@[k2].input_buffers@[p2].buffer_index by {
                    if k2 < k as int {
                        assert(sched@[k2] == pre_sched[k2]);
                        assert(order@.take(k as int)[k2] == order@.take(k as int + 1)[k2]);
                    } else {
                        assert(order@.take(k as int + 1)[k2] == node_id);
                    }
                }
                // every edge between scheduled nodes is routed through
                // one shared buffer
                assert forall|eid: EdgeID, k1: int, k2: int|
                    #![trigger self.has_edge_id(eid), order@[k1], order@[k2]]
                    self.has_edge_id(eid) && 0 <= k1 < sched@.len() && 0 <= k2 < sched@.len()
                        && order@[k1] == self.edge_of(eid).src_node && order@[k2] == self.edge_of(
                        eid,
                    ).dst_node && self.edge_of(eid).src_port.0 < sched@[k1].output_buffers@.len()
                        && self.edge_of(eid).dst_port.0 < sched@[k2].input_buffers@.len() implies
                    sched@[k1].output_buffers@[self.edge_of(eid).src_port.0 as int].buffer_index
                        == sched@[k2].input_buffers@[self.edge_of(
                        eid,
                    ).dst_port.0 as int].buffer_index by {
                    let e = self.edge_of(eid);
                    if k1 < k as int && k2 < k as int {
                        assert(sched@[k1] == pre_sched[k1] && sched@[k2] == pre_sched[k2]);
                    } else if k2 == k as int && k1 < k as int {
                        assert(sched@[k1] == pre_sched[k1]);
                    } else if k1 == k as int {
                        // the source cannot be scheduled after its
                        // destination in a topological order
                        assert(exists|a: int, b2: int|
                            0 <= a < b2 < order@.len() && order@[a] == e.src_node && order@[b2]
                                == e.dst_node);
                        let (a, b2) = choose|a: int, b2: int|
                            0 <= a < b2 < order@.len() && order@[a] == e.src_node && order@[b2]
                                == e.dst_node;
                        assert(a == k1 && b2 == k2);
                        assert(false);
                    }
                }
                // the routing table matches the extended schedule
                assert forall|eid: EdgeID, k1: int, k2: int|
                    #![trigger self.has_edge_id(eid), order@[k1], order@[k2]]
                    self.has_edge_id(eid) && 0 <= k1 < (k as int) + 1 && (k as int) + 1 <= k2
                        < order@.len() && k1 < sched@.len() && order@[k1] == self.edge_of(
                        eid,
                    ).src_node && order@[k2] == self.edge_of(eid).dst_node && self.edge_of(
                        eid,
                    ).src_port.0 < sched@[k1].output_buffers@.len() && eid.0.slot < table@.len()
                    implies table@[eid.0.slot as int] is Some
                        && table@[eid.0.slot as int]->Some_0.idx == sched@[k1].output_buffers@[
                        self.edge_of(eid).src_port.0 as int].buffer_index by {
                    let e = self.edge_of(eid);
                    if k1 < k as int {
                        assert(sched@[k1] == pre_sched[k1]);
                        assert(e.dst_node != node_id) by {
                            if e.dst_node == node_id {
                                assert(order@[k2] == order@[k as int]);
                                assert(k2 == k as int);
                            }
                        }
                    } else {
                        assert(k1 == k as int);
                        assert(e.src_node == node_id);
                        assert(self.edge_ok(e));
                        assert(e.src_port.0 < num_outputs);
                    }
                }
                assert forall|eid: EdgeID, k1: int|
                    #![trigger self.has_edge_id(eid), order@[k1]]
                    self.has_edge_id(eid) && (k as int) + 1 <= k1 < order@.len() && order@[k1]
                        == self.edge_of(eid).src_node && eid.0.slot < table@.len() implies
                    table@[eid.0.slot as int] is None by {
                    assert(order@[k1] != order@[k as int]);
                }
            }
            k += 1;
        }
        proof {
            assert(order@.take(order@.len() as int) =~= order@);
        }
        let num = alloc.num_buffers();
        (sched, num)
    }
}

/// Every stored edge contributes to its own port's out-degree.
proof fn lemma_port_out_degree_at_least_one<N>(
    g: &AudioGraph<N>,
    edges: Seq<ArenaSlot<Edge>>,
    eid: EdgeID,
    node: NodeID,
    port: u32,
)
    requires
        g.wf(),
        edges == g.edges.slots@,
        g.has_edge_id(eid),
        g.edge_of(eid).src_node == node,
        g.edge_of(eid).src_port.0 == port,
    ensures
        port_out_degree(edges, eid.0.slot as int + 1, node, port) >= 1,
{
    assert(eid.0.slot < edges.len());
    assert(edges[eid.0.slot as int].value is Some);
    assert(edges[eid.0.slot as int].value->Some_0 == g.edge_of(eid));
    assert(port_out_degree(edges, eid.0.slot as int + 1, node, port) == port_out_degree(
        edges,
        eid.0.slot as int,
        node,
        port,
    ) + 1);
}

/// A table whose entries all name other buffers holds no reference to
/// this one.
proof fn lemma_table_refs_none_of(table: Seq<Option<BufferRef>>, idx: int)
    requires
        forall|t: int| 0 <= t < table.len() ==> ((#[trigger] table[t]) is Some ==>
            table[t]->Some_0.idx != idx),
    ensures
        table_refs(table, idx) == 0,
    decreases table.len(),
{
    if table.len() > 0 {
        lemma_table_refs_none_of(table.drop_last(), idx);
    }
}

/// A stored table entry contributes to its buffer's reference count.
proof fn lemma_table_refs_at_least_one(table: Seq<Option<BufferRef>>, t: int)
    requires
        0 <= t < table.len(),
        table[t] is Some,
    ensures
        table_refs(table, table[t]->Some_0.idx as int) >= 1,
    decreases table.len(),
{
    if t < table.len() - 1 {
        lemma_table_refs_at_least_one(table.drop_last(), t);
    }
}

/// A list whose entries all name other buffers holds no reference to
/// this one.
proof fn lemma_list_refs_none_of(list: Seq<BufferRef>, from: int, idx: int)
    requires
        forall|j: int| 0 <= j < list.len() ==> (#[trigger] list[j]).idx != idx,
    ensures
        list_refs(list, from, idx) == 0,
    decreases list.len() - from,
{
    if 0 <= from < list.len() {
        lemma_list_refs_none_of(list, from + 1, idx);
    }
}

} // verus!
