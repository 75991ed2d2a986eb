use std::collections::HashSet;

use firewheel::{
    AddEdgeError, AudioGraph, AudioGraphConfig, CompiledSchedule, DummyAudioNode,
    DummyAudioNodeProcessor, EdgeID, InPortIdx, NodeID, NodeWeight, OutPortIdx, ScheduleHeapData,
};

type TestGraph = AudioGraph<DummyAudioNode>;

fn new_graph(num_graph_inputs: u32, num_graph_outputs: u32) -> TestGraph {
    AudioGraph::new(
        &AudioGraphConfig {
            num_graph_inputs,
            num_graph_outputs,
            initial_node_capacity: 64,
            initial_edge_capacity: 256,
        },
        DummyAudioNode,
        DummyAudioNode,
    )
}

fn compile(graph: &mut TestGraph) -> CompiledSchedule<i64> {
    let data: ScheduleHeapData<DummyAudioNodeProcessor, i64> =
        graph.compile(44100, 256, 0i64).unwrap();
    data.schedule
}

fn verify_node(
    node_id: NodeID,
    in_ports_that_should_clear: &[bool],
    schedule: &CompiledSchedule<i64>,
    graph: &TestGraph,
) {
    let node = graph.node_info(node_id).unwrap();
    let scheduled_node = schedule
        .schedule
        .iter()
        .find(|s| s.id == node_id)
        .unwrap();

    assert_eq!(scheduled_node.id, node_id);
    assert_eq!(scheduled_node.input_buffers.len(), node.num_inputs as usize);
    assert_eq!(
        scheduled_node.output_buffers.len(),
        node.num_outputs as usize
    );

    assert_eq!(in_ports_that_should_clear.len(), node.num_inputs as usize);

    for (buffer, should_clear) in scheduled_node
        .input_buffers
        .iter()
        .zip(in_ports_that_should_clear)
    {
        assert_eq!(buffer.should_clear, *should_clear);
    }

    let mut buffer_alias_check: HashSet<usize> = HashSet::new();
    for buffer in scheduled_node.input_buffers.iter() {
        assert!(buffer_alias_check.insert(buffer.buffer_index));
    }
    for buffer in scheduled_node.output_buffers.iter() {
        assert!(buffer_alias_check.insert(buffer.buffer_index));
    }
}

fn verify_edge(edge_id: EdgeID, graph: &TestGraph, schedule: &CompiledSchedule<i64>) {
    let edge = *graph.edge(edge_id).unwrap();

    let mut src_buffer_idx = None;
    let mut dst_buffer_idx = None;
    for node in schedule.schedule.iter() {
        if node.id == edge.src_node {
            src_buffer_idx = Some(node.output_buffers[edge.src_port.0 as usize].buffer_index);
            if dst_buffer_idx.is_some() {
                break;
            }
        } else if node.id == edge.dst_node {
            dst_buffer_idx = Some(node.input_buffers[edge.dst_port.0 as usize].buffer_index);
            if src_buffer_idx.is_some() {
                break;
            }
        }
    }

    let src_buffer_idx = src_buffer_idx.unwrap();
    let dst_buffer_idx = dst_buffer_idx.unwrap();

    assert_eq!(src_buffer_idx, dst_buffer_idx);
}

#[test]
fn simplest_graph_compile_test() {
    let mut graph = new_graph(1, 1);

    let node0 = graph.graph_in_node();
    let node1 = graph.graph_out_node();

    let edge0 = graph
        .connect(node0, OutPortIdx(0), node1, InPortIdx(0), false)
        .unwrap();

    let schedule = compile(&mut graph);

    assert_eq!(schedule.schedule.len(), 2);
    assert!(schedule.buffers.len() > 0);

    // First node must be node 0
    assert_eq!(schedule.schedule[0].id, node0);
    // Last node must be node 1
    assert_eq!(schedule.schedule[1].id, node1);

    verify_node(node0, &[], &schedule, &graph);
    verify_node(node1, &[false], &schedule, &graph);

    verify_edge(edge0, &graph, &schedule);
}

#[test]
fn graph_compile_test_1() {
    let mut graph = new_graph(2, 2);

    let node0 = graph.graph_in_node();
    let node1 = graph.add_node(1, 2, DummyAudioNode).unwrap();
    let node2 = graph.add_node(1, 1, DummyAudioNode).unwrap();
    let node3 = graph.add_node(2, 2, DummyAudioNode).unwrap();
    let node4 = graph.add_node(2, 2, DummyAudioNode).unwrap();
    let node5 = graph.add_node(5, 2, DummyAudioNode).unwrap();
    let node6 = graph.graph_out_node();

    let edge0 = graph.connect(node0, OutPortIdx(0), node1, InPortIdx(0), false).unwrap();
    let edge1 = graph.connect(node0, OutPortIdx(1), node2, InPortIdx(0), false).unwrap();
    let edge2 = graph.connect(node1, OutPortIdx(0), node3, InPortIdx(0), false).unwrap();
    let edge3 = graph.connect(node1, OutPortIdx(1), node4, InPortIdx(1), false).unwrap();
    let edge4 = graph.connect(node3, OutPortIdx(0), node5, InPortIdx(0), false).unwrap();
    let edge5 = graph.connect(node3, OutPortIdx(1), node5, InPortIdx(1), false).unwrap();
    let edge6 = graph.connect(node4, OutPortIdx(0), node5, InPortIdx(2), false).unwrap();
    let edge7 = graph.connect(node4, OutPortIdx(1), node5, InPortIdx(3), false).unwrap();
    let edge8 = graph.connect(node2, OutPortIdx(0), node5, InPortIdx(4), false).unwrap();
    let edge9 = graph.connect(node5, OutPortIdx(0), node6, InPortIdx(0), false).unwrap();
    let edge10 = graph.connect(node5, OutPortIdx(1), node6, InPortIdx(1), false).unwrap();

    let schedule = compile(&mut graph);

    assert_eq!(schedule.schedule.len(), 7);
    // Node 5 needs at-least 7 buffers
    assert!(schedule.buffers.len() > 6);

    // First node must be node 0
    assert_eq!(schedule.schedule[0].id, node0);
    // Next two nodes must be 1 and 2
    assert!(schedule.schedule[1].id == node1 || schedule.schedule[1].id == node2);
    assert!(schedule.schedule[2].id == node1 || schedule.schedule[2].id == node2);
    // Next two nodes must be 3 and 4
    assert!(schedule.schedule[3].id == node3 || schedule.schedule[3].id == node4);
    assert!(schedule.schedule[4].id == node3 || schedule.schedule[4].id == node4);
    // Next node must be 5
    assert_eq!(schedule.schedule[5].id, node5);
    // Last node must be 6
    assert_eq!(schedule.schedule[6].id, node6);

    verify_node(node0, &[], &schedule, &graph);
    verify_node(node1, &[false], &schedule, &graph);
    verify_node(node2, &[false], &schedule, &graph);
    verify_node(node3, &[false, true], &schedule, &graph);
    verify_node(node4, &[true, false], &schedule, &graph);
    verify_node(
        node5,
        &[false, false, false, false, false],
        &schedule,
        &graph,
    );
    verify_node(node6, &[false, false], &schedule, &graph);

    verify_edge(edge0, &graph, &schedule);
    verify_edge(edge1, &graph, &schedule);
    verify_edge(edge2, &graph, &schedule);
    verify_edge(edge3, &graph, &schedule);
    verify_edge(edge4, &graph, &schedule);
    verify_edge(edge5, &graph, &schedule);
    verify_edge(edge6, &graph, &schedule);
    verify_edge(edge7, &graph, &schedule);
    verify_edge(edge8, &graph, &schedule);
    verify_edge(edge9, &graph, &schedule);
    verify_edge(edge10, &graph, &schedule);
}

#[test]
fn graph_compile_test_2() {
    let mut graph = new_graph(2, 2);

    let node0 = graph.graph_in_node();
    let node1 = graph.add_node(1, 1, DummyAudioNode).unwrap();
    let node2 = graph.add_node(2, 2, DummyAudioNode).unwrap();
    let node3 = graph.add_node(2, 2, DummyAudioNode).unwrap();
    let node4 = graph.add_node(5, 4, DummyAudioNode).unwrap();
    let node5 = graph.graph_out_node();
    let node6 = graph.add_node(1, 1, DummyAudioNode).unwrap();

    let edge0 = graph.connect(node0, OutPortIdx(0), node2, InPortIdx(0), false).unwrap();
    let edge1 = graph.connect(node0, OutPortIdx(0), node3, InPortIdx(1), false).unwrap();
    let edge2 = graph.connect(node2, OutPortIdx(0), node4, InPortIdx(0), false).unwrap();
    let edge3 = graph.connect(node3, OutPortIdx(1), node4, InPortIdx(3), false).unwrap();
    let edge4 = graph.connect(node1, OutPortIdx(0), node4, InPortIdx(4), false).unwrap();
    let edge5 = graph.connect(node4, OutPortIdx(0), node5, InPortIdx(0), false).unwrap();
    let edge6 = graph.connect(node4, OutPortIdx(2), node6, InPortIdx(0), false).unwrap();

    let schedule = compile(&mut graph);

    assert_eq!(schedule.schedule.len(), 7);
    // Node 4 needs at-least 8 buffers
    assert!(schedule.buffers.len() > 7);

    // First two nodes must be 0 and 1
    assert!(schedule.schedule[0].id == node0 || schedule.schedule[0].id == node1);
    assert!(schedule.schedule[1].id == node0 || schedule.schedule[1].id == node1);
    // Next two nodes must be 2 and 3
    assert!(schedule.schedule[2].id == node2 || schedule.schedule[2].id == node3);
    assert!(schedule.schedule[3].id == node2 || schedule.schedule[3].id == node3);
    // Next node must be 4
    assert_eq!(schedule.schedule[4].id, node4);
    // Last two nodes must be 5 and 6
    assert!(schedule.schedule[5].id == node5 || schedule.schedule[5].id == node6);
    assert!(schedule.schedule[6].id == node5 || schedule.schedule[6].id == node6);

    verify_edge(edge0, &graph, &schedule);
    verify_edge(edge1, &graph, &schedule);
    verify_edge(edge2, &graph, &schedule);
    verify_edge(edge3, &graph, &schedule);
    verify_edge(edge4, &graph, &schedule);
    verify_edge(edge5, &graph, &schedule);
    verify_edge(edge6, &graph, &schedule);

    verify_node(node0, &[], &schedule, &graph);
    verify_node(node1, &[true], &schedule, &graph);
    verify_node(node2, &[false, true], &schedule, &graph);
    verify_node(node3, &[true, false], &schedule, &graph);
    verify_node(node4, &[false, true, true, false, false], &schedule, &graph);
    verify_node(node5, &[false, true], &schedule, &graph);
    verify_node(node6, &[false], &schedule, &graph);
}

#[test]
fn many_to_one_detection() {
    let mut graph = new_graph(2, 1);

    let node1 = graph.graph_in_node();
    let node2 = graph.graph_out_node();

    graph.connect(node1, OutPortIdx(0), node2, InPortIdx(0), false).unwrap();

    if let Err(AddEdgeError::InputPortAlreadyConnected(node_id, port_id)) =
        graph.connect(node1, OutPortIdx(1), node2, InPortIdx(0), false)
    {
        assert_eq!(node_id, node2);
        assert_eq!(port_id, InPortIdx(0));
    } else {
        panic!("expected error");
    }
}

#[test]
fn cycle_detection() {
    let mut graph = new_graph(0, 2);

    let node1 = graph.add_node(1, 1, DummyAudioNode).unwrap();
    let node2 = graph.add_node(2, 1, DummyAudioNode).unwrap();
    let node3 = graph.add_node(1, 1, DummyAudioNode).unwrap();

    graph.connect(node1, OutPortIdx(0), node2, InPortIdx(0), false).unwrap();
    graph.connect(node2, OutPortIdx(0), node3, InPortIdx(0), false).unwrap();
    let edge3 = graph.connect(node3, OutPortIdx(0), node1, InPortIdx(0), false).unwrap();

    assert!(graph.cycle_detected());

    graph.disconnect_by_edge_id(edge3);

    assert!(!graph.cycle_detected());

    graph.connect(node3, OutPortIdx(0), node2, InPortIdx(1), false).unwrap();

    assert!(graph.cycle_detected());
}

#[test]
fn add_then_remove_restores_counts() {
    let mut graph = new_graph(1, 1);
    let before_nodes = graph.num_nodes();
    let before_edges = graph.num_edges();

    let id = graph.add_node(2, 2, DummyAudioNode).unwrap();
    assert_eq!(graph.num_nodes(), before_nodes + 1);

    let gin = graph.graph_in_node();
    let edge = graph.connect(gin, OutPortIdx(0), id, InPortIdx(0), false).unwrap();
    assert_eq!(graph.num_edges(), before_edges + 1);

    let removed = graph.remove_node(id).unwrap();
    assert_eq!(removed.len(), 1);
    assert_eq!(removed[0], edge);
    assert_eq!(graph.num_nodes(), before_nodes);
    assert_eq!(graph.num_edges(), before_edges);
    assert!(graph.node_info(id).is_none());
    assert!(graph.edge(edge).is_none());
}

#[test]
fn connect_then_disconnect_restores_edges() {
    let mut graph = new_graph(1, 1);
    let gin = graph.graph_in_node();
    let gout = graph.graph_out_node();
    let before = graph.num_edges();

    let edge = graph.connect(gin, OutPortIdx(0), gout, InPortIdx(0), false).unwrap();
    assert_eq!(graph.num_edges(), before + 1);

    assert!(graph.disconnect_by_edge_id(edge));
    assert_eq!(graph.num_edges(), before);
    assert!(graph.edge(edge).is_none());

    // A second disconnect of the same id reports that nothing existed.
    assert!(!graph.disconnect_by_edge_id(edge));
}

#[test]
fn disconnect_by_ports() {
    let mut graph = new_graph(1, 1);
    let gin = graph.graph_in_node();
    let gout = graph.graph_out_node();

    graph.connect(gin, OutPortIdx(0), gout, InPortIdx(0), false).unwrap();
    assert!(graph.disconnect(gin, OutPortIdx(0), gout, InPortIdx(0)));
    assert!(!graph.disconnect(gin, OutPortIdx(0), gout, InPortIdx(0)));
    assert_eq!(graph.num_edges(), 0);
}

#[test]
fn reset_leaves_exactly_the_sentinels() {
    let mut graph = new_graph(1, 2);
    let a = graph.add_node(1, 1, DummyAudioNode).unwrap();
    let b = graph.add_node(2, 2, DummyAudioNode).unwrap();
    let gin = graph.graph_in_node();
    graph.connect(gin, OutPortIdx(0), a, InPortIdx(0), false).unwrap();
    graph.connect(a, OutPortIdx(0), b, InPortIdx(0), false).unwrap();

    graph.reset();

    assert_eq!(graph.num_nodes(), 2);
    assert!(graph.node_info(gin).is_some());
    assert!(graph.node_info(graph.graph_out_node()).is_some());
    assert!(graph.node_info(a).is_none());
    assert!(graph.node_info(b).is_none());
    assert_eq!(graph.num_edges(), 0);
}

#[test]
fn port_count_64_accepted_65_rejected() {
    let mut graph = new_graph(0, 2);
    assert!(graph.add_node(64, 64, DummyAudioNode).is_ok());
    assert!(graph.add_node(65, 1, DummyAudioNode).is_err());
    assert!(graph.add_node(1, 65, DummyAudioNode).is_err());

    let ok = graph.add_node(1, 1, DummyAudioNode).unwrap();
    assert!(graph.set_num_inputs(ok, 64).is_ok());
    assert!(graph.set_num_inputs(ok, 65).is_err());
    assert!(graph.set_num_outputs(ok, 64).is_ok());
    assert!(graph.set_num_outputs(ok, 65).is_err());
}

#[test]
fn shrinking_ports_removes_truncated_edges() {
    let mut graph = new_graph(0, 2);
    let a = graph.add_node(0, 2, DummyAudioNode).unwrap();
    let gout = graph.graph_out_node();
    let e0 = graph.connect(a, OutPortIdx(0), gout, InPortIdx(0), false).unwrap();
    let e1 = graph.connect(a, OutPortIdx(1), gout, InPortIdx(1), false).unwrap();

    let removed = graph.set_num_outputs(a, 1).unwrap();
    assert_eq!(removed.len(), 1);
    assert_eq!(removed[0], e1);
    assert!(graph.edge(e0).is_some());
    assert!(graph.edge(e1).is_none());

    let removed_in = graph.set_num_inputs(gout, 0);
    // the graph output sentinel's inputs may shrink
    assert!(removed_in.is_ok());
    assert_eq!(removed_in.unwrap().len(), 1);
    assert_eq!(graph.num_edges(), 0);
}

#[test]
fn connect_error_taxonomy() {
    let mut graph = new_graph(1, 1);
    let gin = graph.graph_in_node();
    let gout = graph.graph_out_node();
    let a = graph.add_node(1, 1, DummyAudioNode).unwrap();

    // unknown nodes
    let ghost_id = a;
    graph.remove_node(a).unwrap();
    assert!(matches!(
        graph.connect(ghost_id, OutPortIdx(0), gout, InPortIdx(0), false),
        Err(AddEdgeError::SrcNodeNotFound(_))
    ));
    assert!(matches!(
        graph.connect(gin, OutPortIdx(0), ghost_id, InPortIdx(0), false),
        Err(AddEdgeError::DstNodeNotFound(_))
    ));

    // ports out of range
    assert!(matches!(
        graph.connect(gin, OutPortIdx(1), gout, InPortIdx(0), false),
        Err(AddEdgeError::OutPortOutOfRange { .. })
    ));
    assert!(matches!(
        graph.connect(gin, OutPortIdx(0), gout, InPortIdx(1), false),
        Err(AddEdgeError::InPortOutOfRange { .. })
    ));

    // self loop
    let b = graph.add_node(1, 1, DummyAudioNode).unwrap();
    assert!(matches!(
        graph.connect(b, OutPortIdx(0), b, InPortIdx(0), true),
        Err(AddEdgeError::CycleDetected)
    ));

    // duplicate edge
    graph.connect(gin, OutPortIdx(0), gout, InPortIdx(0), false).unwrap();
    assert!(matches!(
        graph.connect(gin, OutPortIdx(0), gout, InPortIdx(0), false),
        Err(AddEdgeError::EdgeAlreadyExists)
    ));
}

#[test]
fn cycle_rejection_rolls_back() {
    let mut graph = new_graph(0, 2);
    let a = graph.add_node(1, 1, DummyAudioNode).unwrap();
    let b = graph.add_node(1, 1, DummyAudioNode).unwrap();
    let c = graph.add_node(1, 1, DummyAudioNode).unwrap();

    graph.connect(a, OutPortIdx(0), b, InPortIdx(0), true).unwrap();
    graph.connect(b, OutPortIdx(0), c, InPortIdx(0), true).unwrap();
    let edges_before = graph.num_edges();

    assert!(matches!(
        graph.connect(c, OutPortIdx(0), a, InPortIdx(0), true),
        Err(AddEdgeError::CycleDetected)
    ));
    // the graph is unchanged: same number of edges, no cycle
    assert_eq!(graph.num_edges(), edges_before);
    assert!(!graph.cycle_detected());

    // a subsequent compile succeeds with the original chain
    let schedule = compile(&mut graph);
    assert_eq!(schedule.schedule.len(), 5);
}

#[test]
fn cycle_detected_after_unchecked_connect() {
    let mut graph = new_graph(0, 2);
    let a = graph.add_node(1, 1, DummyAudioNode).unwrap();
    let b = graph.add_node(1, 1, DummyAudioNode).unwrap();

    graph.connect(a, OutPortIdx(0), b, InPortIdx(0), false).unwrap();
    assert!(!graph.cycle_detected());
    graph.connect(b, OutPortIdx(0), a, InPortIdx(0), false).unwrap();
    assert!(graph.cycle_detected());

    // a compile refuses the cyclic graph
    let result: Result<ScheduleHeapData<DummyAudioNodeProcessor, i64>, _> =
        graph.compile(44100, 256, 0i64);
    assert!(matches!(result, Err(firewheel::CompileGraphError::CycleDetected)));
}

#[test]
fn dead_output_node_compiles_and_keeps_buffer_count() {
    let mut graph = new_graph(1, 1);
    let gin = graph.graph_in_node();
    let gout = graph.graph_out_node();
    graph.connect(gin, OutPortIdx(0), gout, InPortIdx(0), false).unwrap();

    // a node whose output is never connected
    let dead = graph.add_node(0, 1, DummyAudioNode).unwrap();

    let schedule = compile(&mut graph);
    // the dead node is still scheduled
    assert!(schedule.schedule.iter().any(|s| s.id == dead));
    let count = schedule.buffers.len();

    // recompiling does not grow the pool
    let schedule2 = compile(&mut graph);
    assert_eq!(schedule2.buffers.len(), count);
}

#[test]
fn node_entry_reports_its_ports() {
    let mut graph = new_graph(0, 2);
    let id = graph.add_node(3, 4, DummyAudioNode).unwrap();
    let entry: &firewheel::NodeEntry<NodeWeight<DummyAudioNode>> =
        graph.node_info(id).unwrap();
    assert_eq!(entry.id, id);
    assert_eq!(entry.num_inputs, 3);
    assert_eq!(entry.num_outputs, 4);
    assert!(!entry.weight.activated);
}
