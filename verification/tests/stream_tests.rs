use std::sync::atomic::{AtomicUsize, Ordering};
use std::sync::Arc;

use firewheel::{
    AudioNode, AudioNodeInfo, AudioNodeProcessor, Config, FirewheelGraphCtx,
    FirewheelProcessorStatus, InPortIdx, OutPortIdx, ProcInfo, Sample, SilenceMask, StreamStatus,
    UpdateStatus,
};

#[derive(Clone, Copy, Debug, PartialEq)]
struct Smp(f32);

impl Sample for Smp {
    fn is_zero(&self) -> bool {
        self.0 == 0.0
    }
}

struct DropCounter(Arc<AtomicUsize>);

impl Drop for DropCounter {
    fn drop(&mut self) {
        self.0.fetch_add(1, Ordering::SeqCst);
    }
}

#[derive(Debug)]
enum TestNode {
    Dummy,
    Constant(f32),
    Gain(f32),
    Sum,
    Phasor(f32),
    CountsDrops(Arc<AtomicUsize>),
}

enum TestProc {
    Dummy,
    Constant(f32),
    Gain(f32),
    Sum,
    Phasor { phase: f32, inc: f32 },
    CountsDrops(DropCounter),
}

impl AudioNode<TestProc> for TestNode {
    fn info(&self) -> AudioNodeInfo {
        AudioNodeInfo {
            num_min_supported_inputs: 0,
            num_max_supported_inputs: 64,
            num_min_supported_outputs: 0,
            num_max_supported_outputs: 64,
            updates: false,
        }
    }

    fn activate(
        &mut self,
        _sample_rate: u32,
        _max_block_frames: usize,
        _num_inputs: usize,
        _num_outputs: usize,
    ) -> Result<TestProc, String> {
        Ok(match self {
            TestNode::Dummy => TestProc::Dummy,
            TestNode::Constant(v) => TestProc::Constant(*v),
            TestNode::Gain(g) => TestProc::Gain(*g),
            TestNode::Sum => TestProc::Sum,
            TestNode::Phasor(inc) => TestProc::Phasor { phase: 0.0, inc: *inc },
            TestNode::CountsDrops(counter) => {
                TestProc::CountsDrops(DropCounter(Arc::clone(counter)))
            },
        })
    }

    fn deactivate(&mut self, _processor: Option<TestProc>) {}
}

impl AudioNodeProcessor<Smp> for TestProc {
    fn process(
        &mut self,
        frames: usize,
        inputs: &Vec<Vec<Smp>>,
        num_inputs: usize,
        outputs: &mut Vec<Vec<Smp>>,
        num_outputs: usize,
        _info: ProcInfo,
    ) -> SilenceMask {
        match self {
            TestProc::Dummy => {}
            TestProc::Constant(v) => {
                for ch in 0..num_outputs {
                    for f in 0..frames {
                        outputs[ch][f] = Smp(*v);
                    }
                }
            }
            TestProc::Gain(g) => {
                for ch in 0..num_outputs.min(num_inputs) {
                    for f in 0..frames {
                        outputs[ch][f] = Smp(inputs[ch][f].0 * *g);
                    }
                }
            }
            TestProc::Sum => {
                for f in 0..frames {
                    let mut acc = 0.0f32;
                    for ch in 0..num_inputs {
                        acc += inputs[ch][f].0;
                    }
                    outputs[0][f] = Smp(acc);
                }
            }
            TestProc::Phasor { phase, inc } => {
                for f in 0..frames {
                    outputs[0][f] = Smp(*phase);
                    *phase = (*phase + *inc) % 1.0;
                }
            }
            TestProc::CountsDrops(_) => {}
        }
        SilenceMask(0)
    }
}

type Ctx = FirewheelGraphCtx<TestNode, TestProc, Smp>;

fn new_ctx(num_in: u32, num_out: u32, max_block_frames: usize, capacity: usize) -> Ctx {
    FirewheelGraphCtx::new(
        Config {
            num_graph_inputs: num_in,
            num_graph_outputs: num_out,
            max_block_frames,
            initial_node_capacity: 64,
            initial_edge_capacity: 256,
            message_channel_capacity: capacity,
        },
        Smp(0.0),
        TestNode::Dummy,
        TestNode::Dummy,
    )
}

fn expect_clean_update(ctx: &mut Ctx) {
    match ctx.update() {
        UpdateStatus::Active { graph_error: None } => {}
        UpdateStatus::Active { graph_error: Some(_) } => panic!("unexpected compile error"),
        _ => panic!("context should be active"),
    }
}

#[test]
fn zero_frames_zeroes_output() {
    let mut ctx = new_ctx(0, 2, 128, 16);
    let mut proc = ctx.activate(48000).unwrap();
    expect_clean_update(&mut ctx);

    let input: Vec<Smp> = Vec::new();
    let mut output = vec![Smp(5.0); 64];
    let status = proc.process_interleaved(
        &input,
        &mut output,
        0,
        2,
        0,
        0,
        StreamStatus::empty(),
    );
    assert!(matches!(status, FirewheelProcessorStatus::Running));
    assert!(output.iter().all(|s| s.0 == 0.0));
}

#[test]
fn direct_passthrough() {
    let mut ctx = new_ctx(2, 2, 256, 16);
    let gin = ctx.graph.graph_in_node();
    let gout = ctx.graph.graph_out_node();
    ctx.graph.connect(gin, OutPortIdx(0), gout, InPortIdx(0), true).unwrap();
    ctx.graph.connect(gin, OutPortIdx(1), gout, InPortIdx(1), true).unwrap();

    let mut proc = ctx.activate(48000).unwrap();
    expect_clean_update(&mut ctx);

    let frames = 1024;
    let mut input = Vec::with_capacity(frames * 2);
    for _ in 0..frames {
        input.push(Smp(0.5));
        input.push(Smp(-0.5));
    }
    let mut output = vec![Smp(9.0); frames * 2];
    let status = proc.process_interleaved(
        &input,
        &mut output,
        2,
        2,
        frames,
        0,
        StreamStatus::empty(),
    );
    assert!(matches!(status, FirewheelProcessorStatus::Running));
    for f in 0..frames {
        assert_eq!(output[2 * f].0, 0.5);
        assert_eq!(output[2 * f + 1].0, -0.5);
    }

    // an all-zero input comes out as exact silence
    let silent_input = vec![Smp(0.0); frames * 2];
    let mut output2 = vec![Smp(9.0); frames * 2];
    let status2 = proc.process_interleaved(
        &silent_input,
        &mut output2,
        2,
        2,
        frames,
        0,
        StreamStatus::empty(),
    );
    assert!(matches!(status2, FirewheelProcessorStatus::Running));
    assert!(output2.iter().all(|s| s.0 == 0.0));
}

#[test]
fn fan_out_gains_and_sum() {
    let mut ctx = new_ctx(0, 1, 256, 16);
    let gout = ctx.graph.graph_out_node();
    let src = ctx.graph.add_node(0, 1, TestNode::Constant(0.25)).unwrap();
    let g2 = ctx.graph.add_node(1, 1, TestNode::Gain(2.0)).unwrap();
    let g3 = ctx.graph.add_node(1, 1, TestNode::Gain(3.0)).unwrap();
    let g4 = ctx.graph.add_node(1, 1, TestNode::Gain(4.0)).unwrap();
    let sum = ctx.graph.add_node(3, 1, TestNode::Sum).unwrap();

    ctx.graph.connect(src, OutPortIdx(0), g2, InPortIdx(0), true).unwrap();
    ctx.graph.connect(src, OutPortIdx(0), g3, InPortIdx(0), true).unwrap();
    ctx.graph.connect(src, OutPortIdx(0), g4, InPortIdx(0), true).unwrap();
    ctx.graph.connect(g2, OutPortIdx(0), sum, InPortIdx(0), true).unwrap();
    ctx.graph.connect(g3, OutPortIdx(0), sum, InPortIdx(1), true).unwrap();
    ctx.graph.connect(g4, OutPortIdx(0), sum, InPortIdx(2), true).unwrap();
    ctx.graph.connect(sum, OutPortIdx(0), gout, InPortIdx(0), true).unwrap();

    let mut proc = ctx.activate(48000).unwrap();
    expect_clean_update(&mut ctx);

    let frames = 512;
    let input: Vec<Smp> = Vec::new();
    let mut output = vec![Smp(0.0); frames];
    let status = proc.process_interleaved(
        &input,
        &mut output,
        0,
        1,
        frames,
        0,
        StreamStatus::empty(),
    );
    assert!(matches!(status, FirewheelProcessorStatus::Running));
    for f in 0..frames {
        assert_eq!(output[f].0, 0.25 * (2.0 + 3.0 + 4.0));
    }
}

#[test]
fn multi_block_phasor_continuity() {
    let inc = 0.001f32;
    let mut ctx = new_ctx(0, 1, 128, 16);
    let gout = ctx.graph.graph_out_node();
    let phasor = ctx.graph.add_node(0, 1, TestNode::Phasor(inc)).unwrap();
    ctx.graph.connect(phasor, OutPortIdx(0), gout, InPortIdx(0), true).unwrap();

    let mut proc = ctx.activate(48000).unwrap();
    expect_clean_update(&mut ctx);

    let frames = 500;
    let input: Vec<Smp> = Vec::new();
    let mut output = vec![Smp(7.0); frames];
    let status = proc.process_interleaved(
        &input,
        &mut output,
        0,
        1,
        frames,
        0,
        StreamStatus::empty(),
    );
    assert!(matches!(status, FirewheelProcessorStatus::Running));

    // replay the phasor arithmetic to get the expected sequence
    let mut expected_phase = 0.0f32;
    for f in 0..frames {
        assert_eq!(output[f].0, expected_phase, "sample {}", f);
        expected_phase = (expected_phase + inc) % 1.0;
    }
}

#[test]
fn removed_node_processor_returns_to_control_side() {
    let drops = Arc::new(AtomicUsize::new(0));
    let mut ctx = new_ctx(1, 1, 128, 16);
    let gin = ctx.graph.graph_in_node();
    let gout = ctx.graph.graph_out_node();
    let gain = ctx.graph.add_node(1, 1, TestNode::CountsDrops(Arc::clone(&drops))).unwrap();
    ctx.graph.connect(gin, OutPortIdx(0), gain, InPortIdx(0), true).unwrap();
    ctx.graph.connect(gain, OutPortIdx(0), gout, InPortIdx(0), true).unwrap();

    let mut proc = ctx.activate(48000).unwrap();
    expect_clean_update(&mut ctx);

    let input = vec![Smp(0.25); 64];
    let mut output = vec![Smp(0.0); 64];
    let status = proc.process_interleaved(
        &input,
        &mut output,
        1,
        1,
        64,
        0,
        StreamStatus::empty(),
    );
    assert!(matches!(status, FirewheelProcessorStatus::Running));
    assert_eq!(drops.load(Ordering::SeqCst), 0);

    // remove the node mid-stream and ship the new schedule
    ctx.graph.remove_node(gain).unwrap();
    expect_clean_update(&mut ctx);

    // the executor swaps schedules and hands the processor back
    let status2 = proc.process_interleaved(
        &input,
        &mut output,
        1,
        1,
        64,
        0,
        StreamStatus::empty(),
    );
    assert!(matches!(status2, FirewheelProcessorStatus::Running));
    assert_eq!(drops.load(Ordering::SeqCst), 0);

    // the control side reclaims it, finalises the node, and only then is
    // the processor dropped, exactly once, on this thread
    expect_clean_update(&mut ctx);
    assert_eq!(drops.load(Ordering::SeqCst), 1);

    expect_clean_update(&mut ctx);
    assert_eq!(drops.load(Ordering::SeqCst), 1);
}

#[test]
fn channel_full_is_reported_gracefully() {
    let mut ctx = new_ctx(0, 1, 64, 2);
    let gout = ctx.graph.graph_out_node();
    let mut proc = ctx.activate(48000).unwrap();

    // each update with a pending change pushes one schedule
    let a = ctx.graph.add_node(0, 1, TestNode::Constant(0.1)).unwrap();
    expect_clean_update(&mut ctx);
    let _b = ctx.graph.add_node(0, 1, TestNode::Constant(0.2)).unwrap();
    expect_clean_update(&mut ctx);

    // the channel (capacity 2) is now full: the next push fails
    // gracefully and the schedule is reclaimed
    ctx.graph.connect(a, OutPortIdx(0), gout, InPortIdx(0), true).unwrap();
    match ctx.update() {
        UpdateStatus::Active { graph_error: Some(e) } => {
            assert!(matches!(e, firewheel::CompileGraphError::MessageChannelFull));
        }
        _ => panic!("expected a full channel to be reported"),
    }

    // after the executor drains the queue, scheduling works again
    let input: Vec<Smp> = Vec::new();
    let mut output = vec![Smp(0.0); 64];
    proc.process_interleaved(&input, &mut output, 0, 1, 64, 0, StreamStatus::empty());
    expect_clean_update(&mut ctx);

    // deactivate cleanly: request a stop, let the executor acknowledge
    assert!(ctx.start_deactivate());
    let status = proc.process_interleaved(&input, &mut output, 0, 1, 64, 0, StreamStatus::empty());
    assert!(matches!(status, FirewheelProcessorStatus::DropProcessor));
    proc.finish();
    assert!(ctx.poll_deactivate());
    assert!(!ctx.is_activated());
}
