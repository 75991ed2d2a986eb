use firewheel::{
    Arena, AudioNodeProcessor, BlockFrames, BufferAllocator, InterleavedResourceI16,
    InterleavedResourceU16, MonoToStereoProcessor, ProcInfo, SilenceMask, Slab, SmootherStatus,
    StreamStatus,
};

#[test]
fn silence_mask_bits() {
    let mut mask = SilenceMask::none_silent();
    assert!(!mask.any_channel_silent(64));
    mask.set_channel(0, true);
    assert!(mask.is_channel_silent(0));
    assert!(!mask.is_channel_silent(1));
    assert!(mask.any_channel_silent(1));
    assert!(mask.all_channels_silent(1));
    assert!(!mask.all_channels_silent(2));
    mask.set_channel(0, false);
    assert!(!mask.is_channel_silent(0));

    let all = SilenceMask::new_all_silent(3);
    assert_eq!(all.0, 0b111);
    assert!(all.all_channels_silent(3));
    assert!(!all.is_channel_silent(3));

    let full = SilenceMask::new_all_silent(64);
    assert_eq!(full.0, u64::MAX);
    assert!(full.all_channels_silent(64));
}

#[test]
fn block_frames_clamps() {
    let b = BlockFrames::new(100, 256);
    assert_eq!(b.get(), 100);
    let c = BlockFrames::new(300, 256);
    assert_eq!(c.get(), 255);
}

#[test]
fn buffer_allocator_reuses_buffers() {
    let mut alloc = BufferAllocator::new();
    let a = alloc.acquire();
    let b = alloc.acquire();
    assert_ne!(a.idx, b.idx);
    alloc.release(a);
    // the freed index comes back with a bumped generation
    let c = alloc.acquire();
    assert_eq!(c.idx, a.idx);
    assert_eq!(c.generation, a.generation + 1);
    alloc.release(b);
    alloc.release(c);
    assert_eq!(alloc.num_buffers(), 2);
}

#[test]
fn buffer_allocator_refcounts() {
    let mut alloc = BufferAllocator::new();
    let a = alloc.acquire();
    alloc.retain(a, 2);
    alloc.release(a);
    // one reference remains, so the buffer is not recycled
    let b = alloc.acquire();
    assert_ne!(b.idx, a.idx);
    alloc.release(a);
    // now it is free again
    alloc.release(b);
    let c = alloc.acquire();
    assert!(c.idx == a.idx || c.idx == b.idx);
    assert_eq!(alloc.num_buffers(), 2);
}

#[test]
fn arena_generations_stay_stale() {
    let mut arena: Arena<u32> = Arena::new();
    let a = arena.insert(10);
    let b = arena.insert(20);
    assert_eq!(arena.num_entries(), 2);
    assert_eq!(arena.get(a), Some(&10));
    assert_eq!(arena.remove(a), Some(10));
    assert_eq!(arena.get(a), None);
    // the slot is reused under a new generation; the old id stays dead
    let c = arena.insert(30);
    assert_eq!(c.slot, a.slot);
    assert_ne!(c.generation, a.generation);
    assert_eq!(arena.get(a), None);
    assert_eq!(arena.get(c), Some(&30));
    assert_eq!(arena.get(b), Some(&20));
    assert_eq!(arena.num_entries(), 2);
}

#[test]
fn slab_stores_at_given_index() {
    let mut arena: Arena<u32> = Arena::new();
    let a = arena.insert(1);
    let b = arena.insert(2);
    let mut slab: Slab<&'static str> = Slab::new();
    assert!(slab.insert_at(a, "first").is_none());
    assert!(slab.insert_at(b, "second").is_none());
    assert_eq!(slab.get_mut(a), Some(&mut "first"));
    assert_eq!(slab.remove(a), Some("first"));
    assert!(slab.get_mut(a).is_none());
    assert_eq!(slab.remove(b), Some("second"));
}

#[test]
fn stream_status_flags() {
    assert_eq!(StreamStatus::empty().0, 0);
    assert_eq!(StreamStatus::input_overflow().0, 1);
    assert_eq!(StreamStatus::output_underflow().0, 2);
}

#[test]
fn smoother_status_activity() {
    assert!(!SmootherStatus::Inactive.is_active());
    assert!(SmootherStatus::Active.is_active());
    assert!(SmootherStatus::Deactivating.is_active());
}

#[test]
fn interleaved_resources_count_frames() {
    let r16 = InterleavedResourceI16 { data: vec![0i16; 10], channels: 2 };
    assert_eq!(r16.len_frames_inner(), 5);
    let ru16 = InterleavedResourceU16 { data: vec![0u16; 9], channels: 2 };
    assert_eq!(ru16.len_frames_inner(), 4);
}

#[test]
fn mono_to_stereo_duplicates_the_input() {
    let mut proc = MonoToStereoProcessor;
    let inputs: Vec<Vec<i64>> = vec![vec![1, 2, 3, 4]];
    let mut outputs: Vec<Vec<i64>> = vec![vec![0; 4], vec![0; 4]];
    let info = ProcInfo {
        in_silence_mask: SilenceMask(0),
        stream_time_nanos: 0,
        stream_status: StreamStatus::empty(),
    };
    let mask = proc.process(4, &inputs, 1, &mut outputs, 2, info);
    assert_eq!(outputs[0], vec![1, 2, 3, 4]);
    assert_eq!(outputs[1], vec![1, 2, 3, 4]);
    assert_eq!(mask.0, 0);

    // a silent input is reported as silent on both outputs
    let info2 = ProcInfo {
        in_silence_mask: SilenceMask(1),
        stream_time_nanos: 0,
        stream_status: StreamStatus::empty(),
    };
    let mask2 = proc.process(4, &inputs, 1, &mut outputs, 2, info2);
    assert!(mask2.is_channel_silent(0));
    assert!(mask2.is_channel_silent(1));
}
