use duomic::capture::{try_recv_peaks, CaptureEngine};
use duomic::meter::{LevelTracker, MAX_CHANNELS, METER_INTERVAL_FRAMES};
use duomic::ring::{RingBufferTransport, RING_BUFFER_FRAMES};

#[test]
fn test_shared_buffer_creation() {
    let buffer = RingBufferTransport::open(2, 48000);
    assert_eq!(buffer.channel_count(), 2);
    assert_eq!(buffer.sample_rate(), 48000);
    assert_eq!(buffer.capacity_frames(), RING_BUFFER_FRAMES);
    assert_eq!(buffer.write_pos(), 0);
}

#[test]
fn ring_write_advances_position_by_whole_frames() {
    let mut t = RingBufferTransport::open(2, 48000);
    t.write_samples(&vec![1, 2, 3, 4]);
    assert_eq!(t.write_pos(), 2);
    // A trailing partial frame is dropped.
    t.write_samples(&vec![5, 6, 7]);
    assert_eq!(t.write_pos(), 3);
    t.write_samples(&vec![]);
    assert_eq!(t.write_pos(), 3);
}

#[test]
fn ring_round_trip_reads_back_written_frames() {
    let mut t = RingBufferTransport::open(2, 44100);
    let samples: Vec<u32> = vec![10, 11, 20, 21, 30, 31];
    t.write_samples(&samples);
    for frame in 0..3usize {
        for ch in 0..2usize {
            let slot = frame % RING_BUFFER_FRAMES;
            assert_eq!(t.sample_at(slot * 2 + ch), samples[frame * 2 + ch]);
        }
    }
    // A second write lands right after the first.
    t.write_samples(&vec![40, 41]);
    assert_eq!(t.write_pos(), 4);
    assert_eq!(t.sample_at(3 * 2), 40);
    assert_eq!(t.sample_at(3 * 2 + 1), 41);
}

#[test]
fn ring_wraps_at_capacity_but_position_keeps_counting() {
    let mut t = RingBufferTransport::open(1, 48000);
    let big: Vec<u32> = vec![7; RING_BUFFER_FRAMES - 1];
    t.write_samples(&big);
    assert_eq!(t.write_pos(), (RING_BUFFER_FRAMES - 1) as u32);
    t.write_samples(&vec![100, 200, 300]);
    // The monotonic position passes the capacity without resetting.
    assert_eq!(t.write_pos(), (RING_BUFFER_FRAMES + 2) as u32);
    // Slot addressing wrapped to the start of the ring.
    assert_eq!(t.sample_at(RING_BUFFER_FRAMES - 1), 100);
    assert_eq!(t.sample_at(0), 200);
    assert_eq!(t.sample_at(1), 300);
    // Unsigned subtraction of positions counts the frames written.
    let before = (RING_BUFFER_FRAMES - 1) as u32;
    assert_eq!(t.write_pos().wrapping_sub(before), 3);
}

#[test]
fn tracker_emits_a_snapshot_every_interval() {
    let mut tr = LevelTracker::new();
    let quiet = 0.25f32.to_bits();
    let loud = 0.75f32.to_bits();
    let negative_louder = (-0.9f32).to_bits();
    let block: Vec<u32> = vec![quiet, loud, negative_louder];
    for _ in 0..METER_INTERVAL_FRAMES - 1 {
        assert!(tr.process_chunk(&block, 0, 3).is_none());
    }
    let snap = tr.process_chunk(&block, 0, 3).expect("interval frame emits");
    assert_eq!(snap.levels.len(), MAX_CHANNELS);
    assert_eq!(snap.levels[0], 0.25f32.to_bits());
    assert_eq!(snap.levels[1], 0.75f32.to_bits());
    // The sign bit is cleared: the peak is the magnitude.
    assert_eq!(snap.levels[2], 0.9f32.to_bits());
    assert_eq!(snap.levels[3], 0);
    // After the hand-off the accumulator is reset.
    assert!(tr.process_chunk(&block, 0, 3).is_none());
}

#[test]
fn capture_block_writes_ring_and_hands_off_peaks() {
    let t = RingBufferTransport::open(1, 48000);
    let (mut engine, rx) = CaptureEngine::new(t);
    let block: Vec<u32> = vec![0.5f32.to_bits(); METER_INTERVAL_FRAMES];
    let pos = engine.on_block(true, &block);
    assert_eq!(pos, METER_INTERVAL_FRAMES as u32);
    assert_eq!(engine.write_position(), METER_INTERVAL_FRAMES as u32);
    assert_eq!(engine.ring_sample(0), 0.5f32.to_bits());
    let snap = try_recv_peaks(&rx).expect("one interval passed");
    assert_eq!(snap.levels[0], 0.5f32.to_bits());
    assert!(try_recv_peaks(&rx).is_none());
}

#[test]
fn capture_block_is_skipped_when_not_running() {
    let t = RingBufferTransport::open(1, 48000);
    let (mut engine, rx) = CaptureEngine::new(t);
    let block: Vec<u32> = vec![0.5f32.to_bits(); METER_INTERVAL_FRAMES];
    let pos = engine.on_block(false, &block);
    assert_eq!(pos, 0);
    assert_eq!(engine.write_position(), 0);
    assert!(try_recv_peaks(&rx).is_none());
}

#[test]
fn full_peak_queue_never_blocks_the_callback() {
    let t = RingBufferTransport::open(1, 48000);
    let (mut engine, rx) = CaptureEngine::new(t);
    let block: Vec<u32> = vec![0.5f32.to_bits(); METER_INTERVAL_FRAMES];
    // Far more snapshots than the queue can hold: every send past the
    // queue's depth is dropped, and every call returns promptly.
    for _ in 0..40 {
        engine.on_block(true, &block);
    }
    let mut drained = 0usize;
    while try_recv_peaks(&rx).is_some() {
        drained += 1;
    }
    assert!(drained >= 1);
    assert!(drained <= 16);
    // The ring kept advancing even while the metering queue was full.
    assert_eq!(
        engine.write_position(),
        (40 * METER_INTERVAL_FRAMES) as u32
    );
}
