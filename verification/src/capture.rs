//! The real-time side of the capture engine: one call per hardware
//! callback. A block of interleaved samples (as 32-bit IEEE bit patterns)
//! is folded into the peak accumulator chunk by chunk, snapshots are handed
//! to the metering queue with a non-blocking send that drops on a full
//! queue, and the whole block is stored in the shared ring. Nothing here
//! blocks and nothing fails: a dropped snapshot or an overwritten frame is
//! the accepted degraded mode.

use vstd::prelude::*;
use crate::meter::{step_chunk, LevelTracker, PeakSnapshot};
use crate::ring::{advance, write_frames, RingBufferTransport};

verus! {

#[verifier::external_type_specification]
#[verifier::external_body]
#[verifier::reject_recursive_types(T)]
pub struct ExSender<T>(crossbeam_channel::Sender<T>);

#[verifier::external_type_specification]
#[verifier::external_body]
#[verifier::reject_recursive_types(T)]
pub struct ExReceiver<T>(crossbeam_channel::Receiver<T>);

/// Relies on `crossbeam_channel::bounded`: a fixed-capacity queue; its two
/// endpoints move between threads independently.
#[verifier::external_body]
fn peak_channel(cap: usize) -> (crossbeam_channel::Sender<PeakSnapshot>, crossbeam_channel::Receiver<
    PeakSnapshot,
>) {
    crossbeam_channel::bounded(cap)
}

/// Relies on `crossbeam_channel::Sender::try_send`: the message is delivered
/// now, or handed back without blocking when the queue is full or the
/// receiver is gone; the call returns either way.
#[verifier::external_body]
fn try_send_peaks(s: &crossbeam_channel::Sender<PeakSnapshot>, p: PeakSnapshot) -> (r: bool) {
    s.try_send(p).is_ok()
}

/// Relies on `crossbeam_channel::Receiver::try_recv`: the oldest queued
/// snapshot is taken now, or `None` comes back without blocking on an empty
/// queue.
#[verifier::external_body]
pub fn try_recv_peaks(r: &crossbeam_channel::Receiver<PeakSnapshot>) -> (s: Option<PeakSnapshot>) {
    match r.try_recv() {
        Ok(p) => Some(p),
        Err(_) => None,
    }
}

/// Tracker state after folding a whole interleaved block, `ch` samples per
/// chunk with a shorter trailing chunk, as the callback walks it.
pub open spec fn run_meter(peaks: Seq<u32>, counter: nat, samples: Seq<u32>, ch: nat) -> (
    Seq<u32>,
    nat,
)
    decreases samples.len(),
{
    if samples.len() == 0 || ch == 0 {
        (peaks, counter)
    } else {
        let k = if samples.len() < ch {
            samples.len()
        } else {
            ch
        };
        let (p, c, s) = step_chunk(peaks, counter, samples.take(k as int));
        run_meter(p, c, samples.skip(k as int), ch)
    }
}

/// Snapshot queue depth: a slow reader costs dropped snapshots, never a
/// blocked callback.
pub const PEAK_QUEUE_DEPTH: usize = 16;

/// Callback-owned capture state: the peak tracker, the shared-ring
/// transport (owned exclusively, no lock), and the metering hand-off
/// sender.
pub struct CaptureEngine {
    tracker: LevelTracker,
    transport: RingBufferTransport,
    sender: crossbeam_channel::Sender<PeakSnapshot>,
}

impl CaptureEngine {
    pub closed spec fn tracker(self) -> LevelTracker {
        self.tracker
    }

    pub closed spec fn transport(self) -> RingBufferTransport {
        self.transport
    }

    pub open spec fn wf(self) -> bool {
        self.tracker().wf() && self.transport().wf()
    }

    /// Take exclusive ownership of the transport and set up a fresh tracker
    /// and metering queue; the receiving endpoint goes to the non-real-time
    /// reader.
    pub fn new(transport: RingBufferTransport) -> (r: (
        CaptureEngine,
        crossbeam_channel::Receiver<PeakSnapshot>,
    ))
        requires
            transport.wf(),
        ensures
            r.0.wf(),
            r.0.transport() == transport,
            r.0.tracker().peaks() == crate::meter::zero_peaks(),
            r.0.tracker().counter() == 0,
    {
        let (sender, receiver) = peak_channel(PEAK_QUEUE_DEPTH);
        (CaptureEngine { tracker: LevelTracker::new(), transport, sender }, receiver)
    }

    pub fn channel_count(&self) -> (c: u32)
        ensures
            c == self.transport().channels(),
    {
        self.transport.channel_count()
    }

    pub fn write_position(&self) -> (p: u32)
        ensures
            p == self.transport().pos(),
    {
        self.transport.write_pos()
    }

    /// One ring word, for mirroring the written region outward.
    pub fn ring_sample(&self, i: usize) -> (s: u32)
        requires
            i < self.transport().ring().len(),
        ensures
            s == self.transport().ring()[i as int],
    {
        self.transport.sample_at(i)
    }

    /// Raise or clear the region's producer liveness flag.
    pub fn set_active(&mut self, active: bool)
        requires
            old(self).wf(),
        ensures
            final(self).wf(),
            final(self).tracker() == old(self).tracker(),
            final(self).transport().active_set(active, old(self).transport()),
    {
        self.transport.set_active(active);
    }

    /// One hardware callback: do nothing when the running flag is down;
    /// otherwise fold peaks chunk by chunk (handing snapshots to the queue,
    /// dropped when it is full), store the block in the ring, and report
    /// the position to publish. No path blocks or fails.
    pub fn on_block(&mut self, running: bool, samples: &Vec<u32>) -> (pos: u32)
        requires
            old(self).wf(),
        ensures
            final(self).wf(),
            final(self).transport().channels() == old(self).transport().channels(),
            final(self).transport().rate() == old(self).transport().rate(),
            final(self).transport().is_active() == old(self).transport().is_active(),
            !running ==> *final(self) == *old(self),
            running ==> ({
                let ch = old(self).transport().channels() as int;
                let frames = samples@.len() as int / ch;
                let (p, c) = run_meter(
                    old(self).tracker().peaks(),
                    old(self).tracker().counter(),
                    samples@,
                    ch as nat,
                );
                final(self).tracker().peaks() == p && final(self).tracker().counter() == c
                    && final(self).transport().pos() == advance(old(self).transport().pos(), frames)
                    && final(self).transport().ring() == write_frames(
                    old(self).transport().ring(),
                    ch,
                    old(self).transport().pos(),
                    samples@,
                    frames,
                )
            }),
            pos == final(self).transport().pos(),
    {
        if !running {
            return self.transport.write_pos();
        }
        let ch = self.transport.channel_count() as usize;
        let total = samples.len();
        let ghost peaks0: Seq<u32> = self.tracker.peaks();
        let ghost counter0: nat = self.tracker.counter();
        proof {
            assert(samples@.skip(0) =~= samples@);
        }
        let mut start: usize = 0;
        while start < total
            invariant
                start <= total,
                total == samples@.len(),
                1 <= ch <= 0xffff,
                self.tracker.wf(),
                ch == self.transport.channels(),
                self.transport == old(self).transport,
                self.sender == old(self).sender,
                run_meter(peaks0, counter0, samples@, ch as nat) == run_meter(
                    self.tracker.peaks(),
                    self.tracker.counter(),
                    samples@.skip(start as int),
                    ch as nat,
                ),
            decreases total - start,
        {
            let len = if total - start < ch {
                total - start
            } else {
                ch
            };
            let ghost rest: Seq<u32> = samples@.skip(start as int);
            proof {
                assert(rest.take(len as int) =~= samples@.subrange(
                    start as int,
                    start as int + len as int,
                ));
                assert(rest.skip(len as int) =~= samples@.skip(start as int + len as int));
            }
            let snap = self.tracker.process_chunk(samples, start, len);
            match snap {
                Some(p) => {
                    let _accepted = try_send_peaks(&self.sender, p);
                },
                None => {},
            }
            start = start + len;
        }
        proof {
            assert(samples@.skip(total as int) =~= Seq::<u32>::empty());
        }
        self.transport.write_samples(samples);
        self.transport.write_pos()
    }
}

} // verus!
