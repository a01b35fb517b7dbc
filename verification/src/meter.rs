//! Per-channel peak metering for the capture callback. Samples are carried
//! as IEEE 754 bit patterns; clearing the sign bit yields the magnitude's
//! bit pattern, and on non-negative patterns the unsigned order coincides
//! with amplitude order, so peaks are folded with plain word comparisons.
//! Every fixed number of frames the accumulated peaks are handed off as a
//! snapshot and the accumulator resets.

use vstd::prelude::*;

verus! {

/// Most channels a snapshot carries; matches the consumer side.
pub const MAX_CHANNELS: usize = 8;

/// Frames folded between two snapshot hand-offs.
pub const METER_INTERVAL_FRAMES: usize = 100;

/// The bit pattern of a sample's magnitude: the sign bit cleared.
pub open spec fn abs_bits(s: u32) -> u32 {
    s & 0x7fff_ffff
}

/// All-zero peak accumulator.
pub open spec fn zero_peaks() -> Seq<u32> {
    Seq::new(MAX_CHANNELS as nat, |i: int| 0u32)
}

/// Peaks after folding one interleaved frame: channel `i` keeps the larger
/// of its peak and the frame's magnitude; channels beyond the frame, and
/// frame entries beyond `MAX_CHANNELS`, are ignored.
pub open spec fn fold_chunk(peaks: Seq<u32>, chunk: Seq<u32>) -> Seq<u32> {
    Seq::new(
        peaks.len(),
        |i: int|
            if i < chunk.len() && abs_bits(chunk[i]) > peaks[i] {
                abs_bits(chunk[i])
            } else {
                peaks[i]
            },
    )
}

/// Tracker state and emitted snapshot after one frame: fold the frame, then
/// on every `METER_INTERVAL_FRAMES`-th frame emit the folded peaks and
/// reset.
pub open spec fn step_chunk(peaks: Seq<u32>, counter: nat, chunk: Seq<u32>) -> (
    Seq<u32>,
    nat,
    Option<Seq<u32>>,
) {
    let folded = fold_chunk(peaks, chunk);
    if counter + 1 >= METER_INTERVAL_FRAMES {
        (zero_peaks(), 0nat, Some(folded))
    } else {
        (folded, (counter + 1) as nat, Option::None)
    }
}

/// A metering hand-off: per-channel peak magnitudes as 32-bit IEEE bit
/// patterns, reset to zero after each hand-off.
pub struct PeakSnapshot {
    pub levels: Vec<u32>,
}

impl PeakSnapshot {
    pub open spec fn wf(self) -> bool {
        self.levels@.len() == MAX_CHANNELS
    }
}

/// Caller-held peak accumulator: folds interleaved frames and emits a
/// snapshot at a fixed cadence.
pub struct LevelTracker {
    peaks: Vec<u32>,
    frame_counter: usize,
}

impl LevelTracker {
    pub closed spec fn peaks(self) -> Seq<u32> {
        self.peaks@
    }

    pub closed spec fn counter(self) -> nat {
        self.frame_counter as nat
    }

    pub open spec fn wf(self) -> bool {
        self.peaks().len() == MAX_CHANNELS && self.counter() < METER_INTERVAL_FRAMES
    }

    pub fn new() -> (t: Self)
        ensures
            t.wf(),
            t.peaks() == zero_peaks(),
            t.counter() == 0,
    {
        let peaks = vec![0u32; MAX_CHANNELS];
        assert(peaks@ =~= zero_peaks());
        LevelTracker { peaks, frame_counter: 0 }
    }

    /// Fold one frame of `len` interleaved samples starting at `start`,
    /// advance the frame counter, and emit the accumulated peaks on every
    /// `METER_INTERVAL_FRAMES`-th frame, resetting afterwards.
    pub fn process_chunk(&mut self, samples: &Vec<u32>, start: usize, len: usize) -> (snap: Option<
        PeakSnapshot,
    >)
        requires
            old(self).wf(),
            start + len <= samples@.len(),
        ensures
            final(self).wf(),
            ({
                let (p, c, s) = step_chunk(
                    old(self).peaks(),
                    old(self).counter(),
                    samples@.subrange(start as int, start as int + len as int),
                );
                final(self).peaks() == p && final(self).counter() == c && (match snap {
                    Option::Some(sn) => s == Option::Some(sn.levels@) && sn.wf(),
                    Option::None => s is None,
                })
            }),
    {
        let total = samples.len();
        let ghost chunk: Seq<u32> = samples@.subrange(start as int, start as int + len as int);
        let ghost peaks0: Seq<u32> = self.peaks@;
        let m = if len < MAX_CHANNELS {
            len
        } else {
            MAX_CHANNELS
        };
        let mut i: usize = 0;
        while i < m
            invariant
                i <= m,
                m == if len < MAX_CHANNELS { len as int } else { MAX_CHANNELS as int },
                start + len <= samples@.len(),
                samples@.len() == total,
                chunk == samples@.subrange(start as int, start as int + len as int),
                peaks0.len() == MAX_CHANNELS,
                self.peaks@.len() == MAX_CHANNELS,
                self.frame_counter == old(self).frame_counter,
                forall|j: int| 0 <= j < i ==> self.peaks@[j] == fold_chunk(peaks0, chunk)[j],
                forall|j: int| i <= j < MAX_CHANNELS ==> self.peaks@[j] == peaks0[j],
            decreases m - i,
        {
            let a = samples[start + i] & 0x7fff_ffff;
            assert(a == abs_bits(chunk[i as int]));
            if a > self.peaks[i] {
                self.peaks.set(i, a);
            }
            i = i + 1;
        }
        assert(self.peaks@ =~= fold_chunk(peaks0, chunk)) by {
            assert(forall|j: int|
                m <= j < MAX_CHANNELS ==> fold_chunk(peaks0, chunk)[j] == peaks0[j]);
        }
        self.frame_counter = self.frame_counter + 1;
        if self.frame_counter >= METER_INTERVAL_FRAMES {
            let mut levels: Vec<u32> = Vec::new();
            let mut k: usize = 0;
            while k < MAX_CHANNELS
                invariant
                    k <= MAX_CHANNELS,
                    self.peaks@.len() == MAX_CHANNELS,
                    levels@ == self.peaks@.subrange(0, k as int),
                decreases MAX_CHANNELS - k,
            {
                let v = self.peaks[k];
                levels.push(v);
                k = k + 1;
                assert(levels@ =~= self.peaks@.subrange(0, k as int));
            }
            assert(levels@ =~= self.peaks@);
            let mut z: usize = 0;
            while z < MAX_CHANNELS
                invariant
                    z <= MAX_CHANNELS,
                    self.peaks@.len() == MAX_CHANNELS,
                    forall|j: int| 0 <= j < z ==> self.peaks@[j] == 0u32,
                decreases MAX_CHANNELS - z,
            {
                self.peaks.set(z, 0u32);
                z = z + 1;
            }
            assert(self.peaks@ =~= zero_peaks());
            self.frame_counter = 0;
            Option::Some(PeakSnapshot { levels })
        } else {
            Option::None
        }
    }
}

} // verus!
