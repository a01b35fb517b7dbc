//! Producer half of the shared-memory single-producer/single-consumer audio
//! transport. The region holds a small header (`write_pos`, channel count,
//! sample rate, active flag) and a fixed ring of interleaved frames. The
//! write position is a monotonic frame counter wrapping only at the 32-bit
//! boundary; the ring slot is addressed by `write_pos` modulo the capacity,
//! never used for availability arithmetic. Samples are carried as the bit
//! patterns of 32-bit IEEE values, which the contracts treat as opaque words.

use vstd::prelude::*;
use vstd::arithmetic::div_mod::{
    lemma_add_mod_noop, lemma_fundamental_div_mod, lemma_mod_division_less_than_divisor,
    lemma_add_mod_noop_right, lemma_mod_equivalence, lemma_mod_mod, lemma_mod_multiples_vanish,
    lemma_small_mod, lemma_sub_mod_noop,
};
use vstd::arithmetic::mul::{lemma_mul_inequality, lemma_mul_is_distributive_add_other_way};

verus! {

/// Frames in the shared ring; fixed by the cross-process protocol.
pub const RING_BUFFER_FRAMES: usize = 8192;

/// 2^32, the modulus at which the monotonic write position wraps.
pub open spec fn pos_modulus() -> int {
    0x1_0000_0000
}

/// The write position after advancing `k` frames, wrapping at 2^32.
pub open spec fn advance(pos: u32, k: int) -> u32 {
    ((pos + k) % pos_modulus()) as u32
}

/// The ring slot that a write position addresses.
pub open spec fn slot_of(pos: u32) -> int {
    pos as int % (RING_BUFFER_FRAMES as int)
}

/// The ring contents after one interleaved frame is stored at the slot that
/// `pos` addresses.
pub open spec fn write_frame(data: Seq<u32>, ch: int, pos: u32, frame: Seq<u32>) -> Seq<u32> {
    Seq::new(
        data.len(),
        |i: int|
            if slot_of(pos) * ch <= i < slot_of(pos) * ch + ch {
                frame[i - slot_of(pos) * ch]
            } else {
                data[i]
            },
    )
}

/// The ring contents after the first `frames` frames of an interleaved
/// sample block are stored in order, starting at write position `pos`.
pub open spec fn write_frames(
    data: Seq<u32>,
    ch: int,
    pos: u32,
    samples: Seq<u32>,
    frames: int,
) -> Seq<u32>
    decreases frames,
{
    if frames <= 0 {
        data
    } else {
        write_frame(
            write_frames(data, ch, pos, samples, frames - 1),
            ch,
            advance(pos, frames - 1),
            samples.subrange((frames - 1) * ch, frames * ch),
        )
    }
}

/// Producer state of the shared audio region.
pub struct RingBufferTransport {
    write_pos: u32,
    channel_count: u32,
    sample_rate: u32,
    active: bool,
    data: Vec<u32>,
}

impl RingBufferTransport {
    /// The interleaved ring contents, frame-major.
    pub closed spec fn ring(self) -> Seq<u32> {
        self.data@
    }

    /// The monotonic write position.
    pub closed spec fn pos(self) -> u32 {
        self.write_pos
    }

    pub closed spec fn channels(self) -> u32 {
        self.channel_count
    }

    pub closed spec fn rate(self) -> u32 {
        self.sample_rate
    }

    pub closed spec fn is_active(self) -> bool {
        self.active
    }

    pub open spec fn wf(self) -> bool {
        1 <= self.channels() <= 0xffff && self.ring().len() == RING_BUFFER_FRAMES
            * self.channels()
    }

    /// Create a fresh region for a capture session: position zero, all
    /// samples zero, the header's channel and rate fields set, the active
    /// flag raised.
    pub fn open(channel_count: u32, sample_rate: u32) -> (t: Self)
        requires
            1 <= channel_count <= 0xffff,
        ensures
            t.wf(),
            t.pos() == 0,
            t.channels() == channel_count,
            t.rate() == sample_rate,
            t.is_active(),
            t.ring() == Seq::new((RING_BUFFER_FRAMES * channel_count) as nat, |i: int| 0u32),
    {
        let len = RING_BUFFER_FRAMES * (channel_count as usize);
        let data = vec![0u32; len];
        assert(data@ =~= Seq::new((RING_BUFFER_FRAMES * channel_count) as nat, |i: int| 0u32));
        RingBufferTransport { write_pos: 0, channel_count, sample_rate, active: true, data }
    }

    /// The current monotonic write position.
    pub fn write_pos(&self) -> (p: u32)
        ensures
            p == self.pos(),
    {
        self.write_pos
    }

    pub fn channel_count(&self) -> (c: u32)
        ensures
            c == self.channels(),
    {
        self.channel_count
    }

    pub fn sample_rate(&self) -> (r: u32)
        ensures
            r == self.rate(),
    {
        self.sample_rate
    }

    pub fn capacity_frames(&self) -> (c: usize)
        ensures
            c == RING_BUFFER_FRAMES,
    {
        RING_BUFFER_FRAMES
    }

    /// Raise or clear the producer liveness flag.
    pub fn set_active(&mut self, active: bool)
        ensures
            final(self).active_set(active, *old(self)),
    {
        self.active = active;
    }

    /// The state after `set_active`: only the flag changes.
    pub open spec fn active_set(self, active: bool, prev: Self) -> bool {
        self.is_active() == active && self.ring() == prev.ring() && self.pos() == prev.pos()
            && self.channels() == prev.channels() && self.rate() == prev.rate()
    }

    /// One sample word of the ring, for read-back.
    pub fn sample_at(&self, i: usize) -> (s: u32)
        requires
            i < self.ring().len(),
        ensures
            s == self.ring()[i as int],
    {
        self.data[i]
    }

    /// Store a block of interleaved samples. Whole frames are written to
    /// consecutive slots starting at the current position (modulo capacity);
    /// a trailing partial frame is dropped. The position advances by the
    /// number of whole frames, wrapping only at the 32-bit boundary. The
    /// call never fails: frames that a slow consumer has not read are
    /// overwritten, by design.
    pub fn write_samples(&mut self, samples: &Vec<u32>)
        requires
            old(self).wf(),
        ensures
            final(self).wf(),
            final(self).channels() == old(self).channels(),
            final(self).rate() == old(self).rate(),
            final(self).is_active() == old(self).is_active(),
            final(self).pos() == advance(
                old(self).pos(),
                samples@.len() as int / old(self).channels() as int,
            ),
            final(self).ring() == write_frames(
                old(self).ring(),
                old(self).channels() as int,
                old(self).pos(),
                samples@,
                samples@.len() as int / old(self).channels() as int,
            ),
    {
        let ch = self.channel_count as usize;
        let frames = samples.len() / ch;
        proof {
            lemma_fundamental_div_mod(samples@.len() as int, ch as int);
            lemma_mod_division_less_than_divisor(samples@.len() as int, ch as int);
            assert(frames * ch <= samples@.len()) by (nonlinear_arith)
                requires
                    ch >= 1,
                    frames == samples@.len() as int / ch as int,
            ;
            lemma_small_mod(self.write_pos as nat, pos_modulus() as nat);
        }
        let ghost pos0: u32 = self.write_pos;
        let ghost data0: Seq<u32> = self.data@;
        let mut f: usize = 0;
        while f < frames
            invariant
                f <= frames,
                1 <= ch <= 0xffff,
                self.channel_count == ch,
                self.channel_count == old(self).channel_count,
                self.sample_rate == old(self).sample_rate,
                self.active == old(self).active,
                pos0 == old(self).write_pos,
                data0 == old(self).ring(),
                frames * ch <= samples@.len(),
                samples@.len() <= usize::MAX,
                frames == samples@.len() as int / ch as int,
                self.data@.len() == RING_BUFFER_FRAMES * ch,
                self.write_pos == advance(pos0, f as int),
                self.data@ == write_frames(data0, ch as int, pos0, samples@, f as int),
            decreases frames - f,
        {
            let slot = (self.write_pos as usize) % RING_BUFFER_FRAMES;
            proof {
                assert(slot < RING_BUFFER_FRAMES);
                lemma_mul_inequality(slot as int + 1, RING_BUFFER_FRAMES as int, ch as int);
                lemma_mul_is_distributive_add_other_way(ch as int, slot as int, 1);
                assert(slot * ch + ch <= RING_BUFFER_FRAMES * ch);
                lemma_mul_inequality(f as int + 1, frames as int, ch as int);
                lemma_mul_is_distributive_add_other_way(ch as int, f as int, 1);
                assert(f * ch + ch <= samples@.len());
                assert(RING_BUFFER_FRAMES * ch <= 0xffff * 8192) by (nonlinear_arith)
                    requires
                        1 <= ch <= 0xffff,
                ;
            }
            let base = slot * ch;
            let src = f * ch;
            let ghost pre: Seq<u32> = self.data@;
            let ghost wp: u32 = self.write_pos;
            let mut c: usize = 0;
            while c < ch
                invariant
                    c <= ch,
                    base + ch <= pre.len(),
                    src + ch <= samples@.len(),
                    samples@.len() <= usize::MAX,
                    pre.len() <= usize::MAX,
                    self.data@.len() == pre.len(),
                    self.write_pos == wp,
                    self.channel_count == old(self).channel_count,
                    self.sample_rate == old(self).sample_rate,
                    self.active == old(self).active,
                    forall|i: int|
                        base <= i < base + c ==> self.data@[i] == samples@[src + (i - base)],
                    forall|i: int|
                        0 <= i < pre.len() && !(base <= i < base + c) ==> self.data@[i] == pre[i],
                decreases ch - c,
            {
                let v = samples[src + c];
                self.data.set(base + c, v);
                c = c + 1;
            }
            proof {
                let chi = ch as int;
                let posf = self.write_pos;
                assert(slot_of(posf) == slot as int);
                let frame = samples@.subrange(f as int * chi, (f as int + 1) * chi);
                assert(f as int * chi + chi == (f as int + 1) * chi) by {
                    lemma_mul_is_distributive_add_other_way(chi, f as int, 1);
                }
                assert(self.data@ =~= write_frame(pre, chi, posf, frame));
                assert(advance(pos0, f as int + 1 - 1) == posf);
                assert(self.data@ == write_frames(data0, chi, pos0, samples@, f as int + 1));
            }
            let newpos = self.write_pos.wrapping_add(1);
            proof {
                lemma_add_mod_noop(pos0 as int + f as int, 1, pos_modulus());
                lemma_small_mod(1nat, pos_modulus() as nat);
                assert(vstd::wrapping::u32_specs::wrapping_add(self.write_pos, 1u32) == advance(
                    pos0,
                    f as int + 1,
                ));
            }
            self.write_pos = newpos;
            f = f + 1;
        }
    }
}

pub proof fn lemma_write_frames_len(data: Seq<u32>, ch: int, pos: u32, samples: Seq<u32>, frames: int)
    ensures
        write_frames(data, ch, pos, samples, frames).len() == data.len(),
    decreases frames,
{
    if frames > 0 {
        lemma_write_frames_len(data, ch, pos, samples, frames - 1);
    }
}

/// Writing depends only on the frames actually stored: sample blocks that
/// agree on the first `frames` frames leave the same ring.
proof fn lemma_write_frames_agree(
    data: Seq<u32>,
    ch: int,
    pos: u32,
    sa: Seq<u32>,
    sb: Seq<u32>,
    frames: int,
)
    requires
        forall|k: int|
            0 <= k < frames ==> #[trigger] sa.subrange(k * ch, (k + 1) * ch) == sb.subrange(
                k * ch,
                (k + 1) * ch,
            ),
    ensures
        write_frames(data, ch, pos, sa, frames) == write_frames(data, ch, pos, sb, frames),
    decreases frames,
{
    if frames > 0 {
        lemma_write_frames_agree(data, ch, pos, sa, sb, frames - 1);
        assert(sa.subrange((frames - 1) * ch, ((frames - 1) + 1) * ch) == sb.subrange(
            (frames - 1) * ch,
            ((frames - 1) + 1) * ch,
        ));
        assert(((frames - 1) + 1) * ch == frames * ch);
    }
}

/// The slot of a position reduces through the 32-bit wrap: advancing by `k`
/// addresses the slot of `pos + k`.
proof fn lemma_slot_advance(pos: u32, k: int)
    requires
        0 <= k,
    ensures
        slot_of(advance(pos, k)) == (pos + k) % (RING_BUFFER_FRAMES as int),
{
    let r = RING_BUFFER_FRAMES as int;
    assert(r * 524288 == pos_modulus());
    lemma_mod_mod(pos + k, r, 524288);
}

/// Two writes in sequence leave the ring exactly as one write of the
/// concatenated sample block: the transport carries any sequence of writes
/// as one contiguous frame stream.
#[verifier::rlimit(50)]
pub proof fn lemma_write_frames_concat(
    data: Seq<u32>,
    ch: int,
    pos: u32,
    s1: Seq<u32>,
    f1: int,
    s2: Seq<u32>,
    f2: int,
)
    requires
        1 <= ch,
        0 <= f1,
        0 <= f2,
        s1.len() == f1 * ch,
        f2 * ch <= s2.len(),
    ensures
        write_frames(
            write_frames(data, ch, pos, s1, f1),
            ch,
            advance(pos, f1),
            s2,
            f2,
        ) == write_frames(data, ch, pos, s1 + s2, f1 + f2),
    decreases f2,
{
    if f2 == 0 {
        assert forall|k: int| 0 <= k < f1 implies #[trigger] s1.subrange(k * ch, (k + 1) * ch) == (
        s1 + s2).subrange(k * ch, (k + 1) * ch) by {
            lemma_mul_inequality(k + 1, f1, ch);
            assert(0 <= k * ch <= (k + 1) * ch) by (nonlinear_arith)
                requires
                    0 <= k,
                    1 <= ch,
            ;
            assert(s1.subrange(k * ch, (k + 1) * ch) =~= (s1 + s2).subrange(
                k * ch,
                (k + 1) * ch,
            ));
        }
        lemma_write_frames_agree(data, ch, pos, s1, s1 + s2, f1);
    } else {
        assert((f2 - 1) * ch <= s2.len()) by (nonlinear_arith)
            requires
                f2 >= 1,
                ch >= 1,
                f2 * ch <= s2.len(),
        ;
        lemma_write_frames_concat(data, ch, pos, s1, f1, s2, f2 - 1);
        assert(advance(advance(pos, f1), f2 - 1) == advance(pos, f1 + f2 - 1)) by {
            lemma_add_mod_noop_right(f2 - 1, pos as int + f1, pos_modulus());
        }
        assert(s2.subrange((f2 - 1) * ch, f2 * ch) == (s1 + s2).subrange(
            (f1 + f2 - 1) * ch,
            (f1 + f2) * ch,
        )) by {
            assert((f1 + f2 - 1) * ch == f1 * ch + (f2 - 1) * ch) by (nonlinear_arith);
            assert((f1 + f2) * ch == f1 * ch + f2 * ch) by (nonlinear_arith);
            assert((f2 - 1) * ch >= 0) by (nonlinear_arith)
                requires
                    f2 >= 1,
                    ch >= 1,
            ;
            assert(f2 * ch >= (f2 - 1) * ch + ch) by (nonlinear_arith);
            assert(s2.subrange((f2 - 1) * ch, f2 * ch) =~= (s1 + s2).subrange(
                (f1 + f2 - 1) * ch,
                (f1 + f2) * ch,
            ));
        }
    }
}

/// Round trip: after writing `frames <= RING_BUFFER_FRAMES` frames starting
/// at position `pos`, reading the ring back at the slots of `pos + i`, in
/// order, yields exactly the samples written.
pub proof fn lemma_ring_read_back(
    data: Seq<u32>,
    ch: int,
    pos: u32,
    samples: Seq<u32>,
    frames: int,
)
    requires
        1 <= ch,
        0 <= frames <= RING_BUFFER_FRAMES,
        frames * ch <= samples.len(),
        data.len() == RING_BUFFER_FRAMES * ch,
    ensures
        forall|i: int, c: int|
            0 <= i < frames && 0 <= c < ch ==> write_frames(data, ch, pos, samples, frames)[
                #[trigger] (slot_of(advance(pos, i)) * ch + c)
            ] == samples[i * ch + c],
    decreases frames,
{
    if frames > 0 {
        let prev = write_frames(data, ch, pos, samples, frames - 1);
        let last_pos = advance(pos, frames - 1);
        let base = slot_of(last_pos) * ch;
        let w = write_frames(data, ch, pos, samples, frames);
        assert((frames - 1) * ch <= samples.len()) by (nonlinear_arith)
            requires
                frames * ch <= samples.len(),
                ch >= 1,
                frames >= 1,
        ;
        lemma_ring_read_back(data, ch, pos, samples, frames - 1);
        lemma_write_frames_len(data, ch, pos, samples, frames - 1);
        let r = RING_BUFFER_FRAMES as int;
        lemma_mod_division_less_than_divisor(last_pos as int, r);
        assert(0 <= slot_of(last_pos) < r);
        assert(base + ch <= r * ch) by (nonlinear_arith)
            requires
                0 <= slot_of(last_pos) < r,
                base == slot_of(last_pos) * ch,
                ch >= 1,
        ;
        let fr = samples.subrange((frames - 1) * ch, frames * ch);
        assert((frames - 1) * ch + ch == frames * ch) by (nonlinear_arith);
        // The last frame reads back from its own slot.
        assert forall|c: int| 0 <= c < ch implies w[#[trigger] (base + c)] == samples[(frames - 1)
            * ch + c] by {
            assert(w[base + c] == fr[c]);
        }
        // Earlier frames are untouched by the last store: their slots differ,
        // so their index ranges are disjoint.
        assert forall|i: int, c: int| 0 <= i < frames - 1 && 0 <= c < ch implies w[
            #[trigger] (slot_of(advance(pos, i)) * ch + c)
        ] == samples[i * ch + c] by {
            let si = slot_of(advance(pos, i));
            let sl = slot_of(last_pos);
            lemma_slot_advance(pos, i);
            lemma_slot_advance(pos, frames - 1);
            assert(si != sl) by {
                if si == sl {
                    lemma_mod_equivalence(pos + frames - 1, pos + i, r);
                    lemma_small_mod((frames - 1 - i) as nat, r as nat);
                    assert(false);
                }
            }
            lemma_mod_division_less_than_divisor(advance(pos, i) as int, r);
            assert(si * ch + c < base || si * ch + c >= base + ch) by (nonlinear_arith)
                requires
                    si != sl,
                    0 <= si,
                    0 <= sl,
                    0 <= c < ch,
                    base == sl * ch,
            ;
            assert(0 <= si * ch + c < r * ch) by (nonlinear_arith)
                requires
                    0 <= si < r,
                    0 <= c < ch,
            ;
            assert(w[si * ch + c] == prev[si * ch + c]);
        }
    }
}

/// Unsigned subtraction of an older observed position from a newer one
/// yields exactly the number of frames advanced, as long as fewer than 2^32
/// frames passed in between — the availability arithmetic the consumer
/// relies on, valid across wraparound.
pub proof fn lemma_write_pos_delta(old_pos: u32, frames: int, new_pos: u32)
    requires
        0 <= frames < pos_modulus(),
        new_pos == advance(old_pos, frames),
    ensures
        vstd::wrapping::u32_specs::wrapping_sub(new_pos, old_pos) == frames,
{
    let m = pos_modulus();
    lemma_sub_mod_noop(old_pos as int + frames, old_pos as int, m);
    lemma_small_mod(old_pos as nat, m as nat);
    lemma_small_mod(frames as nat, m as nat);
    if (new_pos as int - old_pos as int) < 0 {
        lemma_mod_multiples_vanish(-1, new_pos as int - old_pos as int + m, m);
        lemma_small_mod((new_pos as int - old_pos as int + m) as nat, m as nat);
    } else {
        lemma_small_mod((new_pos as int - old_pos as int) as nat, m as nat);
    }
}

} // verus!
