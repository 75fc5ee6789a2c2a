//! The frame ring as one object: both endpoints of the shared sample queue
//! held together, so every push and pop has an exact, deterministic contract
//! over the ring's contents.
//!
//! A `FrameRing` owns the write and the read endpoint of one `rtrb` queue.
//! Holding both excludes every other thread, so the contracts here pin down
//! the contents completely; the ring laws at the bottom of this module state
//! the FIFO ordering, backpressure and frame-atomicity guarantees that the
//! pipeline relies on. Where the two endpoints must live on different
//! threads, `new_framering` in the sibling module hands them out separately.

use crate::spsc::{
    cons_capacity, cons_pending, lemma_aligned_div_exact, lemma_append_frames_aligned,
    lemma_div_mul_le, lemma_free_slots_to_frames, lemma_remove_frames_aligned, prod_capacity,
    prod_pending, rb_new, rb_pop_pair, rb_push_pair, rb_slots_pair, ring_mates,
    spec_accepted_frames, spec_popped_frames,
};
use vstd::prelude::*;

verus! {

/// A fixed-capacity ring of interleaved frames, never resized, never
/// blocking: a push drops what does not fit, a pop returns what is there.
pub struct FrameRing {
    channels: usize,
    cap_frames: usize,
    producer: rtrb::Producer<u32>,
    consumer: rtrb::Consumer<u32>,
}

impl FrameRing {
    /// The interleaved samples currently buffered, oldest first.
    pub closed spec fn view_samples(self) -> Seq<u32> {
        cons_pending(&self.consumer)
    }

    pub closed spec fn spec_channels(self) -> nat {
        self.channels as nat
    }

    pub closed spec fn spec_capacity_frames(self) -> nat {
        self.cap_frames as nat
    }

    /// Whole frames currently buffered.
    pub open spec fn buffered_frames(self) -> nat {
        self.view_samples().len() / self.spec_channels()
    }

    pub closed spec fn wf(self) -> bool {
        &&& self.channels >= 1
        &&& self.cap_frames * self.channels <= usize::MAX
        &&& ring_mates(&self.producer, &self.consumer)
        &&& prod_capacity(&self.producer) == self.cap_frames * self.channels
        &&& cons_capacity(&self.consumer) == self.cap_frames * self.channels
        &&& prod_pending(&self.producer) == cons_pending(&self.consumer)
        &&& self.view_samples().len() % self.spec_channels() == 0
        &&& self.view_samples().len() <= self.cap_frames * self.channels
    }

    /// A fresh, empty ring of `capacity` frames of `channels` samples each,
    /// created once at pipeline startup and never resized.
    pub fn new(channels: usize, capacity: usize) -> (r: FrameRing)
        requires
            1 <= channels,
            capacity * channels <= usize::MAX,
        ensures
            r.wf(),
            r.spec_channels() == channels,
            r.spec_capacity_frames() == capacity,
            r.view_samples() == Seq::<u32>::empty(),
    {
        let (producer, consumer) = rb_new(capacity * channels);
        proof {
            vstd::arithmetic::div_mod::lemma_small_mod(0, channels as nat);
        }
        FrameRing { channels, cap_frames: capacity, producer, consumer }
    }

    pub fn channels(&self) -> (r: usize)
        ensures
            r as nat == self.spec_channels(),
    {
        self.channels
    }

    pub fn capacity_frames(&self) -> (r: usize)
        ensures
            r as nat == self.spec_capacity_frames(),
    {
        self.cap_frames
    }

    /// Frames available for reading.
    pub fn available_frames(&self) -> (r: usize)
        requires
            self.wf(),
        ensures
            r as nat == self.buffered_frames(),
    {
        let slots = rb_slots_pair(&self.producer, &self.consumer);
        slots / self.channels
    }

    /// Frames of free capacity.
    pub fn free_frames(&self) -> (r: usize)
        requires
            self.wf(),
        ensures
            r as nat == self.spec_capacity_frames() - self.buffered_frames(),
    {
        let avail = self.available_frames();
        proof {
            lemma_free_slots_to_frames(
                self.view_samples().len(),
                self.spec_capacity_frames(),
                self.spec_channels(),
            );
        }
        self.cap_frames - avail
    }

    /// Copies as many leading whole frames of `samples` as fit into the free
    /// capacity, in order, and returns how many frames were accepted; the
    /// excess is silently dropped, never blocking and never overwriting
    /// unread data.
    pub fn push(&mut self, samples: &Vec<u32>) -> (accepted: usize)
        requires
            old(self).wf(),
            samples@.len() % old(self).spec_channels() == 0,
        ensures
            final(self).wf(),
            final(self).spec_channels() == old(self).spec_channels(),
            final(self).spec_capacity_frames() == old(self).spec_capacity_frames(),
            accepted as nat == spec_accepted_frames(
                samples@.len() / old(self).spec_channels(),
                old(self).buffered_frames(),
                old(self).spec_capacity_frames(),
            ),
            final(self).view_samples() == old(self).view_samples()
                + samples@.take((accepted * old(self).spec_channels()) as int),
    {
        let ghost pre = self.view_samples();
        let ch = self.channels;
        let cap = self.cap_frames;
        let avail = rb_slots_pair(&self.producer, &self.consumer);
        proof {
            lemma_free_slots_to_frames(pre.len(), cap as nat, ch as nat);
        }
        let free_frames = (cap * ch - avail) / ch;
        let want = samples.len() / ch;
        let n = if want <= free_frames {
            want
        } else {
            free_frames
        };
        proof {
            lemma_div_mul_le(samples@.len(), ch as nat);
            vstd::arithmetic::mul::lemma_mul_inequality(n as int, want as int, ch as int);
            vstd::arithmetic::mul::lemma_mul_inequality(n as int, free_frames as int, ch as int);
            assert(free_frames * ch as nat == cap * ch - avail) by {
                lemma_aligned_div_exact((cap * ch - avail) as nat, ch as nat);
            }
            assert(pre + samples@.take(0) =~= pre);
        }
        let total = n * ch;
        let mut i: usize = 0;
        while i < total
            invariant
                self.channels == ch,
                self.cap_frames == cap,
                ch >= 1,
                cap * ch <= usize::MAX,
                ring_mates(&self.producer, &self.consumer),
                prod_capacity(&self.producer) == cap * ch,
                cons_capacity(&self.consumer) == cap * ch,
                prod_pending(&self.producer) == cons_pending(&self.consumer),
                i <= total,
                total == n * ch,
                total <= samples@.len(),
                total as nat + pre.len() <= cap * ch,
                self.view_samples() == pre + samples@.take(i as int),
            decreases total - i,
        {
            let ok = rb_push_pair(&mut self.producer, &mut self.consumer, samples[i]);
            proof {
                assert(samples@.take(i as int).push(samples@[i as int])
                    =~= samples@.take(i as int + 1));
                assert(self.view_samples() =~= pre + samples@.take(i as int + 1));
            }
            i = i + 1;
        }
        proof {
            lemma_append_frames_aligned(pre.len(), n as nat, ch as nat);
        }
        n
    }

    /// Copies up to `frames` whole frames into the front of `out`, in the
    /// order they were pushed, and returns how many frames were copied:
    /// fewer than requested, possibly zero, when less data is available.
    /// Either a whole frame is copied or none of it. If `out` cannot hold
    /// `frames` whole frames nothing is copied; samples of `out` beyond the
    /// copied region are left untouched.
    pub fn pop_into(&mut self, frames: usize, out: &mut Vec<u32>) -> (got: usize)
        requires
            old(self).wf(),
        ensures
            final(self).wf(),
            final(self).spec_channels() == old(self).spec_channels(),
            final(self).spec_capacity_frames() == old(self).spec_capacity_frames(),
            got as nat == spec_popped_frames(
                frames as nat,
                old(self).buffered_frames(),
                old(out)@.len(),
                old(self).spec_channels(),
            ),
            final(out)@.len() == old(out)@.len(),
            final(out)@ == old(self).view_samples().take(
                (got * old(self).spec_channels()) as int,
            ) + old(out)@.skip((got * old(self).spec_channels()) as int),
            final(self).view_samples() == old(self).view_samples().skip(
                (got * old(self).spec_channels()) as int,
            ),
    {
        let ghost pre = self.view_samples();
        let ch = self.channels;
        if out.len() / ch < frames {
            proof {
                assert(out@ =~= pre.take(0) + old(out)@.skip(0));
                assert(self.view_samples() =~= pre.skip(0));
            }
            return 0;
        }
        let avail = rb_slots_pair(&self.producer, &self.consumer);
        let avail_frames = avail / ch;
        let n = if frames <= avail_frames {
            frames
        } else {
            avail_frames
        };
        proof {
            lemma_div_mul_le(out@.len(), ch as nat);
            vstd::arithmetic::mul::lemma_mul_inequality(
                n as int,
                (out@.len() / ch as nat) as int,
                ch as int,
            );
            vstd::arithmetic::mul::lemma_mul_inequality(n as int, avail_frames as int, ch as int);
            assert(avail_frames * ch as nat == avail) by {
                lemma_aligned_div_exact(avail as nat, ch as nat);
            }
            assert(out@ =~= pre.take(0) + old(out)@.skip(0));
            assert(self.view_samples() =~= pre.skip(0));
        }
        let total = n * ch;
        let mut i: usize = 0;
        while i < total
            invariant
                self.channels == ch,
                self.cap_frames == old(self).cap_frames,
                ch >= 1,
                old(self).cap_frames * ch <= usize::MAX,
                ring_mates(&self.producer, &self.consumer),
                prod_capacity(&self.producer) == old(self).cap_frames * ch,
                cons_capacity(&self.consumer) == old(self).cap_frames * ch,
                prod_pending(&self.producer) == cons_pending(&self.consumer),
                i <= total,
                total == n * ch,
                total <= avail,
                avail as nat == pre.len(),
                total <= out@.len(),
                out@.len() == old(out)@.len(),
                self.view_samples() == pre.skip(i as int),
                out@ == pre.take(i as int) + old(out)@.skip(i as int),
            decreases total - i,
        {
            let v = rb_pop_pair(&mut self.producer, &mut self.consumer);
            let x = v.unwrap();
            out[i] = x;
            proof {
                assert(pre.skip(i as int).drop_first() =~= pre.skip(i as int + 1));
                assert(out@ =~= pre.take(i as int + 1) + old(out)@.skip(i as int + 1));
            }
            i = i + 1;
        }
        proof {
            lemma_remove_frames_aligned(pre.len(), n as nat, ch as nat);
            lemma_aligned_div_exact(pre.len(), ch as nat);
        }
        n
    }

    /// The playback read: pops up to `frames` whole frames and returns a
    /// buffer of exactly `frames` whole frames, the shortfall filled with
    /// silence (zero samples), never with stale data; also returns how many
    /// frames were actually read. An empty ring yields an all-zero block.
    pub fn pop_padded(&mut self, frames: usize) -> (r: (Vec<u32>, usize))
        requires
            old(self).wf(),
            frames * old(self).spec_channels() <= usize::MAX,
        ensures
            final(self).wf(),
            final(self).spec_channels() == old(self).spec_channels(),
            final(self).spec_capacity_frames() == old(self).spec_capacity_frames(),
            r.1 as nat == if frames as nat <= old(self).buffered_frames() {
                frames as nat
            } else {
                old(self).buffered_frames()
            },
            r.0@.len() == frames * old(self).spec_channels(),
            r.0@.take((r.1 * old(self).spec_channels()) as int) == old(self).view_samples().take(
                (r.1 * old(self).spec_channels()) as int,
            ),
            forall|j: int|
                r.1 * old(self).spec_channels() <= j < r.0@.len() ==> r.0@[j] == 0u32,
            final(self).view_samples() == old(self).view_samples().skip(
                (r.1 * old(self).spec_channels()) as int,
            ),
    {
        let ghost pre = self.view_samples();
        let ch = self.channels;
        let total = frames * ch;
        let mut out: Vec<u32> = Vec::new();
        while out.len() < total
            invariant
                out@.len() <= total,
                forall|j: int| 0 <= j < out@.len() ==> out@[j] == 0u32,
            decreases total - out@.len(),
        {
            out.push(0);
        }
        proof {
            vstd::arithmetic::div_mod::lemma_fundamental_div_mod_converse(
                total as int,
                ch as int,
                frames as int,
                0,
            );
        }
        let got = self.pop_into(frames, &mut out);
        proof {
            lemma_div_mul_le(pre.len(), ch as nat);
            vstd::arithmetic::mul::lemma_mul_inequality(
                got as int,
                (pre.len() / ch as nat) as int,
                ch as int,
            );
            assert(out@.take((got * ch) as int) =~= pre.take((got * ch) as int));
        }
        (out, got)
    }
}

/// Ordering: frames pushed into a ring holding `s`, with sufficient free
/// capacity and no intervening pops, are all accepted, appended after `s`
/// bit-identically, and a pop of everything then returns every frame in push
/// order. Stated over the same spec functions the `FrameRing` contracts use.
pub proof fn lemma_ring_fifo_order(
    s: Seq<u32>,
    input: Seq<u32>,
    cap_frames: nat,
    channels: nat,
    out_len: nat,
)
    requires
        channels >= 1,
        s.len() % channels == 0,
        input.len() % channels == 0,
        s.len() + input.len() <= cap_frames * channels,
        s.len() + input.len() <= out_len,
    ensures
        spec_accepted_frames(input.len() / channels, s.len() / channels, cap_frames) == input.len()
            / channels,
        s + input.take((((input.len() / channels) * channels)) as int) == s + input,
        spec_popped_frames(
            (s + input).len() / channels,
            (s + input).len() / channels,
            out_len,
            channels,
        ) == (s + input).len() / channels,
        (s + input).take((((s + input).len() / channels * channels)) as int) == s + input,
{
    lemma_aligned_div_exact(s.len(), channels);
    lemma_aligned_div_exact(input.len(), channels);
    lemma_append_frames_aligned(s.len(), input.len() / channels, channels);
    lemma_aligned_div_exact(s.len() + input.len(), channels);
    assert((s.len() + input.len()) / channels == s.len() / channels + input.len() / channels) by {
        assert((s.len() / channels) * channels + (input.len() / channels) * channels == (s.len()
            / channels + input.len() / channels) * channels) by (nonlinear_arith);
        vstd::arithmetic::div_mod::lemma_fundamental_div_mod_converse(
            (s.len() + input.len()) as int,
            channels as int,
            (s.len() / channels + input.len() / channels) as int,
            0,
        );
    }
    assert(s.len() / channels + input.len() / channels <= cap_frames) by (nonlinear_arith)
        requires
            channels >= 1,
            (s.len() / channels) * channels == s.len(),
            (input.len() / channels) * channels == input.len(),
            s.len() + input.len() <= cap_frames * channels,
    ;
    vstd::arithmetic::div_mod::lemma_div_is_ordered(
        (s.len() + input.len()) as int,
        out_len as int,
        channels as int,
    );
    assert(input.take((((input.len() / channels) * channels)) as int) =~= input);
    assert((s + input).take((((s + input).len() / channels * channels)) as int) =~= s + input);
}

/// No overwrite under backpressure: a push takes exactly the earliest-fitting
/// frames — all of them when they fit, else exactly the free capacity — and
/// the previously buffered samples stay untouched ahead of them.
pub proof fn lemma_ring_backpressure(s: Seq<u32>, input: Seq<u32>, cap_frames: nat, channels: nat)
    requires
        channels >= 1,
        s.len() % channels == 0,
        input.len() % channels == 0,
        s.len() <= cap_frames * channels,
    ensures
        ({
            let accepted = spec_accepted_frames(
                input.len() / channels,
                s.len() / channels,
                cap_frames,
            );
            let grown = s + input.take((accepted * channels) as int);
            &&& accepted == if input.len() / channels <= cap_frames - s.len() / channels {
                input.len() / channels
            } else {
                (cap_frames - s.len() / channels) as nat
            }
            &&& grown.take(s.len() as int) == s
            &&& grown.skip(s.len() as int) == input.take((accepted * channels) as int)
        }),
{
    let accepted = spec_accepted_frames(input.len() / channels, s.len() / channels, cap_frames);
    let grown = s + input.take((accepted * channels) as int);
    assert(grown.take(s.len() as int) =~= s);
    assert(grown.skip(s.len() as int) =~= input.take((accepted * channels) as int));
}

/// Frame-atomicity: a pop hands back a sample count that is always an exact
/// multiple of the channel count, whatever was requested or available.
pub proof fn lemma_pop_frame_atomic(want: nat, buffered: nat, out_len: nat, channels: nat)
    requires
        channels >= 1,
    ensures
        (spec_popped_frames(want, buffered, out_len, channels) * channels) as int % (
        channels as int) == 0,
{
    let got = spec_popped_frames(want, buffered, out_len, channels);
    vstd::arithmetic::div_mod::lemma_fundamental_div_mod_converse(
        (got * channels) as int,
        channels as int,
        got as int,
        0,
    );
}

/// Silence on underrun: a pop from an empty ring returns zero frames and
/// leaves the destination buffer exactly as it was; the zero-filled playback
/// block of `pop_padded` is then all silence.
pub proof fn lemma_silence_on_underrun(want: nat, out: Seq<u32>, channels: nat)
    requires
        channels >= 1,
    ensures
        spec_popped_frames(want, 0, out.len(), channels) == 0,
        Seq::<u32>::empty().take(0) + out.skip(0) == out,
{
    assert(Seq::<u32>::empty().take(0) + out.skip(0) =~= out);
}

} // verus!
