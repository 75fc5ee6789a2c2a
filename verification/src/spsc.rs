//! The lock-free single-producer/single-consumer sample queue underneath the
//! frame rings, and the two frame-granular ring endpoints built on it.
//!
//! The queue itself is `rtrb`'s SPSC ring buffer; the items are the 32-bit
//! words of normalized float32 samples. Each endpoint is owned by exactly one
//! thread for the ring's whole lifetime. The endpoint methods here add the
//! frame discipline: a producer only ever pushes whole frames and a consumer
//! only ever pops whole frames, so the channels of a frame can never come
//! out misaligned.
//!
//! The trusted queue operations come in two families, and each family's
//! contracts are true of every interleaving with the other thread. A
//! single-endpoint wrapper holds only its own endpoint, so the mate may act
//! concurrently — but its interference is one-sided: the consumer only
//! removes from the front of what the producer sees, and the producer only
//! appends to the back of what the consumer sees. The single-endpoint
//! contracts therefore quantify over that interference (an unknown front
//! drop, an unknown back extension) and state only what survives it. A pair
//! wrapper takes both endpoints at once — then no other thread can hold
//! either one, the queue cannot be touched concurrently, and the effect is
//! pinned down exactly; the ring laws in the sibling module rest on those.

use vstd::prelude::*;

verus! {

#[verifier::external_type_specification]
#[verifier::external_body]
#[verifier::reject_recursive_types(T)]
pub struct ExProducer<T>(rtrb::Producer<T>);

#[verifier::external_type_specification]
#[verifier::external_body]
#[verifier::reject_recursive_types(T)]
pub struct ExConsumer<T>(rtrb::Consumer<T>);

/// The samples written through this producer endpoint and not yet consumed,
/// oldest first: the current contents of the queue it writes into.
pub uninterp spec fn prod_pending(p: &rtrb::Producer<u32>) -> Seq<u32>;

/// The slot capacity the queue behind this producer endpoint was created with.
pub uninterp spec fn prod_capacity(p: &rtrb::Producer<u32>) -> nat;

/// The samples available for reading through this consumer endpoint, oldest
/// first: the current contents of the queue it reads from.
pub uninterp spec fn cons_pending(c: &rtrb::Consumer<u32>) -> Seq<u32>;

/// The slot capacity the queue behind this consumer endpoint was created with.
pub uninterp spec fn cons_capacity(c: &rtrb::Consumer<u32>) -> nat;

/// The two endpoints belong to one and the same queue.
pub uninterp spec fn ring_mates(p: &rtrb::Producer<u32>, c: &rtrb::Consumer<u32>) -> bool;

/// Relies on rtrb::RingBuffer::new: an empty SPSC queue of the given slot
/// capacity, handed out as its write and read endpoints.
#[verifier::external_body]
pub(crate) fn rb_new(capacity: usize) -> (r: (rtrb::Producer<u32>, rtrb::Consumer<u32>))
    ensures
        prod_pending(&r.0) == Seq::<u32>::empty(),
        cons_pending(&r.1) == Seq::<u32>::empty(),
        prod_capacity(&r.0) == capacity as nat,
        cons_capacity(&r.1) == capacity as nat,
        ring_mates(&r.0, &r.1),
{
    rtrb::RingBuffer::<u32>::new(capacity)
}

/// Relies on rtrb::Producer::push: appends the value if a slot is free at
/// the moment of the call. The matching consumer may concurrently remove
/// elements, but only from the front, and removal can only make room: if
/// this endpoint's prior view showed a free slot, the push succeeds. The
/// final view is the prior view plus the pushed value, less some front
/// segment the consumer took meanwhile; on failure the queue was full when
/// tried, and nothing was added.
#[verifier::external_body]
pub(crate) fn rb_push(p: &mut rtrb::Producer<u32>, value: u32) -> (ok: bool)
    ensures
        prod_capacity(final(p)) == prod_capacity(old(p)),
        prod_pending(final(p)).len() <= prod_capacity(final(p)),
        prod_pending(old(p)).len() < prod_capacity(old(p)) ==> ok,
        ok ==> exists|d: int|
            0 <= d <= prod_pending(old(p)).len() + 1 && prod_pending(final(p)) == prod_pending(
                old(p),
            ).push(value).skip(d),
        !ok ==> exists|d: int|
            0 <= d <= prod_pending(old(p)).len() && prod_pending(final(p)) == prod_pending(
                old(p),
            ).skip(d),
{
    p.push(value).is_ok()
}

/// Relies on rtrb::Consumer::pop: removes and returns the oldest element,
/// or reports the queue empty at the moment of the call. The matching
/// producer may concurrently append, but only at the back: everything in
/// this endpoint's prior view stays until this endpoint removes it, so a
/// non-empty prior view guarantees a pop, and what comes out is the head of
/// the prior view extended by some appended tail.
#[verifier::external_body]
pub(crate) fn rb_pop(c: &mut rtrb::Consumer<u32>) -> (r: Option<u32>)
    ensures
        cons_capacity(final(c)) == cons_capacity(old(c)),
        cons_pending(final(c)).len() <= cons_capacity(final(c)),
        cons_pending(old(c)).len() > 0 ==> r is Some,
        r matches Some(v) ==> exists|s: Seq<u32>|
            popped_head(cons_pending(old(c)), cons_pending(final(c)), v, s),
        r is None ==> cons_pending(old(c)).len() == 0 && (exists|s: Seq<u32>|
            cons_pending(final(c)) == cons_pending(old(c)) + s),
{
    c.pop().ok()
}

/// Relies on rtrb::Producer::slots: the number of free slots at the moment
/// of the call. The consumer may remove a front segment before or after
/// that moment, which only grows the room: the count is at least the prior
/// view's free space, and the final view still fits beside it.
#[verifier::external_body]
pub(crate) fn rb_write_slots(p: &mut rtrb::Producer<u32>) -> (r: usize)
    ensures
        prod_capacity(final(p)) == prod_capacity(old(p)),
        exists|d: int|
            0 <= d <= prod_pending(old(p)).len() && prod_pending(final(p)) == prod_pending(
                old(p),
            ).skip(d),
        prod_pending(final(p)).len() + r as nat <= prod_capacity(final(p)),
        prod_pending(old(p)).len() + r as nat >= prod_capacity(old(p)),
{
    p.slots()
}

/// Relies on rtrb::Consumer::slots: the number of readable slots at the
/// moment of the call. The producer may append before or after that moment,
/// which only grows the count: it is at least the prior view's length, at
/// most the final view's, and never above the capacity.
#[verifier::external_body]
pub(crate) fn rb_read_slots(c: &mut rtrb::Consumer<u32>) -> (r: usize)
    ensures
        cons_capacity(final(c)) == cons_capacity(old(c)),
        cons_pending(final(c)).len() <= cons_capacity(final(c)),
        exists|s: Seq<u32>| cons_pending(final(c)) == cons_pending(old(c)) + s,
        cons_pending(old(c)).len() <= r as nat <= cons_pending(final(c)).len(),
        r as nat <= cons_capacity(final(c)),
{
    c.slots()
}

/// Relies on rtrb::Consumer::slots, read while the caller also holds a
/// shared reference to the matching producer endpoint: no mutable reference
/// to either endpoint can exist, so nothing can touch the queue and the
/// count is exactly what is pending.
#[verifier::external_body]
pub(crate) fn rb_slots_pair(p: &rtrb::Producer<u32>, c: &rtrb::Consumer<u32>) -> (r: usize)
    requires
        ring_mates(p, c),
    ensures
        r as nat == cons_pending(c).len() && r as nat <= cons_capacity(c),
{
    c.slots()
}

/// Relies on rtrb::Producer::push, called while the matching consumer
/// endpoint is also held by the caller: nothing else can touch the queue, so
/// the one effect is seen at both endpoints.
#[verifier::external_body]
pub(crate) fn rb_push_pair(
    p: &mut rtrb::Producer<u32>,
    c: &mut rtrb::Consumer<u32>,
    value: u32,
) -> (ok: bool)
    requires
        ring_mates(old(p), old(c)),
    ensures
        ring_mates(final(p), final(c)),
        prod_capacity(final(p)) == prod_capacity(old(p)),
        cons_capacity(final(c)) == cons_capacity(old(c)),
        ok <==> cons_pending(old(c)).len() < cons_capacity(old(c)),
        ok ==> cons_pending(final(c)) == cons_pending(old(c)).push(value)
            && prod_pending(final(p)) == prod_pending(old(p)).push(value),
        !ok ==> cons_pending(final(c)) == cons_pending(old(c))
            && prod_pending(final(p)) == prod_pending(old(p)),
{
    p.push(value).is_ok()
}

/// Relies on rtrb::Consumer::pop, called while the matching producer
/// endpoint is also held by the caller: nothing else can touch the queue, so
/// the one effect is seen at both endpoints.
#[verifier::external_body]
pub(crate) fn rb_pop_pair(
    p: &mut rtrb::Producer<u32>,
    c: &mut rtrb::Consumer<u32>,
) -> (r: Option<u32>)
    requires
        ring_mates(old(p), old(c)),
    ensures
        ring_mates(final(p), final(c)),
        prod_capacity(final(p)) == prod_capacity(old(p)),
        cons_capacity(final(c)) == cons_capacity(old(c)),
        r is Some <==> cons_pending(old(c)).len() > 0,
        r is Some ==> r == Some(cons_pending(old(c)).first())
            && cons_pending(final(c)) == cons_pending(old(c)).drop_first()
            && prod_pending(final(p)) == prod_pending(old(p)).drop_first(),
        r is None ==> cons_pending(final(c)) == cons_pending(old(c))
            && prod_pending(final(p)) == prod_pending(old(p)),
{
    c.pop().ok()
}

/// The write endpoint of a frame ring: pushes whole interleaved frames into
/// the shared sample queue and never blocks. Owned by the capture side (or
/// by the rate-converter worker for the playback ring) for the ring's
/// lifetime.
pub struct FrameRingProducer {
    channels: usize,
    cap_frames: usize,
    producer: rtrb::Producer<u32>,
}

/// The read endpoint of a frame ring: pops whole interleaved frames from the
/// shared sample queue and never blocks.
pub struct FrameRingConsumer {
    channels: usize,
    cap_frames: usize,
    consumer: rtrb::Consumer<u32>,
}

/// Frames a push accepts: all of them when they fit into the free capacity,
/// else exactly the free capacity.
pub open spec fn spec_accepted_frames(want: nat, buffered: nat, cap_frames: nat) -> nat {
    if want <= cap_frames - buffered {
        want
    } else {
        (cap_frames - buffered) as nat
    }
}

/// Frames a pop returns: none when the destination cannot hold the request,
/// else the request capped at what is available.
pub open spec fn spec_popped_frames(want: nat, buffered: nat, out_len: nat, channels: nat) -> nat
    recommends
        channels >= 1,
{
    if channels == 0 {
        0
    } else if out_len / channels < want {
        0
    } else if want <= buffered {
        want
    } else {
        buffered
    }
}

impl FrameRingProducer {
    /// The interleaved samples currently buffered in the ring this endpoint
    /// writes into, oldest first. The matching consumer, on its own thread,
    /// removes samples from the front of this view at any time.
    pub closed spec fn view_samples(self) -> Seq<u32> {
        prod_pending(&self.producer)
    }

    pub closed spec fn spec_channels(self) -> nat {
        self.channels as nat
    }

    pub closed spec fn spec_capacity_frames(self) -> nat {
        self.cap_frames as nat
    }

    /// Whole frames currently buffered.
    pub open spec fn buffered_frames(self) -> nat {
        self.view_samples().len() / self.spec_channels()
    }

    pub closed spec fn wf(self) -> bool {
        &&& self.channels >= 1
        &&& self.cap_frames * self.channels <= usize::MAX
        &&& prod_capacity(&self.producer) == self.cap_frames * self.channels
        &&& self.view_samples().len() <= self.cap_frames * self.channels
    }

    /// Frames of free capacity around the moment of the call: at least the
    /// prior view's free frames (the consumer can only make room), at most
    /// the free frames of the view at return. Instantaneous, racy-but-safe
    /// observability, for diagnostics only.
    pub fn available_frames(&mut self) -> (r: usize)
        requires
            old(self).wf(),
        ensures
            final(self).wf(),
            final(self).spec_channels() == old(self).spec_channels(),
            final(self).spec_capacity_frames() == old(self).spec_capacity_frames(),
            exists|d: int|
                0 <= d <= old(self).view_samples().len() && final(self).view_samples() == old(
                    self,
                ).view_samples().skip(d),
            final(self).buffered_frames() + r as nat <= final(self).spec_capacity_frames(),
            old(self).view_samples().len() % old(self).spec_channels() == 0 ==> r as nat
                >= old(self).spec_capacity_frames() - old(self).buffered_frames(),
    {
        let ghost pre = self.view_samples();
        let ch = self.channels;
        let cap = self.cap_frames;
        let slots = rb_write_slots(&mut self.producer);
        proof {
            lemma_free_frames_bounds(self.view_samples().len(), cap as nat, ch as nat);
            vstd::arithmetic::div_mod::lemma_div_is_ordered(
                slots as int,
                cap * ch - self.view_samples().len(),
                ch as int,
            );
            if pre.len() % (ch as nat) == 0 {
                lemma_free_slots_to_frames(pre.len(), cap as nat, ch as nat);
                vstd::arithmetic::div_mod::lemma_div_is_ordered(
                    cap * ch - pre.len(),
                    slots as int,
                    ch as int,
                );
            }
        }
        slots / ch
    }

    /// Frames currently occupied: the capacity less the free capacity. At
    /// most the prior view's occupancy (the consumer only drains), at least
    /// the occupancy of the view at return.
    pub fn usage(&mut self) -> (r: usize)
        requires
            old(self).wf(),
        ensures
            final(self).wf(),
            final(self).spec_channels() == old(self).spec_channels(),
            final(self).spec_capacity_frames() == old(self).spec_capacity_frames(),
            exists|d: int|
                0 <= d <= old(self).view_samples().len() && final(self).view_samples() == old(
                    self,
                ).view_samples().skip(d),
            r as nat >= final(self).buffered_frames(),
            r as nat <= final(self).spec_capacity_frames(),
            old(self).view_samples().len() % old(self).spec_channels() == 0 ==> r as nat
                <= old(self).buffered_frames(),
    {
        proof {
            lemma_free_frames_bounds(
                old(self).view_samples().len(),
                self.cap_frames as nat,
                self.channels as nat,
            );
        }
        let free = self.available_frames();
        proof {
            lemma_free_frames_bounds(
                self.view_samples().len(),
                self.cap_frames as nat,
                self.channels as nat,
            );
        }
        self.cap_frames - free
    }

    /// Copies as many leading whole frames of `samples` as fit into the free
    /// capacity seen at entry, in order; the excess is silently dropped. The
    /// producer runs on a real-time thread and must not stall, so data loss
    /// under sustained overrun is the accepted degradation, not an error.
    /// This endpoint never overwrites buffered samples: the final view is
    /// the prior view followed by exactly the accepted frames, less a front
    /// segment the consumer drained meanwhile. When the prior view is
    /// frame-aligned and shows room for the whole block, all of it is
    /// accepted.
    pub fn push(&mut self, samples: &Vec<u32>) -> (accepted: usize)
        requires
            old(self).wf(),
            samples@.len() % old(self).spec_channels() == 0,
        ensures
            final(self).wf(),
            final(self).spec_channels() == old(self).spec_channels(),
            final(self).spec_capacity_frames() == old(self).spec_capacity_frames(),
            accepted as nat <= samples@.len() / old(self).spec_channels(),
            old(self).view_samples().len() % old(self).spec_channels() == 0 && samples@.len()
                / old(self).spec_channels() + old(self).buffered_frames() <= old(
                self,
            ).spec_capacity_frames() ==> accepted as nat == samples@.len() / old(
                self,
            ).spec_channels(),
            exists|d: int|
                #![trigger (old(self).view_samples() + samples@.take(
                    (accepted * old(self).spec_channels()) as int,
                )).skip(d)]
                final_view_is_truncation(
                    final(self).view_samples(),
                    old(self).view_samples(),
                    samples@.take((accepted * old(self).spec_channels()) as int),
                    d,
                ),
    {
        let ghost pre = self.view_samples();
        let ch = self.channels;
        let cap = self.cap_frames;
        let slots = rb_write_slots(&mut self.producer);
        let ghost d0 = choose|d: int|
            0 <= d <= pre.len() && self.view_samples() == pre.skip(d);
        let ghost base = self.view_samples();
        let free_frames = slots / ch;
        let want = samples.len() / ch;
        let n = if want <= free_frames {
            want
        } else {
            free_frames
        };
        proof {
            lemma_div_mul_le(samples@.len(), ch as nat);
            lemma_div_mul_le(slots as nat, ch as nat);
            vstd::arithmetic::mul::lemma_mul_inequality(n as int, want as int, ch as int);
            vstd::arithmetic::mul::lemma_mul_inequality(n as int, free_frames as int, ch as int);
        }
        let total = n * ch;
        let ghost mut dacc: int = 0;
        proof {
            assert(base + samples@.take(0) =~= base);
            assert(base.skip(0) =~= base);
            assert((base + samples@.take(0)).skip(0) =~= base);
        }
        let mut i: usize = 0;
        while i < total
            invariant
                self.channels == ch,
                self.cap_frames == cap,
                ch >= 1,
                cap * ch <= usize::MAX,
                prod_capacity(&self.producer) == cap * ch,
                i <= total,
                total == n * ch,
                total <= samples@.len(),
                total as nat <= slots,
                base.len() + slots <= cap * ch,
                0 <= dacc <= base.len() + i,
                self.view_samples() == (base + samples@.take(i as int)).skip(dacc),
            decreases total - i,
        {
            let ghost prev = self.view_samples();
            proof {
                assert(prev.len() == base.len() + i - dacc);
            }
            let ok = rb_push(&mut self.producer, samples[i]);
            proof {
                let v = samples@[i as int];
                let d2 = choose|d: int|
                    0 <= d <= prev.len() + 1 && self.view_samples() == prev.push(v).skip(d);
                lemma_push_skip_commute(base + samples@.take(i as int), dacc, v);
                assert((base + samples@.take(i as int)).push(v) =~= base + samples@.take(
                    i as int + 1,
                ));
                lemma_skip_of_skip(base + samples@.take(i as int + 1), dacc, d2);
                dacc = dacc + d2;
            }
            i = i + 1;
        }
        proof {
            lemma_skip_add_commute(pre, d0, samples@.take(total as int));
            lemma_skip_of_skip(pre + samples@.take(total as int), d0, dacc);
            assert(final_view_is_truncation(
                self.view_samples(),
                pre,
                samples@.take(total as int),
                d0 + dacc,
            ));
            if pre.len() % (ch as nat) == 0 && want as nat + pre.len() / (ch as nat)
                <= cap as nat {
                lemma_free_slots_to_frames(pre.len(), cap as nat, ch as nat);
                vstd::arithmetic::div_mod::lemma_div_is_ordered(
                    cap * ch - pre.len(),
                    slots as int,
                    ch as int,
                );
            }
        }
        n
    }
}

/// The suffix relation the producer's contract quantifies over: the view
/// after a push is the prior view plus the appended samples, less a front
/// segment.
pub open spec fn final_view_is_truncation(
    v: Seq<u32>,
    pre: Seq<u32>,
    appended: Seq<u32>,
    d: int,
) -> bool {
    0 <= d <= pre.len() + appended.len() && v == (pre + appended).skip(d)
}

impl FrameRingConsumer {
    /// The interleaved samples currently readable through this endpoint,
    /// oldest first. The matching producer, on its own thread, appends
    /// samples to the back of this view at any time.
    pub closed spec fn view_samples(self) -> Seq<u32> {
        cons_pending(&self.consumer)
    }

    pub closed spec fn spec_channels(self) -> nat {
        self.channels as nat
    }

    pub closed spec fn spec_capacity_frames(self) -> nat {
        self.cap_frames as nat
    }

    /// Whole frames currently readable.
    pub open spec fn buffered_frames(self) -> nat {
        self.view_samples().len() / self.spec_channels()
    }

    pub closed spec fn wf(self) -> bool {
        &&& self.channels >= 1
        &&& self.cap_frames * self.channels <= usize::MAX
        &&& cons_capacity(&self.consumer) == self.cap_frames * self.channels
        &&& self.view_samples().len() <= self.cap_frames * self.channels
    }

    /// Frames available for reading around the moment of the call: at least
    /// the prior view's frames (the producer only adds), at most the frames
    /// of the view at return, and never above the capacity. Instantaneous,
    /// racy-but-safe observability, for diagnostics only.
    pub fn available_frames(&mut self) -> (r: usize)
        requires
            old(self).wf(),
        ensures
            final(self).wf(),
            final(self).spec_channels() == old(self).spec_channels(),
            final(self).spec_capacity_frames() == old(self).spec_capacity_frames(),
            exists|s: Seq<u32>|
                final(self).view_samples() == old(self).view_samples() + s,
            old(self).buffered_frames() <= r as nat,
            r as nat <= final(self).buffered_frames(),
            r as nat <= final(self).spec_capacity_frames(),
    {
        let ghost pre = self.view_samples();
        let ch = self.channels;
        let cap = self.cap_frames;
        let slots = rb_read_slots(&mut self.consumer);
        proof {
            vstd::arithmetic::div_mod::lemma_div_is_ordered(
                pre.len() as int,
                slots as int,
                ch as int,
            );
            vstd::arithmetic::div_mod::lemma_div_is_ordered(
                slots as int,
                self.view_samples().len() as int,
                ch as int,
            );
            vstd::arithmetic::div_mod::lemma_div_is_ordered(
                slots as int,
                cap * ch,
                ch as int,
            );
            vstd::arithmetic::div_mod::lemma_div_multiples_vanish(cap as int, ch as int);
        }
        slots / ch
    }

    /// Copies up to `frames` whole frames into the front of `out`, in the
    /// order they were pushed, and returns how many frames were copied:
    /// fewer than requested, possibly zero, when less data is available.
    /// Either a whole frame is copied or none of it, so the copied sample
    /// count is always an exact multiple of the channel count. If `out`
    /// cannot hold `frames` whole frames nothing is copied; samples of
    /// `out` beyond the copied region are left untouched. What comes out is
    /// the oldest prefix of the prior view, extended by whatever the
    /// producer appended meanwhile; an underrun (nothing available) is a
    /// normal state, not an error, and a request covered by the prior view
    /// is filled completely.
    pub fn pop_into(&mut self, frames: usize, out: &mut Vec<u32>) -> (got: usize)
        requires
            old(self).wf(),
        ensures
            final(self).wf(),
            final(self).spec_channels() == old(self).spec_channels(),
            final(self).spec_capacity_frames() == old(self).spec_capacity_frames(),
            final(out)@.len() == old(out)@.len(),
            got as nat <= frames as nat,
            old(out)@.len() / old(self).spec_channels() < frames as nat ==> got == 0,
            old(out)@.len() / old(self).spec_channels() >= frames as nat && frames as nat
                <= old(self).buffered_frames() ==> got as nat == frames as nat,
            exists|s: Seq<u32>|
                popped_from_grown(
                    old(self).view_samples() + s,
                    final(self).view_samples(),
                    final(out)@,
                    old(out)@,
                    (got * old(self).spec_channels()) as int,
                ),
    {
        let ghost pre = self.view_samples();
        let ch = self.channels;
        let cap = self.cap_frames;
        if out.len() / ch < frames {
            proof {
                assert(out@ =~= pre.take(0) + old(out)@.skip(0));
                assert(self.view_samples() =~= pre.skip(0));
                assert(pre + Seq::<u32>::empty() =~= pre);
                assert(popped_from_grown(
                    pre + Seq::<u32>::empty(),
                    self.view_samples(),
                    out@,
                    old(out)@,
                    0,
                ));
            }
            return 0;
        }
        let avail = rb_read_slots(&mut self.consumer);
        let ghost s0 = choose|s: Seq<u32>| self.view_samples() == pre + s;
        let ghost base = self.view_samples();
        let avail_frames = avail / ch;
        let n = if frames <= avail_frames {
            frames
        } else {
            avail_frames
        };
        proof {
            lemma_div_mul_le(out@.len(), ch as nat);
            vstd::arithmetic::mul::lemma_mul_inequality(
                n as int,
                (out@.len() / ch as nat) as int,
                ch as int,
            );
            vstd::arithmetic::mul::lemma_mul_inequality(n as int, avail_frames as int, ch as int);
            lemma_div_mul_le(avail as nat, ch as nat);
        }
        let total = n * ch;
        let ghost mut grown_tail: Seq<u32> = Seq::empty();
        proof {
            assert(base + grown_tail =~= base);
            assert(out@ =~= (base + grown_tail).take(0) + old(out)@.skip(0));
            assert(self.view_samples() =~= (base + grown_tail).skip(0));
        }
        let mut i: usize = 0;
        while i < total
            invariant
                self.channels == ch,
                self.cap_frames == cap,
                ch >= 1,
                cap * ch <= usize::MAX,
                cons_capacity(&self.consumer) == cap * ch,
                i <= total,
                total == n * ch,
                total as nat <= avail,
                avail as nat <= base.len(),
                total <= out@.len(),
                out@.len() == old(out)@.len(),
                self.view_samples() == (base + grown_tail).skip(i as int),
                self.view_samples().len() <= cap * ch,
                out@ == (base + grown_tail).take(i as int) + old(out)@.skip(i as int),
            decreases total - i,
        {
            let ghost prev = self.view_samples();
            proof {
                assert(prev.len() == base.len() + grown_tail.len() - i);
            }
            let v = rb_pop(&mut self.consumer);
            let x = v.unwrap();
            out[i] = x;
            proof {
                let s2 = choose|s2: Seq<u32>|
                    (prev + s2).len() > 0 && x == (prev + s2).first() && self.view_samples() == (
                    prev + s2).drop_first();
                lemma_skip_add_commute(base + grown_tail, i as int, s2);
                assert(base + grown_tail + s2 =~= base + (grown_tail + s2));
                assert((base + (grown_tail + s2)).skip(i as int).drop_first() =~= (base
                    + (grown_tail + s2)).skip(i as int + 1));
                assert(x == (base + (grown_tail + s2))[i as int]);
                assert((base + (grown_tail + s2)).take(i as int) =~= (base + grown_tail).take(
                    i as int,
                ));
                grown_tail = grown_tail + s2;
                assert(out@ =~= (base + grown_tail).take(i as int + 1) + old(out)@.skip(
                    i as int + 1,
                ));
            }
            i = i + 1;
        }
        proof {
            assert(base + grown_tail =~= pre + (s0 + grown_tail));
            assert(popped_from_grown(
                pre + (s0 + grown_tail),
                self.view_samples(),
                out@,
                old(out)@,
                total as int,
            ));
            vstd::arithmetic::div_mod::lemma_div_is_ordered(
                pre.len() as int,
                avail as int,
                ch as int,
            );
        }
        n
    }

    /// The playback read: pops up to `frames` whole frames and returns a
    /// buffer of exactly `frames` whole frames, the shortfall filled with
    /// silence (zero samples), never with stale data; also returns how many
    /// frames were actually read. An empty ring yields an all-zero block.
    pub fn pop_padded(&mut self, frames: usize) -> (r: (Vec<u32>, usize))
        requires
            old(self).wf(),
            frames * old(self).spec_channels() <= usize::MAX,
        ensures
            final(self).wf(),
            final(self).spec_channels() == old(self).spec_channels(),
            final(self).spec_capacity_frames() == old(self).spec_capacity_frames(),
            r.1 as nat <= frames as nat,
            frames as nat <= old(self).buffered_frames() ==> r.1 as nat == frames as nat,
            r.0@.len() == frames * old(self).spec_channels(),
            exists|s: Seq<u32>|
                padded_block_from_grown(
                    old(self).view_samples() + s,
                    final(self).view_samples(),
                    r.0@,
                    (r.1 * old(self).spec_channels()) as int,
                ),
            forall|j: int|
                r.1 * old(self).spec_channels() <= j < r.0@.len() ==> r.0@[j] == 0u32,
    {
        let ghost pre = self.view_samples();
        let ch = self.channels;
        let total = frames * ch;
        let mut out: Vec<u32> = Vec::new();
        while out.len() < total
            invariant
                out@.len() <= total,
                forall|j: int| 0 <= j < out@.len() ==> out@[j] == 0u32,
            decreases total - out@.len(),
        {
            out.push(0);
        }
        proof {
            vstd::arithmetic::div_mod::lemma_fundamental_div_mod_converse(
                total as int,
                ch as int,
                frames as int,
                0,
            );
        }
        let ghost zeros = out@;
        let got = self.pop_into(frames, &mut out);
        proof {
            let s = choose|s: Seq<u32>|
                popped_from_grown(
                    pre + s,
                    self.view_samples(),
                    out@,
                    zeros,
                    (got * ch) as int,
                );
            assert(out@.take((got * ch) as int) =~= (pre + s).take((got * ch) as int));
            assert(popped_from_grown(pre + s, self.view_samples(), out@, zeros, (got * ch) as int));
        }
        (out, got)
    }
}

/// The pop relation under one-sided interference: the value removed is the
/// head of the prior view extended at the back by `s`, and what remains is
/// that grown view without its head.
pub open spec fn popped_head(pre: Seq<u32>, post: Seq<u32>, v: u32, s: Seq<u32>) -> bool {
    &&& (pre + s).len() > 0
    &&& v == (pre + s).first()
    &&& post == (pre + s).drop_first()
}

/// The relation the consumer's contracts quantify over: the destination
/// holds the oldest `k` samples of the grown view (the prior view extended
/// at the back by the producer), the rest of the destination is untouched,
/// and the view that remains is the grown view less that prefix.
pub open spec fn popped_from_grown(
    grown: Seq<u32>,
    remaining: Seq<u32>,
    dst: Seq<u32>,
    dst_before: Seq<u32>,
    k: int,
) -> bool {
    &&& 0 <= k <= grown.len()
    &&& dst == grown.take(k) + dst_before.skip(k)
    &&& remaining == grown.skip(k)
}

/// The relation the playback read's contract quantifies over: the front of
/// the returned block is the oldest prefix of the grown view (the prior
/// view extended at the back by the producer), and the view that remains is
/// the grown view less that prefix.
pub open spec fn padded_block_from_grown(
    grown: Seq<u32>,
    remaining: Seq<u32>,
    dst: Seq<u32>,
    k: int,
) -> bool {
    &&& 0 <= k <= grown.len()
    &&& dst.take(k) == grown.take(k)
    &&& remaining == grown.skip(k)
}

/// A fresh pair of frame-ring endpoints over one shared, empty sample queue
/// of `capacity` frames of `channels` samples each. The producer may then be
/// moved to the writing thread and the consumer to the reading thread; each
/// side is owned by exactly one thread for the ring's lifetime.
pub fn new_framering(
    channels: usize,
    capacity: usize,
) -> (r: (FrameRingProducer, FrameRingConsumer))
    requires
        1 <= channels,
        capacity * channels <= usize::MAX,
    ensures
        r.0.wf() && r.1.wf(),
        r.0.spec_channels() == channels && r.1.spec_channels() == channels,
        r.0.spec_capacity_frames() == capacity && r.1.spec_capacity_frames() == capacity,
        r.0.view_samples() == Seq::<u32>::empty(),
        r.1.view_samples() == Seq::<u32>::empty(),
{
    let (producer, consumer) = rb_new(capacity * channels);
    (
        FrameRingProducer { channels, cap_frames: capacity, producer },
        FrameRingConsumer { channels, cap_frames: capacity, consumer },
    )
}

/// What a well-formed producer endpoint guarantees, for callers outside
/// this module: at least one channel, and a buffer within capacity.
pub proof fn lemma_producer_wf_facts(p: FrameRingProducer)
    requires
        p.wf(),
    ensures
        p.spec_channels() >= 1,
        p.view_samples().len() <= p.spec_capacity_frames() * p.spec_channels(),
        p.buffered_frames() <= p.spec_capacity_frames(),
{
    lemma_free_frames_bounds(
        p.view_samples().len(),
        p.spec_capacity_frames(),
        p.spec_channels(),
    );
}

/// What a well-formed consumer endpoint guarantees, for callers outside
/// this module: at least one channel, and a buffer within capacity.
pub proof fn lemma_consumer_wf_facts(c: FrameRingConsumer)
    requires
        c.wf(),
    ensures
        c.spec_channels() >= 1,
        c.view_samples().len() <= c.spec_capacity_frames() * c.spec_channels(),
        c.buffered_frames() <= c.spec_capacity_frames(),
{
    lemma_free_frames_bounds(
        c.view_samples().len(),
        c.spec_capacity_frames(),
        c.spec_channels(),
    );
}

/// Free slots counted in whole frames never exceed the whole-frame free
/// capacity, the occupancy in whole frames never exceeds the capacity, and
/// when the occupancy is frame-aligned the free frame count is exact.
pub proof fn lemma_free_frames_bounds(len: nat, cap_frames: nat, ch: nat)
    requires
        ch >= 1,
        len <= cap_frames * ch,
    ensures
        (cap_frames * ch - len) / (ch as int) + len / ch <= cap_frames,
        len / ch <= cap_frames,
        len % ch == 0 ==> (cap_frames * ch - len) / (ch as int) + len / ch == cap_frames,
{
    vstd::arithmetic::div_mod::lemma_fundamental_div_mod(len as int, ch as int);
    let q = len as int / ch as int;
    let rr = len as int % ch as int;
    assert(q <= cap_frames) by (nonlinear_arith)
        requires
            ch >= 1,
            len as int == ch * q + rr,
            rr >= 0,
            len <= cap_frames * ch,
    ;
    if rr == 0 {
        assert(cap_frames * ch - len == (cap_frames - q) * ch + 0) by (nonlinear_arith)
            requires
                len as int == ch * q,
        ;
        vstd::arithmetic::div_mod::lemma_fundamental_div_mod_converse(
            cap_frames * ch - len,
            ch as int,
            cap_frames - q,
            0,
        );
    } else {
        assert(q < cap_frames) by (nonlinear_arith)
            requires
                ch >= 1,
                len as int == ch * q + rr,
                0 < rr < ch,
                len <= cap_frames * ch,
        ;
        assert(cap_frames * ch - len == (cap_frames - q - 1) * ch + (ch - rr)) by (nonlinear_arith)
            requires
                len as int == ch * q + rr,
        ;
        vstd::arithmetic::div_mod::lemma_fundamental_div_mod_converse(
            cap_frames * ch - len,
            ch as int,
            cap_frames - q - 1,
            ch as int - rr,
        );
    }
}

/// Dropping a front segment commutes with appending one value at the back.
pub proof fn lemma_push_skip_commute(a: Seq<u32>, k: int, v: u32)
    requires
        0 <= k <= a.len(),
    ensures
        a.skip(k).push(v) == a.push(v).skip(k),
{
    assert(a.skip(k).push(v) =~= a.push(v).skip(k));
}

/// Dropping a front segment twice is dropping the combined segment once.
pub proof fn lemma_skip_of_skip(a: Seq<u32>, k1: int, k2: int)
    requires
        0 <= k1,
        0 <= k2,
        k1 + k2 <= a.len(),
    ensures
        a.skip(k1).skip(k2) == a.skip(k1 + k2),
{
    assert(a.skip(k1).skip(k2) =~= a.skip(k1 + k2));
}

/// Dropping a front segment commutes with appending a sequence at the back.
pub proof fn lemma_skip_add_commute(a: Seq<u32>, k: int, b: Seq<u32>)
    requires
        0 <= k <= a.len(),
    ensures
        a.skip(k) + b == (a + b).skip(k),
{
    assert(a.skip(k) + b =~= (a + b).skip(k));
}

/// A frame-aligned sample count divides out exactly: `(x / ch) * ch == x`.
pub proof fn lemma_aligned_div_exact(x: nat, ch: nat)
    requires
        ch >= 1,
        x % ch == 0,
    ensures
        (x / ch) * ch == x,
{
    vstd::arithmetic::div_mod::lemma_fundamental_div_mod(x as int, ch as int);
    assert((x / ch) * ch == x) by (nonlinear_arith)
        requires
            ch >= 1,
            x % ch == 0,
            x as int == ch as int * (x as int / ch as int) + x as int % ch as int,
    ;
}

/// Dividing first never overshoots: `(x / ch) * ch <= x`.
pub proof fn lemma_div_mul_le(x: nat, ch: nat)
    requires
        ch >= 1,
    ensures
        (x / ch) * ch <= x,
{
    vstd::arithmetic::div_mod::lemma_fundamental_div_mod(x as int, ch as int);
    assert((x / ch) * ch <= x) by (nonlinear_arith)
        requires
            ch >= 1,
            x as int == ch as int * (x as int / ch as int) + x as int % ch as int,
            x as int % ch as int >= 0,
    ;
}

/// With `len` frame-aligned samples buffered out of `cap_frames * ch`, the
/// free slot count is a whole number of frames: dividing it by the channel
/// count gives exactly the free frame count, and the buffered frame count is
/// at most the capacity.
pub proof fn lemma_free_slots_to_frames(len: nat, cap_frames: nat, ch: nat)
    requires
        ch >= 1,
        len % ch == 0,
        len <= cap_frames * ch,
    ensures
        (cap_frames * ch - len) % (ch as int) == 0,
        (cap_frames * ch - len) / (ch as int) == cap_frames - len / ch,
        len / ch <= cap_frames,
        (cap_frames - (cap_frames - len / ch) as nat) == len / ch,
{
    vstd::arithmetic::div_mod::lemma_fundamental_div_mod(len as int, ch as int);
    assert(len / ch <= cap_frames) by (nonlinear_arith)
        requires
            ch >= 1,
            len == ch * (len / ch),
            len <= cap_frames * ch,
    ;
    assert(cap_frames * ch - len == (cap_frames - len / ch) * ch + 0) by (nonlinear_arith)
        requires
            len == ch * (len / ch),
    ;
    vstd::arithmetic::div_mod::lemma_fundamental_div_mod_converse(
        cap_frames * ch - len,
        ch as int,
        cap_frames - len / ch,
        0,
    );
}

/// Appending `n` whole frames to a frame-aligned buffer keeps it aligned.
pub proof fn lemma_append_frames_aligned(len: nat, n: nat, ch: nat)
    requires
        ch >= 1,
        len % ch == 0,
    ensures
        (len + n * ch) as int % (ch as int) == 0,
{
    vstd::arithmetic::div_mod::lemma_fundamental_div_mod(len as int, ch as int);
    assert(len + n * ch == (len / ch + n) * ch + 0) by (nonlinear_arith)
        requires
            len == ch * (len / ch),
    ;
    vstd::arithmetic::div_mod::lemma_fundamental_div_mod_converse(
        (len + n * ch) as int,
        ch as int,
        (len / ch + n) as int,
        0,
    );
}

/// Removing `n` whole frames from the front of a frame-aligned buffer keeps
/// it aligned.
pub proof fn lemma_remove_frames_aligned(len: nat, n: nat, ch: nat)
    requires
        ch >= 1,
        len % ch == 0,
        n * ch <= len,
    ensures
        (len - n * ch) % (ch as int) == 0,
{
    vstd::arithmetic::div_mod::lemma_fundamental_div_mod(len as int, ch as int);
    assert(len - n * ch == (len / ch - n) * ch + 0) by (nonlinear_arith)
        requires
            len == ch * (len / ch),
            n * ch <= len,
    ;
    vstd::arithmetic::div_mod::lemma_fundamental_div_mod_converse(
        len - n * ch,
        ch as int,
        len / ch - n,
        0,
    );
}

} // verus!
