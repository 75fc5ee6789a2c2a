//! The capture normalizer's verified core: per-channel format validation,
//! interleaving of the driver's per-channel buffers into frames, and the
//! push into the capture ring.
//!
//! The numeric conversion of each raw sample to a normalized float32 is
//! floating-point work done by the thin driver adapter; what arrives here is
//! one buffer of 32-bit sample words per channel, all of one callback's
//! block length. This module owns everything after that: that every channel
//! was announced in a supported encoding, that sample `i` of channel `c`
//! lands at interleaved position `i * channels + c`, and that the block goes
//! into the ring whole frames at a time.

use crate::format::CaptureFormat;
use crate::spsc::FrameRingProducer;
use vstd::prelude::*;

verus! {

/// Checks the per-channel sample-type tags a capture driver announced
/// against the supported set. Returns the decoded formats, or the index of
/// the first channel whose encoding is unsupported: that is a fatal
/// configuration error, reported once at setup, and the stream must then
/// emit nothing rather than garbage samples.
pub fn check_formats(tags: &Vec<i32>) -> (r: Result<Vec<CaptureFormat>, usize>)
    ensures
        r is Ok <==> (forall|c: int|
            0 <= c < tags@.len() ==> CaptureFormat::spec_from_driver_tag(#[trigger] tags@[c])
                is Some),
        r matches Ok(fmts) ==> fmts@.len() == tags@.len() && (forall|c: int|
            0 <= c < tags@.len() ==> Some(#[trigger] fmts@[c])
                == CaptureFormat::spec_from_driver_tag(tags@[c])),
        r matches Err(bad) ==> bad < tags@.len()
            && CaptureFormat::spec_from_driver_tag(tags@[bad as int]) is None && (forall|c: int|
            0 <= c < bad ==> CaptureFormat::spec_from_driver_tag(#[trigger] tags@[c]) is Some),
{
    let mut fmts: Vec<CaptureFormat> = Vec::new();
    let mut c: usize = 0;
    while c < tags.len()
        invariant
            c <= tags@.len(),
            fmts@.len() == c,
            forall|j: int|
                0 <= j < c ==> Some(#[trigger] fmts@[j]) == CaptureFormat::spec_from_driver_tag(
                    tags@[j],
                ),
        decreases tags@.len() - c,
    {
        match CaptureFormat::from_driver_tag(tags[c]) {
            Some(f) => fmts.push(f),
            None => {
                proof {
                    assert forall|j: int|
                        0 <= j < c implies CaptureFormat::spec_from_driver_tag(
                        #[trigger] tags@[j],
                    ) is Some by {
                        assert(Some(fmts@[j]) == CaptureFormat::spec_from_driver_tag(tags@[j]));
                    }
                }
                return Err(c);
            },
        }
        c = c + 1;
    }
    proof {
        assert forall|j: int|
            0 <= j < tags@.len() implies CaptureFormat::spec_from_driver_tag(
            #[trigger] tags@[j],
        ) is Some by {
            assert(Some(fmts@[j]) == CaptureFormat::spec_from_driver_tag(tags@[j]));
        }
    }
    Ok(fmts)
}

/// The interleaving of per-channel buffers as one sequence: position
/// `i * channels + c` holds sample `i` of channel `c`.
pub open spec fn spec_interleaved(chans: Seq<Vec<u32>>, frames: nat) -> Seq<u32>
    recommends
        chans.len() >= 1,
{
    Seq::new(
        frames * chans.len(),
        |k: int| chans[k % (chans.len() as int)]@[k / (chans.len() as int)],
    )
}

/// Interleaves one callback's per-channel sample words into frame order:
/// sample `i` of channel `c` lands at position `i * channels + c`, so the
/// output is `frames` whole frames of `channels` samples each.
pub fn interleave_channels(chans: &Vec<Vec<u32>>, frames: usize) -> (r: Vec<u32>)
    requires
        chans@.len() >= 1,
        forall|c: int| 0 <= c < chans@.len() ==> (#[trigger] chans@[c])@.len() == frames,
        frames * chans@.len() <= usize::MAX,
    ensures
        r@.len() == frames * chans@.len(),
        forall|i: int, c: int|
            0 <= i < frames && 0 <= c < chans@.len() ==> r@[i * chans@.len() + c] == (
            #[trigger] chans@[c]@[i]),
        r@ == spec_interleaved(chans@, frames as nat),
{
    let n = chans.len();
    let total = frames * n;
    let mut r: Vec<u32> = Vec::new();
    let mut k: usize = 0;
    while k < total
        invariant
            n == chans@.len(),
            n >= 1,
            total == frames * n,
            forall|c: int| 0 <= c < chans@.len() ==> (#[trigger] chans@[c])@.len() == frames,
            r@.len() == k,
            k <= total,
            forall|a: int, b: int|
                0 <= a && 0 <= b < n && a * n + b < k ==> r@[a * n + b] == (
                #[trigger] chans@[b]@[a]),
        decreases total - k,
    {
        proof {
            vstd::arithmetic::div_mod::lemma_fundamental_div_mod(k as int, n as int);
            vstd::arithmetic::div_mod::lemma_mod_division_less_than_divisor(k as int, n as int);
            assert((k as int) / (n as int) < frames as int) by (nonlinear_arith)
                requires
                    n >= 1,
                    (k as int) < (frames as int) * (n as int),
                    k as int == (n as int) * ((k as int) / (n as int)) + (k as int) % (n as int),
                    (k as int) % (n as int) >= 0,
            ;
        }
        let i = k / n;
        let c = k % n;
        r.push(chans[c][i]);
        proof {
            assert forall|a: int, b: int|
                0 <= a && 0 <= b < n && a * n + b < k + 1 implies r@[a * n + b] == chans@[b]@[a] by {
                if a * n + b == k {
                    vstd::arithmetic::div_mod::lemma_fundamental_div_mod_converse(
                        k as int,
                        n as int,
                        a,
                        b,
                    );
                }
            }
        }
        k = k + 1;
    }
    proof {
        assert forall|i: int, c: int|
            0 <= i < frames && 0 <= c < chans@.len() implies r@[i * (n as int) + c] == (
        #[trigger] chans@[c]@[i]) by {
            assert(i * (n as int) + c < (frames as int) * (n as int)) by (nonlinear_arith)
                requires
                    0 <= i < frames as int,
                    0 <= c < n as int,
            ;
        }
        assert forall|j: int|
            0 <= j < r@.len() implies r@[j] == spec_interleaved(chans@, frames as nat)[j] by {
            let a = j / (n as int);
            let b = j % (n as int);
            vstd::arithmetic::div_mod::lemma_fundamental_div_mod(j, n as int);
            vstd::arithmetic::div_mod::lemma_mod_division_less_than_divisor(j, n as int);
            assert(a < frames as int) by (nonlinear_arith)
                requires
                    n >= 1,
                    j < (frames as int) * (n as int),
                    j == (n as int) * a + b,
                    b >= 0,
            ;
            assert(r@[a * (n as int) + b] == chans@[b]@[a]);
        }
        assert(r@ =~= spec_interleaved(chans@, frames as nat));
    }
    r
}

/// One capture callback's verified tail: interleave the normalized
/// per-channel buffers and push the whole frames into the capture ring,
/// dropping the excess if the ring is short on space. Returns the number of
/// frames the ring accepted; the ring then holds what it held before,
/// followed by exactly the accepted prefix of the interleaved block, less
/// whatever the consumer on the other thread drained from the front
/// meanwhile. When the ring's prior view is frame-aligned and shows room
/// for the whole block, all of it is accepted.
pub fn capture_block(
    ring: &mut FrameRingProducer,
    chans: &Vec<Vec<u32>>,
    frames: usize,
) -> (accepted: usize)
    requires
        old(ring).wf(),
        chans@.len() == old(ring).spec_channels(),
        forall|c: int| 0 <= c < chans@.len() ==> (#[trigger] chans@[c])@.len() == frames,
        frames * chans@.len() <= usize::MAX,
    ensures
        final(ring).wf(),
        final(ring).spec_channels() == old(ring).spec_channels(),
        final(ring).spec_capacity_frames() == old(ring).spec_capacity_frames(),
        accepted as nat <= frames as nat,
        old(ring).view_samples().len() % old(ring).spec_channels() == 0 && frames as nat + old(
            ring,
        ).buffered_frames() <= old(ring).spec_capacity_frames() ==> accepted as nat
            == frames as nat,
        exists|d: int|
            #![trigger (old(ring).view_samples() + spec_interleaved(chans@, frames as nat).take(
                (accepted * old(ring).spec_channels()) as int,
            )).skip(d)]
            crate::spsc::final_view_is_truncation(
                final(ring).view_samples(),
                old(ring).view_samples(),
                spec_interleaved(chans@, frames as nat).take(
                    (accepted * old(ring).spec_channels()) as int,
                ),
                d,
            ),
{
    let ghost ch = ring.spec_channels();
    proof {
        crate::spsc::lemma_producer_wf_facts(*ring);
    }
    let block = interleave_channels(chans, frames);
    proof {
        vstd::arithmetic::div_mod::lemma_fundamental_div_mod_converse(
            block@.len() as int,
            ch as int,
            frames as int,
            0,
        );
    }
    ring.push(&block)
}

} // verus!
