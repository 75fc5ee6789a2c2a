use audio_bridge::ring::FrameRing;
use audio_bridge::spsc::new_framering;

#[test]
fn fifo_order_preserved() {
    // Frames pushed with sufficient capacity and no intervening pops come
    // back in the same order, bit-identical.
    let mut ring = FrameRing::new(2, 16);
    assert_eq!(ring.channels(), 2);
    assert_eq!(ring.capacity_frames(), 16);
    let frames: Vec<u32> = (0..20u32).collect();
    let accepted = ring.push(&frames);
    assert_eq!(accepted, 10);
    let mut out = vec![0u32; 20];
    let got = ring.pop_into(10, &mut out);
    assert_eq!(got, 10);
    assert_eq!(out, frames);
}

#[test]
fn fifo_order_across_batches() {
    let mut ring = FrameRing::new(1, 8);
    assert_eq!(ring.push(&vec![1, 2, 3]), 3);
    assert_eq!(ring.push(&vec![4, 5]), 2);
    let mut out = vec![0u32; 5];
    assert_eq!(ring.pop_into(5, &mut out), 5);
    assert_eq!(out, vec![1, 2, 3, 4, 5]);
}

#[test]
fn backpressure_accepts_exactly_free_frames() {
    // Pushing more frames than free capacity accepts exactly the free
    // capacity, the earliest-fitting subset.
    let mut ring = FrameRing::new(2, 4);
    let first: Vec<u32> = vec![10, 11, 20, 21];
    assert_eq!(ring.push(&first), 2);
    let second: Vec<u32> = vec![30, 31, 40, 41, 50, 51];
    // Only 2 frames free: exactly 2 of the 3 offered are accepted.
    assert_eq!(ring.push(&second), 2);
    assert_eq!(ring.available_frames(), 4);
    assert_eq!(ring.free_frames(), 0);
    // A further push accepts nothing.
    assert_eq!(ring.push(&vec![60, 61]), 0);
    // Previously-unread data is never corrupted.
    let mut out = vec![0u32; 8];
    assert_eq!(ring.pop_into(4, &mut out), 4);
    assert_eq!(out, vec![10, 11, 20, 21, 30, 31, 40, 41]);
}

#[test]
fn pop_is_frame_atomic() {
    // The returned sample count is always a whole multiple of the channel
    // count: asking for more frames than available yields whole frames only.
    let mut ring = FrameRing::new(3, 8);
    let frames: Vec<u32> = (0..6u32).collect();
    assert_eq!(ring.push(&frames), 2);
    let mut out = vec![99u32; 15];
    let got = ring.pop_into(5, &mut out);
    assert_eq!(got, 2);
    assert_eq!((got * 3) % 3, 0);
    assert_eq!(&out[..6], &[0, 1, 2, 3, 4, 5]);
    // Samples beyond the copied region are untouched.
    assert!(out[6..].iter().all(|&s| s == 99));
}

#[test]
fn pop_into_too_small_buffer_copies_nothing() {
    let mut ring = FrameRing::new(2, 8);
    assert_eq!(ring.push(&vec![1, 2, 3, 4]), 2);
    let mut out = vec![7u32; 3];
    // Three samples cannot hold two whole frames of two channels.
    assert_eq!(ring.pop_into(2, &mut out), 0);
    assert_eq!(out, vec![7, 7, 7]);
    assert_eq!(ring.available_frames(), 2);
}

#[test]
fn silence_on_underrun() {
    // Requesting frames from an empty ring returns zero frames and leaves
    // the caller's buffer untouched.
    let mut ring = FrameRing::new(2, 8);
    let mut out = vec![0xDEADu32; 8];
    assert_eq!(ring.pop_into(4, &mut out), 0);
    assert!(out.iter().all(|&s| s == 0xDEAD));
}

#[test]
fn pop_padded_fills_shortfall_with_silence() {
    let mut ring = FrameRing::new(2, 8);
    assert_eq!(ring.push(&vec![5, 6]), 1);
    let (block, got) = ring.pop_padded(3);
    assert_eq!(got, 1);
    assert_eq!(block.len(), 6);
    assert_eq!(&block[..2], &[5, 6]);
    // The shortfall is zero words: the bit pattern of silence.
    assert!(block[2..].iter().all(|&s| s == 0));
}

#[test]
fn pop_padded_from_empty_ring_is_all_silence() {
    let mut ring = FrameRing::new(2, 8);
    let (block, got) = ring.pop_padded(4);
    assert_eq!(got, 0);
    assert_eq!(block.len(), 8);
    assert!(block.iter().all(|&s| s == 0));
}

#[test]
fn split_endpoints_carry_frames_in_order() {
    // The same discipline holds through the two split endpoints over the
    // shared lock-free queue.
    let (mut producer, mut consumer) = new_framering(2, 8);
    assert_eq!(producer.available_frames(), 8);
    assert_eq!(producer.usage(), 0);
    let frames: Vec<u32> = vec![100, 101, 200, 201, 300, 301];
    assert_eq!(producer.push(&frames), 3);
    assert_eq!(producer.available_frames(), 5);
    assert_eq!(producer.usage(), 3);
    assert_eq!(consumer.available_frames(), 3);
    let mut out = vec![0u32; 6];
    assert_eq!(consumer.pop_into(3, &mut out), 3);
    assert_eq!(out, frames);
    assert_eq!(consumer.available_frames(), 0);
    assert_eq!(producer.available_frames(), 8);
}

#[test]
fn split_endpoints_drop_excess_on_overrun() {
    let (mut producer, mut consumer) = new_framering(1, 4);
    let frames: Vec<u32> = (0..6u32).collect();
    assert_eq!(producer.push(&frames), 4);
    assert_eq!(producer.push(&vec![9]), 0);
    let mut out = vec![0u32; 4];
    assert_eq!(consumer.pop_into(4, &mut out), 4);
    assert_eq!(out, vec![0, 1, 2, 3]);
}

#[test]
fn split_endpoints_interleave_push_and_pop() {
    let (mut producer, mut consumer) = new_framering(1, 4);
    assert_eq!(producer.push(&vec![1, 2, 3, 4]), 4);
    let mut out = vec![0u32; 2];
    assert_eq!(consumer.pop_into(2, &mut out), 2);
    assert_eq!(out, vec![1, 2]);
    assert_eq!(producer.push(&vec![5, 6]), 2);
    let mut out2 = vec![0u32; 4];
    assert_eq!(consumer.pop_into(4, &mut out2), 4);
    assert_eq!(out2, vec![3, 4, 5, 6]);
}
