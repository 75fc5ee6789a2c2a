use audio_bridge::capture::{capture_block, check_formats, interleave_channels};
use audio_bridge::rate::{converter_step, ConverterAction};
use audio_bridge::ring::FrameRing;
use audio_bridge::spsc::new_framering;
use audioadapter_buffers::direct::InterleavedSlice;
use rubato::{
    Async, FixedAsync, Resampler, SincInterpolationParameters, SincInterpolationType,
    WindowFunction,
};

fn words_of(samples: &[f32]) -> Vec<u32> {
    samples.iter().map(|s| s.to_bits()).collect()
}

fn samples_of(words: &[u32]) -> Vec<f32> {
    words.iter().map(|&w| f32::from_bits(w)).collect()
}

fn make_resampler(ratio: f64, chunk: usize, channels: usize) -> Async<f32> {
    Async::<f32>::new_sinc(
        ratio,
        1.1,
        &SincInterpolationParameters {
            sinc_len: 64,
            f_cutoff: Some(0.95),
            oversampling_factor: 128,
            interpolation: SincInterpolationType::Cubic,
            window: WindowFunction::BlackmanHarris2,
        },
        chunk,
        channels,
        FixedAsync::Output,
    )
    .unwrap()
}

#[test]
fn check_formats_accepts_supported_sets() {
    let fmts = check_formats(&vec![19, 16, 18, 20]).unwrap();
    assert_eq!(fmts.len(), 4);
}

#[test]
fn check_formats_reports_first_unsupported_channel() {
    assert_eq!(check_formats(&vec![19, 17, 16]), Err(1));
    assert_eq!(check_formats(&vec![33]), Err(0));
}

#[test]
fn interleave_orders_samples_frame_by_frame() {
    let chans = vec![vec![10, 11, 12], vec![20, 21, 22]];
    let out = interleave_channels(&chans, 3);
    assert_eq!(out, vec![10, 20, 11, 21, 12, 22]);
}

#[test]
fn capture_block_pushes_interleaved_frames() {
    let (mut producer, mut consumer) = new_framering(2, 8);
    let chans = vec![vec![1, 2], vec![3, 4]];
    assert_eq!(capture_block(&mut producer, &chans, 2), 2);
    let mut out = vec![0u32; 4];
    assert_eq!(consumer.pop_into(2, &mut out), 2);
    assert_eq!(out, vec![1, 3, 2, 4]);
}

#[test]
fn capture_block_drops_excess_under_overrun() {
    let (mut producer, _consumer) = new_framering(1, 2);
    let chans = vec![vec![1, 2, 3, 4]];
    assert_eq!(capture_block(&mut producer, &chans, 4), 2);
}

#[test]
fn converter_waits_until_enough_input() {
    assert_eq!(converter_step(128, 0), ConverterAction::Wait);
    assert_eq!(converter_step(128, 127), ConverterAction::Wait);
    assert_eq!(converter_step(128, 128), ConverterAction::Resample { frames: 128 });
    assert_eq!(converter_step(128, 500), ConverterAction::Resample { frames: 128 });
    assert_eq!(converter_step(0, 0), ConverterAction::Resample { frames: 0 });
}

/// Measures the dominant frequency of a mono signal by zero crossings.
fn zero_crossing_frequency(samples: &[f32], rate: f64) -> f64 {
    let mut crossings = 0usize;
    for w in samples.windows(2) {
        if (w[0] <= 0.0 && w[1] > 0.0) || (w[0] >= 0.0 && w[1] < 0.0) {
            crossings += 1;
        }
    }
    crossings as f64 * rate / (2.0 * samples.len() as f64)
}

#[test]
fn resampling_scales_the_rate_not_the_tone() {
    // A 440 Hz sine at 48 kHz through a 4x converter comes out still at
    // 440 Hz when played at 192 kHz, with no discontinuity at chunk
    // boundaries.
    let in_rate = 48_000.0f64;
    let out_rate = 192_000.0f64;
    let freq = 440.0f64;
    let amp = 0.8f32;
    let mut ring_in = FrameRing::new(1, 4096);
    let mut resampler = make_resampler(out_rate / in_rate, 64, 1);
    let total_in = 20_000usize;
    let mut fed = 0usize;
    let mut collected: Vec<f32> = Vec::new();
    while fed < total_in {
        let n = (total_in - fed).min(512);
        let block: Vec<f32> = (fed..fed + n)
            .map(|i| amp * (2.0 * std::f64::consts::PI * freq * i as f64 / in_rate).sin() as f32)
            .collect();
        ring_in.push(&words_of(&block));
        fed += n;
        loop {
            let needed = resampler.input_frames_next();
            match converter_step(needed, ring_in.available_frames()) {
                ConverterAction::Wait => break,
                ConverterAction::Resample { frames } => {
                    let mut buf = vec![0u32; frames];
                    assert_eq!(ring_in.pop_into(frames, &mut buf), frames);
                    let staging = samples_of(&buf);
                    let input = InterleavedSlice::new(&staging[..], 1, frames).unwrap();
                    let out = resampler.process(&input, None).unwrap().take_data();
                    collected.extend_from_slice(&out);
                }
            }
        }
    }
    assert!(collected.len() > 40_000, "only {} output samples", collected.len());
    // Skip the filter's startup transient, measure a long middle stretch.
    let mid = &collected[8_000..collected.len() - 4_000];
    let measured = zero_crossing_frequency(mid, out_rate);
    assert!(
        (measured - freq).abs() < freq * 0.02,
        "measured {} Hz, expected about {} Hz",
        measured,
        freq
    );
    // Continuity across chunk boundaries: a 440 Hz sine at 192 kHz moves at
    // most about 2*pi*440/192000 of full scale per sample; a glitch would
    // jump far more.
    let max_step = mid.windows(2).map(|w| (w[1] - w[0]).abs()).fold(0.0f32, f32::max);
    assert!(max_step < 0.1, "discontinuity of {} between samples", max_step);
    // Amplitude is preserved within filter tolerance.
    let peak = mid.iter().fold(0.0f32, |a, &s| a.max(s.abs()));
    assert!((peak - amp).abs() < 0.05, "peak {}", peak);
}

#[test]
fn end_to_end_pipeline_48k_to_192k() {
    // Input 48 kHz, output 192 kHz, 2 channels, rings of 2048 frames:
    // 10,000 frames of a 1 kHz tone yield about 40,000 output frames that
    // reconstruct the tone, with the RMS loudness where a full-scale-0.8
    // sine should sit.
    let in_rate = 48_000.0f64;
    let out_rate = 192_000.0f64;
    let freq = 1_000.0f64;
    let amp = 0.8f32;
    let channels = 2usize;
    let mut ring_a = FrameRing::new(channels, 2048);
    let mut ring_b = FrameRing::new(channels, 2048);
    let mut resampler = make_resampler(out_rate / in_rate, 64, channels);
    let total_in = 10_000usize;
    let mut fed = 0usize;
    let mut out_words: Vec<u32> = Vec::new();
    while fed < total_in || ring_a.available_frames() >= resampler.input_frames_next() {
        // Capture side: push what fits of the next synthetic block.
        if fed < total_in {
            let n = (total_in - fed).min(ring_a.free_frames()).min(256);
            let mut block: Vec<f32> = Vec::with_capacity(n * channels);
            for i in fed..fed + n {
                let s = amp * (2.0 * std::f64::consts::PI * freq * i as f64 / in_rate).sin() as f32;
                for _ in 0..channels {
                    block.push(s);
                }
            }
            let accepted = ring_a.push(&words_of(&block));
            assert_eq!(accepted, n, "no overwrite: push accepts only free space");
            fed += n;
        }
        // Rate-converter worker: resample whenever enough input is buffered.
        loop {
            let needed = resampler.input_frames_next();
            match converter_step(needed, ring_a.available_frames()) {
                ConverterAction::Wait => break,
                ConverterAction::Resample { frames } => {
                    let mut buf = vec![0u32; frames * channels];
                    assert_eq!(ring_a.pop_into(frames, &mut buf), frames);
                    let staging = samples_of(&buf);
                    let input = InterleavedSlice::new(&staging[..], channels, frames).unwrap();
                    let out = resampler.process(&input, None).unwrap().take_data();
                    ring_b.push(&words_of(&out));
                    // Playback side: drain ring B so nothing is dropped.
                    while ring_b.available_frames() > 0 {
                        let want = ring_b.available_frames().min(512);
                        let (block, got) = ring_b.pop_padded(want);
                        assert_eq!(got, want);
                        out_words.extend_from_slice(&block[..got * channels]);
                    }
                }
            }
        }
    }
    let out_frames = out_words.len() / channels;
    assert!(
        (38_000..=42_000).contains(&out_frames),
        "got {} output frames, expected about 40,000",
        out_frames
    );
    let out_samples = samples_of(&out_words);
    // Left channel of a middle stretch: still a 1 kHz tone.
    let left: Vec<f32> = out_samples.chunks(channels).map(|f| f[0]).collect();
    let mid = &left[8_000..left.len() - 4_000];
    let measured = zero_crossing_frequency(mid, out_rate);
    assert!(
        (measured - freq).abs() < freq * 0.02,
        "measured {} Hz, expected about {} Hz",
        measured,
        freq
    );
    // The meter's RMS loudness for a sine of amplitude 0.8 is 0.8/sqrt(2).
    let sum_sq: f64 = mid.iter().map(|&s| s as f64 * s as f64).sum();
    let rms = (sum_sq / mid.len() as f64).sqrt();
    let expected = amp as f64 / 2.0f64.sqrt();
    assert!(
        (rms - expected).abs() < expected * 0.05,
        "rms {} expected about {}",
        rms,
        expected
    );
}
