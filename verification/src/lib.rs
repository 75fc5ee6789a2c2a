//! Cross-clock-domain audio streaming pipeline.
//!
//! Moves interleaved audio frames from a capture source to a playback sink
//! across independent sample clocks: a fixed-capacity frame ring buffer,
//! sample-format dispatch and byte packing at each device boundary, and the
//! per-iteration decision of the rate-converter worker that bridges two rings.
//!
//! Samples are carried as the 32-bit words of normalized float32 values; the
//! library never inspects a sample's numeric value, so all frame transport,
//! interleaving and byte-packing logic is independent of floating point.

pub mod capture;
pub mod format;
pub mod rate;
pub mod ring;
pub mod spsc;
