use audio_bridge::format::{
    pack_block, pack_f32_words_le, pack_i16_le, pack_i24_le, pack_i32_le, unpack_i16_le,
    unpack_i24_le, CaptureFormat, OutputFormat, PcmBlock,
};

#[test]
fn driver_tags_map_to_supported_formats() {
    assert_eq!(CaptureFormat::from_driver_tag(16), Some(CaptureFormat::Int16));
    assert_eq!(CaptureFormat::from_driver_tag(18), Some(CaptureFormat::Int32));
    assert_eq!(CaptureFormat::from_driver_tag(19), Some(CaptureFormat::Float32));
    assert_eq!(CaptureFormat::from_driver_tag(20), Some(CaptureFormat::Float64));
}

#[test]
fn unsupported_driver_tags_are_rejected() {
    // Big-endian variants, packed 32-bit variants and DSD are announced by
    // some drivers but not implemented: they must be refused, not guessed.
    for tag in [0, 1, 2, 3, 4, 8, 11, 17, 24, 27, 32, 33, 40, -1, 99] {
        assert_eq!(CaptureFormat::from_driver_tag(tag), None);
    }
}

#[test]
fn wave_descriptors_map_to_output_formats() {
    assert_eq!(OutputFormat::from_wave(16, false), Some(OutputFormat::Int16));
    assert_eq!(OutputFormat::from_wave(24, false), Some(OutputFormat::Int24));
    assert_eq!(OutputFormat::from_wave(32, false), Some(OutputFormat::Int32));
    assert_eq!(OutputFormat::from_wave(32, true), Some(OutputFormat::Float32));
    assert_eq!(OutputFormat::from_wave(8, false), None);
    assert_eq!(OutputFormat::from_wave(16, true), None);
    assert_eq!(OutputFormat::from_wave(64, true), None);
}

#[test]
fn bytes_per_sample_match_encodings() {
    assert_eq!(OutputFormat::Int16.bytes_per_sample(), 2);
    assert_eq!(OutputFormat::Int24.bytes_per_sample(), 3);
    assert_eq!(OutputFormat::Int32.bytes_per_sample(), 4);
    assert_eq!(OutputFormat::Float32.bytes_per_sample(), 4);
}

#[test]
fn pack_i16_little_endian_bytes() {
    let bytes = pack_i16_le(&vec![0x1234, -1, 0, i16::MIN, i16::MAX]);
    assert_eq!(
        bytes,
        vec![0x34, 0x12, 0xFF, 0xFF, 0x00, 0x00, 0x00, 0x80, 0xFF, 0x7F]
    );
}

#[test]
fn pack_i24_truncates_to_three_little_endian_bytes() {
    let bytes = pack_i24_le(&vec![1, -1, 8_388_607, -8_388_608]);
    assert_eq!(
        bytes,
        vec![0x01, 0x00, 0x00, 0xFF, 0xFF, 0xFF, 0xFF, 0xFF, 0x7F, 0x00, 0x00, 0x80]
    );
}

#[test]
fn pack_i32_little_endian_bytes() {
    let bytes = pack_i32_le(&vec![0x01020304, -2]);
    assert_eq!(bytes, vec![0x04, 0x03, 0x02, 0x01, 0xFE, 0xFF, 0xFF, 0xFF]);
}

#[test]
fn pack_f32_words_bit_for_bit() {
    let x = 0.75f32;
    let bytes = pack_f32_words_le(&vec![x.to_bits()]);
    assert_eq!(bytes, x.to_le_bytes().to_vec());
    let back = f32::from_bits(u32::from_le_bytes([bytes[0], bytes[1], bytes[2], bytes[3]]));
    assert_eq!(back.to_bits(), x.to_bits());
}

#[test]
fn pack_block_dispatches_on_encoding() {
    assert_eq!(pack_block(&PcmBlock::Int16(vec![1, -1])), vec![0x01, 0x00, 0xFF, 0xFF]);
    assert_eq!(pack_block(&PcmBlock::Int24(vec![2])), vec![0x02, 0x00, 0x00]);
    assert_eq!(pack_block(&PcmBlock::Int32(vec![3])), vec![0x03, 0x00, 0x00, 0x00]);
    assert_eq!(
        pack_block(&PcmBlock::Float32(vec![1.0f32.to_bits()])),
        1.0f32.to_le_bytes().to_vec()
    );
}

#[test]
fn unpack_inverts_pack_i16() {
    let vals: Vec<i16> = vec![0, 1, -1, 1000, -1000, i16::MIN, i16::MAX];
    assert_eq!(unpack_i16_le(&pack_i16_le(&vals)), vals);
}

#[test]
fn unpack_inverts_pack_i24() {
    let vals: Vec<i32> = vec![0, 1, -1, 123_456, -123_456, 8_388_607, -8_388_608];
    assert_eq!(unpack_i24_le(&pack_i24_le(&vals)), vals);
}

#[test]
fn format_round_trip_int16_within_quantization() {
    // 0.5 -> 16-bit via round(clamp(x) * 32767), back via the capture law
    // (divide by 32768): reproduced within the encoding's quantization step.
    let x = 0.5f32;
    let v = (x.clamp(-1.0, 1.0) * 32767.0).round() as i16;
    let packed = pack_i16_le(&vec![v]);
    let back = unpack_i16_le(&packed)[0];
    assert_eq!(back, v);
    let y = back as f32 / 32768.0;
    assert!((x - y).abs() <= 1.0 / 32768.0, "y = {}", y);
}

#[test]
fn format_round_trip_int24_within_quantization() {
    let x = -0.25f32;
    let v = (x.clamp(-1.0, 1.0) as f64 * 8_388_607.0).round() as i32;
    let packed = pack_i24_le(&vec![v]);
    let back = unpack_i24_le(&packed)[0];
    assert_eq!(back, v);
    let y = (back as f64 / 8_388_608.0) as f32;
    assert!((x - y).abs() <= 1.0 / 8_388_608.0, "y = {}", y);
}

#[test]
fn format_round_trip_int32_within_quantization() {
    let x = 0.125f32;
    let v = (x.clamp(-1.0, 1.0) as f64 * 2_147_483_647.0).round() as i32;
    let packed = pack_i32_le(&vec![v]);
    // Reassemble the two's-complement pattern from the little-endian bytes.
    let u = u32::from_le_bytes([packed[0], packed[1], packed[2], packed[3]]);
    let back = u as i32;
    assert_eq!(back, v);
    let y = (back as f64 / 2_147_483_648.0) as f32;
    assert!((x - y).abs() <= 1.0e-6, "y = {}", y);
}

#[test]
fn format_round_trip_float32_exact() {
    // 32-bit float output is a bit-for-bit passthrough.
    for x in [0.0f32, -0.0, 0.5, -1.0, 1.0, 0.499985] {
        let word = x.to_bits();
        let packed = pack_f32_words_le(&vec![word]);
        let back = f32::from_bits(u32::from_le_bytes([
            packed[0], packed[1], packed[2], packed[3],
        ]));
        assert_eq!(back.to_bits(), x.to_bits());
    }
}

#[test]
fn silence_denormalizes_to_zero_bytes() {
    // A silence-filled playback block converts to all-zero bytes in every
    // integer encoding and in the float passthrough.
    let zero_words = vec![0u32; 4];
    let ints16: Vec<i16> =
        zero_words.iter().map(|&w| (f32::from_bits(w).clamp(-1.0, 1.0) * 32767.0).round() as i16).collect();
    assert!(pack_i16_le(&ints16).iter().all(|&b| b == 0));
    let ints24: Vec<i32> = zero_words
        .iter()
        .map(|&w| (f32::from_bits(w).clamp(-1.0, 1.0) as f64 * 8_388_607.0).round() as i32)
        .collect();
    assert!(pack_i24_le(&ints24).iter().all(|&b| b == 0));
    assert!(pack_f32_words_le(&zero_words).iter().all(|&b| b == 0));
}
