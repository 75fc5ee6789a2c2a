//! Sample-format descriptors and byte packing for the playback boundary.

use vstd::prelude::*;

verus! {

/// Source encodings the capture normalizer supports, as announced by the
/// capture driver per channel. Anything else is a fatal configuration error.
#[derive(Clone, Copy, PartialEq, Eq, Structural, Debug)]
pub enum CaptureFormat {
    /// 16-bit signed integer, host byte order.
    Int16,
    /// 32-bit signed integer, host byte order.
    Int32,
    /// 32-bit IEEE float, host byte order.
    Float32,
    /// 64-bit IEEE float, host byte order.
    Float64,
}

impl CaptureFormat {
    /// Maps a capture driver's numeric sample-type tag onto the supported
    /// set: 16 is 16-bit int, 18 is 32-bit int, 19 is 32-bit float, 20 is
    /// 64-bit float (the host-order variants). Every other tag is announced
    /// but unsupported and yields `None`.
    pub fn from_driver_tag(tag: i32) -> (r: Option<CaptureFormat>)
        ensures
            r == Self::spec_from_driver_tag(tag),
    {
        if tag == 16 {
            Some(CaptureFormat::Int16)
        } else if tag == 18 {
            Some(CaptureFormat::Int32)
        } else if tag == 19 {
            Some(CaptureFormat::Float32)
        } else if tag == 20 {
            Some(CaptureFormat::Float64)
        } else {
            None
        }
    }

    pub open spec fn spec_from_driver_tag(tag: i32) -> Option<CaptureFormat> {
        if tag == 16 {
            Some(CaptureFormat::Int16)
        } else if tag == 18 {
            Some(CaptureFormat::Int32)
        } else if tag == 19 {
            Some(CaptureFormat::Float32)
        } else if tag == 20 {
            Some(CaptureFormat::Float64)
        } else {
            None
        }
    }
}

/// Native encodings the playback denormalizer can produce.
#[derive(Clone, Copy, PartialEq, Eq, Structural, Debug)]
pub enum OutputFormat {
    /// 16-bit signed integer, little endian.
    Int16,
    /// 24-bit signed integer, three bytes, little endian.
    Int24,
    /// 32-bit signed integer, little endian.
    Int32,
    /// 32-bit IEEE float, passed through bit for bit.
    Float32,
}

impl OutputFormat {
    /// Chooses the output encoding from the sink's reported container size
    /// and sample kind; a combination outside the supported set is `None`.
    pub fn from_wave(bits_per_sample: u16, is_float: bool) -> (r: Option<OutputFormat>)
        ensures
            r == Self::spec_from_wave(bits_per_sample, is_float),
    {
        if is_float {
            if bits_per_sample == 32 {
                Some(OutputFormat::Float32)
            } else {
                None
            }
        } else if bits_per_sample == 16 {
            Some(OutputFormat::Int16)
        } else if bits_per_sample == 24 {
            Some(OutputFormat::Int24)
        } else if bits_per_sample == 32 {
            Some(OutputFormat::Int32)
        } else {
            None
        }
    }

    pub open spec fn spec_from_wave(bits_per_sample: u16, is_float: bool) -> Option<OutputFormat> {
        if is_float {
            if bits_per_sample == 32 {
                Some(OutputFormat::Float32)
            } else {
                None
            }
        } else if bits_per_sample == 16 {
            Some(OutputFormat::Int16)
        } else if bits_per_sample == 24 {
            Some(OutputFormat::Int24)
        } else if bits_per_sample == 32 {
            Some(OutputFormat::Int32)
        } else {
            None
        }
    }

    /// Bytes one sample occupies in this encoding.
    pub fn bytes_per_sample(self) -> (r: usize)
        ensures
            r == self.spec_bytes_per_sample(),
    {
        match self {
            OutputFormat::Int16 => 2,
            OutputFormat::Int24 => 3,
            OutputFormat::Int32 => 4,
            OutputFormat::Float32 => 4,
        }
    }

    pub open spec fn spec_bytes_per_sample(self) -> nat {
        match self {
            OutputFormat::Int16 => 2,
            OutputFormat::Int24 => 3,
            OutputFormat::Int32 => 4,
            OutputFormat::Float32 => 4,
        }
    }
}

/// The two's-complement 16-bit pattern of a 16-bit signed value.
pub open spec fn u16_of_i16(v: i16) -> nat {
    if v >= 0 {
        v as nat
    } else {
        (v + 0x10000) as nat
    }
}

/// The signed value a 16-bit two's-complement pattern stands for.
pub open spec fn i16_of_u16(u: nat) -> int {
    if u < 0x8000 {
        u as int
    } else {
        u - 0x10000
    }
}

/// The two's-complement 24-bit pattern of a signed value in 24-bit range.
pub open spec fn u24_of_i32(v: i32) -> nat
    recommends
        -0x800000 <= v < 0x800000,
{
    if v >= 0 {
        v as nat
    } else {
        (v + 0x1000000) as nat
    }
}

/// The signed value a 24-bit two's-complement pattern stands for.
pub open spec fn i24_of_u24(u: nat) -> int {
    if u < 0x800000 {
        u as int
    } else {
        u - 0x1000000
    }
}

/// The two's-complement 32-bit pattern of a 32-bit signed value.
pub open spec fn u32_of_i32(v: i32) -> nat {
    if v >= 0 {
        v as nat
    } else {
        (v + 0x100000000) as nat
    }
}

/// The signed value a 32-bit two's-complement pattern stands for.
pub open spec fn i32_of_u32(u: nat) -> int {
    if u < 0x80000000 {
        u as int
    } else {
        u - 0x100000000
    }
}

/// Byte `k` (little-endian, so byte 0 is least significant) of a pattern.
pub open spec fn le_byte(u: nat, k: nat) -> u8 {
    if k == 0 {
        (u % 256) as u8
    } else if k == 1 {
        ((u / 256) % 256) as u8
    } else if k == 2 {
        ((u / 65536) % 256) as u8
    } else {
        ((u / 16777216) % 256) as u8
    }
}

/// Packs 16-bit signed samples as two little-endian bytes each, in order.
pub fn pack_i16_le(vals: &Vec<i16>) -> (r: Vec<u8>)
    ensures
        r@.len() == 2 * vals@.len(),
        forall|i: int|
            0 <= i < vals@.len() ==> r@[2 * i] == le_byte(u16_of_i16(#[trigger] vals@[i]), 0)
                && r@[2 * i + 1] == le_byte(u16_of_i16(vals@[i]), 1),
{
    let mut r: Vec<u8> = Vec::new();
    let mut i: usize = 0;
    while i < vals.len()
        invariant
            i <= vals@.len(),
            r@.len() == 2 * i,
            forall|j: int|
                0 <= j < i ==> r@[2 * j] == le_byte(u16_of_i16(#[trigger] vals@[j]), 0)
                    && r@[2 * j + 1] == le_byte(u16_of_i16(vals@[j]), 1),
        decreases vals@.len() - i,
    {
        let v = vals[i];
        let u: u16 = if v >= 0 {
            v as u16
        } else {
            ((v as i32) + 0x10000) as u16
        };
        r.push((u % 256) as u8);
        r.push((u / 256) as u8);
        i = i + 1;
    }
    r
}

/// Unpacks pairs of little-endian bytes back into 16-bit signed samples.
pub fn unpack_i16_le(bytes: &Vec<u8>) -> (r: Vec<i16>)
    requires
        bytes@.len() % 2 == 0,
    ensures
        r@.len() == bytes@.len() / 2,
        forall|i: int|
            0 <= i < r@.len() ==> (#[trigger] r@[i]) as int == i16_of_u16(
                (bytes@[2 * i] + 256 * bytes@[2 * i + 1]) as nat,
            ),
{
    let mut r: Vec<i16> = Vec::new();
    let mut i: usize = 0;
    while i < bytes.len()
        invariant
            bytes@.len() % 2 == 0,
            i % 2 == 0,
            i <= bytes@.len(),
            i == 2 * r@.len(),
            r@.len() <= bytes@.len() / 2,
            forall|j: int|
                0 <= j < r@.len() ==> (#[trigger] r@[j]) as int == i16_of_u16(
                    (bytes@[2 * j] + 256 * bytes@[2 * j + 1]) as nat,
                ),
        decreases bytes@.len() - i,
    {
        proof {
            vstd::arithmetic::div_mod::lemma_fundamental_div_mod(i as int, 2);
            vstd::arithmetic::div_mod::lemma_fundamental_div_mod(bytes@.len() as int, 2);
        }
        let u: u32 = bytes[i] as u32 + 256 * (bytes[i + 1] as u32);
        let v: i16 = if u < 0x8000 {
            u as i16
        } else {
            (u as i32 - 0x10000) as i16
        };
        r.push(v);
        i = i + 2;
    }
    proof {
        vstd::arithmetic::div_mod::lemma_fundamental_div_mod(bytes@.len() as int, 2);
    }
    r
}

/// Packs signed samples in 24-bit range as three little-endian bytes each:
/// the low three bytes of the two's-complement pattern, in order.
pub fn pack_i24_le(vals: &Vec<i32>) -> (r: Vec<u8>)
    requires
        forall|i: int| 0 <= i < vals@.len() ==> -0x800000 <= #[trigger] vals@[i] < 0x800000,
    ensures
        r@.len() == 3 * vals@.len(),
        forall|i: int|
            0 <= i < vals@.len() ==> r@[3 * i] == le_byte(u24_of_i32(#[trigger] vals@[i]), 0)
                && r@[3 * i + 1] == le_byte(u24_of_i32(vals@[i]), 1)
                && r@[3 * i + 2] == le_byte(u24_of_i32(vals@[i]), 2),
{
    let mut r: Vec<u8> = Vec::new();
    let mut i: usize = 0;
    while i < vals.len()
        invariant
            i <= vals@.len(),
            r@.len() == 3 * i,
            forall|j: int| 0 <= j < vals@.len() ==> -0x800000 <= #[trigger] vals@[j] < 0x800000,
            forall|j: int|
                0 <= j < i ==> r@[3 * j] == le_byte(u24_of_i32(#[trigger] vals@[j]), 0)
                    && r@[3 * j + 1] == le_byte(u24_of_i32(vals@[j]), 1)
                    && r@[3 * j + 2] == le_byte(u24_of_i32(vals@[j]), 2),
        decreases vals@.len() - i,
    {
        let v = vals[i];
        let u: u32 = if v >= 0 {
            v as u32
        } else {
            (v + 0x1000000) as u32
        };
        r.push((u % 256) as u8);
        r.push(((u / 256) % 256) as u8);
        r.push(((u / 65536) % 256) as u8);
        i = i + 1;
    }
    r
}

/// Unpacks triples of little-endian bytes back into signed samples in
/// 24-bit range.
pub fn unpack_i24_le(bytes: &Vec<u8>) -> (r: Vec<i32>)
    requires
        bytes@.len() % 3 == 0,
    ensures
        r@.len() == bytes@.len() / 3,
        forall|i: int|
            0 <= i < r@.len() ==> (#[trigger] r@[i]) as int == i24_of_u24(
                (bytes@[3 * i] + 256 * bytes@[3 * i + 1] + 65536 * bytes@[3 * i + 2]) as nat,
            ),
{
    let mut r: Vec<i32> = Vec::new();
    let mut i: usize = 0;
    while i < bytes.len()
        invariant
            bytes@.len() % 3 == 0,
            i % 3 == 0,
            i <= bytes@.len(),
            i == 3 * r@.len(),
            r@.len() <= bytes@.len() / 3,
            forall|j: int|
                0 <= j < r@.len() ==> (#[trigger] r@[j]) as int == i24_of_u24(
                    (bytes@[3 * j] + 256 * bytes@[3 * j + 1] + 65536 * bytes@[3 * j + 2]) as nat,
                ),
        decreases bytes@.len() - i,
    {
        proof {
            vstd::arithmetic::div_mod::lemma_fundamental_div_mod(i as int, 3);
            vstd::arithmetic::div_mod::lemma_fundamental_div_mod(bytes@.len() as int, 3);
        }
        let u: u32 = bytes[i] as u32 + 256 * (bytes[i + 1] as u32) + 65536 * (bytes[i + 2] as u32);
        let v: i32 = if u < 0x800000 {
            u as i32
        } else {
            u as i32 - 0x1000000
        };
        r.push(v);
        i = i + 3;
    }
    proof {
        vstd::arithmetic::div_mod::lemma_fundamental_div_mod(bytes@.len() as int, 3);
    }
    r
}

/// Packs 32-bit signed samples as four little-endian bytes each, in order.
pub fn pack_i32_le(vals: &Vec<i32>) -> (r: Vec<u8>)
    ensures
        r@.len() == 4 * vals@.len(),
        forall|i: int|
            0 <= i < vals@.len() ==> r@[4 * i] == le_byte(u32_of_i32(#[trigger] vals@[i]), 0)
                && r@[4 * i + 1] == le_byte(u32_of_i32(vals@[i]), 1)
                && r@[4 * i + 2] == le_byte(u32_of_i32(vals@[i]), 2)
                && r@[4 * i + 3] == le_byte(u32_of_i32(vals@[i]), 3),
{
    let mut r: Vec<u8> = Vec::new();
    let mut i: usize = 0;
    while i < vals.len()
        invariant
            i <= vals@.len(),
            r@.len() == 4 * i,
            forall|j: int|
                0 <= j < i ==> r@[4 * j] == le_byte(u32_of_i32(#[trigger] vals@[j]), 0)
                    && r@[4 * j + 1] == le_byte(u32_of_i32(vals@[j]), 1)
                    && r@[4 * j + 2] == le_byte(u32_of_i32(vals@[j]), 2)
                    && r@[4 * j + 3] == le_byte(u32_of_i32(vals@[j]), 3),
        decreases vals@.len() - i,
    {
        let v = vals[i];
        let u: u32 = if v >= 0 {
            v as u32
        } else {
            ((v as i64) + 0x100000000i64) as u32
        };
        r.push((u % 256) as u8);
        r.push(((u / 256) % 256) as u8);
        r.push(((u / 65536) % 256) as u8);
        r.push((u / 16777216) as u8);
        i = i + 1;
    }
    r
}

/// Packs 32-bit sample words (the bit patterns of float32 samples) as four
/// little-endian bytes each, bit for bit, in order.
pub fn pack_f32_words_le(words: &Vec<u32>) -> (r: Vec<u8>)
    ensures
        r@.len() == 4 * words@.len(),
        forall|i: int|
            0 <= i < words@.len() ==> r@[4 * i] == le_byte(#[trigger] words@[i] as nat, 0)
                && r@[4 * i + 1] == le_byte(words@[i] as nat, 1)
                && r@[4 * i + 2] == le_byte(words@[i] as nat, 2)
                && r@[4 * i + 3] == le_byte(words@[i] as nat, 3),
{
    let mut r: Vec<u8> = Vec::new();
    let mut i: usize = 0;
    while i < words.len()
        invariant
            i <= words@.len(),
            r@.len() == 4 * i,
            forall|j: int|
                0 <= j < i ==> r@[4 * j] == le_byte(#[trigger] words@[j] as nat, 0)
                    && r@[4 * j + 1] == le_byte(words@[j] as nat, 1)
                    && r@[4 * j + 2] == le_byte(words@[j] as nat, 2)
                    && r@[4 * j + 3] == le_byte(words@[j] as nat, 3),
        decreases words@.len() - i,
    {
        let u = words[i];
        r.push((u % 256) as u8);
        r.push(((u / 256) % 256) as u8);
        r.push(((u / 65536) % 256) as u8);
        r.push((u / 16777216) as u8);
        i = i + 1;
    }
    r
}

/// One playback block of already-denormalized samples, tagged with the
/// encoding its integers (or float words) are meant for.
pub enum PcmBlock {
    Int16(Vec<i16>),
    Int24(Vec<i32>),
    Int32(Vec<i32>),
    Float32(Vec<u32>),
}

impl PcmBlock {
    pub open spec fn wf(self) -> bool {
        match self {
            PcmBlock::Int24(vals) => forall|i: int|
                0 <= i < vals@.len() ==> -0x800000 <= #[trigger] vals@[i] < 0x800000,
            _ => true,
        }
    }

    pub open spec fn spec_format(self) -> OutputFormat {
        match self {
            PcmBlock::Int16(_) => OutputFormat::Int16,
            PcmBlock::Int24(_) => OutputFormat::Int24,
            PcmBlock::Int32(_) => OutputFormat::Int32,
            PcmBlock::Float32(_) => OutputFormat::Float32,
        }
    }

    pub open spec fn spec_samples(self) -> nat {
        match self {
            PcmBlock::Int16(vals) => vals@.len(),
            PcmBlock::Int24(vals) => vals@.len(),
            PcmBlock::Int32(vals) => vals@.len(),
            PcmBlock::Float32(vals) => vals@.len(),
        }
    }
}

/// Converts one block to the sink's native byte encoding, dispatching on the
/// block's tag: every supported encoding has its packing law above, and the
/// output length is the sample count times the encoding's byte width.
pub fn pack_block(block: &PcmBlock) -> (r: Vec<u8>)
    requires
        block.wf(),
    ensures
        r@.len() == block.spec_samples() * block.spec_format().spec_bytes_per_sample(),
        block matches PcmBlock::Int16(vals) ==> forall|i: int|
            0 <= i < vals@.len() ==> r@[2 * i] == le_byte(u16_of_i16(#[trigger] vals@[i]), 0)
                && r@[2 * i + 1] == le_byte(u16_of_i16(vals@[i]), 1),
        block matches PcmBlock::Int24(vals) ==> forall|i: int|
            0 <= i < vals@.len() ==> r@[3 * i] == le_byte(u24_of_i32(#[trigger] vals@[i]), 0)
                && r@[3 * i + 1] == le_byte(u24_of_i32(vals@[i]), 1)
                && r@[3 * i + 2] == le_byte(u24_of_i32(vals@[i]), 2),
        block matches PcmBlock::Int32(vals) ==> forall|i: int|
            0 <= i < vals@.len() ==> r@[4 * i] == le_byte(u32_of_i32(#[trigger] vals@[i]), 0)
                && r@[4 * i + 1] == le_byte(u32_of_i32(vals@[i]), 1)
                && r@[4 * i + 2] == le_byte(u32_of_i32(vals@[i]), 2)
                && r@[4 * i + 3] == le_byte(u32_of_i32(vals@[i]), 3),
        block matches PcmBlock::Float32(words) ==> forall|i: int|
            0 <= i < words@.len() ==> r@[4 * i] == le_byte(#[trigger] words@[i] as nat, 0)
                && r@[4 * i + 1] == le_byte(words@[i] as nat, 1)
                && r@[4 * i + 2] == le_byte(words@[i] as nat, 2)
                && r@[4 * i + 3] == le_byte(words@[i] as nat, 3),
{
    match block {
        PcmBlock::Int16(vals) => pack_i16_le(vals),
        PcmBlock::Int24(vals) => pack_i24_le(vals),
        PcmBlock::Int32(vals) => pack_i32_le(vals),
        PcmBlock::Float32(words) => pack_f32_words_le(words),
    }
}

/// Format round-trip at the encoding boundary: a 16-bit sample packed into
/// its two's-complement pattern and read back via the inverse law is the
/// sample again, and its two little-endian bytes recombine to the pattern.
pub proof fn lemma_i16_round_trip(v: i16)
    ensures
        i16_of_u16(u16_of_i16(v)) == v as int,
        le_byte(u16_of_i16(v), 0) + 256 * le_byte(u16_of_i16(v), 1) == u16_of_i16(v),
{
    let u = u16_of_i16(v);
    vstd::arithmetic::div_mod::lemma_fundamental_div_mod(u as int, 256);
    assert(u / 256 < 256) by (nonlinear_arith)
        requires
            u < 0x10000,
            u as int == 256 * (u as int / 256) + u as int % 256,
            u as int % 256 < 256,
    ;
}

/// Format round-trip for the 24-bit encoding: pattern and inverse law give
/// the sample back, and the three little-endian bytes recombine.
pub proof fn lemma_i24_round_trip(v: i32)
    requires
        -0x800000 <= v < 0x800000,
    ensures
        i24_of_u24(u24_of_i32(v)) == v as int,
        le_byte(u24_of_i32(v), 0) + 256 * le_byte(u24_of_i32(v), 1) + 65536 * le_byte(
            u24_of_i32(v),
            2,
        ) == u24_of_i32(v),
{
    let u = u24_of_i32(v);
    lemma_le_bytes_recombine_24(u);
}

/// Format round-trip for the 32-bit encoding: pattern and inverse law give
/// the sample back, and the four little-endian bytes recombine.
pub proof fn lemma_i32_round_trip(v: i32)
    ensures
        i32_of_u32(u32_of_i32(v)) == v as int,
        le_byte(u32_of_i32(v), 0) + 256 * le_byte(u32_of_i32(v), 1) + 65536 * le_byte(
            u32_of_i32(v),
            2,
        ) + 16777216 * le_byte(u32_of_i32(v), 3) == u32_of_i32(v),
{
    let u = u32_of_i32(v);
    lemma_le_bytes_recombine_32(u);
}

/// Three little-endian bytes of a pattern under 2^24 recombine to it.
proof fn lemma_le_bytes_recombine_24(u: nat)
    requires
        u < 0x1000000,
    ensures
        le_byte(u, 0) + 256 * le_byte(u, 1) + 65536 * le_byte(u, 2) == u,
{
    vstd::arithmetic::div_mod::lemma_fundamental_div_mod(u as int, 256);
    vstd::arithmetic::div_mod::lemma_fundamental_div_mod(u as int / 256, 256);
    assert(u as int / 256 / 256 == u as int / 65536) by (nonlinear_arith)
        requires
            u as int >= 0,
            u as int == 256 * (u as int / 256) + u as int % 256,
            0 <= u as int % 256 < 256,
            u as int / 256 == 256 * (u as int / 256 / 256) + (u as int / 256) % 256,
            0 <= (u as int / 256) % 256 < 256,
            u as int / 65536 == (u as int - u as int % 65536) / 65536,
    ;
    assert(u as int / 65536 < 256) by (nonlinear_arith)
        requires
            u < 0x1000000,
            u as int == 65536 * (u as int / 65536) + u as int % 65536,
            0 <= u as int % 65536,
    ;
}

/// Four little-endian bytes of a pattern under 2^32 recombine to it.
proof fn lemma_le_bytes_recombine_32(u: nat)
    requires
        u < 0x100000000,
    ensures
        le_byte(u, 0) + 256 * le_byte(u, 1) + 65536 * le_byte(u, 2) + 16777216 * le_byte(u, 3)
            == u,
{
    vstd::arithmetic::div_mod::lemma_fundamental_div_mod(u as int, 256);
    vstd::arithmetic::div_mod::lemma_fundamental_div_mod(u as int / 256, 256);
    vstd::arithmetic::div_mod::lemma_fundamental_div_mod(u as int / 65536, 256);
    assert(u as int / 256 / 256 == u as int / 65536 && u as int / 65536 / 256 == u as int
        / 16777216 && u as int / 16777216 < 256) by (nonlinear_arith)
        requires
            u < 0x100000000,
            u as int == 256 * (u as int / 256) + u as int % 256,
            0 <= u as int % 256 < 256,
            u as int / 256 == 256 * (u as int / 256 / 256) + (u as int / 256) % 256,
            0 <= (u as int / 256) % 256 < 256,
            u as int / 65536 == 256 * (u as int / 65536 / 256) + (u as int / 65536) % 256,
            0 <= (u as int / 65536) % 256 < 256,
    ;
}

} // verus!
