//! The container writer and header parser.
//!
//! The writer builds the exact byte layout of the chunked RIFF/WAVE
//! container in one in-memory buffer: a 44-byte header followed by the
//! interleaved little-endian 16-bit samples (the identical value in every
//! channel slot of a frame). The chunk size field counts one pad byte
//! whenever the data size is odd, and the writer would also physically
//! append that zero byte — with 16-bit samples the data size is always
//! even, so the pad byte never actually occurs, but the accounting is kept
//! explicit. The total emitted length is always `chunk_size + 8` bytes.

use vstd::arithmetic::div_mod::{
    lemma_div_denominator, lemma_div_is_ordered, lemma_div_pos_is_pos, lemma_fundamental_div_mod,
    lemma_mod_division_less_than_divisor,
};
use vstd::prelude::*;

use crate::buffer::{grab, merge};

verus! {

/// The closed set of container formats; exactly one exists, as an explicit
/// extension point.
#[derive(Clone, Copy, Debug, PartialEq, Eq, Structural)]
pub enum Format {
    Wave,
}

/// The rendering target: sample rate, channel mode and container format.
/// The file path the bytes end up in is the caller's business, not the
/// renderer's.
#[derive(Clone, Copy, Debug, PartialEq, Eq, Structural)]
pub struct RenderConfig {
    pub sample_rate: u32,
    pub stereo: bool,
    pub format: Format,
}

impl RenderConfig {
    /// Sample rates must be positive.
    pub open spec fn wf(self) -> bool {
        self.sample_rate >= 1
    }

    /// Number of channel slots per sample frame.
    pub open spec fn spec_channels(self) -> int {
        if self.stereo {
            2
        } else {
            1
        }
    }

    /// Number of channel slots per sample frame: 2 for stereo, 1 for mono.
    pub fn channels(&self) -> (r: u16)
        ensures
            r == self.spec_channels(),
    {
        if self.stereo {
            2
        } else {
            1
        }
    }
}

/// The two little-endian bytes of a 16-bit value.
pub open spec fn le16(v: u16) -> Seq<u8> {
    seq![(v % 256) as u8, (v / 256) as u8]
}

/// The four little-endian bytes of a 32-bit value.
pub open spec fn le32(v: u32) -> Seq<u8> {
    seq![
        (v % 256) as u8,
        ((v / 256) % 256) as u8,
        ((v / 65536) % 256) as u8,
        ((v / 16777216) % 256) as u8,
    ]
}

/// The value two little-endian bytes encode.
pub open spec fn from_le16(b0: u8, b1: u8) -> int {
    b0 + 256 * b1
}

/// The value four little-endian bytes encode.
pub open spec fn from_le32(b0: u8, b1: u8, b2: u8, b3: u8) -> int {
    b0 + 256 * b1 + 65536 * b2 + 16777216 * b3
}

/// Decoding the two little-endian bytes of a value gives the value back.
pub proof fn lemma_le16_roundtrip(v: u16)
    ensures
        from_le16(le16(v)[0], le16(v)[1]) == v,
{
    lemma_fundamental_div_mod(v as int, 256);
    lemma_mod_division_less_than_divisor(v as int, 256);
    lemma_div_pos_is_pos(v as int, 256);
    lemma_div_is_ordered(v as int, u16::MAX as int, 256);
}

/// Decoding the four little-endian bytes of a value gives the value back.
pub proof fn lemma_le32_roundtrip(v: u32)
    ensures
        from_le32(le32(v)[0], le32(v)[1], le32(v)[2], le32(v)[3]) == v,
{
    lemma_fundamental_div_mod(v as int, 256);
    lemma_mod_division_less_than_divisor(v as int, 256);
    lemma_div_pos_is_pos(v as int, 256);
    lemma_fundamental_div_mod((v as int) / 256, 256);
    lemma_mod_division_less_than_divisor((v as int) / 256, 256);
    lemma_div_denominator(v as int, 256, 256);
    lemma_div_pos_is_pos((v as int) / 256, 256);
    lemma_fundamental_div_mod((v as int) / 65536, 256);
    lemma_mod_division_less_than_divisor((v as int) / 65536, 256);
    lemma_div_denominator(v as int, 65536, 256);
    lemma_div_pos_is_pos((v as int) / 65536, 256);
    lemma_div_is_ordered(v as int, u32::MAX as int, 16777216);
    lemma_div_pos_is_pos(v as int, 16777216);
}

/// Encodes a 16-bit value as its two little-endian bytes.
pub fn u16_to_le(v: u16) -> (r: Vec<u8>)
    ensures
        r@ == le16(v),
{
    let mut r: Vec<u8> = Vec::new();
    r.push((v % 256) as u8);
    r.push((v / 256) as u8);
    proof {
        assert(r@ =~= le16(v));
    }
    r
}

/// Encodes a 32-bit value as its four little-endian bytes.
pub fn u32_to_le(v: u32) -> (r: Vec<u8>)
    ensures
        r@ == le32(v),
{
    let mut r: Vec<u8> = Vec::new();
    r.push((v % 256) as u8);
    r.push(((v / 256) % 256) as u8);
    r.push(((v / 65536) % 256) as u8);
    r.push(((v / 16777216) % 256) as u8);
    proof {
        assert(r@ =~= le32(v));
    }
    r
}

/// The bytes of one sample frame: the identical 16-bit sample, little
/// endian, once per channel slot.
pub open spec fn frame_bytes(s: i16, channels: int) -> Seq<u8>
    decreases channels,
{
    if channels <= 0 {
        Seq::empty()
    } else {
        frame_bytes(s, channels - 1) + le16(s as u16)
    }
}

/// The data chunk payload: one frame per quantized sample, in order.
pub open spec fn data_bytes(samples: Seq<i16>, channels: int) -> Seq<u8>
    decreases samples.len(),
{
    if samples.len() == 0 {
        Seq::empty()
    } else {
        data_bytes(samples.drop_last(), channels) + frame_bytes(samples.last(), channels)
    }
}

/// Size in bytes of the data payload: 2 bytes per channel slot per sample.
pub open spec fn spec_data_size(num_samples: int, channels: int) -> int {
    num_samples * channels * 2
}

/// The pad accounted for in the chunk size: 1 when the data size is odd.
pub open spec fn spec_pad(data_size: int) -> int {
    if data_size % 2 == 0 {
        0
    } else {
        1
    }
}

/// A frame is 2 bytes per channel.
pub proof fn lemma_frame_bytes_len(s: i16, channels: int)
    requires
        channels >= 0,
    ensures
        frame_bytes(s, channels).len() == 2 * channels,
    decreases channels,
{
    if channels > 0 {
        lemma_frame_bytes_len(s, channels - 1);
    }
}

/// The data payload's length is exactly [`spec_data_size`].
pub proof fn lemma_data_bytes_len(samples: Seq<i16>, channels: int)
    requires
        channels >= 0,
    ensures
        data_bytes(samples, channels).len() == spec_data_size(samples.len() as int, channels),
    decreases samples.len(),
{
    if samples.len() == 0 {
    } else {
        lemma_data_bytes_len(samples.drop_last(), channels);
        lemma_frame_bytes_len(samples.last(), channels);
        let n = samples.len() as int;
        let c = channels;
        assert((n - 1) * c * 2 + 2 * c == n * c * 2) by (nonlinear_arith);
    }
}

/// The 44 header bytes, all multi-byte integers little-endian: "RIFF", the
/// chunk size (36 + data size + pad), "WAVE"; the "fmt " chunk of length 16
/// with PCM tag 1, channel count, sample rate, byte rate, block align and
/// 16 bits per sample; then "data" and the data size.
pub open spec fn header_bytes(sample_rate: u32, channels: u16, data_size: u32) -> Seq<u8> {
    let pad = spec_pad(data_size as int);
    let chunk = ((36 + data_size + pad) as u32);
    let byte_rate = ((sample_rate * channels * 2) as u32);
    let block_align = ((channels * 2) as u16);
    seq![0x52u8, 0x49u8, 0x46u8, 0x46u8] + le32(chunk) + seq![0x57u8, 0x41u8, 0x56u8, 0x45u8]
        + seq![0x66u8, 0x6du8, 0x74u8, 0x20u8] + le32(16u32) + le16(1u16) + le16(channels) + le32(
        sample_rate,
    ) + le32(byte_rate) + le16(block_align) + le16(16u16) + seq![0x64u8, 0x61u8, 0x74u8, 0x61u8]
        + le32(data_size)
}

/// The complete byte image of a rendered container: header, data payload,
/// and the zero pad byte whenever the data size is odd (it never is with
/// 16-bit samples, but the choice — counted and physically appended — is
/// explicit).
pub open spec fn wave_bytes(sample_rate: u32, channels: u16, samples: Seq<i16>) -> Seq<u8> {
    let data_size = spec_data_size(samples.len() as int, channels as int);
    header_bytes(sample_rate, channels, data_size as u32) + data_bytes(samples, channels as int) + (
    if data_size % 2 == 0 {
        Seq::<u8>::empty()
    } else {
        seq![0u8]
    })
}

/// One bounds-checked append of the cursor writer: reserves the next window
/// with [`grab`] and overwrites it with `src` via [`merge`], advancing the
/// cursor past the window.
fn write_slice(buf: &mut Vec<u8>, offset: &mut usize, src: &Vec<u8>)
    requires
        *old(offset) + src@.len() <= old(buf)@.len(),
    ensures
        *final(offset) == *old(offset) + src@.len(),
        final(buf)@.len() == old(buf)@.len(),
        final(buf)@.take(*final(offset) as int) == old(buf)@.take(*old(offset) as int) + src@,
        forall|j: int|
            *final(offset) <= j < old(buf)@.len() ==> final(buf)@[j] == old(buf)@[j],
{
    let r = grab(buf.len(), offset, src.len());
    match r {
        Some(start) => {
            let ov = |a: u8, b: u8| -> (c: u8)
                ensures
                    c == b,
                { crate::buffer::overwrite(a, b) };
            let res = merge(buf, start, src, ov);
            match res {
                Ok(()) => {
                    proof {
                        assert forall|j: int| 0 <= j < *offset implies buf@[j] == (old(buf)@.take(
                            start as int,
                        ) + src@)[j] by {
                            if start <= j {
                                let i = j - start;
                                assert(call_ensures(ov, (old(buf)@[start + i], src@[i]), buf@[start
                                    + i]));
                            }
                        }
                        assert(buf@.take(*offset as int) =~= old(buf)@.take(start as int) + src@);
                    }
                },
                Err(_) => {
                    proof {
                        assert(false);
                    }
                },
            }
        },
        None => {
            proof {
                assert(false);
            }
        },
    }
}

/// A four-byte chunk tag.
fn tag4(a: u8, b: u8, c: u8, d: u8) -> (r: Vec<u8>)
    ensures
        r@ == seq![a, b, c, d],
{
    let mut r: Vec<u8> = Vec::new();
    r.push(a);
    r.push(b);
    r.push(c);
    r.push(d);
    proof {
        assert(r@ =~= seq![a, b, c, d]);
    }
    r
}

/// Serializes the quantized samples into the container's complete byte
/// image, exactly as [`wave_bytes`] lays it out: the 44-byte header, then
/// one frame per sample with the identical value in every channel slot. The
/// data size must leave room for the header in the container's 32-bit size
/// fields.
pub fn write_wave(sample_rate: u32, channels: u16, samples: &Vec<i16>) -> (out: Vec<u8>)
    requires
        sample_rate >= 1,
        1 <= channels <= 2,
        spec_data_size(samples@.len() as int, channels as int) + 44 <= u32::MAX,
    ensures
        out@ == wave_bytes(sample_rate, channels, samples@),
        out@.len() == 44 + spec_data_size(samples@.len() as int, channels as int),
{
    let ghost n = samples@.len() as int;
    let ghost c = channels as int;
    proof {
        vstd::arithmetic::mul::lemma_mul_nonnegative(n, c);
        vstd::arithmetic::div_mod::lemma_mod_multiples_basic(n * c, 2);
    }
    let data64: u64 = (samples.len() as u64) * (channels as u64) * 2;
    let data_size: u32 = data64 as u32;
    let pad: u32 = if data_size % 2 == 0 {
        0
    } else {
        1
    };
    let chunk: u32 = 36 + data_size + pad;
    let byte_rate: u32 = #[verifier::truncate] (((sample_rate as u64) * (channels as u64)
        * 2) as u32);
    let block_align: u16 = channels * 2;
    let file_size: usize = (chunk as usize) + 8;
    let ghost hdr = header_bytes(sample_rate, channels, data_size);
    proof {
        assert(byte_rate == ((sample_rate * channels * 2) as u32));
    }
    let mut buf = zero_bytes(file_size);
    let mut offset: usize = 0;

    let piece = tag4(0x52, 0x49, 0x46, 0x46);
    write_slice(&mut buf, &mut offset, &piece);
    proof {
        assert(buf@.take(offset as int) =~= seq![0x52u8, 0x49u8, 0x46u8, 0x46u8]);
    }
    let piece = u32_to_le(chunk);
    write_slice(&mut buf, &mut offset, &piece);
    let ghost done = seq![0x52u8, 0x49u8, 0x46u8, 0x46u8] + le32(chunk);
    assert(buf@.take(offset as int) == done);
    let piece = tag4(0x57, 0x41, 0x56, 0x45);
    write_slice(&mut buf, &mut offset, &piece);
    let ghost done = done + seq![0x57u8, 0x41u8, 0x56u8, 0x45u8];
    assert(buf@.take(offset as int) == done);
    let piece = tag4(0x66, 0x6d, 0x74, 0x20);
    write_slice(&mut buf, &mut offset, &piece);
    let ghost done = done + seq![0x66u8, 0x6du8, 0x74u8, 0x20u8];
    assert(buf@.take(offset as int) == done);
    let piece = u32_to_le(16);
    write_slice(&mut buf, &mut offset, &piece);
    let ghost done = done + le32(16u32);
    assert(buf@.take(offset as int) == done);
    let piece = u16_to_le(1);
    write_slice(&mut buf, &mut offset, &piece);
    let ghost done = done + le16(1u16);
    assert(buf@.take(offset as int) == done);
    let piece = u16_to_le(channels);
    write_slice(&mut buf, &mut offset, &piece);
    let ghost done = done + le16(channels);
    assert(buf@.take(offset as int) == done);
    let piece = u32_to_le(sample_rate);
    write_slice(&mut buf, &mut offset, &piece);
    let ghost done = done + le32(sample_rate);
    assert(buf@.take(offset as int) == done);
    let piece = u32_to_le(byte_rate);
    write_slice(&mut buf, &mut offset, &piece);
    let ghost done = done + le32(byte_rate);
    assert(buf@.take(offset as int) == done);
    let piece = u16_to_le(block_align);
    write_slice(&mut buf, &mut offset, &piece);
    let ghost done = done + le16(block_align);
    assert(buf@.take(offset as int) == done);
    let piece = u16_to_le(16);
    write_slice(&mut buf, &mut offset, &piece);
    let ghost done = done + le16(16u16);
    assert(buf@.take(offset as int) == done);
    let piece = tag4(0x64, 0x61, 0x74, 0x61);
    write_slice(&mut buf, &mut offset, &piece);
    let ghost done = done + seq![0x64u8, 0x61u8, 0x74u8, 0x61u8];
    assert(buf@.take(offset as int) == done);
    let piece = u32_to_le(data_size);
    write_slice(&mut buf, &mut offset, &piece);
    let ghost done = done + le32(data_size);
    assert(buf@.take(offset as int) == done);
    proof {
        assert(offset == 44);
        assert(done == hdr);
    }

    let mut si: usize = 0;
    while si < samples.len()
        invariant
            1 <= channels <= 2,
            n == samples@.len() as int,
            c == channels as int,
            spec_data_size(n, c) + 44 <= u32::MAX,
            si <= samples@.len(),
            buf@.len() == file_size,
            file_size == 44 + spec_data_size(n, c),
            offset == 44 + spec_data_size(si as int, c),
            buf@.take(offset as int) == hdr + data_bytes(samples@.take(si as int), c),
        decreases samples@.len() - si,
    {
        proof {
            assert((si as int) * c * 2 + 2 * c <= n * c * 2) by (nonlinear_arith)
                requires
                    0 <= (si as int) && (si as int) < n,
                    1 <= c,
            ;
        }
        let w: u16 = #[verifier::truncate] (samples[si] as u16);
        let piece = u16_to_le(w);
        let ghost frame_start = offset as int;
        let ghost before = buf@.take(offset as int);
        let mut ch: u16 = 0;
        while ch < channels
            invariant
                1 <= channels <= 2,
                ch <= channels,
                c == channels as int,
                piece@ == le16(w),
                w == (samples@[si as int] as u16),
                si < samples@.len(),
                buf@.len() == file_size,
                frame_start + 2 * c <= file_size,
                offset == frame_start + 2 * ch,
                before == buf@.take(frame_start),
                buf@.take(offset as int) == before + frame_bytes(
                    samples@[si as int],
                    ch as int,
                ),
            decreases channels - ch,
        {
            write_slice(&mut buf, &mut offset, &piece);
            proof {
                assert(frame_bytes(samples@[si as int], ch + 1) == frame_bytes(
                    samples@[si as int],
                    ch as int,
                ) + le16(w));
                assert(buf@.take(offset as int) =~= before + frame_bytes(
                    samples@[si as int],
                    ch + 1,
                ));
                assert(buf@.take(frame_start) =~= before);
            }
            ch += 1;
        }
        proof {
            assert(samples@.take(si + 1).drop_last() =~= samples@.take(si as int));
            assert(samples@.take(si + 1).last() == samples@[si as int]);
            assert(data_bytes(samples@.take(si + 1), c) == data_bytes(
                samples@.take(si as int),
                c,
            ) + frame_bytes(samples@[si as int], c));
            assert(buf@.take(offset as int) =~= hdr + data_bytes(samples@.take(si + 1), c));
        }
        si += 1;
    }
    proof {
        assert(offset == file_size);
        assert(buf@.take(offset as int) =~= buf@);
        assert(samples@.take(samples@.len() as int) =~= samples@);
        assert(wave_bytes(sample_rate, channels, samples@) =~= hdr + data_bytes(samples@, c));
    }
    buf
}

/// The container image is always `chunk_size + 8` bytes long: 44 header
/// bytes plus the data payload. The pad byte is counted and would be
/// appended, but a 16-bit data payload is always even, so it never occurs.
pub proof fn lemma_wave_bytes_len(sample_rate: u32, channels: u16, samples: Seq<i16>)
    requires
        channels >= 1,
    ensures
        wave_bytes(sample_rate, channels, samples).len() == 44 + spec_data_size(
            samples.len() as int,
            channels as int,
        ),
        wave_bytes(sample_rate, channels, samples).len() == (36 + spec_data_size(
            samples.len() as int,
            channels as int,
        ) + spec_pad(spec_data_size(samples.len() as int, channels as int))) + 8,
{
    lemma_data_bytes_len(samples, channels as int);
    vstd::arithmetic::div_mod::lemma_mod_multiples_basic(
        samples.len() * (channels as int),
        2,
    );
    assert(header_bytes(
        sample_rate,
        channels,
        spec_data_size(samples.len() as int, channels as int) as u32,
    ).len() == 44);
}

/// The fields a header parse recovers.
#[derive(Clone, Copy, Debug, PartialEq, Eq, Structural)]
pub struct HeaderInfo {
    pub sample_rate: u32,
    pub channels: u16,
    pub bits_per_sample: u16,
    pub data_size: u32,
}

/// What parsing a header yields: `None` unless the bytes begin with a
/// 44-byte header whose four magic tags are in place; else the sample rate,
/// channel count, bit depth and data size read from their little-endian
/// fields.
pub open spec fn spec_parse_header(bytes: Seq<u8>) -> Option<HeaderInfo> {
    if bytes.len() < 44 {
        None
    } else if bytes[0] == 0x52 && bytes[1] == 0x49 && bytes[2] == 0x46 && bytes[3] == 0x46
        && bytes[8] == 0x57 && bytes[9] == 0x41 && bytes[10] == 0x56 && bytes[11] == 0x45
        && bytes[12] == 0x66 && bytes[13] == 0x6d && bytes[14] == 0x74 && bytes[15] == 0x20
        && bytes[36] == 0x64 && bytes[37] == 0x61 && bytes[38] == 0x74 && bytes[39] == 0x61 {
        Some(
            HeaderInfo {
                sample_rate: from_le32(bytes[24], bytes[25], bytes[26], bytes[27]) as u32,
                channels: from_le16(bytes[22], bytes[23]) as u16,
                bits_per_sample: from_le16(bytes[34], bytes[35]) as u16,
                data_size: from_le32(bytes[40], bytes[41], bytes[42], bytes[43]) as u32,
            },
        )
    } else {
        None
    }
}

/// Parses a container header back out of a byte buffer, exactly as
/// [`spec_parse_header`] states.
pub fn parse_header(bytes: &Vec<u8>) -> (r: Option<HeaderInfo>)
    ensures
        r == spec_parse_header(bytes@),
{
    if bytes.len() < 44 {
        return None;
    }
    let tags_ok: bool = bytes[0] == 0x52 && bytes[1] == 0x49 && bytes[2] == 0x46 && bytes[3]
        == 0x46 && bytes[8] == 0x57 && bytes[9] == 0x41 && bytes[10] == 0x56 && bytes[11] == 0x45
        && bytes[12] == 0x66 && bytes[13] == 0x6d && bytes[14] == 0x74 && bytes[15] == 0x20
        && bytes[36] == 0x64 && bytes[37] == 0x61 && bytes[38] == 0x74 && bytes[39] == 0x61;
    if !tags_ok {
        return None;
    }
    let sample_rate: u32 = (bytes[24] as u32) + 256 * (bytes[25] as u32) + 65536 * (
    bytes[26] as u32) + 16777216 * (bytes[27] as u32);
    let channels: u16 = (bytes[22] as u16) + 256 * (bytes[23] as u16);
    let bits_per_sample: u16 = (bytes[34] as u16) + 256 * (bytes[35] as u16);
    let data_size: u32 = (bytes[40] as u32) + 256 * (bytes[41] as u32) + 65536 * (
    bytes[42] as u32) + 16777216 * (bytes[43] as u32);
    Some(HeaderInfo { sample_rate, channels, bits_per_sample, data_size })
}

/// Round trip: parsing a container the writer produced recovers exactly the
/// configured sample rate, channel count and bit depth, along with the data
/// size.
pub proof fn lemma_header_roundtrip(sample_rate: u32, channels: u16, samples: Seq<i16>)
    requires
        0 <= spec_data_size(samples.len() as int, channels as int) <= u32::MAX,
    ensures
        spec_parse_header(wave_bytes(sample_rate, channels, samples)) == Some(
            HeaderInfo {
                sample_rate,
                channels,
                bits_per_sample: 16,
                data_size: spec_data_size(samples.len() as int, channels as int) as u32,
            },
        ),
{
    let data_size = spec_data_size(samples.len() as int, channels as int) as u32;
    let h = header_bytes(sample_rate, channels, data_size);
    let w = wave_bytes(sample_rate, channels, samples);
    assert(h.len() == 44);
    assert(forall|k: int| 0 <= k < 44 ==> w[k] == h[k]);
    lemma_le32_roundtrip(sample_rate);
    lemma_le16_roundtrip(channels);
    lemma_le16_roundtrip(16u16);
    lemma_le32_roundtrip(data_size);
    assert(spec_parse_header(w) == Some(
        HeaderInfo { sample_rate, channels, bits_per_sample: 16, data_size },
    ));
}

/// A zero-filled byte buffer.
fn zero_bytes(n: usize) -> (buf: Vec<u8>)
    ensures
        buf@.len() == n,
        forall|j: int| 0 <= j < n ==> buf@[j] == 0u8,
{
    let mut buf: Vec<u8> = Vec::new();
    let mut k: usize = 0;
    while k < n
        invariant
            k <= n,
            buf@.len() == k,
            forall|j: int| 0 <= j < k ==> buf@[j] == 0u8,
        decreases n - k,
    {
        buf.push(0);
        k += 1;
    }
    buf
}

} // verus!
