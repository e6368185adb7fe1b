use wavesong::buffer::{add, grab, merge, overwrite, InternalError};
use wavesong::mix::quantize;
use wavesong::wave::{parse_header, u16_to_le, u32_to_le, write_wave};

#[test]
fn overwrite_keeps_the_new_value() {
    assert_eq!(overwrite(3u32, 7u32), 7);
    assert_eq!(overwrite("old", "new"), "new");
}

#[test]
fn add_sums_current_and_new() {
    assert_eq!(add(3, 7), 10);
    assert_eq!(add(-5, 2), -3);
}

#[test]
fn grab_reserves_consecutive_windows() {
    let mut offset: usize = 0;
    assert_eq!(grab(10, &mut offset, 4), Some(0));
    assert_eq!(offset, 4);
    assert_eq!(grab(10, &mut offset, 6), Some(4));
    assert_eq!(offset, 10);
    assert_eq!(grab(10, &mut offset, 1), None);
    assert_eq!(offset, 10);
}

#[test]
fn merge_overwrites_a_window() {
    let mut dst: Vec<u8> = vec![0, 0, 0, 0, 0];
    let src: Vec<u8> = vec![7, 8];
    assert!(merge(&mut dst, 1, &src, |_a, b| b).is_ok());
    assert_eq!(dst, vec![0, 7, 8, 0, 0]);
}

#[test]
fn merge_adds_into_a_window() {
    let mut dst: Vec<i128> = vec![1, 2, 3];
    let src: Vec<i128> = vec![10, 10, 10];
    assert!(merge(&mut dst, 0, &src, |a, b| a + b).is_ok());
    assert_eq!(dst, vec![11, 12, 13]);
}

#[test]
fn merge_mismatched_lengths_is_a_fatal_error() {
    let mut dst: Vec<i128> = vec![1, 2, 3];
    let src: Vec<i128> = vec![4, 5];
    let r = merge(&mut dst, 2, &src, |a, b| a + b);
    assert_eq!(r, Err(InternalError::MismatchedLength));
    // never silently truncated: the destination is untouched
    assert_eq!(dst, vec![1, 2, 3]);
}

#[test]
fn little_endian_encodings_are_exact() {
    assert_eq!(u16_to_le(0x1234), vec![0x34, 0x12]);
    assert_eq!(u32_to_le(0x12345678), vec![0x78, 0x56, 0x34, 0x12]);
    assert_eq!(u32_to_le(44100), vec![0x44, 0xac, 0x00, 0x00]);
}

#[test]
fn quantization_is_floor_based() {
    // an amplitude of exactly 0.5/32767 sits at mix value 16384 and must
    // quantize to 0, not 1
    let half_lsb = ((0.5f64 / 32767.0) * (32767.0 * 32768.0)) as i128;
    assert_eq!(half_lsb, 16384);
    assert_eq!(quantize(half_lsb), 0);
    // floor, not truncation: a tiny negative value already drops to -1
    assert_eq!(quantize(-1), -1);
    assert_eq!(quantize(32767), 0);
    assert_eq!(quantize(32768), 1);
    // clamping at full scale on both sides
    assert_eq!(quantize(32768 * 32767), 32767);
    assert_eq!(quantize(32768 * 32767 + 5_000_000), 32767);
    assert_eq!(quantize(-(32768 * 32767) - 5_000_000), -32767);
}

#[test]
fn write_wave_emits_the_exact_header_and_frames() {
    let samples: Vec<i16> = vec![0, 1, -1];
    let bytes = write_wave(44100, 1, &samples);
    let mut expected: Vec<u8> = Vec::new();
    expected.extend_from_slice(b"RIFF");
    expected.extend_from_slice(&[42, 0, 0, 0]); // chunk size 36 + 6
    expected.extend_from_slice(b"WAVE");
    expected.extend_from_slice(b"fmt ");
    expected.extend_from_slice(&[16, 0, 0, 0]);
    expected.extend_from_slice(&[1, 0]); // PCM
    expected.extend_from_slice(&[1, 0]); // mono
    expected.extend_from_slice(&[0x44, 0xac, 0, 0]); // 44100
    expected.extend_from_slice(&[0x88, 0x58, 0x01, 0]); // byte rate 88200
    expected.extend_from_slice(&[2, 0]); // block align
    expected.extend_from_slice(&[16, 0]); // bits per sample
    expected.extend_from_slice(b"data");
    expected.extend_from_slice(&[6, 0, 0, 0]);
    expected.extend_from_slice(&[0, 0, 1, 0, 0xff, 0xff]);
    assert_eq!(bytes, expected);
}

#[test]
fn write_wave_duplicates_each_sample_across_stereo_channels() {
    let samples: Vec<i16> = vec![5, -2];
    let bytes = write_wave(8000, 2, &samples);
    assert_eq!(bytes.len(), 44 + 8);
    assert_eq!(&bytes[44..], &[5, 0, 5, 0, 0xfe, 0xff, 0xfe, 0xff]);
}

#[test]
fn parse_header_recovers_the_written_fields() {
    let samples: Vec<i16> = vec![0; 10];
    let bytes = write_wave(22050, 2, &samples);
    let info = parse_header(&bytes).expect("a written container parses");
    assert_eq!(info.sample_rate, 22050);
    assert_eq!(info.channels, 2);
    assert_eq!(info.bits_per_sample, 16);
    assert_eq!(info.data_size, 40);
}

#[test]
fn parse_header_rejects_short_or_untagged_bytes() {
    assert!(parse_header(&vec![0; 10]).is_none());
    let samples: Vec<i16> = vec![0];
    let mut bytes = write_wave(8000, 1, &samples);
    bytes[0] = b'X';
    assert!(parse_header(&bytes).is_none());
}
