//! End-to-end decoder tests over synthetic sample buffers.

use cassette::bitio::BitBuf;
use cassette::decoder::{decode, Spec};
use cassette::model::DecodeError;

/// Cumulative crossing indices for a train of crossing-to-crossing gaps,
/// with the first crossing at index 1.
fn crossing_indices(gaps: &[usize]) -> Vec<usize> {
    let mut indices = vec![1usize];
    for &g in gaps {
        let last = *indices.last().unwrap();
        indices.push(last + g);
    }
    indices
}

/// A mono buffer whose qualifying negative-to-positive transitions lie at
/// exactly the given ascending indices (each at least 1 and at least 2
/// apart): a strong negative sample right before each crossing index, a
/// strong positive one at it, silence elsewhere.
fn samples_with_crossings(indices: &[usize]) -> Vec<i32> {
    let last = *indices.last().unwrap();
    let mut samples = vec![0i32; last + 1];
    for &c in indices {
        samples[c - 1] = -20000;
        samples[c] = 20000;
    }
    samples
}

fn mono(sample_rate: u32) -> Spec {
    Spec::new(sample_rate, 1)
}

fn bits(bv: &BitBuf) -> Vec<bool> {
    let mut out = Vec::new();
    for i in 0..bv.len() {
        out.push(bv.get(i));
    }
    out
}

/// Gap widths at 44100 Hz: the marker (a Start pulse and seven One pulses),
/// then one gap per payload bit.
fn gaps_for_payload(payload: &[bool]) -> Vec<usize> {
    let mut gaps = vec![43, 17, 17, 17, 17, 17, 17, 17];
    for &b in payload {
        gaps.push(if b { 17 } else { 37 });
    }
    gaps
}

fn byte_to_bits(b: u8) -> Vec<bool> {
    (0..8).map(|i| b & (0x80 >> i) != 0).collect()
}

#[test]
fn round_trip_bytes() {
    let bytes = [0xABu8, 0x00, 0xFF, 0x7F];
    let payload: Vec<bool> = bytes.iter().flat_map(|&b| byte_to_bits(b)).collect();
    let samples = samples_with_crossings(&crossing_indices(&gaps_for_payload(&payload)));
    let out = decode(&samples, mono(44100)).unwrap();
    assert_eq!(out.len(), 1);
    assert_eq!(bits(&out[0]), payload);
}

#[test]
fn round_trip_scaled_sample_rate() {
    // At 88200 Hz every range doubles: One is [30, 40), Zero [70, 78),
    // Start [82, 92) samples.
    let payload = [true, false, true, true, false, false, true, false];
    let mut gaps = vec![86, 34, 34, 34, 34, 34, 34, 34];
    for &b in payload.iter() {
        gaps.push(if b { 34 } else { 74 });
    }
    let samples = samples_with_crossings(&crossing_indices(&gaps));
    let out = decode(&samples, mono(88200)).unwrap();
    assert_eq!(out.len(), 1);
    assert_eq!(bits(&out[0]), payload.to_vec());
}

#[test]
fn quiet_buffer_decodes_empty() {
    let samples = vec![0i32; 500];
    let out = decode(&samples, mono(44100)).unwrap();
    assert!(out.is_empty());
}

#[test]
fn single_loud_sample_decodes_empty() {
    let mut samples = vec![0i32; 100];
    samples[50] = 30000;
    let out = decode(&samples, mono(44100)).unwrap();
    assert!(out.is_empty());
}

#[test]
fn empty_buffer_decodes_empty() {
    let samples: Vec<i32> = Vec::new();
    let out = decode(&samples, mono(44100)).unwrap();
    assert!(out.is_empty());
}

#[test]
fn lone_crossing_yields_no_section() {
    // Two qualifying samples make one crossing, hence no gap and no pulse.
    let samples = vec![-20000i32, 20000];
    let out = decode(&samples, mono(44100)).unwrap();
    assert!(out.is_empty());
}

#[test]
fn decoding_is_deterministic() {
    let payload = [true, true, false, true, false, false, false, true];
    let samples = samples_with_crossings(&crossing_indices(&gaps_for_payload(&payload)));
    let first = decode(&samples, mono(44100)).unwrap();
    let second = decode(&samples, mono(44100)).unwrap();
    let first_bits: Vec<Vec<bool>> = first.iter().map(bits).collect();
    let second_bits: Vec<Vec<bool>> = second.iter().map(bits).collect();
    assert_eq!(first_bits, second_bits);
}

#[test]
fn gap_before_sync_fails_section() {
    // Two One pulses, then a long gap: the flushed section never saw the
    // marker, and the whole call fails even though a valid section follows.
    let mut gaps = vec![17, 17, 25000];
    gaps.extend(gaps_for_payload(&[true]));
    let samples = samples_with_crossings(&crossing_indices(&gaps));
    let err = decode(&samples, mono(44100)).unwrap_err();
    assert_eq!(err, DecodeError::SynchronizationNotFound);
}

#[test]
fn two_sections_decode_in_order() {
    let first = [true, false, false, true, false, true, true, false];
    let second = [false, false, true, true, true, true, false, false];
    let mut gaps = gaps_for_payload(&first);
    gaps.push(25000);
    gaps.extend(gaps_for_payload(&second));
    let samples = samples_with_crossings(&crossing_indices(&gaps));
    let out = decode(&samples, mono(44100)).unwrap();
    assert_eq!(out.len(), 2);
    assert_eq!(bits(&out[0]), first.to_vec());
    assert_eq!(bits(&out[1]), second.to_vec());
}

#[test]
fn double_start_on_byte_boundary_is_valid() {
    // After the marker, zero bits have accumulated: a second and third Start
    // are idle markers on a byte boundary and add no bits.
    let mut gaps = gaps_for_payload(&[]);
    gaps.push(43);
    gaps.push(43);
    let samples = samples_with_crossings(&crossing_indices(&gaps));
    let out = decode(&samples, mono(44100)).unwrap();
    assert_eq!(out.len(), 1);
    assert_eq!(bits(&out[0]), Vec::<bool>::new());
}

#[test]
fn start_after_three_bits_is_misaligned() {
    let mut gaps = gaps_for_payload(&[true, true, true]);
    gaps.push(43);
    let samples = samples_with_crossings(&crossing_indices(&gaps));
    let err = decode(&samples, mono(44100)).unwrap_err();
    assert_eq!(err, DecodeError::MisalignedStartPulse);
}

#[test]
fn start_after_full_byte_is_valid() {
    let payload = byte_to_bits(0x5A);
    let mut gaps = gaps_for_payload(&payload);
    gaps.push(43);
    let samples = samples_with_crossings(&crossing_indices(&gaps));
    let out = decode(&samples, mono(44100)).unwrap();
    assert_eq!(out.len(), 1);
    assert_eq!(bits(&out[0]), payload);
}

#[test]
fn unknown_gap_fails_with_its_width() {
    // 25 samples at 44100 Hz falls in no range and is no section gap.
    let samples = samples_with_crossings(&crossing_indices(&[25]));
    let err = decode(&samples, mono(44100)).unwrap_err();
    assert_eq!(err, DecodeError::InvalidPulseLength { gap: 25 });
}

#[test]
fn format_descriptor_holds_its_fields() {
    let fmt = Spec::new(48000, 2);
    assert_eq!(fmt.sample_rate, 48000);
    assert_eq!(fmt.channels, 2);
}
