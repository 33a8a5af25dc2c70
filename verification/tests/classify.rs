//! Boundary tests for the pulse classifier and the crossing detector.

use cassette::decoder::{classify, decode, detect_crossings, Spec};
use cassette::model::{Classified, Pulse};

fn one() -> Classified {
    Classified::Pulse(Pulse::One)
}

fn zero() -> Classified {
    Classified::Pulse(Pulse::Zero)
}

fn start() -> Classified {
    Classified::Pulse(Pulse::Start)
}

#[test]
fn one_range_boundaries() {
    assert_eq!(classify(14, 44100), Classified::Invalid);
    assert_eq!(classify(15, 44100), one());
    assert_eq!(classify(19, 44100), one());
    assert_eq!(classify(20, 44100), Classified::Invalid);
}

#[test]
fn zero_range_boundaries() {
    assert_eq!(classify(34, 44100), Classified::Invalid);
    assert_eq!(classify(35, 44100), zero());
    assert_eq!(classify(38, 44100), zero());
    assert_eq!(classify(39, 44100), Classified::Invalid);
}

#[test]
fn start_range_boundaries() {
    assert_eq!(classify(40, 44100), Classified::Invalid);
    assert_eq!(classify(41, 44100), start());
    assert_eq!(classify(45, 44100), start());
    assert_eq!(classify(46, 44100), Classified::Invalid);
}

#[test]
fn section_gap_boundary_is_exclusive() {
    // Exactly 20000/44100 s is not yet a section gap.
    assert_eq!(classify(20000, 44100), Classified::Invalid);
    assert_eq!(classify(20001, 44100), Classified::SectionEnd);
    assert_eq!(classify(1_000_000, 44100), Classified::SectionEnd);
}

#[test]
fn ranges_scale_with_the_sample_rate() {
    // At 88200 Hz the One range doubles to [30, 40) samples.
    assert_eq!(classify(29, 88200), Classified::Invalid);
    assert_eq!(classify(30, 88200), one());
    assert_eq!(classify(39, 88200), one());
    assert_eq!(classify(40, 88200), Classified::Invalid);
    // At 22050 Hz the Zero range halves to [17.5, 19.5) samples.
    assert_eq!(classify(17, 22050), Classified::Invalid);
    assert_eq!(classify(18, 22050), zero());
    assert_eq!(classify(19, 22050), zero());
    assert_eq!(classify(20, 22050), Classified::Invalid);
}

#[test]
fn zero_gap_is_invalid() {
    assert_eq!(classify(0, 44100), Classified::Invalid);
}

#[test]
fn detector_finds_negative_to_positive_only() {
    // One full cycle: down, up, down again. Only the upward transition
    // through zero counts.
    let samples = vec![0, -20000, 20000, -20000, 0];
    assert_eq!(detect_crossings(&samples, 1), vec![2]);
}

#[test]
fn detector_threshold_is_strict() {
    // Samples at exactly the threshold magnitude do not qualify.
    assert_eq!(detect_crossings(&vec![-3276, 3277], 1), Vec::<usize>::new());
    assert_eq!(detect_crossings(&vec![-3277, 3276], 1), Vec::<usize>::new());
    assert_eq!(detect_crossings(&vec![-3277, 3277], 1), vec![1]);
}

#[test]
fn detector_skips_noise_between_crossings() {
    // Sub-threshold wiggles between the two strong samples change nothing.
    let samples = vec![-20000, 3000, -3000, 1, 20000];
    assert_eq!(detect_crossings(&samples, 1), vec![4]);
}

#[test]
fn detector_reads_channel_zero_only() {
    // Interleaved stereo: channel one holds transitions that must not count.
    let samples = vec![
        -20000, 20000, // frame 0: channel 0 down, channel 1 up
        20000, -20000, // frame 1: channel 0 up (crossing at index 2)
        0, 20000, // frame 2
    ];
    assert_eq!(detect_crossings(&samples, 2), vec![2]);
}

#[test]
fn other_channels_do_not_change_decoding() {
    // A mono train stretched to stereo (even indices), first with silent odd
    // samples, then with loud garbage there: the output must agree.
    let gaps = [42usize, 16, 16, 16, 16, 16, 16, 16, 16, 36, 16];
    let mut indices = vec![2usize];
    for &g in gaps.iter() {
        let last = *indices.last().unwrap();
        indices.push(last + g);
    }
    let last = *indices.last().unwrap();
    let mut quiet = vec![0i32; last + 1];
    for &c in indices.iter() {
        quiet[c - 2] = -20000;
        quiet[c] = 20000;
    }
    let mut noisy = quiet.clone();
    let mut i = 1;
    while i < noisy.len() {
        noisy[i] = if i % 4 == 1 { 30000 } else { -30000 };
        i += 2;
    }
    let fmt = Spec::new(44100, 2);
    let quiet_out = decode(&quiet, fmt).unwrap();
    let noisy_out = decode(&noisy, fmt).unwrap();
    assert_eq!(quiet_out.len(), 1);
    assert_eq!(noisy_out.len(), 1);
    let read = |bv: &cassette::bitio::BitBuf| -> Vec<bool> {
        (0..bv.len()).map(|i| bv.get(i)).collect()
    };
    assert_eq!(read(&quiet_out[0]), vec![true, false, true]);
    assert_eq!(read(&noisy_out[0]), read(&quiet_out[0]));
}
