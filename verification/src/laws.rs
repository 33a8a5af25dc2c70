//! Proved laws of the decoder model: quiet input decodes to nothing,
//! decoding is deterministic, a synthetic pulse train round-trips, a long
//! gap always flushes a section, and only channel zero influences decoding.

use vstd::prelude::*;

use crate::model::{
    assemble, assemble_from, classify_spec, crossings, decode_spec, is_crossing, last_qual,
    pulse_bit, qualifies, split_from, sync_found, DecodeError, Pulse,
};

verus! {

/// How many of the first `n` samples take part in crossing detection: they
/// lie on channel zero and exceed the noise threshold.
pub open spec fn qual_count(samples: Seq<i32>, channels: int, n: int) -> nat
    decreases n,
{
    if n <= 0 {
        0
    } else if (n - 1) % channels == 0 && qualifies(samples[n - 1]) {
        qual_count(samples, channels, n - 1) + 1
    } else {
        qual_count(samples, channels, n - 1)
    }
}

proof fn lemma_qual_count_mono(samples: Seq<i32>, channels: int, m: int, n: int)
    requires
        m <= n,
    ensures
        qual_count(samples, channels, m) <= qual_count(samples, channels, n),
    decreases n - m,
{
    if m < n {
        lemma_qual_count_mono(samples, channels, m, n - 1);
    }
}

proof fn lemma_last_qual_needs_qual(samples: Seq<i32>, channels: int, n: int)
    ensures
        last_qual(samples, channels, n) != 0 ==> qual_count(samples, channels, n) >= 1,
    decreases n,
{
    if n > 0 {
        lemma_last_qual_needs_qual(samples, channels, n - 1);
        lemma_qual_count_mono(samples, channels, n - 1, n);
    }
}

proof fn lemma_crossing_needs_two(samples: Seq<i32>, channels: int, i: int)
    requires
        is_crossing(samples, channels, i),
    ensures
        qual_count(samples, channels, i + 1) >= 2,
{
    lemma_last_qual_needs_qual(samples, channels, i);
}

proof fn lemma_quiet_crossings_empty(samples: Seq<i32>, channels: int, n: int)
    requires
        qual_count(samples, channels, n) < 2,
    ensures
        crossings(samples, channels, n) == Seq::<int>::empty(),
    decreases n,
{
    if n > 0 {
        lemma_qual_count_mono(samples, channels, n - 1, n);
        lemma_quiet_crossings_empty(samples, channels, n - 1);
        if is_crossing(samples, channels, n - 1) {
            lemma_crossing_needs_two(samples, channels, n - 1);
        }
    }
}

/// A buffer with fewer than two channel-zero samples above the noise
/// threshold produces no crossings, so decoding returns no sections — and no
/// error.
pub proof fn lemma_quiet_input_decodes_empty(samples: Seq<i32>, sample_rate: int, channels: int)
    requires
        qual_count(samples, channels, samples.len() as int) < 2,
    ensures
        decode_spec(samples, sample_rate, channels) == Ok::<Seq<Seq<bool>>, DecodeError>(
            Seq::<Seq<bool>>::empty(),
        ),
{
    lemma_quiet_crossings_empty(samples, channels, samples.len() as int);
}

/// Decoding is deterministic: the decoder's contract allows one output per
/// input, so any two successful outcomes on the same samples and format
/// carry the same bit sequences.
pub proof fn lemma_decode_deterministic(
    samples: Seq<i32>,
    sample_rate: int,
    channels: int,
    out1: Seq<Seq<bool>>,
    out2: Seq<Seq<bool>>,
)
    requires
        decode_spec(samples, sample_rate, channels) == Ok::<_, DecodeError>(out1),
        decode_spec(samples, sample_rate, channels) == Ok::<_, DecodeError>(out2),
    ensures
        out1 == out2,
{
}

/// The eight bits of a byte, most significant first.
pub open spec fn byte_bits(b: u8) -> Seq<bool> {
    seq![
        b & 0x80 != 0,
        b & 0x40 != 0,
        b & 0x20 != 0,
        b & 0x10 != 0,
        b & 0x08 != 0,
        b & 0x04 != 0,
        b & 0x02 != 0,
        b & 0x01 != 0,
    ]
}

/// The bits of a byte sequence, in order, most significant bit first.
pub open spec fn bytes_bits(bs: Seq<u8>) -> Seq<bool>
    decreases bs.len(),
{
    if bs.len() == 0 {
        Seq::empty()
    } else {
        byte_bits(bs[0]) + bytes_bits(bs.skip(1))
    }
}

/// The pulse that encodes each payload bit: One for a one, Zero for a zero.
pub open spec fn bit_pulses(bits: Seq<bool>) -> Seq<Pulse> {
    bits.map_values(|b: bool| if b { Pulse::One } else { Pulse::Zero })
}

/// The pulses whose bits form the synchronization marker `01111111`: a Start
/// pulse (a zero bit before synchronization) and seven One pulses.
pub open spec fn marker_pulses() -> Seq<Pulse> {
    seq![
        Pulse::Start,
        Pulse::One,
        Pulse::One,
        Pulse::One,
        Pulse::One,
        Pulse::One,
        Pulse::One,
        Pulse::One,
    ]
}

/// Once synchronized, a run of data pulses (no Start among them) appends
/// exactly its bits to the accumulator and succeeds.
proof fn lemma_assemble_data(pulses: Seq<Pulse>, j: int, bits: Seq<bool>)
    requires
        0 <= j <= pulses.len(),
        forall|k: int| j <= k < pulses.len() ==> !((#[trigger] pulses[k]) is Start),
    ensures
        assemble_from(pulses, j, true, bits) == Ok::<_, DecodeError>(
            bits + pulses.subrange(j, pulses.len() as int).map_values(|p: Pulse| pulse_bit(p)),
        ),
    decreases pulses.len() - j,
{
    let tail = pulses.subrange(j, pulses.len() as int).map_values(|p: Pulse| pulse_bit(p));
    if j == pulses.len() {
        assert(bits + tail =~= bits);
    } else {
        let grown = bits.push(pulse_bit(pulses[j]));
        lemma_assemble_data(pulses, j + 1, grown);
        let tail2 = pulses.subrange(j + 1, pulses.len() as int).map_values(
            |p: Pulse| pulse_bit(p),
        );
        assert(grown + tail2 =~= bits + tail);
    }
}

/// Round trip over bits: a section built as the marker pulses followed by
/// the data pulses of any payload decodes back to exactly that payload.
pub proof fn lemma_round_trip_bits(payload: Seq<bool>)
    ensures
        assemble(marker_pulses() + bit_pulses(payload)) == Ok::<_, DecodeError>(payload),
{
    let all = marker_pulses() + bit_pulses(payload);
    let b1 = seq![false];
    let b2 = seq![false, true];
    let b3 = seq![false, true, true];
    let b4 = seq![false, true, true, true];
    let b5 = seq![false, true, true, true, true];
    let b6 = seq![false, true, true, true, true, true];
    let b7 = seq![false, true, true, true, true, true, true];
    let b8 = seq![false, true, true, true, true, true, true, true];
    assert(all[0] == Pulse::Start && all[1] == Pulse::One && all[2] == Pulse::One && all[3]
        == Pulse::One && all[4] == Pulse::One && all[5] == Pulse::One && all[6] == Pulse::One
        && all[7] == Pulse::One);
    assert(Seq::<bool>::empty().push(false) =~= b1);
    assert(b1.push(true) =~= b2);
    assert(b2.push(true) =~= b3);
    assert(b3.push(true) =~= b4);
    assert(b4.push(true) =~= b5);
    assert(b5.push(true) =~= b6);
    assert(b6.push(true) =~= b7);
    assert(b7.push(true) =~= b8);
    assert(!sync_found(b1) && !sync_found(b2) && !sync_found(b3) && !sync_found(b4) && !sync_found(
        b5,
    ) && !sync_found(b6) && !sync_found(b7));
    assert(sync_found(b8));
    assert(assemble_from(all, 0, false, Seq::empty()) == assemble_from(all, 1, false, b1));
    assert(assemble_from(all, 1, false, b1) == assemble_from(all, 2, false, b2));
    assert(assemble_from(all, 2, false, b2) == assemble_from(all, 3, false, b3));
    assert(assemble_from(all, 3, false, b3) == assemble_from(all, 4, false, b4));
    assert(assemble_from(all, 4, false, b4) == assemble_from(all, 5, false, b5));
    assert(assemble_from(all, 5, false, b5) == assemble_from(all, 6, false, b6));
    assert(assemble_from(all, 6, false, b6) == assemble_from(all, 7, false, b7));
    assert(assemble_from(all, 7, false, b7) == assemble_from(all, 8, true, Seq::empty()));
    assert forall|k: int| 8 <= k < all.len() implies !((#[trigger] all[k]) is Start) by {
        assert(all[k] == bit_pulses(payload)[k - 8]);
    }
    lemma_assemble_data(all, 8, Seq::empty());
    let tail = all.subrange(8, all.len() as int).map_values(|p: Pulse| pulse_bit(p));
    assert(Seq::<bool>::empty() + tail =~= payload);
}

/// Round trip over bytes: the marker followed by the bit pulses of a byte
/// sequence decodes back to exactly those bytes' bits.
pub proof fn lemma_round_trip_bytes(bytes: Seq<u8>)
    ensures
        assemble(marker_pulses() + bit_pulses(bytes_bits(bytes))) == Ok::<_, DecodeError>(
            bytes_bits(bytes),
        ),
{
    lemma_round_trip_bits(bytes_bits(bytes));
}

/// A gap classified as a section end always flushes the section being
/// collected — even one that has not synchronized, and even an empty one —
/// and starts collection afresh.
pub proof fn lemma_gap_ends_section(
    xs: Seq<int>,
    sample_rate: int,
    j: int,
    done: Seq<Seq<Pulse>>,
    cur: Seq<Pulse>,
)
    requires
        0 <= j,
        j + 1 < xs.len(),
        classify_spec(xs[j + 1] - xs[j], sample_rate) is SectionEnd,
    ensures
        split_from(xs, sample_rate, j, done, cur) == split_from(
            xs,
            sample_rate,
            j + 1,
            done.push(cur),
            Seq::empty(),
        ),
{
}

/// A section of fewer than eight pulses can never contain the marker, so it
/// fails with `SynchronizationNotFound`. In particular a section cut short
/// by a gap before it synchronized fails this way.
pub proof fn lemma_short_section_fails(pulses: Seq<Pulse>)
    requires
        pulses.len() < 8,
    ensures
        assemble(pulses) == Err::<Seq<bool>, DecodeError>(DecodeError::SynchronizationNotFound),
{
    lemma_short_section_fails_from(pulses, 0, Seq::empty());
}

proof fn lemma_short_section_fails_from(pulses: Seq<Pulse>, j: int, bits: Seq<bool>)
    requires
        0 <= j <= pulses.len(),
        bits.len() + pulses.len() - j < 8,
    ensures
        assemble_from(pulses, j, false, bits) == Err::<Seq<bool>, DecodeError>(
            DecodeError::SynchronizationNotFound,
        ),
    decreases pulses.len() - j,
{
    if j < pulses.len() {
        let grown = bits.push(pulse_bit(pulses[j]));
        assert(!sync_found(grown));
        lemma_short_section_fails_from(pulses, j + 1, grown);
    }
}

/// A crossing can lie only on channel zero: its index is a multiple of the
/// channel count, so with two channels no odd-indexed sample ever produces
/// one.
pub proof fn lemma_crossing_on_channel_zero(samples: Seq<i32>, channels: int, i: int)
    requires
        is_crossing(samples, channels, i),
    ensures
        i % channels == 0,
{
}

proof fn lemma_last_qual_channel_zero(s1: Seq<i32>, s2: Seq<i32>, channels: int, n: int)
    requires
        s1.len() == s2.len(),
        n <= s1.len(),
        forall|i: int| 0 <= i < s1.len() && i % channels == 0 ==> s1[i] == s2[i],
    ensures
        last_qual(s1, channels, n) == last_qual(s2, channels, n),
    decreases n,
{
    if n > 0 {
        lemma_last_qual_channel_zero(s1, s2, channels, n - 1);
    }
}

proof fn lemma_crossings_channel_zero(s1: Seq<i32>, s2: Seq<i32>, channels: int, n: int)
    requires
        s1.len() == s2.len(),
        n <= s1.len(),
        forall|i: int| 0 <= i < s1.len() && i % channels == 0 ==> s1[i] == s2[i],
    ensures
        crossings(s1, channels, n) == crossings(s2, channels, n),
    decreases n,
{
    if n > 0 {
        lemma_crossings_channel_zero(s1, s2, channels, n - 1);
        lemma_last_qual_channel_zero(s1, s2, channels, n - 1);
    }
}

/// Samples of channels other than zero never influence decoding: two
/// buffers that agree on every channel-zero sample decode alike, whatever
/// the other channels hold.
pub proof fn lemma_other_channels_ignored(
    s1: Seq<i32>,
    s2: Seq<i32>,
    sample_rate: int,
    channels: int,
)
    requires
        s1.len() == s2.len(),
        forall|i: int| 0 <= i < s1.len() && i % channels == 0 ==> s1[i] == s2[i],
    ensures
        decode_spec(s1, sample_rate, channels) == decode_spec(s2, sample_rate, channels),
{
    lemma_crossings_channel_zero(s1, s2, channels, s1.len() as int);
}

} // verus!
