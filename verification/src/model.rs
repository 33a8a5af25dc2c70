//! Mathematical model of the decoder: what the crossing detector, the pulse
//! classifier and the frame assembler compute, stated over `Seq` values.

use vstd::prelude::*;

verus! {

/// Minimum distance from zero for a sample to take part in crossing
/// detection; ten percent of the largest sixteen-bit amplitude.
pub const CROSS_THRESHOLD: i32 = 3276;

/// One classified pulse: the interval between two consecutive qualifying
/// zero-crossings, named by the duration range it falls in.
#[derive(Clone, Copy, PartialEq, Eq, Structural, Debug)]
pub enum Pulse {
    Start,
    Zero,
    One,
}

/// Outcome of classifying one crossing-to-crossing gap.
#[derive(Clone, Copy, PartialEq, Eq, Structural, Debug)]
pub enum Classified {
    /// The gap is a valid pulse.
    Pulse(Pulse),
    /// The gap is long silence: it ends the current section.
    SectionEnd,
    /// The gap matches no pulse range and is no section gap.
    Invalid,
}

/// Why a decode call failed. Every error aborts the whole call: the decoder
/// never returns partial output.
#[derive(Clone, Copy, PartialEq, Eq, Structural, Debug)]
pub enum DecodeError {
    /// A crossing-to-crossing gap (in samples) matched no pulse range and was
    /// no section gap; the gap is carried for diagnostics.
    InvalidPulseLength { gap: usize },
    /// A Start pulse recurred after synchronization while the accumulated bit
    /// count was not a multiple of eight.
    MisalignedStartPulse,
    /// A section ended without the synchronization marker ever appearing.
    SynchronizationNotFound,
}

/// A sample takes part in crossing detection when its distance from zero
/// exceeds the noise threshold.
pub open spec fn qualifies(s: i32) -> bool {
    s > CROSS_THRESHOLD || s < -CROSS_THRESHOLD
}

/// The most recent channel-zero sample among the first `n` that qualifies,
/// or zero if none has been seen yet.
pub open spec fn last_qual(samples: Seq<i32>, channels: int, n: int) -> int
    decreases n,
{
    if n <= 0 {
        0
    } else if (n - 1) % channels == 0 && qualifies(samples[n - 1]) {
        samples[n - 1] as int
    } else {
        last_qual(samples, channels, n - 1)
    }
}

/// A qualifying negative-to-positive transition on channel zero at index `i`:
/// the sample there is positive and above the threshold, and the last
/// qualifying channel-zero sample before it was negative. Transitions in the
/// other direction, and samples of other channels, never count.
pub open spec fn is_crossing(samples: Seq<i32>, channels: int, i: int) -> bool {
    &&& 0 <= i < samples.len()
    &&& i % channels == 0
    &&& qualifies(samples[i])
    &&& samples[i] > 0
    &&& last_qual(samples, channels, i) < 0
}

/// The ascending sequence of crossing indices among the first `n` samples.
pub open spec fn crossings(samples: Seq<i32>, channels: int, n: int) -> Seq<int>
    decreases n,
{
    if n <= 0 {
        Seq::empty()
    } else if is_crossing(samples, channels, n - 1) {
        crossings(samples, channels, n - 1).push(n - 1)
    } else {
        crossings(samples, channels, n - 1)
    }
}

/// All crossing indices of the buffer.
pub open spec fn all_crossings(samples: Seq<i32>, channels: int) -> Seq<int> {
    crossings(samples, channels, samples.len() as int)
}

/// Classification of one gap of `gap` samples at rate `sample_rate`, by
/// half-open duration ranges fixed at a 44100 Hz reference and scaled by the
/// actual rate: the gap lasts `gap / sample_rate` seconds, and e.g. a One is
/// `[15/44100, 20/44100)` seconds, so `15 * sample_rate <= 44100 * gap <
/// 20 * sample_rate`.
pub open spec fn classify_spec(gap: int, sample_rate: int) -> Classified {
    let scaled = 44100 * gap;
    if 15 * sample_rate <= scaled && scaled < 20 * sample_rate {
        Classified::Pulse(Pulse::One)
    } else if 35 * sample_rate <= scaled && scaled < 39 * sample_rate {
        Classified::Pulse(Pulse::Zero)
    } else if 41 * sample_rate <= scaled && scaled < 46 * sample_rate {
        Classified::Pulse(Pulse::Start)
    } else if scaled > 20000 * sample_rate {
        Classified::SectionEnd
    } else {
        Classified::Invalid
    }
}

/// Grouping of the gaps between consecutive crossings into sections,
/// continued from pair `j` with sections `done` already flushed and the
/// pulses `cur` collected for the section in progress. A section gap always
/// flushes `cur`, even empty; a final partial section is kept only if it has
/// collected any pulses; an unclassifiable gap fails the whole call.
pub open spec fn split_from(
    xs: Seq<int>,
    sample_rate: int,
    j: int,
    done: Seq<Seq<Pulse>>,
    cur: Seq<Pulse>,
) -> Result<Seq<Seq<Pulse>>, DecodeError>
    decreases xs.len() - j,
{
    if j < 0 || j + 1 >= xs.len() {
        Ok(if cur.len() > 0 {
            done.push(cur)
        } else {
            done
        })
    } else {
        match classify_spec(xs[j + 1] - xs[j], sample_rate) {
            Classified::Pulse(p) => split_from(xs, sample_rate, j + 1, done, cur.push(p)),
            Classified::SectionEnd => split_from(
                xs,
                sample_rate,
                j + 1,
                done.push(cur),
                Seq::empty(),
            ),
            Classified::Invalid => Err(
                DecodeError::InvalidPulseLength { gap: (xs[j + 1] - xs[j]) as usize },
            ),
        }
    }
}

/// The sections of a whole crossing sequence.
pub open spec fn sections_of(xs: Seq<int>, sample_rate: int) -> Result<
    Seq<Seq<Pulse>>,
    DecodeError,
> {
    split_from(xs, sample_rate, 0, Seq::empty(), Seq::empty())
}

/// The bit a pulse encodes while bits are being collected: One is a one bit,
/// Zero and a pre-synchronization Start are zero bits.
pub open spec fn pulse_bit(p: Pulse) -> bool {
    p is One
}

/// Whether `bits` ends in the synchronization marker `01111111`.
pub open spec fn sync_found(bits: Seq<bool>) -> bool {
    let n = bits.len() as int;
    &&& bits.len() >= 8
    &&& !bits[n - 8]
    &&& bits[n - 7]
    &&& bits[n - 6]
    &&& bits[n - 5]
    &&& bits[n - 4]
    &&& bits[n - 3]
    &&& bits[n - 2]
    &&& bits[n - 1]
}

/// The frame assembler, continued from pulse `j` of a section with
/// synchronization state `active` and accumulated `bits`. Zero and One
/// append their bit; a Start before synchronization appends a zero bit; a
/// Start after synchronization appends nothing but must land on a byte
/// boundary. After each appended bit, if the accumulator ends in the marker
/// and synchronization was still pending, everything up to and including the
/// marker is discarded and collection restarts. A section that ends without
/// synchronizing fails the call.
pub open spec fn assemble_from(
    pulses: Seq<Pulse>,
    j: int,
    active: bool,
    bits: Seq<bool>,
) -> Result<Seq<bool>, DecodeError>
    decreases pulses.len() - j,
{
    if j < 0 || j >= pulses.len() {
        if active {
            Ok(bits)
        } else {
            Err(DecodeError::SynchronizationNotFound)
        }
    } else if pulses[j] is Start && active {
        if bits.len() % 8 == 0 {
            assemble_from(pulses, j + 1, active, bits)
        } else {
            Err(DecodeError::MisalignedStartPulse)
        }
    } else {
        let grown = bits.push(pulse_bit(pulses[j]));
        if !active && sync_found(grown) {
            assemble_from(pulses, j + 1, true, Seq::empty())
        } else {
            assemble_from(pulses, j + 1, active, grown)
        }
    }
}

/// The bits one whole section decodes to, or why it fails.
pub open spec fn assemble(pulses: Seq<Pulse>) -> Result<Seq<bool>, DecodeError> {
    assemble_from(pulses, 0, false, Seq::empty())
}

/// All sections from `k` on, assembled in order; the first failure aborts.
pub open spec fn assemble_all_from(sections: Seq<Seq<Pulse>>, k: int) -> Result<
    Seq<Seq<bool>>,
    DecodeError,
>
    decreases sections.len() - k,
{
    if k < 0 || k >= sections.len() {
        Ok(Seq::empty())
    } else {
        match assemble(sections[k]) {
            Ok(bits) => match assemble_all_from(sections, k + 1) {
                Ok(rest) => Ok(seq![bits] + rest),
                Err(e) => Err(e),
            },
            Err(e) => Err(e),
        }
    }
}

/// All sections assembled in input order.
pub open spec fn assemble_all(sections: Seq<Seq<Pulse>>) -> Result<Seq<Seq<bool>>, DecodeError> {
    assemble_all_from(sections, 0)
}

/// What a whole decode call returns: samples to crossings to sections to one
/// bit sequence per section, or the first failure.
pub open spec fn decode_spec(samples: Seq<i32>, sample_rate: int, channels: int) -> Result<
    Seq<Seq<bool>>,
    DecodeError,
> {
    match sections_of(all_crossings(samples, channels), sample_rate) {
        Ok(sections) => assemble_all(sections),
        Err(e) => Err(e),
    }
}

} // verus!
