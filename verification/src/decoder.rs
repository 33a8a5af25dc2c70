//! The executable decoder: crossing detection, pulse classification and
//! frame assembly, each verified against the model.

use vstd::prelude::*;

use crate::bitio::{bits_of, BitBuf, BIT_CAPACITY};
use crate::model::{
    all_crossings, assemble, assemble_all, assemble_all_from, assemble_from, classify_spec,
    crossings, decode_spec, last_qual, sections_of, split_from, sync_found, Classified,
    DecodeError, Pulse, CROSS_THRESHOLD,
};

verus! {

/// The audio format a sample buffer arrived in: rate in samples per second
/// and the number of interleaved channels, both positive.
#[derive(Clone, Copy, PartialEq, Eq, Structural, Debug)]
pub struct Spec {
    pub sample_rate: u32,
    pub channels: u16,
}

impl Spec {
    /// A format descriptor is well formed when both fields are positive.
    pub open spec fn wf(self) -> bool {
        self.sample_rate >= 1 && self.channels >= 1
    }

    pub fn new(sample_rate: u32, channels: u16) -> (r: Spec)
        requires
            sample_rate >= 1,
            channels >= 1,
        ensures
            r == (Spec { sample_rate, channels }),
            r.wf(),
    {
        Spec { sample_rate, channels }
    }
}

/// Classifies one crossing-to-crossing gap of `gap` samples at `sample_rate`.
pub fn classify(gap: usize, sample_rate: u32) -> (r: Classified)
    ensures
        r == classify_spec(gap as int, sample_rate as int),
{
    let scaled: u128 = 44100u128 * (gap as u128);
    let sr: u128 = sample_rate as u128;
    if 15 * sr <= scaled && scaled < 20 * sr {
        Classified::Pulse(Pulse::One)
    } else if 35 * sr <= scaled && scaled < 39 * sr {
        Classified::Pulse(Pulse::Zero)
    } else if 41 * sr <= scaled && scaled < 46 * sr {
        Classified::Pulse(Pulse::Start)
    } else if scaled > 20000 * sr {
        Classified::SectionEnd
    } else {
        Classified::Invalid
    }
}

/// Scans the buffer and returns the ascending indices of every qualifying
/// negative-to-positive transition on channel zero.
#[verifier::loop_isolation(false)]
pub fn detect_crossings(samples: &[i32], channels: u16) -> (r: Vec<usize>)
    requires
        channels >= 1,
    ensures
        r@.len() == all_crossings(samples@, channels as int).len(),
        forall|k: int|
            0 <= k < r@.len() ==> r@[k] as int == all_crossings(samples@, channels as int)[k],
        forall|a: int, b: int| 0 <= a < b < r@.len() ==> r@[a] < r@[b],
        forall|k: int| 0 <= k < r@.len() ==> r@[k] < samples@.len(),
        r@.len() <= samples@.len(),
{
    let channel_count = channels as usize;
    let mut found: Vec<usize> = Vec::new();
    let mut last: i32 = 0;
    let mut i: usize = 0;
    while i < samples.len()
        invariant
            i <= samples@.len(),
            last == last_qual(samples@, channels as int, i as int),
            found@.len() == crossings(samples@, channels as int, i as int).len(),
            forall|k: int|
                0 <= k < found@.len() ==> found@[k] as int == crossings(
                    samples@,
                    channels as int,
                    i as int,
                )[k],
            forall|a: int, b: int| 0 <= a < b < found@.len() ==> found@[a] < found@[b],
            forall|k: int| 0 <= k < found@.len() ==> found@[k] < i,
            found@.len() <= i,
        decreases samples@.len() - i,
    {
        let s = samples[i];
        if i % channel_count == 0 && (s > CROSS_THRESHOLD || s < -CROSS_THRESHOLD) {
            if last < 0 && s > 0 {
                found.push(i);
            }
            last = s;
        }
        i = i + 1;
    }
    found
}

/// Groups the gaps between consecutive crossings into sections of classified
/// pulses: a long gap flushes the section in progress (even an empty one), a
/// trailing partial section is kept when it holds any pulses, and a gap that
/// matches no range fails the whole call.
#[verifier::loop_isolation(false)]
pub fn split_sections(xs: &Vec<usize>, sample_rate: u32) -> (r: Result<
    Vec<Vec<Pulse>>,
    DecodeError,
>)
    requires
        forall|a: int, b: int| 0 <= a < b < xs@.len() ==> xs@[a] < xs@[b],
    ensures
        ({
            let xs_int = xs@.map_values(|x: usize| x as int);
            match r {
                Ok(secs) => {
                    &&& sections_of(xs_int, sample_rate as int) == Ok::<_, DecodeError>(
                        secs@.map_values(|v: Vec<Pulse>| v@),
                    )
                    &&& forall|s: int| 0 <= s < secs@.len() ==> #[trigger] secs@[s]@.len() <= xs@.len()
                },
                Err(e) => sections_of(xs_int, sample_rate as int) == Err::<Seq<Seq<Pulse>>, _>(e),
            }
        }),
{
    let ghost xs_int: Seq<int> = xs@.map_values(|x: usize| x as int);
    let mut done: Vec<Vec<Pulse>> = Vec::new();
    let mut cur: Vec<Pulse> = Vec::new();
    let mut j: usize = 0;
    proof {
        assert(done@.map_values(|v: Vec<Pulse>| v@) =~= Seq::<Seq<Pulse>>::empty());
    }
    if xs.len() == 0 {
        return Ok(done);
    }
    while j < xs.len() - 1
        invariant
            j < xs@.len(),
            cur@.len() <= j,
            forall|s: int| 0 <= s < done@.len() ==> #[trigger] done@[s]@.len() <= xs@.len(),
            split_from(
                xs_int,
                sample_rate as int,
                j as int,
                done@.map_values(|v: Vec<Pulse>| v@),
                cur@,
            ) == sections_of(xs_int, sample_rate as int),
        decreases xs@.len() - j,
    {
        let gap = xs[j + 1] - xs[j];
        let ghost done_before = done@.map_values(|v: Vec<Pulse>| v@);
        let ghost cur_before = cur@;
        match classify(gap, sample_rate) {
            Classified::Pulse(p) => {
                cur.push(p);
            },
            Classified::SectionEnd => {
                done.push(cur);
                cur = Vec::new();
                proof {
                    assert(done@.map_values(|v: Vec<Pulse>| v@) =~= done_before.push(cur_before));
                }
            },
            Classified::Invalid => {
                return Err(DecodeError::InvalidPulseLength { gap });
            },
        }
        j = j + 1;
    }
    if cur.len() > 0 {
        let ghost done_before = done@.map_values(|v: Vec<Pulse>| v@);
        let ghost cur_before = cur@;
        done.push(cur);
        proof {
            assert(done@.map_values(|v: Vec<Pulse>| v@) =~= done_before.push(cur_before));
        }
    }
    Ok(done)
}

/// Whether the accumulated bits end in the synchronization marker `01111111`.
fn found_marker(dat: &BitBuf) -> (r: bool)
    ensures
        r == sync_found(bits_of(*dat)),
{
    let n = dat.len();
    if n < 8 {
        return false;
    }
    !dat.get(n - 8) && dat.get(n - 7) && dat.get(n - 6) && dat.get(n - 5) && dat.get(n - 4)
        && dat.get(n - 3) && dat.get(n - 2) && dat.get(n - 1)
}

/// Runs the frame assembler over one section and returns its decoded bits,
/// or the first failure: a Start pulse off a byte boundary after
/// synchronization, or a section that never synchronizes.
#[verifier::loop_isolation(false)]
pub fn assemble_section(section: &Vec<Pulse>) -> (r: Result<BitBuf, DecodeError>)
    requires
        section@.len() <= BIT_CAPACITY,
    ensures
        match r {
            Ok(bv) => assemble(section@) == Ok::<_, DecodeError>(bits_of(bv)),
            Err(e) => assemble(section@) == Err::<Seq<bool>, _>(e),
        },
{
    let mut active = false;
    let mut dat = BitBuf::new();
    let mut k: usize = 0;
    while k < section.len()
        invariant
            k <= section@.len(),
            bits_of(dat).len() <= k,
            assemble_from(section@, k as int, active, bits_of(dat)) == assemble(section@),
        decreases section@.len() - k,
    {
        match section[k] {
            Pulse::Zero => dat.push(false),
            Pulse::One => dat.push(true),
            Pulse::Start => {
                if active {
                    if dat.len() % 8 != 0 {
                        return Err(DecodeError::MisalignedStartPulse);
                    }
                } else {
                    dat.push(false);
                }
            },
        }
        if !active && found_marker(&dat) {
            active = true;
            dat.clear();
        }
        k = k + 1;
    }
    if !active {
        return Err(DecodeError::SynchronizationNotFound);
    }
    Ok(dat)
}

/// Decodes a buffer of interleaved signed samples into one bit sequence per
/// section, or fails atomically with the first error. The whole pipeline —
/// crossing detection on channel zero, pulse classification scaled by the
/// sample rate, and per-section frame assembly — is pinned down by
/// [`decode_spec`]. The length bound on `samples` is a machine limit: the
/// bit accumulator cannot outgrow bitvec's capacity.
#[verifier::loop_isolation(false)]
pub fn decode(samples: &[i32], fmt: Spec) -> (r: Result<Vec<BitBuf>, DecodeError>)
    requires
        fmt.wf(),
        samples@.len() <= BIT_CAPACITY,
    ensures
        match r {
            Ok(out) => decode_spec(samples@, fmt.sample_rate as int, fmt.channels as int)
                == Ok::<_, DecodeError>(out@.map_values(|bv: BitBuf| bits_of(bv))),
            Err(e) => decode_spec(samples@, fmt.sample_rate as int, fmt.channels as int)
                == Err::<Seq<Seq<bool>>, _>(e),
        },
{
    let ghost xs_int: Seq<int> = all_crossings(samples@, fmt.channels as int);
    let xs = detect_crossings(samples, fmt.channels);
    proof {
        assert(xs@.map_values(|x: usize| x as int) =~= xs_int);
    }
    let sections = match split_sections(&xs, fmt.sample_rate) {
        Ok(sections) => sections,
        Err(e) => {
            return Err(e);
        },
    };
    let ghost secs: Seq<Seq<Pulse>> = sections@.map_values(|v: Vec<Pulse>| v@);
    let mut out: Vec<BitBuf> = Vec::new();
    let mut s: usize = 0;
    while s < sections.len()
        invariant
            s <= sections@.len(),
            out@.len() == s,
            forall|k: int|
                0 <= k < s ==> assemble(secs[k]) == Ok::<_, DecodeError>(bits_of(#[trigger] out@[k])),
        decreases sections@.len() - s,
    {
        match assemble_section(&sections[s]) {
            Ok(bv) => out.push(bv),
            Err(e) => {
                proof {
                    assert forall|k: int| 0 <= k < s implies (#[trigger] assemble(
                        secs[k],
                    )) is Ok by {
                        assert(assemble(secs[k]) == Ok::<_, DecodeError>(bits_of(out@[k])));
                    }
                    lemma_assemble_all_err(secs, s as int, e);
                }
                return Err(e);
            },
        }
        s = s + 1;
    }
    proof {
        lemma_assemble_all_ok(secs, out@.map_values(|bv: BitBuf| bits_of(bv)));
    }
    Ok(out)
}

/// When every section before `s` assembles and section `s` fails with `e`,
/// the whole assembly fails with `e`.
proof fn lemma_assemble_all_err(secs: Seq<Seq<Pulse>>, s: int, e: DecodeError)
    requires
        0 <= s < secs.len(),
        forall|k: int| 0 <= k < s ==> (#[trigger] assemble(secs[k])) is Ok,
        assemble(secs[s]) == Err::<Seq<bool>, DecodeError>(e),
    ensures
        assemble_all(secs) == Err::<Seq<Seq<bool>>, DecodeError>(e),
{
    lemma_assemble_all_err_from(secs, 0, s, e);
}

proof fn lemma_assemble_all_err_from(secs: Seq<Seq<Pulse>>, k: int, s: int, e: DecodeError)
    requires
        0 <= k <= s < secs.len(),
        forall|m: int| 0 <= m < s ==> (#[trigger] assemble(secs[m])) is Ok,
        assemble(secs[s]) == Err::<Seq<bool>, DecodeError>(e),
    ensures
        assemble_all_from(secs, k) == Err::<Seq<Seq<bool>>, DecodeError>(e),
    decreases s - k,
{
    if k < s {
        lemma_assemble_all_err_from(secs, k + 1, s, e);
    }
}

/// When every section assembles to the matching element of `bits`, the whole
/// assembly returns exactly `bits`.
proof fn lemma_assemble_all_ok(secs: Seq<Seq<Pulse>>, bits: Seq<Seq<bool>>)
    requires
        secs.len() == bits.len(),
        forall|k: int|
            0 <= k < secs.len() ==> assemble(secs[k]) == Ok::<_, DecodeError>(#[trigger] bits[k]),
    ensures
        assemble_all(secs) == Ok::<_, DecodeError>(bits),
{
    lemma_assemble_all_ok_from(secs, bits, 0);
    assert(bits.skip(0) =~= bits);
}

proof fn lemma_assemble_all_ok_from(secs: Seq<Seq<Pulse>>, bits: Seq<Seq<bool>>, k: int)
    requires
        0 <= k <= secs.len(),
        secs.len() == bits.len(),
        forall|m: int|
            0 <= m < secs.len() ==> assemble(secs[m]) == Ok::<_, DecodeError>(#[trigger] bits[m]),
    ensures
        assemble_all_from(secs, k) == Ok::<_, DecodeError>(bits.skip(k)),
    decreases secs.len() - k,
{
    if k >= secs.len() {
        assert(bits.skip(k) =~= Seq::<Seq<bool>>::empty());
    } else {
        lemma_assemble_all_ok_from(secs, bits, k + 1);
        assert(seq![bits[k]] + bits.skip(k + 1) =~= bits.skip(k));
    }
}

} // verus!
