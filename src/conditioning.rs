//! Conditioning of decoded audio before recognition: resampling to the
//! recognition rate, then internal silence removal, then edge trimming.
use crate::prefilter::{frame_is_speech, prefilter_output, prefilter_speech, scan_runs, speech_runs};
use crate::silence::{
    energies, frame_count, frame_end, frame_energy, frame_len_for, frame_start, lemma_frame_bounds,
    lemma_noise_floor_bound, level_sum, noise_floor,
};
use crate::trim::{first_speech_before, trim_output, trim_silence};
use vstd::prelude::*;

verus! {

/// The sample rate that the recognition backend takes.
pub const TARGET_RATE: u32 = 16_000;

/// A signal after a stage that returns `None` when it leaves it unchanged.
pub open spec fn after_stage(out: Option<Seq<i32>>, s: Seq<i32>) -> Seq<i32> {
    match out {
        Some(o) => o,
        None => s,
    }
}

/// The signal after the prefilter and then the trim.
pub open spec fn conditioned(s: Seq<i32>, rate: int) -> Seq<i32> {
    let a = after_stage(prefilter_output(s, rate), s);
    after_stage(trim_output(a, rate), a)
}

/// Brings a signal to [`TARGET_RATE`]: a signal already at that rate is
/// returned as it is, any other is handed to `convert` with its rate.
pub fn resample_to_16k<T, E, F: FnOnce(Vec<T>, u32) -> Result<Vec<T>, E>>(
    input: Vec<T>,
    sample_rate: u32,
    convert: F,
) -> (r: Result<Vec<T>, E>)
    requires
        sample_rate != TARGET_RATE ==> convert.requires((input, sample_rate)),
    ensures
        sample_rate == TARGET_RATE ==> r == Ok::<Vec<T>, E>(input),
        sample_rate != TARGET_RATE ==> convert.ensures((input, sample_rate), r),
{
    if sample_rate == TARGET_RATE {
        return Ok(input);
    }
    convert(input, sample_rate)
}

/// Removes internal and edge silence from a signal at `sample_rate`, and
/// tells whether nothing is left (in which case recognition is skipped).
pub fn condition_samples(samples: &mut Vec<i32>, sample_rate: u32) -> (silent: bool)
    ensures
        final(samples)@ == conditioned(old(samples)@, sample_rate as int),
        silent == (final(samples)@.len() == 0),
{
    let _ = prefilter_speech(samples, sample_rate);
    let _ = trim_silence(samples, sample_rate);
    samples.len() == 0
}

proof fn lemma_level_sum_zero(q: Seq<i32>)
    requires
        forall|i: int| 0 <= i < q.len() ==> q[i] == 0,
    ensures
        level_sum(q) == 0,
    decreases q.len(),
{
    if q.len() > 0 {
        lemma_level_sum_zero(q.drop_last());
    }
}

proof fn lemma_zero_energies(s: Seq<i32>, fl: int)
    requires
        fl > 0,
        forall|i: int| 0 <= i < s.len() ==> s[i] == 0,
    ensures
        forall|i: int| 0 <= i < energies(s, fl).len() ==> energies(s, fl)[i] == 0,
{
    assert forall|i: int| 0 <= i < energies(s, fl).len() implies energies(s, fl)[i] == 0 by {
        lemma_frame_bounds(s.len() as int, fl, i);
        let lo = frame_start(i, fl);
        let hi = frame_end(s.len() as int, i, fl);
        lemma_level_sum_zero(s.subrange(lo, hi));
        assert(frame_energy(s, fl, i) == 0);
    }
}

proof fn lemma_no_speech_frames(e: Seq<u64>, i: int)
    requires
        0 <= i <= e.len(),
        forall|j: int| 0 <= j < e.len() ==> e[j] == 0,
    ensures
        scan_runs(e, 0, i) == (Seq::<(int, int)>::empty(), None::<int>),
        first_speech_before(e, 0, i) is None,
    decreases i,
{
    if i > 0 {
        lemma_no_speech_frames(e, i - 1);
        assert(!frame_is_speech(e, 0, i - 1));
    }
}

/// A signal of zero samples is conditioned away entirely, whenever the rate
/// gives frames at least one sample long.
pub proof fn silence_is_removed(s: Seq<i32>, rate: int)
    requires
        frame_len_for(rate) > 0,
        forall|i: int| 0 <= i < s.len() ==> s[i] == 0,
    ensures
        conditioned(s, rate).len() == 0,
{
    let fl = frame_len_for(rate);
    if s.len() > 0 {
        let e = energies(s, fl);
        lemma_zero_energies(s, fl);
        assert(frame_count(s.len() as int, fl) > 0) by (nonlinear_arith)
            requires
                s.len() > 0,
                fl > 0,
                frame_count(s.len() as int, fl) == (if s.len() as int % fl == 0 { s.len() as int / fl } else { s.len() as int / fl + 1 }),
        {
            if s.len() as int % fl == 0 {
                assert(s.len() as int == fl * (s.len() as int / fl));
            }
        }
        lemma_noise_floor_bound(e);
        let floor = noise_floor(e);
        assert(floor == 0) by {
            let k = choose|k: int| 0 <= k < e.len() && e[k] == floor;
        }
        lemma_no_speech_frames(e, e.len() as int);
        assert(speech_runs(e, floor).len() == 0);
        match prefilter_output(s, rate) {
            Some(a) => {
                assert(a.len() == 0);
            },
            None => {
                assert(trim_output(s, rate) == Some(Seq::<i32>::empty()));
            },
        }
    }
}

} // verus!
