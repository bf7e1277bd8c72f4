//! Removal of internal silence: speech runs are found, padded, merged, and
//! reassembled with a short inserted pause between them.
use crate::silence::{
    dynamic_tail, energies, find_dynamic_tail_start, frame_end, frame_energies, frame_len_for, speech_threshold,
    frame_count, frame_start, is_speech, is_tail_speech, noise_floor, noise_floor_of, speech_median_of,
    lemma_frame_bounds, lemma_noise_floor_bound, FRAME_MS, SPEECH_ENERGY_MIN, TAIL_ENERGY_MIN,
};
use vstd::prelude::*;

verus! {

/// Shortest run of speech frames that is kept.
pub const MIN_SPEECH_MS: u64 = 200;

/// Padding kept on each side of a speech run.
pub const PAD_MS: u64 = 240;

/// Runs separated by at most this much silence are merged.
pub const KEEP_SILENCE_MS: u64 = 800;

/// The trailing window judged with the relaxed speech test.
pub const TAIL_WINDOW_MS: u64 = 800;

/// Silence inserted between kept runs.
pub const INSERT_SILENCE_MS: u64 = 120;

pub const MIN_SPEECH_FRAMES: usize = ((MIN_SPEECH_MS + FRAME_MS - 1) / FRAME_MS) as usize;

pub const PAD_FRAMES: usize = ((PAD_MS + FRAME_MS - 1) / FRAME_MS) as usize;

pub const KEEP_SILENCE_FRAMES: usize = ((KEEP_SILENCE_MS + FRAME_MS - 1) / FRAME_MS) as usize;

pub const TAIL_WINDOW_FRAMES: usize = ((TAIL_WINDOW_MS + FRAME_MS - 1) / FRAME_MS) as usize;

/// First frame of the trailing window.
pub open spec fn tail_window_start(n: int) -> int {
    if n > TAIL_WINDOW_FRAMES {
        n - TAIL_WINDOW_FRAMES
    } else {
        0
    }
}

/// Whether frame `i` counts as speech: the relaxed test in the trailing
/// window, the regular one before it.
pub open spec fn frame_is_speech(e: Seq<u64>, floor: u64, i: int) -> bool {
    if i >= tail_window_start(e.len() as int) {
        is_tail_speech(e[i], floor)
    } else {
        is_speech(e[i], floor)
    }
}

/// The runs closed within the first `i` frames, and the start of the run
/// still open after them.
pub open spec fn scan_runs(e: Seq<u64>, floor: u64, i: int) -> (Seq<(int, int)>, Option<int>)
    decreases i,
{
    if i <= 0 {
        (Seq::empty(), None)
    } else {
        let (done, open) = scan_runs(e, floor, i - 1);
        let k = i - 1;
        if frame_is_speech(e, floor, k) {
            (done, if open is None { Some(k) } else { open })
        } else {
            match open {
                Some(st) => (
                    if k - st >= MIN_SPEECH_FRAMES {
                        done.push((st, k - 1))
                    } else {
                        done
                    },
                    None,
                ),
                None => (done, None),
            }
        }
    }
}

/// The maximal runs of speech frames that are at least `MIN_SPEECH_FRAMES`
/// long, as inclusive frame ranges, in order.
pub open spec fn speech_runs(e: Seq<u64>, floor: u64) -> Seq<(int, int)> {
    let n = e.len() as int;
    let (done, open) = scan_runs(e, floor, n);
    match open {
        Some(st) => if n - st >= MIN_SPEECH_FRAMES {
            done.push((st, n - 1))
        } else {
            done
        },
        None => done,
    }
}

/// A run widened by `PAD_FRAMES` on each side, within the `n` frames.
pub open spec fn padded_run(r: (int, int), n: int) -> (int, int) {
    (
        if r.0 > PAD_FRAMES { r.0 - PAD_FRAMES } else { 0 },
        if r.1 + PAD_FRAMES < n - 1 { r.1 + PAD_FRAMES } else { n - 1 },
    )
}

/// The padded runs, each merged into the previous one when the gap between
/// them is at most `KEEP_SILENCE_FRAMES`.
pub open spec fn merge_runs(rs: Seq<(int, int)>, n: int) -> Seq<(int, int)>
    decreases rs.len(),
{
    if rs.len() == 0 {
        Seq::empty()
    } else {
        let m = merge_runs(rs.drop_last(), n);
        let p = padded_run(rs.last(), n);
        if m.len() > 0 && p.0 <= m.last().1 + KEEP_SILENCE_FRAMES {
            m.update(
                m.len() - 1,
                (m.last().0, if m.last().1 >= p.1 { m.last().1 } else { p.1 }),
            )
        } else {
            m.push(p)
        }
    }
}

/// The last segment stretched up to the dynamic tail, when that lies beyond it.
pub open spec fn extend_to_tail(m: Seq<(int, int)>, tail: Option<int>, n: int) -> Seq<(int, int)> {
    match tail {
        Some(ts) => if m.len() > 0 && ts > m.last().1 + 1 {
            m.update(m.len() - 1, (m.last().0, if ts - 1 < n - 1 { ts - 1 } else { n - 1 }))
        } else {
            m
        },
        None => m,
    }
}

/// The segments of frames that the prefilter keeps.
pub open spec fn kept_segments(e: Seq<u64>) -> Seq<(int, int)> {
    let n = e.len() as int;
    let floor = noise_floor(e);
    extend_to_tail(merge_runs(speech_runs(e, floor), n), dynamic_tail(e, floor), n)
}

/// `k` zero samples.
pub open spec fn silence_of(k: int) -> Seq<i32> {
    Seq::new(k as nat, |i: int| 0i32)
}

/// The samples of segment `idx`, followed by the inserted pause unless it is
/// the last segment.
pub open spec fn segment_piece(s: Seq<i32>, fl: int, segs: Seq<(int, int)>, gap: int, idx: int) -> Seq<i32> {
    let lo = frame_start(segs[idx].0, fl);
    let hi = frame_end(s.len() as int, segs[idx].1, fl);
    if idx + 1 < segs.len() && gap > 0 {
        s.subrange(lo, hi) + silence_of(gap)
    } else {
        s.subrange(lo, hi)
    }
}

/// The pieces of the first `k` segments, concatenated.
pub open spec fn assemble(s: Seq<i32>, fl: int, segs: Seq<(int, int)>, gap: int, k: int) -> Seq<i32>
    decreases k,
{
    if k <= 0 {
        Seq::empty()
    } else {
        assemble(s, fl, segs, gap, k - 1) + segment_piece(s, fl, segs, gap, k - 1)
    }
}

/// Samples of inserted pause at a given rate.
pub open spec fn gap_len_for(rate: int) -> int {
    rate * INSERT_SILENCE_MS / 1000
}

/// What the prefilter makes of `s`: `None` when it leaves the signal as it
/// is, else the new signal (empty when no speech run qualifies).
pub open spec fn prefilter_output(s: Seq<i32>, rate: int) -> Option<Seq<i32>> {
    let fl = frame_len_for(rate);
    if s.len() == 0 || rate == 0 || fl == 0 || s.len() < 2 * fl {
        None
    } else {
        let e = energies(s, fl);
        let n = e.len() as int;
        let runs = speech_runs(e, noise_floor(e));
        let segs = kept_segments(e);
        if runs.len() == 0 {
            Some(Seq::empty())
        } else if segs.len() == 1 && segs[0].0 == 0 && segs[0].1 + 1 >= n {
            None
        } else {
            let out = assemble(s, fl, segs, gap_len_for(rate), segs.len() as int);
            if out.len() >= s.len() {
                None
            } else {
                Some(out)
            }
        }
    }
}

/// What the prefilter did, for diagnostics.
pub struct VadResult {
    pub removed_samples: usize,
    pub kept_samples: usize,
    pub segments: usize,
    /// The speech threshold, in fixed-point units.
    pub threshold: u64,
    /// The noise floor, in fixed-point units.
    pub noise_floor: u64,
    pub keep_silence_ms: u64,
    pub pad_ms: u64,
}

/// The pairs of a run list as integers.
pub open spec fn runs_view(v: Seq<(usize, usize)>) -> Seq<(int, int)> {
    v.map_values(|p: (usize, usize)| (p.0 as int, p.1 as int))
}

/// Every segment lies within the `n` frames and starts no later than it ends.
pub open spec fn runs_within(rs: Seq<(int, int)>, n: int) -> bool {
    forall|i: int| 0 <= i < rs.len() ==> 0 <= #[trigger] rs[i].0 <= rs[i].1 < n
}

proof fn lemma_scan_within(e: Seq<u64>, floor: u64, i: int)
    requires
        0 <= i <= e.len(),
    ensures
        runs_within(scan_runs(e, floor, i).0, i),
        scan_runs(e, floor, i).1 matches Some(st) ==> 0 <= st < i,
    decreases i,
{
    if i > 0 {
        lemma_scan_within(e, floor, i - 1);
    }
}

proof fn lemma_merge_within(rs: Seq<(int, int)>, n: int)
    requires
        runs_within(rs, n),
    ensures
        runs_within(merge_runs(rs, n), n),
        rs.len() > 0 ==> merge_runs(rs, n).len() > 0,
    decreases rs.len(),
{
    if rs.len() > 0 {
        assert(runs_within(rs.drop_last(), n)) by {
            assert forall|i: int| 0 <= i < rs.drop_last().len() implies 0 <= #[trigger] rs.drop_last()[i].0 <= rs.drop_last()[i].1 < n by {
                assert(rs.drop_last()[i] == rs[i]);
            }
        }
        lemma_merge_within(rs.drop_last(), n);
        assert(rs[rs.len() - 1] == rs.last());
    }
}

/// Finds the speech runs of frames, as in [`speech_runs`].
fn find_speech_runs(e: &Vec<u64>, floor: u64) -> (r: Vec<(usize, usize)>)
    requires
        forall|i: int| 0 <= i < e@.len() ==> e@[i] <= 2147483648,
        floor <= 2147483648,
    ensures
        runs_view(r@) == speech_runs(e@, floor),
        runs_within(speech_runs(e@, floor), e@.len() as int),
{
    let n = e.len();
    let tail_start: usize = if n > TAIL_WINDOW_FRAMES {
        n - TAIL_WINDOW_FRAMES
    } else {
        0
    };
    let mut runs: Vec<(usize, usize)> = Vec::new();
    let mut open: Option<usize> = None;
    let mut i: usize = 0;
    while i < n
        invariant
            n == e@.len(),
            i <= n,
            forall|j: int| 0 <= j < e@.len() ==> e@[j] <= 2147483648,
            floor <= 2147483648,
            tail_start == tail_window_start(n as int),
            runs_view(runs@) == scan_runs(e@, floor, i as int).0,
            match open {
                Some(st) => scan_runs(e@, floor, i as int).1 == Some(st as int),
                None => scan_runs(e@, floor, i as int).1 is None,
            },
        decreases n - i,
    {
        proof {
            lemma_scan_within(e@, floor, i as int);
        }
        let x = e[i];
        let speech = if i >= tail_start {
            x >= 2 * floor && x >= TAIL_ENERGY_MIN
        } else {
            2 * x >= 5 * floor && x >= SPEECH_ENERGY_MIN
        };
        if speech {
            if open.is_none() {
                open = Some(i);
            }
        } else {
            match open {
                Some(st) => {
                    if i - st >= MIN_SPEECH_FRAMES {
                        runs.push((st, i - 1));
                        assert(runs_view(runs@) =~= scan_runs(e@, floor, i as int + 1).0);
                    }
                    open = None;
                },
                None => {},
            }
        }
        i = i + 1;
    }
    proof {
        lemma_scan_within(e@, floor, n as int);
        let (done, op) = scan_runs(e@, floor, n as int);
        if let Some(st) = op {
            if n - st >= MIN_SPEECH_FRAMES {
                let pushed = done.push((st, n - 1));
                assert forall|k: int| 0 <= k < pushed.len() implies 0 <= #[trigger] pushed[k].0 <= pushed[k].1 < n by {
                    if k < done.len() {
                        assert(pushed[k] == done[k]);
                    }
                }
            }
        }
    }
    match open {
        Some(st) => {
            if n - st >= MIN_SPEECH_FRAMES {
                runs.push((st, n - 1));
                assert(runs_view(runs@) =~= speech_runs(e@, floor));
            }
        },
        None => {},
    }
    runs
}

/// Pads and merges speech runs, as in [`merge_runs`].
fn merge_speech_runs(raw: &Vec<(usize, usize)>, n: usize) -> (m: Vec<(usize, usize)>)
    requires
        runs_within(runs_view(raw@), n as int),
    ensures
        runs_view(m@) == merge_runs(runs_view(raw@), n as int),
        runs_within(runs_view(m@), n as int),
{
    assert(PAD_FRAMES == 12 && KEEP_SILENCE_FRAMES == 40);
    let ghost rv = runs_view(raw@);
    let mut m: Vec<(usize, usize)> = Vec::new();
    let mut i: usize = 0;
    while i < raw.len()
        invariant
            i <= raw@.len(),
            rv == runs_view(raw@),
            runs_within(rv, n as int),
            runs_view(m@) == merge_runs(rv.subrange(0, i as int), n as int),
            runs_within(runs_view(m@), n as int),
        decreases raw.len() - i,
    {
        let (a, b) = raw[i];
        proof {
            assert(rv[i as int] == (a as int, b as int));
            assert(rv.subrange(0, i as int + 1).drop_last() =~= rv.subrange(0, i as int));
            assert(rv.subrange(0, i as int + 1).last() == rv[i as int]);
        }
        let st: usize = if a > PAD_FRAMES {
            a - PAD_FRAMES
        } else {
            0
        };
        let en: usize = if n - 1 - b > PAD_FRAMES {
            b + PAD_FRAMES
        } else {
            n - 1
        };
        let len = m.len();
        let mut merged = false;
        if len > 0 {
            let (la, lb) = m[len - 1];
            assert(runs_view(m@)[len - 1] == (la as int, lb as int));
            if st <= lb || st - lb <= KEEP_SILENCE_FRAMES {
                let nb = if lb >= en {
                    lb
                } else {
                    en
                };
                m.set(len - 1, (la, nb));
                merged = true;
                proof {
                    assert(runs_view(m@) =~= merge_runs(rv.subrange(0, i as int + 1), n as int));
                    assert forall|k: int| 0 <= k < runs_view(m@).len() implies 0 <= #[trigger] runs_view(m@)[k].0 <= runs_view(m@)[k].1 < n by {
                        if k < len - 1 {
                            assert(runs_view(m@)[k] == merge_runs(rv.subrange(0, i as int), n as int)[k]);
                        }
                    }
                }
            }
        }
        if !merged {
            m.push((st, en));
            proof {
                assert(runs_view(m@) =~= merge_runs(rv.subrange(0, i as int + 1), n as int));
                assert forall|k: int| 0 <= k < runs_view(m@).len() implies 0 <= #[trigger] runs_view(m@)[k].0 <= runs_view(m@)[k].1 < n by {
                    if k < len {
                        assert(runs_view(m@)[k] == merge_runs(rv.subrange(0, i as int), n as int)[k]);
                    }
                }
            }
        }
        i = i + 1;
    }
    assert(rv.subrange(0, raw@.len() as int) =~= rv);
    m
}

/// Stretches the last segment up to the dynamic tail, as in [`extend_to_tail`].
fn extend_last_to_tail(m: &mut Vec<(usize, usize)>, tail: Option<usize>, n: usize)
    requires
        runs_within(runs_view(old(m)@), n as int),
    ensures
        runs_view(final(m)@) == extend_to_tail(
            runs_view(old(m)@),
            match tail {
                Some(t) => Some(t as int),
                None => None,
            },
            n as int,
        ),
        runs_within(runs_view(final(m)@), n as int),
        final(m)@.len() == old(m)@.len(),
{
    if let Some(ts) = tail {
        let len = m.len();
        if len > 0 {
            let (la, lb) = m[len - 1];
            assert(runs_view(m@)[len - 1] == (la as int, lb as int));
            if ts > lb + 1 {
                let nb = if ts - 1 < n - 1 {
                    ts - 1
                } else {
                    n - 1
                };
                let ghost before = runs_view(m@);
                m.set(len - 1, (la, nb));
                proof {
                    assert(runs_view(m@) =~= before.update(len - 1, (la as int, nb as int)));
                    assert forall|k: int| 0 <= k < runs_view(m@).len() implies 0 <= #[trigger] runs_view(m@)[k].0 <= runs_view(m@)[k].1 < n by {
                        if k < len - 1 {
                            assert(runs_view(m@)[k] == before[k]);
                        }
                    }
                }
            }
        }
    }
}

/// Concatenates the samples of the segments, with `gap` zero samples between
/// consecutive ones, as in [`assemble`].
fn assemble_segments(samples: &Vec<i32>, fl: usize, segs: &Vec<(usize, usize)>, gap: usize) -> (out: Vec<i32>)
    requires
        fl > 0,
        runs_within(runs_view(segs@), frame_count(samples@.len() as int, fl as int)),
    ensures
        out@ == assemble(samples@, fl as int, runs_view(segs@), gap as int, segs@.len() as int),
{
    let len = samples.len();
    let ghost s = samples@;
    let ghost sv = runs_view(segs@);
    let ghost n = frame_count(len as int, fl as int);
    let mut out: Vec<i32> = Vec::new();
    let mut k: usize = 0;
    while k < segs.len()
        invariant
            fl > 0,
            len == s.len(),
            s == samples@,
            sv == runs_view(segs@),
            n == frame_count(len as int, fl as int),
            runs_within(sv, n),
            k <= segs@.len(),
            out@ == assemble(s, fl as int, sv, gap as int, k as int),
        decreases segs.len() - k,
    {
        let (a, b) = segs[k];
        proof {
            assert(sv[k as int] == (a as int, b as int));
            lemma_frame_bounds(len as int, fl as int, a as int);
            lemma_frame_bounds(len as int, fl as int, b as int);
            assert(a * fl <= b * fl) by (nonlinear_arith)
                requires
                    a <= b,
            ;
        }
        let lo = a * fl;
        let bs = b * fl;
        let hi = if len - bs > fl {
            bs + fl
        } else {
            len
        };
        assert(hi == frame_end(len as int, b as int, fl as int)) by (nonlinear_arith)
            requires
                bs == b * fl,
                hi == (if len - bs > fl { bs + fl } else { len as int }),
                frame_end(len as int, b as int, fl as int) == (if (b + 1) * fl < len { (b + 1) * fl } else { len as int }),
        {
            assert((b + 1) * fl == b * fl + fl);
        }
        let ghost prefix = out@;
        let mut j: usize = lo;
        while j < hi
            invariant
                lo <= j <= hi <= len,
                len == s.len(),
                s == samples@,
                out@ == prefix + s.subrange(lo as int, j as int),
            decreases hi - j,
        {
            out.push(samples[j]);
            assert(out@ =~= prefix + s.subrange(lo as int, j as int + 1));
            j = j + 1;
        }
        if k + 1 < segs.len() && gap > 0 {
            let ghost mid = out@;
            let mut g: usize = 0;
            while g < gap
                invariant
                    g <= gap,
                    out@ == mid + silence_of(g as int),
                decreases gap - g,
            {
                out.push(0);
                assert(out@ =~= mid + silence_of(g as int + 1));
                g = g + 1;
            }
            assert(out@ =~= assemble(s, fl as int, sv, gap as int, k as int + 1));
        } else {
            assert(out@ =~= assemble(s, fl as int, sv, gap as int, k as int + 1));
        }
        k = k + 1;
    }
    out
}

/// The frame segments that the prefilter keeps in `s`, when it changes `s`
/// and some speech run qualifies; else none.
pub open spec fn prefilter_segment_count(s: Seq<i32>, rate: int) -> int {
    let e = energies(s, frame_len_for(rate));
    if speech_runs(e, noise_floor(e)).len() == 0 {
        0
    } else {
        kept_segments(e).len() as int
    }
}

/// Removes internal silence from a mono signal at `sample_rate`: frames of
/// speech are found against an adaptive noise floor, runs shorter than
/// `MIN_SPEECH_MS` are dropped, the rest are padded by `PAD_MS`, merged
/// across gaps of at most `KEEP_SILENCE_MS`, stretched to the dynamic tail,
/// and joined with `INSERT_SILENCE_MS` of inserted silence. With no speech
/// the signal becomes empty. Returns `None`, leaving the signal as it is,
/// when nothing would be removed.
pub fn prefilter_speech(samples: &mut Vec<i32>, sample_rate: u32) -> (r: Option<VadResult>)
    ensures
        r is Some <==> prefilter_output(old(samples)@, sample_rate as int) is Some,
        final(samples)@ == match prefilter_output(old(samples)@, sample_rate as int) {
            Some(out) => out,
            None => old(samples)@,
        },
        r matches Some(v) ==> {
            &&& v.kept_samples == final(samples)@.len()
            &&& v.removed_samples == old(samples)@.len() - final(samples)@.len()
            &&& v.noise_floor == noise_floor(energies(old(samples)@, frame_len_for(sample_rate as int)))
            &&& v.segments == prefilter_segment_count(old(samples)@, sample_rate as int)
            &&& v.threshold == speech_threshold(v.noise_floor)
            &&& v.keep_silence_ms == KEEP_SILENCE_MS
            &&& v.pad_ms == PAD_MS
        },
{
    let ghost s = samples@;
    let len = samples.len();
    let fl = ((sample_rate as u64) * FRAME_MS / 1000) as usize;
    if len == 0 || sample_rate == 0 || fl == 0 || len / 2 < fl {
        return None;
    }
    let e = frame_energies(samples, fl);
    let n = e.len();
    proof {
        vstd::arithmetic::div_mod::lemma_div_is_ordered(fl as int, len as int, fl as int);
        vstd::arithmetic::div_mod::lemma_div_by_self(fl as int);
    }
    let floor = noise_floor_of(&e);
    proof {
        lemma_noise_floor_bound(e@);
    }
    let threshold = if floor * 5 / 2 > SPEECH_ENERGY_MIN {
        floor * 5 / 2
    } else {
        SPEECH_ENERGY_MIN
    };
    let tail = match speech_median_of(&e, floor) {
        Some(m) => find_dynamic_tail_start(&e, m),
        None => None,
    };
    let raw = find_speech_runs(&e, floor);
    if raw.len() == 0 {
        samples.clear();
        assert(samples@ =~= Seq::<i32>::empty());
        return Some(VadResult {
            removed_samples: len,
            kept_samples: 0,
            segments: 0,
            threshold,
            noise_floor: floor,
            keep_silence_ms: KEEP_SILENCE_MS,
            pad_ms: PAD_MS,
        });
    }
    let mut segs = merge_speech_runs(&raw, n);
    proof {
        lemma_merge_within(runs_view(raw@), n as int);
    }
    extend_last_to_tail(&mut segs, tail, n);
    assert(runs_view(segs@) == kept_segments(e@));
    if segs.len() == 1 && segs[0].0 == 0 && segs[0].1 + 1 >= n {
        assert(runs_view(segs@)[0] == (segs@[0].0 as int, segs@[0].1 as int));
        return None;
    }
    proof {
        if segs@.len() == 1 {
            assert(runs_view(segs@)[0] == (segs@[0].0 as int, segs@[0].1 as int));
        }
    }
    let gap = ((sample_rate as u64) * INSERT_SILENCE_MS / 1000) as usize;
    let out = assemble_segments(samples, fl, &segs, gap);
    if out.len() >= len {
        return None;
    }
    let kept = out.len();
    let count = segs.len();
    *samples = out;
    Some(VadResult {
        removed_samples: len - kept,
        kept_samples: kept,
        segments: count,
        threshold,
        noise_floor: floor,
        keep_silence_ms: KEEP_SILENCE_MS,
        pad_ms: PAD_MS,
    })
}

/// `r` is a maximal run of speech frames of `e`, at least
/// `MIN_SPEECH_FRAMES` long: every frame in it is speech, and the frames
/// just before and just after it (where there are any) are not.
pub open spec fn is_maximal_run(e: Seq<u64>, floor: u64, r: (int, int)) -> bool {
    &&& 0 <= r.0 <= r.1 < e.len()
    &&& r.1 - r.0 + 1 >= MIN_SPEECH_FRAMES
    &&& forall|k: int| r.0 <= k <= r.1 ==> #[trigger] frame_is_speech(e, floor, k)
    &&& (r.0 == 0 || !frame_is_speech(e, floor, r.0 - 1))
    &&& (r.1 == e.len() - 1 || !frame_is_speech(e, floor, r.1 + 1))
}

proof fn lemma_scan_maximal(e: Seq<u64>, floor: u64, i: int)
    requires
        0 <= i <= e.len(),
    ensures
        forall|j: int| 0 <= j < scan_runs(e, floor, i).0.len() ==> {
            let r = #[trigger] scan_runs(e, floor, i).0[j];
            is_maximal_run(e, floor, r) && r.1 + 1 < i
        },
        match scan_runs(e, floor, i).1 {
            Some(st) => 0 <= st < i && (st == 0 || !frame_is_speech(e, floor, st - 1)) && forall|k: int|
                st <= k < i ==> #[trigger] frame_is_speech(e, floor, k),
            None => i == 0 || !frame_is_speech(e, floor, i - 1),
        },
    decreases i,
{
    if i > 0 {
        lemma_scan_maximal(e, floor, i - 1);
        let (done, open) = scan_runs(e, floor, i - 1);
        let k = i - 1;
        if !frame_is_speech(e, floor, k) {
            if let Some(st) = open {
                if k - st >= MIN_SPEECH_FRAMES {
                    let pushed = done.push((st, k - 1));
                    assert forall|j: int| 0 <= j < pushed.len() implies {
                        let r = #[trigger] pushed[j];
                        is_maximal_run(e, floor, r) && r.1 + 1 < i
                    } by {
                        if j < done.len() {
                            assert(pushed[j] == done[j]);
                        }
                    }
                }
            }
        }
    }
}

/// Every run that [`speech_runs`] finds is a maximal run of speech frames
/// at least `MIN_SPEECH_FRAMES` long.
pub proof fn speech_runs_are_maximal(e: Seq<u64>, floor: u64)
    ensures
        forall|j: int| 0 <= j < speech_runs(e, floor).len() ==> is_maximal_run(
            e,
            floor,
            #[trigger] speech_runs(e, floor)[j],
        ),
{
    let n = e.len() as int;
    lemma_scan_maximal(e, floor, n);
    let (done, open) = scan_runs(e, floor, n);
    if let Some(st) = open {
        if n - st >= MIN_SPEECH_FRAMES {
            let pushed = done.push((st, n - 1));
            assert forall|j: int| 0 <= j < pushed.len() implies is_maximal_run(e, floor, #[trigger] pushed[j]) by {
                if j < done.len() {
                    assert(pushed[j] == done[j]);
                }
            }
        }
    }
}

/// Consecutive merged segments are separated by more than
/// `KEEP_SILENCE_FRAMES` frames.
pub proof fn merged_segments_are_apart(rs: Seq<(int, int)>, n: int)
    ensures
        forall|j: int|
            0 <= j < merge_runs(rs, n).len() - 1 ==> #[trigger] merge_runs(rs, n)[j + 1].0
                > merge_runs(rs, n)[j].1 + KEEP_SILENCE_FRAMES,
    decreases rs.len(),
{
    if rs.len() > 0 {
        merged_segments_are_apart(rs.drop_last(), n);
        let m = merge_runs(rs.drop_last(), n);
        let out = merge_runs(rs, n);
        assert forall|j: int| 0 <= j < out.len() - 1 implies #[trigger] out[j + 1].0 > out[j].1
            + KEEP_SILENCE_FRAMES by {
            if j + 1 < m.len() {
                assert(m[j + 1].0 > m[j].1 + KEEP_SILENCE_FRAMES);
                if j + 1 == m.len() - 1 {
                    assert(out[j + 1].0 == m[j + 1].0);
                } else {
                    assert(out[j + 1] == m[j + 1]);
                }
                assert(out[j] == m[j]);
            } else {
                assert(j == m.len() - 1);
                assert(out[j] == m[j]);
            }
        }
    }
}

} // verus!
