//! Removal of leading and trailing silence; the interior is left untouched.
use crate::prefilter::{frame_is_speech, tail_window_start, TAIL_WINDOW_FRAMES};
use crate::silence::{
    dynamic_tail, energies, find_dynamic_tail_start, frame_count, frame_energies, frame_len_for, speech_threshold,
    lemma_frame_bounds, lemma_noise_floor_bound, noise_floor, noise_floor_of, speech_median_of,
    FRAME_MS, SPEECH_ENERGY_MIN, TAIL_ENERGY_MIN,
};
use vstd::prelude::*;

verus! {

/// Shortest leading silence that is cut.
pub const MIN_LEADING_SILENCE_MS: u64 = 300;

/// Shortest trailing silence that is cut.
pub const MIN_TRAILING_SILENCE_MS: u64 = 400;

/// Silence kept before the first speech frame.
pub const PAD_BEFORE_MS: u64 = 200;

/// Silence kept after the last speech frame.
pub const PAD_AFTER_MS: u64 = 240;

pub const MIN_LEADING_FRAMES: usize = ((MIN_LEADING_SILENCE_MS + FRAME_MS - 1) / FRAME_MS) as usize;

pub const MIN_TRAILING_FRAMES: usize = ((MIN_TRAILING_SILENCE_MS + FRAME_MS - 1) / FRAME_MS) as usize;

pub const PAD_BEFORE_FRAMES: usize = ((PAD_BEFORE_MS + FRAME_MS - 1) / FRAME_MS) as usize;

pub const PAD_AFTER_FRAMES: usize = ((PAD_AFTER_MS + FRAME_MS - 1) / FRAME_MS) as usize;

/// The first speech frame among the first `i` frames.
pub open spec fn first_speech_before(e: Seq<u64>, floor: u64, i: int) -> Option<int>
    decreases i,
{
    if i <= 0 {
        None
    } else {
        match first_speech_before(e, floor, i - 1) {
            Some(f) => Some(f),
            None => if frame_is_speech(e, floor, i - 1) {
                Some(i - 1)
            } else {
                None
            },
        }
    }
}

/// The last speech frame among the first `i` frames.
pub open spec fn last_speech_before(e: Seq<u64>, floor: u64, i: int) -> Option<int>
    decreases i,
{
    if i <= 0 {
        None
    } else if frame_is_speech(e, floor, i - 1) {
        Some(i - 1)
    } else {
        last_speech_before(e, floor, i - 1)
    }
}

/// The first frame kept: `PAD_BEFORE_FRAMES` before the first speech frame
/// when at least `MIN_LEADING_FRAMES` of silence precede it, else frame 0.
pub open spec fn trim_start_frame(first: int) -> int {
    if first >= MIN_LEADING_FRAMES {
        if first > PAD_BEFORE_FRAMES {
            first - PAD_BEFORE_FRAMES
        } else {
            0
        }
    } else {
        0
    }
}

/// One past the last frame kept: `PAD_AFTER_FRAMES` after the last speech
/// frame when at least `MIN_TRAILING_FRAMES` of silence follow it, else the
/// end; a dynamic tail at least `MIN_TRAILING_FRAMES` from the end takes
/// precedence.
pub open spec fn trim_end_frame(last: int, tail: Option<int>, n: int) -> int {
    let fixed = if n - (last + 1) >= MIN_TRAILING_FRAMES {
        if last + 1 + PAD_AFTER_FRAMES < n {
            last + 1 + PAD_AFTER_FRAMES
        } else {
            n
        }
    } else {
        n
    };
    match tail {
        Some(ts) => {
            let t = if ts > last + 1 { ts } else { last + 1 };
            if n - t >= MIN_TRAILING_FRAMES {
                if t + PAD_AFTER_FRAMES < n {
                    t + PAD_AFTER_FRAMES
                } else {
                    n
                }
            } else {
                fixed
            }
        },
        None => fixed,
    }
}

/// The sample offset of frame boundary `k`, within `len` samples.
pub open spec fn frame_offset(k: int, fl: int, len: int) -> int {
    if k * fl < len {
        k * fl
    } else {
        len
    }
}

/// What the trim makes of `s`: `None` when it leaves the signal as it is,
/// else the new signal (empty when no frame is speech).
pub open spec fn trim_output(s: Seq<i32>, rate: int) -> Option<Seq<i32>> {
    let fl = frame_len_for(rate);
    if s.len() == 0 || rate == 0 || fl == 0 {
        None
    } else {
        let e = energies(s, fl);
        let n = e.len() as int;
        let floor = noise_floor(e);
        match first_speech_before(e, floor, n) {
            None => Some(Seq::empty()),
            Some(first) => {
                let last = match last_speech_before(e, floor, n) {
                    Some(l) => l,
                    None => first,
                };
                let start = trim_start_frame(first);
                let end = trim_end_frame(last, dynamic_tail(e, floor), n);
                if start == 0 && end == n {
                    None
                } else {
                    let lo = frame_offset(start, fl, s.len() as int);
                    let hi = frame_offset(end, fl, s.len() as int);
                    if lo >= hi {
                        Some(Seq::empty())
                    } else {
                        Some(s.subrange(lo, hi))
                    }
                }
            },
        }
    }
}

/// The trailing silent frames reported: those after the dynamic tail when it
/// decides the end, else those after the last speech frame.
pub open spec fn trim_trailing_frames(last: int, tail: Option<int>, n: int) -> int {
    match tail {
        Some(ts) => {
            let t = if ts > last + 1 { ts } else { last + 1 };
            if n - t >= MIN_TRAILING_FRAMES {
                n - t
            } else {
                n - (last + 1)
            }
        },
        None => n - (last + 1),
    }
}

/// The samples cut before and after the kept part when the trim changes
/// `s`: everything counts as leading when no frame is speech.
pub open spec fn trim_cut(s: Seq<i32>, rate: int) -> (int, int) {
    let fl = frame_len_for(rate);
    let len = s.len() as int;
    let e = energies(s, fl);
    let n = e.len() as int;
    let floor = noise_floor(e);
    match first_speech_before(e, floor, n) {
        None => (len, 0),
        Some(first) => {
            let last = match last_speech_before(e, floor, n) {
                Some(l) => l,
                None => first,
            };
            let lo = frame_offset(trim_start_frame(first), fl, len);
            let hi = frame_offset(trim_end_frame(last, dynamic_tail(e, floor), n), fl, len);
            if lo >= hi {
                (len, 0)
            } else {
                (lo, len - hi)
            }
        },
    }
}

/// The leading and trailing silent frames reported when the trim changes `s`.
pub open spec fn trim_frames(s: Seq<i32>, rate: int) -> (int, int) {
    let e = energies(s, frame_len_for(rate));
    let n = e.len() as int;
    let floor = noise_floor(e);
    match first_speech_before(e, floor, n) {
        None => (n, 0),
        Some(first) => {
            let last = match last_speech_before(e, floor, n) {
                Some(l) => l,
                None => first,
            };
            (first, trim_trailing_frames(last, dynamic_tail(e, floor), n))
        },
    }
}

/// What the trim did, for diagnostics.
pub struct TrimResult {
    pub trimmed_samples: usize,
    pub trimmed_leading_samples: usize,
    pub trimmed_trailing_samples: usize,
    /// The speech threshold, in fixed-point units.
    pub threshold: u64,
    /// The noise floor, in fixed-point units.
    pub noise_floor: u64,
    pub leading_frames: usize,
    pub trailing_frames: usize,
}

proof fn lemma_speech_bounds(e: Seq<u64>, floor: u64, i: int)
    requires
        0 <= i <= e.len(),
    ensures
        first_speech_before(e, floor, i) matches Some(f) ==> 0 <= f < i,
        last_speech_before(e, floor, i) matches Some(l) ==> 0 <= l < i,
        first_speech_before(e, floor, i) is Some <==> last_speech_before(e, floor, i) is Some,
        first_speech_before(e, floor, i) matches Some(f) ==> f <= last_speech_before(e, floor, i)->0,
    decreases i,
{
    if i > 0 {
        lemma_speech_bounds(e, floor, i - 1);
    }
}

/// The sample offset of frame boundary `k <= n`, computed without overflow.
fn offset_of(k: usize, fl: usize, len: usize, n: usize) -> (r: usize)
    requires
        fl > 0,
        n == frame_count(len as int, fl as int),
        n > 0,
        k <= n,
    ensures
        r == frame_offset(k as int, fl as int, len as int),
{
    if k < n {
        proof {
            lemma_frame_bounds(len as int, fl as int, k as int);
        }
        k * fl
    } else {
        proof {
            lemma_frame_bounds(len as int, fl as int, n - 1);
            assert((n - 1 + 1) * fl >= len);
        }
        len
    }
}

/// Cuts leading silence of at least `MIN_LEADING_SILENCE_MS` (keeping
/// `PAD_BEFORE_MS`) and trailing silence of at least `MIN_TRAILING_SILENCE_MS`
/// (keeping `PAD_AFTER_MS`, with the relaxed tail window and the dynamic
/// tail). With no speech the signal becomes empty. Returns `None`, leaving
/// the signal as it is, when nothing is cut.
pub fn trim_silence(samples: &mut Vec<i32>, sample_rate: u32) -> (r: Option<TrimResult>)
    ensures
        r is Some <==> trim_output(old(samples)@, sample_rate as int) is Some,
        final(samples)@ == match trim_output(old(samples)@, sample_rate as int) {
            Some(out) => out,
            None => old(samples)@,
        },
        r matches Some(t) ==> {
            &&& t.trimmed_samples == old(samples)@.len() - final(samples)@.len()
            &&& t.trimmed_samples == t.trimmed_leading_samples + t.trimmed_trailing_samples
            &&& t.trimmed_leading_samples == trim_cut(old(samples)@, sample_rate as int).0
            &&& t.trimmed_trailing_samples == trim_cut(old(samples)@, sample_rate as int).1
            &&& final(samples)@ == old(samples)@.subrange(
                t.trimmed_leading_samples as int,
                old(samples)@.len() - t.trimmed_trailing_samples,
            )
            &&& t.leading_frames == trim_frames(old(samples)@, sample_rate as int).0
            &&& t.trailing_frames == trim_frames(old(samples)@, sample_rate as int).1
            &&& t.noise_floor == noise_floor(energies(old(samples)@, frame_len_for(sample_rate as int)))
            &&& t.threshold == speech_threshold(t.noise_floor)
        },
{
    let ghost s = samples@;
    let len = samples.len();
    let fl = ((sample_rate as u64) * FRAME_MS / 1000) as usize;
    if len == 0 || sample_rate == 0 || fl == 0 {
        return None;
    }
    let e = frame_energies(samples, fl);
    let n = e.len();
    assert(frame_count(len as int, fl as int) > 0) by (nonlinear_arith)
        requires
            len > 0,
            fl > 0,
            frame_count(len as int, fl as int) == (if len % fl == 0 { len as int / fl as int } else { len as int / fl as int + 1 }),
    {
        if len % fl == 0 {
            assert(len == fl * (len / fl));
        }
    }
    let floor = noise_floor_of(&e);
    proof {
        lemma_noise_floor_bound(e@);
    }
    let threshold = if floor * 5 / 2 > SPEECH_ENERGY_MIN {
        floor * 5 / 2
    } else {
        SPEECH_ENERGY_MIN
    };
    let tail = match speech_median_of(&e, floor) {
        Some(m) => find_dynamic_tail_start(&e, m),
        None => None,
    };
    let tail_start: usize = if n > TAIL_WINDOW_FRAMES {
        n - TAIL_WINDOW_FRAMES
    } else {
        0
    };
    let mut first: Option<usize> = None;
    let mut last: Option<usize> = None;
    let mut i: usize = 0;
    while i < n
        invariant
            n == e@.len(),
            i <= n,
            forall|j: int| 0 <= j < e@.len() ==> e@[j] <= 2147483648,
            floor <= 2147483648,
            tail_start == tail_window_start(n as int),
            match first {
                Some(f) => first_speech_before(e@, floor, i as int) == Some(f as int),
                None => first_speech_before(e@, floor, i as int) is None,
            },
            match last {
                Some(l) => last_speech_before(e@, floor, i as int) == Some(l as int),
                None => last_speech_before(e@, floor, i as int) is None,
            },
        decreases n - i,
    {
        let x = e[i];
        let speech = if i >= tail_start {
            x >= 2 * floor && x >= TAIL_ENERGY_MIN
        } else {
            2 * x >= 5 * floor && x >= SPEECH_ENERGY_MIN
        };
        if speech {
            if first.is_none() {
                first = Some(i);
            }
            last = Some(i);
        }
        i = i + 1;
    }
    proof {
        lemma_speech_bounds(e@, floor, n as int);
    }
    let first_loud = match first {
        Some(f) => f,
        None => {
            samples.clear();
            assert(samples@ =~= Seq::<i32>::empty());
            return Some(TrimResult {
                trimmed_samples: len,
                trimmed_leading_samples: len,
                trimmed_trailing_samples: 0,
                threshold,
                noise_floor: floor,
                leading_frames: n,
                trailing_frames: 0,
            });
        },
    };
    let last_loud = match last {
        Some(l) => l,
        None => first_loud,
    };
    assert(MIN_LEADING_FRAMES == 15 && MIN_TRAILING_FRAMES == 20);
    assert(PAD_BEFORE_FRAMES == 10 && PAD_AFTER_FRAMES == 12);
    let leading_frames = first_loud;
    let mut trailing_frames = n - (last_loud + 1);
    let start_frame: usize = if leading_frames >= MIN_LEADING_FRAMES {
        if first_loud > PAD_BEFORE_FRAMES {
            first_loud - PAD_BEFORE_FRAMES
        } else {
            0
        }
    } else {
        0
    };
    let mut end_frame: usize = if trailing_frames >= MIN_TRAILING_FRAMES {
        if n - (last_loud + 1) > PAD_AFTER_FRAMES {
            last_loud + 1 + PAD_AFTER_FRAMES
        } else {
            n
        }
    } else {
        n
    };
    if let Some(ts) = tail {
        let t = if ts > last_loud + 1 {
            ts
        } else {
            last_loud + 1
        };
        if t <= n && n - t >= MIN_TRAILING_FRAMES {
            trailing_frames = n - t;
            end_frame = if n - t > PAD_AFTER_FRAMES {
                t + PAD_AFTER_FRAMES
            } else {
                n
            };
        }
    }
    assert(start_frame == trim_start_frame(first_loud as int));
    assert(end_frame == trim_end_frame(last_loud as int, dynamic_tail(e@, floor), n as int));
    if start_frame == 0 && end_frame == n {
        return None;
    }
    let lo = offset_of(start_frame, fl, len, n);
    let hi = offset_of(end_frame, fl, len, n);
    if lo >= hi {
        samples.clear();
        assert(samples@ =~= Seq::<i32>::empty());
        return Some(TrimResult {
            trimmed_samples: len,
            trimmed_leading_samples: len,
            trimmed_trailing_samples: 0,
            threshold,
            noise_floor: floor,
            leading_frames,
            trailing_frames,
        });
    }
    let mut kept: Vec<i32> = Vec::new();
    let mut j: usize = lo;
    while j < hi
        invariant
            lo <= j <= hi <= len,
            len == s.len(),
            s == samples@,
            kept@ == s.subrange(lo as int, j as int),
        decreases hi - j,
    {
        kept.push(samples[j]);
        assert(kept@ =~= s.subrange(lo as int, j as int + 1));
        j = j + 1;
    }
    *samples = kept;
    Some(TrimResult {
        trimmed_samples: lo + (len - hi),
        trimmed_leading_samples: lo,
        trimmed_trailing_samples: len - hi,
        threshold,
        noise_floor: floor,
        leading_frames,
        trailing_frames,
    })
}

} // verus!
