//! Energy analysis of a mono signal for silence removal.
//!
//! Samples are fixed-point: [`FULL_SCALE`] units stand for amplitude 1.0.
//! The signal is cut into frames of [`FRAME_MS`] milliseconds; a frame's
//! energy is its mean absolute amplitude (rounded down). The noise floor is
//! the 10th-percentile frame energy, and thresholds are derived from it.
use vstd::prelude::*;
use vstd::relations::sorted_by;
use vstd::relations::total_ordering;

verus! {

/// Fixed-point units per unit of amplitude.
pub const FULL_SCALE: u64 = 1_000_000;

/// Length of one analysis frame.
pub const FRAME_MS: u64 = 20;

/// Lowest energy that counts as speech (0.002 of full scale).
pub const SPEECH_ENERGY_MIN: u64 = 2000;

/// Lowest energy that counts as speech in the tail window (0.0015).
pub const TAIL_ENERGY_MIN: u64 = 1500;

/// Width of the window that the dynamic tail search averages over.
pub const DYNAMIC_WINDOW_MS: u64 = 200;

/// Shortest quiet stretch after the last loud window that counts as a tail.
pub const DYNAMIC_MIN_TAIL_MS: u64 = 300;

/// Frames in the dynamic tail window.
pub const DYNAMIC_WINDOW_FRAMES: usize = ((DYNAMIC_WINDOW_MS + FRAME_MS - 1) / FRAME_MS) as usize;

/// Frames in the shortest dynamic tail.
pub const DYNAMIC_MIN_TAIL_FRAMES: usize = ((DYNAMIC_MIN_TAIL_MS + FRAME_MS - 1) / FRAME_MS) as usize;

/// The absolute value of a sample.
pub open spec fn sample_level(x: i32) -> int {
    if x < 0 {
        -(x as int)
    } else {
        x as int
    }
}

/// The sum of the absolute values of a run of samples.
pub open spec fn level_sum(q: Seq<i32>) -> int
    decreases q.len(),
{
    if q.len() == 0 {
        0
    } else {
        level_sum(q.drop_last()) + sample_level(q.last())
    }
}

/// The sum of a run of energies.
pub open spec fn energy_sum(q: Seq<u64>) -> int
    decreases q.len(),
{
    if q.len() == 0 {
        0
    } else {
        energy_sum(q.drop_last()) + q.last()
    }
}

/// Samples per frame at a given rate.
pub open spec fn frame_len_for(rate: int) -> int {
    rate * FRAME_MS / 1000
}

/// Number of frames that cover `len` samples, the last one possibly short.
pub open spec fn frame_count(len: int, fl: int) -> int {
    if len % fl == 0 {
        len / fl
    } else {
        len / fl + 1
    }
}

/// First sample of frame `i`.
pub open spec fn frame_start(i: int, fl: int) -> int {
    i * fl
}

/// One past the last sample of frame `i`.
pub open spec fn frame_end(len: int, i: int, fl: int) -> int {
    if (i + 1) * fl < len {
        (i + 1) * fl
    } else {
        len
    }
}

/// Mean absolute amplitude of frame `i`, rounded down.
pub open spec fn frame_energy(s: Seq<i32>, fl: int, i: int) -> u64 {
    let lo = frame_start(i, fl);
    let hi = frame_end(s.len() as int, i, fl);
    (level_sum(s.subrange(lo, hi)) / (hi - lo)) as u64
}

/// The energy of every frame, in order.
pub open spec fn energies(s: Seq<i32>, fl: int) -> Seq<u64> {
    Seq::new(frame_count(s.len() as int, fl) as nat, |i: int| frame_energy(s, fl, i))
}

/// The ascending order on energies.
pub open spec fn ascending() -> spec_fn(u64, u64) -> bool {
    |a: u64, b: u64| a <= b
}

/// The energies in ascending order.
pub open spec fn sorted_energies(e: Seq<u64>) -> Seq<u64> {
    e.sort_by(ascending())
}

/// Index of the 10th percentile among `n` values (rounded to nearest).
pub open spec fn percentile_index(n: int) -> int {
    (n + 4) / 10
}

/// The 10th-percentile frame energy.
pub open spec fn noise_floor(e: Seq<u64>) -> u64 {
    sorted_energies(e)[percentile_index(e.len() as int)]
}

/// The speech threshold reported for a noise floor: 2.5 times the floor
/// (rounded down), but at least the absolute floor.
pub open spec fn speech_threshold(floor: u64) -> u64 {
    if floor * 5 / 2 > SPEECH_ENERGY_MIN {
        (floor * 5 / 2) as u64
    } else {
        SPEECH_ENERGY_MIN
    }
}

/// Speech: at least 2.5 times the noise floor and at least the absolute floor.
pub open spec fn is_speech(energy: u64, floor: u64) -> bool {
    2 * energy >= 5 * floor && energy >= SPEECH_ENERGY_MIN
}

/// Speech in the tail window: at least twice the noise floor and at least the
/// relaxed absolute floor.
pub open spec fn is_tail_speech(energy: u64, floor: u64) -> bool {
    energy >= 2 * floor && energy >= TAIL_ENERGY_MIN
}

/// The energies of the speech frames, in order.
pub open spec fn speech_energies(e: Seq<u64>, floor: u64) -> Seq<u64> {
    e.filter(|x: u64| is_speech(x, floor))
}

/// The median speech-frame energy, when there are at least three speech frames.
pub open spec fn speech_median(e: Seq<u64>, floor: u64) -> Option<u64> {
    let sp = speech_energies(e, floor);
    if sp.len() < 3 {
        None
    } else {
        Some(sorted_energies(sp)[(sp.len() / 2) as int])
    }
}

/// The window of frames starting at `i` averages at least a quarter of `r`.
pub open spec fn loud_window(e: Seq<u64>, r: u64, i: int) -> bool {
    4 * energy_sum(e.subrange(i, i + DYNAMIC_WINDOW_FRAMES)) >= r * DYNAMIC_WINDOW_FRAMES
}

/// The last loud window that starts at or before `i`.
pub open spec fn last_loud_window(e: Seq<u64>, r: u64, i: int) -> Option<int>
    decreases i + 1,
{
    if i < 0 {
        None
    } else if loud_window(e, r, i) {
        Some(i)
    } else {
        last_loud_window(e, r, i - 1)
    }
}

/// The frame where a sustained drop below a quarter of the speech reference
/// `r` begins: just after the last loud window, provided that at least
/// `DYNAMIC_MIN_TAIL_FRAMES` frames follow it.
pub open spec fn dynamic_tail_start(e: Seq<u64>, r: u64) -> Option<int> {
    let n = e.len() as int;
    if n == 0 || r == 0 || n < DYNAMIC_WINDOW_FRAMES + DYNAMIC_MIN_TAIL_FRAMES {
        None
    } else {
        match last_loud_window(e, r, n - DYNAMIC_WINDOW_FRAMES) {
            None => None,
            Some(i) => if n - (i + DYNAMIC_WINDOW_FRAMES) < DYNAMIC_MIN_TAIL_FRAMES {
                None
            } else {
                Some(i + DYNAMIC_WINDOW_FRAMES)
            },
        }
    }
}

/// The dynamic tail of a signal's energies, from its speech median.
pub open spec fn dynamic_tail(e: Seq<u64>, floor: u64) -> Option<int> {
    match speech_median(e, floor) {
        None => None,
        Some(r) => dynamic_tail_start(e, r),
    }
}

proof fn lemma_ascending_total()
    ensures
        total_ordering(ascending()),
{
}

proof fn lemma_level_sum_bound(q: Seq<i32>)
    ensures
        0 <= level_sum(q) <= q.len() * 2147483648,
    decreases q.len(),
{
    if q.len() > 0 {
        lemma_level_sum_bound(q.drop_last());
    }
}

pub(crate) proof fn lemma_frame_bounds(len: int, fl: int, i: int)
    requires
        fl > 0,
        len >= 0,
        0 <= i < frame_count(len, fl),
    ensures
        frame_start(i, fl) < frame_end(len, i, fl) <= len,
        frame_end(len, i, fl) - frame_start(i, fl) <= fl,
        i + 1 == frame_count(len, fl) <==> frame_end(len, i, fl) == len,
        i + 1 < frame_count(len, fl) ==> frame_end(len, i, fl) == frame_start(i + 1, fl),
{
    assert(i * fl < len) by (nonlinear_arith)
        requires
            fl > 0,
            len >= 0,
            0 <= i,
            i < (if len % fl == 0 { len / fl } else { len / fl + 1 }),
    {
        assert(len == fl * (len / fl) + len % fl);
        if i <= len / fl - 1 {
            assert(i * fl <= (len / fl - 1) * fl);
        } else {
            assert(i == len / fl);
        }
    }
    assert((i + 1) * fl >= len <==> i + 1 == frame_count(len, fl)) by (nonlinear_arith)
        requires
            fl > 0,
            len >= 0,
            0 <= i,
            i < (if len % fl == 0 { len / fl } else { len / fl + 1 }),
            frame_count(len, fl) == (if len % fl == 0 { len / fl } else { len / fl + 1 }),
    {
        assert(len == fl * (len / fl) + len % fl);
        if i + 1 <= len / fl - 1 {
            assert((i + 1) * fl <= (len / fl - 1) * fl);
        }
    }
    assert((i + 1) * fl == i * fl + fl) by (nonlinear_arith);
}

proof fn lemma_frame_energy_bound(s: Seq<i32>, fl: int, i: int)
    requires
        fl > 0,
        0 <= i < frame_count(s.len() as int, fl),
    ensures
        frame_energy(s, fl, i) <= 2147483648,
{
    let lo = frame_start(i, fl);
    let hi = frame_end(s.len() as int, i, fl);
    lemma_frame_bounds(s.len() as int, fl, i);
    let q = s.subrange(lo, hi);
    lemma_level_sum_bound(q);
    let t = level_sum(q);
    let d = hi - lo;
    assert(t / d <= 2147483648) by (nonlinear_arith)
        requires
            d > 0,
            0 <= t <= d * 2147483648,
    {
        assert(t / d <= (d * 2147483648) / d) by {
            vstd::arithmetic::div_mod::lemma_div_is_ordered(t, d * 2147483648, d);
        }
        vstd::arithmetic::div_mod::lemma_div_multiples_vanish(2147483648, d);
    }
}

/// Energy of frames covering `samples`, each `fl` samples long.
pub fn frame_energies(samples: &Vec<i32>, fl: usize) -> (e: Vec<u64>)
    requires
        0 < fl <= u32::MAX,
    ensures
        e@ == energies(samples@, fl as int),
        forall|i: int| 0 <= i < e@.len() ==> e@[i] <= 2147483648,
{
    let len = samples.len();
    let n: usize = if len % fl == 0 {
        len / fl
    } else {
        assert(len / fl < len) by (nonlinear_arith)
            requires
                fl > 0,
                len % fl != 0,
        {
            assert(fl != 1);
        }
        len / fl + 1
    };
    let ghost s = samples@;
    let mut e: Vec<u64> = Vec::new();
    let mut i: usize = 0;
    let mut start: usize = 0;
    while i < n
        invariant
            n == frame_count(len as int, fl as int),
            len == s.len(),
            s == samples@,
            0 < fl <= u32::MAX,
            i <= n,
            i < n ==> start == frame_start(i as int, fl as int),
            e@ == energies(s, fl as int).subrange(0, i as int),
            forall|k: int| 0 <= k < e@.len() ==> e@[k] <= 2147483648,
        decreases n - i,
    {
        proof {
            lemma_frame_bounds(len as int, fl as int, i as int);
        }
        let end: usize = if len - start > fl {
            start + fl
        } else {
            len
        };
        assert(end == frame_end(len as int, i as int, fl as int)) by (nonlinear_arith)
            requires
                start == i * fl,
                end == (if len - start > fl { start + fl } else { len as int }),
                frame_end(len as int, i as int, fl as int) == (if (i + 1) * fl < len { (i + 1) * fl } else { len as int }),
        {
            assert((i + 1) * fl == i * fl + fl);
        }
        let mut sum: u64 = 0;
        let mut j: usize = start;
        while j < end
            invariant
                start <= j <= end <= len,
                len == s.len(),
                s == samples@,
                end - start <= fl <= u32::MAX,
                sum == level_sum(s.subrange(start as int, j as int)),
            decreases end - j,
        {
            proof {
                lemma_level_sum_bound(s.subrange(start as int, j as int));
                assert(s.subrange(start as int, j as int + 1).drop_last() =~= s.subrange(start as int, j as int));
            }
            let x = samples[j];
            let level: u64 = if x < 0 {
                (-(x as i64)) as u64
            } else {
                x as u64
            };
            assert((j - start) * 2147483648 <= 4294967295 * 2147483648) by (nonlinear_arith)
                requires
                    j - start <= 4294967295,
            ;
            sum = sum + level;
            j = j + 1;
        }
        let energy = sum / ((end - start) as u64);
        proof {
            lemma_frame_energy_bound(s, fl as int, i as int);
        }
        e.push(energy);
        assert(e@ =~= energies(s, fl as int).subrange(0, i as int + 1));
        start = end;
        i = i + 1;
        proof {
            if i < n {
                lemma_frame_bounds(len as int, fl as int, i as int - 1);
            }
        }
    }
    assert(e@ =~= energies(s, fl as int));
    e
}

/// Relies on `slice::sort_unstable`: the same values, in ascending order.
#[verifier::external_body]
fn sort_ascending(v: &mut Vec<u64>)
    ensures
        final(v)@.to_multiset() == old(v)@.to_multiset(),
        sorted_by(final(v)@, ascending()),
{
    v.sort_unstable();
}

proof fn lemma_sorted_energies(e: Seq<u64>)
    ensures
        sorted_energies(e).len() == e.len(),
        sorted_energies(e).to_multiset() == e.to_multiset(),
        sorted_by(sorted_energies(e), ascending()),
        forall|x: u64| #[trigger] sorted_energies(e).contains(x) ==> e.contains(x),
{
    lemma_ascending_total();
    e.lemma_sort_by_ensures(ascending());
    vstd::seq_lib::to_multiset_len(e);
    vstd::seq_lib::to_multiset_len(sorted_energies(e));
}

pub(crate) proof fn lemma_noise_floor_bound(e: Seq<u64>)
    requires
        e.len() > 0,
        forall|i: int| 0 <= i < e.len() ==> e[i] <= 2147483648,
    ensures
        noise_floor(e) <= 2147483648,
        e.contains(noise_floor(e)),
{
    lemma_sorted_energies(e);
    let k = percentile_index(e.len() as int);
    assert(sorted_energies(e).contains(sorted_energies(e)[k]));
}

/// Copies `e` and sorts the copy ascending.
fn sorted_copy(e: &Vec<u64>) -> (r: Vec<u64>)
    ensures
        r@ == sorted_energies(e@),
{
    let mut r = e.clone();
    assert(r@ =~= e@);
    sort_ascending(&mut r);
    proof {
        lemma_ascending_total();
        lemma_sorted_energies(e@);
        vstd::seq_lib::lemma_sorted_unique(r@, sorted_energies(e@), ascending());
    }
    r
}

/// The 10th-percentile energy of a non-empty list of frame energies.
pub fn noise_floor_of(e: &Vec<u64>) -> (r: u64)
    requires
        e@.len() > 0,
    ensures
        r == noise_floor(e@),
{
    let sorted = sorted_copy(e);
    proof {
        lemma_sorted_energies(e@);
    }
    let idx = (e.len() / 10) + if e.len() % 10 >= 6 { 1 } else { 0 };
    assert(idx == percentile_index(e@.len() as int));
    sorted[idx]
}

/// The median energy of the speech frames, when there are at least three.
pub fn speech_median_of(e: &Vec<u64>, floor: u64) -> (r: Option<u64>)
    requires
        forall|i: int| 0 <= i < e@.len() ==> e@[i] <= 2147483648,
        floor <= 2147483648,
    ensures
        r == speech_median(e@, floor),
        r matches Some(m) ==> m <= 2147483648,
{
    let ghost pred = |x: u64| is_speech(x, floor);
    let mut speech: Vec<u64> = Vec::new();
    let mut i: usize = 0;
    while i < e.len()
        invariant
            i <= e@.len(),
            floor <= 2147483648,
            pred == (|x: u64| is_speech(x, floor)),
            speech@ == e@.subrange(0, i as int).filter(pred),
            forall|j: int| 0 <= j < e@.len() ==> e@[j] <= 2147483648,
        decreases e.len() - i,
    {
        let x = e[i];
        proof {
            assert(e@.subrange(0, i as int + 1) =~= e@.subrange(0, i as int).push(x));
            e@.subrange(0, i as int).lemma_filter_push(x, pred);
        }
        if 2 * x >= 5 * floor && x >= SPEECH_ENERGY_MIN {
            speech.push(x);
        }
        i = i + 1;
    }
    assert(e@.subrange(0, e@.len() as int) =~= e@);
    if speech.len() < 3 {
        return None;
    }
    let sorted = sorted_copy(&speech);
    proof {
        lemma_sorted_energies(speech@);
    }
    let m = sorted[speech.len() / 2];
    proof {
        assert(sorted@.contains(m));
        e@.lemma_filter_contains_rev(pred, m);
    }
    Some(m)
}

/// Whether the window of frames starting at `k` averages at least a quarter
/// of `r`.
fn window_is_loud(e: &Vec<u64>, r: u64, k: usize) -> (b: bool)
    requires
        k + DYNAMIC_WINDOW_FRAMES <= e@.len(),
        forall|i: int| 0 <= i < e@.len() ==> e@[i] <= 2147483648,
        r <= 2147483648,
    ensures
        b == loud_window(e@, r, k as int),
{
    assert(DYNAMIC_WINDOW_FRAMES == 10);
    let n = e.len();
    let mut sum: u64 = 0;
    let mut j: usize = 0;
    while j < DYNAMIC_WINDOW_FRAMES
        invariant
            n == e@.len(),
            k + DYNAMIC_WINDOW_FRAMES <= e@.len(),
            forall|i: int| 0 <= i < e@.len() ==> e@[i] <= 2147483648,
            j <= DYNAMIC_WINDOW_FRAMES,
            sum == energy_sum(e@.subrange(k as int, k + j)),
            sum <= j * 2147483648,
        decreases DYNAMIC_WINDOW_FRAMES - j,
    {
        assert(e@.subrange(k as int, k + j + 1).drop_last() =~= e@.subrange(k as int, k + j as int));
        assert(k + j < e@.len());
        let x = e[k + j];
        assert(x <= 2147483648);
        sum = sum + x;
        j = j + 1;
    }
    4 * sum >= r * (DYNAMIC_WINDOW_FRAMES as u64)
}

/// The frame where the signal's trailing energy drops for good below a
/// quarter of the speech reference `r`; see [`dynamic_tail_start`].
pub fn find_dynamic_tail_start(e: &Vec<u64>, r: u64) -> (t: Option<usize>)
    requires
        forall|i: int| 0 <= i < e@.len() ==> e@[i] <= 2147483648,
        r <= 2147483648,
    ensures
        match t {
            Some(x) => dynamic_tail_start(e@, r) == Some(x as int),
            None => dynamic_tail_start(e@, r) is None,
        },
{
    let n = e.len();
    assert(DYNAMIC_WINDOW_FRAMES == 10 && DYNAMIC_MIN_TAIL_FRAMES == 15);
    if n == 0 || r == 0 || n < DYNAMIC_WINDOW_FRAMES + DYNAMIC_MIN_TAIL_FRAMES {
        return None;
    }
    let ghost top = n - DYNAMIC_WINDOW_FRAMES;
    let mut i: usize = n - DYNAMIC_WINDOW_FRAMES + 1;
    while i > 0
        invariant
            1 <= top + 1 <= n,
            top == n - DYNAMIC_WINDOW_FRAMES,
            r > 0,
            n >= DYNAMIC_WINDOW_FRAMES + DYNAMIC_MIN_TAIL_FRAMES,
            n == e@.len(),
            i <= top + 1,
            forall|j: int| 0 <= j < e@.len() ==> e@[j] <= 2147483648,
            r <= 2147483648,
            last_loud_window(e@, r, top) == last_loud_window(e@, r, i - 1),
        decreases i,
    {
        let k = i - 1;
        if window_is_loud(e, r, k) {
            assert(last_loud_window(e@, r, k as int) == Some(k as int));
            let tail_start = k + DYNAMIC_WINDOW_FRAMES;
            if n - tail_start < DYNAMIC_MIN_TAIL_FRAMES {
                return None;
            }
            return Some(tail_start);
        }
        i = k;
    }
    None
}

} // verus!
