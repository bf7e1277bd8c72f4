//! Auto-ingest checks on detected files, and progress reporting.
use std::path::PathBuf;
use vstd::prelude::*;

verus! {

/// How many size polls a file must pass unchanged.
pub const STABILITY_POLLS: usize = 3;

/// The pause between two size polls.
pub const POLL_INTERVAL_MS: u64 = 200;

/// What the size polls so far say about a file.
#[derive(Debug, Clone, Copy, PartialEq, Eq, Structural)]
pub enum StabilityVerdict {
    /// Every poll gave the same size: the write has settled.
    Stable,
    /// The size changed between polls: skip the file on this pass.
    Changed,
    /// No change yet, but not enough polls: poll again after the interval.
    PollAgain,
}

/// Every poll gave the size of the first.
pub open spec fn same_sizes(sizes: Seq<u64>) -> bool {
    forall|i: int| 0 <= i < sizes.len() ==> #[trigger] sizes[i] == sizes[0]
}

/// Judges the sizes polled so far, in order.
pub fn stability_verdict(sizes: &Vec<u64>) -> (r: StabilityVerdict)
    ensures
        r == (if !same_sizes(sizes@) {
            StabilityVerdict::Changed
        } else if sizes@.len() < STABILITY_POLLS {
            StabilityVerdict::PollAgain
        } else {
            StabilityVerdict::Stable
        }),
{
    let mut i: usize = 1;
    while i < sizes.len()
        invariant
            1 <= i,
            sizes@.len() > 0 ==> i <= sizes@.len(),
            forall|j: int| 0 <= j < i && j < sizes@.len() ==> #[trigger] sizes@[j] == sizes@[0],
        decreases sizes.len() - i,
    {
        if sizes[i] != sizes[0] {
            return StabilityVerdict::Changed;
        }
        i = i + 1;
    }
    if sizes.len() < STABILITY_POLLS {
        StabilityVerdict::PollAgain
    } else {
        StabilityVerdict::Stable
    }
}

/// Whether `ext` is "m4a" in any ASCII case.
pub open spec fn m4a_extension(ext: Seq<char>) -> bool {
    &&& ext.len() == 3
    &&& (ext[0] == 'm' || ext[0] == 'M')
    &&& ext[1] == '4'
    &&& (ext[2] == 'a' || ext[2] == 'A')
}

/// Whether a file extension names an M4A file.
pub fn is_m4a_extension(ext: Option<&str>) -> (r: bool)
    ensures
        r == (ext matches Some(e) && m4a_extension(e@)),
{
    match ext {
        None => false,
        Some(e) => {
            if e.unicode_len() != 3 {
                return false;
            }
            let (a, b, c) = (e.get_char(0), e.get_char(1), e.get_char(2));
            (a == 'm' || a == 'M') && b == '4' && (c == 'a' || c == 'A')
        },
    }
}

/// A path's extension, when it is valid text.
pub uninterp spec fn extension_of(p: PathBuf) -> Option<Seq<char>>;

/// Relies on `Path::extension` and `OsStr::to_str`: the result depends on
/// the path alone.
#[verifier::external_body]
fn extension_text(p: &PathBuf) -> (r: Option<&str>)
    ensures
        match r {
            Some(e) => extension_of(*p) == Some(e@),
            None => extension_of(*p) is None,
        },
{
    p.extension().and_then(|e| e.to_str())
}

/// Whether `path` has the M4A extension, in any ASCII case.
pub fn is_m4a(path: &PathBuf) -> (r: bool)
    ensures
        r == (extension_of(*path) matches Some(e) && m4a_extension(e)),
{
    is_m4a_extension(extension_text(path))
}

/// A percentage clamped to 0..=100.
pub open spec fn clamp_percent(pct: i32) -> u8 {
    if pct < 0 {
        0
    } else if pct > 100 {
        100
    } else {
        pct as u8
    }
}

/// Passes progress values on, dropping a value equal to the previous one.
pub struct ProgressFilter {
    last: Option<i32>,
}

impl ProgressFilter {
    /// The last value seen.
    pub closed spec fn last(&self) -> Option<i32> {
        self.last
    }

    pub fn new() -> (r: Self)
        ensures
            r.last() is None,
    {
        ProgressFilter { last: None }
    }

    /// The value to report for `pct`, clamped to 0..=100; none when `pct`
    /// repeats the previous value.
    pub fn report(&mut self, pct: i32) -> (r: Option<u8>)
        ensures
            old(self).last() == Some(pct) ==> r is None && final(self).last() == old(self).last(),
            old(self).last() != Some(pct) ==> r == Some(clamp_percent(pct)) && final(self).last()
                == Some(pct),
    {
        if self.last == Some(pct) {
            return None;
        }
        self.last = Some(pct);
        let c: u8 = if pct < 0 {
            0
        } else if pct > 100 {
            100
        } else {
            pct as u8
        };
        Some(c)
    }
}

} // verus!
