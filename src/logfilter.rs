//! Recognition-backend log lines that are dropped as noise.
use vstd::prelude::*;

verus! {

/// `s` begins with `p`.
pub open spec fn has_prefix(s: Seq<char>, p: Seq<char>) -> bool {
    p.len() <= s.len() && s.subrange(0, p.len() as int) == p
}

/// `p` occurs in `s` at position `i`.
pub open spec fn occurs_at(s: Seq<char>, p: Seq<char>, i: int) -> bool {
    0 <= i && i + p.len() <= s.len() && s.subrange(i, i + p.len()) == p
}

/// `p` occurs somewhere in `s`.
pub open spec fn has_infix(s: Seq<char>, p: Seq<char>) -> bool {
    exists|i: int| occurs_at(s, p, i)
}

/// Whether `p` occurs in `s` at position `i`.
fn matches_at(s: &str, p: &str, i: usize) -> (r: bool)
    requires
        i + p@.len() <= s@.len(),
    ensures
        r == occurs_at(s@, p@, i as int),
{
    let len = s.unicode_len();
    let n = p.unicode_len();
    let mut k: usize = 0;
    while k < n
        invariant
            len == s@.len(),
            n == p@.len(),
            i + n <= s@.len(),
            k <= n,
            forall|j: int| 0 <= j < k ==> s@[i + j] == p@[j],
        decreases n - k,
    {
        if s.get_char(i + k) != p.get_char(k) {
            assert(s@.subrange(i as int, i + n)[k as int] != p@[k as int]);
            return false;
        }
        k = k + 1;
    }
    assert(s@.subrange(i as int, i + n) =~= p@);
    true
}

/// Whether `s` begins with `p`.
pub fn starts_with_text(s: &str, p: &str) -> (r: bool)
    ensures
        r == has_prefix(s@, p@),
{
    if p.unicode_len() > s.unicode_len() {
        return false;
    }
    matches_at(s, p, 0)
}

/// Whether `p` occurs in `s`.
pub fn contains_text(s: &str, p: &str) -> (r: bool)
    ensures
        r == has_infix(s@, p@),
{
    let n = s.unicode_len();
    let m = p.unicode_len();
    if m > n {
        assert forall|i: int| !occurs_at(s@, p@, i) by {}
        return false;
    }
    if m == 0 {
        assert(s@.subrange(0, 0) =~= p@);
        assert(occurs_at(s@, p@, 0));
        return true;
    }
    let mut i: usize = 0;
    while i <= n - m
        invariant
            n == s@.len(),
            m == p@.len(),
            0 < m <= n,
            i <= n - m + 1,
            forall|j: int| 0 <= j < i ==> !occurs_at(s@, p@, j),
        decreases n - m + 1 - i,
    {
        if matches_at(s, p, i) {
            return true;
        }
        i = i + 1;
    }
    assert forall|j: int| !occurs_at(s@, p@, j) by {
        if 0 <= j && j + m <= n {
            assert(j < i);
        }
    }
    false
}

/// The log lines of the accelerator backend that carry no news: those that
/// begin with "ggml_metal_" or "ggml_backend_metal_", or mention
/// "GGML_METAL_PATH_RESOURCES", "ggml-metal.metal", "Metal backend",
/// "Metal GPU" or "ggml_backend_metal".
pub open spec fn noisy_metal_log(msg: Seq<char>) -> bool {
    has_prefix(msg, "ggml_metal_"@) || has_prefix(msg, "ggml_backend_metal_"@) || has_infix(
        msg,
        "GGML_METAL_PATH_RESOURCES"@,
    ) || has_infix(msg, "ggml-metal.metal"@) || has_infix(msg, "Metal backend"@) || has_infix(
        msg,
        "Metal GPU"@,
    ) || has_infix(msg, "ggml_backend_metal"@)
}

/// Whether a backend log line is noise to be dropped.
pub fn is_noisy_metal_log(msg: &str) -> (r: bool)
    ensures
        r == noisy_metal_log(msg@),
{
    starts_with_text(msg, "ggml_metal_") || starts_with_text(msg, "ggml_backend_metal_")
        || contains_text(msg, "GGML_METAL_PATH_RESOURCES") || contains_text(msg, "ggml-metal.metal")
        || contains_text(msg, "Metal backend") || contains_text(msg, "Metal GPU") || contains_text(
        msg,
        "ggml_backend_metal",
    )
}

} // verus!
