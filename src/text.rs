//! String building blocks shared by the library.
use vstd::prelude::*;

verus! {

/// The Unicode `White_Space` characters, which trimming removes.
pub open spec fn is_white_space(c: char) -> bool {
    let u = c as u32;
    (0x9 <= u <= 0xd) || u == 0x20 || u == 0x85 || u == 0xa0 || u == 0x1680 || (0x2000 <= u
        <= 0x200a) || u == 0x2028 || u == 0x2029 || u == 0x202f || u == 0x205f || u == 0x3000
}

/// The first position at or after `i` that holds no whitespace (or the end).
pub open spec fn text_start_from(s: Seq<char>, i: int) -> int
    decreases s.len() - i,
{
    if i >= s.len() || !is_white_space(s[i]) {
        i
    } else {
        text_start_from(s, i + 1)
    }
}

/// One past the last position before `j` that holds no whitespace (or 0).
pub open spec fn text_end_before(s: Seq<char>, j: int) -> int
    decreases j,
{
    if j <= 0 || !is_white_space(s[j - 1]) {
        j
    } else {
        text_end_before(s, j - 1)
    }
}

/// `s` without leading and trailing whitespace.
pub open spec fn trimmed(s: Seq<char>) -> Seq<char> {
    let start = text_start_from(s, 0);
    if start >= s.len() {
        Seq::empty()
    } else {
        s.subrange(start, text_end_before(s, s.len() as int))
    }
}

proof fn lemma_text_start(s: Seq<char>, i: int)
    requires
        0 <= i <= s.len(),
    ensures
        i <= text_start_from(s, i) <= s.len(),
        text_start_from(s, i) < s.len() ==> !is_white_space(s[text_start_from(s, i)]),
    decreases s.len() - i,
{
    if i < s.len() && is_white_space(s[i]) {
        lemma_text_start(s, i + 1);
    }
}

proof fn lemma_text_end(s: Seq<char>, j: int, k: int)
    requires
        0 <= k < j <= s.len(),
        !is_white_space(s[k]),
    ensures
        k < text_end_before(s, j) <= j,
    decreases j,
{
    if j - 1 != k && is_white_space(s[j - 1]) {
        lemma_text_end(s, j - 1, k);
    }
}

/// `s` without leading and trailing whitespace, as `str::trim` gives it.
pub fn trim_str(s: &str) -> (r: &str)
    ensures
        r@ == trimmed(s@),
{
    let n = s.unicode_len();
    let mut i: usize = 0;
    while i < n && is_space_char(s.get_char(i))
        invariant
            n == s@.len(),
            i <= n,
            text_start_from(s@, 0) == text_start_from(s@, i as int),
        decreases n - i,
    {
        i = i + 1;
    }
    if i >= n {
        return s.substring_char(0, 0);
    }
    let mut j: usize = n;
    while j > i + 1 && is_space_char(s.get_char(j - 1))
        invariant
            n == s@.len(),
            i < j <= n,
            text_end_before(s@, n as int) == text_end_before(s@, j as int),
        decreases j,
    {
        j = j - 1;
    }
    proof {
        lemma_text_end(s@, j as int, i as int);
    }
    s.substring_char(i, j)
}

fn is_space_char(c: char) -> (r: bool)
    ensures
        r == is_white_space(c),
{
    let u = c as u32;
    (0x9 <= u && u <= 0xd) || u == 0x20 || u == 0x85 || u == 0xa0 || u == 0x1680 || (0x2000 <= u
        && u <= 0x200a) || u == 0x2028 || u == 0x2029 || u == 0x202f || u == 0x205f || u == 0x3000
}

/// Relies on `String::push`: `c` is appended to `s`.
#[verifier::external_body]
pub(crate) fn append_char(s: &mut String, c: char)
    ensures
        final(s)@ == old(s)@.push(c),
{
    s.push(c)
}

/// `words` joined with `sep` between consecutive ones.
pub open spec fn join_with(words: Seq<Seq<char>>, sep: Seq<char>) -> Seq<char>
    decreases words.len(),
{
    if words.len() == 0 {
        Seq::empty()
    } else if words.len() == 1 {
        words[0]
    } else {
        join_with(words.drop_last(), sep) + sep + words.last()
    }
}

} // verus!
