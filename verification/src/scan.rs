//! Forward and backward scans over a byte string, on which the tokenizer's
//! rules are built.

use vstd::prelude::*;

verus! {

/// The first index at or after `i` whose byte is `a` or `b`, or the length of
/// `s` if there is none.
pub open spec fn first_of(s: Seq<u8>, i: int, a: u8, b: u8) -> int
    decreases s.len() - i,
{
    if i < 0 || i >= s.len() {
        s.len() as int
    } else if s[i] == a || s[i] == b {
        i
    } else {
        first_of(s, i + 1, a, b)
    }
}

/// The index just after the run of bytes equal to `b` that starts at `i`.
pub open spec fn run_end(s: Seq<u8>, i: int, b: u8) -> int
    decreases s.len() - i,
{
    if 0 <= i < s.len() && s[i] == b {
        run_end(s, i + 1, b)
    } else {
        i
    }
}

/// The last index in `[lo, hi)` whose byte is `b`, or `lo - 1` if there is none.
pub open spec fn last_of(s: Seq<u8>, lo: int, hi: int, b: u8) -> int
    decreases hi - lo,
{
    if hi <= lo {
        lo - 1
    } else if s[hi - 1] == b {
        hi - 1
    } else {
        last_of(s, lo, hi - 1, b)
    }
}

/// Every byte of `s` in `[lo, hi)` is `b`.
pub open spec fn all_are(s: Seq<u8>, lo: int, hi: int, b: u8) -> bool {
    forall|k: int| lo <= k < hi ==> s[k] == b
}

/// No byte of `s` in `[lo, hi)` is `a` or `b`.
pub open spec fn none_is(s: Seq<u8>, lo: int, hi: int, a: u8, b: u8) -> bool {
    forall|k: int| lo <= k < hi ==> s[k] != a && s[k] != b
}

/// `first_of` stops at the first of the two bytes and nowhere earlier.
pub proof fn lemma_first_of(s: Seq<u8>, i: int, a: u8, b: u8)
    requires
        0 <= i <= s.len(),
    ensures
        i <= first_of(s, i, a, b) <= s.len(),
        none_is(s, i, first_of(s, i, a, b), a, b),
        first_of(s, i, a, b) < s.len() ==> s[first_of(s, i, a, b)] == a || s[first_of(s, i, a, b)]
            == b,
    decreases s.len() - i,
{
    if i < s.len() && !(s[i] == a || s[i] == b) {
        lemma_first_of(s, i + 1, a, b);
    }
}

/// An index that no stop byte precedes, and that holds one or is the end, is
/// where `first_of` stops.
pub proof fn lemma_first_of_is(s: Seq<u8>, i: int, j: int, a: u8, b: u8)
    requires
        0 <= i <= j <= s.len(),
        none_is(s, i, j, a, b),
        j == s.len() || s[j] == a || s[j] == b,
    ensures
        first_of(s, i, a, b) == j,
    decreases j - i,
{
    if i < j {
        lemma_first_of_is(s, i + 1, j, a, b);
    }
}

/// `run_end` stops just after the run and nowhere earlier.
pub proof fn lemma_run_end(s: Seq<u8>, i: int, b: u8)
    requires
        0 <= i <= s.len(),
    ensures
        i <= run_end(s, i, b) <= s.len(),
        all_are(s, i, run_end(s, i, b), b),
        run_end(s, i, b) < s.len() ==> s[run_end(s, i, b)] != b,
    decreases s.len() - i,
{
    if i < s.len() && s[i] == b {
        lemma_run_end(s, i + 1, b);
    }
}

/// A stretch of bytes equal to `b` that starts at `i` ends no later than the
/// run does.
pub proof fn lemma_run_end_covers(s: Seq<u8>, i: int, j: int, b: u8)
    requires
        0 <= i <= j <= s.len(),
        all_are(s, i, j, b),
    ensures
        j <= run_end(s, i, b),
    decreases j - i,
{
    if i < j {
        assert(s[i] == b);
        lemma_run_end_covers(s, i + 1, j, b);
    } else {
        lemma_run_end(s, i, b);
    }
}

/// `last_of` gives an index that holds `b`, after which none does, or `lo - 1`
/// where none in the range does.
pub proof fn lemma_last_of(s: Seq<u8>, lo: int, hi: int, b: u8)
    requires
        0 <= lo <= hi <= s.len(),
    ensures
        lo - 1 <= last_of(s, lo, hi, b) < hi,
        last_of(s, lo, hi, b) >= lo ==> s[last_of(s, lo, hi, b)] == b,
        forall|k: int| last_of(s, lo, hi, b) < k < hi ==> s[k] != b,
    decreases hi - lo,
{
    if lo < hi && s[hi - 1] != b {
        lemma_last_of(s, lo, hi - 1, b);
    }
}

/// An index up to which every byte is `b`, and that holds another byte or is
/// the end, is where the run ends.
pub proof fn lemma_run_end_is(s: Seq<u8>, i: int, j: int, b: u8)
    requires
        0 <= i <= j <= s.len(),
        all_are(s, i, j, b),
        j == s.len() || s[j] != b,
    ensures
        run_end(s, i, b) == j,
{
    lemma_run_end_covers(s, i, j, b);
    lemma_run_end(s, i, b);
}

/// An index in `[lo - 1, hi)` that holds `b` or is `lo - 1`, and after which
/// no index below `hi` holds `b`, is where `last_of` stops.
pub proof fn lemma_last_of_is(s: Seq<u8>, lo: int, hi: int, r: int, b: u8)
    requires
        lo - 1 <= r < hi,
        r >= lo ==> s[r] == b,
        forall|k: int| r < k < hi ==> s[k] != b,
    ensures
        last_of(s, lo, hi, b) == r,
    decreases hi - lo,
{
    if lo < hi && r < hi - 1 {
        assert(s[hi - 1] != b);
        lemma_last_of_is(s, lo, hi - 1, r, b);
    }
}

/// A scan forward sees only what lies ahead: behind a prefix `p` it stops
/// where it stops without the prefix, moved by the prefix's length.
pub proof fn lemma_first_of_shift(p: Seq<u8>, s: Seq<u8>, i: int, a: u8, b: u8)
    requires
        0 <= i <= s.len(),
    ensures
        first_of(p + s, p.len() + i, a, b) == p.len() + first_of(s, i, a, b),
    decreases s.len() - i,
{
    if i < s.len() {
        assert((p + s)[p.len() + i] == s[i]);
        if !(s[i] == a || s[i] == b) {
            lemma_first_of_shift(p, s, i + 1, a, b);
        }
    }
}

/// A run behind a prefix `p` ends where it ends without the prefix, moved by
/// the prefix's length.
pub proof fn lemma_run_end_shift(p: Seq<u8>, s: Seq<u8>, i: int, b: u8)
    requires
        0 <= i <= s.len(),
    ensures
        run_end(p + s, p.len() + i, b) == p.len() + run_end(s, i, b),
    decreases s.len() - i,
{
    if i < s.len() {
        assert((p + s)[p.len() + i] == s[i]);
        if s[i] == b {
            lemma_run_end_shift(p, s, i + 1, b);
        }
    }
}

/// A scan backward within a range behind a prefix `p` stops where it stops
/// without the prefix, moved by the prefix's length.
pub proof fn lemma_last_of_shift(p: Seq<u8>, s: Seq<u8>, lo: int, hi: int, b: u8)
    requires
        0 <= lo,
        hi <= s.len(),
    ensures
        last_of(p + s, p.len() + lo, p.len() + hi, b) == p.len() + last_of(s, lo, hi, b),
    decreases hi - lo,
{
    if lo < hi {
        assert((p + s)[p.len() + hi - 1] == s[hi - 1]);
        if s[hi - 1] != b {
            lemma_last_of_shift(p, s, lo, hi - 1, b);
        }
    }
}

/// The first index at or after `start` that holds `a` or `b`; the length of
/// the input where none does.
pub fn find_first_of(input: &[u8], start: usize, a: u8, b: u8) -> (r: usize)
    requires
        start <= input.len(),
    ensures
        r == first_of(input@, start as int, a, b),
        start <= r <= input.len(),
{
    let mut j: usize = start;
    while j < input.len() && input[j] != a && input[j] != b
        invariant
            start <= j <= input.len(),
            first_of(input@, start as int, a, b) == first_of(input@, j as int, a, b),
        decreases input.len() - j,
    {
        j = j + 1;
    }
    j
}

/// The index just after the run of `b` that starts at `start`.
pub fn skip_run(input: &[u8], start: usize, b: u8) -> (r: usize)
    requires
        start <= input.len(),
    ensures
        r == run_end(input@, start as int, b),
        start <= r <= input.len(),
{
    let mut j: usize = start;
    while j < input.len() && input[j] == b
        invariant
            start <= j <= input.len(),
            run_end(input@, start as int, b) == run_end(input@, j as int, b),
        decreases input.len() - j,
    {
        j = j + 1;
    }
    j
}

/// The last index in `[lo, hi)` that holds `b`, if any does.
pub fn find_last(input: &[u8], lo: usize, hi: usize, b: u8) -> (r: Option<usize>)
    requires
        lo <= hi <= input.len(),
    ensures
        match r {
            Some(k) => k == last_of(input@, lo as int, hi as int, b) && lo <= k < hi,
            None => last_of(input@, lo as int, hi as int, b) == lo - 1,
        },
{
    let mut j: usize = hi;
    while j > lo
        invariant
            lo <= j <= hi <= input.len(),
            last_of(input@, lo as int, hi as int, b) == last_of(input@, lo as int, j as int, b),
        decreases j - lo,
    {
        if input[j - 1] == b {
            return Some(j - 1);
        }
        j = j - 1;
    }
    None
}

} // verus!
