//! Little-endian integers and backward pattern search over byte sequences.
use vstd::prelude::*;

verus! {

/// Value of the little-endian unsigned integer whose bytes are `s`.
pub open spec fn le_value(s: Seq<u8>) -> nat
    decreases s.len(),
{
    if s.len() == 0 {
        0
    } else {
        s[0] as nat + 256 * le_value(s.drop_first())
    }
}

/// Value of the `width`-byte little-endian integer at offset `at` of `s`.
pub open spec fn le_at(s: Seq<u8>, at: int, width: int) -> nat {
    le_value(s.subrange(at, at + width))
}

/// The `k` low-order bytes of `n`, least significant first.
pub open spec fn le_bytes(n: nat, k: nat) -> Seq<u8>
    decreases k,
{
    if k == 0 {
        Seq::empty()
    } else {
        seq![(n % 256) as u8] + le_bytes(n / 256, (k - 1) as nat)
    }
}

/// 256 to the power `k`.
pub open spec fn pow256(k: nat) -> nat
    decreases k,
{
    if k == 0 {
        1
    } else {
        256 * pow256((k - 1) as nat)
    }
}

/// `pat` occurs in `s` at offset `p`.
pub open spec fn matches_at(s: Seq<u8>, pat: Seq<u8>, p: int) -> bool {
    &&& 0 <= p
    &&& p + pat.len() <= s.len()
    &&& forall|k: int| 0 <= k < pat.len() ==> #[trigger] s[p + k] == pat[k]
}

/// `pat` occurs in `s` at some offset where it ends no later than `hi`.
pub open spec fn has_match_before(s: Seq<u8>, pat: Seq<u8>, hi: int) -> bool {
    exists|p: int| p + pat.len() <= hi && #[trigger] matches_at(s, pat, p)
}

pub proof fn lemma_le_value_bound(s: Seq<u8>)
    ensures
        le_value(s) < pow256(s.len()),
    decreases s.len(),
{
    if s.len() > 0 {
        lemma_le_value_bound(s.drop_first());
    }
}

/// Reading back the bytes written by `le_bytes` gives the number, when it fits.
pub proof fn lemma_le_bytes_round_trip(n: nat, k: nat)
    requires
        n < pow256(k),
    ensures
        le_bytes(n, k).len() == k,
        le_value(le_bytes(n, k)) == n,
    decreases k,
{
    if k > 0 {
        lemma_le_bytes_round_trip(n / 256, (k - 1) as nat);
        assert(le_bytes(n, k).drop_first() =~= le_bytes(n / 256, (k - 1) as nat));
    }
}

/// Reads the `width`-byte little-endian integer at offset `at`.
pub fn read_le(s: &[u8], at: usize, width: usize) -> (r: u64)
    requires
        width <= 8,
        at + width <= s@.len(),
    ensures
        r == le_at(s@, at as int, width as int),
{
    let len = s.len();
    let mut v: u64 = 0;
    let mut k: usize = width;
    proof {
        reveal_with_fuel(pow256, 9);
    }
    while k > 0
        invariant
            width <= 8,
            at + width <= s@.len(),
            s@.len() == len,
            k <= width,
            v == le_at(s@, (at + k) as int, (width - k) as int),
            v < pow256((width - k) as nat),
            pow256((width - k) as nat) <= pow256(8),
        decreases k,
    {
        let ghost old_tail = s@.subrange((at + k) as int, (at + width) as int);
        proof {
            lemma_pow256_monotone((width - k) as nat, 7);
            reveal_with_fuel(pow256, 8);
            assert(pow256(7) == 72057594037927936);
        }
        k = k - 1;
        let ghost tail = s@.subrange((at + k) as int, (at + width) as int);
        assert(tail.drop_first() =~= old_tail);
        proof {
            lemma_pow256_monotone((width - k) as nat, 8);
        }
        assert(at + k < s@.len());
        v = v * 256 + s[at + k] as u64;
    }
    v
}

pub proof fn lemma_pow256_monotone(a: nat, b: nat)
    requires
        a <= b,
    ensures
        pow256(a) <= pow256(b),
    decreases b,
{
    if a < b {
        lemma_pow256_monotone(a, (b - 1) as nat);
    }
}

/// Tells whether `pat` occurs in `s` at offset `p`.
pub fn matches_here(s: &[u8], pat: &[u8], p: usize) -> (r: bool)
    ensures
        r == matches_at(s@, pat@, p as int),
{
    let n = s.len();
    let m = pat.len();
    if p > n || n - p < m {
        return false;
    }
    let mut k: usize = 0;
    while k < m
        invariant
            s@.len() == n,
            pat@.len() == m,
            p + m <= n,
            k <= m,
            forall|j: int| 0 <= j < k ==> #[trigger] s@[p + j] == pat@[j],
        decreases m - k,
    {
        if s[p + k] != pat[k] {
            return false;
        }
        k = k + 1;
    }
    true
}

/// The least offset `p` with `lo <= p` and `p + pat.len() <= hi` at which `pat`
/// occurs in `s`, if any.
pub open spec fn first_match_from(s: Seq<u8>, pat: Seq<u8>, lo: int, hi: int) -> Option<int>
    decreases hi - lo,
{
    if lo >= hi || lo + pat.len() > hi {
        None
    } else if matches_at(s, pat, lo) {
        Some(lo)
    } else {
        first_match_from(s, pat, lo + 1, hi)
    }
}

/// The result of scanning `s` backward from `end` one window of `window` bytes at a
/// time, consecutive windows overlapping by `pat.len() - 1` bytes: the least offset
/// of `pat` in the first window, counting from the end, that holds it whole.
pub open spec fn windowed_search(s: Seq<u8>, pat: Seq<u8>, end: int, window: int) -> Option<int>
    decreases end,
{
    let start = if end > window {
        end - window
    } else {
        0
    };
    match first_match_from(s, pat, start, end) {
        Some(p) => Some(p),
        None => if start <= 0 || pat.len() == 0 || pat.len() >= window {
            None
        } else {
            windowed_search(s, pat, start + pat.len() - 1, window)
        },
    }
}

/// What `first_match_from` finds is an occurrence within the range.
pub proof fn lemma_first_match_sound(s: Seq<u8>, pat: Seq<u8>, lo: int, hi: int)
    ensures
        first_match_from(s, pat, lo, hi) matches Some(p) ==> lo <= p && p + pat.len() <= hi
            && matches_at(s, pat, p),
    decreases hi - lo,
{
    if lo < hi && lo + pat.len() <= hi && !matches_at(s, pat, lo) {
        lemma_first_match_sound(s, pat, lo + 1, hi);
    }
}

/// An occurrence within the range is never missed.
pub proof fn lemma_first_match_complete(s: Seq<u8>, pat: Seq<u8>, lo: int, hi: int, p: int)
    requires
        0 < pat.len(),
        lo <= p,
        p + pat.len() <= hi,
        matches_at(s, pat, p),
    ensures
        first_match_from(s, pat, lo, hi) is Some,
    decreases hi - lo,
{
    if lo < p && !matches_at(s, pat, lo) {
        lemma_first_match_complete(s, pat, lo + 1, hi, p);
    }
}

/// What the windowed scan finds is an occurrence that ends no later than `end`.
pub proof fn lemma_windowed_search_sound(s: Seq<u8>, pat: Seq<u8>, end: int, window: int)
    ensures
        windowed_search(s, pat, end, window) matches Some(p) ==> p + pat.len() <= end
            && matches_at(s, pat, p),
    decreases end,
{
    let start = if end > window {
        end - window
    } else {
        0
    };
    lemma_first_match_sound(s, pat, start, end);
    if first_match_from(s, pat, start, end) is None && !(start <= 0 || pat.len() == 0
        || pat.len() >= window) {
        lemma_windowed_search_sound(s, pat, start + pat.len() - 1, window);
    }
}

/// Wherever an occurrence lies, across window boundaries too, the windowed scan finds
/// one.
pub proof fn lemma_windowed_search_complete(
    s: Seq<u8>,
    pat: Seq<u8>,
    end: int,
    window: int,
    p: int,
)
    requires
        0 < pat.len() < window,
        p + pat.len() <= end,
        matches_at(s, pat, p),
    ensures
        windowed_search(s, pat, end, window) is Some,
    decreases end,
{
    let start = if end > window {
        end - window
    } else {
        0
    };
    if start <= p {
        lemma_first_match_complete(s, pat, start, end, p);
    } else {
        lemma_windowed_search_complete(s, pat, start + pat.len() - 1, window, p);
    }
}

/// The least offset `p` with `lo <= p` and `p + pat.len() <= hi` at which `pat`
/// occurs in `s`, if any.
pub fn first_match_in(s: &[u8], pat: &[u8], lo: usize, hi: usize) -> (r: Option<usize>)
    requires
        lo <= hi <= s@.len(),
        pat@.len() > 0,
    ensures
        match r {
            Some(p) => first_match_from(s@, pat@, lo as int, hi as int) == Some(p as int),
            None => first_match_from(s@, pat@, lo as int, hi as int) is None,
        },
{
    let m = pat.len();
    let mut p: usize = lo;
    while p <= hi && hi - p >= m
        invariant
            lo <= p <= hi,
            hi <= s@.len(),
            pat@.len() == m,
            m > 0,
            first_match_from(s@, pat@, lo as int, hi as int) == first_match_from(
                s@,
                pat@,
                p as int,
                hi as int,
            ),
        decreases hi - p,
    {
        if matches_here(s, pat, p) {
            return Some(p);
        }
        p = p + 1;
    }
    None
}

/// Scans `s` backward from `hi` for `pat`, one window of `window` bytes at a time.
/// Consecutive windows overlap by `pat.len() - 1` bytes, so an occurrence that
/// straddles the boundary between two windows lies whole in the later one.
pub fn search_windows(s: &[u8], pat: &[u8], hi: usize, window: usize) -> (r: Option<usize>)
    requires
        hi <= s@.len(),
        0 < pat@.len() < window,
    ensures
        match r {
            Some(p) => {
                &&& windowed_search(s@, pat@, hi as int, window as int) == Some(p as int)
                &&& p + pat@.len() <= hi
            },
            None => windowed_search(s@, pat@, hi as int, window as int) is None,
        },
{
    let m = pat.len();
    let mut end: usize = hi;
    proof {
        lemma_windowed_search_sound(s@, pat@, hi as int, window as int);
    }
    loop
        invariant
            end <= hi <= s@.len(),
            pat@.len() == m,
            0 < m < window,
            windowed_search(s@, pat@, hi as int, window as int) == windowed_search(
                s@,
                pat@,
                end as int,
                window as int,
            ),
            windowed_search(s@, pat@, hi as int, window as int) matches Some(p) ==> p + m <= hi,
        decreases end,
    {
        let start: usize = if end > window {
            end - window
        } else {
            0
        };
        match first_match_in(s, pat, start, end) {
            Some(p) => {
                return Some(p);
            },
            None => {},
        }
        if start == 0 {
            return None;
        }
        end = start + m - 1;
    }
}

/// A copy of the bytes of `s` from `lo` up to `hi`.
pub fn copy_range(s: &[u8], lo: usize, hi: usize) -> (r: Vec<u8>)
    requires
        lo <= hi <= s@.len(),
    ensures
        r@ == s@.subrange(lo as int, hi as int),
{
    vstd::slice::slice_to_vec(vstd::slice::slice_subrange(s, lo, hi))
}

} // verus!
