//! Character-level utilities shared by the parsers: the whitespace
//! predicate, ASCII case folding, trimming, and comparisons on
//! character vectors.

use vstd::assert_by_contradiction;
use vstd::prelude::*;

verus! {

/// The Unicode `White_Space` code points, the set `char::is_whitespace`
/// recognises.
pub open spec fn is_space_char(c: char) -> bool {
    let u = c as u32;
    u == 0x20 || (0x09 <= u && u <= 0x0D) || u == 0x85 || u == 0xA0 || u == 0x1680 || (0x2000
        <= u && u <= 0x200A) || u == 0x2028 || u == 0x2029 || u == 0x202F || u == 0x205F || u
        == 0x3000
}

pub fn is_space(c: char) -> (r: bool)
    ensures
        r == is_space_char(c),
{
    let u = c as u32;
    u == 0x20 || (0x09 <= u && u <= 0x0D) || u == 0x85 || u == 0xA0 || u == 0x1680 || (0x2000
        <= u && u <= 0x200A) || u == 0x2028 || u == 0x2029 || u == 0x202F || u == 0x205F || u
        == 0x3000
}

/// ASCII case folding, as a code point: upper-case ASCII letters map to
/// their lower-case forms, every other character is unchanged.
pub open spec fn spec_lower(c: char) -> u32 {
    if 0x41 <= c as u32 && c as u32 <= 0x5A {
        (c as u32 + 0x20) as u32
    } else {
        c as u32
    }
}

pub fn lower(c: char) -> (r: u32)
    ensures
        r == spec_lower(c),
{
    let u = c as u32;
    if 0x41 <= u && u <= 0x5A {
        u + 0x20
    } else {
        u
    }
}

pub open spec fn spec_trim_start(s: Seq<char>) -> Seq<char>
    decreases s.len(),
{
    if s.len() > 0 && is_space_char(s[0]) {
        spec_trim_start(s.subrange(1, s.len() as int))
    } else {
        s
    }
}

pub open spec fn spec_trim_end(s: Seq<char>) -> Seq<char>
    decreases s.len(),
{
    if s.len() > 0 && is_space_char(s[s.len() - 1]) {
        spec_trim_end(s.subrange(0, s.len() - 1))
    } else {
        s
    }
}

/// The input with its leading and trailing whitespace removed.
pub open spec fn spec_trim(s: Seq<char>) -> Seq<char> {
    spec_trim_end(spec_trim_start(s))
}

proof fn lemma_trim_start_at(s: Seq<char>, lo: int)
    requires
        0 <= lo <= s.len(),
        forall|k: int| 0 <= k < lo ==> is_space_char(s[k]),
        lo == s.len() || !is_space_char(s[lo]),
    ensures
        spec_trim_start(s) =~= s.subrange(lo, s.len() as int),
    decreases lo,
{
    if lo == 0 {
        if s.len() > 0 && is_space_char(s[0]) {
            assert(false);
        }
    } else {
        let t = s.subrange(1, s.len() as int);
        lemma_trim_start_at(t, lo - 1);
    }
}

proof fn lemma_trim_end_at(s: Seq<char>, hi: int)
    requires
        0 <= hi <= s.len(),
        forall|k: int| hi <= k < s.len() ==> is_space_char(s[k]),
        hi == 0 || !is_space_char(s[hi - 1]),
    ensures
        spec_trim_end(s) =~= s.subrange(0, hi),
    decreases s.len(),
{
    if hi == s.len() {
        if s.len() > 0 && is_space_char(s[s.len() - 1]) {
            assert(false);
        }
    } else {
        let t = s.subrange(0, s.len() - 1);
        lemma_trim_end_at(t, hi);
    }
}

/// Trimming at chosen cut points: when everything before `lo` and from
/// `hi` on is whitespace and the endpoints are not, the trim is exactly
/// the slice between them.
pub proof fn lemma_trim_is_subrange(s: Seq<char>, lo: int, hi: int)
    requires
        0 <= lo <= hi <= s.len(),
        forall|k: int| 0 <= k < lo ==> is_space_char(s[k]),
        forall|k: int| hi <= k < s.len() ==> is_space_char(s[k]),
        lo < hi ==> !is_space_char(s[lo]) && !is_space_char(s[hi - 1]),
        lo == hi ==> lo == s.len(),
    ensures
        spec_trim(s) =~= s.subrange(lo, hi),
{
    if lo == hi {
        lemma_trim_start_at(s, lo);
        assert(spec_trim_start(s) =~= Seq::<char>::empty());
    } else {
        lemma_trim_start_at(s, lo);
        let t = s.subrange(lo, s.len() as int);
        lemma_trim_end_at(t, hi - lo);
    }
}

/// Trim a character vector, mirroring `str::trim`.
pub fn trim_vec(v: &Vec<char>) -> (r: Vec<char>)
    ensures
        r@ == spec_trim(v@),
{
    let n = v.len();
    let mut lo: usize = 0;
    while lo < n && is_space(v[lo])
        invariant
            lo <= n,
            n == v.len(),
            forall|k: int| 0 <= k < lo ==> is_space_char(v@[k]),
        decreases n - lo,
    {
        lo = lo + 1;
    }
    let mut hi: usize = n;
    while hi > lo && is_space(v[hi - 1])
        invariant
            lo <= hi <= n,
            n == v.len(),
            forall|k: int| hi <= k < n ==> is_space_char(v@[k]),
            lo < n ==> !is_space_char(v@[lo as int]),
        decreases hi,
    {
        hi = hi - 1;
    }
    let mut r: Vec<char> = Vec::new();
    let mut i = lo;
    while i < hi
        invariant
            lo <= i <= hi <= n,
            n == v.len(),
            r@ =~= v@.subrange(lo as int, i as int),
        decreases hi - i,
    {
        r.push(v[i]);
        i = i + 1;
    }
    proof {
        if lo == hi && lo < n {
            assert(!is_space_char(v@[lo as int]));
            assert(is_space_char(v@[lo as int]));
        }
        lemma_trim_is_subrange(v@, lo as int, hi as int);
    }
    r
}

/// Exact equality of two character vectors.
pub fn chars_eq(a: &Vec<char>, b: &Vec<char>) -> (r: bool)
    ensures
        r == (a@ == b@),
{
    if a.len() != b.len() {
        proof {
            assert(a@.len() != b@.len());
        }
        return false;
    }
    let n = a.len();
    let mut i: usize = 0;
    while i < n
        invariant
            i <= n,
            n == a.len() == b.len(),
            forall|k: int| 0 <= k < i ==> a@[k] == b@[k],
        decreases n - i,
    {
        if a[i] != b[i] {
            return false;
        }
        i = i + 1;
    }
    proof {
        assert(a@ =~= b@);
    }
    true
}

/// Whether `p` occurs in `s` starting at position `i`.
pub open spec fn spec_has_at(s: Seq<char>, i: int, p: Seq<char>) -> bool {
    0 <= i && i + p.len() <= s.len() && s.subrange(i, i + p.len() as int) =~= p
}

pub fn has_at(v: &Vec<char>, i: usize, p: &Vec<char>) -> (r: bool)
    ensures
        r == spec_has_at(v@, i as int, p@),
{
    if p.len() > v.len() || i > v.len() - p.len() {
        proof {
            assert(!(i + p@.len() <= v@.len()));
        }
        return false;
    }
    let n = p.len();
    let mut k: usize = 0;
    while k < n
        invariant
            k <= n,
            n == p.len(),
            i + n <= v.len(),
            forall|j: int| 0 <= j < k ==> v@[i + j] == p@[j],
        decreases n - k,
    {
        if v[i + k] != p[k] {
            proof {
                assert(v@.subrange(i as int, i + n) [ k as int ] != p@[k as int]);
            }
            return false;
        }
        k = k + 1;
    }
    proof {
        assert(v@.subrange(i as int, i + n) =~= p@);
    }
    true
}

/// Whether `p` occurs, up to ASCII case, in `s` starting at position `i`.
pub open spec fn spec_has_at_ci(s: Seq<char>, i: int, p: Seq<char>) -> bool {
    0 <= i && i + p.len() <= s.len() && forall|j: int|
        0 <= j < p.len() ==> spec_lower(s[i + j]) == spec_lower(p[j])
}

pub fn has_at_ci(v: &Vec<char>, i: usize, p: &Vec<char>) -> (r: bool)
    ensures
        r == spec_has_at_ci(v@, i as int, p@),
{
    if p.len() > v.len() || i > v.len() - p.len() {
        proof {
            assert(!(i + p@.len() <= v@.len()));
        }
        return false;
    }
    let n = p.len();
    let mut k: usize = 0;
    while k < n
        invariant
            k <= n,
            n == p.len(),
            i + n <= v.len(),
            forall|j: int| 0 <= j < k ==> spec_lower(v@[i + j]) == spec_lower(p@[j]),
        decreases n - k,
    {
        if lower(v[i + k]) != lower(p[k]) {
            return false;
        }
        k = k + 1;
    }
    true
}

/// Whether `p` occurs anywhere in `s`.
pub open spec fn spec_contains_sub(s: Seq<char>, p: Seq<char>) -> bool {
    exists|j: int| spec_has_at(s, j, p)
}

pub fn contains_sub(v: &Vec<char>, p: &Vec<char>) -> (r: bool)
    ensures
        r == spec_contains_sub(v@, p@),
{
    let n = v.len();
    let m = p.len();
    if m > n {
        proof {
            assert forall|j: int| !spec_has_at(v@, j, p@) by {}
        }
        return false;
    }
    let mut j: usize = 0;
    while j <= n - m
        invariant
            m <= n,
            n == v@.len(),
            m == p@.len(),
            j <= n - m + 1,
            forall|jj: int| 0 <= jj < j ==> !spec_has_at(v@, jj, p@),
        decreases n - m + 1 - j,
    {
        if has_at(v, j, p) {
            proof {
                assert(spec_has_at(v@, j as int, p@));
            }
            return true;
        }
        j = j + 1;
    }
    proof {
        assert_by_contradiction!(!spec_contains_sub(v@, p@), {
            let jj = choose|jj: int| spec_has_at(v@, jj, p@);
            assert(jj + p@.len() <= v@.len());
            assert(jj < j);
        });
    }
    false
}

/// Whether `s` ends with `p`.
pub open spec fn spec_ends_with(s: Seq<char>, p: Seq<char>) -> bool {
    s.len() >= p.len() && spec_has_at(s, s.len() - p.len(), p)
}

pub fn ends_with(v: &Vec<char>, p: &Vec<char>) -> (r: bool)
    ensures
        r == spec_ends_with(v@, p@),
{
    if p.len() > v.len() {
        return false;
    }
    has_at(v, v.len() - p.len(), p)
}

/// Case-insensitive (ASCII) equality of two character sequences.
pub open spec fn spec_eq_ci(a: Seq<char>, b: Seq<char>) -> bool {
    a.len() == b.len() && forall|j: int| 0 <= j < a.len() ==> spec_lower(a[j]) == spec_lower(b[j])
}

pub fn chars_eq_ci(a: &Vec<char>, b: &Vec<char>) -> (r: bool)
    ensures
        r == spec_eq_ci(a@, b@),
{
    if a.len() != b.len() {
        return false;
    }
    let n = a.len();
    let mut i: usize = 0;
    while i < n
        invariant
            i <= n,
            n == a.len() == b.len(),
            forall|k: int| 0 <= k < i ==> spec_lower(a@[k]) == spec_lower(b@[k]),
        decreases n - i,
    {
        if lower(a[i]) != lower(b[i]) {
            return false;
        }
        i = i + 1;
    }
    true
}

} // verus!
