//! Bitboards: 64-bit sets of squares, square 0 = a1, square 63 = h8.
use vstd::prelude::*;

verus! {

/// Whether square `s` is a member of bitboard `bb`.
pub open spec fn bit(bb: u64, s: u8) -> bool {
    (bb >> s) & 1u64 == 1u64
}

/// Number of members of `bb` among the squares below `n`.
pub open spec fn count_below(bb: u64, n: int) -> nat
    decreases n,
{
    if n <= 0 {
        0
    } else {
        count_below(bb, n - 1) + if bit(bb, (n - 1) as u8) {
            1nat
        } else {
            0nat
        }
    }
}

/// Number of squares in `bb`.
pub open spec fn popcount(bb: u64) -> nat {
    count_below(bb, 64)
}

/// Sum of `f` over the members of `bb` below square `n`.
pub open spec fn sum_below(bb: u64, f: spec_fn(u8) -> int, n: int) -> int
    decreases n,
{
    if n <= 0 {
        0
    } else {
        sum_below(bb, f, n - 1) + if bit(bb, (n - 1) as u8) {
            f((n - 1) as u8)
        } else {
            0
        }
    }
}

/// Sum of `f` over the members of `bb`.
pub open spec fn sum_squares(bb: u64, f: spec_fn(u8) -> int) -> int {
    sum_below(bb, f, 64)
}

/// The lowest member of `bb` at or above square `i`, or 64 if none.
pub open spec fn lowest_from(bb: u64, i: int) -> int
    decreases 64 - i,
{
    if i >= 64 || i < 0 {
        64
    } else if bit(bb, i as u8) {
        i
    } else {
        lowest_from(bb, i + 1)
    }
}

/// The lowest member of `bb`, or 64 for the empty set.
pub open spec fn lowest(bb: u64) -> int {
    lowest_from(bb, 0)
}

pub proof fn lemma_bit_and(a: u64, b: u64, s: u8)
    requires
        s < 64,
    ensures
        bit(a & b, s) == (bit(a, s) && bit(b, s)),
{
    assert(((a & b) >> s) & 1u64 == 1u64 <==> ((a >> s) & 1u64 == 1u64 && (b >> s) & 1u64 == 1u64))
        by (bit_vector)
        requires
            s < 64,
    ;
}

pub proof fn lemma_bit_or(a: u64, b: u64, s: u8)
    requires
        s < 64,
    ensures
        bit(a | b, s) == (bit(a, s) || bit(b, s)),
{
    assert(((a | b) >> s) & 1u64 == 1u64 <==> ((a >> s) & 1u64 == 1u64 || (b >> s) & 1u64 == 1u64))
        by (bit_vector)
        requires
            s < 64,
    ;
}

pub proof fn lemma_bit_single(s: u8, t: u8)
    requires
        s < 64,
        t < 64,
    ensures
        bit(1u64 << s, t) == (s == t),
{
    assert((((1u64 << s) >> t) & 1u64 == 1u64) <==> s == t) by (bit_vector)
        requires
            s < 64,
            t < 64,
    ;
}

pub proof fn lemma_count_below_bounds(bb: u64, n: int)
    requires
        0 <= n,
    ensures
        count_below(bb, n) <= n,
    decreases n,
{
    if n > 0 {
        lemma_count_below_bounds(bb, n - 1);
    }
}

/// A sum whose terms lie in `[lo, hi]` lies in `[n * lo, n * hi]`.
pub proof fn lemma_sum_below_bounds(bb: u64, f: spec_fn(u8) -> int, n: int, lo: int, hi: int)
    requires
        0 <= n <= 64,
        lo <= 0 <= hi,
        forall|s: u8| s < 64 ==> lo <= #[trigger] f(s) <= hi,
    ensures
        n * lo <= sum_below(bb, f, n) <= n * hi,
    decreases n,
{
    if n > 0 {
        lemma_sum_below_bounds(bb, f, n - 1, lo, hi);
        assert((n - 1) * lo + lo == n * lo) by (nonlinear_arith);
        assert((n - 1) * hi + hi == n * hi) by (nonlinear_arith);
        assert(lo <= f((n - 1) as u8) <= hi);
    } else {
        assert(n * lo == 0 && n * hi == 0) by (nonlinear_arith)
            requires
                n == 0,
        ;
    }
}

/// Whether some member of `bb` below square `n` satisfies `pred`.
pub open spec fn any_below(bb: u64, pred: spec_fn(u8) -> bool, n: int) -> bool
    decreases n,
{
    if n <= 0 {
        false
    } else {
        any_below(bb, pred, n - 1) || (bit(bb, (n - 1) as u8) && pred((n - 1) as u8))
    }
}

/// Whether some member of `bb` satisfies `pred`.
pub open spec fn any_square(bb: u64, pred: spec_fn(u8) -> bool) -> bool {
    any_below(bb, pred, 64)
}

/// Union of `g` over the members of `bb` below square `n`.
pub open spec fn or_below(bb: u64, g: spec_fn(u8) -> u64, n: int) -> u64
    decreases n,
{
    if n <= 0 {
        0
    } else {
        or_below(bb, g, n - 1) | if bit(bb, (n - 1) as u8) {
            g((n - 1) as u8)
        } else {
            0u64
        }
    }
}

/// Union of `g` over the members of `bb`.
pub open spec fn or_squares(bb: u64, g: spec_fn(u8) -> u64) -> u64 {
    or_below(bb, g, 64)
}

/// Squares of file `f`.
pub open spec fn file_mask(f: int) -> u64 {
    0x0101_0101_0101_0101u64 << (f as u64)
}

/// An intersection has no more members than either side.
pub proof fn lemma_count_and_le(a: u64, b: u64, n: int)
    requires
        0 <= n <= 64,
    ensures
        count_below(a & b, n) <= count_below(b, n),
        count_below(a & b, n) <= count_below(a, n),
    decreases n,
{
    if n > 0 {
        lemma_count_and_le(a, b, n - 1);
        lemma_bit_and(a, b, (n - 1) as u8);
    }
}

/// Adding one square adds at most one member.
pub proof fn lemma_count_or_single(a: u64, s: u8, n: int)
    requires
        0 <= n <= 64,
        s < 64,
    ensures
        count_below(a | (1u64 << s), n) <= count_below(a, n) + 1,
    decreases n,
{
    if n > 0 {
        lemma_count_or_single(a, s, n - 1);
        lemma_bit_or(a, 1u64 << s, (n - 1) as u8);
        lemma_bit_single(s, (n - 1) as u8);
        if (n - 1) as u8 == s {
            assert(count_below(a | (1u64 << s), n - 1) <= count_below(a, n - 1)) by {
                lemma_count_or_single_below(a, s, n - 1);
            }
        }
    }
}

proof fn lemma_count_or_single_below(a: u64, s: u8, n: int)
    requires
        0 <= n <= s as int,
        s < 64,
    ensures
        count_below(a | (1u64 << s), n) == count_below(a, n),
    decreases n,
{
    if n > 0 {
        lemma_count_or_single_below(a, s, n - 1);
        lemma_bit_or(a, 1u64 << s, (n - 1) as u8);
        lemma_bit_single(s, (n - 1) as u8);
    }
}

/// Whether square `s` is in `bb`.
pub fn has(bb: u64, s: u8) -> (r: bool)
    requires
        s < 64,
    ensures
        r == bit(bb, s),
{
    (bb >> s) & 1u64 == 1u64
}

/// The one-square bitboard of `s`.
pub fn square_bb(s: u8) -> (r: u64)
    requires
        s < 64,
    ensures
        r == 1u64 << s,
        forall|t: u8| t < 64 ==> (bit(r, t) <==> t == s),
{
    proof {
        assert forall|t: u8| t < 64 implies (bit(1u64 << s, t) <==> t == s) by {
            lemma_bit_single(s, t);
        }
    }
    1u64 << s
}

/// Number of squares in `bb`.
pub fn count(bb: u64) -> (r: u32)
    ensures
        r == popcount(bb),
        r <= 64,
{
    let mut c: u32 = 0;
    let mut s: u8 = 0;
    while s < 64
        invariant
            s <= 64,
            c == count_below(bb, s as int),
            c <= s,
        decreases 64 - s,
    {
        if has(bb, s) {
            c = c + 1;
        }
        s = s + 1;
    }
    c
}

pub proof fn lemma_lowest_from_bounds(bb: u64, i: int)
    requires
        0 <= i <= 64,
    ensures
        i <= lowest_from(bb, i) <= 64,
        lowest_from(bb, i) < 64 ==> bit(bb, lowest_from(bb, i) as u8),
    decreases 64 - i,
{
    if i < 64 && !bit(bb, i as u8) {
        lemma_lowest_from_bounds(bb, i + 1);
    }
}

/// The lowest member of `bb`, or 64 for the empty set.
pub fn first_square(bb: u64) -> (r: u8)
    ensures
        r == lowest(bb),
        r <= 64,
        r < 64 ==> bit(bb, r),
{
    proof {
        lemma_lowest_from_bounds(bb, 0);
    }
    let mut s: u8 = 0;
    while s < 64
        invariant
            s <= 64,
            lowest_from(bb, s as int) == lowest(bb),
        decreases 64 - s,
    {
        if has(bb, s) {
            return s;
        }
        s = s + 1;
    }
    64
}

} // verus!
