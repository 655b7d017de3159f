//! Integer helpers and board geometry shared by the evaluation.
use vstd::prelude::*;

verus! {

pub open spec fn min(a: int, b: int) -> int {
    if a <= b {
        a
    } else {
        b
    }
}

pub open spec fn max(a: int, b: int) -> int {
    if a >= b {
        a
    } else {
        b
    }
}

pub open spec fn abs(a: int) -> int {
    if a >= 0 {
        a
    } else {
        -a
    }
}

pub open spec fn clamp(a: int, lo: int, hi: int) -> int {
    max(min(a, hi), lo)
}

/// Division rounding toward zero, as Rust's `/` on signed integers.
pub open spec fn tdiv(a: int, b: int) -> int {
    if a >= 0 {
        a / b
    } else {
        -((-a) / b)
    }
}

pub fn imin(a: i32, b: i32) -> (r: i32)
    ensures
        r == min(a as int, b as int),
{
    if a <= b {
        a
    } else {
        b
    }
}

pub fn imax(a: i32, b: i32) -> (r: i32)
    ensures
        r == max(a as int, b as int),
{
    if a >= b {
        a
    } else {
        b
    }
}

pub fn iabs(a: i32) -> (r: i32)
    requires
        a > i32::MIN,
    ensures
        r == abs(a as int),
{
    if a >= 0 {
        a
    } else {
        -a
    }
}

/// `i32::clamp`; requires `lo <= hi` as that method does.
pub fn iclamp(a: i32, lo: i32, hi: i32) -> (r: i32)
    requires
        lo <= hi,
    ensures
        r == clamp(a as int, lo as int, hi as int),
{
    imax(imin(a, hi), lo)
}

/// Arithmetic shift right by 8 is division by 256 rounding down.
pub proof fn lemma_shr8(x: i32)
    ensures
        (x >> 8u32) as int == (x as int) / 256,
{
    assert((x >> 8u32) as int == (x as int) / 256) by (bit_vector);
}

/// Arithmetic shift right by 16 is division by 65536 rounding down.
pub proof fn lemma_shr16(x: i32)
    ensures
        (x >> 16u32) as int == (x as int) / 65536,
{
    assert((x >> 16u32) as int == (x as int) / 65536) by (bit_vector);
}

/// Arithmetic shift right by 1 is halving rounding down.
pub proof fn lemma_shr1(x: i32)
    ensures
        (x >> 1u32) as int == (x as int) / 2,
{
    assert((x >> 1u32) as int == (x as int) / 2) by (bit_vector);
}

pub open spec fn rank(s: int) -> int {
    s / 8
}

pub open spec fn file(s: int) -> int {
    s % 8
}

/// King-move distance between two squares.
pub open spec fn cheb(a: int, b: int) -> int {
    max(abs(rank(a) - rank(b)), abs(file(a) - file(b)))
}

/// Distance of a square from the nearest edge of the board.
pub open spec fn edge_distance(s: int) -> int {
    min(min(min(rank(s), 7 - rank(s)), file(s)), 7 - file(s))
}

/// King-move distance between two squares.
pub fn chebyshev(a: u8, b: u8) -> (r: i32)
    requires
        a < 64,
        b < 64,
    ensures
        r == cheb(a as int, b as int),
        0 <= r <= 7,
{
    let dr = iabs((a / 8) as i32 - (b / 8) as i32);
    let df = iabs((a % 8) as i32 - (b % 8) as i32);
    imax(dr, df)
}

/// Distance of a square from the nearest edge of the board.
pub fn edge_dist(s: u8) -> (r: i32)
    requires
        s < 64,
    ensures
        r == edge_distance(s as int),
        0 <= r <= 3,
{
    let r = (s / 8) as i32;
    let f = (s % 8) as i32;
    imin(imin(imin(r, 7 - r), f), 7 - f)
}

/// A quotient of a number within `k` times the divisor is within `k`.
pub proof fn lemma_tdiv_bound(x: int, y: int, k: int)
    requires
        y > 0,
        k >= 0,
        -(k * y) <= x <= k * y,
    ensures
        -k <= tdiv(x, y) <= k,
        x >= 0 ==> tdiv(x, y) >= 0,
        x <= 0 ==> tdiv(x, y) <= 0,
{
    if x >= 0 {
        assert(x / y <= k) by (nonlinear_arith)
            requires
                y > 0,
                0 <= x <= k * y,
        ;
        assert(x / y >= 0) by (nonlinear_arith)
            requires
                y > 0,
                0 <= x,
        ;
    } else {
        assert((-x) / y <= k) by (nonlinear_arith)
            requires
                y > 0,
                0 <= -x <= k * y,
        ;
        assert((-x) / y >= 0) by (nonlinear_arith)
            requires
                y > 0,
                0 <= -x,
        ;
    }
}

} // verus!
