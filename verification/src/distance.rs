//! Distances on the grid, in whole thousandths of a tile.

use vstd::prelude::*;

verus! {

/// Distances are counted in units of which this many make one tile.
pub const UNITS_PER_TILE: u64 = 1000;

/// The integer square root: the largest `r` with `r * r <= n`.
pub open spec fn floor_sqrt(n: nat) -> nat
    decreases n,
{
    if n == 0 {
        0
    } else {
        let r = floor_sqrt((n - 1) as nat);
        if (r + 1) * (r + 1) <= n {
            r + 1
        } else {
            r
        }
    }
}

/// The distance between two cells that are `dx` columns and `dy` rows
/// apart, in units, rounded down.
pub open spec fn spec_distance(dx: int, dy: int) -> nat {
    floor_sqrt(((dx * dx + dy * dy) * 1_000_000) as nat)
}

/// `floor_sqrt(n)` squared is at most `n`, and the next number squared is more.
pub proof fn lemma_floor_sqrt_bounds(n: nat)
    ensures
        floor_sqrt(n) * floor_sqrt(n) <= n < (floor_sqrt(n) + 1) * (floor_sqrt(n) + 1),
    decreases n,
{
    let s = floor_sqrt(n) as int;
    if n > 0 {
        lemma_floor_sqrt_bounds((n - 1) as nat);
        let r = floor_sqrt((n - 1) as nat) as int;
        assert(r * r <= n - 1 < (r + 1) * (r + 1));
        if (r + 1) * (r + 1) <= n {
            assert(s == r + 1);
            assert((s + 1) * (s + 1) > s * s) by (nonlinear_arith)
                requires
                    s >= 0,
            ;
        } else {
            assert(s == r);
        }
        assert(s * s <= n < (s + 1) * (s + 1));
    } else {
        assert(s == 0);
        assert(s * s <= n < (s + 1) * (s + 1));
    }
}

/// Only one number lies at or below the square root of `n` with its
/// successor above it.
pub proof fn lemma_floor_sqrt_unique(n: nat, r: nat)
    requires
        r * r <= n < (r + 1) * (r + 1),
    ensures
        r == floor_sqrt(n),
{
    lemma_floor_sqrt_bounds(n);
    let s = floor_sqrt(n);
    if r < s {
        assert((r + 1) * (r + 1) <= s * s) by (nonlinear_arith)
            requires
                r + 1 <= s,
        ;
    } else if s < r {
        assert((s + 1) * (s + 1) <= r * r) by (nonlinear_arith)
            requires
                s + 1 <= r,
        ;
    }
}

/// The integer square root of `n` is below `m` exactly when `n` is below
/// the square of `m`.
pub proof fn lemma_floor_sqrt_lt(n: nat, m: nat)
    ensures
        floor_sqrt(n) < m <==> n < m * m,
{
    lemma_floor_sqrt_bounds(n);
    let r = floor_sqrt(n);
    if r < m {
        assert((r + 1) * (r + 1) <= m * m) by (nonlinear_arith)
            requires
                r + 1 <= m,
        ;
    } else {
        assert(m * m <= r * r) by (nonlinear_arith)
            requires
                m <= r,
        ;
    }
}

/// A cell is nearer than a whole number `tiles` of tiles exactly when the
/// sum of the squares of its offsets is below the square of `tiles`: the
/// rounding of the distance does not change the comparison.
pub proof fn lemma_distance_lt_tiles(dx: int, dy: int, tiles: nat)
    ensures
        spec_distance(dx, dy) < tiles * UNITS_PER_TILE <==> dx * dx + dy * dy < tiles * tiles,
{
    let n = dx * dx + dy * dy;
    assert(n >= 0) by (nonlinear_arith)
        requires
            n == dx * dx + dy * dy,
    ;
    let scaled = (n * 1_000_000) as nat;
    let m = tiles * 1000;
    lemma_floor_sqrt_lt(scaled, m);
    assert(m * m == tiles * tiles * 1_000_000) by (nonlinear_arith)
        requires
            m == tiles * 1000,
    ;
}

/// The integer square root of `n`.
pub fn isqrt(n: u128) -> (r: u64)
    ensures
        r as nat == floor_sqrt(n as nat),
{
    let mut lo: u128 = 0;
    let mut hi: u128 = 0x1_0000_0000_0000_0000;
    assert(0x1_0000_0000_0000_0000int * 0x1_0000_0000_0000_0000int > u128::MAX);
    while hi - lo > 1
        invariant
            lo < hi <= 0x1_0000_0000_0000_0000,
            lo * lo <= n < hi * hi,
        decreases hi - lo,
    {
        let mid: u128 = lo + (hi - lo) / 2;
        assert(mid * mid <= 0xffff_ffff_ffff_ffff * 0xffff_ffff_ffff_ffff) by (nonlinear_arith)
            requires
                0 <= mid <= 0xffff_ffff_ffff_ffff,
        ;
        if mid * mid <= n {
            lo = mid;
        } else {
            hi = mid;
        }
    }
    proof {
        lemma_floor_sqrt_unique(n as nat, lo as nat);
    }
    lo as u64
}

/// The distance between two cells that are `dx` columns and `dy` rows
/// apart, in units, rounded down.
pub fn distance(dx: i32, dy: i32) -> (d: u64)
    ensures
        d == spec_distance(dx as int, dy as int),
{
    let lx: i128 = dx as i128;
    let ly: i128 = dy as i128;
    assert(0 <= lx * lx <= 0x8000_0000 * 0x8000_0000) by (nonlinear_arith)
        requires
            -0x8000_0000 <= lx <= 0x8000_0000,
    ;
    assert(0 <= ly * ly <= 0x8000_0000 * 0x8000_0000) by (nonlinear_arith)
        requires
            -0x8000_0000 <= ly <= 0x8000_0000,
    ;
    let n: u128 = (lx * lx + ly * ly) as u128;
    isqrt(n * 1_000_000)
}

} // verus!
