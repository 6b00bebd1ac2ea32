//! Numeric ground rules of the solver: the unit conventions, the coordinate
//! range to which stored values are clipped, and exact helpers for floor
//! division, clamping and clipping together with the bound lemmas the rest of
//! the crate leans on.

use vstd::prelude::*;

verus! {

/// Coordinates, sizes, paddings and margins are whole layout units, clipped
/// to this magnitude whenever a computed value is stored or handed on.
pub const COORD_LIMIT: i64 = 1_000_000_000_000;

/// Anchor fractions are held in thousandths: `ANCHOR_DEN` units stand for 1.0.
pub const ANCHOR_DEN: i64 = 1000;

/// Largest admitted anchor magnitude (fractions out to 1000 either way are
/// meaningful and accepted).
pub const ANCHOR_LIMIT: i64 = 1_000_000;

/// Aspect ratios are positive fractions; numerator and denominator are
/// bounded by this.
pub const ASPECT_LIMIT: i64 = 1_000_000;

/// Spread weights are whole numbers bounded by this.
pub const WEIGHT_LIMIT: i64 = 1_000_000;

/// Largest admitted node count of a tree store.
pub const NODE_LIMIT: usize = 1_000_000;

/// Depth step of the derived z coordinate: each level draws strictly closer
/// to the camera than its parent by exactly this amount.
pub const UI_Z_STEP: i64 = -1;

/// z handed to the root of a solve pass.
pub const ROOT_Z: i64 = 0;

/// A value brought back into the coordinate range.
pub open spec fn clip(v: int) -> int {
    if v < -(COORD_LIMIT as int) {
        -(COORD_LIMIT as int)
    } else if v > COORD_LIMIT as int {
        COORD_LIMIT as int
    } else {
        v
    }
}

/// A value brought into the interval `[lo, hi]` (for `lo <= hi`).
pub open spec fn clamped(v: int, lo: int, hi: int) -> int {
    if v < lo {
        lo
    } else if v > hi {
        hi
    } else {
        v
    }
}

/// Executable form of [`clip`].
pub fn clip64(v: i64) -> (r: i64)
    ensures
        r as int == clip(v as int),
{
    if v < -COORD_LIMIT {
        -COORD_LIMIT
    } else if v > COORD_LIMIT {
        COORD_LIMIT
    } else {
        v
    }
}

/// Executable form of [`clamped`].
pub fn clamp64(v: i64, lo: i64, hi: i64) -> (r: i64)
    ensures
        r as int == clamped(v as int, lo as int, hi as int),
{
    if v < lo {
        lo
    } else if v > hi {
        hi
    } else {
        v
    }
}

/// Floor division by a positive divisor; agrees with `/` on `int`.
pub fn div_floor(a: i64, b: i64) -> (r: i64)
    requires
        1 <= b,
    ensures
        r as int == a as int / b as int,
{
    proof {
        lemma_div_within(a as int, b as int);
    }
    a.checked_div_euclid(b).unwrap()
}

/// A floor quotient by a positive divisor lies between the dividend and zero.
pub proof fn lemma_div_within(a: int, b: int)
    requires
        1 <= b,
    ensures
        0 <= a ==> 0 <= a / b <= a,
        a < 0 ==> a <= a / b <= 0,
{
    vstd::arithmetic::div_mod::lemma_fundamental_div_mod(a, b);
    vstd::arithmetic::div_mod::lemma_mod_bound(a, b);
    let q = a / b;
    let r = a % b;
    assert((0 <= a ==> 0 <= q <= a) && (a < 0 ==> a <= q <= 0)) by (nonlinear_arith)
        requires
            a == b * q + r,
            0 <= r < b,
            1 <= b,
    ;
}

/// A sequence of machine integers read as mathematical integers.
pub open spec fn ints(s: Seq<i64>) -> Seq<int> {
    s.map_values(|x: i64| x as int)
}

/// Reading as mathematical integers commutes with a point update.
pub proof fn lemma_ints_update(s: Seq<i64>, i: int, v: i64)
    requires
        0 <= i < s.len(),
    ensures
        ints(s.update(i, v)) =~= ints(s).update(i, v as int),
{
}

/// Bounds of a product from bounds of its factors.
pub proof fn lemma_mul_bounds(a: int, b: int, am: int, bm: int)
    requires
        -am <= a <= am,
        -bm <= b <= bm,
        0 <= am,
        0 <= bm,
    ensures
        -(am * bm) <= a * b <= am * bm,
{
    assert(-(am * bm) <= a * b <= am * bm) by (nonlinear_arith)
        requires
            -am <= a <= am,
            -bm <= b <= bm,
            0 <= am,
            0 <= bm,
    ;
}

/// Bounds of a floor quotient from a bound of its dividend.
pub proof fn lemma_div_bounded(a: int, b: int, m: int)
    requires
        1 <= b,
        0 <= m,
        -(m * b) <= a <= m * b,
    ensures
        -m <= a / b <= m,
{
    vstd::arithmetic::div_mod::lemma_fundamental_div_mod(a, b);
    vstd::arithmetic::div_mod::lemma_mod_bound(a, b);
    let q = a / b;
    let r = a % b;
    assert(-m <= q <= m) by (nonlinear_arith)
        requires
            a == b * q + r,
            0 <= r < b,
            1 <= b,
            0 <= m,
            -(m * b) <= a <= m * b,
    ;
}

} // verus!
