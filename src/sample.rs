//! Fixed-point samples: full scale, gains, and the rounding every stage uses.
use vstd::prelude::*;

verus! {

/// Full scale: the sample value that stands for 1.0.
pub const ONE: i32 = 1048576;

/// The gain that stands for 1.0. Gains are counted in units of `1 / LEVEL_ONE`,
/// which makes every drawbar step `(127 - v) / 127 * 0.25` an exact integer.
pub const LEVEL_ONE: u32 = 5080;

/// Division of `a` by a positive `d`, rounded toward zero.
pub open spec fn div_trunc(a: int, d: int) -> int {
    if a >= 0 {
        a / d
    } else {
        -((-a) / d)
    }
}

/// `a` clamped to the range of `i32`.
pub open spec fn saturate(a: int) -> int {
    if a > i32::MAX {
        i32::MAX as int
    } else if a < i32::MIN {
        i32::MIN as int
    } else {
        a
    }
}

/// `s * num / den`, rounded toward zero.
pub open spec fn scaled(s: int, num: int, den: int) -> int {
    div_trunc(s * num, den)
}

pub proof fn lemma_scaled_bound(s: int, num: int, den: int)
    requires
        den > 0,
        0 <= num <= den,
    ensures
        -(if s >= 0 { s } else { -s }) <= scaled(s, num, den) <= (if s >= 0 { s } else { -s }),
        s >= 0 ==> scaled(s, num, den) >= 0,
        s <= 0 ==> scaled(s, num, den) <= 0,
{
    let m = if s >= 0 { s } else { -s };
    assert(0 <= m * num <= m * den) by (nonlinear_arith)
        requires
            m >= 0,
            0 <= num <= den,
    ;
    assert((m * num) / den <= m) by (nonlinear_arith)
        requires
            m >= 0,
            0 <= m * num <= m * den,
            den > 0,
    ;
    assert((m * num) / den >= 0) by (nonlinear_arith)
        requires
            m * num >= 0,
            den > 0,
    ;
    if s >= 0 {
        assert(s * num >= 0) by (nonlinear_arith)
            requires
                s >= 0,
                num >= 0,
        ;
    } else {
        assert(s * num == -(m * num)) by (nonlinear_arith)
            requires
                m == -s,
        ;
        if m * num == 0 {
            assert(s * num == 0);
        }
    }
}

/// Scales a sample by `num / den` (a gain of at most 1), rounding toward zero.
pub fn scale_sample(s: i32, num: u32, den: u32) -> (r: i32)
    requires
        den > 0,
        num <= den,
    ensures
        r == scaled(s as int, num as int, den as int),
{
    proof {
        lemma_scaled_bound(s as int, num as int, den as int);
    }
    let m: u64 = if s >= 0 {
        s as u64
    } else {
        (-(s as i64)) as u64
    };
    assert(m * num <= 0x8000_0000u64 * 0xffff_ffffu64) by (nonlinear_arith)
        requires
            m <= 0x8000_0000u64,
            num <= 0xffff_ffffu64,
    ;
    let q: u64 = (m * (num as u64)) / (den as u64);
    if s >= 0 {
        assert(s * num >= 0) by (nonlinear_arith)
            requires
                s >= 0,
                num >= 0,
        ;
        q as i32
    } else {
        assert(s * num == -(m * num)) by (nonlinear_arith)
            requires
                m == -s,
        ;
        -(q as i64) as i32
    }
}

/// The point `num / den` of the way from `a` to `b`, rounded toward `a`.
pub open spec fn between(a: int, b: int, num: int, den: int) -> int {
    a + scaled(b - a, num, den)
}

/// Interpolates between two samples.
pub fn interpolate(a: i32, b: i32, num: u32, den: u32) -> (r: i32)
    requires
        den > 0,
        num <= den,
    ensures
        r == between(a as int, b as int, num as int, den as int),
{
    let d: i64 = (b as i64) - (a as i64);
    proof {
        lemma_scaled_bound(d as int, num as int, den as int);
    }
    let m: u64 = if d >= 0 {
        d as u64
    } else {
        (-d) as u64
    };
    assert(m * num <= 0x1_0000_0000u64 * 0xffff_ffffu64) by (nonlinear_arith)
        requires
            m <= 0x1_0000_0000u64,
            num <= 0xffff_ffffu64,
    ;
    let q: u64 = (m * (num as u64)) / (den as u64);
    let step: i64 = if d >= 0 {
        assert(d * num >= 0) by (nonlinear_arith)
            requires
                d >= 0,
                num >= 0,
        ;
        q as i64
    } else {
        assert(d * num == -(m * num)) by (nonlinear_arith)
            requires
                m == -d,
        ;
        -(q as i64)
    };
    (a as i64 + step) as i32
}

/// The sum of products `acc` divided by `LEVEL_ONE`, rounded toward zero and
/// saturated at the range of a sample.
pub fn level_down(acc: i128) -> (r: i32)
    requires
        acc > i128::MIN,
    ensures
        r == saturate(div_trunc(acc as int, LEVEL_ONE as int)),
{
    let q: i128 = if acc >= 0 {
        acc / (LEVEL_ONE as i128)
    } else {
        -((-acc) / (LEVEL_ONE as i128))
    };
    if q > i32::MAX as i128 {
        i32::MAX
    } else if q < i32::MIN as i128 {
        i32::MIN
    } else {
        q as i32
    }
}

} // verus!
