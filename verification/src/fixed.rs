//! A scalar on the integers: a signed binary fixed-point number.
//!
//! A [`Fixed`] counts steps of `1 / 2^32`. Sums, products, quotients and
//! roots are worked out on the integers, cut toward zero to the grid and
//! held to the range of `i64`; sines come from a series in that arithmetic.
//! Nothing depends on the machine, so a render with it is the same
//! everywhere.
use vstd::prelude::*;
use crate::scalar::Scalar;

verus! {

/// The number of grid steps in one unit.
pub const SCALE: u64 = 0x1_0000_0000;

/// Half a turn in radians, in grid steps.
pub const PI: i64 = 0x3_243f_6a89;

/// A quarter turn in radians, in grid steps.
pub const HALF_PI: i64 = 0x1_921f_b544;

/// Three quarter turns in radians, in grid steps.
pub const THREE_HALF_PI: i64 = 0x4_b65f_1fcd;

/// A full turn in radians, in grid steps.
pub const TWO_PI: i64 = 0x6_487e_d511;

/// One degree in radians, in grid steps.
pub const DEGREE: i64 = 0x477_d1a9;

#[derive(Clone, Copy, Debug, PartialEq, Eq, Structural)]
pub struct Fixed {
    pub raw: i64,
}

/// `x` held to the range of `i64`.
pub open spec fn clamp(x: int) -> i64 {
    if x > i64::MAX {
        i64::MAX
    } else if x < i64::MIN {
        i64::MIN
    } else {
        x as i64
    }
}

/// The size of `x` without its sign.
pub open spec fn size(x: int) -> nat {
    if x < 0 {
        (-x) as nat
    } else {
        x as nat
    }
}

/// The integer of size `m` with the given sign.
pub open spec fn signed(negative: bool, m: nat) -> int {
    if negative {
        -(m as int)
    } else {
        m as int
    }
}

/// Whether `r` is the largest whole number whose square is at most `n`.
pub open spec fn is_whole_root(n: nat, r: nat) -> bool {
    r * r <= n < (r + 1) * (r + 1)
}

/// The largest whole number whose square is at most `n`.
pub open spec fn whole_root(n: nat) -> nat {
    choose|r: nat| is_whole_root(n, r)
}

/// `base` raised to the whole number `n` by repeated squaring, each product
/// cut to the grid.
pub open spec fn whole_power(base: Fixed, n: nat) -> Fixed
    decreases n,
{
    if n == 0 {
        Fixed { raw: SCALE as i64 }
    } else if n % 2 == 1 {
        whole_power(base, (n - 1) as nat).product(base)
    } else {
        let half = whole_power(base, n / 2);
        half.product(half)
    }
}

/// The angle of size `m` brought to within a quarter turn of zero, where
/// its sine is unchanged: full turns are dropped, and what is left is
/// mirrored at the quarter turns.
pub open spec fn folded(m: nat) -> int {
    let t = (m % (TWO_PI as nat)) as int;
    if t <= HALF_PI {
        t
    } else if t <= THREE_HALF_PI {
        PI - t
    } else {
        t - TWO_PI
    }
}

/// The sine series up to the thirteenth power,
/// `r * (1 - r^2/6 * (1 - r^2/20 * (1 - r^2/42 * (1 - r^2/72 * (1 - r^2/110
/// * (1 - r^2/156))))))`, worked from the innermost bracket outward, each
/// step cut to the grid.
pub open spec fn sine_series(r: Fixed) -> Fixed {
    let unit = Fixed { raw: 0x1_0000_0000 };
    let q = r.product(r);
    let t6 = unit.difference(q.quotient(Fixed { raw: 0x9c_0000_0000 }));
    let t5 = unit.difference(q.product(t6).quotient(Fixed { raw: 0x6e_0000_0000 }));
    let t4 = unit.difference(q.product(t5).quotient(Fixed { raw: 0x48_0000_0000 }));
    let t3 = unit.difference(q.product(t4).quotient(Fixed { raw: 0x2a_0000_0000 }));
    let t2 = unit.difference(q.product(t3).quotient(Fixed { raw: 0x14_0000_0000 }));
    let t1 = unit.difference(q.product(t2).quotient(Fixed { raw: 0x6_0000_0000 }));
    r.product(t1)
}

proof fn lemma_whole_root_unique(n: nat, r: nat, s: nat)
    requires
        is_whole_root(n, r),
        is_whole_root(n, s),
    ensures
        r == s,
{
    if r < s {
        assert((r + 1) * (r + 1) <= s * s) by (nonlinear_arith)
            requires
                r + 1 <= s,
        ;
    } else if s < r {
        assert((s + 1) * (s + 1) <= r * r) by (nonlinear_arith)
            requires
                s + 1 <= r,
        ;
    }
}

fn size_of(x: i64) -> (m: u128)
    ensures
        m == size(x as int),
        m <= 0x8000_0000_0000_0000,
{
    if x < 0 {
        let wide: i128 = -(x as i128);
        wide as u128
    } else {
        x as u128
    }
}

fn saturate(negative: bool, m: u128) -> (r: i64)
    ensures
        r == clamp(signed(negative, m as nat)),
{
    if negative {
        if m >= 0x8000_0000_0000_0000 {
            i64::MIN
        } else {
            let wide: i128 = -(m as i128);
            wide as i64
        }
    } else {
        if m > 0x7fff_ffff_ffff_ffff {
            i64::MAX
        } else {
            m as i64
        }
    }
}

fn clamp_wide(x: i128) -> (r: i64)
    ensures
        r == clamp(x as int),
{
    if x > 0x7fff_ffff_ffff_ffff {
        i64::MAX
    } else if x < -0x8000_0000_0000_0000 {
        i64::MIN
    } else {
        x as i64
    }
}

/// The whole root of `n` by bisection.
fn root_of(n: u128) -> (r: u128)
    requires
        n < 0x1_0000_0000_0000_0000_0000_0000,
    ensures
        r == whole_root(n as nat),
        r < 0x1_0000_0000_0000,
{
    let mut low: u128 = 0;
    let mut high: u128 = 0x1_0000_0000_0000;
    assert(0x1_0000_0000_0000u128 * 0x1_0000_0000_0000u128 == 0x1_0000_0000_0000_0000_0000_0000u128)
        by (nonlinear_arith);
    while high - low > 1
        invariant
            low < high <= 0x1_0000_0000_0000,
            low * low <= n < high * high,
        decreases high - low,
    {
        let mid: u128 = low + (high - low) / 2;
        assert(mid * mid < 0x1_0000_0000_0000_0000_0000_0000) by (nonlinear_arith)
            requires
                mid < 0x1_0000_0000_0000,
        ;
        if mid * mid <= n {
            low = mid;
        } else {
            high = mid;
        }
    }
    proof {
        let m = n as nat;
        let r = low as nat;
        assert(is_whole_root(m, r));
        lemma_whole_root_unique(m, r, whole_root(m));
    }
    low
}

fn fold(m: u128) -> (r: i64)
    ensures
        r == folded(m as nat),
{
    let t: i64 = (m % (TWO_PI as u128)) as i64;
    if t <= HALF_PI {
        t
    } else if t <= THREE_HALF_PI {
        PI - t
    } else {
        t - TWO_PI
    }
}

fn series(r: Fixed) -> (s: Fixed)
    ensures
        s == sine_series(r),
{
    let unit = Fixed { raw: 0x1_0000_0000 };
    let q = r.mul(r);
    let t6 = unit.sub(q.div(Fixed { raw: 0x9c_0000_0000 }));
    let t5 = unit.sub(q.mul(t6).div(Fixed { raw: 0x6e_0000_0000 }));
    let t4 = unit.sub(q.mul(t5).div(Fixed { raw: 0x48_0000_0000 }));
    let t3 = unit.sub(q.mul(t4).div(Fixed { raw: 0x2a_0000_0000 }));
    let t2 = unit.sub(q.mul(t3).div(Fixed { raw: 0x14_0000_0000 }));
    let t1 = unit.sub(q.mul(t2).div(Fixed { raw: 0x6_0000_0000 }));
    r.mul(t1)
}

fn power_of(base: Fixed, n: u64) -> (r: Fixed)
    ensures
        r == whole_power(base, n as nat),
    decreases n,
{
    if n == 0 {
        Fixed { raw: 0x1_0000_0000 }
    } else if n % 2 == 1 {
        power_of(base, n - 1).mul(base)
    } else {
        let half = power_of(base, n / 2);
        half.mul(half)
    }
}

impl Scalar for Fixed {
    open spec fn ratio(num: i64, den: u64) -> Self {
        if den > 0 {
            Fixed { raw: clamp(signed(num < 0, (size(num as int) * SCALE) as nat / (den as nat))) }
        } else {
            Fixed { raw: 0 }
        }
    }

    open spec fn sum(self, other: Self) -> Self {
        Fixed { raw: clamp(self.raw + other.raw) }
    }

    open spec fn difference(self, other: Self) -> Self {
        Fixed { raw: clamp(self.raw - other.raw) }
    }

    open spec fn product(self, other: Self) -> Self {
        Fixed {
            raw: clamp(
                signed(
                    (self.raw < 0) != (other.raw < 0),
                    (size(self.raw as int) * size(other.raw as int)) / (SCALE as nat),
                ),
            ),
        }
    }

    /// A quotient by zero is the end of the range on the side of the
    /// dividend, and zero for zero by zero.
    open spec fn quotient(self, other: Self) -> Self {
        if other.raw == 0 {
            Fixed {
                raw: if self.raw > 0 {
                    i64::MAX
                } else if self.raw < 0 {
                    i64::MIN
                } else {
                    0
                },
            }
        } else {
            Fixed {
                raw: clamp(
                    signed(
                        (self.raw < 0) != (other.raw < 0),
                        (size(self.raw as int) * SCALE) as nat / size(other.raw as int),
                    ),
                ),
            }
        }
    }

    open spec fn negation(self) -> Self {
        Fixed { raw: clamp(-self.raw) }
    }

    open spec fn absolute(self) -> Self {
        Fixed { raw: clamp(size(self.raw as int) as int) }
    }

    /// The root of a number that is not positive is zero.
    open spec fn square_root(self) -> Self {
        if self.raw <= 0 {
            Fixed { raw: 0 }
        } else {
            Fixed { raw: whole_root((self.raw * SCALE) as nat) as i64 }
        }
    }

    /// The power to the whole part of the exponent; an exponent below one
    /// counts as zero.
    open spec fn power(self, exponent: Self) -> Self {
        whole_power(self, exponent.whole() as nat)
    }

    open spec fn radians(self) -> Self {
        self.product(Fixed { raw: DEGREE })
    }

    /// The sine series of the angle brought to within a quarter turn of
    /// zero.
    open spec fn sine(self) -> Self {
        let r = folded(size(self.raw as int));
        sine_series(
            Fixed {
                raw: if self.raw < 0 {
                    (-r) as i64
                } else {
                    r as i64
                },
            },
        )
    }

    /// The sine of the angle a quarter turn on.
    open spec fn cosine(self) -> Self {
        self.sum(Fixed { raw: HALF_PI }).sine()
    }

    /// The sine over the cosine.
    open spec fn tangent(self) -> Self {
        self.sine().quotient(self.cosine())
    }

    open spec fn whole(self) -> usize {
        if self.raw <= 0 {
            0
        } else {
            (self.raw / (SCALE as i64)) as usize
        }
    }

    open spec fn below(self, other: Self) -> bool {
        self.raw < other.raw
    }

    open spec fn same(self, other: Self) -> bool {
        self.raw == other.raw
    }

    proof fn law_ratio_ordered(num: i64, den: u64) {
    }

    proof fn law_compared_are_ordered(a: Self, b: Self) {
    }

    proof fn law_connected(a: Self, b: Self) {
    }

    proof fn law_exclusive(a: Self, b: Self) {
    }

    proof fn law_transitive(a: Self, b: Self, c: Self) {
    }

    fn from_ratio(num: i64, den: u64) -> (r: Self) {
        let m: u128 = size_of(num);
        assert(m * SCALE <= 0x8000_0000_0000_0000 * 0x1_0000_0000) by (nonlinear_arith)
            requires
                m <= 0x8000_0000_0000_0000,
                SCALE == 0x1_0000_0000,
        ;
        Fixed { raw: saturate(num < 0, (m * (SCALE as u128)) / (den as u128)) }
    }

    fn add(self, other: Self) -> (r: Self) {
        Fixed { raw: clamp_wide(self.raw as i128 + other.raw as i128) }
    }

    fn sub(self, other: Self) -> (r: Self) {
        Fixed { raw: clamp_wide(self.raw as i128 - other.raw as i128) }
    }

    fn mul(self, other: Self) -> (r: Self) {
        let a: u128 = size_of(self.raw);
        let b: u128 = size_of(other.raw);
        assert(a * b <= 0x8000_0000_0000_0000 * 0x8000_0000_0000_0000) by (nonlinear_arith)
            requires
                a <= 0x8000_0000_0000_0000,
                b <= 0x8000_0000_0000_0000,
        ;
        Fixed { raw: saturate((self.raw < 0) != (other.raw < 0), (a * b) / (SCALE as u128)) }
    }

    fn div(self, other: Self) -> (r: Self) {
        if other.raw == 0 {
            if self.raw > 0 {
                Fixed { raw: i64::MAX }
            } else if self.raw < 0 {
                Fixed { raw: i64::MIN }
            } else {
                Fixed { raw: 0 }
            }
        } else {
            let a: u128 = size_of(self.raw);
            let b: u128 = size_of(other.raw);
            assert(a * SCALE <= 0x8000_0000_0000_0000 * 0x1_0000_0000) by (nonlinear_arith)
                requires
                    a <= 0x8000_0000_0000_0000,
                    SCALE == 0x1_0000_0000,
            ;
            Fixed { raw: saturate((self.raw < 0) != (other.raw < 0), (a * (SCALE as u128)) / b) }
        }
    }

    fn neg(self) -> (r: Self) {
        Fixed { raw: clamp_wide(-(self.raw as i128)) }
    }

    fn abs(self) -> (r: Self) {
        Fixed { raw: saturate(false, size_of(self.raw)) }
    }

    fn sqrt(self) -> (r: Self) {
        if self.raw <= 0 {
            Fixed { raw: 0 }
        } else {
            let a: u128 = self.raw as u128;
            assert(a * SCALE < 0x8000_0000_0000_0000 * 0x1_0000_0000) by (nonlinear_arith)
                requires
                    a < 0x8000_0000_0000_0000,
                    SCALE == 0x1_0000_0000,
            ;
            Fixed { raw: root_of(a * (SCALE as u128)) as i64 }
        }
    }

    fn powf(self, exponent: Self) -> (r: Self) {
        power_of(self, exponent.to_usize() as u64)
    }

    fn to_radians(self) -> (r: Self) {
        self.mul(Fixed { raw: DEGREE })
    }

    fn sin(self) -> (r: Self) {
        let r = fold(size_of(self.raw));
        series(
            Fixed {
                raw: if self.raw < 0 {
                    -r
                } else {
                    r
                },
            },
        )
    }

    fn cos(self) -> (r: Self) {
        self.add(Fixed { raw: HALF_PI }).sin()
    }

    fn tan(self) -> (r: Self) {
        self.sin().div(self.cos())
    }

    fn to_usize(self) -> (r: usize) {
        if self.raw <= 0 {
            0
        } else {
            (self.raw / (SCALE as i64)) as usize
        }
    }

    fn lt(self, other: Self) -> (r: bool) {
        self.raw < other.raw
    }

    fn equals(self, other: Self) -> (r: bool) {
        self.raw == other.raw
    }
}

} // verus!
