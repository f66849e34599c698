//! Fixed-point real numbers.
//!
//! A [`Scalar`] stands for the real number `raw / 65536`. Its raw value is
//! kept within `[-LIMIT_RAW, LIMIT_RAW]`, so that products of four raw values
//! fit in 128 bits. Every operation saturates at the two ends of that range
//! and rounds toward zero, which makes negation exact: `(-a) * b == -(a * b)`.
use vstd::prelude::*;

verus! {

/// The raw value of the number one.
pub const ONE_RAW: i64 = 65536;

/// The largest raw value a [`Scalar`] holds; it stands for 16384.
pub const LIMIT_RAW: i64 = 1073741824;

/// `v` brought into the range of raw values.
pub open spec fn clamp_raw(v: int) -> int {
    if v < -(LIMIT_RAW as int) {
        -(LIMIT_RAW as int)
    } else if v > LIMIT_RAW as int {
        LIMIT_RAW as int
    } else {
        v
    }
}

/// Whether `v` is a raw value that a [`Scalar`] can hold.
pub open spec fn in_range(v: int) -> bool {
    -(LIMIT_RAW as int) <= v <= LIMIT_RAW as int
}

/// The quotient `n / d` rounded toward zero. For `d == 0` it is the sign of
/// `n` times a value beyond every raw value, so that it saturates.
pub open spec fn trunc_div(n: int, d: int) -> int {
    if d == 0 {
        if n > 0 {
            LIMIT_RAW as int + 1
        } else if n < 0 {
            -(LIMIT_RAW as int) - 1
        } else {
            0
        }
    } else if d > 0 {
        if n >= 0 {
            n / d
        } else {
            -((-n) / d)
        }
    } else {
        if n >= 0 {
            -(n / (-d))
        } else {
            (-n) / (-d)
        }
    }
}

/// Whether `r` is the integer square root of `n`: the largest `r` with
/// `r * r <= n`.
pub open spec fn is_int_sqrt(n: int, r: int) -> bool {
    0 <= r && r * r <= n && n < (r + 1) * (r + 1)
}

/// The integer square root of `n`, for `n >= 0`.
pub open spec fn int_sqrt(n: int) -> int {
    choose|r: int| is_int_sqrt(n, r)
}

pub open spec fn fx_add(a: int, b: int) -> int {
    clamp_raw(a + b)
}

pub open spec fn fx_sub(a: int, b: int) -> int {
    clamp_raw(a - b)
}

pub open spec fn fx_mul(a: int, b: int) -> int {
    clamp_raw(trunc_div(a * b, ONE_RAW as int))
}

pub open spec fn fx_div(a: int, b: int) -> int {
    clamp_raw(trunc_div(a * ONE_RAW as int, b))
}

/// The square root of a non-negative number; zero for a negative one.
pub open spec fn fx_sqrt(a: int) -> int {
    if a <= 0 {
        0
    } else {
        int_sqrt(a * ONE_RAW as int)
    }
}

/// Two integers with the square-root property for one `n` are equal.
pub proof fn lemma_int_sqrt_unique(n: int, r: int, s: int)
    requires
        is_int_sqrt(n, r),
        is_int_sqrt(n, s),
    ensures
        r == s,
{
    if r < s {
        assert((r + 1) * (r + 1) <= s * s) by (nonlinear_arith)
            requires
                0 <= r,
                r + 1 <= s,
        ;
    } else if s < r {
        assert((s + 1) * (s + 1) <= r * r) by (nonlinear_arith)
            requires
                0 <= s,
                s + 1 <= r,
        ;
    }
}

/// An integer with the square-root property is the integer square root.
pub proof fn lemma_int_sqrt_is(n: int, r: int)
    requires
        is_int_sqrt(n, r),
    ensures
        int_sqrt(n) == r,
{
    let s = int_sqrt(n);
    assert(is_int_sqrt(n, s));
    lemma_int_sqrt_unique(n, r, s);
}

/// Every number that is not negative has an integer square root.
pub proof fn lemma_int_sqrt_exists(n: int)
    requires
        n >= 0,
    ensures
        is_int_sqrt(n, int_sqrt(n)),
    decreases n,
{
    if n == 0 {
        assert(is_int_sqrt(0, 0));
    } else {
        lemma_int_sqrt_exists(n - 1);
        let r = int_sqrt(n - 1);
        if n < (r + 1) * (r + 1) {
            assert(is_int_sqrt(n, r));
        } else {
            assert((r + 2) * (r + 2) > (r + 1) * (r + 1)) by (nonlinear_arith)
                requires
                    r >= 0,
            ;
            assert(is_int_sqrt(n, r + 1));
        }
    }
}

/// The integer square root of a number that is at most `b * b` is at most `b`.
pub proof fn lemma_int_sqrt_bound(n: int, r: int, b: int)
    requires
        is_int_sqrt(n, r),
        0 <= b,
        n <= b * b,
    ensures
        r <= b,
{
    if r > b {
        assert(r * r >= (b + 1) * (b + 1)) by (nonlinear_arith)
            requires
                0 <= b,
                b + 1 <= r,
        ;
        assert((b + 1) * (b + 1) > b * b) by (nonlinear_arith)
            requires
                0 <= b,
        ;
    }
}

/// The largest `r` with `r * r <= n`.
pub fn isqrt(n: u128) -> (r: u64)
    ensures
        is_int_sqrt(n as int, r as int),
        r as int == int_sqrt(n as int),
{
    let mut lo: u128 = 0;
    let mut hi: u128 = 0x1_0000_0000_0000_0000;
    assert(0x1_0000_0000_0000_0000int * 0x1_0000_0000_0000_0000int > n) by (nonlinear_arith)
        requires
            n <= 0xffff_ffff_ffff_ffff_ffff_ffff_ffff_ffff,
    ;
    while hi - lo > 1
        invariant
            lo < hi <= 0x1_0000_0000_0000_0000,
            lo * lo <= n,
            n < hi * hi,
        decreases hi - lo,
    {
        let mid: u128 = lo + (hi - lo) / 2;
        assert(mid * mid <= 0xffff_ffff_ffff_ffff_ffff_ffff_ffff_ffff) by (nonlinear_arith)
            requires
                0 <= mid <= 0xffff_ffff_ffff_ffff,
        ;
        if mid * mid <= n {
            lo = mid;
        } else {
            hi = mid;
        }
    }
    proof {
        assert(hi == lo + 1);
        lemma_int_sqrt_is(n as int, lo as int);
    }
    lo as u64
}

/// A real number in fixed point, with sixteen fractional bits.
#[derive(Clone, Copy, Debug, PartialEq, Eq, Structural)]
pub struct Scalar {
    raw: i64,
}

impl View for Scalar {
    type V = int;

    /// The raw value: the number times 65536.
    closed spec fn view(&self) -> int {
        self.raw as int
    }
}

impl Scalar {
    /// Every scalar holds a raw value in range.
    #[verifier::type_invariant]
    pub open spec fn in_bounds(self) -> bool {
        in_range(self@)
    }

    /// The scalar with the raw value `raw`, brought into range.
    pub fn from_raw(raw: i64) -> (s: Scalar)
        ensures
            s@ == clamp_raw(raw as int),
    {
        if raw < -LIMIT_RAW {
            Scalar { raw: -LIMIT_RAW }
        } else if raw > LIMIT_RAW {
            Scalar { raw: LIMIT_RAW }
        } else {
            Scalar { raw }
        }
    }

    /// The raw value, which is always in range.
    pub fn raw(self) -> (r: i64)
        ensures
            r as int == self@,
            in_range(self@),
    {
        proof {
            use_type_invariant(&self);
        }
        self.raw
    }

    fn from_wide(v: i128) -> (s: Scalar)
        ensures
            s@ == clamp_raw(v as int),
    {
        if v < -(LIMIT_RAW as i128) {
            Scalar { raw: -LIMIT_RAW }
        } else if v > LIMIT_RAW as i128 {
            Scalar { raw: LIMIT_RAW }
        } else {
            Scalar { raw: v as i64 }
        }
    }

    pub fn zero() -> (s: Scalar)
        ensures
            s@ == 0,
    {
        Scalar { raw: 0 }
    }

    pub fn one() -> (s: Scalar)
        ensures
            s@ == ONE_RAW,
    {
        Scalar { raw: ONE_RAW }
    }

    /// The largest scalar; it stands where an unbounded value is meant.
    pub fn max_value() -> (s: Scalar)
        ensures
            s@ == LIMIT_RAW,
    {
        Scalar { raw: LIMIT_RAW }
    }

    /// The whole number `n`, brought into range.
    pub fn from_int(n: i32) -> (s: Scalar)
        ensures
            s@ == clamp_raw(n as int * ONE_RAW as int),
    {
        let one: i128 = ONE_RAW as i128;
        Scalar::from_wide((n as i128) * one)
    }

    /// The quotient of two whole numbers, rounded toward zero.
    pub fn from_ratio(num: i32, den: i32) -> (s: Scalar)
        ensures
            s@ == clamp_raw(trunc_div(num as int * ONE_RAW as int, den as int)),
    {
        let one: i128 = ONE_RAW as i128;
        Scalar::from_wide(wide_trunc_div((num as i128) * one, den as i128))
    }

    pub fn add(self, rhs: Scalar) -> (s: Scalar)
        ensures
            s@ == fx_add(self@, rhs@),
    {
        proof {
            use_type_invariant(&self);
            use_type_invariant(&rhs);
        }
        Scalar::from_raw(self.raw + rhs.raw)
    }

    pub fn sub(self, rhs: Scalar) -> (s: Scalar)
        ensures
            s@ == fx_sub(self@, rhs@),
    {
        proof {
            use_type_invariant(&self);
            use_type_invariant(&rhs);
        }
        Scalar::from_raw(self.raw - rhs.raw)
    }

    pub fn neg(self) -> (s: Scalar)
        ensures
            s@ == -self@,
    {
        proof {
            use_type_invariant(&self);
        }
        Scalar { raw: -self.raw }
    }

    pub fn mul(self, rhs: Scalar) -> (s: Scalar)
        ensures
            s@ == fx_mul(self@, rhs@),
    {
        proof {
            use_type_invariant(&self);
            use_type_invariant(&rhs);
            lemma_product_bound(self.raw as int, rhs.raw as int, LIMIT_RAW as int, LIMIT_RAW as int);
        }
        let p: i128 = (self.raw as i128) * (rhs.raw as i128);
        Scalar::from_wide(p / (ONE_RAW as i128))
    }

    /// The quotient, rounded toward zero. Division by zero saturates by the
    /// sign of the dividend, and zero by zero is zero.
    pub fn div(self, rhs: Scalar) -> (s: Scalar)
        ensures
            s@ == fx_div(self@, rhs@),
    {
        proof {
            use_type_invariant(&self);
            use_type_invariant(&rhs);
        }
        let one: i128 = ONE_RAW as i128;
        Scalar::from_wide(wide_trunc_div((self.raw as i128) * one, rhs.raw as i128))
    }

    /// The square root, rounded down; zero for a negative number.
    pub fn sqrt(self) -> (s: Scalar)
        ensures
            s@ == fx_sqrt(self@),
            s@ >= 0,
    {
        proof {
            use_type_invariant(&self);
        }
        if self.raw <= 0 {
            Scalar { raw: 0 }
        } else {
            let one: u128 = ONE_RAW as u128;
            let n: u128 = (self.raw as u128) * one;
            let r: u64 = isqrt(n);
            proof {
                assert(n as int == self@ * ONE_RAW as int);
                assert(0x80_0000int * 0x80_0000int == 0x4000_0000_0000int) by (nonlinear_arith);
                lemma_int_sqrt_bound(n as int, r as int, 0x80_0000int);
            }
            Scalar::from_wide(r as i128)
        }
    }

    pub fn lt(self, rhs: Scalar) -> (b: bool)
        ensures
            b == (self@ < rhs@),
    {
        self.raw < rhs.raw
    }

    pub fn le(self, rhs: Scalar) -> (b: bool)
        ensures
            b == (self@ <= rhs@),
    {
        self.raw <= rhs.raw
    }

    pub fn gt(self, rhs: Scalar) -> (b: bool)
        ensures
            b == (self@ > rhs@),
    {
        self.raw > rhs.raw
    }

    pub fn ge(self, rhs: Scalar) -> (b: bool)
        ensures
            b == (self@ >= rhs@),
    {
        self.raw >= rhs.raw
    }

    /// The smaller of two scalars.
    pub fn min(self, rhs: Scalar) -> (s: Scalar)
        ensures
            s@ == if self@ <= rhs@ {
                self@
            } else {
                rhs@
            },
    {
        if self.raw <= rhs.raw {
            self
        } else {
            rhs
        }
    }

    /// The absolute value.
    pub fn abs(self) -> (s: Scalar)
        ensures
            s@ == if self@ < 0 {
                -self@
            } else {
                self@
            },
    {
        proof {
            use_type_invariant(&self);
        }
        if self.raw < 0 {
            Scalar { raw: -self.raw }
        } else {
            self
        }
    }
}

/// Truncating division by a positive number is off by less than the
/// divisor: `|n - (n / d) * d| < d`.
pub proof fn lemma_trunc_div_error(n: int, d: int)
    requires
        d > 0,
    ensures
        -d < n - trunc_div(n, d) * d < d,
        n >= 0 ==> n - trunc_div(n, d) * d >= 0,
        n <= 0 ==> n - trunc_div(n, d) * d <= 0,
{
    if n >= 0 {
        vstd::arithmetic::div_mod::lemma_fundamental_div_mod(n, d);
        vstd::arithmetic::div_mod::lemma_mod_bound(n, d);
        assert((n / d) * d == d * (n / d)) by (nonlinear_arith);
    } else {
        vstd::arithmetic::div_mod::lemma_fundamental_div_mod(-n, d);
        vstd::arithmetic::div_mod::lemma_mod_bound(-n, d);
        assert((-((-n) / d)) * d == -(d * ((-n) / d))) by (nonlinear_arith);
    }
}

/// The product of two bounded integers is bounded by the product of the bounds.
pub proof fn lemma_product_bound(a: int, b: int, la: int, lb: int)
    requires
        -la <= a <= la,
        -lb <= b <= lb,
    ensures
        -(la * lb) <= a * b <= la * lb,
{
    assert(-(la * lb) <= a * b <= la * lb) by (nonlinear_arith)
        requires
            -la <= a <= la,
            -lb <= b <= lb,
    ;
}

/// `n / d` rounded toward zero, with the stated value where `d` is zero.
pub(crate) fn wide_trunc_div(n: i128, d: i128) -> (q: i128)
    requires
        -0x4000_0000_0000_0000_0000_0000 <= n <= 0x4000_0000_0000_0000_0000_0000,
        -0x4000_0000_0000_0000_0000_0000 <= d <= 0x4000_0000_0000_0000_0000_0000,
    ensures
        q == trunc_div(n as int, d as int),
{
    if d == 0 {
        if n > 0 {
            LIMIT_RAW as i128 + 1
        } else if n < 0 {
            -(LIMIT_RAW as i128) - 1
        } else {
            0
        }
    } else if d > 0 {
        n / d
    } else {
        -(n / (-d))
    }
}

} // verus!
