//! Colours: three light intensities that are never negative.
use crate::fixed::{
    clamp_raw, fx_add, fx_div, fx_mul, fx_sqrt, in_range, Scalar, LIMIT_RAW, ONE_RAW,
};
use crate::utils::clamp;
use vstd::prelude::*;

verus! {

/// The mathematical model of a colour: its three raw components.
pub struct Rgb {
    pub r: int,
    pub g: int,
    pub b: int,
}

/// The raw value of 0.999, the brightest value that is written out.
pub const BRIGHTEST_RAW: i64 = 65470;

/// `v`, or zero where `v` is negative.
pub open spec fn at_least_zero(v: int) -> int {
    if v < 0 {
        0
    } else {
        v
    }
}

pub open spec fn rgb_add(a: Rgb, b: Rgb) -> Rgb {
    Rgb { r: fx_add(a.r, b.r), g: fx_add(a.g, b.g), b: fx_add(a.b, b.b) }
}

pub open spec fn rgb_mul(a: Rgb, b: Rgb) -> Rgb {
    Rgb { r: fx_mul(a.r, b.r), g: fx_mul(a.g, b.g), b: fx_mul(a.b, b.b) }
}

pub open spec fn rgb_scale(a: Rgb, k: int) -> Rgb {
    Rgb {
        r: at_least_zero(fx_mul(a.r, k)),
        g: at_least_zero(fx_mul(a.g, k)),
        b: at_least_zero(fx_mul(a.b, k)),
    }
}

/// Whether no component is negative and each is in range.
pub open spec fn rgb_valid(a: Rgb) -> bool {
    0 <= a.r && in_range(a.r) && 0 <= a.g && in_range(a.g) && 0 <= a.b && in_range(a.b)
}

/// The byte written for one accumulated component: the mean over the
/// samples, its square root (gamma 2), at most 0.999, times 256.
pub open spec fn output_byte(sum: int, samples: int) -> int {
    gamma_byte(sum, clamp_raw(samples * ONE_RAW as int))
}

/// The byte for the mean `sum / samples`, both as raw values.
pub open spec fn gamma_byte(sum: int, samples: int) -> int {
    let gamma = fx_sqrt(fx_div(sum, samples));
    let shown = if gamma > BRIGHTEST_RAW as int {
        BRIGHTEST_RAW as int
    } else {
        gamma
    };
    shown / 256
}

/// The byte for one component taken as it is: `255 * v`, at most 255.
pub open spec fn plain_byte(v: int) -> int {
    let scaled = (255 * v) / (ONE_RAW as int);
    if scaled > 255 {
        255
    } else {
        scaled
    }
}

/// The sum of two colours does not depend on their order.
pub proof fn lemma_add_commutative(a: Rgb, b: Rgb)
    ensures
        rgb_add(a, b) == rgb_add(b, a),
{
}

/// The sum of three colours does not depend on how they are grouped.
pub proof fn lemma_add_associative(a: Rgb, b: Rgb, c: Rgb)
    requires
        rgb_valid(a),
        rgb_valid(b),
        rgb_valid(c),
    ensures
        rgb_add(rgb_add(a, b), c) == rgb_add(a, rgb_add(b, c)),
        rgb_valid(rgb_add(a, b)),
{
}

/// The sum of the colours in the order of the sequence, each addition
/// saturating: what adding them one by one to black gives.
pub open spec fn rgb_sum(colors: Seq<Rgb>) -> Rgb {
    colors.fold_left(Rgb { r: 0, g: 0, b: 0 }, |acc: Rgb, c: Rgb| rgb_add(acc, c))
}

/// The sum of the colours without saturation.
pub open spec fn rgb_total(colors: Seq<Rgb>) -> Rgb {
    colors.fold_left(
        Rgb { r: 0, g: 0, b: 0 },
        |acc: Rgb, c: Rgb| Rgb { r: acc.r + c.r, g: acc.g + c.g, b: acc.b + c.b },
    )
}

/// `v`, or the largest raw value where `v` is beyond it.
pub open spec fn at_most_limit(v: int) -> int {
    if v > LIMIT_RAW as int {
        LIMIT_RAW as int
    } else {
        v
    }
}

/// The saturating sum of valid colours is their sum without saturation,
/// cut off at the largest value.
pub proof fn lemma_sum_is_total(colors: Seq<Rgb>)
    requires
        forall|i: int| 0 <= i < colors.len() ==> rgb_valid(#[trigger] colors[i]),
    ensures
        rgb_sum(colors) == (Rgb {
            r: at_most_limit(rgb_total(colors).r),
            g: at_most_limit(rgb_total(colors).g),
            b: at_most_limit(rgb_total(colors).b),
        }),
        rgb_total(colors).r >= 0,
        rgb_total(colors).g >= 0,
        rgb_total(colors).b >= 0,
    decreases colors.len(),
{
    if colors.len() > 0 {
        let front = colors.drop_last();
        assert forall|i: int| 0 <= i < front.len() implies rgb_valid(#[trigger] front[i]) by {
            assert(front[i] == colors[i]);
        }
        lemma_sum_is_total(front);
        assert(rgb_valid(colors.last()));
    }
}

/// Summing colours in any order gives the same colour.
pub proof fn lemma_sum_any_order(a: Seq<Rgb>, b: Seq<Rgb>)
    requires
        a.to_multiset() == b.to_multiset(),
        forall|i: int| 0 <= i < a.len() ==> rgb_valid(#[trigger] a[i]),
    ensures
        rgb_sum(a) == rgb_sum(b),
{
    broadcast use vstd::seq_lib::group_to_multiset_ensures;

    assert forall|i: int| 0 <= i < b.len() implies rgb_valid(#[trigger] b[i]) by {
        assert(b.contains(b[i]));
        assert(b.to_multiset().count(b[i]) > 0);
        assert(a.contains(b[i]));
        let j = choose|j: int| 0 <= j < a.len() && a[j] == b[i];
        assert(rgb_valid(a[j]));
    }
    lemma_sum_is_total(a);
    lemma_sum_is_total(b);
    let f = |acc: Rgb, c: Rgb| Rgb { r: acc.r + c.r, g: acc.g + c.g, b: acc.b + c.b };
    assert(vstd::seq_lib::commutative_foldl(f));
    vstd::seq_lib::lemma_fold_left_permutation(a, b, f, Rgb { r: 0, g: 0, b: 0 });
}

/// An amount of red, green and blue light.
#[derive(Clone, Copy, Debug, PartialEq, Eq, Structural)]
pub struct Color {
    r: Scalar,
    g: Scalar,
    b: Scalar,
}

impl View for Color {
    type V = Rgb;

    closed spec fn view(&self) -> Rgb {
        Rgb { r: self.r@, g: self.g@, b: self.b@ }
    }
}

impl Color {
    #[verifier::type_invariant]
    spec fn inv(self) -> bool {
        self.r@ >= 0 && self.g@ >= 0 && self.b@ >= 0
    }

    /// The colour with the given components; a negative one counts as zero.
    pub fn new(r: Scalar, g: Scalar, b: Scalar) -> (c: Color)
        ensures
            c@ == (Rgb { r: at_least_zero(r@), g: at_least_zero(g@), b: at_least_zero(b@) }),
    {
        let z: Scalar = Scalar::zero();
        Color {
            r: if r.lt(z) {
                z
            } else {
                r
            },
            g: if g.lt(z) {
                z
            } else {
                g
            },
            b: if b.lt(z) {
                z
            } else {
                b
            },
        }
    }

    pub fn black() -> (c: Color)
        ensures
            c@ == (Rgb { r: 0, g: 0, b: 0 }),
    {
        Color { r: Scalar::zero(), g: Scalar::zero(), b: Scalar::zero() }
    }

    pub fn white() -> (c: Color)
        ensures
            c@ == (Rgb { r: ONE_RAW as int, g: ONE_RAW as int, b: ONE_RAW as int }),
    {
        Color { r: Scalar::one(), g: Scalar::one(), b: Scalar::one() }
    }

    pub fn r(&self) -> (s: Scalar)
        ensures
            s@ == self@.r,
            rgb_valid(self@),
    {
        proof {
            use_type_invariant(self);
            use_type_invariant(&self.r);
            use_type_invariant(&self.g);
            use_type_invariant(&self.b);
        }
        self.r
    }

    pub fn g(&self) -> (s: Scalar)
        ensures
            s@ == self@.g,
            rgb_valid(self@),
    {
        proof {
            use_type_invariant(self);
            use_type_invariant(&self.r);
            use_type_invariant(&self.g);
            use_type_invariant(&self.b);
        }
        self.g
    }

    pub fn b(&self) -> (s: Scalar)
        ensures
            s@ == self@.b,
            rgb_valid(self@),
    {
        proof {
            use_type_invariant(self);
            use_type_invariant(&self.r);
            use_type_invariant(&self.g);
            use_type_invariant(&self.b);
        }
        self.b
    }

    /// The sum, component by component.
    pub fn add(self, rhs: Color) -> (c: Color)
        ensures
            c@ == rgb_add(self@, rhs@),
    {
        proof {
            use_type_invariant(&self);
            use_type_invariant(&rhs);
        }
        Color { r: self.r.add(rhs.r), g: self.g.add(rhs.g), b: self.b.add(rhs.b) }
    }

    /// Adds `rhs` to this colour.
    pub fn add_assign(&mut self, rhs: Color)
        ensures
            final(self)@ == rgb_add(old(self)@, rhs@),
    {
        let sum: Color = self.add(rhs);
        *self = sum;
    }

    /// The product with another colour, component by component.
    pub fn mul(self, rhs: Color) -> (c: Color)
        ensures
            c@ == rgb_mul(self@, rhs@),
    {
        proof {
            use_type_invariant(&self);
            use_type_invariant(&rhs);
            lemma_mul_nonnegative(self.r@, rhs.r@);
            lemma_mul_nonnegative(self.g@, rhs.g@);
            lemma_mul_nonnegative(self.b@, rhs.b@);
        }
        Color { r: self.r.mul(rhs.r), g: self.g.mul(rhs.g), b: self.b.mul(rhs.b) }
    }

    /// Multiplies this colour by another, component by component.
    pub fn mul_assign(&mut self, rhs: Color)
        ensures
            final(self)@ == rgb_mul(old(self)@, rhs@),
    {
        let product: Color = self.mul(rhs);
        *self = product;
    }

    /// The colour times the number `k`; a negative result counts as zero.
    pub fn scale(self, k: Scalar) -> (c: Color)
        ensures
            c@ == rgb_scale(self@, k@),
    {
        Color::new(self.r.mul(k), self.g.mul(k), self.b.mul(k))
    }

    /// Multiplies this colour by the number `k`.
    pub fn scale_assign(&mut self, k: Scalar)
        ensures
            final(self)@ == rgb_scale(old(self)@, k@),
    {
        let scaled: Color = self.scale(k);
        *self = scaled;
    }

    /// The three bytes written for a pixel whose samples were summed into
    /// this colour.
    pub fn write_color(&self, samples_per_pixel: u32) -> (bytes: (u8, u8, u8))
        ensures
            bytes.0 as int == output_byte(self@.r, samples_per_pixel as int),
            bytes.1 as int == output_byte(self@.g, samples_per_pixel as int),
            bytes.2 as int == output_byte(self@.b, samples_per_pixel as int),
    {
        let n: Scalar = Scalar::from_raw((samples_per_pixel as i64) * ONE_RAW);
        (output_channel(self.r, n), output_channel(self.g, n), output_channel(self.b, n))
    }

    /// The three bytes of the colour taken as it is, without averaging or
    /// gamma correction.
    pub fn to_bytes(&self) -> (bytes: (u8, u8, u8))
        ensures
            bytes.0 as int == plain_byte(self@.r),
            bytes.1 as int == plain_byte(self@.g),
            bytes.2 as int == plain_byte(self@.b),
    {
        proof {
            use_type_invariant(self);
        }
        (plain_channel(self.r), plain_channel(self.g), plain_channel(self.b))
    }
}

/// The product of two numbers that are not negative is not negative.
pub proof fn lemma_mul_nonnegative(a: int, b: int)
    requires
        a >= 0,
        b >= 0,
    ensures
        fx_mul(a, b) >= 0,
{
    assert(a * b >= 0) by (nonlinear_arith)
        requires
            a >= 0,
            b >= 0,
    ;
}

fn output_channel(sum: Scalar, samples: Scalar) -> (byte: u8)
    ensures
        byte as int == gamma_byte(sum@, samples@),
{
    let gamma: Scalar = sum.div(samples).sqrt();
    let shown: Scalar = clamp(gamma, Scalar::zero(), Scalar::from_raw(BRIGHTEST_RAW));
    let raw: i64 = shown.raw();
    (raw / 256) as u8
}

fn plain_channel(v: Scalar) -> (byte: u8)
    requires
        v@ >= 0,
    ensures
        byte as int == plain_byte(v@),
{
    let raw: i64 = v.raw();
    let scaled: i64 = (255 * raw) / ONE_RAW;
    if scaled > 255 {
        255
    } else {
        scaled as u8
    }
}

} // verus!
