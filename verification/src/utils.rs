//! Small numeric helpers and the source of random numbers.
use crate::fixed::{clamp_raw, fx_add, fx_mul, fx_sub, trunc_div, Scalar, ONE_RAW};
use rand::Rng;
use vstd::prelude::*;

verus! {

/// The raw value of pi, rounded toward zero.
pub const PI_RAW: i64 = 205887;

/// `degrees * pi / 180`, with one rounding after the product.
pub open spec fn radians_of(degrees: int) -> int {
    clamp_raw(trunc_div(degrees * PI_RAW as int, 180 * ONE_RAW as int))
}

/// The angle in radians.
pub fn degrees_to_radian(degrees: Scalar) -> (r: Scalar)
    ensures
        r@ == radians_of(degrees@),
{
    let pi: i64 = PI_RAW;
    let half_turn: i64 = 180 * ONE_RAW;
    Scalar::from_raw((degrees.raw() * pi) / half_turn)
}

/// Sixteen random bits from the thread's generator: `rand::thread_rng()`
/// followed by `Rng::gen`. Nothing is claimed of the value beyond its type.
#[verifier::external_body]
fn random_bits() -> (bits: u16) {
    rand::thread_rng().gen()
}

/// A random number in `[0, 1)`.
pub fn random_number() -> (r: Scalar)
    ensures
        0 <= r@ < ONE_RAW,
{
    let bits: u16 = random_bits();
    Scalar::from_raw(bits as i64)
}

/// `min + (max - min) * sample`.
pub open spec fn spread(min: int, max: int, sample: int) -> int {
    fx_add(min, fx_mul(fx_sub(max, min), sample))
}

/// The point of `[min, max)` that the sample of `[0, 1)` stands for.
pub fn spread_sample(min: Scalar, max: Scalar, sample: Scalar) -> (r: Scalar)
    ensures
        r@ == spread(min@, max@, sample@),
{
    min.add(max.sub(min).mul(sample))
}

/// A random number between `min` and `max`.
pub fn random_boundaries(min: Scalar, max: Scalar) -> (r: Scalar)
    ensures
        exists|sample: int| 0 <= sample < ONE_RAW && r@ == spread(min@, max@, sample),
{
    let sample: Scalar = random_number();
    spread_sample(min, max, sample)
}

/// `x` brought into `[min, max]`; where `min > max`, values below `min`
/// give `min`.
pub fn clamp(x: Scalar, min: Scalar, max: Scalar) -> (r: Scalar)
    ensures
        r == if x@ < min@ {
            min
        } else if x@ > max@ {
            max
        } else {
            x
        },
{
    if x.lt(min) {
        min
    } else if x.gt(max) {
        max
    } else {
        x
    }
}

} // verus!
