//! Arithmetic on single encrypted samples: weighting, interpolation, averaging
//! and inversion, each with what it does to the plaintext.
use crate::crypt::scheme::{
    add_parallelized, computable, decryption, join, neg_parallelized, paired, scalar_mul_parallelized,
    scalar_sub_parallelized, sound, unchecked_add, unchecked_scalar_right_shift_parallelized,
    unchecked_small_scalar_mul_parallelized, ClientKeyType, EncryptedImageData, ServerKeyType,
    CLEAN_LOAD, MAX_LOAD, PLAIN_MODULUS,
};
use vstd::arithmetic::power2::{lemma2_to64, pow2};
use vstd::prelude::*;

verus! {

/// Fraction bits of a weight once it is turned into an integer factor.
pub const FRACTION_BITS: usize = 8;

/// The largest sample of an image.
pub const SAMPLE_MAX: u64 = 255;

/// A public weight between zero and one, held exactly as a fraction.
#[derive(Clone, Copy, Debug, PartialEq, Eq, Structural)]
pub struct Weight {
    pub numerator: u32,
    pub denominator: u32,
}

impl Weight {
    /// The fraction is defined and lies between zero and one.
    pub open spec fn wf(self) -> bool {
        0 < self.denominator && self.numerator <= self.denominator
    }

    /// The weight is exactly one.
    pub open spec fn is_one(self) -> bool {
        self.numerator == self.denominator
    }

    /// The weight is exactly zero.
    pub open spec fn is_zero(self) -> bool {
        self.numerator == 0
    }

    /// The weight as an integer factor with eight fraction bits: the integer
    /// closest to 256 times the weight, halves going up.
    pub open spec fn factor(self) -> int {
        (512 * self.numerator + self.denominator) / (2 * self.denominator)
    }

    /// What the weight leaves of one.
    pub open spec fn rest(self) -> Weight {
        Weight {
            numerator: (self.denominator - self.numerator) as u32,
            denominator: self.denominator,
        }
    }

    /// The weight `numerator / denominator`.
    pub fn new(numerator: u32, denominator: u32) -> (weight: Weight)
        requires
            0 < denominator,
            numerator <= denominator,
        ensures
            weight.numerator == numerator,
            weight.denominator == denominator,
            weight.wf(),
    {
        Weight { numerator, denominator }
    }

    /// One third.
    pub fn one_third() -> (weight: Weight)
        ensures
            weight == (Weight { numerator: 1, denominator: 3 }),
            weight.wf(),
            weight.factor() == 85,
    {
        assert(515int / 6 == 85);
        Weight { numerator: 1, denominator: 3 }
    }

    /// What the weight leaves of one.
    pub fn complement(self) -> (other: Weight)
        requires
            self.wf(),
        ensures
            other == self.rest(),
            other.wf(),
    {
        Weight { numerator: self.denominator - self.numerator, denominator: self.denominator }
    }

    /// The weight as an integer factor with eight fraction bits.
    pub fn to_integer(self) -> (factor: u64)
        requires
            self.wf(),
        ensures
            factor == self.factor(),
            factor <= 256,
    {
        let doubled: u64 = 2 * self.denominator as u64;
        let scaled: u64 = 512 * self.numerator as u64 + self.denominator as u64;
        proof {
            lemma_factor_bounded(self.numerator as int, self.denominator as int);
        }
        scaled / doubled
    }
}

/// The integer factor of a weight is at most 256, and 256 times the weight
/// lies within one half of it.
pub proof fn lemma_factor_bounded(numerator: int, denominator: int)
    requires
        0 < denominator,
        0 <= numerator <= denominator,
    ensures
        0 <= (512 * numerator + denominator) / (2 * denominator) <= 256,
        2 * denominator * ((512 * numerator + denominator) / (2 * denominator)) <= 512 * numerator
            + denominator,
        512 * numerator + denominator < 2 * denominator * ((512 * numerator + denominator) / (2
            * denominator)) + 2 * denominator,
{
    let scaled = 512 * numerator + denominator;
    let doubled = 2 * denominator;
    vstd::arithmetic::div_mod::lemma_fundamental_div_mod(scaled, doubled);
    vstd::arithmetic::div_mod::lemma_mod_bound(scaled, doubled);
    let quotient = scaled / doubled;
    assert(scaled == doubled * quotient + scaled % doubled);
    assert(quotient <= 256) by (nonlinear_arith)
        requires
            scaled == doubled * quotient + scaled % doubled,
            0 <= scaled % doubled,
            scaled <= 513 * denominator,
            doubled == 2 * denominator,
            0 < denominator,
    ;
    assert(0 <= quotient) by (nonlinear_arith)
        requires
            scaled == doubled * quotient + scaled % doubled,
            scaled % doubled < doubled,
            0 <= scaled,
            0 < doubled,
    ;
}

/// What weighting does to a plaintext: nothing where the weight is one, zero
/// where it is zero; else the plaintext times the weight's integer factor,
/// within the plaintext window, its eight fraction bits dropped.
pub open spec fn weighted_value(value: int, weight: Weight) -> int {
    if weight.is_one() {
        value
    } else if weight.is_zero() {
        0
    } else {
        ((value * weight.factor()) % (PLAIN_MODULUS as int)) / 256
    }
}

/// The block load that weighting leaves.
pub open spec fn weighted_load(load: nat, weight: Weight) -> nat {
    if weight.is_one() {
        load
    } else if weight.is_zero() {
        0
    } else {
        CLEAN_LOAD as nat
    }
}

/// What linear interpolation does to two plaintexts: the first weighted by
/// what the weight leaves of one, plus the second weighted by the weight.
pub open spec fn interpolated_value(first: int, second: int, weight: Weight) -> int {
    (weighted_value(first, weight.rest()) + weighted_value(second, weight)) % (PLAIN_MODULUS as int)
}

/// What interpolation over a square of four plaintexts does: along the upper
/// and the lower edge by the horizontal weight, then between the two by the
/// vertical one.
pub open spec fn bilinear_value(
    upper_left: int,
    upper_right: int,
    lower_left: int,
    lower_right: int,
    x_weight: Weight,
    y_weight: Weight,
) -> int {
    interpolated_value(
        interpolated_value(upper_left, upper_right, x_weight),
        interpolated_value(lower_left, lower_right, x_weight),
        y_weight,
    )
}

/// The sum of three plaintexts within the plaintext window.
pub open spec fn sum_value(first: int, second: int, third: int) -> int {
    (first + second + third) % (PLAIN_MODULUS as int)
}

/// What averaging does to three plaintexts: their sum weighted by one third.
pub open spec fn average_value(first: int, second: int, third: int) -> int {
    weighted_value(sum_value(first, second, third), Weight { numerator: 1, denominator: 3 })
}

/// What inversion does to a plaintext: 255 less the plaintext, within the
/// plaintext window.
pub open spec fn inverted_value(value: int) -> int {
    (SAMPLE_MAX - value) % (PLAIN_MODULUS as int)
}

/// `product` is `x` weighted by `weight` under `key`: of the layout that the
/// key computes on, `x` itself where the weight is one, and under every client
/// key paired with `key` for which `x` is sound and not loaded beyond what
/// carries can be cleared from, sound and decrypting to the weighted plaintext.
pub open spec fn is_weighted(
    key: ServerKeyType,
    x: EncryptedImageData,
    weight: Weight,
    product: EncryptedImageData,
) -> bool {
    &&& computable(key, product)
    &&& weight.is_one() ==> product == x
    &&& forall|client: ClientKeyType, load: nat|
        paired(client, key) && #[trigger] sound(client, x, load) && load <= MAX_LOAD ==> {
            &&& sound(client, product, weighted_load(load, weight))
            &&& decryption(client, product) == weighted_value(decryption(client, x) as int, weight)
        }
}

/// The sample weighted by `weight`: a copy where the weight is one, an
/// encryption of zero where it is zero, else the sample times the weight's
/// integer factor, shifted right by the fraction bits.
pub fn weight_multiplication(x: &EncryptedImageData, weight: Weight, key: &ServerKeyType) -> (product:
    EncryptedImageData)
    requires
        weight.wf(),
        computable(*key, *x),
    ensures
        is_weighted(*key, *x, weight, product),
{
    if weight.numerator == weight.denominator {
        return x.clone();
    }
    if weight.numerator == 0 {
        let zero = unchecked_small_scalar_mul_parallelized(key, x, 0);
        assert forall|client: ClientKeyType, load: nat|
            paired(client, *key) && #[trigger] sound(client, *x, load) && load <= MAX_LOAD implies {
            &&& sound(client, zero, weighted_load(load, weight))
            &&& decryption(client, zero) == weighted_value(decryption(client, *x) as int, weight)
        } by {
            assert(load * 0 == 0);
            assert(decryption(client, *x) * 0 == 0);
        }
        return zero;
    }
    let factor = weight.to_integer();
    let scaled = scalar_mul_parallelized(key, x, factor);
    let shifted = unchecked_scalar_right_shift_parallelized(key, &scaled, FRACTION_BITS);
    proof {
        lemma2_to64();
        assert(pow2(FRACTION_BITS as nat) == 256);
    }
    shifted
}

/// `point` is the point between `x` and `y` that `weight` picks under `key`: of
/// the layout that the key computes on, and under every client key paired
/// with `key` for which `x` and `y` are sound and not loaded beyond what
/// carries can be cleared from, sound, with empty carries, and decrypting to
/// the interpolated plaintext.
pub open spec fn is_interpolated(
    key: ServerKeyType,
    x: EncryptedImageData,
    y: EncryptedImageData,
    weight: Weight,
    point: EncryptedImageData,
) -> bool {
    &&& computable(key, point)
    &&& forall|client: ClientKeyType, x_load: nat, y_load: nat|
        paired(client, key) && #[trigger] sound(client, x, x_load) && #[trigger] sound(
            client,
            y,
            y_load,
        ) && x_load <= MAX_LOAD && y_load <= MAX_LOAD ==> {
            &&& sound(client, point, CLEAN_LOAD as nat)
            &&& decryption(client, point) == interpolated_value(
                decryption(client, x) as int,
                decryption(client, y) as int,
                weight,
            )
        }
}

/// The point between two samples that `weight` picks: all of `x` at weight
/// zero, all of `y` at weight one. The two samples are weighted at the same
/// time.
pub fn linear_interpolation(
    x: EncryptedImageData,
    y: EncryptedImageData,
    weight: Weight,
    key: &ServerKeyType,
) -> (point: EncryptedImageData)
    requires
        weight.wf(),
        computable(*key, x),
        computable(*key, y),
    ensures
        is_interpolated(*key, x, y, weight, point),
{
    let rest = weight.complement();
    let weigh_x = || -> (product: EncryptedImageData)
        requires
            rest.wf(),
            computable(*key, x),
        ensures
            is_weighted(*key, x, rest, product),
        { weight_multiplication(&x, rest, key) };
    let weigh_y = || -> (product: EncryptedImageData)
        requires
            weight.wf(),
            computable(*key, y),
        ensures
            is_weighted(*key, y, weight, product),
        { weight_multiplication(&y, weight, key) };
    let (x_scaled, y_scaled) = join(weigh_x, weigh_y);
    let point = add_parallelized(key, &x_scaled, &y_scaled);
    assert forall|client: ClientKeyType, x_load: nat, y_load: nat|
        paired(client, *key) && #[trigger] sound(client, x, x_load) && #[trigger] sound(
            client,
            y,
            y_load,
        ) && x_load <= MAX_LOAD && y_load <= MAX_LOAD implies {
        &&& sound(client, point, CLEAN_LOAD as nat)
        &&& decryption(client, point) == interpolated_value(
            decryption(client, x) as int,
            decryption(client, y) as int,
            weight,
        )
    } by {
        assert(sound(client, x_scaled, weighted_load(x_load, weight.rest())));
        assert(sound(client, y_scaled, weighted_load(y_load, weight)));
    }
    point
}

/// The point inside a square of four samples that the two weights pick:
/// between `a` and `b` along the upper edge and between `c` and `d` along the
/// lower one by `x_weight`, both at the same time, then between those two by
/// `y_weight`.
pub fn bicubic_interpolation(
    a: EncryptedImageData,
    b: EncryptedImageData,
    c: EncryptedImageData,
    d: EncryptedImageData,
    x_weight: Weight,
    y_weight: Weight,
    key: &ServerKeyType,
) -> (point: EncryptedImageData)
    requires
        x_weight.wf(),
        y_weight.wf(),
        computable(*key, a),
        computable(*key, b),
        computable(*key, c),
        computable(*key, d),
    ensures
        computable(*key, point),
        forall|client: ClientKeyType|
            #[trigger] paired(client, *key) && sound(client, a, CLEAN_LOAD as nat) && sound(
                client,
                b,
                CLEAN_LOAD as nat,
            ) && sound(client, c, CLEAN_LOAD as nat) && sound(client, d, CLEAN_LOAD as nat) ==> {
                &&& sound(client, point, CLEAN_LOAD as nat)
                &&& decryption(client, point) == bilinear_value(
                    decryption(client, a) as int,
                    decryption(client, b) as int,
                    decryption(client, c) as int,
                    decryption(client, d) as int,
                    x_weight,
                    y_weight,
                )
            },
{
    let along_upper = || -> (point: EncryptedImageData)
        requires
            x_weight.wf(),
            computable(*key, a),
            computable(*key, b),
        ensures
            is_interpolated(*key, a, b, x_weight, point),
        { linear_interpolation(a, b, x_weight, key) };
    let along_lower = || -> (point: EncryptedImageData)
        requires
            x_weight.wf(),
            computable(*key, c),
            computable(*key, d),
        ensures
            is_interpolated(*key, c, d, x_weight, point),
        { linear_interpolation(c, d, x_weight, key) };
    let (e, f) = join(along_upper, along_lower);
    linear_interpolation(e, f, y_weight, key)
}

/// The sum of three samples, no carry moved.
pub fn add_three(x: [&EncryptedImageData; 3], key: &ServerKeyType) -> (sum: EncryptedImageData)
    requires
        computable(*key, *x[0]),
        computable(*key, *x[1]),
        computable(*key, *x[2]),
    ensures
        computable(*key, sum),
        forall|client: ClientKeyType, first: nat, second: nat, third: nat|
            paired(client, *key) && #[trigger] sound(client, *x[0], first) && #[trigger] sound(
                client,
                *x[1],
                second,
            ) && #[trigger] sound(client, *x[2], third) && first + second + third <= MAX_LOAD ==> {
                &&& sound(client, sum, first + second + third)
                &&& decryption(client, sum) == sum_value(
                    decryption(client, *x[0]) as int,
                    decryption(client, *x[1]) as int,
                    decryption(client, *x[2]) as int,
                )
            },
{
    let front = unchecked_add(key, x[0], x[1]);
    unchecked_add(key, &front, x[2])
}

/// The average of three samples: their sum weighted by one third.
pub fn average_three(x: [&EncryptedImageData; 3], key: &ServerKeyType) -> (average:
    EncryptedImageData)
    requires
        computable(*key, *x[0]),
        computable(*key, *x[1]),
        computable(*key, *x[2]),
    ensures
        computable(*key, average),
        forall|client: ClientKeyType|
            #[trigger] paired(client, *key) && sound(client, *x[0], CLEAN_LOAD as nat) && sound(
                client,
                *x[1],
                CLEAN_LOAD as nat,
            ) && sound(client, *x[2], CLEAN_LOAD as nat) ==> {
                &&& sound(client, average, CLEAN_LOAD as nat)
                &&& decryption(client, average) == average_value(
                    decryption(client, *x[0]) as int,
                    decryption(client, *x[1]) as int,
                    decryption(client, *x[2]) as int,
                )
            },
{
    let sum = add_three(x, key);
    weight_multiplication(&sum, Weight::one_third(), key)
}

/// The sample taken from 255.
pub fn invert_u8(x: &EncryptedImageData, key: &ServerKeyType) -> (inverse: EncryptedImageData)
    requires
        computable(*key, *x),
    ensures
        computable(*key, inverse),
        forall|client: ClientKeyType, load: nat|
            paired(client, *key) && #[trigger] sound(client, *x, load) && load <= MAX_LOAD ==> {
                &&& sound(client, inverse, CLEAN_LOAD as nat)
                &&& decryption(client, inverse) == inverted_value(decryption(client, *x) as int)
            },
{
    let lowered = scalar_sub_parallelized(key, x, SAMPLE_MAX);
    neg_parallelized(key, &lowered)
}

/// A third of `sum`, rounded to the nearest integer.
pub open spec fn rounded_third(sum: int) -> int {
    (2 * sum + 3) / 6
}

/// The average of three 8-bit values as the scheme computes it is their sum
/// times 85, less its eight fraction bits. It never exceeds the rounded third
/// of the sum, falls short of it by at most two, and by at most one unless
/// the sum is at least 515 and leaves two when divided by three.
pub proof fn lemma_average_close(red: u8, green: u8, blue: u8)
    ensures
        average_value(red as int, green as int, blue as int) == (red + green + blue) * 85 / 256,
        0 <= average_value(red as int, green as int, blue as int) <= 254,
        rounded_third(red + green + blue) - 2 <= average_value(
            red as int,
            green as int,
            blue as int,
        ) <= rounded_third(red + green + blue),
        !(red + green + blue >= 515 && (red + green + blue) % 3 == 2) ==> rounded_third(
            red + green + blue,
        ) - 1 <= average_value(red as int, green as int, blue as int),
{
    let sum: int = red + green + blue;
    assert(515int / 6 == 85);
    assert(sum_value(red as int, green as int, blue as int) == sum);
    assert((sum * 85) % 65536 == sum * 85);
}

/// What interpolating between a value and itself loses to rounding.
pub open spec fn interpolation_loss(value: int, weight: Weight) -> int {
    value - interpolated_value(value, value, weight)
}

/// The integer factors of a weight and of what it leaves of one add up to 256,
/// or to 257 where both were rounded up.
pub proof fn lemma_factors_add_up(weight: Weight)
    requires
        weight.wf(),
    ensures
        256 <= weight.factor() + weight.rest().factor() <= 257,
        0 <= weight.factor() <= 256,
        0 <= weight.rest().factor() <= 256,
{
    let n = weight.numerator as int;
    let d = weight.denominator as int;
    let f = weight.factor();
    let g = weight.rest().factor();
    lemma_factor_bounded(n, d);
    lemma_factor_bounded(d - n, d);
    assert(256 <= f + g <= 257) by (nonlinear_arith)
        requires
            0 < d,
            2 * d * f <= 512 * n + d,
            512 * n + d < 2 * d * f + 2 * d,
            2 * d * g <= 512 * (d - n) + d,
            512 * (d - n) + d < 2 * d * g + 2 * d,
    ;
}

/// Interpolating between an 8-bit value and itself gives the value back or one
/// less; it gives the value back where the weight is zero or one.
pub proof fn lemma_interpolation_of_equals(value: int, weight: Weight)
    requires
        0 <= value <= 255,
        weight.wf(),
    ensures
        0 <= interpolation_loss(value, weight) <= 1,
        interpolation_loss(value, weight) <= value,
        weight.is_zero() || weight.is_one() ==> interpolation_loss(value, weight) == 0,
{
    if weight.is_zero() || weight.is_one() {
        assert(value % 65536 == value);
    } else {
        lemma_factors_add_up(weight);
        let f = weight.factor();
        let g = weight.rest().factor();
        let a = value * g;
        let b = value * f;
        assert(0 <= a <= 65280 && 0 <= b <= 65280 && 256 * value <= a + b <= 257 * value)
            by (nonlinear_arith)
            requires
                a == value * g,
                b == value * f,
                0 <= value <= 255,
                0 <= f <= 256,
                0 <= g <= 256,
                256 <= f + g <= 257,
        ;
        assert(a % 65536 == a && b % 65536 == b);
        assert(weighted_value(value, weight.rest()) == a / 256);
        assert(weighted_value(value, weight) == b / 256);
    }
}

/// Interpolating over a square whose four corners hold the same 8-bit value
/// gives the value less what the two steps lose to rounding: at most one
/// along each axis, and nothing along an axis whose weight is zero.
pub proof fn lemma_bilinear_of_equals(value: int, x_weight: Weight, y_weight: Weight)
    requires
        0 <= value <= 255,
        x_weight.wf(),
        y_weight.wf(),
    ensures
        bilinear_value(value, value, value, value, x_weight, y_weight) == value - interpolation_loss(
            value,
            x_weight,
        ) - interpolation_loss(value - interpolation_loss(value, x_weight), y_weight),
        0 <= bilinear_value(value, value, value, value, x_weight, y_weight) <= value,
        value - 2 <= bilinear_value(value, value, value, value, x_weight, y_weight),
        x_weight.is_zero() || y_weight.is_zero() ==> value - 1 <= bilinear_value(
            value,
            value,
            value,
            value,
            x_weight,
            y_weight,
        ),
        x_weight.is_zero() && y_weight.is_zero() ==> bilinear_value(
            value,
            value,
            value,
            value,
            x_weight,
            y_weight,
        ) == value,
{
    lemma_interpolation_of_equals(value, x_weight);
    let edge = interpolated_value(value, value, x_weight);
    lemma_interpolation_of_equals(edge, y_weight);
}

} // verus!
