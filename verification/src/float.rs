//! Binary floating-point lanes, held as their bits.
//!
//! A lane is a sign, an exponent field and a mantissa field, laid out as
//! IEEE 754 lays out its binary formats. What such a lane means is stated over
//! those three fields: whether it is a number at all, how two lanes compare,
//! and which integer is left when the fraction is cut off. Nothing here
//! rounds: sums, products and the like are not operations of this library.
use vstd::prelude::*;
use vstd::arithmetic::div_mod::{lemma_basic_div, lemma_fundamental_div_mod, lemma_mod_bound};
use vstd::arithmetic::power2::{
    lemma2_to64,
    lemma2_to64_rest,
    lemma_pow2_adds,
    lemma_pow2_pos,
    lemma_pow2_strictly_increases,
    pow2,
};
use vstd::bits::{lemma_u64_shl_is_mul, lemma_u64_shr_is_div};
use crate::cast::SimdCast;
use crate::element::{
    clamp_into,
    lemma_from_value_of_value,
    lemma_wrapped_value,
    saturated,
    SimdElement,
};

verus! {

/// The fields of a binary floating-point format and of a lane in it.
pub trait FloatModel: SimdElement {
    /// The number of bits of the mantissa field.
    spec fn mantissa_width() -> nat;

    /// The greatest value of the exponent field: that of infinities and of
    /// what is not a number.
    spec fn max_exponent() -> int;

    /// What the exponent field holds for the exponent 0.
    spec fn bias() -> int;

    /// The sign: true for the lanes with the sign bit set.
    spec fn sign_bit(self) -> bool;

    /// The exponent field.
    spec fn exponent(self) -> int;

    /// The mantissa field.
    spec fn mantissa(self) -> int;

    /// The lane with the given fields.
    spec fn from_parts(sign: bool, exponent: int, mantissa: int) -> Self;

    /// The format is the one of 32 bits or the one of 64 bits.
    proof fn lemma_layout()
        ensures
            Self::mantissa_width() == 23 && Self::max_exponent() == 255 && Self::bias() == 127
                || Self::mantissa_width() == 52 && Self::max_exponent() == 2047 && Self::bias()
                == 1023,
    ;

    /// The fields of a lane are within their widths, and the lane is the one
    /// with its fields.
    proof fn lemma_parts(self)
        ensures
            0 <= self.exponent() <= Self::max_exponent(),
            0 <= self.mantissa() < pow2(Self::mantissa_width()),
            Self::from_parts(self.sign_bit(), self.exponent(), self.mantissa()) == self,
    ;

    /// The lane made of fields within their widths has those fields.
    proof fn lemma_from_parts(sign: bool, exponent: int, mantissa: int)
        requires
            0 <= exponent <= Self::max_exponent(),
            0 <= mantissa < pow2(Self::mantissa_width()),
        ensures
            Self::from_parts(sign, exponent, mantissa).sign_bit() == sign,
            Self::from_parts(sign, exponent, mantissa).exponent() == exponent,
            Self::from_parts(sign, exponent, mantissa).mantissa() == mantissa,
    ;
}

/// A binary floating-point kind: a lane whose fields can be read and put
/// together.
pub trait FloatElement: FloatModel {
    /// The number of bits of the mantissa field.
    fn mantissa_width_of() -> (r: u32)
        ensures
            r == Self::mantissa_width(),
    ;

    /// The greatest value of the exponent field.
    fn max_exponent_of() -> (r: u32)
        ensures
            r == Self::max_exponent(),
    ;

    /// What the exponent field holds for the exponent 0.
    fn bias_of() -> (r: u32)
        ensures
            r == Self::bias(),
    ;

    /// Whether the sign bit is set.
    fn sign_of(self) -> (r: bool)
        ensures
            r == self.sign_bit(),
    ;

    /// The exponent field.
    fn exponent_of(self) -> (r: u32)
        ensures
            r == self.exponent(),
    ;

    /// The mantissa field.
    fn mantissa_of(self) -> (r: u64)
        ensures
            r == self.mantissa(),
    ;

    /// The lane with the given fields, each within its width.
    fn make(sign: bool, exponent: u32, mantissa: u64) -> (r: Self)
        requires
            exponent <= Self::max_exponent(),
            mantissa < pow2(Self::mantissa_width()),
        ensures
            r == Self::from_parts(sign, exponent as int, mantissa as int),
    ;
}

/// Not a number: the exponent field is at its greatest and the mantissa field
/// is not zero.
pub open spec fn is_nan<T: FloatModel>(x: T) -> bool {
    x.exponent() == T::max_exponent() && x.mantissa() != 0
}

/// An infinity: the exponent field is at its greatest and the mantissa field
/// is zero.
pub open spec fn is_infinite<T: FloatModel>(x: T) -> bool {
    x.exponent() == T::max_exponent() && x.mantissa() == 0
}

/// A number that is no infinity.
pub open spec fn is_finite<T: FloatModel>(x: T) -> bool {
    x.exponent() < T::max_exponent()
}

/// Zero, of either sign.
pub open spec fn is_zero<T: FloatModel>(x: T) -> bool {
    x.exponent() == 0 && x.mantissa() == 0
}

/// A number too near zero for the full precision of the format: the exponent
/// field is zero and the mantissa field is not.
pub open spec fn is_subnormal<T: FloatModel>(x: T) -> bool {
    x.exponent() == 0 && x.mantissa() != 0
}

/// A number with the full precision of the format: neither zero, subnormal,
/// infinite nor not a number.
pub open spec fn is_normal<T: FloatModel>(x: T) -> bool {
    0 < x.exponent() < T::max_exponent()
}

/// Whether `a` is nearer to zero than `b`, signs left aside. Exponent and
/// mantissa order the magnitudes as they order pairs.
pub open spec fn magnitude_lt<T: FloatModel>(a: T, b: T) -> bool {
    a.exponent() < b.exponent() || (a.exponent() == b.exponent() && a.mantissa() < b.mantissa())
}

/// Whether `a` is less than `b`. What is not a number is neither less nor
/// greater than anything, and the two zeros are equal.
pub open spec fn float_lt<T: FloatModel>(a: T, b: T) -> bool {
    &&& !is_nan(a)
    &&& !is_nan(b)
    &&& if a.sign_bit() && !b.sign_bit() {
        !(is_zero(a) && is_zero(b))
    } else if !a.sign_bit() && b.sign_bit() {
        false
    } else if a.sign_bit() {
        magnitude_lt(b, a)
    } else {
        magnitude_lt(a, b)
    }
}

/// Whether `a` equals `b` as a number. What is not a number equals nothing,
/// not even itself, and the two zeros are equal.
pub open spec fn float_eq<T: FloatModel>(a: T, b: T) -> bool {
    &&& !is_nan(a)
    &&& !is_nan(b)
    &&& (a == b || (is_zero(a) && is_zero(b)))
}

/// Whether `a` is less than or equal to `b`.
pub open spec fn float_le<T: FloatModel>(a: T, b: T) -> bool {
    float_lt(a, b) || float_eq(a, b)
}

/// The greater of two lanes. If one is not a number, the other.
pub open spec fn float_max<T: FloatModel>(a: T, b: T) -> T {
    if is_nan(a) {
        b
    } else if is_nan(b) {
        a
    } else if float_lt(a, b) {
        b
    } else {
        a
    }
}

/// The lesser of two lanes. If one is not a number, the other.
pub open spec fn float_min<T: FloatModel>(a: T, b: T) -> T {
    if is_nan(a) {
        b
    } else if is_nan(b) {
        a
    } else if float_lt(b, a) {
        b
    } else {
        a
    }
}

/// The lane with the magnitude of `x` and the sign asked for.
pub open spec fn with_sign<T: FloatModel>(x: T, sign: bool) -> T {
    T::from_parts(sign, x.exponent(), x.mantissa())
}

/// The lane that stands for 1 with the sign asked for.
pub open spec fn signed_one<T: FloatModel>(sign: bool) -> T {
    T::from_parts(sign, T::bias(), 0)
}

/// The sign of a lane as a lane: 1 with the sign of `x`, and `x` itself if
/// it is not a number.
pub open spec fn float_signum<T: FloatModel>(x: T) -> T {
    if is_nan(x) {
        x
    } else {
        signed_one::<T>(x.sign_bit())
    }
}

/// The mantissa with the leading bit that the field leaves out.
pub open spec fn significand<T: FloatModel>(x: T) -> int {
    pow2(T::mantissa_width()) + x.mantissa()
}

/// The integer that is left of a lane when its fraction is cut off. What is
/// not a number gives 0; an infinity gives a power of two above every finite
/// lane, with its sign.
pub open spec fn int_part<T: FloatModel>(x: T) -> int {
    let point = T::bias() + T::mantissa_width();
    let magnitude: int = if x.exponent() == T::max_exponent() {
        if x.mantissa() == 0 {
            pow2(T::max_exponent() as nat) as int
        } else {
            0
        }
    } else if x.exponent() >= point {
        significand(x) * pow2((x.exponent() - point) as nat)
    } else if x.exponent() >= 1 {
        significand(x) / (pow2((point - x.exponent()) as nat) as int)
    } else {
        0
    };
    if x.sign_bit() {
        -magnitude
    } else {
        magnitude
    }
}

/// The place of the highest bit set in a number other than zero: the `p` with
/// `pow2(p) <= m < pow2(p + 1)`.
pub open spec fn leading_bit(m: nat) -> nat
    decreases m,
{
    if m < 2 {
        0
    } else {
        1 + leading_bit(m / 2)
    }
}

/// `m` divided by 2 to the `q` and rounded to the nearest integer; where two
/// integers are equally near, to the even one.
pub open spec fn rounded_shift(m: int, q: nat) -> int {
    let unit = pow2(q) as int;
    let floor = m / unit;
    let rest = m % unit;
    if 2 * rest > unit || (2 * rest == unit && floor % 2 == 1) {
        floor + 1
    } else {
        floor
    }
}

/// The number of the format that is nearest to an integer; where two numbers
/// are equally near, the one with the even mantissa. Zero gives the zero
/// without the sign bit.
pub open spec fn nearest_float<T: FloatModel>(value: int) -> T {
    let sign = value < 0;
    let m: int = if sign {
        -value
    } else {
        value
    };
    let width = T::mantissa_width();
    if m == 0 {
        T::from_parts(false, 0, 0)
    } else {
        let p = leading_bit(m as nat);
        if p <= width {
            T::from_parts(sign, T::bias() + p, m * pow2((width - p) as nat) - pow2(width))
        } else {
            let s = rounded_shift(m, (p - width) as nat);
            if s == 2 * pow2(width) {
                T::from_parts(sign, T::bias() + p + 1, 0)
            } else {
                T::from_parts(sign, T::bias() + p, s - pow2(width))
            }
        }
    }
}

/// `leading_bit` is the place of the highest bit set.
pub proof fn lemma_leading_bit(m: nat)
    requires
        m > 0,
    ensures
        pow2(leading_bit(m)) <= m < pow2(leading_bit(m) + 1),
    decreases m,
{
    lemma2_to64();
    if m >= 2 {
        lemma_leading_bit(m / 2);
        let p = leading_bit(m / 2);
        lemma_pow2_adds(p, 1);
        lemma_pow2_adds(p + 1, 1);
    }
}

/// `m` is a lane of `lanes` that is a number and that no lane is greater
/// than; or, if no lane is a number, some lane.
pub open spec fn is_float_max_of<T: FloatModel>(lanes: Seq<T>, m: T) -> bool {
    &&& exists|i: int| 0 <= i < lanes.len() && lanes[i] == m
    &&& (forall|i: int| 0 <= i < lanes.len() ==> is_nan(#[trigger] lanes[i])) ==> is_nan(m)
    &&& (exists|i: int| 0 <= i < lanes.len() && !is_nan(#[trigger] lanes[i])) ==> !is_nan(m)
        && forall|i: int| 0 <= i < lanes.len() ==> !float_lt(m, #[trigger] lanes[i])
}

/// `m` is a lane of `lanes` that is a number and that no lane is less than;
/// or, if no lane is a number, some lane.
pub open spec fn is_float_min_of<T: FloatModel>(lanes: Seq<T>, m: T) -> bool {
    &&& exists|i: int| 0 <= i < lanes.len() && lanes[i] == m
    &&& (forall|i: int| 0 <= i < lanes.len() ==> is_nan(#[trigger] lanes[i])) ==> is_nan(m)
    &&& (exists|i: int| 0 <= i < lanes.len() && !is_nan(#[trigger] lanes[i])) ==> !is_nan(m)
        && forall|i: int| 0 <= i < lanes.len() ==> !float_lt(#[trigger] lanes[i], m)
}

/// Among numbers, "less than" is an order: nothing is less than itself, and
/// what is less than something less than a third is less than the third; and
/// of two numbers that are not equal one is less than the other.
pub proof fn lemma_float_order<T: FloatModel>(a: T, b: T, c: T)
    ensures
        !float_lt(a, a),
        float_lt(a, b) && float_lt(b, c) ==> float_lt(a, c),
        float_lt(a, b) ==> !float_lt(b, a),
        !is_nan(a) && !is_nan(b) ==> float_lt(a, b) || float_lt(b, a) || float_eq(a, b),
        !float_lt(a, b) && !float_lt(b, c) && !is_nan(a) && !is_nan(b) && !is_nan(c) ==> !float_lt(
            a,
            c,
        ),
{
    a.lemma_parts();
    b.lemma_parts();
    c.lemma_parts();
    if !is_nan(a) && !is_nan(b) && a.sign_bit() == b.sign_bit() && a.exponent() == b.exponent()
        && a.mantissa() == b.mantissa() {
        assert(a == b);
    }
}

/// Whether a lane is not a number.
pub fn lane_is_nan<T: FloatElement>(x: T) -> (r: bool)
    ensures
        r == is_nan(x),
{
    x.exponent_of() == T::max_exponent_of() && x.mantissa_of() != 0
}

/// Whether a lane is an infinity.
pub fn lane_is_infinite<T: FloatElement>(x: T) -> (r: bool)
    ensures
        r == is_infinite(x),
{
    x.exponent_of() == T::max_exponent_of() && x.mantissa_of() == 0
}

/// Whether a lane is a number that is no infinity.
pub fn lane_is_finite<T: FloatElement>(x: T) -> (r: bool)
    ensures
        r == is_finite(x),
{
    proof {
        x.lemma_parts();
    }
    x.exponent_of() != T::max_exponent_of()
}

/// Whether a lane is subnormal.
pub fn lane_is_subnormal<T: FloatElement>(x: T) -> (r: bool)
    ensures
        r == is_subnormal(x),
{
    x.exponent_of() == 0 && x.mantissa_of() != 0
}

/// Whether a lane is normal.
pub fn lane_is_normal<T: FloatElement>(x: T) -> (r: bool)
    ensures
        r == is_normal(x),
{
    proof {
        x.lemma_parts();
    }
    let exponent = x.exponent_of();
    exponent != 0 && exponent != T::max_exponent_of()
}

/// Whether a lane is less than another.
pub fn lane_float_lt<T: FloatElement>(a: T, b: T) -> (r: bool)
    ensures
        r == float_lt(a, b),
{
    if lane_is_nan(a) || lane_is_nan(b) {
        return false;
    }
    let (ea, ma) = (a.exponent_of(), a.mantissa_of());
    let (eb, mb) = (b.exponent_of(), b.mantissa_of());
    match (a.sign_of(), b.sign_of()) {
        (true, false) => !(ea == 0 && ma == 0 && eb == 0 && mb == 0),
        (false, true) => false,
        (true, true) => eb < ea || (eb == ea && mb < ma),
        (false, false) => ea < eb || (ea == eb && ma < mb),
    }
}

/// Whether a lane equals another as a number.
pub fn lane_float_eq<T: FloatElement>(a: T, b: T) -> (r: bool)
    ensures
        r == float_eq(a, b),
{
    if lane_is_nan(a) || lane_is_nan(b) {
        return false;
    }
    let (ea, ma) = (a.exponent_of(), a.mantissa_of());
    let (eb, mb) = (b.exponent_of(), b.mantissa_of());
    proof {
        a.lemma_parts();
        b.lemma_parts();
    }
    (ea == 0 && ma == 0 && eb == 0 && mb == 0) || (a.sign_of() == b.sign_of() && ea == eb && ma
        == mb)
}

/// The lane with the magnitude of `x` and the sign asked for.
pub fn lane_with_sign<T: FloatElement>(x: T, sign: bool) -> (r: T)
    ensures
        r == with_sign(x, sign),
{
    proof {
        x.lemma_parts();
    }
    T::make(sign, x.exponent_of(), x.mantissa_of())
}

/// The sign of a lane as a lane.
pub fn lane_float_signum<T: FloatElement>(x: T) -> (r: T)
    ensures
        r == float_signum(x),
{
    if lane_is_nan(x) {
        x
    } else {
        proof {
            T::lemma_layout();
            lemma_pow2_pos(T::mantissa_width());
        }
        T::make(x.sign_of(), T::bias_of(), 0)
    }
}

/// The greater of two lanes; if one is not a number, the other.
pub fn lane_float_max<T: FloatElement>(a: T, b: T) -> (r: T)
    ensures
        r == float_max(a, b),
{
    if lane_is_nan(a) {
        b
    } else if lane_is_nan(b) {
        a
    } else if lane_float_lt(a, b) {
        b
    } else {
        a
    }
}

/// The lesser of two lanes; if one is not a number, the other.
pub fn lane_float_min<T: FloatElement>(a: T, b: T) -> (r: T)
    ensures
        r == float_min(a, b),
{
    if lane_is_nan(a) {
        b
    } else if lane_is_nan(b) {
        a
    } else if lane_float_lt(b, a) {
        b
    } else {
        a
    }
}

/// The integer part of a lane, held within 2 to the 64th on either side of
/// zero: wide enough for the range of every integer kind.
pub fn lane_int_part<T: FloatElement>(x: T) -> (r: i128)
    ensures
        r == clamp_into(-0x1_0000_0000_0000_0000, 0x1_0000_0000_0000_0000, int_part(x)),
{
    let limit: i128 = 0x1_0000_0000_0000_0000;
    let sign = x.sign_of();
    let exponent = x.exponent_of();
    let mantissa = x.mantissa_of();
    let width = T::mantissa_width_of();
    proof {
        T::lemma_layout();
        x.lemma_parts();
        lemma2_to64();
        lemma2_to64_rest();
        lemma_pow2_pos(T::mantissa_width());
    }
    let point = T::bias_of() + width;
    let magnitude: i128 = if exponent == T::max_exponent_of() {
        if mantissa == 0 {
            proof {
                lemma_pow2_strictly_increases(64, T::max_exponent() as nat);
            }
            limit
        } else {
            0
        }
    } else if exponent >= point {
        let shift = exponent - point;
        if shift + width >= 64 {
            proof {
                // the significand is at least 2 to the width, so the product is at
                // least 2 to the 64th
                let s = significand(x);
                let p = pow2(shift as nat) as int;
                let w = pow2(width as nat) as int;
                lemma_pow2_adds(width as nat, shift as nat);
                if shift + width > 64 {
                    lemma_pow2_strictly_increases(64, (shift + width) as nat);
                }
                lemma_pow2_pos(shift as nat);
                assert(w * p <= s * p) by (nonlinear_arith)
                    requires
                        w <= s,
                        p > 0,
                ;
            }
            limit
        } else {
            let one: u64 = 1;
            proof {
                lemma_u64_shl_is_mul(one, width as u64);
                let s = significand(x);
                let p = pow2(shift as nat) as int;
                let w = pow2(width as nat) as int;
                lemma_pow2_adds((width + 1) as nat, shift as nat);
                lemma_pow2_adds(width as nat, 1);
                if shift + width + 1 < 64 {
                    lemma_pow2_strictly_increases((shift + width + 1) as nat, 64);
                }
                lemma_pow2_pos(shift as nat);
                assert(s * p < (2 * w) * p) by (nonlinear_arith)
                    requires
                        s < 2 * w,
                        p > 0,
                ;
            }
            let whole: u64 = (one << (width as u64)) + mantissa;
            proof {
                lemma_u64_shl_is_mul(whole, shift as u64);
            }
            (whole << (shift as u64)) as i128
        }
    } else if exponent >= 1 {
        let shift = point - exponent;
        if shift >= 64 {
            proof {
                let s = significand(x);
                lemma_pow2_adds(width as nat, 1);
                lemma_pow2_strictly_increases((width + 1) as nat, shift as nat);
                lemma_basic_div(s, pow2(shift as nat) as int);
            }
            0
        } else {
            let one: u64 = 1;
            proof {
                lemma_u64_shl_is_mul(one, width as u64);
            }
            let whole: u64 = (one << (width as u64)) + mantissa;
            proof {
                lemma_u64_shr_is_div(whole, shift as u64);
            }
            (whole >> (shift as u64)) as i128
        }
    } else {
        0
    };
    if sign {
        -magnitude
    } else {
        magnitude
    }
}

/// The place of the highest bit set in a number other than zero.
pub fn leading_bit_of(m: u64) -> (r: u32)
    requires
        m > 0,
    ensures
        r == leading_bit(m as nat),
        r < 64,
{
    let mut rest = m;
    let mut place: u32 = 0;
    proof {
        lemma2_to64();
        lemma2_to64_rest();
    }
    while rest >= 2
        invariant
            0 < rest <= m,
            place < 64,
            rest * pow2(place as nat) <= m,
            leading_bit(m as nat) == place + leading_bit(rest as nat),
        decreases rest,
    {
        proof {
            lemma2_to64();
            lemma2_to64_rest();
            let p = pow2(place as nat) as int;
            lemma_pow2_adds(place as nat, 1);
            lemma_pow2_pos(place as nat);
            assert((rest / 2) * (2 * p) <= rest * p) by (nonlinear_arith)
                requires
                    rest >= 0,
                    p > 0,
                    2 * (rest as int / 2) <= rest,
            ;
            if place >= 63 {
                lemma_pow2_strictly_increases(63, (place + 1) as nat);
                assert((rest / 2) * (2 * p) >= 2 * p) by (nonlinear_arith)
                    requires
                        rest as int / 2 >= 1,
                        p > 0,
                ;
            }
        }
        rest = rest / 2;
        place = place + 1;
    }
    place
}

/// The lane of the format nearest to an integer of at most 64 bits.
pub fn lane_from_int<T: FloatElement>(wide: i128) -> (r: T)
    requires
        -0x1_0000_0000_0000_0000 < wide < 0x1_0000_0000_0000_0000,
    ensures
        r == nearest_float::<T>(wide as int),
{
    let sign = wide < 0;
    let m: u64 = if sign {
        (-wide) as u64
    } else {
        wide as u64
    };
    let width = T::mantissa_width_of();
    proof {
        T::lemma_layout();
        lemma2_to64();
        lemma2_to64_rest();
        lemma_pow2_pos(T::mantissa_width());
    }
    if m == 0 {
        return T::make(false, 0, 0);
    }
    let p = leading_bit_of(m);
    let one: u64 = 1;
    proof {
        lemma_leading_bit(m as nat);
        lemma_u64_shl_is_mul(one, width as u64);
    }
    let hidden: u64 = one << (width as u64);
    if p <= width {
        let shift = width - p;
        proof {
            let up = pow2(shift as nat) as int;
            lemma_pow2_adds(p as nat, shift as nat);
            lemma_pow2_adds((p + 1) as nat, shift as nat);
            lemma_pow2_adds(width as nat, 1);
            lemma_pow2_pos(shift as nat);
            assert(pow2(p as nat) * up <= m * up < pow2((p + 1) as nat) * up) by (nonlinear_arith)
                requires
                    pow2(p as nat) <= m < pow2((p + 1) as nat),
                    up > 0,
            ;
            lemma_u64_shl_is_mul(m, shift as u64);
        }
        let whole = m << (shift as u64);
        T::make(sign, T::bias_of() + p, whole - hidden)
    } else {
        let q = p - width;
        proof {
            lemma_pow2_strictly_increases(q as nat, 64);
            lemma_u64_shl_is_mul(one, q as u64);
            lemma_u64_shr_is_div(m, q as u64);
            lemma_u64_shl_is_mul(one, (width + 1) as u64);
            lemma_pow2_adds(width as nat, 1);
            lemma_pow2_adds(width as nat, q as nat);
            lemma_pow2_adds((width + 1) as nat, q as nat);
            lemma_pow2_adds((q - 1) as nat, 1);
            lemma_pow2_pos(q as nat);
            lemma_pow2_pos((q - 1) as nat);
            let unit = pow2(q as nat) as int;
            let low = pow2(width as nat) as int;
            lemma_fundamental_div_mod(m as int, unit);
            lemma_mod_bound(m as int, unit);
            let f = m as int / unit;
            assert(low <= f < 2 * low) by (nonlinear_arith)
                requires
                    low * unit <= m < (2 * low) * unit,
                    m == unit * f + m as int % unit,
                    0 <= m as int % unit < unit,
                    unit > 0,
            ;
        }
        let unit: u64 = one << (q as u64);
        let floor = m >> (q as u64);
        let rest = m % unit;
        let half = unit / 2;
        let up = rest > half || (rest == half && floor % 2 == 1);
        let rounded = if up {
            floor + 1
        } else {
            floor
        };
        assert(rounded == rounded_shift(m as int, q as nat));
        if rounded == (one << ((width + 1) as u64)) {
            T::make(sign, T::bias_of() + p + 1, 0)
        } else {
            T::make(sign, T::bias_of() + p, rounded - hidden)
        }
    }
}

/// The lane of the integer kind `U` that is nearest to the integer part of a
/// floating-point lane: the fraction is cut off, what lies beyond the range of
/// the kind is held at the end of the range, and what is not a number gives 0.
pub fn lane_to_int<T: FloatElement, U: SimdCast>(x: T) -> (r: U)
    ensures
        r == saturated::<U>(int_part(x)),
{
    let wide = lane_int_part(x);
    let lo = U::min_lane().to_wide();
    let hi = U::max_lane().to_wide();
    proof {
        U::lemma_range();
    }
    let held = if wide < lo {
        lo
    } else if wide > hi {
        hi
    } else {
        wide
    };
    let r = U::from_wide(held);
    proof {
        lemma_wrapped_value::<U>(held as int);
        lemma_from_value_of_value(r);
    }
    r
}

} // verus!
