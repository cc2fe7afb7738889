//! Exact rational numbers.
//!
//! Measurement rates and recognized magnitudes are exact decimal rationals
//! rather than binary floating point, so that the conversion formulas can be
//! stated and verified exactly. A [`Ratio`] is a signed 64-bit numerator over
//! a positive 64-bit denominator; the conversion engine works in 128-bit
//! intermediates and reports a value that cannot be represented instead of
//! silently overflowing.

use vstd::prelude::*;

verus! {

/// Mathematical model of a [`Ratio`]: the exact rational number `num / den`.
pub ghost struct RatioModel {
    pub num: int,
    pub den: int,
}

/// Magnitude of an integer.
pub open spec fn abs_int(x: int) -> int {
    if x < 0 {
        -x
    } else {
        x
    }
}

/// `a` and `b` denote the same rational number (by cross-multiplication;
/// meaningful whenever both denominators are nonzero).
pub open spec fn rat_eq(a: RatioModel, b: RatioModel) -> bool {
    a.num * b.den == b.num * a.den
}

/// Linear rate-based conversion of magnitude `v` from a measurement with rate
/// `from_rate` into one with rate `to_rate`: the exact rational
/// `to_rate * v / from_rate`. The denominator is nonzero exactly when the
/// operand denominators and `from_rate.num` are.
pub open spec fn rat_linear(from_rate: RatioModel, to_rate: RatioModel, v: RatioModel) -> RatioModel {
    RatioModel {
        num: to_rate.num * v.num * from_rate.den,
        den: to_rate.den * v.den * from_rate.num,
    }
}

/// Celsius to Fahrenheit: `v * 9/5 + 32`, as one exact rational.
pub open spec fn rat_celsius_to_fahrenheit(v: RatioModel) -> RatioModel {
    RatioModel { num: 9 * v.num + 160 * v.den, den: 5 * v.den }
}

/// Fahrenheit to Celsius: `(v - 32) * 5/9`, as one exact rational.
pub open spec fn rat_fahrenheit_to_celsius(v: RatioModel) -> RatioModel {
    RatioModel { num: 5 * v.num - 160 * v.den, den: 9 * v.den }
}

/// The linear conversion is defined (nonzero source rate) and its exact result
/// is representable as a [`Ratio`].
pub open spec fn lin_ok(from_rate: RatioModel, to_rate: RatioModel, v: RatioModel) -> bool {
    &&& from_rate.num != 0
    &&& abs_int(to_rate.num * v.num * from_rate.den) <= i64::MAX
    &&& to_rate.den * v.den * abs_int(from_rate.num) <= u64::MAX
}

/// The exact Celsius-to-Fahrenheit result is representable as a [`Ratio`].
pub open spec fn ctf_ok(v: RatioModel) -> bool {
    &&& abs_int(9 * v.num + 160 * v.den) <= i64::MAX
    &&& 5 * v.den <= u64::MAX
}

/// The exact Fahrenheit-to-Celsius result is representable as a [`Ratio`].
pub open spec fn ftc_ok(v: RatioModel) -> bool {
    &&& abs_int(5 * v.num - 160 * v.den) <= i64::MAX
    &&& 9 * v.den <= u64::MAX
}

/// An exact rational number: `num / den` with `den >= 1`.
#[derive(Clone, Copy, Debug, PartialEq, Eq, Structural)]
pub struct Ratio {
    num: i64,
    den: u64,
}

impl View for Ratio {
    type V = RatioModel;

    closed spec fn view(&self) -> RatioModel {
        RatioModel { num: self.num as int, den: self.den as int }
    }
}

impl Ratio {
    #[verifier::type_invariant]
    spec fn type_inv(self) -> bool {
        self.den >= 1
    }

    /// The rational `num / den`.
    pub fn new(num: i64, den: u64) -> (r: Ratio)
        requires
            den >= 1,
        ensures
            r@ == (RatioModel { num: num as int, den: den as int }),
    {
        Ratio { num, den }
    }

    pub fn num(&self) -> (n: i64)
        ensures
            n as int == self@.num,
    {
        self.num
    }

    pub fn den(&self) -> (d: u64)
        ensures
            d as int == self@.den,
            d >= 1,
    {
        proof {
            use_type_invariant(self);
        }
        self.den
    }

    /// Whether `self` and `other` denote the same rational number.
    pub fn same_value(&self, other: &Ratio) -> (r: bool)
        ensures
            r == rat_eq(self@, other@),
    {
        proof {
            lemma_mul_i64_u64_fits_i128(self.num as int, other.den as int);
            lemma_mul_i64_u64_fits_i128(other.num as int, self.den as int);
        }
        (self.num as i128) * (other.den as i128) == (other.num as i128) * (self.den as i128)
    }
}

proof fn lemma_mul_i64_u64_fits_i128(a: int, b: int)
    requires
        i64::MIN <= a <= i64::MAX,
        0 <= b <= u64::MAX,
    ensures
        i128::MIN <= a * b <= i128::MAX,
{
    assert(i128::MIN <= a * b <= i128::MAX) by (nonlinear_arith)
        requires
            i64::MIN <= a <= i64::MAX,
            0 <= b <= u64::MAX,
    ;
}

proof fn lemma_mul_i64_i64_fits_i128(a: int, b: int)
    requires
        i64::MIN <= a <= i64::MAX,
        i64::MIN <= b <= i64::MAX,
    ensures
        i128::MIN <= a * b <= i128::MAX,
{
    assert(i128::MIN <= a * b <= i128::MAX) by (nonlinear_arith)
        requires
            i64::MIN <= a <= i64::MAX,
            i64::MIN <= b <= i64::MAX,
    ;
}

proof fn lemma_mul_u64_u64_fits_u128(a: int, b: int)
    requires
        0 <= a <= u64::MAX,
        0 <= b <= u64::MAX,
    ensures
        0 <= a * b <= u128::MAX,
{
    assert(0 <= a * b <= u128::MAX) by (nonlinear_arith)
        requires
            0 <= a <= u64::MAX,
            0 <= b <= u64::MAX,
    ;
}

/// The exact value of `to_rate * v / from_rate`, or `None` exactly when the
/// source rate is zero or the exact result does not fit a [`Ratio`].
pub(crate) fn linear_convert(v: &Ratio, from_rate: &Ratio, to_rate: &Ratio) -> (r: Option<Ratio>)
    ensures
        r is Some <==> lin_ok(from_rate@, to_rate@, v@),
        (match r {
            Some(x) => rat_eq(x@, rat_linear(from_rate@, to_rate@, v@)) && x@.den >= 1,
            None => true,
        }),
{
    proof {
        use_type_invariant(v);
        use_type_invariant(from_rate);
        use_type_invariant(to_rate);
    }
    let fnum: i64 = from_rate.num;
    if fnum == 0 {
        return None;
    }
    // magnitude of the source-rate numerator
    let fabs: u64 = if fnum < 0 {
        (-(fnum as i128)) as u64
    } else {
        fnum as u64
    };
    assert(fabs as int == abs_int(fnum as int));

    // numerator: to_rate.num * v.num * from_rate.den, in 128-bit steps
    proof {
        lemma_mul_i64_i64_fits_i128(to_rate.num as int, v.num as int);
    }
    let p: i128 = (to_rate.num as i128) * (v.num as i128);
    let q: i128 = match p.checked_mul(from_rate.den as i128) {
        Some(q) => q,
        None => {
            // the exact product exceeds the 128-bit range, so certainly i64's
            return None;
        },
    };
    if q > (i64::MAX as i128) || q < (-i64::MAX as i128) {
        return None;
    }

    // denominator: to_rate.den * v.den * |from_rate.num|, in 128-bit steps
    proof {
        lemma_mul_u64_u64_fits_u128(to_rate.den as int, v.den as int);
    }
    let dp: u128 = (to_rate.den as u128) * (v.den as u128);
    let dq: u128 = match dp.checked_mul(fabs as u128) {
        Some(dq) => dq,
        None => {
            return None;
        },
    };
    if dq > (u64::MAX as u128) {
        return None;
    }
    assert(dq >= 1) by (nonlinear_arith)
        requires
            dq == (to_rate.den as int) * (v.den as int) * (fabs as int),
            to_rate.den >= 1,
            v.den >= 1,
            fabs >= 1,
    ;

    // orient the sign so that the stored denominator stays positive
    let num: i64 = if fnum < 0 {
        -(q as i64)
    } else {
        q as i64
    };
    let result = Ratio { num, den: dq as u64 };
    proof {
        let tn = to_rate.num as int;
        let vn = v.num as int;
        let fd = from_rate.den as int;
        let td = to_rate.den as int;
        let vd = v.den as int;
        let fn0 = fnum as int;
        assert(q == tn * vn * fd);
        assert(dq == td * vd * abs_int(fn0));
        if fn0 < 0 {
            assert(td * vd * fn0 == -(td * vd * (-fn0))) by (nonlinear_arith);
            assert((-(tn * vn * fd)) * (td * vd * fn0) == (tn * vn * fd) * (td * vd * (-fn0)))
                by (nonlinear_arith);
        }
        assert(rat_eq(result@, rat_linear(from_rate@, to_rate@, v@)));
    }
    Some(result)
}

/// The exact Fahrenheit value of a Celsius magnitude, or `None` exactly when
/// the exact result does not fit a [`Ratio`].
pub(crate) fn celsius_to_fahrenheit(v: &Ratio) -> (r: Option<Ratio>)
    ensures
        r is Some <==> ctf_ok(v@),
        (match r {
            Some(x) => x@ == rat_celsius_to_fahrenheit(v@) && x@.den >= 1,
            None => true,
        }),
{
    proof {
        use_type_invariant(v);
    }
    let q: i128 = 9 * (v.num as i128) + 160 * (v.den as i128);
    if q > (i64::MAX as i128) || q < (-i64::MAX as i128) {
        return None;
    }
    let d: u128 = 5 * (v.den as u128);
    if d > (u64::MAX as u128) {
        return None;
    }
    Some(Ratio { num: q as i64, den: d as u64 })
}

/// The exact Celsius value of a Fahrenheit magnitude, or `None` exactly when
/// the exact result does not fit a [`Ratio`].
pub(crate) fn fahrenheit_to_celsius(v: &Ratio) -> (r: Option<Ratio>)
    ensures
        r is Some <==> ftc_ok(v@),
        (match r {
            Some(x) => x@ == rat_fahrenheit_to_celsius(v@) && x@.den >= 1,
            None => true,
        }),
{
    proof {
        use_type_invariant(v);
    }
    let q: i128 = 5 * (v.num as i128) - 160 * (v.den as i128);
    if q > (i64::MAX as i128) || q < (-i64::MAX as i128) {
        return None;
    }
    let d: u128 = 9 * (v.den as u128);
    if d > (u64::MAX as u128) {
        return None;
    }
    Some(Ratio { num: q as i64, den: d as u64 })
}

} // verus!
