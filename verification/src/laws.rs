//! General properties of the engine, stated and proved once for all inputs.
//!
//! The conversion laws are phrased over the exact rational models that the
//! contracts of [`crate::conversion::ConversionService::convert`] use, so
//! they apply to every value an actual `convert` call can return. The
//! denylist law is phrased over the match sequences that
//! [`crate::conversion::ConversionService::search`] is specified by.

use vstd::prelude::*;

use crate::conversion::{currency_vocab, denylisted, lemma_currency_vocab_tokens,
    MeasurementModel};
use crate::pattern::{curr_matches_from, lemma_matches_toks_in_vocab, tok_in_vocab};
use crate::rat::{rat_celsius_to_fahrenheit, rat_eq, rat_fahrenheit_to_celsius, rat_linear,
    RatioModel};

verus! {

/// Converting a magnitude from a unit to that same unit yields the magnitude
/// unchanged: the rate cancels out. Holds for every unit with a nonzero rate
/// (every registered length unit in particular) and every magnitude.
pub proof fn lemma_identity_conversion(rate: RatioModel, v: RatioModel)
    requires
        rate.num != 0,
        rate.den != 0,
        v.den != 0,
    ensures
        rat_eq(rat_linear(rate, rate, v), v),
{
    assert((rate.num * v.num * rate.den) * v.den == v.num * (rate.den * v.den * rate.num))
        by (nonlinear_arith);
}

/// Rational equality is transitive across a middle value with a nonzero
/// denominator.
pub proof fn lemma_rat_eq_transitive(a: RatioModel, b: RatioModel, c: RatioModel)
    requires
        rat_eq(a, b),
        rat_eq(b, c),
        b.den != 0,
    ensures
        rat_eq(a, c),
{
    assert(a.num * c.den == c.num * a.den) by (nonlinear_arith)
        requires
            a.num * b.den == b.num * a.den,
            b.num * c.den == c.num * b.den,
            b.den != 0,
    ;
}

/// Linear conversion respects rational equality of the magnitude.
pub proof fn lemma_linear_congruent(a: RatioModel, b: RatioModel, v1: RatioModel, v2: RatioModel)
    requires
        rat_eq(v1, v2),
    ensures
        rat_eq(rat_linear(a, b, v1), rat_linear(a, b, v2)),
{
    let k = b.num * a.den * b.den * a.num;
    assert((b.num * v1.num * a.den) * (b.den * v2.den * a.num) == k * (v1.num * v2.den))
        by (nonlinear_arith)
        requires
            k == b.num * a.den * b.den * a.num,
    ;
    assert((b.num * v2.num * a.den) * (b.den * v1.den * a.num) == k * (v2.num * v1.den))
        by (nonlinear_arith)
        requires
            k == b.num * a.den * b.den * a.num,
    ;
    assert(k * (v1.num * v2.den) == k * (v2.num * v1.den));
}

/// Converting from `a` to `b` and the exact result back from `b` to `a`
/// recovers the original magnitude exactly, for any two units with nonzero
/// rates.
pub proof fn lemma_linear_round_trip(a: RatioModel, b: RatioModel, v: RatioModel)
    requires
        a.num != 0,
        b.num != 0,
        a.den != 0,
        b.den != 0,
        v.den != 0,
    ensures
        rat_eq(rat_linear(b, a, rat_linear(a, b, v)), v),
{
    let w = rat_linear(a, b, v);
    let u = rat_linear(b, a, w);
    assert(u.num * v.den == v.num * u.den) by (nonlinear_arith)
        requires
            u.num == a.num * (b.num * v.num * a.den) * b.den,
            u.den == a.den * (b.den * v.den * a.num) * b.num,
    ;
}

/// The round trip as `convert` delivers it: if `x` equals the conversion of
/// `v` from `a` to `b`, and `y` equals the conversion of `x` from `b` back to
/// `a` — which is exactly what the `convert` contract says of its results —
/// then `y` is the original magnitude.
pub proof fn lemma_convert_round_trip(
    a: RatioModel,
    b: RatioModel,
    v: RatioModel,
    x: RatioModel,
    y: RatioModel,
)
    requires
        a.num != 0,
        b.num != 0,
        a.den != 0,
        b.den != 0,
        v.den != 0,
        x.den != 0,
        rat_eq(x, rat_linear(a, b, v)),
        rat_eq(y, rat_linear(b, a, x)),
    ensures
        rat_eq(y, v),
{
    let w = rat_linear(a, b, v);
    let u = rat_linear(b, a, x);
    let u2 = rat_linear(b, a, w);
    assert(w.den != 0) by (nonlinear_arith)
        requires
            w.den == b.den * v.den * a.num,
            b.den != 0,
            v.den != 0,
            a.num != 0,
    ;
    assert(u.den != 0) by (nonlinear_arith)
        requires
            u.den == a.den * x.den * b.num,
            a.den != 0,
            x.den != 0,
            b.num != 0,
    ;
    assert(u2.den != 0) by (nonlinear_arith)
        requires
            u2.den == a.den * w.den * b.num,
            a.den != 0,
            w.den != 0,
            b.num != 0,
    ;
    lemma_linear_congruent(b, a, x, w);
    lemma_rat_eq_transitive(y, u, u2);
    lemma_linear_round_trip(a, b, v);
    lemma_rat_eq_transitive(y, u2, v);
}

/// Celsius to Fahrenheit and back recovers the original magnitude exactly,
/// by the explicit formulas (not the rate path).
pub proof fn lemma_temperature_round_trip(v: RatioModel)
    requires
        v.den != 0,
    ensures
        rat_eq(rat_fahrenheit_to_celsius(rat_celsius_to_fahrenheit(v)), v),
{
    let f = rat_celsius_to_fahrenheit(v);
    let c = rat_fahrenheit_to_celsius(f);
    assert(c.num * v.den == v.num * c.den) by (nonlinear_arith)
        requires
            c.num == 5 * (9 * v.num + 160 * v.den) - 160 * (5 * v.den),
            c.den == 9 * (5 * v.den),
    ;
}

/// The currency pattern never matches a denylisted token: over any catalog
/// and any text, every currency match carries a token of the compiled
/// currency vocabulary, and no token of that vocabulary is denylisted.
pub proof fn lemma_denylist_never_matches(ms: Seq<MeasurementModel>, text: Seq<char>)
    ensures
        forall|j: int|
            0 <= j < curr_matches_from(text, currency_vocab(ms), 0).len() ==> !denylisted(
                (#[trigger] curr_matches_from(text, currency_vocab(ms), 0)[j]).tok,
            ),
{
    let vocab = currency_vocab(ms);
    lemma_matches_toks_in_vocab(text, vocab, 0);
    lemma_currency_vocab_tokens(ms);
    assert forall|j: int| 0 <= j < curr_matches_from(text, vocab, 0).len() implies !denylisted(
        (#[trigger] curr_matches_from(text, vocab, 0)[j]).tok,
    ) by {
        let tok = curr_matches_from(text, vocab, 0)[j].tok;
        assert(tok_in_vocab(vocab, tok));
        let k = choose|k: int| 0 <= k < vocab.len() && vocab[k] == tok;
        assert(!denylisted(vocab[k]));
    }
}

} // verus!
