//! The measurement registry, the recognition engine and the conversion
//! engine.
//!
//! A [`ConversionService`] owns the immutable catalog of measurements and the
//! two patterns compiled from its vocabulary at construction. [`search`]
//! recognizes quantity mentions in free text; [`convert`] turns one
//! recognized quantity into the requested target units, special-casing the
//! Celsius/Fahrenheit scales.
//!
//! The catalog is a read-only snapshot shared by any number of concurrent
//! callers: no operation blocks, and [`find_by`] in particular always returns
//! in bounded time.
//!
//! [`search`]: ConversionService::search
//! [`convert`]: ConversionService::convert
//! [`find_by`]: ConversionService::find_by

use vstd::prelude::*;

use crate::pattern::{curr_matches_from, parse_lit, parse_literal, raw_model, raw_wf, scan_curr_matches,
    scan_unit_matches, unit_matches_from, vocab_model, MatchModel, RawMatch, Regexes};
use crate::rat::{ctf_ok, ftc_ok, lin_ok, rat_celsius_to_fahrenheit, rat_eq,
    rat_fahrenheit_to_celsius, rat_linear, Ratio, RatioModel};
use crate::text::{chars_eq, chars_of, lower_chars_of, lower_seq, string_eq_chars};

verus! {

/// Why an engine operation yielded no result.
#[derive(Debug)]
pub enum ConversionError {
    /// `search` found no resolvable quantity mention in the supplied text.
    /// Expected and common; "nothing to do", not a fault.
    NoConversions,
    /// `convert` was asked for a pair the rules do not define: a linear
    /// conversion from a measurement whose rate is zero (an unhandled
    /// temperature scale such as Kelvin).
    UnsupportedConversion,
    /// `convert` hit a target whose exact result does not fit a [`Ratio`].
    ValueOutOfRange,
}

/// Classification of a measurement.
#[derive(Debug, Clone, Copy, PartialEq, Eq, Structural)]
pub enum MeasurementKind {
    Currency,
    Unit,
}

impl MeasurementKind {
    pub fn is_currency(&self) -> (r: bool)
        ensures
            r == (self is Currency),
    {
        match *self {
            MeasurementKind::Currency => true,
            MeasurementKind::Unit => false,
        }
    }
}

/// Mathematical model of a [`Measurement`].
pub ghost struct MeasurementModel {
    pub symbol: Seq<char>,
    pub code: Seq<char>,
    pub rate: RatioModel,
    pub name: Seq<char>,
    pub kind: MeasurementKind,
}

/// One convertible unit or currency, immutable once constructed.
#[derive(Debug)]
pub struct Measurement {
    /// Short display token (`"km"`, `"$"`); the unit-pattern lookup key.
    pub symbol: String,
    /// Canonical lowercase identifier (`"km"`, `"usd"`); the currency lookup
    /// key and the temperature special-case key.
    pub code: String,
    /// Value of this measurement per one base unit of its dimension. Zero for
    /// temperature scales, which convert by explicit formulas instead.
    pub rate: Ratio,
    /// Human-readable display name.
    pub name: String,
    /// Whether the entry is a physical unit or a currency.
    pub kind: MeasurementKind,
}

impl View for Measurement {
    type V = MeasurementModel;

    open spec fn view(&self) -> MeasurementModel {
        MeasurementModel {
            symbol: self.symbol@,
            code: self.code@,
            rate: self.rate@,
            name: self.name@,
            kind: self.kind,
        }
    }
}

impl Clone for Measurement {
    fn clone(&self) -> (r: Self)
        ensures
            r == *self,
    {
        Measurement {
            symbol: self.symbol.clone(),
            code: self.code.clone(),
            rate: self.rate,
            name: self.name.clone(),
            kind: self.kind,
        }
    }
}

/// The models of a catalog of measurements, in catalog order.
pub open spec fn meas_models(ms: Seq<Measurement>) -> Seq<MeasurementModel> {
    ms.map_values(|m: Measurement| m@)
}

/// Mathematical model of a [`ConversionContext`].
pub ghost struct ContextModel {
    pub measurement: MeasurementModel,
    pub value: RatioModel,
}

/// One quantity recognized in text: the resolved measurement and the
/// magnitude that was written next to it.
#[derive(Debug)]
pub struct ConversionContext {
    pub measurement: Measurement,
    pub value: Ratio,
}

impl View for ConversionContext {
    type V = ContextModel;

    open spec fn view(&self) -> ContextModel {
        ContextModel { measurement: self.measurement@, value: self.value@ }
    }
}

/// Mathematical model of a [`ConversionRequest`].
pub ghost struct RequestModel {
    pub from: MeasurementModel,
    pub value: RatioModel,
    pub to_list: Seq<MeasurementModel>,
}

/// What to convert: a source measurement, a magnitude, and the ordered
/// targets (which may be empty).
#[derive(Debug)]
pub struct ConversionRequest {
    pub from: Measurement,
    pub value: Ratio,
    pub to_list: Vec<Measurement>,
}

impl View for ConversionRequest {
    type V = RequestModel;

    open spec fn view(&self) -> RequestModel {
        RequestModel {
            from: self.from@,
            value: self.value@,
            to_list: meas_models(self.to_list@),
        }
    }
}

/// Mathematical model of a [`MeasurementConversion`].
pub ghost struct MeasurementConversionModel {
    pub to: MeasurementModel,
    pub value: RatioModel,
}

/// One converted value, paired with its target measurement.
#[derive(Debug)]
pub struct MeasurementConversion {
    pub to: Measurement,
    pub value: Ratio,
}

impl View for MeasurementConversion {
    type V = MeasurementConversionModel;

    open spec fn view(&self) -> MeasurementConversionModel {
        MeasurementConversionModel { to: self.to@, value: self.value@ }
    }
}

/// Mathematical model of a [`Conversion`].
pub ghost struct ConversionModel {
    pub from: MeasurementModel,
    pub base_value: RatioModel,
    pub to: Seq<MeasurementConversionModel>,
}

/// The result of a conversion: the echoed source and magnitude, and one
/// converted value per requested target, in request order.
#[derive(Debug)]
pub struct Conversion {
    pub from: Measurement,
    pub base_value: Ratio,
    pub to: Vec<MeasurementConversion>,
}

impl View for Conversion {
    type V = ConversionModel;

    open spec fn view(&self) -> ConversionModel {
        ConversionModel {
            from: self.from@,
            base_value: self.base_value@,
            to: self.to@.map_values(|c: MeasurementConversion| c@),
        }
    }
}

// ---------------------------------------------------------------------------
// The currency denylist and the pattern vocabularies
// ---------------------------------------------------------------------------

/// The denylisted ambiguous currency tokens: short codes that collide with
/// everyday English words or with physical-unit codes, plus the plain dollar
/// sign. A measurement whose lower-cased code or symbol is one of these never
/// contributes a currency token, so the currency pattern can never match one.
pub open spec fn denylisted(s: Seq<char>) -> bool {
    ||| s == seq!['p']
    ||| s == seq!['k']
    ||| s == seq!['s']
    ||| s == seq!['r']
    ||| s == seq!['t']
    ||| s == seq!['e']
    ||| s == seq!['d']
    ||| s == seq!['m']
    ||| s == seq!['k', 'm']
    ||| s == seq!['g']
    ||| s == seq!['a', 'r']
    ||| s == seq!['l']
    ||| s == seq!['l', 'e']
    ||| s == seq!['u', 's', 'h']
    ||| s == seq!['b', 'r']
    ||| s == seq!['$']
}

/// A currency measurement that is kept out of the currency vocabulary.
pub open spec fn skip_currency(m: MeasurementModel) -> bool {
    denylisted(lower_seq(m.code)) || denylisted(lower_seq(m.symbol))
}

/// A measurement that contributes a currency token: a currency that is not
/// denylisted and whose symbol is not empty.
pub open spec fn keeps_currency_token(m: MeasurementModel) -> bool {
    &&& m.kind is Currency
    &&& !skip_currency(m)
    &&& m.symbol.len() >= 1
}

/// A measurement that contributes a unit token: a physical unit whose code is
/// not empty.
pub open spec fn keeps_unit_token(m: MeasurementModel) -> bool {
    &&& m.kind is Unit
    &&& m.code.len() >= 1
}

/// The currency tokens contributed by the catalog, in order, duplicates kept:
/// each kept currency's symbol, lower-cased.
pub open spec fn currency_tokens_raw(ms: Seq<MeasurementModel>) -> Seq<Seq<char>>
    decreases ms.len(),
{
    if ms.len() == 0 {
        Seq::<Seq<char>>::empty()
    } else {
        currency_tokens_raw(ms.drop_last()) + (if keeps_currency_token(ms.last()) {
            seq![lower_seq(ms.last().symbol)]
        } else {
            Seq::<Seq<char>>::empty()
        })
    }
}

/// The unit tokens contributed by the catalog, in order, duplicates kept:
/// each physical unit's code, lower-cased.
pub open spec fn unit_tokens_raw(ms: Seq<MeasurementModel>) -> Seq<Seq<char>>
    decreases ms.len(),
{
    if ms.len() == 0 {
        Seq::<Seq<char>>::empty()
    } else {
        unit_tokens_raw(ms.drop_last()) + (if keeps_unit_token(ms.last()) {
            seq![lower_seq(ms.last().code)]
        } else {
            Seq::<Seq<char>>::empty()
        })
    }
}

/// The tokens with every repeated occurrence removed; the first occurrence
/// keeps its place.
pub open spec fn dedup_tokens(s: Seq<Seq<char>>) -> Seq<Seq<char>>
    decreases s.len(),
{
    if s.len() == 0 {
        Seq::<Seq<char>>::empty()
    } else {
        dedup_tokens(s.drop_last()) + (if s.drop_last().contains(s.last()) {
            Seq::<Seq<char>>::empty()
        } else {
            seq![s.last()]
        })
    }
}

/// The currency-pattern vocabulary of a catalog.
pub open spec fn currency_vocab(ms: Seq<MeasurementModel>) -> Seq<Seq<char>> {
    dedup_tokens(currency_tokens_raw(ms))
}

/// The unit-pattern vocabulary of a catalog.
pub open spec fn unit_vocab(ms: Seq<MeasurementModel>) -> Seq<Seq<char>> {
    dedup_tokens(unit_tokens_raw(ms))
}

/// Appending one catalog entry appends its currency token, if it keeps one.
proof fn lemma_currency_raw_push(ms: Seq<MeasurementModel>, m: MeasurementModel)
    ensures
        currency_tokens_raw(ms.push(m)) == currency_tokens_raw(ms) + (if keeps_currency_token(m) {
            seq![lower_seq(m.symbol)]
        } else {
            Seq::<Seq<char>>::empty()
        }),
{
    assert(ms.push(m).drop_last() =~= ms);
    assert(ms.push(m).last() == m);
}

/// Appending one catalog entry appends its unit token, if it keeps one.
proof fn lemma_unit_raw_push(ms: Seq<MeasurementModel>, m: MeasurementModel)
    ensures
        unit_tokens_raw(ms.push(m)) == unit_tokens_raw(ms) + (if keeps_unit_token(m) {
            seq![lower_seq(m.code)]
        } else {
            Seq::<Seq<char>>::empty()
        }),
{
    assert(ms.push(m).drop_last() =~= ms);
    assert(ms.push(m).last() == m);
}

/// Appending one token either appends it to the de-duplicated list or, when
/// already present, leaves the list unchanged.
proof fn lemma_dedup_push(s: Seq<Seq<char>>, x: Seq<char>)
    ensures
        dedup_tokens(s.push(x)) == dedup_tokens(s) + (if s.contains(x) {
            Seq::<Seq<char>>::empty()
        } else {
            seq![x]
        }),
{
    assert(s.push(x).drop_last() =~= s);
    assert(s.push(x).last() == x);
}

/// A sequence is unchanged by appending nothing.
proof fn lemma_concat_empty(s: Seq<Seq<char>>)
    ensures
        s + Seq::<Seq<char>>::empty() == s,
{
    assert(s + Seq::<Seq<char>>::empty() =~= s);
}

/// De-duplication keeps exactly the members.
proof fn lemma_dedup_same_members(s: Seq<Seq<char>>, x: Seq<char>)
    ensures
        dedup_tokens(s).contains(x) <==> s.contains(x),
    decreases s.len(),
{
    if s.len() > 0 {
        lemma_dedup_same_members(s.drop_last(), x);
        let d = dedup_tokens(s);
        let dl = dedup_tokens(s.drop_last());
        if s.contains(x) {
            if s.drop_last().contains(x) {
                let i = choose|i: int| 0 <= i < dl.len() && dl[i] == x;
                assert(d[i] == x);
            } else {
                assert(s.last() == x) by {
                    let i = choose|i: int| 0 <= i < s.len() && s[i] == x;
                    if i < s.len() - 1 {
                        assert(s.drop_last()[i] == x);
                        assert(s.drop_last().contains(x));
                    }
                }
                assert(d[d.len() - 1] == x);
            }
        }
        if d.contains(x) {
            let i = choose|i: int| 0 <= i < d.len() && d[i] == x;
            if i < dl.len() {
                assert(dl[i] == x);
                let j = choose|j: int| 0 <= j < s.len() - 1 && s.drop_last()[j] == x;
                assert(s[j] == x);
            } else {
                assert(x == s.last());
                assert(s[s.len() - 1] == x);
            }
        }
    }
}

/// Every token of the currency vocabulary is the lower-cased symbol of a
/// kept currency measurement; in particular none is denylisted.
pub proof fn lemma_currency_vocab_tokens(ms: Seq<MeasurementModel>)
    ensures
        forall|k: int|
            0 <= k < currency_vocab(ms).len() ==> !denylisted(#[trigger] currency_vocab(ms)[k])
                && currency_vocab(ms)[k].len() >= 1,
{
    lemma_currency_raw_tokens(ms);
    assert forall|k: int| 0 <= k < currency_vocab(ms).len() implies !denylisted(
        #[trigger] currency_vocab(ms)[k],
    ) && currency_vocab(ms)[k].len() >= 1 by {
        let x = currency_vocab(ms)[k];
        assert(currency_vocab(ms).contains(x));
        lemma_dedup_same_members(currency_tokens_raw(ms), x);
        let i = choose|i: int|
            0 <= i < currency_tokens_raw(ms).len() && currency_tokens_raw(ms)[i] == x;
    }
}

/// Every raw currency token comes from a kept currency measurement.
proof fn lemma_currency_raw_tokens(ms: Seq<MeasurementModel>)
    ensures
        forall|i: int|
            0 <= i < currency_tokens_raw(ms).len() ==> !denylisted(
                #[trigger] currency_tokens_raw(ms)[i],
            ) && currency_tokens_raw(ms)[i].len() >= 1,
    decreases ms.len(),
{
    if ms.len() > 0 {
        lemma_currency_raw_tokens(ms.drop_last());
        let m = ms.last();
        let r = currency_tokens_raw(ms);
        let rl = currency_tokens_raw(ms.drop_last());
        assert forall|i: int| 0 <= i < r.len() implies !denylisted(#[trigger] r[i]) && r[i].len()
            >= 1 by {
            if i < rl.len() {
                assert(r[i] == rl[i]);
            } else {
                assert(keeps_currency_token(m));
                assert(r[i] == lower_seq(m.symbol));
                assert(lower_seq(m.symbol).len() == m.symbol.len());
            }
        }
    }
}

/// Whether `v` is a denylisted token, executable form.
fn is_denylisted(v: &Vec<char>) -> (r: bool)
    ensures
        r == denylisted(v@),
{
    let r: bool = if v.len() == 1 {
        let c: char = v[0];
        c == 'p' || c == 'k' || c == 's' || c == 'r' || c == 't' || c == 'e' || c == 'd' || c
            == 'm' || c == 'g' || c == 'l' || c == '$'
    } else if v.len() == 2 {
        (v[0] == 'k' && v[1] == 'm') || (v[0] == 'a' && v[1] == 'r') || (v[0] == 'l' && v[1]
            == 'e') || (v[0] == 'b' && v[1] == 'r')
    } else if v.len() == 3 {
        v[0] == 'u' && v[1] == 's' && v[2] == 'h'
    } else {
        false
    };
    proof {
        if v@.len() == 1 {
            assert(v@ =~= seq![v@[0]]);
        }
        if v@.len() == 2 {
            if v@[0] == 'k' && v@[1] == 'm' {
                assert(v@ =~= seq!['k', 'm']);
            }
            if v@[0] == 'a' && v@[1] == 'r' {
                assert(v@ =~= seq!['a', 'r']);
            }
            if v@[0] == 'l' && v@[1] == 'e' {
                assert(v@ =~= seq!['l', 'e']);
            }
            if v@[0] == 'b' && v@[1] == 'r' {
                assert(v@ =~= seq!['b', 'r']);
            }
        }
        if v@.len() == 3 && v@[0] == 'u' && v@[1] == 's' && v@[2] == 'h' {
            assert(v@ =~= seq!['u', 's', 'h']);
        }
    }
    r
}

/// Whether the vocabulary built so far already holds token `x`.
fn contains_token(list: &Vec<Vec<char>>, x: &Vec<char>) -> (r: bool)
    ensures
        r == vocab_model(list@).contains(x@),
{
    let mut i: usize = 0;
    while i < list.len()
        invariant
            i <= list@.len(),
            forall|j: int| 0 <= j < i ==> vocab_model(list@)[j] != x@,
        decreases list@.len() - i,
    {
        assert(vocab_model(list@)[i as int] == list@[i as int]@);
        if chars_eq(&list[i], x) {
            assert(vocab_model(list@).contains(x@));
            return true;
        }
        i = i + 1;
    }
    assert(forall|j: int| 0 <= j < vocab_model(list@).len() ==> vocab_model(list@)[j] != x@);
    false
}

/// Whether string `s` is exactly the one-character sequence `c`.
fn str_is_char(s: &str, c: char) -> (r: bool)
    ensures
        r == (s@ == seq![c]),
{
    let n: usize = s.unicode_len();
    if n != 1 {
        return false;
    }
    let r: bool = s.get_char(0) == c;
    proof {
        if r {
            assert(s@ =~= seq![c]);
        }
    }
    r
}

// ---------------------------------------------------------------------------
// Resolution of matches against the catalog
// ---------------------------------------------------------------------------

/// Index of the first measurement, from `i` on, whose code is `tok`.
pub open spec fn first_code_match(ms: Seq<MeasurementModel>, tok: Seq<char>, i: int) -> Option<
    int,
>
    decreases ms.len() - i,
{
    if !(0 <= i < ms.len()) {
        None
    } else if ms[i].code == tok {
        Some(i)
    } else {
        first_code_match(ms, tok, i + 1)
    }
}

/// Index of the first measurement, from `i` on, whose symbol is `tok`.
pub open spec fn first_symbol_match(ms: Seq<MeasurementModel>, tok: Seq<char>, i: int) -> Option<
    int,
>
    decreases ms.len() - i,
{
    if !(0 <= i < ms.len()) {
        None
    } else if ms[i].symbol == tok {
        Some(i)
    } else {
        first_symbol_match(ms, tok, i + 1)
    }
}

/// The contexts the currency matches resolve to: for each match whose literal
/// has a representable value and whose token is the code of some measurement,
/// the first such measurement paired with that value; every other match is
/// dropped.
pub open spec fn currency_contexts(ms: Seq<MeasurementModel>, hits: Seq<MatchModel>) -> Seq<
    ContextModel,
>
    decreases hits.len(),
{
    if hits.len() == 0 {
        Seq::<ContextModel>::empty()
    } else {
        currency_contexts(ms, hits.drop_last()) + (match (
            parse_lit(hits.last().lit),
            first_code_match(ms, hits.last().tok, 0),
        ) {
            (Some(v), Some(j)) => seq![ContextModel { measurement: ms[j], value: v }],
            _ => Seq::<ContextModel>::empty(),
        })
    }
}

/// The contexts the unit matches resolve to, with the token looked up against
/// the measurements' symbols.
pub open spec fn unit_contexts(ms: Seq<MeasurementModel>, hits: Seq<MatchModel>) -> Seq<
    ContextModel,
>
    decreases hits.len(),
{
    if hits.len() == 0 {
        Seq::<ContextModel>::empty()
    } else {
        unit_contexts(ms, hits.drop_last()) + (match (
            parse_lit(hits.last().lit),
            first_symbol_match(ms, hits.last().tok, 0),
        ) {
            (Some(v), Some(j)) => seq![ContextModel { measurement: ms[j], value: v }],
            _ => Seq::<ContextModel>::empty(),
        })
    }
}

/// Everything `search` yields on `text` over the catalog `ms`: the resolved
/// currency matches in text order, then the resolved unit matches in text
/// order.
pub open spec fn search_contexts(ms: Seq<MeasurementModel>, text: Seq<char>) -> Seq<ContextModel> {
    currency_contexts(ms, curr_matches_from(text, currency_vocab(ms), 0)) + unit_contexts(
        ms,
        unit_matches_from(text, unit_vocab(ms), 0),
    )
}

/// Index of the first measurement whose code is `tok`, executable form.
fn find_code_index(ms: &Vec<Measurement>, tok: &Vec<char>) -> (r: Option<usize>)
    ensures
        match r {
            Some(j) => j < ms@.len() && first_code_match(meas_models(ms@), tok@, 0) == Some(
                j as int,
            ),
            None => first_code_match(meas_models(ms@), tok@, 0) is None,
        },
{
    let ghost mm = meas_models(ms@);
    let mut j: usize = 0;
    while j < ms.len()
        invariant
            j <= ms@.len(),
            mm == meas_models(ms@),
            first_code_match(mm, tok@, 0) == first_code_match(mm, tok@, j as int),
        decreases ms@.len() - j,
    {
        assert(mm[j as int] == ms@[j as int]@);
        if string_eq_chars(ms[j].code.as_str(), tok) {
            return Some(j);
        }
        j = j + 1;
    }
    None
}

/// Index of the first measurement whose symbol is `tok`, executable form.
fn find_symbol_index(ms: &Vec<Measurement>, tok: &Vec<char>) -> (r: Option<usize>)
    ensures
        match r {
            Some(j) => j < ms@.len() && first_symbol_match(meas_models(ms@), tok@, 0) == Some(
                j as int,
            ),
            None => first_symbol_match(meas_models(ms@), tok@, 0) is None,
        },
{
    let ghost mm = meas_models(ms@);
    let mut j: usize = 0;
    while j < ms.len()
        invariant
            j <= ms@.len(),
            mm == meas_models(ms@),
            first_symbol_match(mm, tok@, 0) == first_symbol_match(mm, tok@, j as int),
        decreases ms@.len() - j,
    {
        assert(mm[j as int] == ms@[j as int]@);
        if string_eq_chars(ms[j].symbol.as_str(), tok) {
            return Some(j);
        }
        j = j + 1;
    }
    None
}

/// Resolves the currency matches and appends the surviving contexts.
fn append_currency_contexts(
    ms: &Vec<Measurement>,
    t: &Vec<char>,
    vocab: &Vec<Vec<char>>,
    hits: &Vec<RawMatch>,
    out: &mut Vec<ConversionContext>,
)
    requires
        forall|j: int| 0 <= j < hits@.len() ==> raw_wf(t@, vocab_model(vocab@), #[trigger] hits@[j]),
    ensures
        final(out)@.map_values(|c: ConversionContext| c@) == old(out)@.map_values(
            |c: ConversionContext| c@,
        ) + currency_contexts(
            meas_models(ms@),
            hits@.map_values(|h: RawMatch| raw_model(t@, vocab_model(vocab@), h)),
        ),
{
    let ghost mm = meas_models(ms@);
    let ghost v = vocab_model(vocab@);
    let ghost hm = hits@.map_values(|h: RawMatch| raw_model(t@, v, h));
    let ghost cv = |c: ConversionContext| c@;
    proof {
        assert(hm.take(0) =~= Seq::<MatchModel>::empty());
        assert(out@.map_values(cv) + Seq::<ContextModel>::empty() =~= out@.map_values(cv));
    }
    let mut j: usize = 0;
    while j < hits.len()
        invariant
            j <= hits@.len(),
            mm == meas_models(ms@),
            v == vocab_model(vocab@),
            hm == hits@.map_values(|h: RawMatch| raw_model(t@, v, h)),
            cv == (|c: ConversionContext| c@),
            forall|i: int| 0 <= i < hits@.len() ==> raw_wf(t@, v, #[trigger] hits@[i]),
            out@.map_values(cv) == old(out)@.map_values(cv) + currency_contexts(mm, hm.take(
                j as int,
            )),
        decreases hits@.len() - j,
    {
        let h = &hits[j];
        assert(raw_wf(t@, v, hits@[j as int]));
        assert(hm[j as int] == raw_model(t@, v, hits@[j as int]));
        let parsed: Option<Ratio> = parse_literal(t, h.lit_lo, h.lit_hi);
        proof {
            assert(hm.take(j + 1).drop_last() =~= hm.take(j as int));
            assert(hm.take(j + 1).last() == hm[j as int]);
        }
        match parsed {
            Some(value) => {
                match find_code_index(ms, &vocab[h.tok]) {
                    Some(ix) => {
                        assert(v[hits@[j as int].tok as int] == vocab@[hits@[j as int].tok as int]@);
                        let ctx = ConversionContext { measurement: ms[ix].clone(), value };
                        proof {
                            assert(mm[ix as int] == ms@[ix as int]@);
                            assert(out@.push(ctx).map_values(cv) =~= out@.map_values(cv).push(
                                ctx@,
                            ));
                            assert(old(out)@.map_values(cv) + currency_contexts(mm, hm.take(j + 1))
                                =~= (old(out)@.map_values(cv) + currency_contexts(mm, hm.take(
                                j as int,
                            ))).push(ctx@));
                        }
                        out.push(ctx);
                    },
                    None => {
                        proof {
                            assert(currency_contexts(mm, hm.take(j + 1)) =~= currency_contexts(
                                mm,
                                hm.take(j as int),
                            ));
                        }
                    },
                }
            },
            None => {
                proof {
                    assert(currency_contexts(mm, hm.take(j + 1)) =~= currency_contexts(
                        mm,
                        hm.take(j as int),
                    ));
                }
            },
        }
        j = j + 1;
    }
    proof {
        assert(hm.take(hits@.len() as int) =~= hm);
    }
}

/// Resolves the unit matches and appends the surviving contexts.
fn append_unit_contexts(
    ms: &Vec<Measurement>,
    t: &Vec<char>,
    vocab: &Vec<Vec<char>>,
    hits: &Vec<RawMatch>,
    out: &mut Vec<ConversionContext>,
)
    requires
        forall|j: int| 0 <= j < hits@.len() ==> raw_wf(t@, vocab_model(vocab@), #[trigger] hits@[j]),
    ensures
        final(out)@.map_values(|c: ConversionContext| c@) == old(out)@.map_values(
            |c: ConversionContext| c@,
        ) + unit_contexts(
            meas_models(ms@),
            hits@.map_values(|h: RawMatch| raw_model(t@, vocab_model(vocab@), h)),
        ),
{
    let ghost mm = meas_models(ms@);
    let ghost v = vocab_model(vocab@);
    let ghost hm = hits@.map_values(|h: RawMatch| raw_model(t@, v, h));
    let ghost cv = |c: ConversionContext| c@;
    proof {
        assert(hm.take(0) =~= Seq::<MatchModel>::empty());
        assert(out@.map_values(cv) + Seq::<ContextModel>::empty() =~= out@.map_values(cv));
    }
    let mut j: usize = 0;
    while j < hits.len()
        invariant
            j <= hits@.len(),
            mm == meas_models(ms@),
            v == vocab_model(vocab@),
            hm == hits@.map_values(|h: RawMatch| raw_model(t@, v, h)),
            cv == (|c: ConversionContext| c@),
            forall|i: int| 0 <= i < hits@.len() ==> raw_wf(t@, v, #[trigger] hits@[i]),
            out@.map_values(cv) == old(out)@.map_values(cv) + unit_contexts(mm, hm.take(j as int)),
        decreases hits@.len() - j,
    {
        let h = &hits[j];
        assert(raw_wf(t@, v, hits@[j as int]));
        assert(hm[j as int] == raw_model(t@, v, hits@[j as int]));
        let parsed: Option<Ratio> = parse_literal(t, h.lit_lo, h.lit_hi);
        proof {
            assert(hm.take(j + 1).drop_last() =~= hm.take(j as int));
            assert(hm.take(j + 1).last() == hm[j as int]);
        }
        match parsed {
            Some(value) => {
                match find_symbol_index(ms, &vocab[h.tok]) {
                    Some(ix) => {
                        assert(v[hits@[j as int].tok as int] == vocab@[hits@[j as int].tok as int]@);
                        let ctx = ConversionContext { measurement: ms[ix].clone(), value };
                        proof {
                            assert(mm[ix as int] == ms@[ix as int]@);
                            assert(out@.push(ctx).map_values(cv) =~= out@.map_values(cv).push(
                                ctx@,
                            ));
                            assert(old(out)@.map_values(cv) + unit_contexts(mm, hm.take(j + 1))
                                =~= (old(out)@.map_values(cv) + unit_contexts(mm, hm.take(
                                j as int,
                            ))).push(ctx@));
                        }
                        out.push(ctx);
                    },
                    None => {
                        proof {
                            assert(unit_contexts(mm, hm.take(j + 1)) =~= unit_contexts(
                                mm,
                                hm.take(j as int),
                            ));
                        }
                    },
                }
            },
            None => {
                proof {
                    assert(unit_contexts(mm, hm.take(j + 1)) =~= unit_contexts(
                        mm,
                        hm.take(j as int),
                    ));
                }
            },
        }
        j = j + 1;
    }
    proof {
        assert(hm.take(hits@.len() as int) =~= hm);
    }
}

// ---------------------------------------------------------------------------
// The conversion rules
// ---------------------------------------------------------------------------

/// The pair converts Celsius to Fahrenheit.
pub open spec fn is_c_to_f(from: MeasurementModel, to: MeasurementModel) -> bool {
    from.code == seq!['c'] && to.code == seq!['f']
}

/// The pair converts Fahrenheit to Celsius.
pub open spec fn is_f_to_c(from: MeasurementModel, to: MeasurementModel) -> bool {
    from.code == seq!['f'] && to.code == seq!['c']
}

/// The exact converted value for one target: the explicit temperature formula
/// for the two special-cased pairs, the linear rate path otherwise.
pub open spec fn conv_value(from: MeasurementModel, to: MeasurementModel, v: RatioModel) -> RatioModel {
    if is_c_to_f(from, to) {
        rat_celsius_to_fahrenheit(v)
    } else if is_f_to_c(from, to) {
        rat_fahrenheit_to_celsius(v)
    } else {
        rat_linear(from.rate, to.rate, v)
    }
}

/// The conversion for one target is defined and its exact result fits a
/// [`Ratio`].
pub open spec fn conv_ok(from: MeasurementModel, to: MeasurementModel, v: RatioModel) -> bool {
    if is_c_to_f(from, to) {
        ctf_ok(v)
    } else if is_f_to_c(from, to) {
        ftc_ok(v)
    } else {
        lin_ok(from.rate, to.rate, v)
    }
}

/// The error a failing target reports: `UnsupportedConversion` for a linear
/// conversion from a zero-rate measurement, `ValueOutOfRange` otherwise.
pub open spec fn conv_err(from: MeasurementModel, to: MeasurementModel, v: RatioModel) -> ConversionError {
    if !is_c_to_f(from, to) && !is_f_to_c(from, to) && from.rate.num == 0 {
        ConversionError::UnsupportedConversion
    } else {
        ConversionError::ValueOutOfRange
    }
}

/// Every target of the request converts.
pub open spec fn request_ok(req: RequestModel) -> bool {
    forall|i: int| 0 <= i < req.to_list.len() ==> conv_ok(req.from, #[trigger] req.to_list[i], req.value)
}

/// Index of the first target, from `i` on, that does not convert; the list
/// length when all do.
pub open spec fn first_bad_target(req: RequestModel, i: int) -> int
    decreases req.to_list.len() - i,
{
    if !(0 <= i < req.to_list.len()) {
        req.to_list.len() as int
    } else if !conv_ok(req.from, req.to_list[i], req.value) {
        i
    } else {
        first_bad_target(req, i + 1)
    }
}

proof fn lemma_first_bad_target_from(req: RequestModel, i: int)
    requires
        0 <= i <= req.to_list.len(),
        forall|j: int| 0 <= j < i ==> conv_ok(req.from, #[trigger] req.to_list[j], req.value),
    ensures
        first_bad_target(req, 0) == first_bad_target(req, i),
    decreases i,
{
    if i > 0 {
        lemma_first_bad_target_from(req, i - 1);
    }
}

// ---------------------------------------------------------------------------
// The service
// ---------------------------------------------------------------------------

/// The measurement registry together with the two patterns compiled from its
/// vocabulary. The catalog is written once, at construction, and only read
/// afterwards, so it is held as a plain snapshot that any number of
/// concurrent callers may share; no lookup can block.
pub struct ConversionService {
    measurements: Vec<Measurement>,
    regexes: Regexes,
}

impl View for ConversionService {
    type V = Seq<MeasurementModel>;

    closed spec fn view(&self) -> Seq<MeasurementModel> {
        meas_models(self.measurements@)
    }
}

impl ConversionService {
    /// The compiled patterns always belong to the stored catalog.
    #[verifier::type_invariant]
    spec fn patterns_match_catalog(self) -> bool {
        &&& vocab_model(self.regexes.currency_tokens@) == currency_vocab(
            meas_models(self.measurements@),
        )
        &&& vocab_model(self.regexes.unit_tokens@) == unit_vocab(meas_models(self.measurements@))
    }

    /// The catalog as stored, in insertion order. Its models are `self@`.
    pub closed spec fn catalog(&self) -> Seq<Measurement> {
        self.measurements@
    }

    /// The service's model is exactly the models of its catalog.
    pub proof fn lemma_view_is_catalog(&self)
        ensures
            self@ == meas_models(self.catalog()),
    {
    }

    /// Whether a currency measurement is left out of the currency vocabulary:
    /// its lower-cased code or symbol is a denylisted ambiguous token.
    pub(crate) fn should_skip_currency(measurement: &Measurement) -> (r: bool)
        ensures
            r == skip_currency(measurement@),
    {
        let lc = lower_chars_of(measurement.code.as_str());
        if is_denylisted(&lc) {
            return true;
        }
        let ls = lower_chars_of(measurement.symbol.as_str());
        is_denylisted(&ls)
    }

    /// Takes ownership of the externally supplied catalog and compiles the
    /// two recognition patterns from its vocabulary: the lower-cased symbols
    /// of the kept currencies and the lower-cased codes of the physical
    /// units, in catalog order, de-duplicated.
    pub fn new(measurements: Vec<Measurement>) -> (r: ConversionService)
        ensures
            r@ == meas_models(measurements@),
            r.catalog() == measurements@,
    {
        let ghost mm = meas_models(measurements@);
        let mut currency_codes: Vec<Vec<char>> = Vec::new();
        let mut i: usize = 0;
        while i < measurements.len()
            invariant
                i <= measurements@.len(),
                mm == meas_models(measurements@),
                vocab_model(currency_codes@) == currency_vocab(mm.take(i as int)),
            decreases measurements@.len() - i,
        {
            let m = &measurements[i];
            proof {
                assert(mm[i as int] == measurements@[i as int]@);
                assert(mm.take(i + 1) =~= mm.take(i as int).push(mm[i as int]));
                lemma_currency_raw_push(mm.take(i as int), mm[i as int]);
            }
            let keep: bool = m.kind.is_currency() && !Self::should_skip_currency(m)
                && !m.symbol.as_str().is_empty();
            assert(keep == keeps_currency_token(mm[i as int]));
            if keep {
                let tok = lower_chars_of(m.symbol.as_str());
                proof {
                    assert(currency_tokens_raw(mm.take(i as int)).push(tok@) =~= currency_tokens_raw(
                        mm.take(i as int),
                    ) + seq![tok@]);
                    lemma_dedup_push(currency_tokens_raw(mm.take(i as int)), tok@);
                    lemma_dedup_same_members(currency_tokens_raw(mm.take(i as int)), tok@);
                }
                proof {
                    lemma_concat_empty(dedup_tokens(currency_tokens_raw(mm.take(i as int))));
                }
                if !contains_token(&currency_codes, &tok) {
                    proof {
                        assert(vocab_model(currency_codes@.push(tok)) =~= vocab_model(
                            currency_codes@,
                        ) + seq![tok@]);
                    }
                    currency_codes.push(tok);
                }
            } else {
                proof {
                    lemma_concat_empty(currency_tokens_raw(mm.take(i as int)));
                }
            }
            i = i + 1;
        }

        let mut measurements_codes: Vec<Vec<char>> = Vec::new();
        let mut k: usize = 0;
        while k < measurements.len()
            invariant
                k <= measurements@.len(),
                mm == meas_models(measurements@),
                vocab_model(measurements_codes@) == unit_vocab(mm.take(k as int)),
            decreases measurements@.len() - k,
        {
            let m = &measurements[k];
            proof {
                assert(mm[k as int] == measurements@[k as int]@);
                assert(mm.take(k + 1) =~= mm.take(k as int).push(mm[k as int]));
                lemma_unit_raw_push(mm.take(k as int), mm[k as int]);
            }
            let keep: bool = !m.kind.is_currency() && !m.code.as_str().is_empty();
            assert(keep == keeps_unit_token(mm[k as int]));
            if keep {
                let tok = lower_chars_of(m.code.as_str());
                proof {
                    assert(unit_tokens_raw(mm.take(k as int)).push(tok@) =~= unit_tokens_raw(
                        mm.take(k as int),
                    ) + seq![tok@]);
                    lemma_dedup_push(unit_tokens_raw(mm.take(k as int)), tok@);
                    lemma_dedup_same_members(unit_tokens_raw(mm.take(k as int)), tok@);
                    lemma_concat_empty(dedup_tokens(unit_tokens_raw(mm.take(k as int))));
                }
                if !contains_token(&measurements_codes, &tok) {
                    proof {
                        assert(vocab_model(measurements_codes@.push(tok)) =~= vocab_model(
                            measurements_codes@,
                        ) + seq![tok@]);
                    }
                    measurements_codes.push(tok);
                }
            } else {
                proof {
                    lemma_concat_empty(unit_tokens_raw(mm.take(k as int)));
                }
            }
            k = k + 1;
        }

        proof {
            assert(mm.take(measurements@.len() as int) =~= mm);
        }
        ConversionService {
            regexes: Regexes::new(currency_codes, measurements_codes),
            measurements,
        }
    }

    /// The first measurement, in catalog order, that the predicate accepts,
    /// or `None` when it accepts none. The lookup never blocks: the catalog
    /// is an immutable snapshot, so this is a plain bounded scan.
    pub fn find_by<F: Fn(&Measurement) -> bool>(&self, func: F) -> (r: Option<Measurement>)
        requires
            forall|m: &Measurement| #[trigger] call_requires(func, (m,)),
        ensures
            match r {
                Some(m) => exists|i: int|
                    {
                        &&& 0 <= i < self.catalog().len()
                        &&& m == self.catalog()[i]
                        &&& call_ensures(func, (&self.catalog()[i],), true)
                        &&& forall|j: int|
                            0 <= j < i ==> call_ensures(func, (&self.catalog()[j],), false)
                    },
                None => forall|j: int|
                    0 <= j < self.catalog().len() ==> call_ensures(
                        func,
                        (&self.catalog()[j],),
                        false,
                    ),
            },
{
        let mut j: usize = 0;
        while j < self.measurements.len()
            invariant
                j <= self.catalog().len(),
                self.catalog() == self.measurements@,
                forall|i: int|
                    0 <= i < j ==> call_ensures(func, (&self.catalog()[i],), false),
                forall|m: &Measurement| #[trigger] call_requires(func, (m,)),
            decreases self.catalog().len() - j,
        {
            if func(&self.measurements[j]) {
                let found = self.measurements[j].clone();
                return Some(found);
            }
            j = j + 1;
        }
        None
    }

    /// Recognizes quantity mentions in `content`: the currency-pattern
    /// matches in text order, then the unit-pattern matches in text order,
    /// each resolved against the catalog (currencies by code, units by
    /// symbol) and dropped silently when its literal has no representable
    /// value or its token resolves to no measurement. Yields
    /// `NoConversions` exactly when nothing survives.
    pub fn search(&self, content: &str) -> (r: Result<Vec<ConversionContext>, ConversionError>)
        ensures
            match r {
                Ok(v) => {
                    &&& v@.map_values(|c: ConversionContext| c@) == search_contexts(self@, content@)
                    &&& v@.len() > 0
                },
                Err(e) => {
                    &&& e is NoConversions
                    &&& search_contexts(self@, content@).len() == 0
                },
            },
    {
        proof {
            use_type_invariant(self);
        }
        let t = chars_of(content);
        let curr_raw = scan_curr_matches(&t, &self.regexes.currency_tokens);
        let unit_raw = scan_unit_matches(&t, &self.regexes.unit_tokens);
        let mut contexts: Vec<ConversionContext> = Vec::new();
        append_currency_contexts(&self.measurements, &t, &self.regexes.currency_tokens, &curr_raw,
            &mut contexts);
        append_unit_contexts(&self.measurements, &t, &self.regexes.unit_tokens, &unit_raw,
            &mut contexts);
        proof {
            assert(Seq::<ContextModel>::empty() + currency_contexts(
                self@,
                curr_matches_from(t@, currency_vocab(self@), 0),
            ) =~= currency_contexts(self@, curr_matches_from(t@, currency_vocab(self@), 0)));
            assert(contexts@.map_values(|c: ConversionContext| c@) == search_contexts(
                self@,
                content@,
            ));
        }
        if contexts.len() > 0 {
            Ok(contexts)
        } else {
            proof {
                assert(search_contexts(self@, content@).len() == 0);
            }
            Err(ConversionError::NoConversions)
        }
    }

    /// Converts the request's magnitude into every requested target, in
    /// request order: by the explicit formulas between the Celsius and
    /// Fahrenheit scales, by the linear rate path otherwise. Fails on the
    /// first target whose conversion is undefined (zero source rate) or whose
    /// exact result does not fit a [`Ratio`]; an empty target list yields an
    /// empty result.
    pub fn convert(&self, request: ConversionRequest) -> (r: Result<Conversion, ConversionError>)
        ensures
            match r {
                Ok(c) => {
                    &&& request_ok(request@)
                    &&& c@.from == request@.from
                    &&& c@.base_value == request@.value
                    &&& c@.to.len() == request@.to_list.len()
                    &&& forall|i: int|
                        0 <= i < c@.to.len() ==> (#[trigger] c@.to[i]).to == request@.to_list[i]
                    &&& forall|i: int|
                        0 <= i < c@.to.len() ==> rat_eq(
                            (#[trigger] c@.to[i]).value,
                            conv_value(request@.from, request@.to_list[i], request@.value),
                        ) && c@.to[i].value.den >= 1
                },
                Err(e) => {
                    &&& !request_ok(request@)
                    &&& e == conv_err(
                        request@.from,
                        request@.to_list[first_bad_target(request@, 0)],
                        request@.value,
                    )
                },
            },
    {
        let ghost req = request@;
        let from_is_c: bool = str_is_char(request.from.code.as_str(), 'c');
        let from_is_f: bool = str_is_char(request.from.code.as_str(), 'f');
        let mut to_list: Vec<MeasurementConversion> = Vec::new();
        let ghost cv = |c: MeasurementConversion| c@;
        let mut i: usize = 0;
        while i < request.to_list.len()
            invariant
                i <= request.to_list@.len(),
                req == request@,
                from_is_c == (request.from.code@ == seq!['c']),
                from_is_f == (request.from.code@ == seq!['f']),
                cv == (|c: MeasurementConversion| c@),
                to_list@.len() == i,
                forall|j: int|
                    0 <= j < i ==> conv_ok(req.from, #[trigger] req.to_list[j], req.value),
                forall|j: int|
                    0 <= j < i ==> (#[trigger] to_list@.map_values(cv)[j]).to == req.to_list[j],
                forall|j: int|
                    0 <= j < i ==> rat_eq(
                        (#[trigger] to_list@.map_values(cv)[j]).value,
                        conv_value(req.from, req.to_list[j], req.value),
                    ) && to_list@.map_values(cv)[j].value.den >= 1,
            decreases request.to_list@.len() - i,
        {
            let m = &request.to_list[i];
            proof {
                assert(req.to_list[i as int] == request.to_list@[i as int]@);
            }
            let to_is_c: bool = str_is_char(m.code.as_str(), 'c');
            let to_is_f: bool = str_is_char(m.code.as_str(), 'f');
            let converted: Option<Ratio> = if from_is_c && to_is_f {
                crate::rat::celsius_to_fahrenheit(&request.value)
            } else if from_is_f && to_is_c {
                crate::rat::fahrenheit_to_celsius(&request.value)
            } else {
                crate::rat::linear_convert(&request.value, &request.from.rate, &m.rate)
            };
            match converted {
                Some(value) => {
                    let entry = MeasurementConversion { to: m.clone(), value };
                    proof {
                        assert(to_list@.push(entry).map_values(cv) =~= to_list@.map_values(
                            cv,
                        ).push(entry@));
                    }
                    to_list.push(entry);
                },
                None => {
                    proof {
                        assert(!conv_ok(req.from, req.to_list[i as int], req.value));
                        lemma_first_bad_target_from(req, i as int);
                        assert(first_bad_target(req, 0) == i as int);
                    }
                    let e: ConversionError = if !(from_is_c && to_is_f) && !(from_is_f && to_is_c)
                        && request.from.rate.num() == 0 {
                        ConversionError::UnsupportedConversion
                    } else {
                        ConversionError::ValueOutOfRange
                    };
                    return Err(e);
                },
            }
            i = i + 1;
        }
        let result = Conversion { from: request.from, base_value: request.value, to: to_list };
        Ok(result)
    }
}

} // verus!
