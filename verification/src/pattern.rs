//! The two recognition patterns and their verified matcher.
//!
//! A pattern is an ordered vocabulary of tokens together with a fixed grammar:
//! the currency pattern matches a vocabulary token immediately followed by a
//! numeric literal, the unit pattern a numeric literal immediately followed by
//! a vocabulary token. A numeric literal is an optional sign, one or more
//! digits, and at most one decimal point followed by one or more digits. A
//! match is rejected when the character right after it is an ASCII letter or
//! digit (the token-boundary rule), so `5kmh` does not contain a standalone
//! `km`. Scanning is leftmost-first and non-overlapping: the earliest starting
//! match wins, alternatives are tried in vocabulary order, and scanning
//! resumes after the end of each match.

use vstd::prelude::*;

use crate::rat::{Ratio, RatioModel};
use crate::text::{is_alnum_char, is_ascii_alnum, is_ascii_digit, is_digit_char, is_sign,
    is_sign_char};

verus! {

/// One recognized occurrence: the numeric literal and the vocabulary token.
pub ghost struct MatchModel {
    pub lit: Seq<char>,
    pub tok: Seq<char>,
}

/// An occurrence together with the text position right after it.
pub ghost struct MatchHit {
    pub lit: Seq<char>,
    pub tok: Seq<char>,
    pub end: int,
}

/// The token vocabularies of a `Vec`-backed pattern.
pub open spec fn vocab_model(vocab: Seq<Vec<char>>) -> Seq<Seq<char>> {
    vocab.map_values(|t: Vec<char>| t@)
}

/// `tok` is one of the vocabulary's tokens.
pub open spec fn tok_in_vocab(vocab: Seq<Seq<char>>, tok: Seq<char>) -> bool {
    exists|k: int| 0 <= k < vocab.len() && vocab[k] == tok
}

/// End of the run of ASCII digits starting at `i`.
pub open spec fn digits_end(t: Seq<char>, i: int) -> int
    decreases t.len() - i,
{
    if 0 <= i < t.len() && is_ascii_digit(t[i]) {
        digits_end(t, i + 1)
    } else {
        i
    }
}

/// No ASCII letter or digit directly follows position `p` (end of text, or a
/// non-alphanumeric character).
pub open spec fn boundary_ok(t: Seq<char>, p: int) -> bool {
    p >= t.len() || !is_ascii_alnum(t[p])
}

/// End of the numeric literal starting at `i`, or `i` itself when no literal
/// starts there. The literal is an optional sign, one or more digits, and at
/// most one decimal point followed by one or more digits (maximal munch).
pub open spec fn num_end(t: Seq<char>, i: int) -> int {
    let s = if 0 <= i < t.len() && is_sign(t[i]) {
        i + 1
    } else {
        i
    };
    let d = digits_end(t, s);
    if d == s {
        i
    } else if d < t.len() && t[d] == '.' && digits_end(t, d + 1) > d + 1 {
        digits_end(t, d + 1)
    } else {
        d
    }
}

/// Token `tok` (nonempty) occurs literally at position `p`.
pub open spec fn prefix_fits(t: Seq<char>, p: int, tok: Seq<char>) -> bool {
    &&& tok.len() >= 1
    &&& p + tok.len() <= t.len()
    &&& t.subrange(p, p + tok.len()) == tok
}

/// Token `tok` occurs at position `p` and is followed by a valid boundary:
/// the unit-pattern way of accepting a token after a literal.
pub open spec fn tok_fits(t: Seq<char>, p: int, tok: Seq<char>) -> bool {
    &&& prefix_fits(t, p, tok)
    &&& boundary_ok(t, p + tok.len())
}

/// Index of the first vocabulary token, from `k` on, that fits at `p` in the
/// unit-pattern sense.
pub open spec fn first_unit_tok(t: Seq<char>, vocab: Seq<Seq<char>>, p: int, k: int) -> Option<int>
    decreases vocab.len() - k,
{
    if !(0 <= k < vocab.len()) {
        None
    } else if tok_fits(t, p, vocab[k]) {
        Some(k)
    } else {
        first_unit_tok(t, vocab, p, k + 1)
    }
}

/// The unit pattern matches at position `i`: a numeric literal, then the
/// first vocabulary token that fits with a valid boundary after it.
pub open spec fn unit_hit(t: Seq<char>, vocab: Seq<Seq<char>>, i: int) -> Option<MatchHit> {
    let e = num_end(t, i);
    if e <= i {
        None
    } else {
        match first_unit_tok(t, vocab, e, 0) {
            Some(k) => Some(
                MatchHit { lit: t.subrange(i, e), tok: vocab[k], end: e + vocab[k].len() },
            ),
            None => None,
        }
    }
}

/// Token `tok` occurs at position `i` and a numeric literal with a valid
/// boundary directly follows it: the currency-pattern condition.
pub open spec fn curr_fits(t: Seq<char>, i: int, tok: Seq<char>) -> bool {
    &&& prefix_fits(t, i, tok)
    &&& num_end(t, i + tok.len()) > i + tok.len()
    &&& boundary_ok(t, num_end(t, i + tok.len()))
}

/// Index of the first vocabulary token, from `k` on, that fits at `i` in the
/// currency-pattern sense.
pub open spec fn first_curr_tok(t: Seq<char>, vocab: Seq<Seq<char>>, i: int, k: int) -> Option<int>
    decreases vocab.len() - k,
{
    if !(0 <= k < vocab.len()) {
        None
    } else if curr_fits(t, i, vocab[k]) {
        Some(k)
    } else {
        first_curr_tok(t, vocab, i, k + 1)
    }
}

/// The currency pattern matches at position `i`: the first vocabulary token
/// that occurs here with a numeric literal and a valid boundary after it.
pub open spec fn curr_hit(t: Seq<char>, vocab: Seq<Seq<char>>, i: int) -> Option<MatchHit> {
    match first_curr_tok(t, vocab, i, 0) {
        Some(k) => {
            let s = i + vocab[k].len();
            let e = num_end(t, s);
            Some(MatchHit { lit: t.subrange(s, e), tok: vocab[k], end: e })
        },
        None => None,
    }
}

/// All unit-pattern matches from position `i` on: leftmost first,
/// non-overlapping, resuming after the end of each match.
pub open spec fn unit_matches_from(t: Seq<char>, vocab: Seq<Seq<char>>, i: int) -> Seq<MatchModel>
    decreases t.len() - i,
{
    if !(0 <= i < t.len()) {
        Seq::<MatchModel>::empty()
    } else {
        match unit_hit(t, vocab, i) {
            Some(h) => {
                if i < h.end <= t.len() {
                    seq![MatchModel { lit: h.lit, tok: h.tok }] + unit_matches_from(t, vocab, h.end)
                } else {
                    unit_matches_from(t, vocab, i + 1)
                }
            },
            None => unit_matches_from(t, vocab, i + 1),
        }
    }
}

/// All currency-pattern matches from position `i` on: leftmost first,
/// non-overlapping, resuming after the end of each match.
pub open spec fn curr_matches_from(t: Seq<char>, vocab: Seq<Seq<char>>, i: int) -> Seq<MatchModel>
    decreases t.len() - i,
{
    if !(0 <= i < t.len()) {
        Seq::<MatchModel>::empty()
    } else {
        match curr_hit(t, vocab, i) {
            Some(h) => {
                if i < h.end <= t.len() {
                    seq![MatchModel { lit: h.lit, tok: h.tok }] + curr_matches_from(t, vocab, h.end)
                } else {
                    curr_matches_from(t, vocab, i + 1)
                }
            },
            None => curr_matches_from(t, vocab, i + 1),
        }
    }
}

// ---------------------------------------------------------------------------
// Properties of the grammar functions
// ---------------------------------------------------------------------------

proof fn lemma_digits_end_bounds(t: Seq<char>, i: int)
    requires
        0 <= i <= t.len(),
    ensures
        i <= digits_end(t, i) <= t.len(),
        forall|j: int| i <= j < digits_end(t, i) ==> is_ascii_digit(t[j]),
        digits_end(t, i) < t.len() ==> !is_ascii_digit(t[digits_end(t, i)]),
    decreases t.len() - i,
{
    if i < t.len() && is_ascii_digit(t[i]) {
        lemma_digits_end_bounds(t, i + 1);
    }
}

proof fn lemma_num_end_bounds(t: Seq<char>, i: int)
    requires
        0 <= i <= t.len(),
    ensures
        num_end(t, i) == i || i < num_end(t, i) <= t.len(),
{
    let s = if i < t.len() && is_sign(t[i]) {
        i + 1
    } else {
        i
    };
    lemma_digits_end_bounds(t, s);
    let d = digits_end(t, s);
    if d != s && d < t.len() && t[d] == '.' && digits_end(t, d + 1) > d + 1 {
        lemma_digits_end_bounds(t, d + 1);
    }
}

proof fn lemma_first_unit_tok_props(t: Seq<char>, vocab: Seq<Seq<char>>, p: int, k: int)
    requires
        0 <= k,
    ensures
        match first_unit_tok(t, vocab, p, k) {
            Some(j) => k <= j < vocab.len() && tok_fits(t, p, vocab[j]) && forall|m: int|
                k <= m < j ==> !tok_fits(t, p, vocab[m]),
            None => forall|m: int| k <= m < vocab.len() ==> !tok_fits(t, p, vocab[m]),
        },
    decreases vocab.len() - k,
{
    if 0 <= k < vocab.len() && !tok_fits(t, p, vocab[k]) {
        lemma_first_unit_tok_props(t, vocab, p, k + 1);
    }
}

proof fn lemma_first_curr_tok_props(t: Seq<char>, vocab: Seq<Seq<char>>, i: int, k: int)
    requires
        0 <= k,
    ensures
        match first_curr_tok(t, vocab, i, k) {
            Some(j) => k <= j < vocab.len() && curr_fits(t, i, vocab[j]) && forall|m: int|
                k <= m < j ==> !curr_fits(t, i, vocab[m]),
            None => forall|m: int| k <= m < vocab.len() ==> !curr_fits(t, i, vocab[m]),
        },
    decreases vocab.len() - k,
{
    if 0 <= k < vocab.len() && !curr_fits(t, i, vocab[k]) {
        lemma_first_curr_tok_props(t, vocab, i, k + 1);
    }
}

/// Every token of a unit-pattern match is a vocabulary token, and the match
/// ends inside the text.
proof fn lemma_unit_hit_props(t: Seq<char>, vocab: Seq<Seq<char>>, i: int)
    requires
        0 <= i <= t.len(),
    ensures
        match unit_hit(t, vocab, i) {
            Some(h) => {
                &&& i < h.end <= t.len()
                &&& tok_in_vocab(vocab, h.tok)
                &&& h.lit == t.subrange(i, num_end(t, i))
                &&& num_end(t, i) > i
            },
            None => true,
        },
{
    lemma_num_end_bounds(t, i);
    let e = num_end(t, i);
    if e > i {
        lemma_first_unit_tok_props(t, vocab, e, 0);
    }
}

/// Every token of a currency-pattern match is a vocabulary token, and the
/// match ends inside the text.
proof fn lemma_curr_hit_props(t: Seq<char>, vocab: Seq<Seq<char>>, i: int)
    requires
        0 <= i <= t.len(),
    ensures
        match curr_hit(t, vocab, i) {
            Some(h) => {
                &&& i < h.end <= t.len()
                &&& tok_in_vocab(vocab, h.tok)
                &&& h.lit == t.subrange(i + h.tok.len(), h.end)
                &&& h.end == num_end(t, i + h.tok.len())
                &&& num_end(t, i + h.tok.len()) > i + h.tok.len()
            },
            None => true,
        },
{
    lemma_first_curr_tok_props(t, vocab, i, 0);
    match first_curr_tok(t, vocab, i, 0) {
        Some(k) => {
            lemma_num_end_bounds(t, i + vocab[k].len());
        },
        None => {},
    }
}

/// Every match that either pattern yields carries a vocabulary token.
pub proof fn lemma_matches_toks_in_vocab(t: Seq<char>, vocab: Seq<Seq<char>>, i: int)
    requires
        0 <= i,
    ensures
        forall|j: int|
            0 <= j < unit_matches_from(t, vocab, i).len() ==> tok_in_vocab(
                vocab,
                (#[trigger] unit_matches_from(t, vocab, i)[j]).tok,
            ),
        forall|j: int|
            0 <= j < curr_matches_from(t, vocab, i).len() ==> tok_in_vocab(
                vocab,
                (#[trigger] curr_matches_from(t, vocab, i)[j]).tok,
            ),
    decreases t.len() - i,
{
    if 0 <= i < t.len() {
        lemma_unit_hit_props(t, vocab, i);
        lemma_curr_hit_props(t, vocab, i);
        lemma_matches_toks_in_vocab(t, vocab, i + 1);
        let um = unit_matches_from(t, vocab, i);
        match unit_hit(t, vocab, i) {
            Some(h) => {
                if i < h.end <= t.len() {
                    lemma_matches_toks_in_vocab(t, vocab, h.end);
                    let rest = unit_matches_from(t, vocab, h.end);
                    assert(um == seq![MatchModel { lit: h.lit, tok: h.tok }] + rest);
                    assert forall|j: int| 0 <= j < um.len() implies tok_in_vocab(
                        vocab,
                        (#[trigger] um[j]).tok,
                    ) by {
                        if j == 0 {
                            assert(um[j].tok == h.tok);
                        } else {
                            assert(um[j] == rest[j - 1]);
                            assert(tok_in_vocab(vocab, rest[j - 1].tok));
                        }
                    }
                } else {
                    assert(um == unit_matches_from(t, vocab, i + 1));
                }
            },
            None => {
                assert(um == unit_matches_from(t, vocab, i + 1));
            },
        }
        let cm = curr_matches_from(t, vocab, i);
        match curr_hit(t, vocab, i) {
            Some(h) => {
                if i < h.end <= t.len() {
                    lemma_matches_toks_in_vocab(t, vocab, h.end);
                    let rest = curr_matches_from(t, vocab, h.end);
                    assert(cm == seq![MatchModel { lit: h.lit, tok: h.tok }] + rest);
                    assert forall|j: int| 0 <= j < cm.len() implies tok_in_vocab(
                        vocab,
                        (#[trigger] cm[j]).tok,
                    ) by {
                        if j == 0 {
                            assert(cm[j].tok == h.tok);
                        } else {
                            assert(cm[j] == rest[j - 1]);
                            assert(tok_in_vocab(vocab, rest[j - 1].tok));
                        }
                    }
                } else {
                    assert(cm == curr_matches_from(t, vocab, i + 1));
                }
            },
            None => {
                assert(cm == curr_matches_from(t, vocab, i + 1));
            },
        }
    }
}

// ---------------------------------------------------------------------------
// Structure of a scanned numeric literal
// ---------------------------------------------------------------------------

/// Every character is an ASCII digit.
pub open spec fn all_digits(s: Seq<char>) -> bool {
    forall|j: int| 0 <= j < s.len() ==> is_ascii_digit(#[trigger] s[j])
}

/// Position of the first decimal point at or after `i`, or the length when
/// there is none.
pub open spec fn dot_pos(s: Seq<char>, i: int) -> int
    decreases s.len() - i,
{
    if !(0 <= i < s.len()) {
        s.len() as int
    } else if s[i] == '.' {
        i
    } else {
        dot_pos(s, i + 1)
    }
}

/// The literal without its optional leading sign.
pub open spec fn lit_body(lit: Seq<char>) -> Seq<char> {
    if lit.len() > 0 && is_sign(lit[0]) {
        lit.drop_first()
    } else {
        lit
    }
}

/// The literal denotes a negative number.
pub open spec fn lit_neg(lit: Seq<char>) -> bool {
    lit.len() > 0 && lit[0] == '-'
}

/// The digits before the decimal point.
pub open spec fn lit_ipart(lit: Seq<char>) -> Seq<char> {
    lit_body(lit).take(dot_pos(lit_body(lit), 0))
}

/// The digits after the decimal point (empty when there is none).
pub open spec fn lit_fpart(lit: Seq<char>) -> Seq<char> {
    let b = lit_body(lit);
    let d = dot_pos(b, 0);
    if d < b.len() {
        b.subrange(d + 1, b.len() as int)
    } else {
        Seq::<char>::empty()
    }
}

/// The shape every literal produced by the patterns has: an optional sign,
/// one or more digits, and at most one decimal point followed by one or more
/// digits.
pub open spec fn valid_lit(lit: Seq<char>) -> bool {
    &&& lit_ipart(lit).len() >= 1
    &&& all_digits(lit_ipart(lit))
    &&& all_digits(lit_fpart(lit))
    &&& (dot_pos(lit_body(lit), 0) < lit_body(lit).len() ==> lit_fpart(lit).len() >= 1)
}

proof fn lemma_dot_pos_props(s: Seq<char>, i: int)
    requires
        0 <= i <= s.len(),
    ensures
        i <= dot_pos(s, i) <= s.len(),
        forall|j: int| i <= j < dot_pos(s, i) ==> s[j] != '.',
        dot_pos(s, i) < s.len() ==> s[dot_pos(s, i)] == '.',
    decreases s.len() - i,
{
    if i < s.len() && s[i] != '.' {
        lemma_dot_pos_props(s, i + 1);
    }
}

/// A digit is never a decimal point.
proof fn lemma_digit_not_dot(c: char)
    requires
        is_ascii_digit(c),
    ensures
        c != '.',
{
    assert('.' as u32 == 46);
}

/// The text of a literal recognized by `num_end` has the `valid_lit` shape.
proof fn lemma_scanned_lit_valid(t: Seq<char>, i: int)
    requires
        0 <= i <= t.len(),
        num_end(t, i) > i,
    ensures
        valid_lit(t.subrange(i, num_end(t, i))),
{
    let e = num_end(t, i);
    let s = if i < t.len() && is_sign(t[i]) {
        i + 1
    } else {
        i
    };
    let d = digits_end(t, s);
    lemma_digits_end_bounds(t, s);
    lemma_num_end_bounds(t, i);
    let lit = t.subrange(i, e);
    let b = lit_body(lit);
    assert(b =~= t.subrange(s, e));
    assert forall|j: int| s <= j < d implies t[j] != '.' by {
        lemma_digit_not_dot(t[j]);
    }
    lemma_dot_pos_props(b, 0);
    if d < t.len() && t[d] == '.' && digits_end(t, d + 1) > d + 1 {
        // fractional case: e is the end of the digits after the point
        lemma_digits_end_bounds(t, d + 1);
        assert(e == digits_end(t, d + 1));
        assert(b[d - s] == '.');
        assert(dot_pos(b, 0) == d - s) by {
            if dot_pos(b, 0) < d - s {
                assert(t[s + dot_pos(b, 0)] != '.');
                assert(b[dot_pos(b, 0)] == t[s + dot_pos(b, 0)]);
            }
            if dot_pos(b, 0) > d - s {
                assert(b[d - s] != '.');
            }
        }
        assert(lit_ipart(lit) =~= t.subrange(s, d));
        assert(lit_fpart(lit) =~= t.subrange(d + 1, e));
    } else {
        // integral case: e is the end of the digit run
        assert(e == d);
        assert(dot_pos(b, 0) == b.len()) by {
            if dot_pos(b, 0) < b.len() {
                assert(b[dot_pos(b, 0)] == '.');
                assert(b[dot_pos(b, 0)] == t[s + dot_pos(b, 0)]);
            }
        }
        assert(lit_ipart(lit) =~= t.subrange(s, d));
    }
}

// ---------------------------------------------------------------------------
// Value of a numeric literal
// ---------------------------------------------------------------------------

/// Numeric value of an ASCII digit.
pub open spec fn digit_val(c: char) -> int {
    (c as u32) - 48
}

/// Value of a digit string read in base ten.
pub open spec fn digits_val(s: Seq<char>) -> int
    decreases s.len(),
{
    if s.len() == 0 {
        0
    } else {
        digits_val(s.drop_last()) * 10 + digit_val(s.last())
    }
}

/// Ten to the power `n`.
pub open spec fn pow10(n: nat) -> int
    decreases n,
{
    if n == 0 {
        1
    } else {
        10 * pow10((n - 1) as nat)
    }
}

/// The literal's digits (integer and fractional parts), read as one integer.
pub open spec fn lit_mantissa(lit: Seq<char>) -> int {
    digits_val(lit_ipart(lit) + lit_fpart(lit))
}

/// The literal's denominator: ten to the number of fractional digits.
pub open spec fn lit_den(lit: Seq<char>) -> int {
    pow10(lit_fpart(lit).len())
}

/// Exact rational value of a numeric literal, or `None` exactly when that
/// value does not fit a [`crate::rat::Ratio`]. A match whose literal does not
/// fit is dropped by the recognition engine, exactly as one whose token
/// resolves to no registered measurement.
pub open spec fn parse_lit(lit: Seq<char>) -> Option<RatioModel> {
    if lit_mantissa(lit) <= i64::MAX && lit_den(lit) <= u64::MAX {
        Some(
            RatioModel {
                num: if lit_neg(lit) {
                    -lit_mantissa(lit)
                } else {
                    lit_mantissa(lit)
                },
                den: lit_den(lit),
            },
        )
    } else {
        None
    }
}

proof fn lemma_digits_val_nonneg(s: Seq<char>)
    requires
        all_digits(s),
    ensures
        digits_val(s) >= 0,
    decreases s.len(),
{
    if s.len() > 0 {
        assert(all_digits(s.drop_last()));
        lemma_digits_val_nonneg(s.drop_last());
    }
}

proof fn lemma_digits_val_push(s: Seq<char>, c: char)
    ensures
        digits_val(s.push(c)) == digits_val(s) * 10 + digit_val(c),
{
    assert(s.push(c).drop_last() =~= s);
    assert(s.push(c).last() == c);
}

proof fn lemma_digits_val_take_le(s: Seq<char>, k: int)
    requires
        all_digits(s),
        0 <= k <= s.len(),
    ensures
        digits_val(s.take(k)) <= digits_val(s),
    decreases s.len(),
{
    if k == s.len() {
        assert(s.take(k) =~= s);
    } else {
        assert(all_digits(s.drop_last()));
        assert(s.take(k) =~= s.drop_last().take(k));
        lemma_digits_val_take_le(s.drop_last(), k);
        lemma_digits_val_nonneg(s.drop_last());
    }
}

proof fn lemma_pow10_pos(n: nat)
    ensures
        pow10(n) >= 1,
    decreases n,
{
    if n > 0 {
        lemma_pow10_pos((n - 1) as nat);
    }
}

proof fn lemma_pow10_le(a: nat, b: nat)
    requires
        a <= b,
    ensures
        pow10(a) <= pow10(b),
    decreases b,
{
    if a < b {
        lemma_pow10_le(a, (b - 1) as nat);
        lemma_pow10_pos((b - 1) as nat);
    }
}

/// Exact rational value of the literal at `t[lo..hi]`, executable form.
pub(crate) fn parse_literal(t: &Vec<char>, lo: usize, hi: usize) -> (r: Option<Ratio>)
    requires
        lo <= hi <= t@.len(),
        valid_lit(t@.subrange(lo as int, hi as int)),
    ensures
        (match r {
            Some(x) => parse_lit(t@.subrange(lo as int, hi as int)) == Some(x@),
            None => parse_lit(t@.subrange(lo as int, hi as int)) is None,
        }),
{
    let ghost lit = t@.subrange(lo as int, hi as int);
    let ghost b = lit_body(lit);
    let ghost ip = lit_ipart(lit);
    let ghost fp = lit_fpart(lit);
    proof {
        lemma_dot_pos_props(b, 0);
        assert(lit.len() >= 1);
    }
    let neg: bool = t[lo] == '-';
    assert(neg == lit_neg(lit));
    let has_sign: bool = is_sign_char(t[lo]);
    let bstart: usize = if has_sign {
        lo + 1
    } else {
        lo
    };
    assert(b =~= t@.subrange(bstart as int, hi as int));

    // position of the decimal point, or `hi` when there is none
    let mut dotj: usize = bstart;
    while dotj < hi && t[dotj] != '.'
        invariant
            bstart <= dotj <= hi,
            hi <= t@.len(),
            b == t@.subrange(bstart as int, hi as int),
            forall|m: int| 0 <= m < dotj - bstart ==> b[m] != '.',
        decreases hi - dotj,
    {
        assert(b[dotj - bstart] == t@[dotj as int]);
        dotj = dotj + 1;
    }
    proof {
        if dotj < hi {
            assert(b[dotj - bstart] == '.');
            if dot_pos(b, 0) < dotj - bstart {
                assert(b[dot_pos(b, 0)] == '.');
            }
            if dot_pos(b, 0) > dotj - bstart {
                assert(b[dotj - bstart] != '.');
            }
            assert(dot_pos(b, 0) == dotj - bstart);
        } else {
            if dot_pos(b, 0) < b.len() {
                assert(b[dot_pos(b, 0)] == '.');
            }
            assert(dot_pos(b, 0) == b.len());
        }
        assert(ip =~= t@.subrange(bstart as int, dotj as int));
        if dotj < hi {
            assert(fp =~= t@.subrange(dotj + 1 as int, hi as int));
        } else {
            assert(fp =~= Seq::<char>::empty());
        }
        assert(ip + fp.take(0) =~= ip);
    }

    // integer-part digits
    let mut acc: u64 = 0;
    let mut j: usize = bstart;
    while j < dotj
        invariant
            lo <= bstart <= j <= dotj <= hi <= t@.len(),
            lit == t@.subrange(lo as int, hi as int),
            ip == lit_ipart(lit),
            fp == lit_fpart(lit),
            ip == t@.subrange(bstart as int, dotj as int),
            all_digits(ip),
            all_digits(fp),
            acc as int == digits_val(ip.take(j - bstart)),
        decreases dotj - j,
    {
        assert(ip[j - bstart] == t@[j as int]);
        assert(is_ascii_digit(t@[j as int]));
        let u: u32 = t[j] as u32;
        let d: u64 = (u - 48) as u64;
        proof {
            assert(ip.take(j - bstart).push(ip[j - bstart]) =~= ip.take(j + 1 - bstart));
            lemma_digits_val_push(ip.take(j - bstart), ip[j - bstart]);
        }
        let step: Option<u64> = match acc.checked_mul(10) {
            Some(a2) => a2.checked_add(d),
            None => None,
        };
        match step {
            Some(a3) => {
                acc = a3;
            },
            None => {
                proof {
                    assert(digits_val(ip.take(j + 1 - bstart)) > u64::MAX);
                    assert((ip + fp).take(j + 1 - bstart) =~= ip.take(j + 1 - bstart));
                    lemma_overflow_means_no_parse(lit, ip, fp, (j + 1 - bstart) as int);
                }
                return None;
            },
        }
        j = j + 1;
    }
    proof {
        assert(ip.take(dotj - bstart) =~= ip);
    }

    // fractional-part digits and denominator
    let mut den: u64 = 1;
    if dotj < hi {
        let mut m: usize = dotj + 1;
        while m < hi
            invariant
                dotj + 1 <= m <= hi <= t@.len(),
                fp == t@.subrange(dotj + 1 as int, hi as int),
                ip == lit_ipart(lit),
                fp == lit_fpart(lit),
                lit == t@.subrange(lo as int, hi as int),
                all_digits(ip),
                all_digits(fp),
                acc as int == digits_val(ip + fp.take(m - dotj - 1)),
                den as int == pow10((m - dotj - 1) as nat),
            decreases hi - m,
        {
            assert(fp[m - dotj - 1] == t@[m as int]);
            assert(is_ascii_digit(t@[m as int]));
            let u: u32 = t[m] as u32;
            let d: u64 = (u - 48) as u64;
            proof {
                assert((ip + fp.take(m - dotj - 1)).push(fp[m - dotj - 1]) =~= ip + fp.take(
                    m - dotj,
                ));
                lemma_digits_val_push(ip + fp.take(m - dotj - 1), fp[m - dotj - 1]);
            }
            let step: Option<u64> = match acc.checked_mul(10) {
                Some(a2) => a2.checked_add(d),
                None => None,
            };
            match step {
                Some(a3) => {
                    acc = a3;
                },
                None => {
                    proof {
                        assert(digits_val(ip + fp.take(m - dotj)) > u64::MAX);
                        assert((ip + fp).take(ip.len() + (m - dotj)) =~= ip + fp.take(m - dotj));
                        lemma_overflow_means_no_parse(lit, ip, fp, ip.len() + (m - dotj) as int);
                    }
                    return None;
                },
            }
            match den.checked_mul(10) {
                Some(d2) => {
                    den = d2;
                },
                None => {
                    proof {
                        lemma_pow10_le((m - dotj) as nat, fp.len());
                        assert(lit_den(lit) > u64::MAX);
                    }
                    return None;
                },
            }
            m = m + 1;
        }
        proof {
            assert(fp.take(hi - dotj - 1) =~= fp);
        }
    }
    proof {
        assert(ip + fp =~= ip + fp.take(fp.len() as int));
        if fp.len() == 0 {
            assert(ip + fp =~= ip);
        }
        assert(acc as int == lit_mantissa(lit));
        assert(den as int == lit_den(lit));
    }
    if acc > i64::MAX as u64 {
        return None;
    }
    proof {
        lemma_pow10_pos(lit_fpart(lit).len());
    }
    let mag: i64 = acc as i64;
    let num: i64 = if neg {
        -mag
    } else {
        mag
    };
    Some(Ratio::new(num, den))
}

/// If a digit prefix of the mantissa already exceeds `u64::MAX`, the whole
/// literal has no representable value.
proof fn lemma_overflow_means_no_parse(lit: Seq<char>, ip: Seq<char>, fp: Seq<char>, k: int)
    requires
        ip == lit_ipart(lit),
        fp == lit_fpart(lit),
        all_digits(ip),
        all_digits(fp),
        0 <= k <= ip.len() + fp.len(),
        digits_val((ip + fp).take(k)) > u64::MAX,
    ensures
        parse_lit(lit) is None,
{
    assert(all_digits(ip + fp));
    lemma_digits_val_take_le(ip + fp, k);
    assert(lit_mantissa(lit) > u64::MAX);
}

// ---------------------------------------------------------------------------
// The executable scanner
// ---------------------------------------------------------------------------

/// The two compiled recognition patterns. Each pattern is its ordered,
/// lower-cased, de-duplicated token vocabulary; the grammar around the tokens
/// is fixed (see the module documentation) and applied by the verified
/// scanner.
pub struct Regexes {
    /// Currency tokens: a match is token-then-literal.
    pub currency_tokens: Vec<Vec<char>>,
    /// Unit tokens: a match is literal-then-token.
    pub unit_tokens: Vec<Vec<char>>,
}

impl Regexes {
    /// Compiles the two patterns from their prepared vocabularies.
    pub fn new(currencies: Vec<Vec<char>>, units: Vec<Vec<char>>) -> (r: Regexes)
        ensures
            r.currency_tokens == currencies,
            r.unit_tokens == units,
    {
        Regexes { currency_tokens: currencies, unit_tokens: units }
    }
}

/// One raw pattern match: positions of the numeric literal in the text, the
/// vocabulary index of the matched token, and the position after the match.
pub(crate) struct RawMatch {
    pub(crate) lit_lo: usize,
    pub(crate) lit_hi: usize,
    pub(crate) tok: usize,
    pub(crate) end: usize,
}

/// The occurrence a raw match stands for.
pub(crate) open spec fn raw_model(t: Seq<char>, vocab: Seq<Seq<char>>, h: RawMatch) -> MatchModel {
    MatchModel { lit: t.subrange(h.lit_lo as int, h.lit_hi as int), tok: vocab[h.tok as int] }
}

/// Well-formedness of a raw match against its text and vocabulary.
pub(crate) open spec fn raw_wf(t: Seq<char>, vocab: Seq<Seq<char>>, h: RawMatch) -> bool {
    &&& h.lit_lo <= h.lit_hi <= t.len()
    &&& h.tok < vocab.len()
    &&& valid_lit(t.subrange(h.lit_lo as int, h.lit_hi as int))
}

/// End of the run of ASCII digits starting at `i`, executable form.
pub(crate) fn scan_digits(t: &Vec<char>, i: usize) -> (e: usize)
    requires
        i <= t@.len(),
    ensures
        e as int == digits_end(t@, i as int),
        i <= e <= t@.len(),
{
    proof {
        lemma_digits_end_bounds(t@, i as int);
    }
    let mut j: usize = i;
    while j < t.len() && is_digit_char(t[j])
        invariant
            i <= j <= t@.len(),
            digits_end(t@, i as int) == digits_end(t@, j as int),
        decreases t@.len() - j,
    {
        j = j + 1;
    }
    j
}

/// End of the numeric literal starting at `i`, executable form.
pub(crate) fn scan_number(t: &Vec<char>, i: usize) -> (e: usize)
    requires
        i <= t@.len(),
    ensures
        e as int == num_end(t@, i as int),
        e == i || i < e <= t@.len(),
{
    proof {
        lemma_num_end_bounds(t@, i as int);
    }
    let n: usize = t.len();
    let s: usize = if i < n && is_sign_char(t[i]) {
        i + 1
    } else {
        i
    };
    let d: usize = scan_digits(t, s);
    if d == s {
        return i;
    }
    if d < n {
        if t[d] == '.' {
            let f: usize = scan_digits(t, d + 1);
            if f > d + 1 {
                return f;
            }
        }
    }
    d
}

/// Whether the nonempty token `tok` occurs literally at position `p`.
pub(crate) fn prefix_at(t: &Vec<char>, p: usize, tok: &Vec<char>) -> (r: bool)
    requires
        p <= t@.len(),
    ensures
        r == prefix_fits(t@, p as int, tok@),
{
    let n: usize = t.len();
    let tl: usize = tok.len();
    if tl == 0 {
        return false;
    }
    if tl > n - p {
        return false;
    }
    let mut j: usize = 0;
    while j < tl
        invariant
            j <= tl,
            n == t@.len(),
            p + tl <= n,
            tl == tok@.len(),
            forall|m: int| 0 <= m < j ==> t@[p + m] == tok@[m],
        decreases tl - j,
    {
        if t[p + j] != tok[j] {
            proof {
                assert(t@.subrange(p as int, p + tl as int)[j as int] == t@[p + j]);
            }
            return false;
        }
        j = j + 1;
    }
    assert(t@.subrange(p as int, p + tl as int) =~= tok@);
    true
}

/// Whether position `p` is followed by a valid token boundary.
pub(crate) fn boundary_at(t: &Vec<char>, p: usize) -> (r: bool)
    requires
        p <= t@.len(),
    ensures
        r == boundary_ok(t@, p as int),
{
    if p >= t.len() {
        true
    } else {
        !is_alnum_char(t[p])
    }
}

/// First vocabulary token fitting at `p` in the unit-pattern sense.
pub(crate) fn find_unit_tok(t: &Vec<char>, vocab: &Vec<Vec<char>>, p: usize) -> (r: Option<usize>)
    requires
        p <= t@.len(),
    ensures
        match r {
            Some(k) => k < vocab@.len() && first_unit_tok(
                t@,
                vocab_model(vocab@),
                p as int,
                0,
            ) == Some(k as int),
            None => first_unit_tok(t@, vocab_model(vocab@), p as int, 0) is None,
        },
{
    let ghost v = vocab_model(vocab@);
    let mut k: usize = 0;
    while k < vocab.len()
        invariant
            p <= t@.len(),
            k <= vocab@.len(),
            v == vocab_model(vocab@),
            first_unit_tok(t@, v, p as int, 0) == first_unit_tok(t@, v, p as int, k as int),
        decreases vocab@.len() - k,
    {
        assert(v[k as int] == vocab@[k as int]@);
        let fits_prefix: bool = prefix_at(t, p, &vocab[k]);
        if fits_prefix {
            // Vec::len returns a usize, which bounds the sum below
            let _n: usize = t.len();
            let q: usize = p + vocab[k].len();
            if boundary_at(t, q) {
                return Some(k);
            }
        }
        k = k + 1;
    }
    None
}

/// First vocabulary token fitting at `i` in the currency-pattern sense.
pub(crate) fn find_curr_tok(t: &Vec<char>, vocab: &Vec<Vec<char>>, i: usize) -> (r: Option<usize>)
    requires
        i <= t@.len(),
    ensures
        match r {
            Some(k) => k < vocab@.len() && first_curr_tok(
                t@,
                vocab_model(vocab@),
                i as int,
                0,
            ) == Some(k as int),
            None => first_curr_tok(t@, vocab_model(vocab@), i as int, 0) is None,
        },
{
    let ghost v = vocab_model(vocab@);
    let mut k: usize = 0;
    while k < vocab.len()
        invariant
            i <= t@.len(),
            k <= vocab@.len(),
            v == vocab_model(vocab@),
            first_curr_tok(t@, v, i as int, 0) == first_curr_tok(t@, v, i as int, k as int),
        decreases vocab@.len() - k,
    {
        assert(v[k as int] == vocab@[k as int]@);
        let fits_prefix: bool = prefix_at(t, i, &vocab[k]);
        if fits_prefix {
            // Vec::len returns a usize, which bounds the sum below
            let _n: usize = t.len();
            let s: usize = i + vocab[k].len();
            let e: usize = scan_number(t, s);
            if e > s && boundary_at(t, e) {
                return Some(k);
            }
        }
        k = k + 1;
    }
    None
}

/// The unit-pattern match at position `i`, if any.
pub(crate) fn unit_hit_at(t: &Vec<char>, vocab: &Vec<Vec<char>>, i: usize) -> (r: Option<
    RawMatch,
>)
    requires
        i < t@.len(),
    ensures
        match r {
            Some(h) => {
                &&& unit_hit(t@, vocab_model(vocab@), i as int) == Some(
                    MatchHit {
                        lit: t@.subrange(h.lit_lo as int, h.lit_hi as int),
                        tok: vocab_model(vocab@)[h.tok as int],
                        end: h.end as int,
                    },
                )
                &&& i < h.end <= t@.len()
                &&& raw_wf(t@, vocab_model(vocab@), h)
            },
            None => unit_hit(t@, vocab_model(vocab@), i as int) is None,
        },
{
    let ghost v = vocab_model(vocab@);
    let e: usize = scan_number(t, i);
    if e <= i {
        return None;
    }
    match find_unit_tok(t, vocab, e) {
        Some(k) => {
            proof {
                lemma_first_unit_tok_props(t@, v, e as int, 0);
                lemma_scanned_lit_valid(t@, i as int);
                assert(v[k as int] == vocab@[k as int]@);
            }
            // Vec::len returns a usize, which bounds the sum below
            let _n: usize = t.len();
            let end: usize = e + vocab[k].len();
            Some(RawMatch { lit_lo: i, lit_hi: e, tok: k, end })
        },
        None => None,
    }
}

/// The currency-pattern match at position `i`, if any.
pub(crate) fn curr_hit_at(t: &Vec<char>, vocab: &Vec<Vec<char>>, i: usize) -> (r: Option<
    RawMatch,
>)
    requires
        i < t@.len(),
    ensures
        match r {
            Some(h) => {
                &&& curr_hit(t@, vocab_model(vocab@), i as int) == Some(
                    MatchHit {
                        lit: t@.subrange(h.lit_lo as int, h.lit_hi as int),
                        tok: vocab_model(vocab@)[h.tok as int],
                        end: h.end as int,
                    },
                )
                &&& i < h.end <= t@.len()
                &&& raw_wf(t@, vocab_model(vocab@), h)
            },
            None => curr_hit(t@, vocab_model(vocab@), i as int) is None,
        },
{
    let ghost v = vocab_model(vocab@);
    match find_curr_tok(t, vocab, i) {
        Some(k) => {
            proof {
                lemma_first_curr_tok_props(t@, v, i as int, 0);
                assert(v[k as int] == vocab@[k as int]@);
            }
            // Vec::len returns a usize, which bounds the sum below
            let _n: usize = t.len();
            let s: usize = i + vocab[k].len();
            let e: usize = scan_number(t, s);
            proof {
                lemma_scanned_lit_valid(t@, s as int);
            }
            Some(RawMatch { lit_lo: s, lit_hi: e, tok: k, end: e })
        },
        None => None,
    }
}

/// All unit-pattern matches in the text, leftmost first, non-overlapping.
pub(crate) fn scan_unit_matches(t: &Vec<char>, vocab: &Vec<Vec<char>>) -> (r: Vec<RawMatch>)
    ensures
        r@.map_values(|h: RawMatch| raw_model(t@, vocab_model(vocab@), h)) == unit_matches_from(
            t@,
            vocab_model(vocab@),
            0,
        ),
        forall|j: int| 0 <= j < r@.len() ==> raw_wf(t@, vocab_model(vocab@), #[trigger] r@[j]),
{
    let ghost v = vocab_model(vocab@);
    let ghost f = |h: RawMatch| raw_model(t@, v, h);
    let mut res: Vec<RawMatch> = Vec::new();
    let mut i: usize = 0;
    while i < t.len()
        invariant
            i <= t@.len(),
            v == vocab_model(vocab@),
            f == (|h: RawMatch| raw_model(t@, v, h)),
            unit_matches_from(t@, v, 0) == res@.map_values(f) + unit_matches_from(t@, v, i as int),
            forall|j: int| 0 <= j < res@.len() ==> raw_wf(t@, v, #[trigger] res@[j]),
        decreases t@.len() - i,
    {
        match unit_hit_at(t, vocab, i) {
            Some(h) => {
                proof {
                    assert(unit_matches_from(t@, v, i as int) == seq![f(h)] + unit_matches_from(
                        t@,
                        v,
                        h.end as int,
                    ));
                    assert(res@.push(h).map_values(f) =~= res@.map_values(f).push(f(h)));
                    assert(res@.map_values(f) + (seq![f(h)] + unit_matches_from(
                        t@,
                        v,
                        h.end as int,
                    )) =~= res@.map_values(f).push(f(h)) + unit_matches_from(t@, v, h.end as int));
                }
                let end: usize = h.end;
                res.push(h);
                i = end;
            },
            None => {
                assert(unit_matches_from(t@, v, i as int) == unit_matches_from(
                    t@,
                    v,
                    i + 1 as int,
                ));
                i = i + 1;
            },
        }
    }
    assert(unit_matches_from(t@, v, i as int) =~= Seq::<MatchModel>::empty());
    assert(res@.map_values(f) + Seq::<MatchModel>::empty() =~= res@.map_values(f));
    res
}

/// All currency-pattern matches in the text, leftmost first, non-overlapping.
pub(crate) fn scan_curr_matches(t: &Vec<char>, vocab: &Vec<Vec<char>>) -> (r: Vec<RawMatch>)
    ensures
        r@.map_values(|h: RawMatch| raw_model(t@, vocab_model(vocab@), h)) == curr_matches_from(
            t@,
            vocab_model(vocab@),
            0,
        ),
        forall|j: int| 0 <= j < r@.len() ==> raw_wf(t@, vocab_model(vocab@), #[trigger] r@[j]),
{
    let ghost v = vocab_model(vocab@);
    let ghost f = |h: RawMatch| raw_model(t@, v, h);
    let mut res: Vec<RawMatch> = Vec::new();
    let mut i: usize = 0;
    while i < t.len()
        invariant
            i <= t@.len(),
            v == vocab_model(vocab@),
            f == (|h: RawMatch| raw_model(t@, v, h)),
            curr_matches_from(t@, v, 0) == res@.map_values(f) + curr_matches_from(t@, v, i as int),
            forall|j: int| 0 <= j < res@.len() ==> raw_wf(t@, v, #[trigger] res@[j]),
        decreases t@.len() - i,
    {
        match curr_hit_at(t, vocab, i) {
            Some(h) => {
                proof {
                    assert(curr_matches_from(t@, v, i as int) == seq![f(h)] + curr_matches_from(
                        t@,
                        v,
                        h.end as int,
                    ));
                    assert(res@.push(h).map_values(f) =~= res@.map_values(f).push(f(h)));
                    assert(res@.map_values(f) + (seq![f(h)] + curr_matches_from(
                        t@,
                        v,
                        h.end as int,
                    )) =~= res@.map_values(f).push(f(h)) + curr_matches_from(t@, v, h.end as int));
                }
                let end: usize = h.end;
                res.push(h);
                i = end;
            },
            None => {
                assert(curr_matches_from(t@, v, i as int) == curr_matches_from(
                    t@,
                    v,
                    i + 1 as int,
                ));
                i = i + 1;
            },
        }
    }
    assert(curr_matches_from(t@, v, i as int) =~= Seq::<MatchModel>::empty());
    assert(res@.map_values(f) + Seq::<MatchModel>::empty() =~= res@.map_values(f));
    res
}

} // verus!
