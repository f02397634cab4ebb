//! The textual form of a length: a decimal scalar and a unit token, with
//! optional whitespace around and between them.
use vstd::prelude::*;
use crate::decimal::{
    all_digits, decimal_value, lemma_pow10_positive, lemma_value_bounds, lemma_digits_between, pow10,
    scaled_fraction, whole_value,
};
use crate::length::{Length, Unit, nm_per};
use crate::text::{
    chars_of, digit_end, is_letter, is_space, lemma_digit_run, lemma_letter_run, lemma_runs_shift,
    lemma_run_bounds, lemma_runs_extend, lemma_space_skip, letter_end,
    skip_digits, skip_letters, skip_spaces, space_end,
};
use vstd::arithmetic::div_mod::lemma_fundamental_div_mod;

verus! {

/// Why a string is not a length.
#[derive(Clone, Copy, Debug, PartialEq, Eq, Structural)]
pub enum ParseError {
    /// The string is not a scalar followed by a unit token.
    InvalidFormat,
    /// The unit token is not one of the known spellings.
    UnknownUnit,
    /// The length has more nanometres than an `i64` holds.
    OutOfRange,
}

impl ParseError {
    /// A short description of the error.
    pub fn message(&self) -> (r: &'static str)
        ensures
            r@ == match self {
                ParseError::InvalidFormat => "bad input format"@,
                ParseError::UnknownUnit => "invalid units"@,
                ParseError::OutOfRange => "length out of range"@,
            },
    {
        match self {
            ParseError::InvalidFormat => "bad input format",
            ParseError::UnknownUnit => "invalid units",
            ParseError::OutOfRange => "length out of range",
        }
    }
}

/// The unit that a token names: each unit by its abbreviation, its singular
/// and its plural, matched exactly and case-sensitively.
pub open spec fn unit_named(t: Seq<char>) -> Option<Unit> {
    if t == "m"@ || t == "meter"@ || t == "meters"@ {
        Some(Unit::Meter)
    } else if t == "cm"@ || t == "centimeter"@
        || t == "centimeters"@ {
        Some(Unit::Centimeter)
    } else if t == "mm"@ || t == "millimeter"@
        || t == "millimeters"@ {
        Some(Unit::Millimeter)
    } else if t == "in"@ || t == "inch"@ || t == "inches"@ {
        Some(Unit::Inch)
    } else {
        None
    }
}

/// Whether `v[start..end]` spells `word`.
fn run_is(v: &Vec<char>, start: usize, end: usize, word: &str) -> (r: bool)
    requires
        start <= end <= v@.len(),
    ensures
        r == (v@.subrange(start as int, end as int) == word@),
{
    let n = word.unicode_len();
    if end - start != n {
        return false;
    }
    let mut k: usize = 0;
    while k < n
        invariant
            start <= end <= v@.len(),
            end - start == word@.len(),
            n == word@.len(),
            k <= word@.len(),
            forall|j: int| 0 <= j < k ==> v@[start + j] == word@[j],
        decreases word@.len() - k,
    {
        if v[start + k] != word.get_char(k) {
            assert(v@.subrange(start as int, end as int)[k as int] != word@[k as int]);
            return false;
        }
        k = k + 1;
    }
    assert(v@.subrange(start as int, end as int) =~= word@);
    true
}

/// The unit that `v[start..end]` names, if any.
fn unit_of_token(v: &Vec<char>, start: usize, end: usize) -> (r: Option<Unit>)
    requires
        start <= end <= v@.len(),
    ensures
        r == unit_named(v@.subrange(start as int, end as int)),
{
    if run_is(v, start, end, "m") || run_is(v, start, end, "meter")
        || run_is(v, start, end, "meters") {
        Some(Unit::Meter)
    } else if run_is(v, start, end, "cm") || run_is(
        v,
        start,
        end,
        "centimeter",
    ) || run_is(v, start, end, "centimeters") {
        Some(Unit::Centimeter)
    } else if run_is(v, start, end, "mm") || run_is(
        v,
        start,
        end,
        "millimeter",
    ) || run_is(v, start, end, "millimeters") {
        Some(Unit::Millimeter)
    } else if run_is(v, start, end, "in") || run_is(v, start, end, "inch")
        || run_is(v, start, end, "inches") {
        Some(Unit::Inch)
    } else {
        None
    }
}

/// Largest whole part that `try_from_str` evaluates; above it every unit
/// gives more nanometres than an `i64` holds.
const WHOLE_CAP: u64 = 10_000_000_000_000;

/// Where the scalar begins: after the leading whitespace.
pub open spec fn scalar_start(s: Seq<char>) -> int {
    space_end(s, 0)
}

/// Where the whole digits of the scalar end.
pub open spec fn point_at(s: Seq<char>) -> int {
    digit_end(s, scalar_start(s))
}

/// A decimal point follows the whole digits.
pub open spec fn has_point(s: Seq<char>) -> bool {
    point_at(s) < s.len() && s[point_at(s)] == '.'
}

/// Where the scalar ends: after the fraction digits, if there is a point.
pub open spec fn scalar_end(s: Seq<char>) -> int {
    if has_point(s) {
        digit_end(s, point_at(s) + 1)
    } else {
        point_at(s)
    }
}

/// Where the unit token begins: after the whitespace that follows the scalar.
pub open spec fn unit_start(s: Seq<char>) -> int {
    space_end(s, scalar_end(s))
}

/// Where the unit token ends: after its letters.
pub open spec fn unit_end(s: Seq<char>) -> int {
    letter_end(s, unit_start(s))
}

/// `s` is optional whitespace, a scalar (digits, digits with a point and
/// optional fraction digits, or a point and fraction digits), optional
/// whitespace, a non-empty run of ASCII letters, and optional whitespace,
/// with nothing else.
pub open spec fn well_formed(s: Seq<char>) -> bool {
    &&& (point_at(s) > scalar_start(s) || scalar_end(s) > point_at(s) + 1)
    &&& unit_end(s) > unit_start(s)
    &&& space_end(s, unit_end(s)) == s.len()
}

/// The digits before the point.
pub open spec fn whole_digits(s: Seq<char>) -> Seq<char> {
    s.subrange(scalar_start(s), point_at(s))
}

/// The digits after the point; none without a point.
pub open spec fn fraction_digits(s: Seq<char>) -> Seq<char> {
    if has_point(s) {
        s.subrange(point_at(s) + 1, scalar_end(s))
    } else {
        Seq::empty()
    }
}

/// The unit token.
pub open spec fn unit_token(s: Seq<char>) -> Seq<char> {
    s.subrange(unit_start(s), unit_end(s))
}

/// The scalar of `s` times `per`, rounded down.
pub open spec fn scaled_scalar(s: Seq<char>, per: int) -> int {
    decimal_value(whole_digits(s)) * per + decimal_value(fraction_digits(s)) * per / (pow10(
        fraction_digits(s).len(),
    ) as int)
}

/// What `s` reads as: a number of nanometres, or why it is not a length.
/// The format is checked first, then the unit, then the range.
pub open spec fn parse_length(s: Seq<char>) -> Result<int, ParseError> {
    if !well_formed(s) {
        Err(ParseError::InvalidFormat)
    } else {
        match unit_named(unit_token(s)) {
            None => Err(ParseError::UnknownUnit),
            Some(u) => {
                let nm = scaled_scalar(s, nm_per(u));
                if nm <= i64::MAX {
                    Ok(nm)
                } else {
                    Err(ParseError::OutOfRange)
                }
            },
        }
    }
}

impl Length {
    /// Reads a length such as `"5cm"`, `" .5 inches "` or `"1.25m"`. A scalar
    /// with more digits than a nanometre resolves is rounded down.
    pub fn try_from_str(s: &str) -> (r: Result<Length, ParseError>)
        ensures
            match r {
                Ok(l) => parse_length(s@) == Ok::<int, ParseError>(l@),
                Err(e) => parse_length(s@) == Err::<int, ParseError>(e),
            },
    {
        let v = chars_of(s);
        let a = skip_spaces(&v, 0);
        let p = skip_digits(&v, a);
        let point = p < v.len() && v[p] == '.';
        let e = if point {
            skip_digits(&v, p + 1)
        } else {
            p
        };
        if !(p > a || (e > p && e - p > 1)) {
            return Err(ParseError::InvalidFormat);
        }
        let us = skip_spaces(&v, e);
        let ue = skip_letters(&v, us);
        if ue == us || skip_spaces(&v, ue) != v.len() {
            return Err(ParseError::InvalidFormat);
        }
        let unit = match unit_of_token(&v, us, ue) {
            None => return Err(ParseError::UnknownUnit),
            Some(u) => u,
        };
        let per = unit.nanometers_per_unit() as u64;
        proof {
            lemma_digits_between(v@, a as int, p as int, a as int, p as int);
            lemma_value_bounds(whole_digits(s@));
            lemma_value_bounds(fraction_digits(s@));
        }
        let whole = match whole_value(&v, a, p, WHOLE_CAP) {
            None => {
                proof {
                    let w = decimal_value(whole_digits(s@));
                    let f = decimal_value(fraction_digits(s@)) * per / (pow10(
                        fraction_digits(s@).len(),
                    ) as int);
                    assert(w * per >= 10_000_000_000_000 * 1_000_000) by (nonlinear_arith)
                        requires
                            w > 10_000_000_000_000,
                            per >= 1_000_000,
                    ;
                    assert(f >= 0) by {
                        assert(decimal_value(fraction_digits(s@)) * per >= 0) by (nonlinear_arith)
                            requires
                                decimal_value(fraction_digits(s@)) >= 0,
                                per >= 0,
                        ;
                    }
                }
                return Err(ParseError::OutOfRange);
            },
            Some(w) => w,
        };
        let frac = if point {
            proof {
                lemma_digits_between(v@, p + 1, e as int, p + 1, e as int);
            }
            scaled_fraction(&v, p + 1, e, per)
        } else {
            0
        };
        assert(whole as u128 * per as u128 <= 10_000_000_000_000 * 1_000_000_000) by (nonlinear_arith)
            requires
                whole <= 10_000_000_000_000,
                per <= 1_000_000_000,
        ;
        let total: u128 = whole as u128 * per as u128 + frac as u128;
        if total > i64::MAX as u128 {
            Err(ParseError::OutOfRange)
        } else {
            Ok(Length::from_nanometers(total as i64))
        }
    }
}

/// Every spelling of a unit is a non-empty run of letters.
pub proof fn lemma_unit_token_letters(t: Seq<char>)
    requires
        unit_named(t) is Some,
    ensures
        t.len() > 0,
        forall|k: int| 0 <= k < t.len() ==> is_letter(#[trigger] t[k]),
{
    reveal_strlit("m");
    reveal_strlit("meter");
    reveal_strlit("meters");
    reveal_strlit("cm");
    reveal_strlit("centimeter");
    reveal_strlit("centimeters");
    reveal_strlit("mm");
    reveal_strlit("millimeter");
    reveal_strlit("millimeters");
    reveal_strlit("in");
    reveal_strlit("inch");
    reveal_strlit("inches");
}

/// A scalar written straight before a unit token reads back, counted in that
/// unit, as the scalar itself to within one nanometre: the length is the
/// scalar times the unit's nanometres, rounded down. The scalar is `whole`,
/// then a point and `fraction` if `point` holds; it has at least one digit
/// and the length fits in an `i64`.
pub proof fn lemma_round_trip(whole: Seq<char>, point: bool, fraction: Seq<char>, token: Seq<char>)
    requires
        all_digits(whole),
        all_digits(fraction),
        !point ==> fraction.len() == 0,
        whole.len() + fraction.len() > 0,
        unit_named(token) is Some,
        decimal_value(whole) * nm_per(unit_named(token)->0) + decimal_value(fraction) * nm_per(
            unit_named(token)->0,
        ) / (pow10(fraction.len()) as int) <= i64::MAX,
    ensures
        ({
            let s = whole + (if point {
                seq!['.']
            } else {
                Seq::empty()
            }) + fraction + token;
            let per = nm_per(unit_named(token)->0);
            let k = pow10(fraction.len()) as int;
            let scalar_k = decimal_value(whole) * k + decimal_value(fraction);
            &&& parse_length(s) is Ok
            &&& parse_length(s)->Ok_0 * k <= scalar_k * per < (parse_length(s)->Ok_0 + 1) * k
        }),
{
    let dot: Seq<char> = if point {
        seq!['.']
    } else {
        Seq::empty()
    };
    let s = whole + dot + fraction + token;
    let w = whole.len() as int;
    let d = dot.len() as int;
    let f = fraction.len() as int;
    lemma_unit_token_letters(token);
    assert(forall|i: int| 0 <= i < w ==> s[i] == whole[i]);
    assert(forall|i: int| 0 <= i < f ==> s[w + d + i] == fraction[i]);
    assert(forall|i: int| 0 <= i < token.len() ==> s[w + d + f + i] == token[i]);
    assert(!is_space(s[0])) by {
        if w > 0 {
            assert(s[0] == whole[0]);
        } else if point {
            assert(s[0] == '.');
        }
    }
    assert(scalar_start(s) == 0);
    lemma_digit_run(s, 0, w);
    assert(point_at(s) == w);
    if point {
        assert(s[w] == '.');
        assert(has_point(s));
        lemma_digit_run(s, w + 1, w + 1 + f);
        assert(scalar_end(s) == w + 1 + f);
    } else {
        assert(s[w] == token[0]);
        assert(!has_point(s));
    }
    assert(scalar_end(s) == w + d + f);
    assert(s[w + d + f] == token[0]);
    assert(unit_start(s) == w + d + f);
    lemma_letter_run(s, w + d + f, s.len() as int);
    assert(unit_end(s) == s.len());
    assert(space_end(s, s.len() as int) == s.len());
    assert(well_formed(s));
    assert(whole_digits(s) =~= whole);
    assert(fraction_digits(s) =~= fraction);
    assert(unit_token(s) =~= token);
    let per = nm_per(unit_named(token)->0);
    let k = pow10(fraction.len()) as int;
    lemma_pow10_positive(fraction.len());
    let x = decimal_value(fraction) * per;
    let q = x / k;
    let r = x % k;
    lemma_fundamental_div_mod(x, k);
    assert(0 <= r < k);
    let wv = decimal_value(whole);
    let fv = decimal_value(fraction);
    assert((wv * per + q) * k <= (wv * k + fv) * per < (wv * per + q + 1) * k) by (nonlinear_arith)
        requires
            x == fv * per,
            x == k * q + r,
            0 <= r < k,
    ;
}

/// Whitespace written before a string does not change what it reads as.
pub proof fn lemma_leading_space(w: Seq<char>, s: Seq<char>)
    requires
        forall|k: int| 0 <= k < w.len() ==> is_space(#[trigger] w[k]),
    ensures
        parse_length(w + s) == parse_length(s),
{
    let t = w + s;
    let n = w.len() as int;
    assert(forall|k: int| 0 <= k < n ==> t[k] == w[k]);
    assert(forall|k: int| 0 <= k < s.len() ==> #[trigger] t[n + k] == s[k]);
    lemma_space_skip(t, 0, n);
    lemma_runs_shift(w, s, 0);
    lemma_run_bounds(s, 0);
    assert(scalar_start(t) == n + scalar_start(s));
    lemma_runs_shift(w, s, scalar_start(s));
    lemma_run_bounds(s, scalar_start(s));
    assert(point_at(t) == n + point_at(s));
    assert(has_point(t) == has_point(s));
    if has_point(s) {
        lemma_runs_shift(w, s, point_at(s) + 1);
        lemma_run_bounds(s, point_at(s) + 1);
    }
    assert(scalar_end(t) == n + scalar_end(s));
    lemma_runs_shift(w, s, scalar_end(s));
    lemma_run_bounds(s, scalar_end(s));
    assert(unit_start(t) == n + unit_start(s));
    lemma_runs_shift(w, s, unit_start(s));
    lemma_run_bounds(s, unit_start(s));
    assert(unit_end(t) == n + unit_end(s));
    lemma_runs_shift(w, s, unit_end(s));
    assert(well_formed(t) == well_formed(s));
    assert(whole_digits(t) =~= whole_digits(s));
    assert(fraction_digits(t) =~= fraction_digits(s));
    assert(unit_token(t) =~= unit_token(s));
}

/// Whitespace written after a string does not change what it reads as.
pub proof fn lemma_trailing_space(s: Seq<char>, w: Seq<char>)
    requires
        forall|k: int| 0 <= k < w.len() ==> is_space(#[trigger] w[k]),
    ensures
        parse_length(s + w) == parse_length(s),
{
    let t = s + w;
    let n = s.len() as int;
    assert(forall|k: int| 0 <= k < n ==> t[k] == s[k]);
    assert(forall|k: int| n <= k < t.len() ==> t[k] == w[k - n]);
    lemma_run_bounds(s, 0);
    lemma_runs_extend(s, w, 0);
    if scalar_start(s) == n {
        assert(!well_formed(s));
        assert(scalar_start(t) == t.len());
        lemma_run_bounds(t, t.len() as int);
        assert(!well_formed(t));
        return;
    }
    lemma_run_bounds(s, scalar_start(s));
    lemma_runs_extend(s, w, scalar_start(s));
    assert(point_at(t) == point_at(s));
    if point_at(s) == n && w.len() > 0 {
        assert(t[n] == w[0]);
        assert(!has_point(t));
    }
    assert(has_point(t) == has_point(s));
    if has_point(s) {
        lemma_run_bounds(s, point_at(s) + 1);
        lemma_runs_extend(s, w, point_at(s) + 1);
    }
    assert(scalar_end(t) == scalar_end(s));
    lemma_run_bounds(s, scalar_end(s));
    lemma_runs_extend(s, w, scalar_end(s));
    if unit_start(s) == n {
        assert(!well_formed(s));
        assert(unit_start(t) == t.len());
        lemma_run_bounds(t, t.len() as int);
        assert(!well_formed(t));
        return;
    }
    assert(unit_start(t) == unit_start(s));
    lemma_run_bounds(s, unit_start(s));
    lemma_runs_extend(s, w, unit_start(s));
    assert(unit_end(t) == unit_end(s));
    lemma_run_bounds(s, unit_end(s));
    lemma_runs_extend(s, w, unit_end(s));
    assert(well_formed(t) == well_formed(s));
    assert(whole_digits(t) =~= whole_digits(s));
    assert(fraction_digits(t) =~= fraction_digits(s));
    assert(unit_token(t) =~= unit_token(s));
}

/// Whitespace around a string does not change what it reads as.
pub proof fn lemma_surrounding_space(before: Seq<char>, s: Seq<char>, after: Seq<char>)
    requires
        forall|k: int| 0 <= k < before.len() ==> is_space(#[trigger] before[k]),
        forall|k: int| 0 <= k < after.len() ==> is_space(#[trigger] after[k]),
    ensures
        parse_length(before + s + after) == parse_length(s),
{
    lemma_leading_space(before, s + after);
    assert(before + s + after =~= before + (s + after));
    lemma_trailing_space(s, after);
}

} // verus!
