//! Values of runs of decimal digits, and their exact evaluation.
use vstd::prelude::*;
use vstd::arithmetic::div_mod::{lemma_div_denominator, lemma_hoist_over_denominator};
use crate::text::{is_digit, is_digit_char};

verus! {

/// The value of a decimal digit character.
pub open spec fn digit_value(c: char) -> int {
    c as u32 - '0' as u32
}

/// Ten to the power `n`.
pub open spec fn pow10(n: nat) -> nat
    decreases n,
{
    if n == 0 {
        1
    } else {
        10 * pow10((n - 1) as nat)
    }
}

/// Every character of `t` is a decimal digit.
pub open spec fn all_digits(t: Seq<char>) -> bool {
    forall|k: int| 0 <= k < t.len() ==> is_digit(#[trigger] t[k])
}

/// The number that the digits `t` spell in base ten, most significant first;
/// the empty run spells zero.
pub open spec fn decimal_value(t: Seq<char>) -> int
    decreases t.len(),
{
    if t.len() == 0 {
        0
    } else {
        10 * decimal_value(t.drop_last()) + digit_value(t.last())
    }
}

pub proof fn lemma_pow10_positive(n: nat)
    ensures
        pow10(n) >= 1,
    decreases n,
{
    if n > 0 {
        lemma_pow10_positive((n - 1) as nat);
    }
}

pub proof fn lemma_value_bounds(t: Seq<char>)
    requires
        all_digits(t),
    ensures
        0 <= decimal_value(t) < pow10(t.len()),
    decreases t.len(),
{
    if t.len() > 0 {
        lemma_value_bounds(t.drop_last());
    }
}

/// Every character of `v` from `a` up to `b` is a digit.
pub open spec fn digits_between(v: Seq<char>, a: int, b: int) -> bool {
    forall|k: int| a <= k < b ==> is_digit(#[trigger] v[k])
}

pub proof fn lemma_digits_between(v: Seq<char>, a: int, b: int, c: int, d: int)
    requires
        0 <= a <= c <= d <= b <= v.len(),
        digits_between(v, a, b),
    ensures
        all_digits(v.subrange(c, d)),
{
    assert forall|k: int| 0 <= k < d - c implies is_digit(#[trigger] v.subrange(c, d)[k]) by {
        assert(v.subrange(c, d)[k] == v[c + k]);
    }
}

/// The value of two runs of digits written one after the other.
pub proof fn lemma_value_concat(a: Seq<char>, b: Seq<char>)
    requires
        all_digits(a),
        all_digits(b),
    ensures
        decimal_value(a + b) == decimal_value(a) * pow10(b.len()) + decimal_value(b),
    decreases b.len(),
{
    if b.len() == 0 {
        assert(a + b =~= a);
        assert(pow10(0) == 1);
        assert(decimal_value(a) * 1 == decimal_value(a));
    } else {
        assert((a + b).drop_last() =~= a + b.drop_last());
        assert((a + b).last() == b.last());
        lemma_value_concat(a, b.drop_last());
        let x = decimal_value(a);
        let p = pow10((b.len() - 1) as nat);
        assert(pow10(b.len()) == 10 * p);
        assert(decimal_value(a + b) == 10 * decimal_value(a + b.drop_last()) + digit_value(b.last()));
        assert(decimal_value(b) == 10 * decimal_value(b.drop_last()) + digit_value(b.last()));
        assert(10 * (x * p) == x * (10 * p)) by (nonlinear_arith);
        assert(decimal_value(a + b.drop_last()) == x * p + decimal_value(b.drop_last()));
    }
}

/// The number that the digits `v[start..end]` spell, or `None` when it is
/// larger than `cap`.
pub fn whole_value(v: &Vec<char>, start: usize, end: usize, cap: u64) -> (r: Option<u64>)
    requires
        start <= end <= v@.len(),
        digits_between(v@, start as int, end as int),
        cap <= 100_000_000_000_000_000,
    ensures
        match r {
            Some(x) => x == decimal_value(v@.subrange(start as int, end as int)) && x <= cap,
            None => decimal_value(v@.subrange(start as int, end as int)) > cap,
        },
{
    let ghost t = v@.subrange(start as int, end as int);
    let mut acc: u64 = 0;
    let mut i = start;
    while i < end
        invariant
            start <= i <= end <= v@.len(),
            t == v@.subrange(start as int, end as int),
            digits_between(v@, start as int, end as int),
            cap <= 100_000_000_000_000_000,
            acc == decimal_value(v@.subrange(start as int, i as int)),
            acc <= cap,
        decreases end - i,
    {
        let ghost prefix = v@.subrange(start as int, i as int);
        let c = v[i];
        assert(is_digit(v@[i as int]));
        assert(v@.subrange(start as int, i + 1 as int).drop_last() =~= prefix);
        let d = (c as u32 - '0' as u32) as u64;
        assert(d <= 9);
        acc = acc * 10 + d;
        i = i + 1;
        if acc > cap {
            proof {
                let done = v@.subrange(start as int, i as int);
                let rest = v@.subrange(i as int, end as int);
                assert(t =~= done + rest);
                lemma_digits_between(v@, start as int, end as int, start as int, i as int);
                lemma_digits_between(v@, start as int, end as int, i as int, end as int);
                lemma_value_concat(done, rest);
                lemma_value_bounds(rest);
                lemma_pow10_positive(rest.len());
                let p = pow10(rest.len());
                assert(acc * p >= acc) by (nonlinear_arith)
                    requires
                        p >= 1,
                        acc >= 0,
                ;
            }
            return None;
        }
    }
    assert(v@.subrange(start as int, i as int) == t);
    Some(acc)
}

/// The fraction `0.d1d2...` spelled by the digits `v[start..end]`, times
/// `per`, rounded down: `floor(value * per / 10^len)`.
pub fn scaled_fraction(v: &Vec<char>, start: usize, end: usize, per: u64) -> (r: u64)
    requires
        start <= end <= v@.len(),
        digits_between(v@, start as int, end as int),
        0 < per <= 1_000_000_000,
    ensures
        r == decimal_value(v@.subrange(start as int, end as int)) * per / (pow10(
            (end - start) as nat,
        ) as int),
        r < per,
{
    let ghost t = v@.subrange(start as int, end as int);
    let mut carry: u64 = 0;
    let mut i = end;
    proof {
        assert(v@.subrange(end as int, end as int).len() == 0);
    }
    while i > start
        invariant
            start <= i <= end <= v@.len(),
            t == v@.subrange(start as int, end as int),
            digits_between(v@, start as int, end as int),
            0 < per <= 1_000_000_000,
            carry == decimal_value(v@.subrange(i as int, end as int)) * per / (pow10(
                (end - i) as nat,
            ) as int),
            carry < per,
        decreases i - start,
    {
        let ghost rest = v@.subrange(i as int, end as int);
        i = i - 1;
        let c = v[i];
        assert(is_digit(v@[i as int]));
        let d = (c as u32 - '0' as u32) as u64;
        assert(d <= 9);
        assert(per * d <= 9 * per) by (nonlinear_arith)
            requires
                d <= 9,
        ;
        let ghost old_carry = carry as int;
        carry = (per * d + carry) / 10;
        proof {
            let head = v@.subrange(i as int, i + 1);
            assert(v@.subrange(i as int, end as int) =~= head + rest);
            lemma_digits_between(v@, start as int, end as int, i + 1, end as int);
            lemma_digits_between(v@, start as int, end as int, i as int, i + 1);
            lemma_value_concat(head, rest);
            assert(head.drop_last() =~= Seq::<char>::empty());
            assert(head.last() == c);
            assert(decimal_value(head) == 10 * decimal_value(head.drop_last()) + digit_value(c));
            assert(decimal_value(head) == d);
            let m = rest.len();
            let p = pow10(m) as int;
            lemma_pow10_positive(m);
            lemma_value_bounds(rest);
            let x = decimal_value(rest);
            assert((d * p + x) * per == x * per + (per * d) * p) by (nonlinear_arith);
            let pd = per as int * d as int;
            assert(x * per >= 0) by (nonlinear_arith)
                requires
                    x >= 0,
                    per >= 0,
            ;
            lemma_hoist_over_denominator(x * per, pd, p as nat);
            lemma_div_denominator(x * per + pd * p, p, 10);
            assert(pow10((m + 1) as nat) == 10 * p);
            assert((end - i) as nat == (m + 1) as nat);
        }
    }
    assert(v@.subrange(i as int, end as int) == t);
    carry
}

} // verus!
