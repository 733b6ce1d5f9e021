//! Decimal literals such as `12.05`, read exactly as a count of atomic units.
use vstd::prelude::*;
use vstd::string::{StrSliceExecFns, StringExecFns};

use crate::error::DecimalNumberParsingError;

verus! {

/// An ASCII decimal digit.
pub open spec fn is_digit(c: char) -> bool {
    '0' <= c && c <= '9'
}

/// The value of a digit character.
pub open spec fn digit_value(c: char) -> nat {
    if is_digit(c) {
        (c as int - '0' as int) as nat
    } else {
        0
    }
}

/// Every character of `s` is a decimal digit.
pub open spec fn all_digits(s: Seq<char>) -> bool {
    forall|i: int| 0 <= i < s.len() ==> is_digit(#[trigger] s[i])
}

/// The number that the digits of `s` spell in base ten, most significant first.
pub open spec fn digits_value(s: Seq<char>) -> nat
    decreases s.len(),
{
    if s.len() == 0 {
        0
    } else {
        digits_value(s.drop_last()) * 10 + digit_value(s.last())
    }
}

/// Ten to the power `n`.
pub open spec fn pow10(n: nat) -> nat
    decreases n,
{
    if n == 0 {
        1
    } else {
        10 * pow10((n - 1) as nat)
    }
}

/// The number of decimal places of a power of ten: the count of its trailing zeros.
pub open spec fn decimal_places(p: nat) -> nat
    decreases p,
{
    if p < 10 {
        0
    } else {
        1 + decimal_places(p / 10)
    }
}

/// `p` is one, ten, a hundred, and so on.
pub open spec fn is_power_of_ten(p: nat) -> bool {
    p == pow10(decimal_places(p))
}

/// The index of the first `.` in `s`, or its length where there is none.
pub open spec fn dot_position(s: Seq<char>) -> nat
    decreases s.len(),
{
    if s.len() == 0 || s[0] == '.' {
        0
    } else {
        1 + dot_position(s.drop_first())
    }
}

/// What stands before the first `.`.
pub open spec fn whole_part(s: Seq<char>) -> Seq<char> {
    s.subrange(0, dot_position(s) as int)
}

/// What stands after the first `.`; empty where there is no `.`.
pub open spec fn fraction_part(s: Seq<char>) -> Seq<char> {
    if dot_position(s) < s.len() {
        s.subrange(dot_position(s) + 1 as int, s.len() as int)
    } else {
        Seq::empty()
    }
}

/// `s` is digits, optionally followed by a `.` and more digits, with at least one
/// digit on one side of the `.` (`5`, `5.`, `.5` and `5.5`, but not `.` or the empty text).
pub open spec fn is_decimal_literal(s: Seq<char>) -> bool {
    &&& (whole_part(s).len() > 0 || fraction_part(s).len() > 0)
    &&& all_digits(whole_part(s))
    &&& all_digits(fraction_part(s))
}

/// The number of atomic units that the literal `s` stands for, where one whole unit
/// holds `precision` atomic units (a power of ten) and the fractional digits are
/// padded with zeros on the right to its number of decimal places.
pub open spec fn decimal_units(s: Seq<char>, precision: nat) -> nat {
    digits_value(whole_part(s)) * precision + digits_value(fraction_part(s)) * pow10(
        (decimal_places(precision) - fraction_part(s).len()) as nat,
    )
}

/// The literal `s` reads as a whole number of atomic units that fits in 128 bits.
pub open spec fn decimal_parses(s: Seq<char>, precision: nat) -> bool {
    &&& is_decimal_literal(s)
    &&& fraction_part(s).len() <= decimal_places(precision)
    &&& decimal_units(s, precision) <= u128::MAX
}

/// What reading the literal `s` with `precision` gives: its value, or the error
/// that fits it. A literal that is not digits is rejected first, then one with too
/// many fractional digits, then one whose value does not fit in 128 bits.
pub open spec fn decimal_outcome(
    s: Seq<char>,
    precision: nat,
    r: Result<u128, DecimalNumberParsingError>,
) -> bool {
    match r {
        Ok(v) => decimal_parses(s, precision) && v == decimal_units(s, precision),
        Err(DecimalNumberParsingError::InvalidNumber(t)) => !is_decimal_literal(s) && t@ == s,
        Err(DecimalNumberParsingError::LongFractional(t)) => {
            &&& is_decimal_literal(s)
            &&& fraction_part(s).len() > decimal_places(precision)
            &&& t@ == fraction_part(s)
        },
        Err(DecimalNumberParsingError::LongWhole(t)) => {
            &&& is_decimal_literal(s)
            &&& fraction_part(s).len() <= decimal_places(precision)
            &&& decimal_units(s, precision) > u128::MAX
            &&& t@ == whole_part(s)
        },
    }
}

pub proof fn lemma_pow10_positive(n: nat)
    ensures
        pow10(n) >= 1,
    decreases n,
{
    if n > 0 {
        lemma_pow10_positive((n - 1) as nat);
    }
}

pub proof fn lemma_pow10_monotonic(a: nat, b: nat)
    requires
        a <= b,
    ensures
        pow10(a) <= pow10(b),
    decreases b,
{
    if a < b {
        lemma_pow10_monotonic(a, (b - 1) as nat);
        lemma_pow10_positive((b - 1) as nat);
    }
}

/// The value of `k` digits stays below ten to the `k`.
pub proof fn lemma_digits_value_bound(s: Seq<char>)
    ensures
        digits_value(s) < pow10(s.len()),
    decreases s.len(),
{
    if s.len() > 0 {
        lemma_digits_value_bound(s.drop_last());
        let v = digits_value(s.drop_last());
        let p = pow10(s.drop_last().len());
        assert(digit_value(s.last()) <= 9);
        assert(v * 10 + digit_value(s.last()) < 10 * p) by (nonlinear_arith)
            requires
                v < p,
                digit_value(s.last()) <= 9,
        ;
    }
}

/// Extending a run of digits on the right never makes its value smaller.
pub proof fn lemma_digits_value_prefix(s: Seq<char>, k: int)
    requires
        0 <= k <= s.len(),
    ensures
        digits_value(s.subrange(0, k)) <= digits_value(s),
    decreases s.len() - k,
{
    if k < s.len() {
        lemma_digits_value_prefix(s, k + 1);
        lemma_digits_value_push(s, k);
    } else {
        assert(s.subrange(0, k) =~= s);
    }
}

/// Reading one more digit multiplies by ten and adds the digit.
pub proof fn lemma_digits_value_push(s: Seq<char>, k: int)
    requires
        0 <= k < s.len(),
    ensures
        digits_value(s.subrange(0, k + 1)) == digits_value(s.subrange(0, k)) * 10 + digit_value(
            s[k],
        ),
{
    assert(s.subrange(0, k + 1).drop_last() =~= s.subrange(0, k));
}

/// The loop's scan for the first `.` agrees with `dot_position`.
pub proof fn lemma_dot_position(s: Seq<char>, i: int)
    requires
        0 <= i <= s.len(),
        forall|j: int| 0 <= j < i ==> s[j] != '.',
        i == s.len() || s[i] == '.',
    ensures
        dot_position(s) == i,
    decreases i,
{
    if i > 0 {
        lemma_dot_position(s.drop_first(), i - 1);
    }
}

/// No power of ten beyond the thirty-eighth fits in 128 bits.
pub proof fn lemma_pow10_fits(n: nat)
    requires
        pow10(n) <= u128::MAX,
    ensures
        n <= 38,
{
    reveal_with_fuel(pow10, 40);
    if n > 38 {
        lemma_pow10_monotonic(39, n);
    }
}

/// The digit character at position `i` of `s`, checked.
fn digit_at(s: &str, i: usize) -> (r: Option<u128>)
    requires
        i < s@.len(),
    ensures
        is_digit(s@[i as int]) <==> r is Some,
        r is Some ==> r->0 == digit_value(s@[i as int]),
{
    let c = s.get_char(i);
    if '0' <= c && c <= '9' {
        Some((c as u32 - '0' as u32) as u128)
    } else {
        None
    }
}

/// The number of decimal places of the power of ten `precision`.
fn count_decimal_places(precision: u128) -> (r: usize)
    requires
        is_power_of_ten(precision as nat),
    ensures
        r == decimal_places(precision as nat),
{
    let ghost places = decimal_places(precision as nat);
    proof {
        lemma_pow10_fits(places);
    }
    let mut q: u128 = precision;
    let mut n: usize = 0;
    while q >= 10
        invariant
            n <= places <= 38,
            q == pow10((places - n) as nat),
        decreases q,
    {
        assert(n < places);
        q = q / 10;
        n = n + 1;
    }
    proof {
        if n < places {
            lemma_pow10_positive((places - n - 1) as nat);
        }
    }
    n
}

/// Reads the decimal literal `s` as a count of atomic units, where one whole unit
/// holds `precision` of them.
pub fn parse_decimal_number(s: &str, precision: u128) -> (r: Result<u128, DecimalNumberParsingError>)
    requires
        is_power_of_ten(precision as nat),
    ensures
        decimal_outcome(s@, precision as nat, r),
{
    let n = s.unicode_len();
    let mut dot: usize = 0;
    while dot < n && s.get_char(dot) != '.'
        invariant
            n == s@.len(),
            dot <= n,
            forall|j: int| 0 <= j < dot ==> s@[j] != '.',
        decreases n - dot,
    {
        dot = dot + 1;
    }
    proof {
        lemma_dot_position(s@, dot as int);
    }
    let frac_start: usize = if dot < n { dot + 1 } else { n };
    assert(fraction_part(s@) =~= s@.subrange(frac_start as int, n as int));
    assert(whole_part(s@) =~= s@.subrange(0, dot as int));
    // The shape of the literal is checked before any of its value is computed.
    let mut valid = dot > 0 || frac_start < n;
    let mut i: usize = 0;
    while i < n
        invariant
            n == s@.len(),
            dot <= n,
            frac_start == if dot < n { dot + 1 } else { n as int },
            i <= n,
            valid == ((dot > 0 || frac_start < n) && forall|j: int|
                0 <= j < i && j != dot ==> is_digit(#[trigger] s@[j])),
        decreases n - i,
    {
        if i != dot && digit_at(s, i).is_none() {
            valid = false;
        }
        i = i + 1;
    }
    if !valid {
        assert(!is_decimal_literal(s@)) by {
            if is_decimal_literal(s@) {
                assert forall|j: int| 0 <= j < n && j != dot implies is_digit(#[trigger] s@[j]) by {
                    if j < dot {
                        assert(whole_part(s@)[j] == s@[j]);
                    } else {
                        assert(fraction_part(s@)[j - frac_start] == s@[j]);
                    }
                }
            }
        }
        return Err(DecimalNumberParsingError::InvalidNumber(String::from_str(s)));
    }
    assert(is_decimal_literal(s@)) by {
        assert forall|j: int| 0 <= j < whole_part(s@).len() implies is_digit(
            #[trigger] whole_part(s@)[j],
        ) by {
            assert(whole_part(s@)[j] == s@[j]);
        }
        assert forall|j: int| 0 <= j < fraction_part(s@).len() implies is_digit(
            #[trigger] fraction_part(s@)[j],
        ) by {
            assert(fraction_part(s@)[j] == s@[j + frac_start]);
        }
    }
    let places = count_decimal_places(precision);
    let frac_len = n - frac_start;
    if frac_len > places {
        let t = s.substring_char(frac_start, n);
        return Err(DecimalNumberParsingError::LongFractional(String::from_str(t)));
    }
    let ghost whole = whole_part(s@);
    let ghost frac = fraction_part(s@);
    let ghost units = decimal_units(s@, precision as nat);
    proof {
        lemma_pow10_positive((places - frac_len) as nat);
        assert(digits_value(whole) * precision <= units);
        assert(digits_value(whole) <= digits_value(whole) * precision) by (nonlinear_arith)
            requires
                precision >= 1,
        ;
    }
    // The whole part, digit by digit.
    let mut w: u128 = 0;
    let mut k: usize = 0;
    while k < dot
        invariant
            n == s@.len(),
            dot <= n,
            k <= dot,
            whole == s@.subrange(0, dot as int),
            whole == whole_part(s@),
            all_digits(whole),
            w == digits_value(whole.subrange(0, k as int)),
            digits_value(whole) <= units,
            units == decimal_units(s@, precision as nat),
            is_decimal_literal(s@),
            fraction_part(s@).len() <= decimal_places(precision as nat),
        decreases dot - k,
    {
        assert(is_digit(whole[k as int]));
        assert(whole[k as int] == s@[k as int]);
        let d = digit_at(s, k).unwrap();
        proof {
            lemma_digits_value_push(whole, k as int);
        }
        let next = match w.checked_mul(10) {
            Some(t) => t.checked_add(d),
            None => None,
        };
        match next {
            Some(t) => {
                w = t;
            },
            None => {
                proof {
                    assert(w * 10 + d > u128::MAX);
                    lemma_digits_value_prefix(whole, k + 1);
                }
                let t = s.substring_char(0, dot);
                return Err(DecimalNumberParsingError::LongWhole(String::from_str(t)));
            },
        }
        k = k + 1;
    }
    assert(whole.subrange(0, dot as int) =~= whole);
    let scaled = match w.checked_mul(precision) {
        Some(t) => t,
        None => {
            let t = s.substring_char(0, dot);
            return Err(DecimalNumberParsingError::LongWhole(String::from_str(t)));
        },
    };
    // The fractional part, then padded with zeros to the unit's decimal places.
    proof {
        lemma_pow10_monotonic(frac_len as nat, places as nat);
        lemma_digits_value_bound(frac);
    }
    let mut f: u128 = 0;
    let mut k: usize = 0;
    while k < frac_len
        invariant
            n == s@.len(),
            frac_start + frac_len == n,
            k <= frac_len,
            frac_len <= places,
            frac == s@.subrange(frac_start as int, n as int),
            all_digits(frac),
            f == digits_value(frac.subrange(0, k as int)),
            f < pow10(k as nat),
            pow10(frac_len as nat) <= pow10(places as nat),
            pow10(places as nat) == precision,
        decreases frac_len - k,
    {
        assert(is_digit(frac[k as int]));
        let d = digit_at(s, frac_start + k).unwrap();
        proof {
            lemma_digits_value_push(frac, k as int);
            lemma_pow10_monotonic((k + 1) as nat, frac_len as nat);
            assert(f * 10 + d < 10 * pow10(k as nat)) by (nonlinear_arith)
                requires
                    f < pow10(k as nat),
                    d <= 9,
            ;
        }
        f = f * 10 + d;
        k = k + 1;
    }
    assert(frac.subrange(0, frac_len as int) =~= frac);
    let mut pad: usize = 0;
    while pad < places - frac_len
        invariant
            frac_len <= places,
            pad <= places - frac_len,
            f == digits_value(frac) * pow10(pad as nat),
            f < pow10((frac_len + pad) as nat),
            pow10(places as nat) == precision,
        decreases places - frac_len - pad,
    {
        proof {
            lemma_pow10_monotonic((frac_len + pad + 1) as nat, places as nat);
            assert(f * 10 == digits_value(frac) * pow10((pad + 1) as nat)) by (nonlinear_arith)
                requires
                    f == digits_value(frac) * pow10(pad as nat),
                    pow10((pad + 1) as nat) == 10 * pow10(pad as nat),
            ;
        }
        f = f * 10;
        pad = pad + 1;
    }
    assert(pad == places - frac_len);
    assert(f == digits_value(frac) * pow10((places - frac_len) as nat));
    assert(units == scaled + f);
    match scaled.checked_add(f) {
        Some(v) => Ok(v),
        None => {
            let t = s.substring_char(0, dot);
            Err(DecimalNumberParsingError::LongWhole(String::from_str(t)))
        },
    }
}

} // verus!
