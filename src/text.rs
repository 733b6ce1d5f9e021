//! Numbers written out in base ten, padded and trimmed.
use vstd::prelude::*;
use vstd::string::{StrSliceExecFns, StringExecFns};

use crate::decimal::{
    all_digits, digit_value, digits_value, fraction_part, is_decimal_literal, is_digit,
    lemma_dot_position, pow10, whole_part,
};

verus! {

/// The character of the decimal digit `d`.
pub open spec fn digit_char(d: nat) -> char {
    "0123456789"@[d as int]
}

/// `n` written in base ten, without leading zeros ("0" for zero).
pub open spec fn nat_text(n: nat) -> Seq<char>
    decreases n,
{
    if n < 10 {
        seq![digit_char(n)]
    } else {
        nat_text(n / 10).push(digit_char(n % 10))
    }
}

/// `k` zero characters.
pub open spec fn zeros(k: nat) -> Seq<char> {
    Seq::new(k, |i: int| '0')
}

/// `n` in base ten, with zeros in front up to `width` characters.
pub open spec fn padded_text(n: nat, width: nat) -> Seq<char> {
    if nat_text(n).len() < width {
        zeros((width - nat_text(n).len()) as nat) + nat_text(n)
    } else {
        nat_text(n)
    }
}

/// `s` without the zeros at its end.
pub open spec fn strip_trailing_zeros(s: Seq<char>) -> Seq<char>
    decreases s.len(),
{
    if s.len() > 0 && s.last() == '0' {
        strip_trailing_zeros(s.drop_last())
    } else {
        s
    }
}

pub proof fn lemma_digit_char(d: nat)
    requires
        d < 10,
    ensures
        is_digit(digit_char(d)),
        digit_value(digit_char(d)) == d,
{
    reveal_strlit("0123456789");
}

/// The text of a number is digits, and reads back as the number.
pub proof fn lemma_nat_text(n: nat)
    ensures
        nat_text(n).len() >= 1,
        all_digits(nat_text(n)),
        digits_value(nat_text(n)) == n,
    decreases n,
{
    if n < 10 {
        lemma_digit_char(n);
        assert(seq![digit_char(n)].drop_last() =~= Seq::<char>::empty());
        assert(digits_value(Seq::<char>::empty()) == 0);
    } else {
        lemma_nat_text(n / 10);
        lemma_digit_char(n % 10);
        let t = nat_text(n / 10);
        assert(t.push(digit_char(n % 10)).drop_last() =~= t);
        assert(digits_value(nat_text(n)) == (n / 10) * 10 + n % 10);
        assert forall|i: int| 0 <= i < nat_text(n).len() implies is_digit(
            #[trigger] nat_text(n)[i],
        ) by {
            if i < t.len() {
                assert(nat_text(n)[i] == t[i]);
            }
        }
    }
}

/// A number below ten to the `k` takes at most `k` digits.
pub proof fn lemma_nat_text_len(n: nat, k: nat)
    requires
        n < pow10(k),
        k >= 1,
    ensures
        nat_text(n).len() <= k,
    decreases n,
{
    if n >= 10 {
        assert(pow10(k) == 10 * pow10((k - 1) as nat));
        assert(k >= 2) by {
            if k == 1 {
                assert(pow10(0) == 1);
            }
        };
        assert(n / 10 < pow10((k - 1) as nat));
        lemma_nat_text_len(n / 10, (k - 1) as nat);
    }
}

/// Zeros in front do not change the value of a run of digits.
pub proof fn lemma_leading_zeros(k: nat, t: Seq<char>)
    ensures
        digits_value(zeros(k) + t) == digits_value(t),
        all_digits(t) ==> all_digits(zeros(k) + t),
    decreases t.len(),
{
    if t.len() == 0 {
        lemma_zeros_value(k);
        assert(zeros(k) + t =~= zeros(k));
    } else {
        lemma_leading_zeros(k, t.drop_last());
        assert((zeros(k) + t).drop_last() =~= zeros(k) + t.drop_last());
        assert((zeros(k) + t).last() == t.last());
    }
    if all_digits(t) {
        assert forall|i: int| 0 <= i < (zeros(k) + t).len() implies is_digit(
            #[trigger] (zeros(k) + t)[i],
        ) by {
            if i >= k {
                assert((zeros(k) + t)[i] == t[i - k]);
            }
        }
    }
}

pub proof fn lemma_zeros_value(k: nat)
    ensures
        digits_value(zeros(k)) == 0,
    decreases k,
{
    if k > 0 {
        lemma_zeros_value((k - 1) as nat);
        assert(zeros(k).drop_last() =~= zeros((k - 1) as nat));
    }
}

/// Zero-padded text is digits of the requested width that read back as the number.
pub proof fn lemma_padded_text(n: nat, width: nat)
    requires
        n < pow10(width),
        width >= 1,
    ensures
        padded_text(n, width).len() == width,
        all_digits(padded_text(n, width)),
        digits_value(padded_text(n, width)) == n,
{
    lemma_nat_text(n);
    lemma_nat_text_len(n, width);
    if nat_text(n).len() < width {
        lemma_leading_zeros((width - nat_text(n).len()) as nat, nat_text(n));
    }
}

/// Dropping the trailing zeros divides the value by ten for each zero dropped.
pub proof fn lemma_strip_trailing_zeros(s: Seq<char>)
    ensures
        strip_trailing_zeros(s).len() <= s.len(),
        strip_trailing_zeros(s) =~= s.subrange(0, strip_trailing_zeros(s).len() as int),
        all_digits(s) ==> digits_value(strip_trailing_zeros(s)) * pow10(
            (s.len() - strip_trailing_zeros(s).len()) as nat,
        ) == digits_value(s),
        strip_trailing_zeros(s).len() > 0 ==> strip_trailing_zeros(s).last() != '0',
    decreases s.len(),
{
    if s.len() > 0 && s.last() == '0' {
        let d = s.drop_last();
        lemma_strip_trailing_zeros(d);
        let t = strip_trailing_zeros(d);
        let e = (d.len() - t.len()) as nat;
        assert(strip_trailing_zeros(s) == t);
        assert(d.subrange(0, t.len() as int) =~= s.subrange(0, t.len() as int));
        if all_digits(s) {
            assert(all_digits(d)) by {
                assert forall|i: int| 0 <= i < d.len() implies is_digit(#[trigger] d[i]) by {
                    assert(d[i] == s[i]);
                }
            }
            assert(digit_value(s.last()) == 0);
            assert(digits_value(s) == digits_value(d) * 10);
            assert(pow10(e + 1) == 10 * pow10(e));
            assert(digits_value(t) * pow10(e + 1) == digits_value(t) * pow10(e) * 10)
                by (nonlinear_arith)
                requires
                    pow10(e + 1) == 10 * pow10(e),
            ;
            assert((s.len() - t.len()) as nat == e + 1);
            assert(digits_value(t) * pow10(e) == digits_value(d));
            assert(digits_value(t) * pow10(e + 1) == digits_value(s));
            assert(digits_value(strip_trailing_zeros(s)) * pow10(
                (s.len() - strip_trailing_zeros(s).len()) as nat,
            ) == digits_value(s));
        }
    } else {
        assert(s.subrange(0, s.len() as int) =~= s);
        assert(strip_trailing_zeros(s) == s);
        assert((s.len() - s.len()) as nat == 0);
        assert(pow10(0) == 1);
        assert(digits_value(s) * pow10(0) == digits_value(s));
    }
}

/// The text of a number is a decimal literal with no fractional part.
pub proof fn lemma_integer_literal(n: nat)
    ensures
        is_decimal_literal(nat_text(n)),
        whole_part(nat_text(n)) == nat_text(n),
        fraction_part(nat_text(n)) == Seq::<char>::empty(),
{
    lemma_nat_text(n);
    let s = nat_text(n);
    assert forall|j: int| 0 <= j < s.len() implies s[j] != '.' by {
        assert(is_digit(s[j]));
    }
    lemma_dot_position(s, s.len() as int);
    assert(s.subrange(0, s.len() as int) =~= s);
}

/// The text of a number, a `.` and digits is a decimal literal with those two parts.
pub proof fn lemma_fraction_literal(w: nat, f: Seq<char>)
    requires
        all_digits(f),
    ensures
        is_decimal_literal(nat_text(w) + seq!['.'] + f),
        whole_part(nat_text(w) + seq!['.'] + f) == nat_text(w),
        fraction_part(nat_text(w) + seq!['.'] + f) == f,
{
    lemma_nat_text(w);
    let a = nat_text(w);
    let s = a + seq!['.'] + f;
    assert forall|j: int| 0 <= j < a.len() implies s[j] != '.' by {
        assert(s[j] == a[j]);
        assert(is_digit(a[j]));
    }
    assert(s[a.len() as int] == '.');
    lemma_dot_position(s, a.len() as int);
    assert(s.subrange(0, a.len() as int) =~= a);
    assert(s.subrange(a.len() + 1 as int, s.len() as int) =~= f);
}

/// The one-character text of the digit `d`.
fn digit_str(d: u128) -> (r: &'static str)
    requires
        d < 10,
    ensures
        r@ == seq![digit_char(d as nat)],
{
    proof {
        reveal_strlit("0123456789");
    }
    let r = "0123456789".substring_char(d as usize, d as usize + 1);
    assert(r@ =~= seq![digit_char(d as nat)]);
    r
}

/// `n` written in base ten.
pub fn decimal_text(n: u128) -> (r: String)
    ensures
        r@ == nat_text(n as nat),
    decreases n,
{
    if n < 10 {
        String::from_str(digit_str(n))
    } else {
        let mut r = decimal_text(n / 10);
        r.append(digit_str(n % 10));
        assert(r@ =~= nat_text(n as nat));
        r
    }
}

/// `n` written in base ten, with zeros in front up to `width` characters.
pub fn padded_decimal_text(n: u128, width: usize) -> (r: String)
    ensures
        r@ == padded_text(n as nat, width as nat),
{
    let digits = decimal_text(n);
    let len = digits.as_str().unicode_len();
    if len >= width {
        return digits;
    }
    let mut r = String::new();
    let mut i: usize = 0;
    while i < width - len
        invariant
            len < width,
            i <= width - len,
            r@ == zeros(i as nat),
        decreases width - len - i,
    {
        proof {
            reveal_strlit("0");
        }
        r.append("0");
        assert(r@ =~= zeros((i + 1) as nat));
        i = i + 1;
    }
    r.append(digits.as_str());
    r
}

/// `s` without the zeros at its end.
pub fn without_trailing_zeros(s: &str) -> (r: String)
    ensures
        r@ == strip_trailing_zeros(s@),
{
    let mut k = s.unicode_len();
    assert(s@.subrange(0, k as int) =~= s@);
    while k > 0 && s.get_char(k - 1) == '0'
        invariant
            k <= s@.len(),
            strip_trailing_zeros(s@.subrange(0, k as int)) == strip_trailing_zeros(s@),
        decreases k,
    {
        assert(s@.subrange(0, k as int).drop_last() =~= s@.subrange(0, k - 1));
        k = k - 1;
    }
    assert(strip_trailing_zeros(s@.subrange(0, k as int)) == s@.subrange(0, k as int));
    String::from_str(s.substring_char(0, k))
}

} // verus!
