//! The two renderings of an amount: a short, rounded-up one and an exact one.
use vstd::prelude::*;
use vstd::string::StringExecFns;

use crate::decimal::{all_digits, decimal_places, digits_value, is_digit};
use crate::parse::{
    lemma_number_then_unit, lemma_rendered_units, lemma_unit_precisions, token_parses,
    token_units,
};
use crate::text::{
    decimal_text, digit_char, lemma_fraction_literal, lemma_integer_literal, lemma_nat_text,
    lemma_padded_text, lemma_strip_trailing_zeros, nat_text, padded_decimal_text, padded_text,
    strip_trailing_zeros, without_trailing_zeros,
};
use crate::{NearToken, ONE_MILLINEAR, ONE_NEAR};

verus! {

/// `a / b`, rounded up.
pub open spec fn ceil_div(a: nat, b: nat) -> nat {
    if a % b == 0 {
        a / b
    } else {
        a / b + 1
    }
}

/// The short rendering of `v` yoctoNEAR: amounts below a milliNEAR in thousandths of a
/// NEAR (three places), larger ones in NEAR (two places), both rounded up.
pub open spec fn terse_text(v: nat) -> Seq<char> {
    if v == 0 {
        "0 NEAR"@
    } else if v < ONE_MILLINEAR {
        "<0.001 NEAR"@
    } else if v <= 999 * ONE_MILLINEAR {
        "0."@ + padded_text(ceil_div(v, ONE_MILLINEAR as nat), 3) + " NEAR"@
    } else {
        let hundredths = ceil_div(v, 10 * ONE_MILLINEAR as nat);
        nat_text(hundredths / 100) + "."@ + padded_text(hundredths % 100, 2) + " NEAR"@
    }
}

/// The lossless rendering of `v` yoctoNEAR: up to a thousand in yoctoNEAR, otherwise
/// in NEAR with every significant fractional digit.
pub open spec fn exact_text(v: nat) -> Seq<char> {
    if v == 0 {
        "0 NEAR"@
    } else if v <= 1000 {
        nat_text(v) + " yoctoNEAR"@
    } else if v % ONE_NEAR as nat == 0 {
        nat_text(v / ONE_NEAR as nat) + " NEAR"@
    } else {
        nat_text(v / ONE_NEAR as nat) + "."@ + strip_trailing_zeros(
            padded_text(v % ONE_NEAR as nat, 24),
        ) + " NEAR"@
    }
}

/// Reading back the exact rendering of an amount gives the same amount: the
/// rendering loses nothing.
pub proof fn lemma_exact_text_reads_back(v: u128)
    ensures
        token_parses(exact_text(v as nat)),
        token_units(exact_text(v as nat)) == v,
{
    let v = v as nat;
    let one = ONE_NEAR as nat;
    lemma_rendered_units();
    lemma_unit_precisions();
    reveal_strlit(" NEAR");
    reveal_strlit(" yoctoNEAR");
    reveal_strlit("NEAR");
    reveal_strlit("yoctoNEAR");
    let near = seq![' '] + "NEAR"@;
    assert(" NEAR"@ =~= near);
    if v == 0 {
        reveal_strlit("0 NEAR");
        reveal_strlit("0123456789");
        assert(nat_text(0) =~= seq![digit_char(0)]);
        assert(exact_text(v) =~= nat_text(0) + seq![' '] + "NEAR"@);
        lemma_exact_integer_in(0, "NEAR"@, one);
    } else if v <= 1000 {
        assert(" yoctoNEAR"@ =~= seq![' '] + "yoctoNEAR"@);
        assert(exact_text(v) =~= nat_text(v) + seq![' '] + "yoctoNEAR"@);
        lemma_exact_integer_in(v, "yoctoNEAR"@, 1);
    } else if v % one == 0 {
        assert(exact_text(v) =~= nat_text(v / one) + seq![' '] + "NEAR"@);
        lemma_exact_integer_in(v / one, "NEAR"@, one);
    } else {
        let w = v / one;
        let r = v % one;
        let padded = padded_text(r, 24);
        let f = strip_trailing_zeros(padded);
        let d = nat_text(w) + seq!['.'] + f;
        reveal_strlit(".");
        assert(exact_text(v) =~= d + seq![' '] + "NEAR"@);
        lemma_padded_text(r, 24);
        lemma_strip_trailing_zeros(padded);
        assert(all_digits(f)) by {
            assert forall|j: int| 0 <= j < f.len() implies is_digit(#[trigger] f[j]) by {
                assert(f[j] == padded[j]);
            }
        }
        lemma_fraction_literal(w, f);
        lemma_nat_text(w);
        assert forall|j: int| 0 <= j < d.len() implies is_digit(#[trigger] d[j]) || d[j]
            == '.' by {
            if j < nat_text(w).len() {
                assert(d[j] == nat_text(w)[j]);
            } else if j > nat_text(w).len() {
                assert(d[j] == f[j - nat_text(w).len() - 1]);
            }
        }
        lemma_number_then_unit(d, "NEAR"@);
        assert(v == w * one + r);
    }
}

/// A whole number rendered in front of a known unit reads back as that many units.
proof fn lemma_exact_integer_in(n: nat, u: Seq<char>, precision: nat)
    requires
        n * precision <= u128::MAX,
        u.len() > 0,
        crate::parse::is_ascii_letter(u[0]),
        !crate::parse::is_white_space(u.last()),
        crate::parse::unit_precision(u) == Some(precision),
        crate::decimal::is_power_of_ten(precision),
    ensures
        token_parses(nat_text(n) + seq![' '] + u),
        token_units(nat_text(n) + seq![' '] + u) == n * precision,
{
    lemma_integer_literal(n);
    lemma_nat_text(n);
    let d = nat_text(n);
    assert forall|j: int| 0 <= j < d.len() implies is_digit(#[trigger] d[j]) || d[j] == '.' by {
    }
    lemma_number_then_unit(d, u);
    assert(digits_value(Seq::<char>::empty()) == 0);
    crate::decimal::lemma_pow10_positive(decimal_places(precision));
}

/// Just past a whole number of thousandths of a NEAR, the short rendering already
/// shows the next thousandth: it rounds up, never down.
pub proof fn lemma_terse_rounds_up(k: nat)
    requires
        1 <= k <= 998,
    ensures
        terse_text(k * ONE_MILLINEAR as nat + 1) == terse_text((k + 1) * ONE_MILLINEAR as nat),
{
    let m = ONE_MILLINEAR as nat;
    assert((k * m + 1) / m == k && (k * m + 1) % m == 1) by {
        vstd::arithmetic::div_mod::lemma_fundamental_div_mod_converse(
            (k * m + 1) as int,
            m as int,
            k as int,
            1,
        );
    }
    assert(((k + 1) * m) / m == k + 1 && ((k + 1) * m) % m == 0) by {
        vstd::arithmetic::div_mod::lemma_fundamental_div_mod_converse(
            ((k + 1) * m) as int,
            m as int,
            (k + 1) as int,
            0,
        );
    }
}

/// `a / b` rounded up, for `b` above one.
fn div_ceil(a: u128, b: u128) -> (r: u128)
    requires
        b > 1,
    ensures
        r == ceil_div(a as nat, b as nat),
{
    let q = a / b;
    assert(q <= a / 2) by (nonlinear_arith)
        requires
            b > 1,
            q == a / b,
    ;
    if a % b == 0 {
        q
    } else {
        q + 1
    }
}

impl NearToken {
    /// The short rendering of the amount, rounded up so that it never shows less than
    /// there is.
    pub fn to_string(&self) -> (r: String)
        ensures
            r@ == terse_text(self@),
    {
        let v = self.as_yoctonear();
        if v == 0 {
            String::from_str("0 NEAR")
        } else if v < ONE_MILLINEAR {
            String::from_str("<0.001 NEAR")
        } else if v <= 999 * ONE_MILLINEAR {
            let thousandths = div_ceil(v, ONE_MILLINEAR);
            let mut r = String::from_str("0.");
            let digits = padded_decimal_text(thousandths, 3);
            r.append(digits.as_str());
            r.append(" NEAR");
            r
        } else {
            let hundredths = div_ceil(v, 10 * ONE_MILLINEAR);
            let mut r = decimal_text(hundredths / 100);
            r.append(".");
            let digits = padded_decimal_text(hundredths % 100, 2);
            r.append(digits.as_str());
            r.append(" NEAR");
            r
        }
    }

    /// The lossless rendering of the amount, which reads back to the same amount.
    pub fn exact_amount_display(&self) -> (r: String)
        ensures
            r@ == exact_text(self@),
    {
        let v = self.as_yoctonear();
        if v == 0 {
            String::from_str("0 NEAR")
        } else if v <= 1000 {
            let mut r = decimal_text(v);
            r.append(" yoctoNEAR");
            r
        } else if v % ONE_NEAR == 0 {
            let mut r = decimal_text(v / ONE_NEAR);
            r.append(" NEAR");
            r
        } else {
            let mut r = decimal_text(v / ONE_NEAR);
            r.append(".");
            let padded = padded_decimal_text(v % ONE_NEAR, 24);
            let fraction = without_trailing_zeros(padded.as_str());
            r.append(fraction.as_str());
            r.append(" NEAR");
            r
        }
    }
}

} // verus!
