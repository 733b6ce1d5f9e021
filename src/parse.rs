//! Reading an amount written as a number followed by a unit.
use vstd::prelude::*;
use vstd::string::{StrSliceExecFns, StringExecFns};

use crate::decimal::{
    decimal_outcome, decimal_parses, decimal_places, decimal_units, is_digit, is_power_of_ten,
    parse_decimal_number, pow10,
};
use crate::error::NearTokenError;
use crate::{NearToken, ONE_MICRONEAR, ONE_MILLINEAR, ONE_NEAR};

verus! {

/// A character with the Unicode `White_Space` property.
pub open spec fn is_white_space(c: char) -> bool {
    ('\u{9}' <= c && c <= '\u{d}') || c == ' ' || c == '\u{85}' || c == '\u{a0}' || c
        == '\u{1680}' || ('\u{2000}' <= c && c <= '\u{200a}') || c == '\u{2028}' || c
        == '\u{2029}' || c == '\u{202f}' || c == '\u{205f}' || c == '\u{3000}'
}

/// `s` without the white space at its start.
pub open spec fn trim_start(s: Seq<char>) -> Seq<char>
    decreases s.len(),
{
    if s.len() > 0 && is_white_space(s[0]) {
        trim_start(s.drop_first())
    } else {
        s
    }
}

/// `s` without the white space at its end.
pub open spec fn trim_end(s: Seq<char>) -> Seq<char>
    decreases s.len(),
{
    if s.len() > 0 && is_white_space(s.last()) {
        trim_end(s.drop_last())
    } else {
        s
    }
}

/// `s` without the white space at either end.
pub open spec fn trim(s: Seq<char>) -> Seq<char> {
    trim_end(trim_start(s))
}

/// An ASCII letter.
pub open spec fn is_ascii_letter(c: char) -> bool {
    ('a' <= c && c <= 'z') || ('A' <= c && c <= 'Z')
}

/// The index of the first ASCII letter in `s`, or its length where there is none.
pub open spec fn letter_position(s: Seq<char>) -> nat
    decreases s.len(),
{
    if s.len() == 0 || is_ascii_letter(s[0]) {
        0
    } else {
        1 + letter_position(s.drop_first())
    }
}

/// The code of `c` once a lower-case ASCII letter is made upper case.
pub open spec fn upper_code(c: char) -> int {
    if 'a' <= c && c <= 'z' {
        c as int - 32
    } else {
        c as int
    }
}

/// `u` is `w` but for the case of ASCII letters, where `w` is upper case.
pub open spec fn upper_is(u: Seq<char>, w: Seq<char>) -> bool {
    &&& u.len() == w.len()
    &&& forall|i: int| 0 <= i < u.len() ==> upper_code(#[trigger] u[i]) == w[i] as int
}

/// The yoctoNEAR in one of the unit `u`, for a unit that is known.
pub open spec fn unit_precision(u: Seq<char>) -> Option<nat> {
    if upper_is(u, "YN"@) || upper_is(u, "YNEAR"@) || upper_is(u, "YOCTONEAR"@) {
        Some(1)
    } else if upper_is(u, "MICRONEAR"@) {
        Some(ONE_MICRONEAR as nat)
    } else if upper_is(u, "MILLINEAR"@) {
        Some(ONE_MILLINEAR as nat)
    } else if upper_is(u, "NEAR"@) || upper_is(u, "N"@) {
        Some(ONE_NEAR as nat)
    } else {
        None
    }
}

/// The trimmed text from its first ASCII letter on.
pub open spec fn unit_text(s: Seq<char>) -> Seq<char> {
    trim(s).subrange(letter_position(trim(s)) as int, trim(s).len() as int)
}

/// The trimmed text before its first ASCII letter, trimmed again.
pub open spec fn amount_text(s: Seq<char>) -> Seq<char> {
    trim(trim(s).subrange(0, letter_position(trim(s)) as int))
}

/// The text names a unit, and one that is known.
pub open spec fn has_known_unit(s: Seq<char>) -> bool {
    &&& letter_position(trim(s)) < trim(s).len()
    &&& unit_precision(unit_text(s)) is Some
}

/// The yoctoNEAR in one of the unit that the text names.
pub open spec fn token_precision(s: Seq<char>) -> nat {
    unit_precision(unit_text(s))->0
}

/// The text reads as an amount of NEAR.
pub open spec fn token_parses(s: Seq<char>) -> bool {
    &&& has_known_unit(s)
    &&& decimal_parses(amount_text(s), token_precision(s))
}

/// The number of yoctoNEAR that the text stands for.
pub open spec fn token_units(s: Seq<char>) -> nat {
    decimal_units(amount_text(s), token_precision(s))
}

/// The loop's scan from the start agrees with `trim_start`.
pub proof fn lemma_trim_start(s: Seq<char>, a: int)
    requires
        0 <= a <= s.len(),
        forall|j: int| 0 <= j < a ==> is_white_space(#[trigger] s[j]),
        a == s.len() || !is_white_space(s[a]),
    ensures
        trim_start(s) == s.subrange(a, s.len() as int),
    decreases a,
{
    if a > 0 {
        assert(is_white_space(s[0]));
        lemma_trim_start(s.drop_first(), a - 1);
        assert(s.drop_first().subrange(a - 1, s.len() - 1) =~= s.subrange(a, s.len() as int));
    } else {
        assert(s.subrange(0, s.len() as int) =~= s);
    }
}

/// The loop's scan from the end agrees with `trim_end`.
pub proof fn lemma_trim_end(s: Seq<char>, b: int)
    requires
        0 <= b <= s.len(),
        forall|j: int| b <= j < s.len() ==> is_white_space(#[trigger] s[j]),
        b == 0 || !is_white_space(s[b - 1]),
    ensures
        trim_end(s) == s.subrange(0, b),
    decreases s.len() - b,
{
    if b < s.len() {
        assert(is_white_space(s.last()));
        lemma_trim_end(s.drop_last(), b);
        assert(s.drop_last().subrange(0, b) =~= s.subrange(0, b));
    } else {
        assert(s.subrange(0, b) =~= s);
    }
}

/// The loop's scan for the first letter agrees with `letter_position`.
pub proof fn lemma_letter_position(s: Seq<char>, i: int)
    requires
        0 <= i <= s.len(),
        forall|j: int| 0 <= j < i ==> !is_ascii_letter(#[trigger] s[j]),
        i == s.len() || is_ascii_letter(s[i]),
    ensures
        letter_position(s) == i,
    decreases i,
{
    if i > 0 {
        assert(!is_ascii_letter(s[0]));
        lemma_letter_position(s.drop_first(), i - 1);
    }
}

/// The four unit sizes are powers of ten.
pub proof fn lemma_unit_precisions()
    ensures
        is_power_of_ten(1),
        is_power_of_ten(ONE_MICRONEAR as nat),
        is_power_of_ten(ONE_MILLINEAR as nat),
        is_power_of_ten(ONE_NEAR as nat),
        decimal_places(1) == 0,
        decimal_places(ONE_NEAR as nat) == 24,
{
    reveal_with_fuel(pow10, 25);
    reveal_with_fuel(decimal_places, 25);
}

/// A text with no white space at either end is its own trimming.
pub proof fn lemma_trim_unchanged(s: Seq<char>)
    requires
        s.len() > 0,
        !is_white_space(s[0]),
        !is_white_space(s.last()),
    ensures
        trim(s) == s,
{
    lemma_trim_start(s, 0);
    assert(s.subrange(0, s.len() as int) =~= s);
    lemma_trim_end(s, s.len() as int);
}

/// Text that ends in one space after no white space trims to what is before it.
pub proof fn lemma_trim_trailing_space(d: Seq<char>)
    requires
        d.len() > 0,
        !is_white_space(d[0]),
        !is_white_space(d.last()),
    ensures
        trim(d + seq![' ']) == d,
{
    let a = d + seq![' '];
    assert(a[0] == d[0]);
    lemma_trim_start(a, 0);
    assert(a.subrange(0, a.len() as int) =~= a);
    assert(a[d.len() - 1] == d.last());
    lemma_trim_end(a, d.len() as int);
    assert(a.subrange(0, d.len() as int) =~= d);
}

/// A number, one space and a known unit: the unit is found, and the number is what
/// is read.
pub proof fn lemma_number_then_unit(d: Seq<char>, u: Seq<char>)
    requires
        d.len() > 0,
        forall|j: int| 0 <= j < d.len() ==> is_digit(#[trigger] d[j]) || d[j] == '.',
        u.len() > 0,
        is_ascii_letter(u[0]),
        !is_white_space(u.last()),
        unit_precision(u) is Some,
    ensures
        has_known_unit(d + seq![' '] + u),
        amount_text(d + seq![' '] + u) == d,
        token_precision(d + seq![' '] + u) == unit_precision(u)->0,
{
    let a = d + seq![' '];
    let t = a + u;
    assert(t[0] == d[0]);
    assert(is_digit(d[0]) || d[0] == '.');
    assert(t.last() == u.last());
    lemma_trim_unchanged(t);
    assert forall|j: int| 0 <= j < a.len() implies !is_ascii_letter(#[trigger] t[j]) by {
        if j < d.len() {
            assert(t[j] == d[j]);
            assert(is_digit(d[j]) || d[j] == '.');
        }
    }
    assert(t[a.len() as int] == u[0]);
    lemma_letter_position(t, a.len() as int);
    assert(t.subrange(a.len() as int, t.len() as int) =~= u);
    assert(t.subrange(0, a.len() as int) =~= a);
    assert(is_digit(d.last()) || d.last() == '.');
    lemma_trim_trailing_space(d);
}

/// The two unit words that the renderings write are known units.
pub proof fn lemma_rendered_units()
    ensures
        unit_precision("NEAR"@) == Some(ONE_NEAR as nat),
        unit_precision("yoctoNEAR"@) == Some(1nat),
        "NEAR"@.len() > 0 && is_ascii_letter("NEAR"@[0]) && !is_white_space("NEAR"@.last()),
        "yoctoNEAR"@.len() > 0 && is_ascii_letter("yoctoNEAR"@[0]) && !is_white_space(
            "yoctoNEAR"@.last(),
        ),
{
    reveal_strlit("NEAR");
    reveal_strlit("yoctoNEAR");
    reveal_strlit("YN");
    reveal_strlit("YNEAR");
    reveal_strlit("YOCTONEAR");
    reveal_strlit("MICRONEAR");
    reveal_strlit("MILLINEAR");
    reveal_strlit("N");
    assert(upper_is("NEAR"@, "NEAR"@));
    assert(upper_is("yoctoNEAR"@, "YOCTONEAR"@));
}

fn white_space(c: char) -> (r: bool)
    ensures
        r == is_white_space(c),
{
    ('\u{9}' <= c && c <= '\u{d}') || c == ' ' || c == '\u{85}' || c == '\u{a0}' || c
        == '\u{1680}' || ('\u{2000}' <= c && c <= '\u{200a}') || c == '\u{2028}' || c
        == '\u{2029}' || c == '\u{202f}' || c == '\u{205f}' || c == '\u{3000}'
}

fn ascii_letter(c: char) -> (r: bool)
    ensures
        r == is_ascii_letter(c),
{
    ('a' <= c && c <= 'z') || ('A' <= c && c <= 'Z')
}

/// `s` without the white space at either end.
pub fn trimmed(s: &str) -> (r: &str)
    ensures
        r@ == trim(s@),
{
    let n = s.unicode_len();
    let mut a: usize = 0;
    while a < n && white_space(s.get_char(a))
        invariant
            n == s@.len(),
            a <= n,
            forall|j: int| 0 <= j < a ==> is_white_space(#[trigger] s@[j]),
        decreases n - a,
    {
        a = a + 1;
    }
    proof {
        lemma_trim_start(s@, a as int);
    }
    let ghost t = s@.subrange(a as int, n as int);
    let mut b: usize = n;
    while b > a && white_space(s.get_char(b - 1))
        invariant
            n == s@.len(),
            a <= b <= n,
            t == s@.subrange(a as int, n as int),
            forall|j: int| b - a <= j < t.len() ==> is_white_space(#[trigger] t[j]),
        decreases b,
    {
        assert(t[b - 1 - a] == s@[b - 1]);
        b = b - 1;
    }
    proof {
        if b > a {
            assert(t[b - a - 1] == s@[b - 1]);
        }
        lemma_trim_end(t, b - a);
        assert(t.subrange(0, b - a) =~= s@.subrange(a as int, b as int));
    }
    s.substring_char(a, b)
}

/// Whether `u` is the upper-case word `w` but for the case of ASCII letters.
fn is_upper_of(u: &str, w: &str) -> (r: bool)
    ensures
        r == upper_is(u@, w@),
{
    let n = u.unicode_len();
    if n != w.unicode_len() {
        return false;
    }
    let mut i: usize = 0;
    while i < n
        invariant
            n == u@.len(),
            n == w@.len(),
            i <= n,
            forall|j: int| 0 <= j < i ==> upper_code(#[trigger] u@[j]) == w@[j] as int,
        decreases n - i,
    {
        let c = u.get_char(i);
        let code: u32 = if 'a' <= c && c <= 'z' {
            c as u32 - 32
        } else {
            c as u32
        };
        if code != w.get_char(i) as u32 {
            return false;
        }
        i = i + 1;
    }
    true
}

/// The yoctoNEAR in one of the unit `u`, or `None` for a unit that is not known.
fn precision_of_unit(u: &str) -> (r: Option<u128>)
    ensures
        r matches Some(p) ==> unit_precision(u@) == Some(p as nat),
        r is None ==> unit_precision(u@) is None,
{
    if is_upper_of(u, "YN") || is_upper_of(u, "YNEAR") || is_upper_of(u, "YOCTONEAR") {
        Some(1)
    } else if is_upper_of(u, "MICRONEAR") {
        Some(ONE_MICRONEAR)
    } else if is_upper_of(u, "MILLINEAR") {
        Some(ONE_MILLINEAR)
    } else if is_upper_of(u, "NEAR") || is_upper_of(u, "N") {
        Some(ONE_NEAR)
    } else {
        None
    }
}

impl NearToken {
    /// Reads an amount written as a decimal number and a unit, such as `1.5 NEAR` or
    /// `500 yoctoNEAR`. The unit starts at the first ASCII letter and is matched
    /// without regard to case; the number before it is read exactly, never rounded.
    pub fn parse(s: &str) -> (r: Result<NearToken, NearTokenError>)
        ensures
            match r {
                Ok(t) => token_parses(s@) && t@ == token_units(s@),
                Err(NearTokenError::InvalidTokenUnit(u)) => !has_known_unit(s@) && u@ == s@,
                Err(NearTokenError::InvalidTokensAmount(e)) => {
                    &&& has_known_unit(s@)
                    &&& decimal_outcome(amount_text(s@), token_precision(s@), Err(e))
                },
            },
    {
        let t = trimmed(s);
        let n = t.unicode_len();
        let mut i: usize = 0;
        while i < n && !ascii_letter(t.get_char(i))
            invariant
                n == t@.len(),
                i <= n,
                forall|j: int| 0 <= j < i ==> !is_ascii_letter(#[trigger] t@[j]),
            decreases n - i,
        {
            i = i + 1;
        }
        proof {
            lemma_letter_position(t@, i as int);
        }
        if i == n {
            return Err(NearTokenError::InvalidTokenUnit(String::from_str(s)));
        }
        let unit = t.substring_char(i, n);
        let precision = match precision_of_unit(unit) {
            Some(p) => p,
            None => {
                return Err(NearTokenError::InvalidTokenUnit(String::from_str(s)));
            },
        };
        proof {
            lemma_unit_precisions();
        }
        let amount = trimmed(t.substring_char(0, i));
        match parse_decimal_number(amount, precision) {
            Ok(v) => Ok(NearToken::from_yoctonear(v)),
            Err(e) => Err(NearTokenError::InvalidTokensAmount(e)),
        }
    }
}

impl std::str::FromStr for NearToken {
    type Err = NearTokenError;

    fn from_str(s: &str) -> (r: Result<NearToken, NearTokenError>)
        ensures
            match r {
                Ok(t) => token_parses(s@) && t@ == token_units(s@),
                Err(NearTokenError::InvalidTokenUnit(u)) => !has_known_unit(s@) && u@ == s@,
                Err(NearTokenError::InvalidTokensAmount(e)) => {
                    &&& has_known_unit(s@)
                    &&& decimal_outcome(amount_text(s@), token_precision(s@), Err(e))
                },
            },
    {
        NearToken::parse(s)
    }
}

} // verus!
