//! Time quantities of the rule language: message ages and thresholds, kept
//! exactly to the nanosecond (values between two nanoseconds are rounded down),
//! with the infinities and the not-a-number that number texts may spell.

use vstd::prelude::*;

use crate::text::{chars_eq_ignore_ascii_case, chars_of, concat_chars, eq_ascii_ci, sub_chars};

verus! {

/// A span of time in nanoseconds, or one of the non-finite values.
#[derive(Debug, Clone, Copy, PartialEq, Eq, Structural)]
pub enum Num {
    Finite(i128),
    PosInf,
    NegInf,
    NaN,
}

/// Nanoseconds per second.
pub open spec fn ns_per_second() -> int {
    1_000_000_000
}

/// `10^n`.
pub open spec fn pow10(n: nat) -> int
    decreases n,
{
    if n == 0 { 1 } else { 10 * pow10((n - 1) as nat) }
}

pub proof fn lemma_pow10_positive(n: nat)
    ensures
        pow10(n) >= 1,
    decreases n,
{
    if n > 0 {
        lemma_pow10_positive((n - 1) as nat);
    }
}

pub proof fn lemma_pow10_monotonic(a: nat, b: nat)
    requires
        a <= b,
    ensures
        pow10(a) <= pow10(b),
    decreases b,
{
    lemma_pow10_positive(b);
    if a < b {
        lemma_pow10_monotonic(a, (b - 1) as nat);
    }
}

/// An integer clamped into the representable range (beyond it, an infinity).
pub open spec fn clamp(v: int) -> Num {
    if v > i128::MAX {
        Num::PosInf
    } else if v < i128::MIN {
        Num::NegInf
    } else {
        Num::Finite(v as i128)
    }
}

/// `n * 10^k` hours in nanoseconds (3.6e12 per hour), rounded down.
pub open spec fn scale_hours(n: int, k: int) -> Num {
    if k + 11 >= 0 {
        clamp(n * 36 * pow10((k + 11) as nat))
    } else {
        clamp((n * 36) / pow10((-(k + 11)) as nat))
    }
}

/// An age of whole seconds, in nanoseconds.
pub open spec fn seconds_ns(seconds: int) -> int {
    seconds * ns_per_second()
}

/// `age > t` for an age in nanoseconds (no age exceeds an infinity or NaN).
pub open spec fn exceeds(age_ns: int, t: Num) -> bool {
    match t {
        Num::Finite(v) => age_ns > v,
        Num::PosInf => false,
        Num::NegInf => true,
        Num::NaN => false,
    }
}

/// `age >= t` for an age in nanoseconds.
pub open spec fn reaches(age_ns: int, t: Num) -> bool {
    match t {
        Num::Finite(v) => age_ns >= v,
        Num::PosInf => false,
        Num::NegInf => true,
        Num::NaN => false,
    }
}

/// `age > t` for an age in whole seconds.
pub fn age_exceeds(age_seconds: i64, t: Num) -> (r: bool)
    ensures
        r == exceeds(seconds_ns(age_seconds as int), t),
{
    let age: i128 = (age_seconds as i128) * 1_000_000_000;
    match t {
        Num::Finite(v) => age > v,
        Num::PosInf => false,
        Num::NegInf => true,
        Num::NaN => false,
    }
}

/// `age >= t` for an age in whole seconds.
pub fn age_reaches(age_seconds: i64, t: Num) -> (r: bool)
    ensures
        r == reaches(seconds_ns(age_seconds as int), t),
{
    let age: i128 = (age_seconds as i128) * 1_000_000_000;
    match t {
        Num::Finite(v) => age >= v,
        Num::PosInf => false,
        Num::NegInf => true,
        Num::NaN => false,
    }
}

/// An ASCII decimal digit.
pub open spec fn is_digit(c: char) -> bool {
    '0' <= c <= '9'
}

/// The number of consecutive digits of `s` starting at `from`.
pub open spec fn digit_run(s: Seq<char>, from: int) -> int
    decreases s.len() - from,
{
    if from < 0 || from >= s.len() || !is_digit(s[from]) {
        0
    } else {
        1 + digit_run(s, from + 1)
    }
}

/// The value of a run of digits.
pub open spec fn digits_value(s: Seq<char>) -> int
    decreases s.len(),
{
    if s.len() == 0 {
        0
    } else {
        10 * digits_value(s.drop_last()) + (s.last() as int - '0' as int)
    }
}

/// Every character is a digit.
pub open spec fn all_digits(s: Seq<char>) -> bool {
    forall|i: int| 0 <= i < s.len() ==> is_digit(#[trigger] s[i])
}

/// The length of a leading `+` or `-`.
pub open spec fn sign_len(s: Seq<char>) -> int {
    if s.len() > 0 && (s[0] == '+' || s[0] == '-') { 1 } else { 0 }
}

/// The mantissas that `scale` handles directly (below 36 digits).
pub open spec fn mantissa_limit() -> int {
    pow10(36)
}

/// The exponent part of a number text (what follows the mantissa): empty, or
/// `e`/`E`, an optional sign and digits. `None` when malformed.
pub open spec fn exponent_of(rest: Seq<char>) -> Option<int> {
    if rest.len() == 0 {
        Some(0)
    } else if rest[0] == 'e' || rest[0] == 'E' {
        let r2 = rest.skip(1);
        let xd = r2.skip(sign_len(r2));
        if xd.len() > 0 && all_digits(xd) {
            Some(if sign_len(r2) == 1 && r2[0] == '-' { -digits_value(xd) } else { digits_value(xd) })
        } else {
            None
        }
    } else {
        None
    }
}

/// The digits of a mantissa: its integer digits followed by its fraction digits.
pub open spec fn mantissa_digits(b: Seq<char>) -> Seq<char> {
    let n1 = digit_run(b, 0);
    if n1 < b.len() && b[n1] == '.' {
        b.subrange(0, n1) + b.subrange(n1 + 1, n1 + 1 + digit_run(b, n1 + 1))
    } else {
        b.subrange(0, n1)
    }
}

/// A number text read as a quantity of hours, in nanoseconds: Rust's float
/// grammar (`[+-]` then `inf`, `infinity` or `nan` in any case, or digits with an
/// optional `.` fraction and an optional exponent), exact to the nanosecond.
pub open spec fn parse_hours_text(s: Seq<char>) -> Option<Num> {
    let neg = s.len() > 0 && s[0] == '-';
    let b = s.skip(sign_len(s));
    if eq_ascii_ci(b, "inf"@) || eq_ascii_ci(b, "infinity"@) {
        Some(if neg { Num::NegInf } else { Num::PosInf })
    } else if eq_ascii_ci(b, "nan"@) {
        Some(Num::NaN)
    } else {
        let n1 = digit_run(b, 0);
        let has_dot = n1 < b.len() && b[n1] == '.';
        let n2 = if has_dot { digit_run(b, n1 + 1) } else { 0 };
        let mantissa_end = if has_dot { n1 + 1 + n2 } else { n1 };
        let m = digits_value(mantissa_digits(b));
        if n1 + n2 == 0 {
            None
        } else {
            match exponent_of(b.skip(mantissa_end)) {
                Some(e) => Some(scale_hours(if neg { -m } else { m }, e - n2)),
                None => None,
            }
        }
    }
}

pub(crate) proof fn lemma_digit_run(s: Seq<char>, from: int)
    requires
        0 <= from <= s.len(),
    ensures
        0 <= digit_run(s, from) <= s.len() - from,
        forall|i: int| from <= i < from + digit_run(s, from) ==> is_digit(#[trigger] s[i]),
        from + digit_run(s, from) < s.len() ==> !is_digit(s[from + digit_run(s, from)]),
    decreases s.len() - from,
{
    if from < s.len() && is_digit(s[from]) {
        lemma_digit_run(s, from + 1);
    }
}

/// The number of consecutive digits of `s` starting at `from`.
pub(crate) fn count_digits(s: &[char], from: usize) -> (r: usize)
    requires
        from <= s.len(),
    ensures
        r as int == digit_run(s@, from as int),
{
    proof {
        lemma_digit_run(s@, from as int);
    }
    let mut i = from;
    while i < s.len() && '0' <= s[i] && s[i] <= '9'
        invariant
            from <= i <= s.len(),
            digit_run(s@, from as int) == (i - from) + digit_run(s@, i as int),
        decreases s.len() - i,
    {
        i += 1;
    }
    i - from
}

pub(crate) proof fn lemma_digits_value_prefix(s: Seq<char>, j: int)
    requires
        all_digits(s),
        0 <= j <= s.len(),
    ensures
        0 <= digits_value(s.take(j)) <= digits_value(s),
    decreases s.len(),
{
    if s.len() > 0 {
        let p = s.drop_last();
        assert(all_digits(p)) by {
            assert forall|i: int| 0 <= i < p.len() implies is_digit(#[trigger] p[i]) by {
                assert(p[i] == s[i]);
            }
        }
        if j == s.len() {
            assert(s.take(j) =~= s);
            lemma_digits_value_prefix(p, p.len() as int);
            assert(p.take(p.len() as int) =~= p);
        } else {
            lemma_digits_value_prefix(p, j);
            assert(p.take(j) =~= s.take(j));
            assert(is_digit(s.last()));
        }
    } else {
        assert(s.take(j) =~= s);
    }
}

/// The value of a run of digits, when below the mantissa limit.
pub fn mantissa_value(d: &Vec<char>) -> (r: Option<u128>)
    requires
        all_digits(d@),
    ensures
        match r {
            Some(v) => v as int == digits_value(d@) && (v as int) < mantissa_limit(),
            None => digits_value(d@) >= mantissa_limit(),
        },
{
    let limit: u128 = 1_000_000_000_000_000_000_000_000_000_000_000_000;
    assert(limit as int == mantissa_limit()) by {
        reveal_with_fuel(pow10, 37);
    }
    let mut v: u128 = 0;
    let mut i: usize = 0;
    while i < d.len()
        invariant
            all_digits(d@),
            i <= d.len(),
            v as int == digits_value(d@.take(i as int)),
            (v as int) < mantissa_limit(),
            limit as int == mantissa_limit(),
            limit == 1_000_000_000_000_000_000_000_000_000_000_000_000u128,
        decreases d.len() - i,
    {
        assert(d@.take(i + 1).drop_last() =~= d@.take(i as int));
        assert(is_digit(d@[i as int]));
        let digit = (d[i] as u32 - '0' as u32) as u128;
        let next = v * 10 + digit;
        if next >= limit {
            proof {
                lemma_digits_value_prefix(d@, i + 1);
            }
            return None;
        }
        v = next;
        i += 1;
    }
    assert(d@.take(d.len() as int) =~= d@);
    Some(v)
}

/// `10^n` for small `n`.
pub(crate) fn pow10_u128(n: u32) -> (r: u128)
    requires
        n <= 38,
    ensures
        r as int == pow10(n as nat),
{
    let mut r: u128 = 1;
    let mut i: u32 = 0;
    while i < n
        invariant
            i <= n <= 38,
            r as int == pow10(i as nat),
        decreases n - i,
    {
        proof {
            lemma_pow10_monotonic((i + 1) as nat, 38);
            assert(pow10(38) == 100_000_000_000_000_000_000_000_000_000_000_000_000) by {
                reveal_with_fuel(pow10, 39);
            }
        }
        r = r * 10;
        i += 1;
    }
    r
}

/// The bound beyond which the size of an exponent no longer matters.
pub open spec fn exponent_cap() -> int {
    1_000_000_000_000_000_000_000_000_000_000
}

/// An exponent, or just past the cap on its side when it is larger.
pub open spec fn capped_exponent(e: int) -> int {
    if e > exponent_cap() {
        exponent_cap() + 1
    } else if e < -exponent_cap() {
        -exponent_cap() - 1
    } else {
        e
    }
}

/// The exponent part of a number text (see `exponent_of`), capped (see
/// `capped_exponent`).
fn exponent_value(rest: &[char]) -> (r: Option<i128>)
    ensures
        match r {
            Some(x) => exponent_of(rest@) matches Some(e) && x as int == capped_exponent(e),
            None => exponent_of(rest@) is None,
        },
{
    if rest.len() == 0 {
        return Some(0);
    }
    if rest[0] != 'e' && rest[0] != 'E' {
        return None;
    }
    let ghost r2 = rest@.skip(1);
    let mut start: usize = 1;
    let mut negative = false;
    if rest.len() > 1 && (rest[1] == '+' || rest[1] == '-') {
        negative = rest[1] == '-';
        start = 2;
    }
    assert(negative == (sign_len(r2) == 1 && r2[0] == '-'));
    assert(sign_len(r2) == start - 1);
    let ghost xd = r2.skip(sign_len(r2));
    assert(xd =~= rest@.skip(start as int));
    if rest.len() == start {
        return None;
    }
    let cap: u128 = 1_000_000_000_000_000_000_000_000_000_000;
    let mut v: u128 = 0;
    let mut i = start;
    assert(xd.take(0) =~= Seq::<char>::empty());
    while i < rest.len()
        invariant
            start <= i <= rest.len(),
            rest.len() - start > 0,
            xd == rest@.skip(start as int),
            rest@.len() > 0 && (rest@[0] == 'e' || rest@[0] == 'E'),
            r2 == rest@.skip(1),
            xd == r2.skip(sign_len(r2)),
            negative == (sign_len(r2) == 1 && r2[0] == '-'),
            cap == 1_000_000_000_000_000_000_000_000_000_000u128,
            forall|j: int| 0 <= j < i - start ==> is_digit(#[trigger] xd[j]),
            digits_value(xd.take(i - start)) >= 0,
            v as int == if digits_value(xd.take(i - start)) <= cap { digits_value(xd.take(i - start)) } else { cap + 1 },
        decreases rest.len() - i,
    {
        if !('0' <= rest[i] && rest[i] <= '9') {
            assert(!is_digit(xd[i - start]));
            return None;
        }
        let ghost pre = xd.take(i - start);
        assert(xd.take(i - start + 1).drop_last() =~= pre);
        assert(xd.take(i - start + 1).last() == rest@[i as int]);
        let digit = (rest[i] as u32 - '0' as u32) as u128;
        assert(digits_value(xd.take(i - start + 1)) == 10 * digits_value(pre) + digit);
        if v <= cap {
            let next = v * 10 + digit;
            v = if next > cap { cap + 1 } else { next };
        }
        i += 1;
    }
    assert(xd.take(xd.len() as int) =~= xd);
    assert(all_digits(xd));
    let value = v as i128;
    if negative {
        Some(-value)
    } else {
        Some(value)
    }
}

/// `±m * 10^k` hours in nanoseconds (see `scale_hours`).
fn scale(negative: bool, m: u128, k: i128) -> (r: Num)
    requires
        (m as int) < mantissa_limit(),
    ensures
        r == scale_hours(if negative { -(m as int) } else { m as int }, k as int),
{
    let ghost n: int = if negative { -(m as int) } else { m as int };
    proof {
        assert(mantissa_limit() == 1_000_000_000_000_000_000_000_000_000_000_000_000) by {
            reveal_with_fuel(pow10, 37);
        }
    }
    if m == 0 {
        proof {
            if k + 11 >= 0 {
                assert(n * 36 * pow10((k + 11) as nat) == 0);
            } else {
                lemma_pow10_positive((-(k + 11)) as nat);
                assert((n * 36) / pow10((-(k + 11)) as nat) == 0);
            }
        }
        return Num::Finite(0);
    }
    let p: u128 = m * 36;
    if k >= -11 {
        if k > 27 {
            // 10^(k+11) >= 10^39, far beyond the range.
            proof {
                let e = (k + 11) as nat;
                lemma_pow10_monotonic(39, e);
                assert(pow10(39) == 1_000_000_000_000_000_000_000_000_000_000_000_000_000) by {
                    reveal_with_fuel(pow10, 40);
                }
                let big = pow10(e);
                assert((m as int) * 36 * big >= 36 * big) by (nonlinear_arith)
                    requires
                        m >= 1,
                        big >= 0;
                assert(n * 36 * big == if negative { -((m as int) * 36 * big) } else { (m as int) * 36 * big }) by (nonlinear_arith)
                    requires
                        n == if negative { -(m as int) } else { m as int };
            }
            return if negative { Num::NegInf } else { Num::PosInf };
        }
        let e = (k + 11) as u32;
        let big = pow10_u128(e);
        match p.checked_mul(big) {
            Some(v) => {
                assert(n * 36 * pow10(e as nat) == if negative { -(v as int) } else { v as int }) by (nonlinear_arith)
                    requires
                        v as int == (m as int) * 36 * (big as int),
                        big as int == pow10(e as nat),
                        n == if negative { -(m as int) } else { m as int };
                if negative {
                    if v > 170141183460469231731687303715884105728u128 {
                        Num::NegInf
                    } else if v == 170141183460469231731687303715884105728u128 {
                        Num::Finite(i128::MIN)
                    } else {
                        Num::Finite(-(v as i128))
                    }
                } else {
                    if v > 170141183460469231731687303715884105727u128 {
                        Num::PosInf
                    } else {
                        Num::Finite(v as i128)
                    }
                }
            },
            None => {
                assert(n * 36 * pow10(e as nat) == if negative { -((p as int) * (big as int)) } else { (p as int) * (big as int) }) by (nonlinear_arith)
                    requires
                        p as int == (m as int) * 36,
                        big as int == pow10(e as nat),
                        n == if negative { -(m as int) } else { m as int };
                if negative { Num::NegInf } else { Num::PosInf }
            },
        }
    } else {
        let d = -(k + 11);
        if d > 38 {
            proof {
                let dd = d as nat;
                lemma_pow10_monotonic(38, dd);
                assert(pow10(38) == 100_000_000_000_000_000_000_000_000_000_000_000_000) by {
                    reveal_with_fuel(pow10, 39);
                }
                let big = pow10(dd);
                assert(0 < (p as int) < big);
                if negative {
                    assert((n * 36) / big == -1) by (nonlinear_arith)
                        requires
                            n * 36 == -(p as int),
                            0 < (p as int) < big;
                } else {
                    assert((n * 36) / big == 0) by (nonlinear_arith)
                        requires
                            n * 36 == p as int,
                            0 < (p as int) < big;
                }
            }
            return if negative { Num::Finite(-1) } else { Num::Finite(0) };
        }
        let big = pow10_u128(d as u32);
        proof {
            lemma_pow10_positive(d as nat);
        }
        let q = p / big;
        let rem = p % big;
        proof {
            vstd::arithmetic::div_mod::lemma_fundamental_div_mod(p as int, big as int);
            assert(p as int == (q as int) * (big as int) + rem as int) by (nonlinear_arith)
                requires
                    p as int == (big as int) * ((p as int) / (big as int)) + (p as int) % (big as int),
                    q as int == (p as int) / (big as int),
                    rem as int == (p as int) % (big as int);
        }
        if negative {
            if rem == 0 {
                assert((n * 36) / (big as int) == -(q as int)) by (nonlinear_arith)
                    requires
                        n * 36 == -(p as int),
                        p as int == (q as int) * (big as int),
                        big > 0;
                Num::Finite(-(q as i128))
            } else {
                assert((n * 36) / (big as int) == -(q as int) - 1) by (nonlinear_arith)
                    requires
                        n * 36 == -(p as int),
                        p as int == (q as int) * (big as int) + rem as int,
                        0 < rem < big;
                Num::Finite(-(q as i128) - 1)
            }
        } else {
            assert((n * 36) / (big as int) == q as int) by (nonlinear_arith)
                requires
                    n * 36 == p as int,
                    p as int == (q as int) * (big as int) + rem as int,
                    0 <= rem < big;
            Num::Finite(q as i128)
        }
    }
}

/// Reads a number text as a quantity of hours (see `parse_hours_text`).
pub fn parse_hours_number(text: &str) -> (r: Option<Num>)
    ensures
        r == parse_hours_text(text@),
{
    proof {
        reveal_strlit("inf");
        reveal_strlit("infinity");
        reveal_strlit("nan");
    }
    let s = chars_of(text);
    let mut start: usize = 0;
    let mut negative = false;
    if s.len() > 0 && (s[0] == '+' || s[0] == '-') {
        negative = s[0] == '-';
        start = 1;
    }
    let b = sub_chars(s.as_slice(), start, s.len());
    assert(b@ =~= text@.skip(sign_len(text@)));
    let inf = chars_of("inf");
    let infinity = chars_of("infinity");
    let nan = chars_of("nan");
    if chars_eq_ignore_ascii_case(b.as_slice(), inf.as_slice()) || chars_eq_ignore_ascii_case(b.as_slice(), infinity.as_slice()) {
        return Some(if negative { Num::NegInf } else { Num::PosInf });
    }
    if chars_eq_ignore_ascii_case(b.as_slice(), nan.as_slice()) {
        return Some(Num::NaN);
    }
    proof {
        lemma_digit_run(b@, 0);
    }
    let n1 = count_digits(b.as_slice(), 0);
    let has_dot = n1 < b.len() && b[n1] == '.';
    let n2 = if has_dot {
        proof {
            lemma_digit_run(b@, n1 + 1);
        }
        count_digits(b.as_slice(), n1 + 1)
    } else {
        0
    };
    let mantissa_end = if has_dot { n1 + 1 + n2 } else { n1 };
    if n1 + n2 == 0 {
        return None;
    }
    let int_part = sub_chars(b.as_slice(), 0, n1);
    let digits = if has_dot {
        let frac_part = sub_chars(b.as_slice(), n1 + 1, n1 + 1 + n2);
        concat_chars(int_part.as_slice(), frac_part.as_slice())
    } else {
        int_part
    };
    assert(digits@ == mantissa_digits(b@));
    assert(all_digits(digits@)) by {
        assert forall|i: int| 0 <= i < digits@.len() implies is_digit(#[trigger] digits@[i]) by {
            if i < n1 {
                assert(digits@[i] == b@[i]);
            } else {
                assert(digits@[i] == b@[i + 1]);
            }
        }
    }
    let mv = mantissa_value(&digits);
    let rest = sub_chars(b.as_slice(), mantissa_end, b.len());
    assert(rest@ =~= b@.skip(mantissa_end as int));
    let e = match exponent_value(rest.as_slice()) {
        Some(e) => e,
        None => return None,
    };
    let ghost ev = exponent_of(rest@).unwrap();
    let ghost m = digits_value(digits@);
    let ghost n = if negative { -m } else { m };
    proof {
        digits_value_bound(digits@);
        assert(mv matches Some(v) ==> v as int == m);
        assert(mv is None ==> m >= 1) by {
            lemma_pow10_positive(36);
        }
    }
    if e > 1_000_000_000_000_000_000_000_000_000_000 {
        // The exponent is so large that anything but zero is beyond the range.
        proof {
            lemma_scale_huge(n, ev - n2);
        }
        return Some(
            match mv {
                Some(0) => Num::Finite(0),
                _ => if negative { Num::NegInf } else { Num::PosInf },
            },
        );
    }
    if e < -1_000_000_000_000_000_000_000_000_000_000 {
        // The exponent is so small that the value rounds down to 0 or -1.
        proof {
            lemma_scale_zero(ev - n2);
            if m > 0 {
                lemma_scale_tiny(m, ev - n2, digits@.len());
            }
        }
        return Some(
            match mv {
                Some(0) => Num::Finite(0),
                _ => if negative { Num::Finite(-1) } else { Num::Finite(0) },
            },
        );
    }
    let k: i128 = e - (n2 as i128);
    match mv {
        Some(v) => Some(scale(negative, v, k)),
        None => Some(scale_big(negative, &digits, k)),
    }
}

pub(crate) proof fn digits_value_bound(s: Seq<char>)
    requires
        all_digits(s),
    ensures
        0 <= digits_value(s) < pow10(s.len()),
    decreases s.len(),
{
    if s.len() > 0 {
        let p = s.drop_last();
        assert(all_digits(p)) by {
            assert forall|i: int| 0 <= i < p.len() implies is_digit(#[trigger] p[i]) by {
                assert(p[i] == s[i]);
            }
        }
        digits_value_bound(p);
        assert(is_digit(s.last()));
    }
}

/// A YAML number (given by the text the YAML reader renders it as) read as a
/// quantity of hours: `.nan`, `.inf` and `-.inf` are the non-finite values, any
/// other text is read as by `parse_hours_text`, and a text that cannot be read
/// counts as zero.
pub open spec fn yaml_number_hours(text: Seq<char>) -> Num {
    if text == ".nan"@ {
        Num::NaN
    } else if text == ".inf"@ {
        Num::PosInf
    } else if text == "-.inf"@ {
        Num::NegInf
    } else {
        match parse_hours_text(text) {
            Some(n) => n,
            None => Num::Finite(0),
        }
    }
}

/// Reads a YAML number text as a quantity of hours (see `yaml_number_hours`).
pub fn yaml_number_value(text: &str) -> (r: Num)
    ensures
        r == yaml_number_hours(text@),
{
    proof {
        reveal_strlit(".nan");
        reveal_strlit(".inf");
        reveal_strlit("-.inf");
    }
    if crate::text::str_equal(text, ".nan") {
        Num::NaN
    } else if crate::text::str_equal(text, ".inf") {
        Num::PosInf
    } else if crate::text::str_equal(text, "-.inf") {
        Num::NegInf
    } else {
        match parse_hours_number(text) {
            Some(n) => n,
            None => Num::Finite(0),
        }
    }
}

/// Nanoseconds per hour.
pub open spec fn ns_per_hour() -> int {
    3_600_000_000_000
}

/// The digit character of a value below ten.
pub open spec fn digit_char(d: int) -> char {
    (('0' as u32) + (d as u32)) as char
}

/// The decimal digits of a natural number (no leading zeros; `0` for zero).
pub open spec fn decimal_text(n: nat) -> Seq<char>
    decreases n,
{
    if n < 10 {
        seq![digit_char(n as int)]
    } else {
        decimal_text(n / 10).push(digit_char((n % 10) as int))
    }
}

/// Up to `n` fraction digits of `rem / ns_per_hour()`, stopping once the rest is zero.
pub open spec fn fraction_text(rem: nat, n: nat) -> Seq<char>
    decreases n,
{
    if n == 0 || rem == 0 {
        Seq::empty()
    } else {
        seq![digit_char(((rem as int) * 10) / ns_per_hour())] + fraction_text((((rem as int) * 10) % ns_per_hour()) as nat, (n - 1) as nat)
    }
}

/// `s` without its trailing `0`s.
pub open spec fn trim_zeros(s: Seq<char>) -> Seq<char>
    decreases s.len(),
{
    if s.len() > 0 && s.last() == '0' { trim_zeros(s.drop_last()) } else { s }
}

/// A quantity rendered as a number of hours, the way a float prints: no
/// fraction for whole hours, otherwise up to 15 fraction digits without
/// trailing zeros; `inf`, `-inf` and `NaN` for the non-finite values.
pub open spec fn hours_text(n: Num) -> Seq<char> {
    match n {
        Num::PosInf => "inf"@,
        Num::NegInf => "-inf"@,
        Num::NaN => "NaN"@,
        Num::Finite(v) => {
            let a = if v < 0 { -(v as int) } else { v as int };
            let sign = if v < 0 { "-"@ } else { ""@ };
            let whole = decimal_text((a / ns_per_hour()) as nat);
            let frac = trim_zeros(fraction_text((a % ns_per_hour()) as nat, 15));
            if frac.len() == 0 { sign + whole } else { sign + whole + "."@ + frac }
        },
    }
}

/// The digit character of a value below ten.
fn digit_of(d: u128) -> (r: char)
    requires
        d < 10,
    ensures
        r == digit_char(d as int),
{
    let c = ('0' as u8) + (d as u8);
    c as char
}

/// The decimal digits of a natural number.
pub fn decimal_chars(n: u128) -> (r: Vec<char>)
    ensures
        r@ == decimal_text(n as nat),
    decreases n,
{
    if n < 10 {
        let mut v: Vec<char> = Vec::new();
        v.push(digit_of(n));
        v
    } else {
        let mut v = decimal_chars(n / 10);
        v.push(digit_of(n % 10));
        v
    }
}

/// Renders a quantity as a number of hours (see `hours_text`).
#[verifier::rlimit(30)]
pub fn hours_string(n: Num) -> (r: String)
    ensures
        r@ == hours_text(n),
{
    proof {
        reveal_strlit("inf");
        reveal_strlit("-inf");
        reveal_strlit("NaN");
        reveal_strlit("-");
        reveal_strlit("");
        reveal_strlit(".");
    }
    match n {
        Num::PosInf => crate::text::owned("inf"),
        Num::NegInf => crate::text::owned("-inf"),
        Num::NaN => crate::text::owned("NaN"),
        Num::Finite(v) => {
            let per_hour: u128 = 3_600_000_000_000;
            let a: u128 = if v == i128::MIN {
                170141183460469231731687303715884105728u128
            } else if v < 0 {
                (-v) as u128
            } else {
                v as u128
            };
            assert(a as int == if v < 0 { -(v as int) } else { v as int });
            let mut out: Vec<char> = Vec::new();
            if v < 0 {
                out.push('-');
            }
            let whole = decimal_chars(a / per_hour);
            let mut i: usize = 0;
            while i < whole.len()
                invariant
                    i <= whole.len(),
                    out@ == (if v < 0 { "-"@ } else { ""@ }) + whole@.take(i as int),
                decreases whole.len() - i,
            {
                out.push(whole[i]);
                assert(whole@.take(i + 1) =~= whole@.take(i as int).push(whole@[i as int]));
                i += 1;
            }
            assert(whole@.take(whole.len() as int) =~= whole@);
            // fraction digits by long division
            let mut frac: Vec<char> = Vec::new();
            let mut rem: u128 = a % per_hour;
            let mut left: u32 = 15;
            let ghost rem0 = rem as nat;
            while left > 0 && rem != 0
                invariant
                    per_hour == 3_600_000_000_000,
                    rem < per_hour,
                    left <= 15,
                    frac@ + fraction_text(rem as nat, left as nat) == fraction_text(rem0, 15),
                decreases left,
            {
                let t = rem * 10;
                let d = t / per_hour;
                let ghost old_rem = rem;
                frac.push(digit_of(d));
                rem = t % per_hour;
                left -= 1;
                assert(frac@ + fraction_text(rem as nat, left as nat) =~= fraction_text(rem0, 15)) by {
                    assert(fraction_text(old_rem as nat, (left + 1) as nat) == seq![digit_char(d as int)] + fraction_text(rem as nat, left as nat));
                }
            }
            assert(frac@ =~= fraction_text(rem0, 15)) by {
                assert(fraction_text(rem as nat, left as nat) =~= Seq::<char>::empty());
            }
            let mut len = frac.len();
            assert(frac@.take(len as int) =~= frac@);
            while len > 0 && frac[len - 1] == '0'
                invariant
                    len <= frac.len(),
                    trim_zeros(frac@) == trim_zeros(frac@.take(len as int)),
                decreases len,
            {
                assert(frac@.take(len - 1) =~= frac@.take(len as int).drop_last());
                len -= 1;
            }
            assert(trim_zeros(frac@.take(len as int)) == frac@.take(len as int));
            if len > 0 {
                out.push('.');
                let mut j: usize = 0;
                while j < len
                    invariant
                        j <= len <= frac.len(),
                        out@ == (if v < 0 { "-"@ } else { ""@ }) + whole@ + "."@ + frac@.take(j as int),
                    decreases len - j,
                {
                    out.push(frac[j]);
                    assert(frac@.take(j + 1) =~= frac@.take(j as int).push(frac@[j as int]));
                    j += 1;
                }
            }
            crate::text::string_from_chars(out.as_slice())
        },
    }
}

/// The value of two digit runs written one after the other.
pub(crate) proof fn lemma_digits_value_concat(a: Seq<char>, b: Seq<char>)
    ensures
        digits_value(a + b) == digits_value(a) * pow10(b.len()) + digits_value(b),
    decreases b.len(),
{
    if b.len() == 0 {
        assert(a + b =~= a);
    } else {
        let b0 = b.drop_last();
        lemma_digits_value_concat(a, b0);
        assert((a + b).drop_last() =~= a + b0);
        assert((a + b).last() == b.last());
        let x = digits_value(a);
        let p = pow10(b0.len());
        let y = digits_value(b0);
        let d = b.last() as int - '0' as int;
        assert(pow10(b.len()) == 10 * p);
        assert(10 * (x * p + y) + d == x * (10 * p) + (10 * y + d)) by (nonlinear_arith);
    }
}

/// `floor(digits_value(frac) * per_unit / 10^len)`, the part of a quantity that
/// the fraction digits `frac` contribute, computed digit by digit from the right,
/// and whether that division is exact.
pub(crate) fn fraction_floor(frac: &[char], per_unit: u128) -> (r: (u128, bool))
    requires
        all_digits(frac@),
        0 < per_unit <= 604_800_000_000_000,
    ensures
        r.0 as int == (digits_value(frac@) * per_unit) / pow10(frac@.len()),
        r.0 < per_unit,
        r.1 == ((digits_value(frac@) * per_unit) % pow10(frac@.len()) == 0),
{
    let len = frac.len();
    let mut acc: u128 = 0;
    let mut exact = true;
    let mut k: usize = 0;
    proof {
        assert(frac@.subrange(len as int, len as int) =~= Seq::<char>::empty());
    }
    while k < len
        invariant
            k <= len == frac.len(),
            all_digits(frac@),
            0 < per_unit <= 604_800_000_000_000,
            acc as int == (digits_value(frac@.subrange(len - k, len as int)) * per_unit) / pow10(k as nat),
            acc < per_unit,
            exact == ((digits_value(frac@.subrange(len - k, len as int)) * per_unit) % pow10(k as nat) == 0),
        decreases len - k,
    {
        let ghost suffix = frac@.subrange(len - k, len as int);
        let ghost longer = frac@.subrange(len - k - 1, len as int);
        assert(is_digit(frac@[len - k - 1]));
        let c = frac[len - 1 - k];
        assert(c == frac@[len - k - 1]);
        assert('0' <= c <= '9');
        let d = (c as u32 - '0' as u32) as u128;
        assert(d * per_unit <= 9 * 604_800_000_000_000) by (nonlinear_arith)
            requires
                d <= 9,
                per_unit <= 604_800_000_000_000;
        let next = (d * per_unit + acc) / 10;
        proof {
            let fs = digits_value(suffix);
            let p = pow10(k as nat);
            let u = per_unit as int;
            assert(longer =~= seq![c] + suffix);
            lemma_digits_value_concat(seq![c], suffix);
            assert(seq![c].drop_last() =~= Seq::<char>::empty());
            assert(seq![c].last() == c);
            assert(digits_value(Seq::<char>::empty()) == 0);
            assert(d as int == c as int - '0' as int);
            assert(digits_value(seq![c]) == d as int);
            lemma_pow10_positive(k as nat);
            assert(all_digits(suffix)) by {
                assert forall|i: int| 0 <= i < suffix.len() implies is_digit(#[trigger] suffix[i]) by {
                    assert(suffix[i] == frac@[len - k + i]);
                }
            }
            digits_value_bound(suffix);
            assert(0 <= fs * u) by (nonlinear_arith)
                requires
                    0 <= fs,
                    0 < u;
            vstd::arithmetic::div_mod::lemma_hoist_over_denominator(fs * u, (d as int) * u, p as nat);
            vstd::arithmetic::div_mod::lemma_div_denominator(fs * u + (d as int) * u * p, p, 10);
            assert((d as int * p + fs) * u == fs * u + (d as int) * u * p) by (nonlinear_arith);
            assert(pow10((k + 1) as nat) == 10 * p);
            assert(p * 10 == 10 * p);
            assert(fs * u < p * u) by (nonlinear_arith)
                requires
                    fs < p,
                    0 < u;
            assert((d as int * p + fs) * u < 10 * p * u) by (nonlinear_arith)
                requires
                    d <= 9,
                    fs < p,
                    0 < u,
                    0 < p;
            assert(((d as int * p + fs) * u) / (10 * p) < u) by (nonlinear_arith)
                requires
                    (d as int * p + fs) * u < 10 * p * u,
                    0 <= (d as int * p + fs) * u,
                    0 < p,
                    0 < u;
            let v = fs * u;
            let v2 = (d as int * p + fs) * u;
            assert(v2 == (d as int) * u * p + v) by (nonlinear_arith)
                requires
                    v == fs * u,
                    v2 == (d as int * p + fs) * u;
            assert(p * ((d as int) * u) + v == (d as int) * u * p + v) by (nonlinear_arith);
            vstd::arithmetic::div_mod::lemma_mod_multiples_vanish((d as int) * u, v, p);
            vstd::arithmetic::div_mod::lemma_mod_breakdown(v2, p, 10);
            vstd::arithmetic::div_mod::lemma_hoist_over_denominator(v, (d as int) * u, p as nat);
            assert(v2 / p == (d as int) * u + acc);
            assert(v2 % (p * 10) == p * (((d as int) * u + acc) % 10) + v % p);
            assert(0 <= v % p < p);
            assert(0 <= ((d as int) * u + acc) % 10);
            assert((p * (((d as int) * u + acc) % 10) + v % p == 0) <==> (((d as int) * u + acc) % 10 == 0 && v % p == 0)) by (nonlinear_arith)
                requires
                    0 <= v % p,
                    0 <= ((d as int) * u + acc) % 10,
                    0 < p;
            assert(v2 % pow10((k + 1) as nat) == v2 % (p * 10));
        }
        exact = exact && (d * per_unit + acc) % 10 == 0;
        acc = next;
        k += 1;
    }
    proof {
        assert(frac@.subrange(0, len as int) =~= frac@);
    }
    (acc, exact)
}

/// A run of zeros is worth nothing.
proof fn lemma_zeros_value(z: Seq<char>)
    requires
        forall|i: int| 0 <= i < z.len() ==> #[trigger] z[i] == '0',
    ensures
        digits_value(z) == 0,
    decreases z.len(),
{
    if z.len() > 0 {
        let p = z.drop_last();
        assert forall|i: int| 0 <= i < p.len() implies #[trigger] p[i] == '0' by {
            assert(p[i] == z[i]);
        }
        lemma_zeros_value(p);
        assert(z.last() == '0');
    }
}

/// Rounding a negated quotient down.
proof fn lemma_neg_div(a: int, p: int)
    requires
        0 <= a,
        0 < p,
    ensures
        (-a) / p == if a % p == 0 { -(a / p) } else { -(a / p) - 1 },
{
    vstd::arithmetic::div_mod::lemma_fundamental_div_mod(a, p);
    let q = a / p;
    let r = a % p;
    assert(0 <= r < p);
    if r == 0 {
        assert(-a == (-q) * p + 0) by (nonlinear_arith)
            requires
                a == p * q + r,
                r == 0;
        vstd::arithmetic::div_mod::lemma_fundamental_div_mod_converse(-a, p, -q, 0);
    } else {
        assert(-a == (-q - 1) * p + (p - r)) by (nonlinear_arith)
            requires
                a == p * q + r;
        vstd::arithmetic::div_mod::lemma_fundamental_div_mod_converse(-a, p, -q - 1, p - r);
    }
}

/// Scaled by `10^39` hours or more, anything but zero is beyond the range.
proof fn lemma_scale_huge(n: int, k: int)
    requires
        k + 11 >= 39,
    ensures
        n > 0 ==> scale_hours(n, k) == Num::PosInf,
        n < 0 ==> scale_hours(n, k) == Num::NegInf,
        n == 0 ==> scale_hours(n, k) == Num::Finite(0),
{
    let e = (k + 11) as nat;
    lemma_pow10_monotonic(39, e);
    assert(pow10(39) == 1_000_000_000_000_000_000_000_000_000_000_000_000_000) by {
        reveal_with_fuel(pow10, 40);
    }
    let big = pow10(e);
    if n > 0 {
        assert(n * 36 * big >= 36 * big) by (nonlinear_arith)
            requires
                n >= 1,
                big >= 0;
    } else if n < 0 {
        assert(n * 36 * big <= -36 * big) by (nonlinear_arith)
            requires
                n <= -1,
                big >= 0;
    } else {
        assert(n * 36 * big == 0) by (nonlinear_arith)
            requires
                n == 0;
    }
}

/// Divided by `10^d` where `d` exceeds the digits by two or more, a positive
/// mantissa rounds down to nothing (or to -1 when negated).
proof fn lemma_scale_tiny(m: int, k: int, len: nat)
    requires
        0 < m < pow10(len),
        -(k + 11) >= len + 2,
    ensures
        scale_hours(m, k) == Num::Finite(0),
        scale_hours(-m, k) == Num::Finite(-1i128),
{
    let d = (-(k + 11)) as nat;
    assert(pow10(len + 1) == 10 * pow10(len));
    assert(pow10(len + 2) == 10 * pow10(len + 1));
    lemma_pow10_monotonic(len + 2, d);
    let big = pow10(d);
    assert(0 < m * 36 < big) by (nonlinear_arith)
        requires
            0 < m < pow10(len),
            100 * pow10(len) <= big;
    vstd::arithmetic::div_mod::lemma_fundamental_div_mod_converse(m * 36, big, 0, m * 36);
    assert(-m * 36 == -1 * big + (big - m * 36)) by (nonlinear_arith);
    vstd::arithmetic::div_mod::lemma_fundamental_div_mod_converse(-m * 36, big, -1, big - m * 36);
    assert((-m) * 36 == -m * 36) by (nonlinear_arith);
}

/// The value of a run of digits, when below `10^38`.
fn digits_below(d: &[char]) -> (r: Option<u128>)
    requires
        all_digits(d@),
    ensures
        match r {
            Some(v) => v as int == digits_value(d@) && (v as int) < pow10(38),
            None => digits_value(d@) >= pow10(38),
        },
{
    let limit: u128 = 100_000_000_000_000_000_000_000_000_000_000_000_000;
    assert(limit as int == pow10(38)) by {
        reveal_with_fuel(pow10, 39);
    }
    let mut v: u128 = 0;
    let mut i: usize = 0;
    while i < d.len()
        invariant
            all_digits(d@),
            i <= d.len(),
            v as int == digits_value(d@.take(i as int)),
            (v as int) < pow10(38),
            limit as int == pow10(38),
            limit == 100_000_000_000_000_000_000_000_000_000_000_000_000u128,
        decreases d.len() - i,
    {
        assert(d@.take(i + 1).drop_last() =~= d@.take(i as int));
        assert(is_digit(d@[i as int]));
        let digit = (d[i] as u32 - '0' as u32) as u128;
        if v >= 10_000_000_000_000_000_000_000_000_000_000_000_000 {
            proof {
                lemma_digits_value_prefix(d@, i + 1);
            }
            return None;
        }
        let next = v * 10 + digit;
        if next >= limit {
            proof {
                lemma_digits_value_prefix(d@, i + 1);
            }
            return None;
        }
        v = next;
        i += 1;
    }
    assert(d@.take(d.len() as int) =~= d@);
    Some(v)
}

/// Zero hours, however scaled, is zero.
proof fn lemma_scale_zero(k: int)
    ensures
        scale_hours(0, k) == Num::Finite(0),
{
    if k + 11 >= 0 {
        let big = pow10((k + 11) as nat);
        assert(0 * 36 * big == 0) by (nonlinear_arith);
    } else {
        lemma_pow10_positive((-(k + 11)) as nat);
    }
}

/// `n` zero digits.
fn zero_digits(n: usize) -> (r: Vec<char>)
    ensures
        r.len() == n,
        forall|i: int| 0 <= i < n ==> #[trigger] r@[i] == '0',
{
    let mut out: Vec<char> = Vec::new();
    let mut i: usize = 0;
    while i < n
        invariant
            i <= n,
            out.len() == i,
            forall|t: int| 0 <= t < i ==> #[trigger] out@[t] == '0',
        decreases n - i,
    {
        out.push('0');
        i += 1;
    }
    out
}

/// `±m * 10^k` hours in nanoseconds (see `scale_hours`) for a mantissa of 36
/// digits or more, given by its digits: the digits (with `k + 11` zeros after
/// them, or split `-(k + 11)` places from the right) are worked through as a
/// whole part and a fraction part.
fn scale_big(negative: bool, digits: &Vec<char>, k: i128) -> (r: Num)
    requires
        all_digits(digits@),
        digits_value(digits@) >= mantissa_limit(),
        -1_000_000_000_000_000_000_000_000_000_000 - 0x1_0000_0000_0000_0000 <= k <= 1_000_000_000_000_000_000_000_000_000_000,
    ensures
        r == scale_hours(if negative { -digits_value(digits@) } else { digits_value(digits@) }, k as int),
{
    let ghost m = digits_value(digits@);
    let ghost n = if negative { -m } else { m };
    proof {
        lemma_pow10_positive(36);
    }
    let len = digits.len();
    let j: i128 = k + 11;
    let (full, d) = if j >= 0 {
        if j > 38 {
            proof {
                lemma_scale_huge(n, k as int);
            }
            return if negative { Num::NegInf } else { Num::PosInf };
        }
        let zeros = zero_digits(j as usize);
        let full = concat_chars(digits.as_slice(), zeros.as_slice());
        proof {
            lemma_zeros_value(zeros@);
            lemma_digits_value_concat(digits@, zeros@);
        }
        (full, 0usize)
    } else {
        let dd: i128 = -j;
        if dd >= len as i128 + 2 {
            proof {
                digits_value_bound(digits@);
                lemma_scale_tiny(m, k as int, len as nat);
            }
            return if negative { Num::Finite(-1) } else { Num::Finite(0) };
        }
        if dd > len as i128 {
            let zero: [char; 1] = ['0'];
            let full = concat_chars(&zero, digits.as_slice());
            proof {
                assert(zero@ =~= seq!['0']);
                lemma_zeros_value(zero@);
                lemma_digits_value_concat(zero@, digits@);
            }
            let d = full.len();
            (full, d)
        } else {
            (sub_chars(digits.as_slice(), 0, len), dd as usize)
        }
    };
    proof {
        lemma_pow10_positive(d as nat);
        assert(all_digits(full@)) by {
            assert forall|i: int| 0 <= i < full@.len() implies is_digit(#[trigger] full@[i]) by {
                if j >= 0 {
                    if i < len {
                        assert(full@[i] == digits@[i]);
                    }
                } else if d > len {
                    if i > 0 {
                        assert(full@[i] == digits@[i - 1]);
                    }
                } else {
                    assert(full@[i] == digits@[i]);
                }
            }
        }
        let a = digits_value(full@) * 36;
        if j >= 0 {
            let p = pow10(j as nat);
            assert(digits_value(full@) == m * p);
            assert(n * 36 * p == if negative { -a } else { a }) by (nonlinear_arith)
                requires
                    n == if negative { -m } else { m },
                    a == digits_value(full@) * 36,
                    digits_value(full@) == m * p;
            assert(pow10(0) == 1);
            vstd::arithmetic::div_mod::lemma_fundamental_div_mod_converse(a, 1, a, 0);
            vstd::arithmetic::div_mod::lemma_fundamental_div_mod_converse(-a, 1, -a, 0);
        } else {
            if d <= len {
                assert(full@ =~= digits@);
            }
            assert(digits_value(full@) == m);
            assert(n * 36 == if negative { -a } else { a });
        }
    }
    assert(j >= 0 ==> d == 0);
    assert(j < 0 ==> d as int == -j);
    let r = floor_scaled(negative, &full, d);
    proof {
        let a = digits_value(full@) * 36;
        if j >= 0 {
            assert(scale_hours(n, k as int) == clamp(n * 36 * pow10(j as nat)));
            assert(r == clamp(if negative { -a } else { a }));
        } else {
            assert(scale_hours(n, k as int) == clamp((n * 36) / pow10(d as nat)));
        }
    }
    r
}

/// `±digits * 36 / 10^d`, rounded down and clamped: the hours that a digit run
/// with `d` fraction places stands for, in nanoseconds per `10^11`.
#[verifier::rlimit(30)]
fn floor_scaled(negative: bool, full: &Vec<char>, d: usize) -> (r: Num)
    requires
        all_digits(full@),
        d <= full@.len(),
    ensures
        r == clamp(if negative { (-(digits_value(full@) * 36)) / pow10(d as nat) } else { (digits_value(full@) * 36) / pow10(d as nat) }),
{
    let ghost big = pow10(d as nat);
    let ghost a = digits_value(full@) * 36;
    proof {
        lemma_pow10_positive(d as nat);
    }
    let s = full.len() - d;
    let high = sub_chars(full.as_slice(), 0, s);
    let low = sub_chars(full.as_slice(), s, full.len());
    let ghost h = digits_value(high@);
    let ghost q = digits_value(low@);
    proof {
        assert(full@ =~= high@ + low@);
        assert(all_digits(high@)) by {
            assert forall|i: int| 0 <= i < high@.len() implies is_digit(#[trigger] high@[i]) by {
                assert(high@[i] == full@[i]);
            }
        }
        assert(all_digits(low@)) by {
            assert forall|i: int| 0 <= i < low@.len() implies is_digit(#[trigger] low@[i]) by {
                assert(low@[i] == full@[s + i]);
            }
        }
        lemma_digits_value_concat(high@, low@);
        digits_value_bound(low@);
        digits_value_bound(high@);
        assert(low@.len() == d);
        assert(a == q * 36 + h * 36 * big) by (nonlinear_arith)
            requires
                a == digits_value(full@) * 36,
                digits_value(full@) == h * big + q;
        vstd::arithmetic::div_mod::lemma_hoist_over_denominator(q * 36, h * 36, big as nat);
        assert(big * (h * 36) + q * 36 == a) by (nonlinear_arith)
            requires
                a == q * 36 + h * 36 * big;
        vstd::arithmetic::div_mod::lemma_mod_multiples_vanish(h * 36, q * 36, big);
        assert(a / big == h * 36 + (q * 36) / big);
        assert(a % big == (q * 36) % big);
        assert(0 <= (q * 36) / big) by (nonlinear_arith)
            requires
                q >= 0,
                big > 0;
        assert(0 <= a) by (nonlinear_arith)
            requires
                h >= 0,
                q >= 0,
                big > 0,
                a == q * 36 + h * 36 * big;
        lemma_neg_div(a, big);
    }
    let hv = match digits_below(high.as_slice()) {
        Some(v) => v,
        None => {
            proof {
                assert(pow10(38) == 100_000_000_000_000_000_000_000_000_000_000_000_000) by {
                    reveal_with_fuel(pow10, 39);
                }
            }
            return if negative { Num::NegInf } else { Num::PosInf };
        },
    };
    let (f, exact) = fraction_floor(low.as_slice(), 36);
    let p36 = match hv.checked_mul(36) {
        Some(v) => v,
        None => {
            return if negative { Num::NegInf } else { Num::PosInf };
        },
    };
    let mag = match p36.checked_add(f) {
        Some(v) => v,
        None => {
            return if negative { Num::NegInf } else { Num::PosInf };
        },
    };
    assert(mag as int == a / big);
    if !negative {
        if mag > 170141183460469231731687303715884105727u128 {
            Num::PosInf
        } else {
            Num::Finite(mag as i128)
        }
    } else {
        assert(exact == (a % big == 0));
        let c = if exact {
            mag
        } else {
            match mag.checked_add(1) {
                Some(v) => v,
                None => {
                    return Num::NegInf;
                },
            }
        };
        assert((-a) / big == -(c as int));
        if c > 170141183460469231731687303715884105728u128 {
            Num::NegInf
        } else if c == 170141183460469231731687303715884105728u128 {
            Num::Finite(i128::MIN)
        } else {
            Num::Finite(-(c as i128))
        }
    }
}

} // verus!
