//! The `refs:` data the rules point at - sender `lists`, regex `patterns`, age
//! `thresholds` - plus ref resolution and human-duration parsing.

use vstd::prelude::*;

use super::{ErrModel, RuleError};
use crate::numbers::{Num, all_digits, clamp, digit_run, digits_value, is_digit, pow10};
use crate::pattern::{Pattern, ci_regex_captures, ci_regex_compiles, group_texts};
use crate::text::{chars_of, lowercase, owned, str_equal, to_lowercase};
use crate::yaml::{Yaml, YamlValue};

verus! {

/// Raw `refs:` section as read (patterns are still strings here), each bucket
/// in document order.
#[derive(Debug, Default)]
pub struct RawRefs {
    pub lists: Vec<(String, Vec<String>)>,
    pub patterns: Vec<(String, String)>,
    pub thresholds: Vec<(String, YamlValue)>,
}

/// Nanoseconds per unit of a duration unit name (already lower-cased).
pub open spec fn unit_ns(unit: Seq<char>) -> Option<int> {
    if unit == "ms"@ {
        Some(1_000_000)
    } else if unit == "s"@ || unit == "sec"@ || unit == "secs"@ || unit == "second"@ || unit == "seconds"@ {
        Some(1_000_000_000)
    } else if unit == "m"@ || unit == "min"@ || unit == "mins"@ || unit == "minute"@ || unit == "minutes"@ {
        Some(60_000_000_000)
    } else if unit == "h"@ || unit == "hr"@ || unit == "hrs"@ || unit == "hour"@ || unit == "hours"@ {
        Some(3_600_000_000_000)
    } else if unit == "d"@ || unit == "day"@ || unit == "days"@ {
        Some(86_400_000_000_000)
    } else if unit == "w"@ || unit == "wk"@ || unit == "week"@ || unit == "weeks"@ {
        Some(604_800_000_000_000)
    } else {
        None
    }
}

/// An amount text (`digits`, optionally `.digits`) times `per_unit`
/// nanoseconds, rounded down; `None` when it is not such a text.
pub open spec fn amount_ns(a: Seq<char>, per_unit: int) -> Option<int> {
    let n1 = digit_run(a, 0);
    let has_dot = n1 < a.len() && a[n1] == '.';
    let n2 = if has_dot { digit_run(a, n1 + 1) } else { 0 };
    let end = if has_dot { n1 + 1 + n2 } else { n1 };
    let digits = if has_dot { a.subrange(0, n1) + a.subrange(n1 + 1, end) } else { a.subrange(0, n1) };
    let m = digits_value(digits);
    if n1 + n2 == 0 || end != a.len() {
        None
    } else {
        Some((m * per_unit) / pow10(n2 as nat))
    }
}

/// The nanoseconds of one `(amount, unit)` token.
pub open spec fn token_ns(token: (Seq<char>, Seq<char>)) -> Option<int> {
    match unit_ns(lowercase(token.1)) {
        Some(u) => amount_ns(token.0, u),
        None => None,
    }
}

/// The sum of the first `n` tokens, or `None` if one of them is not a valid amount
/// and unit.
pub open spec fn tokens_total(tokens: Seq<(Seq<char>, Seq<char>)>, n: nat) -> Option<int>
    decreases n,
{
    if n == 0 || n > tokens.len() {
        Some(0)
    } else {
        match (tokens_total(tokens, (n - 1) as nat), token_ns(tokens[n - 1])) {
            (Some(t), Some(v)) => Some(t + v),
            _ => None,
        }
    }
}

/// The tokenizer of human durations: an amount and a unit, case-insensitively.
pub open spec fn duration_token_source() -> Seq<char> {
    "(?i)(\\d+(?:\\.\\d+)?)\\s*([a-z]+)"@
}

/// The group text at `i`, or the empty text.
pub open spec fn group_or_empty(groups: Seq<Option<Seq<char>>>, i: int) -> Seq<char> {
    if 0 <= i < groups.len() {
        match groups[i] {
            Some(t) => t,
            None => Seq::empty(),
        }
    } else {
        Seq::empty()
    }
}

/// The `(amount, unit)` token of one match: its first and second groups.
pub open spec fn token_of(groups: Seq<Option<Seq<char>>>) -> (Seq<char>, Seq<char>) {
    (group_or_empty(groups, 1), group_or_empty(groups, 2))
}

/// The `(amount, unit)` tokens of a text, left to right.
pub open spec fn duration_tokens(input: Seq<char>) -> Seq<(Seq<char>, Seq<char>)> {
    ci_regex_captures(duration_token_source(), input).map_values(|g: Seq<Option<Seq<char>>>| token_of(g))
}

/// A human duration (`7d`, `30 days`, `1440 min`, `36h`, `2 weeks`, or a
/// compound like `1d 12h`) in nanoseconds: the sum of its tokens. `None` when no
/// token is found or one token has an unknown unit or unreadable amount (and
/// when the tokenizer itself does not compile).
pub open spec fn duration_ns(input: Seq<char>) -> Option<Num> {
    if !ci_regex_compiles(duration_token_source()) {
        None
    } else {
        tokens_duration(duration_tokens(input))
    }
}

/// The duration of a list of `(amount, unit)` tokens: the sum of the tokens
/// (beyond the representable range, an infinity); `None` for no token or for a
/// token with an unknown unit or an unreadable amount.
pub open spec fn tokens_duration(tokens: Seq<(Seq<char>, Seq<char>)>) -> Option<Num> {
    if tokens.len() == 0 {
        None
    } else {
        match tokens_total(tokens, tokens.len()) {
            Some(t) => Some(clamp(t)),
            None => None,
        }
    }
}

/// Nanoseconds per unit of a (lower-cased) unit name.
fn unit_value(unit: &str) -> (r: Option<u128>)
    ensures
        match r {
            Some(u) => unit_ns(unit@) == Some(u as int),
            None => unit_ns(unit@) is None,
        },
{
    proof {
        reveal_strlit("ms");
        reveal_strlit("s");
        reveal_strlit("sec");
        reveal_strlit("secs");
        reveal_strlit("second");
        reveal_strlit("seconds");
        reveal_strlit("m");
        reveal_strlit("min");
        reveal_strlit("mins");
        reveal_strlit("minute");
        reveal_strlit("minutes");
        reveal_strlit("h");
        reveal_strlit("hr");
        reveal_strlit("hrs");
        reveal_strlit("hour");
        reveal_strlit("hours");
        reveal_strlit("d");
        reveal_strlit("day");
        reveal_strlit("days");
        reveal_strlit("w");
        reveal_strlit("wk");
        reveal_strlit("week");
        reveal_strlit("weeks");
    }
    if str_equal(unit, "ms") {
        Some(1_000_000)
    } else if str_equal(unit, "s") || str_equal(unit, "sec") || str_equal(unit, "secs") || str_equal(unit, "second")
        || str_equal(unit, "seconds") {
        Some(1_000_000_000)
    } else if str_equal(unit, "m") || str_equal(unit, "min") || str_equal(unit, "mins") || str_equal(unit, "minute")
        || str_equal(unit, "minutes") {
        Some(60_000_000_000)
    } else if str_equal(unit, "h") || str_equal(unit, "hr") || str_equal(unit, "hrs") || str_equal(unit, "hour")
        || str_equal(unit, "hours") {
        Some(3_600_000_000_000)
    } else if str_equal(unit, "d") || str_equal(unit, "day") || str_equal(unit, "days") {
        Some(86_400_000_000_000)
    } else if str_equal(unit, "w") || str_equal(unit, "wk") || str_equal(unit, "week") || str_equal(unit, "weeks") {
        Some(604_800_000_000_000)
    } else {
        None
    }
}

/// Every spelling of a unit stands for the same length, and the units are the
/// usual multiples of one another: a millisecond is 10^6 ns, a second 1000
/// milliseconds, a minute 60 seconds, an hour 60 minutes, a day 24 hours and a
/// week 7 days.
pub proof fn law_unit_lengths()
    ensures
        unit_ns("ms"@) == Some(1_000_000int),
        unit_ns("s"@) == Some(1000 * 1_000_000int),
        unit_ns("sec"@) == unit_ns("s"@) && unit_ns("secs"@) == unit_ns("s"@),
        unit_ns("second"@) == unit_ns("s"@) && unit_ns("seconds"@) == unit_ns("s"@),
        unit_ns("m"@) == Some(60 * unit_ns("s"@).unwrap()),
        unit_ns("min"@) == unit_ns("m"@) && unit_ns("mins"@) == unit_ns("m"@),
        unit_ns("minute"@) == unit_ns("m"@) && unit_ns("minutes"@) == unit_ns("m"@),
        unit_ns("h"@) == Some(60 * unit_ns("m"@).unwrap()),
        unit_ns("hr"@) == unit_ns("h"@) && unit_ns("hrs"@) == unit_ns("h"@),
        unit_ns("hour"@) == unit_ns("h"@) && unit_ns("hours"@) == unit_ns("h"@),
        unit_ns("d"@) == Some(24 * unit_ns("h"@).unwrap()),
        unit_ns("day"@) == unit_ns("d"@) && unit_ns("days"@) == unit_ns("d"@),
        unit_ns("w"@) == Some(7 * unit_ns("d"@).unwrap()),
        unit_ns("wk"@) == unit_ns("w"@) && unit_ns("week"@) == unit_ns("w"@) && unit_ns("weeks"@) == unit_ns("w"@),
{
    reveal_strlit("ms");
    reveal_strlit("s");
    reveal_strlit("sec");
    reveal_strlit("secs");
    reveal_strlit("second");
    reveal_strlit("seconds");
    reveal_strlit("m");
    reveal_strlit("min");
    reveal_strlit("mins");
    reveal_strlit("minute");
    reveal_strlit("minutes");
    reveal_strlit("h");
    reveal_strlit("hr");
    reveal_strlit("hrs");
    reveal_strlit("hour");
    reveal_strlit("hours");
    reveal_strlit("d");
    reveal_strlit("day");
    reveal_strlit("days");
    reveal_strlit("w");
    reveal_strlit("wk");
    reveal_strlit("week");
    reveal_strlit("weeks");
    assert("ms"@.len() == 2);
    assert("s"@.len() == 1);
    assert("sec"@.len() == 3);
    assert("secs"@.len() == 4);
    assert("second"@.len() == 6);
    assert("seconds"@.len() == 7);
    assert("m"@.len() == 1);
    assert("min"@.len() == 3);
    assert("mins"@.len() == 4);
    assert("minute"@.len() == 6);
    assert("minutes"@.len() == 7);
    assert("h"@.len() == 1);
    assert("hr"@.len() == 2);
    assert("hrs"@.len() == 3);
    assert("hour"@.len() == 4);
    assert("hours"@.len() == 5);
    assert("d"@.len() == 1);
    assert("day"@.len() == 3);
    assert("days"@.len() == 4);
    assert("w"@.len() == 1);
    assert("wk"@.len() == 2);
    assert("week"@.len() == 4);
    assert("weeks"@.len() == 5);
    assert("m"@[0] != "s"@[0]);
    assert("min"@[0] != "sec"@[0]);
    assert("mins"@[0] != "secs"@[0]);
    assert("minute"@[0] != "second"@[0]);
    assert("minutes"@[0] != "seconds"@[0]);
    assert("h"@[0] != "s"@[0]);
    assert("h"@[0] != "m"@[0]);
    assert("hr"@[0] != "ms"@[0]);
    assert("hrs"@[0] != "sec"@[0]);
    assert("hrs"@[0] != "min"@[0]);
    assert("hour"@[0] != "secs"@[0]);
    assert("hour"@[0] != "mins"@[0]);
    assert("d"@[0] != "s"@[0]);
    assert("d"@[0] != "m"@[0]);
    assert("d"@[0] != "h"@[0]);
    assert("day"@[0] != "sec"@[0]);
    assert("day"@[0] != "min"@[0]);
    assert("day"@[0] != "hrs"@[0]);
    assert("days"@[0] != "secs"@[0]);
    assert("days"@[0] != "mins"@[0]);
    assert("days"@[0] != "hour"@[0]);
    assert("w"@[0] != "s"@[0]);
    assert("w"@[0] != "m"@[0]);
    assert("w"@[0] != "h"@[0]);
    assert("w"@[0] != "d"@[0]);
    assert("wk"@[0] != "ms"@[0]);
    assert("wk"@[0] != "hr"@[0]);
    assert("week"@[0] != "secs"@[0]);
    assert("week"@[0] != "mins"@[0]);
    assert("week"@[0] != "hour"@[0]);
    assert("week"@[0] != "days"@[0]);
    assert("weeks"@[0] != "hours"@[0]);
}

/// One unit name, as spelled in any of its ways (already lower-cased).
pub open spec fn week_spelling(u: Seq<char>) -> bool {
    u == "w"@ || u == "wk"@ || u == "week"@ || u == "weeks"@
}

/// An amount of weeks is the same whichever way the unit is spelled, and it is
/// seven times the same amount of days: `N week` equals `N weeks`, and `1 week`
/// is 168 hours.
pub proof fn law_week_tokens(amount: Seq<char>, t1: Seq<char>, t2: Seq<char>, day: Seq<char>)
    requires
        week_spelling(lowercase(t1)),
        week_spelling(lowercase(t2)),
        lowercase(day) == "day"@,
    ensures
        token_ns((amount, t1)) == token_ns((amount, t2)),
        token_ns((amount, t1)) == amount_ns(amount, 7 * 86_400_000_000_000int),
        token_ns((amount, t1)) == amount_ns(amount, 7 * unit_ns(lowercase(day)).unwrap()),
        amount == "1"@ ==> token_ns((amount, t1)) == Some(168 * 3_600_000_000_000int),
{
    law_unit_lengths();
    if amount == "1"@ {
        reveal_strlit("1");
        let u: int = 7 * 86_400_000_000_000int;
        assert(digit_run(amount, 0) == 1) by {
            assert(is_digit(amount[0]));
            assert(digit_run(amount, 1) == 0);
        }
        assert(amount.subrange(0, 1) =~= amount);
        assert(digits_value(amount) == 1) by {
            assert(amount.len() == 1 && amount[0] == '1');
            assert(amount.drop_last() =~= Seq::<char>::empty());
            assert(digits_value(Seq::<char>::empty()) == 0);
            assert(amount.last() == '1');
        }
        assert(pow10(0) == 1);
        assert((1 * u) / 1 == u);
    }
}

/// The largest number of nanoseconds a duration holds before it saturates.
pub open spec fn ns_max() -> int {
    i128::MAX as int
}

/// An amount text times `per_unit` nanoseconds (see `amount_ns`): `Some(Some(v))`
/// for a value of at most `ns_max()`, `Some(None)` for a larger one.
fn amount_value(amount: &str, per_unit: u128) -> (r: Option<Option<u128>>)
    requires
        1_000_000 <= per_unit <= 604_800_000_000_000,
    ensures
        match r {
            Some(Some(v)) => amount_ns(amount@, per_unit as int) == Some(v as int) && v as int <= ns_max(),
            Some(None) => amount_ns(amount@, per_unit as int) matches Some(v) && v > ns_max(),
            None => amount_ns(amount@, per_unit as int) is None,
        },
{
    let a = chars_of(amount);
    proof {
        crate::numbers::lemma_digit_run(a@, 0);
    }
    let n1 = crate::numbers::count_digits(a.as_slice(), 0);
    let has_dot = n1 < a.len() && a[n1] == '.';
    let n2 = if has_dot {
        proof {
            crate::numbers::lemma_digit_run(a@, n1 + 1);
        }
        crate::numbers::count_digits(a.as_slice(), n1 + 1)
    } else {
        0
    };
    let end = if has_dot { n1 + 1 + n2 } else { n1 };
    if n1 + n2 == 0 || end != a.len() {
        return None;
    }
    let int_part = crate::text::sub_chars(a.as_slice(), 0, n1);
    let frac_part = if has_dot { crate::text::sub_chars(a.as_slice(), n1 + 1, end) } else { Vec::new() };
    let ghost digits = if has_dot { a@.subrange(0, n1 as int) + a@.subrange(n1 + 1, end as int) } else { a@.subrange(0, n1 as int) };
    proof {
        assert(digits =~= int_part@ + frac_part@);
        assert(all_digits(int_part@)) by {
            assert forall|i: int| 0 <= i < int_part@.len() implies is_digit(#[trigger] int_part@[i]) by {
                assert(int_part@[i] == a@[i]);
            }
        }
        assert(all_digits(frac_part@)) by {
            assert forall|i: int| 0 <= i < frac_part@.len() implies is_digit(#[trigger] frac_part@[i]) by {
                assert(frac_part@[i] == a@[n1 + 1 + i]);
            }
        }
        crate::numbers::lemma_digits_value_concat(int_part@, frac_part@);
        crate::numbers::lemma_pow10_positive(n2 as nat);
        crate::numbers::digits_value_bound(frac_part@);
    }
    let frac = crate::numbers::fraction_floor(frac_part.as_slice(), per_unit).0;
    let ghost iv = digits_value(int_part@);
    let ghost fv = digits_value(frac_part@);
    let ghost p = pow10(n2 as nat);
    let ghost u = per_unit as int;
    proof {
        assert(frac_part@.len() == n2);
        assert(0 <= fv * u) by (nonlinear_arith)
            requires
                0 <= fv,
                0 < u;
        vstd::arithmetic::div_mod::lemma_hoist_over_denominator(fv * u, iv * u, p as nat);
        assert((iv * p + fv) * u == fv * u + iv * u * p) by (nonlinear_arith);
        assert(amount_ns(amount@, u) == Some(iv * u + frac as int));
    }
    // The integer part, until it is certainly too large.
    let cap: u128 = 1_000_000_000_000_000_000_000_000_000_000_000;
    let mut whole: u128 = 0;
    let mut i: usize = 0;
    while i < n1
        invariant
            i <= n1 == int_part.len(),
            all_digits(int_part@),
            whole as int == digits_value(int_part@.take(i as int)),
            whole <= cap,
            iv == digits_value(int_part@),
            u == per_unit as int,
            1_000_000 <= per_unit,
            amount_ns(amount@, u) == Some(iv * u + frac as int),
            cap == 1_000_000_000_000_000_000_000_000_000_000_000u128,
        decreases n1 - i,
    {
        assert(int_part@.take(i + 1).drop_last() =~= int_part@.take(i as int));
        assert(is_digit(int_part@[i as int]));
        let d = (int_part[i] as u32 - '0' as u32) as u128;
        let next = whole * 10 + d;
        if next > cap {
            proof {
                crate::numbers::lemma_digits_value_prefix(int_part@, i + 1);
                assert(iv * u >= iv * 1_000_000) by (nonlinear_arith)
                    requires
                        iv >= 0,
                        u >= 1_000_000;
                assert(0 <= frac);
            }
            return Some(None);
        }
        whole = next;
        i += 1;
    }
    assert(int_part@.take(n1 as int) =~= int_part@);
    let max: u128 = 170141183460469231731687303715884105727u128;
    let room = (max - frac) / per_unit;
    if whole > room {
        proof {
            vstd::arithmetic::div_mod::lemma_fundamental_div_mod((max - frac) as int, u);
            assert(iv * u > (max - frac) as int) by (nonlinear_arith)
                requires
                    iv >= room + 1,
                    room == (max - frac) as int / u,
                    (max - frac) as int == u * ((max - frac) as int / u) + (max - frac) as int % u,
                    (max - frac) as int % u < u,
                    u > 0;
        }
        return Some(None);
    }
    proof {
        vstd::arithmetic::div_mod::lemma_fundamental_div_mod((max - frac) as int, u);
        assert(iv * u <= (max - frac) as int) by (nonlinear_arith)
            requires
                0 <= iv <= room,
                room == (max - frac) as int / u,
                (max - frac) as int == u * ((max - frac) as int / u) + (max - frac) as int % u,
                0 <= (max - frac) as int % u,
                u > 0;
    }
    Some(Some(whole * per_unit + frac))
}

proof fn lemma_tokens_total_none(tokens: Seq<(Seq<char>, Seq<char>)>, k: nat, n: nat)
    requires
        k <= n <= tokens.len(),
        tokens_total(tokens, k) is None,
    ensures
        tokens_total(tokens, n) is None,
    decreases n,
{
    if n > k {
        lemma_tokens_total_none(tokens, k, (n - 1) as nat);
    }
}

/// The group text at `i`, or the empty text.
fn group_text(groups: &Vec<Option<String>>, i: usize) -> (r: String)
    ensures
        r@ == group_or_empty(group_texts(groups@), i as int),
{
    if i < groups.len() {
        match &groups[i] {
            Some(t) => t.clone(),
            None => String::new(),
        }
    } else {
        String::new()
    }
}

/// The `(amount, unit)` token of each match.
fn token_list(matches: &Vec<Vec<Option<String>>>) -> (r: Vec<(String, String)>)
    ensures
        r@.map_values(|t: (String, String)| (t.0@, t.1@))
            == matches@.map_values(|c: Vec<Option<String>>| group_texts(c@)).map_values(|g: Seq<Option<Seq<char>>>| token_of(g)),
{
    let ghost target = matches@.map_values(|c: Vec<Option<String>>| group_texts(c@)).map_values(|g: Seq<Option<Seq<char>>>| token_of(g));
    let mut out: Vec<(String, String)> = Vec::new();
    let mut i: usize = 0;
    while i < matches.len()
        invariant
            i <= matches.len(),
            target == matches@.map_values(|c: Vec<Option<String>>| group_texts(c@)).map_values(|g: Seq<Option<Seq<char>>>| token_of(g)),
            out@.map_values(|t: (String, String)| (t.0@, t.1@)) == target.take(i as int),
        decreases matches.len() - i,
    {
        let amount = group_text(&matches[i], 1);
        let unit = group_text(&matches[i], 2);
        out.push((amount, unit));
        assert(target[i as int] == token_of(group_texts(matches@[i as int]@)));
        assert(target.take(i + 1) =~= target.take(i as int).push(target[i as int]));
        assert(out@.map_values(|t: (String, String)| (t.0@, t.1@)) =~= target.take(i + 1));
        i += 1;
    }
    assert(target.take(matches.len() as int) =~= target);
    out
}

/// Parses a human duration into nanoseconds (see `duration_ns`).
pub fn parse_duration(input: &str) -> (r: Option<Num>)
    ensures
        r == duration_ns(input@),
{
    let tokenizer = match Pattern::compile("(?i)(\\d+(?:\\.\\d+)?)\\s*([a-z]+)") {
        Ok(p) => p,
        Err(_) => return None,
    };
    let matches = tokenizer.captures(input);
    let tokens = token_list(&matches);
    proof {
        let cv = matches@.map_values(|c: Vec<Option<String>>| group_texts(c@));
        assert(cv == ci_regex_captures(duration_token_source(), input@));
        assert(tokens@.map_values(|t: (String, String)| (t.0@, t.1@)) =~= duration_tokens(input@));
    }
    duration_of_tokens(&tokens)
}

/// The duration of a list of `(amount, unit)` tokens (see `tokens_duration`).
pub fn duration_of_tokens(tokens: &Vec<(String, String)>) -> (r: Option<Num>)
    ensures
        r == tokens_duration(tokens@.map_values(|t: (String, String)| (t.0@, t.1@))),
{
    let ghost tv = tokens@.map_values(|t: (String, String)| (t.0@, t.1@));
    if tokens.len() == 0 {
        return None;
    }
    let max: u128 = 170141183460469231731687303715884105727u128;
    let mut total: u128 = 0;
    let mut saturated = false;
    let mut i: usize = 0;
    while i < tokens.len()
        invariant
            i <= tokens.len(),
            tv == tokens@.map_values(|t: (String, String)| (t.0@, t.1@)),
            max == 170141183460469231731687303715884105727u128,
            tokens_total(tv, i as nat) is Some,
            !saturated ==> total as int == tokens_total(tv, i as nat).unwrap() && total <= max,
            saturated ==> tokens_total(tv, i as nat).unwrap() > max,
            tokens_total(tv, i as nat).unwrap() >= 0,
        decreases tokens.len() - i,
    {
        let unit = to_lowercase(tokens[i].1.as_str());
        assert(tv[i as int] == (tokens@[i as int].0@, tokens@[i as int].1@));
        let per_unit = match unit_value(unit.as_str()) {
            Some(u) => u,
            None => {
                proof {
                    lemma_tokens_total_none(tv, (i + 1) as nat, tv.len());
                }
                return None;
            },
        };
        match amount_value(tokens[i].0.as_str(), per_unit) {
            Some(Some(v)) => {
                assert(token_ns(tv[i as int]) == Some(v as int));
                if !saturated {
                    if v > max - total {
                        saturated = true;
                    } else {
                        total = total + v;
                    }
                }
            },
            Some(None) => {
                assert(token_ns(tv[i as int]) is Some);
                saturated = true;
            },
            None => {
                proof {
                    lemma_tokens_total_none(tv, (i + 1) as nat, tv.len());
                }
                return None;
            },
        }
        i += 1;
    }
    if saturated {
        Some(Num::PosInf)
    } else {
        Some(Num::Finite(total as i128))
    }
}

/// The value bound to `key` in a keyed list (the first binding), if any.
pub open spec fn keyed<X>(entries: Seq<(Seq<char>, X)>, key: Seq<char>) -> Option<X>
    decreases entries.len(),
{
    if entries.len() == 0 {
        None
    } else if entries[0].0 == key {
        Some(entries[0].1)
    } else {
        keyed(entries.drop_first(), key)
    }
}

/// The text of a scalar threshold value (a string, or a number as the YAML
/// reader renders it).
pub open spec fn scalar_text(v: Yaml) -> Option<Seq<char>> {
    match v {
        Yaml::Text(s) => Some(s),
        Yaml::Number(n) => Some(n),
        _ => None,
    }
}

/// How a non-scalar threshold value is named in an error.
pub open spec fn value_description(v: Yaml) -> Seq<char> {
    match v {
        Yaml::Null => "Null"@,
        Yaml::Bool(b) => if b { "Bool(true)"@ } else { "Bool(false)"@ },
        Yaml::Sequence(_) => "Sequence"@,
        Yaml::Mapping(_) => "Mapping"@,
        Yaml::Tagged(_, _) => "Tagged"@,
        _ => ""@,
    }
}

/// A threshold value as a duration.
pub open spec fn threshold_value(v: Yaml) -> Option<Num> {
    match scalar_text(v) {
        Some(t) => duration_ns(t),
        None => None,
    }
}

/// The error text of a threshold value that is not a duration.
pub open spec fn threshold_error_text(v: Yaml) -> Seq<char> {
    match scalar_text(v) {
        Some(t) => t,
        None => value_description(v),
    }
}

/// The lists of a refs section, by key.
pub open spec fn raw_lists(refs: RawRefs) -> Seq<(Seq<char>, Seq<Seq<char>>)> {
    refs.lists@.map_values(|e: (String, Vec<String>)| (e.0@, crate::config::texts(e.1@)))
}

/// The pattern sources of a refs section, by key.
pub open spec fn raw_patterns(refs: RawRefs) -> Seq<(Seq<char>, Seq<char>)> {
    refs.patterns@.map_values(|e: (String, String)| (e.0@, e.1@))
}

/// The threshold values of a refs section, by key.
pub open spec fn raw_thresholds(refs: RawRefs) -> Seq<(Seq<char>, Yaml)> {
    refs.thresholds@.map_values(|e: (String, YamlValue)| (e.0@, e.1@))
}

/// Compiled refs: lists as-is, patterns as case-insensitive regexes, thresholds
/// as durations. Resolution is generic (no hard-coded key names), so any
/// `refs.<bucket>.<name>` the rules use just works.
pub struct RulesData {
    lists: Vec<(String, Vec<String>)>,
    patterns: Vec<(String, Pattern)>,
    thresholds: Vec<(String, Num)>,
}

/// A resolved ref operand.
pub enum RefValue {
    List(Vec<String>),
    Pattern(Pattern),
    Threshold(Num),
}

/// The model of a resolved ref operand.
pub enum RefModel {
    List(Seq<Seq<char>>),
    Pattern(Seq<char>),
    Threshold(Num),
}

/// The model of a `RefValue`.
pub open spec fn ref_model(v: RefValue) -> RefModel {
    match v {
        RefValue::List(l) => RefModel::List(crate::config::texts(l@)),
        RefValue::Pattern(p) => RefModel::Pattern(p.source()),
        RefValue::Threshold(n) => RefModel::Threshold(n),
    }
}

/// A dotted ref path split at its first `.` into bucket and key.
pub open spec fn split_ref(path: Seq<char>) -> Option<(Seq<char>, Seq<char>)> {
    let i = crate::folders::find_from(path, '.', 0);
    if i < 0 { None } else { Some((path.subrange(0, i), path.subrange(i + 1, path.len() as int))) }
}

impl RulesData {
    /// The lists, by key.
    pub closed spec fn lists_view(&self) -> Seq<(Seq<char>, Seq<Seq<char>>)> {
        self.lists@.map_values(|e: (String, Vec<String>)| (e.0@, crate::config::texts(e.1@)))
    }

    /// The pattern sources, by key.
    pub closed spec fn patterns_view(&self) -> Seq<(Seq<char>, Seq<char>)> {
        self.patterns@.map_values(|e: (String, Pattern)| (e.0@, e.1.source()))
    }

    /// The thresholds, by key.
    pub closed spec fn thresholds_view(&self) -> Seq<(Seq<char>, Num)> {
        self.thresholds@.map_values(|e: (String, Num)| (e.0@, e.1))
    }

}

/// The model of compiled refs: each bucket as key/value entries in document order.
pub struct RefsModel {
    pub lists: Seq<(Seq<char>, Seq<Seq<char>>)>,
    pub patterns: Seq<(Seq<char>, Seq<char>)>,
    pub thresholds: Seq<(Seq<char>, Num)>,
}

impl RefsModel {
    /// What a dotted ref path (`lists.markReadDomains`, `patterns.phishing`,
    /// `thresholds.monthly`) resolves to, if anything.
    pub open spec fn resolved(self, path: Seq<char>) -> Option<RefModel> {
        match split_ref(path) {
            None => None,
            Some((bucket, key)) => if bucket == "lists"@ {
                match keyed(self.lists, key) {
                    Some(l) => Some(RefModel::List(l)),
                    None => None,
                }
            } else if bucket == "patterns"@ {
                match keyed(self.patterns, key) {
                    Some(p) => Some(RefModel::Pattern(p)),
                    None => None,
                }
            } else if bucket == "thresholds"@ {
                match keyed(self.thresholds, key) {
                    Some(n) => Some(RefModel::Threshold(n)),
                    None => None,
                }
            } else {
                None
            },
        }
    }

    /// The source of the pattern bound to `key`, if any.
    pub open spec fn pattern_source(self, key: Seq<char>) -> Option<Seq<char>> {
        keyed(self.patterns, key)
    }
}

impl View for RulesData {
    type V = RefsModel;

    open spec fn view(&self) -> RefsModel {
        RefsModel { lists: self.lists_view(), patterns: self.patterns_view(), thresholds: self.thresholds_view() }
    }
}

/// The key of the first pattern that does not compile, if any.
pub open spec fn pattern_error(ps: Seq<(Seq<char>, Seq<char>)>) -> Option<Seq<char>>
    decreases ps.len(),
{
    if ps.len() == 0 {
        None
    } else {
        match pattern_error(ps.drop_last()) {
            Some(k) => Some(k),
            None => if ci_regex_compiles(ps.last().1) { None } else { Some(ps.last().0) },
        }
    }
}

/// The key and error text of the first threshold that is not a duration, if any.
pub open spec fn threshold_error(ts: Seq<(Seq<char>, Yaml)>) -> Option<(Seq<char>, Seq<char>)>
    decreases ts.len(),
{
    if ts.len() == 0 {
        None
    } else {
        match threshold_error(ts.drop_last()) {
            Some(e) => Some(e),
            None => if threshold_value(ts.last().1) is Some {
                None
            } else {
                Some((ts.last().0, threshold_error_text(ts.last().1)))
            },
        }
    }
}

/// The thresholds of a refs section as durations.
pub open spec fn threshold_durations(ts: Seq<(Seq<char>, Yaml)>) -> Seq<(Seq<char>, Num)> {
    ts.map_values(|e: (Seq<char>, Yaml)| (e.0, threshold_value(e.1).unwrap()))
}

/// What a refs section compiles to: the first pattern that does not compile,
/// else the first threshold that is not a duration, decides the error;
/// otherwise every bucket is kept (patterns compiled, thresholds as durations).
pub open spec fn refs_result(refs: RawRefs) -> Result<RefsModel, ErrModel> {
    match pattern_error(raw_patterns(refs)) {
        Some(k) => Err(ErrModel::BadRegex(k)),
        None => match threshold_error(raw_thresholds(refs)) {
            Some((k, v)) => Err(ErrModel::BadDuration(k, v)),
            None => Ok(RefsModel {
                lists: raw_lists(refs),
                patterns: raw_patterns(refs),
                thresholds: threshold_durations(raw_thresholds(refs)),
            }),
        },
    }
}

proof fn lemma_pattern_error_prefix(ps: Seq<(Seq<char>, Seq<char>)>, k: int)
    requires
        0 <= k <= ps.len(),
        pattern_error(ps.take(k)) is Some,
    ensures
        pattern_error(ps) == pattern_error(ps.take(k)),
    decreases ps.len() - k,
{
    if k < ps.len() {
        assert(ps.take(k + 1).drop_last() =~= ps.take(k));
        lemma_pattern_error_prefix(ps, k + 1);
    } else {
        assert(ps.take(k) =~= ps);
    }
}

proof fn lemma_threshold_error_prefix(ts: Seq<(Seq<char>, Yaml)>, k: int)
    requires
        0 <= k <= ts.len(),
        threshold_error(ts.take(k)) is Some,
    ensures
        threshold_error(ts) == threshold_error(ts.take(k)),
    decreases ts.len() - k,
{
    if k < ts.len() {
        assert(ts.take(k + 1).drop_last() =~= ts.take(k));
        lemma_threshold_error_prefix(ts, k + 1);
    } else {
        assert(ts.take(k) =~= ts);
    }
}

/// The text of a scalar threshold value, if it is one.
fn scalar_string(v: &YamlValue) -> (r: Option<String>)
    ensures
        match r {
            Some(t) => scalar_text(v@) == Some(t@),
            None => scalar_text(v@) is None,
        },
{
    match v {
        YamlValue::String(s) => Some(s.clone()),
        YamlValue::Number(n) => Some(n.clone()),
        _ => None,
    }
}

/// How a non-scalar threshold value is named in an error.
pub(crate) fn describe(v: &YamlValue) -> (r: String)
    ensures
        r@ == value_description(v@),
{
    proof {
        reveal_strlit("Null");
        reveal_strlit("Bool(true)");
        reveal_strlit("Bool(false)");
        reveal_strlit("Sequence");
        reveal_strlit("Mapping");
        reveal_strlit("Tagged");
        reveal_strlit("");
    }
    match v {
        YamlValue::Null => owned("Null"),
        YamlValue::Bool(b) => if *b { owned("Bool(true)") } else { owned("Bool(false)") },
        YamlValue::Sequence(_) => owned("Sequence"),
        YamlValue::Mapping(_) => owned("Mapping"),
        YamlValue::Tagged(_, _) => owned("Tagged"),
        _ => owned(""),
    }
}

/// A copy of a list of strings.
fn copy_list(v: &Vec<String>) -> (r: Vec<String>)
    ensures
        crate::config::texts(r@) == crate::config::texts(v@),
{
    let r = v.clone();
    assert(r@ =~= v@);
    r
}

impl RulesData {
    /// Compiles a refs section (see `refs_result`).
    pub fn from_refs(refs: &RawRefs) -> (r: Result<RulesData, RuleError>)
        ensures
            match r {
                Ok(d) => refs_result(*refs) == Ok::<RefsModel, ErrModel>(d@),
                Err(e) => refs_result(*refs) == Err::<RefsModel, ErrModel>(e@),
            },
    {
        let ghost ps = raw_patterns(*refs);
        let ghost ts = raw_thresholds(*refs);
        let mut patterns: Vec<(String, Pattern)> = Vec::new();
        let mut i: usize = 0;
        while i < refs.patterns.len()
            invariant
                ps == raw_patterns(*refs),
                i <= refs.patterns.len(),
                pattern_error(ps.take(i as int)) is None,
                patterns@.map_values(|e: (String, Pattern)| (e.0@, e.1.source())) == ps.take(i as int),
            decreases refs.patterns.len() - i,
        {
            assert(ps[i as int] == (refs.patterns@[i as int].0@, refs.patterns@[i as int].1@));
            assert(ps.take(i + 1).drop_last() =~= ps.take(i as int));
            assert(ps.take(i + 1).last() == ps[i as int]);
            match Pattern::compile(refs.patterns[i].1.as_str()) {
                Ok(p) => {
                    let key = refs.patterns[i].0.clone();
                    patterns.push((key, p));
                    assert(ps.take(i + 1) =~= ps.take(i as int).push(ps[i as int]));
                    assert(patterns@.map_values(|e: (String, Pattern)| (e.0@, e.1.source())) =~= ps.take(i + 1));
                },
                Err(source) => {
                    let key = refs.patterns[i].0.clone();
                    proof {
                        lemma_pattern_error_prefix(ps, i + 1);
                    }
                    return Err(RuleError::BadRegex { key, source });
                },
            }
            i += 1;
        }
        assert(ps.take(ps.len() as int) =~= ps);
        let mut thresholds: Vec<(String, Num)> = Vec::new();
        let mut i: usize = 0;
        while i < refs.thresholds.len()
            invariant
                ts == raw_thresholds(*refs),
                ps == raw_patterns(*refs),
                pattern_error(ps) is None,
                i <= refs.thresholds.len(),
                threshold_error(ts.take(i as int)) is None,
                thresholds@.map_values(|e: (String, Num)| (e.0@, e.1)) == threshold_durations(ts.take(i as int)),
            decreases refs.thresholds.len() - i,
        {
            assert(ts[i as int] == (refs.thresholds@[i as int].0@, refs.thresholds@[i as int].1@));
            assert(ts.take(i + 1).drop_last() =~= ts.take(i as int));
            assert(ts.take(i + 1).last() == ts[i as int]);
            let value = &refs.thresholds[i].1;
            let parsed = match scalar_string(value) {
                Some(text) => match parse_duration(text.as_str()) {
                    Some(n) => Ok(n),
                    None => Err(text),
                },
                None => Err(describe(value)),
            };
            match parsed {
                Ok(n) => {
                    thresholds.push((refs.thresholds[i].0.clone(), n));
                    assert(threshold_durations(ts.take(i + 1)) =~= threshold_durations(ts.take(i as int)).push((ts[i as int].0, n)));
                    assert(thresholds@.map_values(|e: (String, Num)| (e.0@, e.1)) =~= threshold_durations(ts.take(i + 1)));
                },
                Err(text) => {
                    let key = refs.thresholds[i].0.clone();
                    proof {
                        lemma_threshold_error_prefix(ts, i + 1);
                    }
                    return Err(RuleError::BadDuration { key, value: text });
                },
            }
            i += 1;
        }
        assert(ts.take(ts.len() as int) =~= ts);
        let mut lists: Vec<(String, Vec<String>)> = Vec::new();
        let mut i: usize = 0;
        while i < refs.lists.len()
            invariant
                i <= refs.lists.len(),
                lists@.map_values(|e: (String, Vec<String>)| (e.0@, crate::config::texts(e.1@))) == raw_lists(*refs).take(i as int),
            decreases refs.lists.len() - i,
        {
            let key = refs.lists[i].0.clone();
            let items = copy_list(&refs.lists[i].1);
            lists.push((key, items));
            assert(raw_lists(*refs).take(i + 1) =~= raw_lists(*refs).take(i as int).push(raw_lists(*refs)[i as int]));
            assert(lists@.map_values(|e: (String, Vec<String>)| (e.0@, crate::config::texts(e.1@))) =~= raw_lists(*refs).take(i + 1));
            i += 1;
        }
        assert(raw_lists(*refs).take(refs.lists.len() as int) =~= raw_lists(*refs));
        Ok(RulesData { lists, patterns, thresholds })
    }
}

proof fn lemma_keyed_at<X>(es: Seq<(Seq<char>, X)>, key: Seq<char>, i: int)
    requires
        0 <= i < es.len(),
        es[i].0 == key,
        forall|j: int| 0 <= j < i ==> es[j].0 != key,
    ensures
        keyed(es, key) == Some(es[i].1),
    decreases i,
{
    if i > 0 {
        lemma_keyed_at(es.drop_first(), key, i - 1);
    }
}

proof fn lemma_keyed_none<X>(es: Seq<(Seq<char>, X)>, key: Seq<char>)
    requires
        forall|j: int| 0 <= j < es.len() ==> es[j].0 != key,
    ensures
        keyed(es, key) is None,
    decreases es.len(),
{
    if es.len() > 0 {
        lemma_keyed_none(es.drop_first(), key);
    }
}

/// The position of the first entry bound to `key`.
fn key_position<X>(entries: &Vec<(String, X)>, key: &str) -> (r: Option<usize>)
    ensures
        match r {
            Some(i) => i < entries.len() && entries@[i as int].0@ == key@
                && forall|j: int| 0 <= j < i ==> entries@[j].0@ != key@,
            None => forall|j: int| 0 <= j < entries.len() ==> entries@[j].0@ != key@,
        },
{
    let mut i: usize = 0;
    while i < entries.len()
        invariant
            i <= entries.len(),
            forall|j: int| 0 <= j < i ==> entries@[j].0@ != key@,
        decreases entries.len() - i,
    {
        if str_equal(entries[i].0.as_str(), key) {
            return Some(i);
        }
        i += 1;
    }
    None
}

impl RulesData {
    /// Resolves a dotted ref path like `lists.markReadDomains`, `patterns.phishing`
    /// or `thresholds.monthly`. An unknown bucket or key is `UnknownRef`.
    pub fn resolve(&self, path: &str) -> (r: Result<RefValue, RuleError>)
        ensures
            match r {
                Ok(v) => self@.resolved(path@) == Some(ref_model(v)),
                Err(e) => self@.resolved(path@) is None && (e matches RuleError::UnknownRef(p) && p@ == path@),
            },
    {
        proof {
            reveal_strlit("lists");
            reveal_strlit("patterns");
            reveal_strlit("thresholds");
        }
        let chars = chars_of(path);
        proof {
            crate::folders::lemma_find_from(path@, '.', 0);
        }
        let dot = match crate::folders::find_char(&chars, '.', 0) {
            Some(d) => d,
            None => return Err(RuleError::UnknownRef(owned(path))),
        };
        let n = chars.len();
        assert(dot < n);
        let bucket_chars = crate::text::sub_chars(chars.as_slice(), 0, dot);
        let key_chars = crate::text::sub_chars(chars.as_slice(), dot + 1, n);
        let bucket = crate::text::string_from_chars(bucket_chars.as_slice());
        let key = crate::text::string_from_chars(key_chars.as_slice());
        assert(split_ref(path@) == Some((bucket@, key@)));
        if str_equal(bucket.as_str(), "lists") {
            match key_position(&self.lists, key.as_str()) {
                Some(i) => {
                    proof {
                        lemma_keyed_at(self.lists_view(), key@, i as int);
                    }
                    Ok(RefValue::List(copy_list(&self.lists[i].1)))
                },
                None => {
                    proof {
                        lemma_keyed_none(self.lists_view(), key@);
                    }
                    Err(RuleError::UnknownRef(owned(path)))
                },
            }
        } else if str_equal(bucket.as_str(), "patterns") {
            match key_position(&self.patterns, key.as_str()) {
                Some(i) => {
                    proof {
                        lemma_keyed_at(self.patterns_view(), key@, i as int);
                    }
                    Ok(RefValue::Pattern(self.patterns[i].1.copy()))
                },
                None => {
                    proof {
                        lemma_keyed_none(self.patterns_view(), key@);
                    }
                    Err(RuleError::UnknownRef(owned(path)))
                },
            }
        } else if str_equal(bucket.as_str(), "thresholds") {
            match key_position(&self.thresholds, key.as_str()) {
                Some(i) => {
                    proof {
                        lemma_keyed_at(self.thresholds_view(), key@, i as int);
                    }
                    Ok(RefValue::Threshold(self.thresholds[i].1))
                },
                None => {
                    proof {
                        lemma_keyed_none(self.thresholds_view(), key@);
                    }
                    Err(RuleError::UnknownRef(owned(path)))
                },
            }
        } else {
            Err(RuleError::UnknownRef(owned(path)))
        }
    }

    /// A compiled pattern by name, if present (used for the cleanup expiry column).
    pub fn pattern(&self, key: &str) -> (r: Option<Pattern>)
        ensures
            match r {
                Some(p) => self@.pattern_source(key@) == Some(p.source()),
                None => self@.pattern_source(key@) is None,
            },
    {
        match key_position(&self.patterns, key) {
            Some(i) => {
                proof {
                    lemma_keyed_at(self.patterns_view(), key@, i as int);
                }
                Some(self.patterns[i].1.copy())
            },
            None => {
                proof {
                    lemma_keyed_none(self.patterns_view(), key@);
                }
                None
            },
        }
    }
}

} // verus!
