//! Parsers for the numeric settings: cooldowns, token limits and log sizes.

use vstd::prelude::*;
use crate::answer::Cooldown;
use crate::text::{
    all_digits, chars_of, digits_value, is_ascii_digit, is_ascii_digit_char, parse_digits_u64,
    trim_bounds, trim_spec, decimal, is_ws, trim_start_spec, trim_end_spec,
};

verus! {

/// Seconds per cooldown unit letter (`s`, `m`, `h`, `d`, `w`).
pub open spec fn unit_seconds(unit: char) -> Option<nat> {
    if unit == 's' {
        Some(1)
    } else if unit == 'm' {
        Some(60)
    } else if unit == 'h' {
        Some(3600)
    } else if unit == 'd' {
        Some(86400)
    } else if unit == 'w' {
        Some(604800)
    } else {
        None
    }
}

/// A cooldown is an integer count followed by one unit letter, with nothing around it;
/// the result is the number of seconds, or the reason it is refused.
pub open spec fn cooldown_spec(s: Seq<char>) -> Result<nat, Seq<char>> {
    if trim_spec(s) != s {
        Err("must use compact duration syntax without surrounding whitespace"@)
    } else if s.len() <= 1 {
        Err("must use integer duration with unit s, m, h, d, or w"@)
    } else if !all_digits(s.drop_last()) {
        Err("must start with an integer"@)
    } else if digits_value(s.drop_last()) > u64::MAX {
        Err("duration integer is too large"@)
    } else if digits_value(s.drop_last()) == 0 {
        Err("must be greater than zero"@)
    } else {
        match unit_seconds(s.last()) {
            None => Err("unit must be one of s, m, h, d, or w"@),
            Some(m) => if digits_value(s.drop_last()) * m > u64::MAX {
                Err("duration is too large"@)
            } else {
                Ok(digits_value(s.drop_last()) * m)
            },
        }
    }
}

/// Whether `v[start..end]` is all ASCII digits.
pub fn chars_all_digits(v: &Vec<char>, start: usize, end: usize) -> (r: bool)
    requires
        start <= end <= v.len(),
    ensures
        r == all_digits(v@.subrange(start as int, end as int)),
{
    let mut i = start;
    while i < end
        invariant
            start <= i <= end <= v.len(),
            forall|j: int| start <= j < i ==> is_ascii_digit(#[trigger] v@[j]),
        decreases end - i,
    {
        if !is_ascii_digit_char(v[i]) {
            assert(!is_ascii_digit(v@.subrange(start as int, end as int)[i - start]));
            return false;
        }
        i += 1;
    }
    assert forall|j: int| 0 <= j < end - start implies is_ascii_digit(
        #[trigger] v@.subrange(start as int, end as int)[j],
    ) by {
        assert(v@.subrange(start as int, end as int)[j] == v@[start + j]);
    }
    true
}

/// Parses a cooldown such as `30m` or `2d`.
pub fn parse_cooldown(value: &str) -> (r: Result<Cooldown, String>)
    ensures
        match cooldown_spec(value@) {
            Ok(seconds) => r matches Ok(c) && c.seconds == seconds,
            Err(message) => r matches Err(e) && e@ == message,
        },
{
    let v = chars_of(value);
    let (a, b) = trim_bounds(&v);
    if a != 0 || b != v.len() {
        proof {
            if trim_spec(value@) == value@ {
                assert(v@.subrange(a as int, b as int).len() == v@.len());
            }
        }
        return Err(String::from_str("must use compact duration syntax without surrounding whitespace"));
    }
    assert(v@.subrange(0, v@.len() as int) =~= v@);
    if v.len() <= 1 {
        return Err(String::from_str("must use integer duration with unit s, m, h, d, or w"));
    }
    let unit_index = v.len() - 1;
    let unit = v[unit_index];
    assert(v@.subrange(0, unit_index as int) =~= v@.drop_last());
    if !chars_all_digits(&v, 0, unit_index) {
        return Err(String::from_str("must start with an integer"));
    }
    let amount = match parse_digits_u64(&v, 0, unit_index) {
        Some(n) => n,
        None => {
            return Err(String::from_str("duration integer is too large"));
        },
    };
    if amount == 0 {
        return Err(String::from_str("must be greater than zero"));
    }
    let multiplier: u64 = if unit == 's' {
        1
    } else if unit == 'm' {
        60
    } else if unit == 'h' {
        3600
    } else if unit == 'd' {
        86400
    } else if unit == 'w' {
        604800
    } else {
        return Err(String::from_str("unit must be one of s, m, h, d, or w"));
    };
    match amount.checked_mul(multiplier) {
        Some(seconds) => Ok(Cooldown { seconds }),
        None => Err(String::from_str("duration is too large")),
    }
}

/// A token limit is a nonempty run of ASCII digits with a positive value that fits in
/// a `u64`.
pub open spec fn token_limit_spec(s: Seq<char>) -> Result<nat, Seq<char>> {
    if s.len() == 0 || !all_digits(s) {
        Err("--break-after-tokens must be a positive integer"@)
    } else if digits_value(s) > u64::MAX {
        Err("--break-after-tokens value is too large"@)
    } else if digits_value(s) == 0 {
        Err("--break-after-tokens must be greater than zero"@)
    } else {
        Ok(digits_value(s))
    }
}

/// Parses the value of `--break-after-tokens`.
pub fn parse_break_after_tokens(value: &str) -> (r: Result<u64, String>)
    ensures
        match token_limit_spec(value@) {
            Ok(n) => r matches Ok(m) && m == n,
            Err(message) => r matches Err(e) && e@ == message,
        },
{
    let v = chars_of(value);
    assert(v@.subrange(0, v@.len() as int) =~= v@);
    if v.len() == 0 || !chars_all_digits(&v, 0, v.len()) {
        return Err(String::from_str("--break-after-tokens must be a positive integer"));
    }
    let parsed = match parse_digits_u64(&v, 0, v.len()) {
        Some(n) => n,
        None => {
            return Err(String::from_str("--break-after-tokens value is too large"));
        },
    };
    if parsed == 0 {
        return Err(String::from_str("--break-after-tokens must be greater than zero"));
    }
    Ok(parsed)
}

pub open spec fn size_suffix_reason() -> Seq<char> {
    "must be a byte count with optional M or G suffix"@
}

/// A log size limit is a byte count with an optional `M` (MiB) or `G` (GiB) suffix;
/// the result is the count in bytes, or the reason it is refused.
pub open spec fn log_max_size_spec(s: Seq<char>) -> Result<nat, Seq<char>> {
    if s.len() == 0 {
        Err("must not be empty"@)
    } else {
        let (digits, multiplier) = if s.last() == 'M' {
            (s.drop_last(), 1048576nat)
        } else if s.last() == 'G' {
            (s.drop_last(), 1073741824nat)
        } else {
            (s, 1nat)
        };
        if !(s.last() == 'M' || s.last() == 'G' || is_ascii_digit(s.last())) {
            Err(size_suffix_reason())
        } else if digits.len() == 0 || !all_digits(digits) {
            Err(size_suffix_reason())
        } else if digits_value(digits) > u64::MAX || digits_value(digits) * multiplier > u64::MAX {
            Err("value is too large"@)
        } else {
            Ok(digits_value(digits) * multiplier)
        }
    }
}

/// Parses the configured maximum size of the runtime log.
pub fn parse_log_max_size(value: &str) -> (r: Result<u64, String>)
    ensures
        match log_max_size_spec(value@) {
            Ok(n) => r matches Ok(m) && m == n,
            Err(reason) => r matches Err(e) && e@ == reason,
        },
{
    let v = chars_of(value);
    if v.len() == 0 {
        return Err(String::from_str("must not be empty"));
    }
    let last = v[v.len() - 1];
    let (end, multiplier): (usize, u64) = if last == 'M' {
        (v.len() - 1, 1048576)
    } else if last == 'G' {
        (v.len() - 1, 1073741824)
    } else if is_ascii_digit_char(last) {
        (v.len(), 1)
    } else {
        return Err(String::from_str("must be a byte count with optional M or G suffix"));
    };
    assert(v@.subrange(0, v@.len() - 1) =~= v@.drop_last());
    assert(v@.subrange(0, v@.len() as int) =~= v@);
    if end == 0 || !chars_all_digits(&v, 0, end) {
        return Err(String::from_str("must be a byte count with optional M or G suffix"));
    }
    let value = match parse_digits_u64(&v, 0, end) {
        Some(n) => n,
        None => {
            return Err(String::from_str("value is too large"));
        },
    };
    match value.checked_mul(multiplier) {
        Some(bytes) => Ok(bytes),
        None => Err(String::from_str("value is too large")),
    }
}

proof fn lemma_count_with_unit(n: nat, unit: char)
    requires
        n >= 1,
        !is_ws(unit),
    ensures
        trim_spec(decimal(n).push(unit)) == decimal(n).push(unit),
        decimal(n).push(unit).len() > 1,
        decimal(n).push(unit).drop_last() == decimal(n),
        decimal(n).push(unit).last() == unit,
        all_digits(decimal(n)),
        digits_value(decimal(n)) == n,
{
    crate::sessions::lemma_decimal_digits(n);
    let s = decimal(n).push(unit);
    assert(s.drop_last() =~= decimal(n));
    assert(is_ascii_digit(decimal(n)[0]));
    assert(s[0] == decimal(n)[0]);
    assert(!is_ws(s[0]));
    assert(trim_start_spec(s) == s);
    assert(trim_end_spec(s) == s);
}

/// A cooldown of a positive count `n` with a unit lasts `n` seconds (`s`), `n`
/// minutes of 60 seconds (`m`), hours of 3600 (`h`), days of 86400 (`d`) or weeks
/// of 604800 (`w`), whenever that many seconds fit in 64 bits.
pub proof fn law_cooldown_unit_lengths(n: nat)
    requires
        n >= 1,
    ensures
        n <= u64::MAX ==> cooldown_spec(decimal(n).push('s')) == Ok::<nat, Seq<char>>(n),
        n * 60 <= u64::MAX ==> cooldown_spec(decimal(n).push('m')) == Ok::<nat, Seq<char>>(n * 60),
        n * 3600 <= u64::MAX ==> cooldown_spec(decimal(n).push('h')) == Ok::<nat, Seq<char>>(n * 3600),
        n * 86400 <= u64::MAX ==> cooldown_spec(decimal(n).push('d')) == Ok::<nat, Seq<char>>(n * 86400),
        n * 604800 <= u64::MAX ==> cooldown_spec(decimal(n).push('w')) == Ok::<nat, Seq<char>>(n * 604800),
{
    lemma_count_with_unit(n, 's');
    lemma_count_with_unit(n, 'm');
    lemma_count_with_unit(n, 'h');
    lemma_count_with_unit(n, 'd');
    lemma_count_with_unit(n, 'w');
}

} // verus!
