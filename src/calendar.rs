//! Instants, calendar days and the `HH:MM:SS` text of a duration.
//!
//! An instant is a count of whole seconds since 1970-01-01T00:00:00Z; a
//! calendar day is a count of days since 1970-01-01.
use vstd::prelude::*;

verus! {

pub const SECONDS_PER_DAY: i64 = 86400;

/// The day that holds the instant `secs`, in a zone `offset` seconds ahead
/// of UTC.
pub open spec fn day_of(secs: int, offset: int) -> int {
    (secs + offset) / (SECONDS_PER_DAY as int)
}

/// Days that have passed since the Monday that opens the week of `day`
/// (1970-01-01 was a Thursday).
pub open spec fn days_since_monday(day: int) -> int {
    (day + 3) % 7
}

/// Calendar day of an instant, in a zone `offset` seconds ahead of UTC.
pub fn day_of_instant(secs: i64, offset: i64) -> (r: i64)
    requires
        -SECONDS_PER_DAY < offset < SECONDS_PER_DAY,
    ensures
        r == day_of(secs as int, offset as int),
{
    let shifted: i128 = secs as i128 + offset as i128;
    let d: i128 = shifted.checked_div_euclid(SECONDS_PER_DAY as i128).unwrap();
    assert(i64::MIN <= d <= i64::MAX) by (nonlinear_arith)
        requires
            d == shifted / 86400,
            i64::MIN - 86400 <= shifted <= i64::MAX + 86400,
    ;
    d as i64
}

/// The Monday-to-Sunday week that holds `today`, as its first and last day.
pub fn get_current_week_range(today: i64) -> (r: (i64, i64))
    requires
        i64::MIN + 7 <= today <= i64::MAX - 7,
    ensures
        r.0 == today - days_since_monday(today as int),
        r.1 == r.0 + 6,
        r.0 <= today <= r.1,
        days_since_monday(r.0 as int) == 0,
{
    let since_monday: i64 = (today + 3).checked_rem_euclid(7).unwrap();
    let monday: i64 = today - since_monday;
    assert(days_since_monday(monday as int) == 0) by {
        assert((monday + 3) == (today + 3) - (today + 3) % 7);
    }
    (monday, monday + 6)
}

/// The digit character of a value below ten.
pub open spec fn digit_char(d: int) -> char {
    if d == 0 { '0' }
    else if d == 1 { '1' }
    else if d == 2 { '2' }
    else if d == 3 { '3' }
    else if d == 4 { '4' }
    else if d == 5 { '5' }
    else if d == 6 { '6' }
    else if d == 7 { '7' }
    else if d == 8 { '8' }
    else { '9' }
}

/// Decimal digits of `n`, without leading zeros.
pub open spec fn decimal(n: nat) -> Seq<char>
    decreases n,
{
    if n < 10 {
        seq![digit_char(n as int)]
    } else {
        decimal(n / 10).push(digit_char((n % 10) as int))
    }
}

/// Decimal digits of `n`, padded with a zero to at least two.
pub open spec fn two_digits(n: nat) -> Seq<char> {
    if n < 10 { seq!['0', digit_char(n as int)] } else { decimal(n) }
}

/// `HH:MM:SS` for a count of seconds; a negative count reads as zero, and
/// the hours take as many digits as they need.
pub open spec fn duration_text(total: int) -> Seq<char> {
    let s: nat = if total < 0 { 0 } else { total as nat };
    two_digits(s / 3600) + seq![':'] + two_digits((s % 3600) / 60) + seq![':'] + two_digits(s % 60)
}

/// Relies on `String::push`: the character is added at the end.
#[verifier::external_body]
fn push_char(s: &mut String, c: char)
    ensures
        final(s)@ == old(s)@.push(c),
{
    s.push(c);
}

fn digit(d: u64) -> (c: char)
    requires
        d < 10,
    ensures
        c == digit_char(d as int),
{
    if d == 0 { '0' }
    else if d == 1 { '1' }
    else if d == 2 { '2' }
    else if d == 3 { '3' }
    else if d == 4 { '4' }
    else if d == 5 { '5' }
    else if d == 6 { '6' }
    else if d == 7 { '7' }
    else if d == 8 { '8' }
    else { '9' }
}

fn push_decimal(s: &mut String, n: u64)
    ensures
        final(s)@ == old(s)@ + decimal(n as nat),
    decreases n,
{
    if n < 10 {
        push_char(s, digit(n));
        assert(old(s)@.push(digit_char(n as int)) =~= old(s)@ + decimal(n as nat));
    } else {
        push_decimal(s, n / 10);
        push_char(s, digit(n % 10));
        assert(final(s)@ =~= old(s)@ + decimal(n as nat));
    }
}

fn push_two_digits(s: &mut String, n: u64)
    ensures
        final(s)@ == old(s)@ + two_digits(n as nat),
{
    if n < 10 {
        push_char(s, '0');
        push_char(s, digit(n));
        assert(final(s)@ =~= old(s)@ + two_digits(n as nat));
    } else {
        push_decimal(s, n);
    }
}

/// Formats a count of seconds as `HH:MM:SS`.
pub fn format_duration(total_seconds: i64) -> (r: String)
    ensures
        r@ == duration_text(total_seconds as int),
{
    let s: u64 = if total_seconds < 0 { 0 } else { total_seconds as u64 };
    let mut out = String::new();
    push_two_digits(&mut out, s / 3600);
    push_char(&mut out, ':');
    push_two_digits(&mut out, (s % 3600) / 60);
    push_char(&mut out, ':');
    push_two_digits(&mut out, s % 60);
    assert(out@ =~= duration_text(total_seconds as int));
    out
}

/// Relies on `std::time::SystemTime::now` and `duration_since`: the
/// current instant in whole seconds since the Unix epoch, or nothing where
/// the clock reads before the epoch or past what an `i64` holds. Nothing
/// is known of the value.
#[verifier::external_body]
pub(crate) fn now_seconds() -> (r: Option<i64>) {
    match std::time::SystemTime::now().duration_since(std::time::UNIX_EPOCH) {
        Ok(d) => i64::try_from(d.as_secs()).ok(),
        Err(_) => None,
    }
}

} // verus!
