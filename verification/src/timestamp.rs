//! Presence timestamps: a small RFC 3339 reader and the "N ago" label the
//! sidebar shows for a remote agent's last heartbeat.
use vstd::prelude::*;
use crate::text::{decimal, push_char, push_decimal};
use vstd::string::StringSliceAdditionalSpecFns;
use std::time::{Duration, SystemTime, SystemTimeError};

verus! {

// ---------------------------------------------------------------------
// Specifications
// ---------------------------------------------------------------------

pub open spec fn is_ascii_digit(b: u8) -> bool {
    48 <= b <= 57
}

/// The value of a run of ASCII digits read left to right, or `None` when
/// any byte is not a digit (an empty run reads as zero).
pub open spec fn digits_value(s: Seq<u8>) -> Option<int>
    decreases s.len(),
{
    if s.len() == 0 {
        Some(0)
    } else {
        match digits_value(s.drop_last()) {
            Some(v) => if is_ascii_digit(s.last()) {
                Some(v * 10 + (s.last() - 48))
            } else {
                None
            },
            None => None,
        }
    }
}

pub open spec fn field(b: Seq<u8>, lo: int, hi: int) -> Option<int> {
    digits_value(b.subrange(lo, hi))
}

/// The index just past the run of digits that starts at `i`.
pub open spec fn digit_run_end(b: Seq<u8>, i: int) -> int
    decreases b.len() - i,
{
    if 0 <= i < b.len() && is_ascii_digit(b[i]) {
        digit_run_end(b, i + 1)
    } else {
        i
    }
}

/// The UTC offset in seconds that the suffix starting at `index` denotes:
/// `Z` at the very end, or `+hh:mm` / `-hh:mm` ending the string.
pub open spec fn utc_offset(b: Seq<u8>, index: int) -> Option<int> {
    if 0 <= index < b.len() && b[index] == 90u8 && index + 1 == b.len() {
        Some(0)
    } else if 0 <= index < b.len() && (b[index] == 43u8 || b[index] == 45u8) && index + 6
        == b.len() && b[index + 3] == 58u8 {
        match (field(b, index + 1, index + 3), field(b, index + 4, index + 6)) {
            (Some(hours), Some(minutes)) => if hours > 23 || minutes > 59 {
                None
            } else if b[index] == 43u8 {
                Some(hours * 3600 + minutes * 60)
            } else {
                Some(-(hours * 3600 + minutes * 60))
            },
            _ => None,
        }
    } else {
        None
    }
}

/// Days from 1970-01-01 to the given proleptic Gregorian date.
pub open spec fn days_from_civil(year: int, month: int, day: int) -> int {
    let adjusted_year = if month <= 2 { year - 1 } else { year };
    let era = if adjusted_year >= 0 { adjusted_year / 400 } else { (adjusted_year - 399) / 400 };
    let year_of_era = adjusted_year - era * 400;
    let month_from_march = if month > 2 { month - 3 } else { month + 9 };
    let day_of_year = (153 * month_from_march + 2) / 5 + day - 1;
    let day_of_era = year_of_era * 365 + year_of_era / 4 - year_of_era / 100 + day_of_year;
    era * 146097 + day_of_era - 719468
}

/// Where the zone designator starts: past a fraction of a second (a dot
/// and at least one digit) right after the seconds, else at the byte after
/// the seconds.
pub open spec fn zone_start(b: Seq<u8>) -> int {
    if 20 < b.len() && b[19] == 46u8 && is_ascii_digit(b[20]) {
        digit_run_end(b, 20)
    } else {
        19
    }
}

/// Unix seconds denoted by an RFC 3339 timestamp `YYYY-MM-DDTHH:MM:SS`,
/// optionally followed by a fraction of a second (`.` and digits, which is
/// dropped), then `Z` or a `±hh:mm` offset. `None` for anything else.
pub open spec fn rfc3339_seconds(b: Seq<u8>) -> Option<int> {
    if b.len() < 20 || b[4] != 45u8 || b[7] != 45u8 || b[10] != 84u8 || b[13] != 58u8 || b[16]
        != 58u8 {
        None
    } else {
        match (
            field(b, 0, 4),
            field(b, 5, 7),
            field(b, 8, 10),
            field(b, 11, 13),
            field(b, 14, 16),
            field(b, 17, 19),
        ) {
            (Some(year), Some(month), Some(day), Some(hour), Some(minute), Some(second)) => {
                if !(1 <= month <= 12) || !(1 <= day <= 31) || hour > 23 || minute > 59 || second
                    > 60 {
                    None
                } else {
                    match utc_offset(b, zone_start(b)) {
                        Some(offset) => Some(
                            days_from_civil(year, month, day) * 86400 + hour * 3600 + minute * 60
                                + second - offset,
                        ),
                        None => None,
                    }
                }
            },
            _ => None,
        }
    }
}

/// Rust's `i64::saturating_sub`.
pub open spec fn saturating_sub_i64(a: int, b: int) -> int {
    if a - b > i64::MAX {
        i64::MAX as int
    } else if a - b < i64::MIN {
        i64::MIN as int
    } else {
        a - b
    }
}

/// The age in whole seconds, minutes, hours or days with its unit letter.
pub open spec fn age_text(age: nat) -> Seq<char> {
    if age < 60 {
        decimal(age).push('s')
    } else if age < 3600 {
        decimal(age / 60).push('m')
    } else if age < 86400 {
        decimal(age / 3600).push('h')
    } else {
        decimal(age / 86400).push('d')
    }
}

/// The freshness label for a heartbeat seen at `seen` when the clock reads
/// `now`; a heartbeat from the future reads as zero seconds old.
pub open spec fn relative_label(seen: int, now: int) -> Seq<char> {
    let diff = saturating_sub_i64(now, seen);
    let age: nat = if diff < 0 { 0 } else { diff as nat };
    age_text(age) + seq![' ', 'a', 'g', 'o']
}

// ---------------------------------------------------------------------
// Lemmas
// ---------------------------------------------------------------------

/// A heartbeat stamped at or after the current time reads "0s ago".
pub proof fn lemma_future_heartbeat_reads_zero(seen: i64, now: i64)
    requires
        seen >= now,
    ensures
        relative_label(seen as int, now as int) == seq!['0', 's', ' ', 'a', 'g', 'o'],
{
    assert(decimal(0) == seq!['0']);
    assert(relative_label(seen as int, now as int) =~= seq!['0', 's', ' ', 'a', 'g', 'o']);
}

// ---------------------------------------------------------------------
// The calendar
// ---------------------------------------------------------------------

/// A Gregorian leap year.
pub open spec fn is_leap_year(year: int) -> bool {
    year % 4 == 0 && (year % 100 != 0 || year % 400 == 0)
}

pub open spec fn year_length(year: int) -> int {
    if is_leap_year(year) { 366 } else { 365 }
}

/// The number of days of `month` (1 to 12) in `year`.
pub open spec fn month_length(year: int, month: int) -> int {
    if month == 2 {
        if is_leap_year(year) { 29 } else { 28 }
    } else if month == 4 || month == 6 || month == 9 || month == 11 {
        30
    } else {
        31
    }
}

/// The days of the months of `year` before `month`.
pub open spec fn days_before_month(year: int, month: int) -> int
    decreases month,
{
    if month <= 1 {
        0
    } else {
        days_before_month(year, month - 1) + month_length(year, month - 1)
    }
}

/// Days from 1970-01-01 to the first of January of `year`, counted year by
/// year (negative before 1970).
pub open spec fn days_before_year(year: int) -> int
    decreases (if year >= 1970 { year - 1970 } else { 1970 - year }),
{
    if year == 1970 {
        0
    } else if year > 1970 {
        days_before_year(year - 1) + year_length(year - 1)
    } else {
        days_before_year(year + 1) - year_length(year)
    }
}

/// From the first of March of one year to that of the next there are as
/// many days as the later year has.
proof fn lemma_march_to_march(a: int)
    requires
        0 <= a <= 9999,
    ensures
        days_from_civil(a, 3, 1) == days_from_civil(a - 1, 3, 1) + year_length(a),
{
    let q = a / 400;
    let r = a % 400;
    assert(a == 400 * q + r);
    assert(a % 4 == r % 4 && a % 100 == r % 100);
    if r == 0 {
        assert((if a - 1 >= 0 { (a - 1) / 400 } else { (a - 1 - 399) / 400 }) == q - 1);
    } else {
        assert((a - 1) / 400 == q);
    }
}

/// The day count of a date is the count of the days of the years before
/// it, of the months of its year before it and of its days before it.
proof fn lemma_civil_days_by_month(year: int, month: int, day: int)
    requires
        0 <= year <= 9999,
        1 <= month <= 12,
    ensures
        days_from_civil(year, month, day) == days_from_civil(year, 1, 1) + days_before_month(
            year,
            month,
        ) + day - 1,
{
    reveal_with_fuel(days_before_month, 13);
    lemma_march_to_march(year);
}

/// Consecutive New Year's days are a year's length apart.
proof fn lemma_new_year_step(year: int)
    requires
        0 <= year <= 9999,
    ensures
        days_from_civil(year + 1, 1, 1) == days_from_civil(year, 1, 1) + year_length(year),
{
    lemma_march_to_march(year);
    lemma_civil_days_by_month(year, 3, 1);
    reveal_with_fuel(days_before_month, 4);
}

proof fn lemma_new_year_counts_years(year: int)
    requires
        0 <= year <= 10000,
    ensures
        days_from_civil(year, 1, 1) == days_before_year(year),
    decreases (if year >= 1970 { year - 1970 } else { 1970 - year }),
{
    if year > 1970 {
        lemma_new_year_counts_years(year - 1);
        lemma_new_year_step(year - 1);
    } else if year < 1970 {
        lemma_new_year_counts_years(year + 1);
        lemma_new_year_step(year);
    } else {
        assert(days_from_civil(1970, 1, 1) == 0);
    }
}

/// The day count behind the RFC 3339 reader is the calendar's: for every
/// date with a four-digit year, the days from 1970-01-01 are those of the
/// whole years between (leap years with 366), of the months of its year
/// before its month, and of its days before it.
pub proof fn lemma_civil_days_count_calendar_days(year: int, month: int, day: int)
    requires
        0 <= year <= 9999,
        1 <= month <= 12,
    ensures
        days_from_civil(year, month, day) == days_before_year(year) + days_before_month(year, month)
            + day - 1,
{
    lemma_civil_days_by_month(year, month, day);
    lemma_new_year_counts_years(year);
}

pub open spec fn pow10(n: nat) -> int
    decreases n,
{
    if n == 0 { 1 } else { 10 * pow10((n - 1) as nat) }
}

/// A run of digits reads below ten to the power of its length.
proof fn lemma_digits_value_bound(s: Seq<u8>)
    ensures
        digits_value(s) matches Some(v) ==> 0 <= v < pow10(s.len()),
    decreases s.len(),
{
    if s.len() > 0 {
        lemma_digits_value_bound(s.drop_last());
        assert(pow10(s.len()) == 10 * pow10((s.len() - 1) as nat));
    }
}

/// What the RFC 3339 reader gives is the calendar's count of seconds: the
/// whole days from 1970-01-01 to the date (counted by years, months and
/// days) times 86400, plus the time of day, minus the UTC offset.
pub proof fn lemma_rfc3339_seconds_count_calendar_time(b: Seq<u8>)
    requires
        rfc3339_seconds(b) is Some,
    ensures
        ({
            let year = field(b, 0, 4)->0;
            let month = field(b, 5, 7)->0;
            let day = field(b, 8, 10)->0;
            let hour = field(b, 11, 13)->0;
            let minute = field(b, 14, 16)->0;
            let second = field(b, 17, 19)->0;
            rfc3339_seconds(b)->0 == (days_before_year(year) + days_before_month(year, month) + day
                - 1) * 86400 + hour * 3600 + minute * 60 + second - utc_offset(b, zone_start(b))->0
        }),
{
    let year = field(b, 0, 4)->0;
    let month = field(b, 5, 7)->0;
    let day = field(b, 8, 10)->0;
    lemma_digits_value_bound(b.subrange(0, 4));
    assert(pow10(4) == 10000) by {
        reveal_with_fuel(pow10, 5);
    }
    lemma_civil_days_count_calendar_days(year, month, day);
}

// ---------------------------------------------------------------------
// Executable code
// ---------------------------------------------------------------------

/// The value of the ASCII digits `b[lo..hi]` (at most four of them).
fn digits(b: &[u8], lo: usize, hi: usize) -> (out: Option<i64>)
    requires
        lo <= hi <= b@.len(),
        hi - lo <= 4,
    ensures
        match out {
            Some(v) => field(b@, lo as int, hi as int) == Some(v as int),
            None => field(b@, lo as int, hi as int) is None,
        },
        out matches Some(v) ==> 0 <= v < 10000,
{
    let mut acc: i64 = 0;
    let mut i: usize = lo;
    proof {
        assert(b@.subrange(lo as int, lo as int) =~= Seq::<u8>::empty());
    }
    while i < hi
        invariant
            lo <= i <= hi,
            hi <= b@.len(),
            hi - lo <= 4,
            digits_value(b@.subrange(lo as int, i as int)) == Some(acc as int),
            0 <= acc < pow10((i - lo) as nat),
        decreases hi - i,
    {
        let byte = b[i];
        let ghost prefix = b@.subrange(lo as int, i + 1);
        assert(prefix.drop_last() =~= b@.subrange(lo as int, i as int));
        assert(prefix.last() == byte);
        if !(byte >= 48 && byte <= 57) {
            proof {
                lemma_digits_none_extends(b@, lo as int, i + 1, hi as int);
            }
            return None;
        }
        proof {
            assert(pow10((i + 1 - lo) as nat) == 10 * pow10((i - lo) as nat));
            assert(pow10(4) == 10000) by {
                reveal_with_fuel(pow10, 5);
            }
            lemma_pow10_mono((i + 1 - lo) as nat, 4);
        }
        acc = acc * 10 + (byte - 48) as i64;
        i = i + 1;
    }
    proof {
        assert(pow10(4) == 10000) by {
            reveal_with_fuel(pow10, 5);
        }
        lemma_pow10_mono((hi - lo) as nat, 4);
    }
    Some(acc)
}

proof fn lemma_pow10_mono(a: nat, b: nat)
    requires
        a <= b,
    ensures
        pow10(a) <= pow10(b),
        pow10(a) >= 1,
    decreases b,
{
    if a < b {
        lemma_pow10_mono(a, (b - 1) as nat);
    } else if b > 0 {
        lemma_pow10_mono((a - 1) as nat, (b - 1) as nat);
    }
}

/// Once a prefix of a run fails to read as digits, every longer prefix fails.
proof fn lemma_digits_none_extends(b: Seq<u8>, lo: int, mid: int, hi: int)
    requires
        0 <= lo <= mid <= hi <= b.len(),
        digits_value(b.subrange(lo, mid)) is None,
    ensures
        digits_value(b.subrange(lo, hi)) is None,
    decreases hi - mid,
{
    if mid < hi {
        let next = b.subrange(lo, mid + 1);
        assert(next.drop_last() =~= b.subrange(lo, mid));
        lemma_digits_none_extends(b, lo, mid + 1, hi);
    }
}

/// Unix seconds of an RFC 3339 presence timestamp, `None` when it does not
/// parse.
pub fn parse_rfc3339_seconds(timestamp: &str) -> (out: Option<i64>)
    ensures
        match out {
            Some(v) => rfc3339_seconds(timestamp.spec_bytes()) == Some(v as int),
            None => rfc3339_seconds(timestamp.spec_bytes()) is None,
        },
{
    let bytes = timestamp.as_bytes();
    let ghost b = bytes@;
    if bytes.len() < 20 || bytes[4] != 45u8 || bytes[7] != 45u8 || bytes[10] != 84u8
        || bytes[13] != 58u8 || bytes[16] != 58u8 {
        return None;
    }
    let year = match digits(bytes, 0, 4) {
        Some(v) => v,
        None => return None,
    };
    let month = match digits(bytes, 5, 7) {
        Some(v) => v,
        None => return None,
    };
    let day = match digits(bytes, 8, 10) {
        Some(v) => v,
        None => return None,
    };
    let hour = match digits(bytes, 11, 13) {
        Some(v) => v,
        None => return None,
    };
    let minute = match digits(bytes, 14, 16) {
        Some(v) => v,
        None => return None,
    };
    let second = match digits(bytes, 17, 19) {
        Some(v) => v,
        None => return None,
    };
    if !(1 <= month && month <= 12) || !(1 <= day && day <= 31) || hour > 23 || minute > 59
        || second > 60 {
        return None;
    }
    let mut index: usize = 19;
    if bytes.len() > 20 && bytes[19] == 46u8 && bytes[20] >= 48 && bytes[20] <= 57 {
        index = 20;
        while index < bytes.len() && bytes[index] >= 48 && bytes[index] <= 57
            invariant
                20 <= index <= bytes@.len(),
                bytes@ == b,
                zone_start(b) == digit_run_end(b, index as int),
            decreases bytes@.len() - index,
        {
            index = index + 1;
        }
    }
    assert(zone_start(b) == index as int);
    let offset: i64 = if index < bytes.len() && bytes[index] == 90u8 && index + 1 == bytes.len() {
        0
    } else if index < bytes.len() && (bytes[index] == 43u8 || bytes[index] == 45u8)
        && bytes.len() >= 6 && index == bytes.len() - 6 && bytes[index + 3] == 58u8 {
        let hours = match digits(bytes, index + 1, index + 3) {
            Some(v) => v,
            None => return None,
        };
        let minutes = match digits(bytes, index + 4, index + 6) {
            Some(v) => v,
            None => return None,
        };
        if hours > 23 || minutes > 59 {
            return None;
        }
        let value = hours * 3600 + minutes * 60;
        if bytes[index] == 43u8 {
            value
        } else {
            -value
        }
    } else {
        return None;
    };
    assert(utc_offset(b, index as int) == Some(offset as int));
    let adjusted_year: i64 = if month <= 2 { year - 1 } else { year };
    // Years have four digits, so the adjusted year is at least -1 and its
    // era (`(adjusted_year - 399) / 400` when negative) is -1.
    let era: i64 = if adjusted_year >= 0 { adjusted_year / 400 } else { -1 };
    assert(era as int == (if adjusted_year >= 0 { adjusted_year / 400 } else { (adjusted_year - 399) / 400 }));
    let year_of_era = adjusted_year - era * 400;
    let month_from_march = if month > 2 { month - 3 } else { month + 9 };
    let day_of_year = (153 * month_from_march + 2) / 5 + day - 1;
    let day_of_era = year_of_era * 365 + year_of_era / 4 - year_of_era / 100 + day_of_year;
    let days = era * 146097 + day_of_era - 719468;
    Some(days * 86400 + hour * 3600 + minute * 60 + second - offset)
}

/// `format!("{value} ago")` for a heartbeat at `seen` seconds and the
/// current time `now`.
pub fn relative_time_label(seen: i64, now: i64) -> (out: String)
    ensures
        out@ == relative_label(seen as int, now as int),
{
    let diff: i64 = match now.checked_sub(seen) {
        Some(v) => v,
        None => if seen > 0 { i64::MIN } else { i64::MAX },
    };
    let age: u64 = if diff < 0 { 0 } else { diff as u64 };
    let mut out = String::new();
    if age < 60 {
        push_decimal(&mut out, age);
        push_char(&mut out, 's');
    } else if age < 3600 {
        push_decimal(&mut out, age / 60);
        push_char(&mut out, 'm');
    } else if age < 86400 {
        push_decimal(&mut out, age / 3600);
        push_char(&mut out, 'h');
    } else {
        push_decimal(&mut out, age / 86400);
        push_char(&mut out, 'd');
    }
    push_char(&mut out, ' ');
    push_char(&mut out, 'a');
    push_char(&mut out, 'g');
    push_char(&mut out, 'o');
    assert(out@ =~= relative_label(seen as int, now as int));
    out
}

/// The freshness label of a presence timestamp at time `now`, or `None`
/// when the timestamp does not parse.
pub fn remote_relative_time_at(timestamp: &str, now: i64) -> (out: Option<String>)
    ensures
        match rfc3339_seconds(timestamp.spec_bytes()) {
            Some(seen) => out matches Some(s) && s@ == relative_label(seen, now as int),
            None => out is None,
        },
{
    match parse_rfc3339_seconds(timestamp) {
        Some(seen) => Some(relative_time_label(seen, now)),
        None => None,
    }
}

// ---------------------------------------------------------------------
// The wall clock
// ---------------------------------------------------------------------

#[verifier::external_type_specification]
#[verifier::external_body]
pub struct ExSystemTime(SystemTime);

#[verifier::external_type_specification]
#[verifier::external_body]
pub struct ExSystemTimeError(SystemTimeError);

/// `SystemTime::now`: the current wall-clock time (nothing is known of it).
#[verifier::external_body]
fn system_now() -> SystemTime {
    SystemTime::now()
}

/// `SystemTime::duration_since(UNIX_EPOCH)`: the time elapsed since the
/// Unix epoch, an error when the clock reads earlier.
#[verifier::external_body]
fn since_unix_epoch(t: &SystemTime) -> Result<Duration, SystemTimeError> {
    t.duration_since(std::time::UNIX_EPOCH)
}

/// `Duration::as_secs`: the whole seconds of a duration.
#[verifier::external_body]
fn whole_seconds(d: &Duration) -> u64 {
    d.as_secs()
}

/// The current Unix time in whole seconds, `None` when the clock reads
/// before the epoch. The value depends on the clock: nothing is stated of
/// it.
pub fn unix_now() -> Option<i64> {
    let now = system_now();
    match since_unix_epoch(&now) {
        Ok(d) => Some(whole_seconds(&d) as i64),
        Err(_) => None,
    }
}

/// The freshness label of a presence timestamp at the current time: `None`
/// when it does not parse (or the clock is unreadable), else the label for
/// some reading of the clock.
pub fn remote_relative_time(timestamp: &str) -> (out: Option<String>)
    ensures
        rfc3339_seconds(timestamp.spec_bytes()) is None ==> out is None,
        out matches Some(s) ==> exists|now: i64|
            s@ == relative_label(rfc3339_seconds(timestamp.spec_bytes())->0, now as int),
{
    match unix_now() {
        Some(now) => {
            let out = remote_relative_time_at(timestamp, now);
            proof {
                if out is Some {
                    assert(out->0@ == relative_label(rfc3339_seconds(timestamp.spec_bytes())->0, now as int));
                }
            }
            out
        },
        None => None,
    }
}

} // verus!
