//! Time handling: instants are seconds since the Unix epoch (UTC). A civil
//! date and time maps to an instant through the proleptic Gregorian calendar;
//! the mapping itself is performed by chrono and specified here exactly.
//! Also home of the rolling retention window and the feed's date literals.

use vstd::prelude::*;
use crate::errors::CalendarError;
use crate::text::remove_char;
use crate::text::remove_char_str;

verus! {

/// Number of seconds in the rolling retention window: an event whose end lies
/// further in the past than this is no longer operationally relevant.
pub const RETENTION_WINDOW_SECS: i64 = 172800;

/// An event ending at `end` is retained at time `now` iff its end is no
/// earlier than `now` minus the retention window. The boundary is inclusive.
pub open spec fn spec_retained(end: int, now: int) -> bool {
    end >= now - RETENTION_WINDOW_SECS
}

/// Retention decision for an event ending at `end`, judged at time `now`.
pub fn is_retained(end: i64, now: i64) -> (r: bool)
    ensures
        r == spec_retained(end as int, now as int),
{
    match now.checked_sub(RETENTION_WINDOW_SECS) {
        Some(cutoff) => end >= cutoff,
        None => true,
    }
}

/// The retention boundary is inclusive and sharp: at any time, an event
/// ending exactly one window ago is retained, and an event ending one second
/// before that is not.
pub proof fn lemma_retention_boundary(now: int)
    ensures
        spec_retained(now - RETENTION_WINDOW_SECS, now),
        !spec_retained(now - RETENTION_WINDOW_SECS - 1, now),
{
}

/// A year with a 29-day February in the proleptic Gregorian calendar.
pub open spec fn is_leap_year(y: int) -> bool {
    (y % 4 == 0 && y % 100 != 0) || y % 400 == 0
}

/// Number of days in month `m` of year `y`.
pub open spec fn days_in_month(y: int, m: int) -> int {
    if m == 2 {
        if is_leap_year(y) {
            29
        } else {
            28
        }
    } else if m == 4 || m == 6 || m == 9 || m == 11 {
        30
    } else {
        31
    }
}

/// A well-formed civil date and time: a real calendar day and a time of day.
pub open spec fn valid_civil(y: int, m: int, d: int, h: int, mi: int, s: int) -> bool {
    &&& 1 <= m <= 12
    &&& 1 <= d <= days_in_month(y, m)
    &&& 0 <= h < 24
    &&& 0 <= mi < 60
    &&& 0 <= s < 60
}

/// Days from the Unix epoch to the civil date `y`-`m`-`d`, proleptic
/// Gregorian.
pub open spec fn days_from_civil(y: int, m: int, d: int) -> int {
    let yy = if m <= 2 {
        y - 1
    } else {
        y
    };
    let era = yy / 400;
    let yoe = yy - era * 400;
    let mp = if m > 2 {
        m - 3
    } else {
        m + 9
    };
    let doy = (153 * mp + 2) / 5 + d - 1;
    let doe = yoe * 365 + yoe / 4 - yoe / 100 + doy;
    era * 146097 + doe - 719468
}

/// Seconds from the Unix epoch to the civil instant, UTC.
pub open spec fn epoch_of(y: int, m: int, d: int, h: int, mi: int, s: int) -> int {
    days_from_civil(y, m, d) * 86400 + h * 3600 + mi * 60 + s
}

/// Relies on chrono: `Utc.with_ymd_and_hms(..)` yields a single `DateTime`
/// exactly when the civil fields form a valid date and time of day (UTC never
/// has ambiguous local times), and `DateTime::timestamp` returns the non-leap
/// seconds since the Unix epoch of that instant, proleptic Gregorian.
#[verifier::external_body]
pub(crate) fn civil_to_epoch(year: i32, month: u32, day: u32, hour: u32, minute: u32, second: u32) -> (r:
    Option<i64>)
    requires
        0 <= year <= 9999,
    ensures
        r is Some <==> valid_civil(
            year as int,
            month as int,
            day as int,
            hour as int,
            minute as int,
            second as int,
        ),
        r is Some ==> r->0 == epoch_of(
            year as int,
            month as int,
            day as int,
            hour as int,
            minute as int,
            second as int,
        ),
{
    match chrono::TimeZone::with_ymd_and_hms(&chrono::Utc, year, month, day, hour, minute, second)
        .single() {
        Some(dt) => Some(dt.timestamp()),
        None => None,
    }
}

/// A decimal digit.
pub open spec fn is_digit(c: char) -> bool {
    48 <= c as u32 <= 57
}

/// Every character of `s` is a decimal digit.
pub open spec fn all_digits(s: Seq<char>) -> bool {
    forall|i: int| 0 <= i < s.len() ==> is_digit(#[trigger] s[i])
}

/// The value of a string of decimal digits, most significant first.
pub open spec fn digits_val(s: Seq<char>) -> int
    decreases s.len(),
{
    if s.len() == 0 {
        0
    } else {
        digits_val(s.drop_last()) * 10 + (s.last() as u32 - 48)
    }
}

/// A feed date literal with `Z` and `T` markers removed.
pub open spec fn spec_strip_markers(s: Seq<char>) -> Seq<char> {
    remove_char(remove_char(s, 'Z'), 'T')
}

/// The six civil fields denoted by a feed date literal: a 14-digit compact
/// date-time, or an 8-digit date with the time defaulted to midnight. Any
/// other length, or any non-digit character, denotes nothing.
pub open spec fn spec_datetime_fields(s: Seq<char>) -> Option<(int, int, int, int, int, int)> {
    let t = spec_strip_markers(s);
    if t.len() == 14 && all_digits(t) {
        Some(
            (
                digits_val(t.subrange(0, 4)),
                digits_val(t.subrange(4, 6)),
                digits_val(t.subrange(6, 8)),
                digits_val(t.subrange(8, 10)),
                digits_val(t.subrange(10, 12)),
                digits_val(t.subrange(12, 14)),
            ),
        )
    } else if t.len() == 8 && all_digits(t) {
        Some(
            (
                digits_val(t.subrange(0, 4)),
                digits_val(t.subrange(4, 6)),
                digits_val(t.subrange(6, 8)),
                0,
                0,
                0,
            ),
        )
    } else {
        None
    }
}

/// The instant denoted by a feed date literal, when its fields are a valid
/// civil date and time.
pub open spec fn spec_parse_datetime(s: Seq<char>) -> Option<int> {
    match spec_datetime_fields(s) {
        Option::None => Option::None,
        Option::Some((y, mo, d, h, mi, sec)) => if valid_civil(y, mo, d, h, mi, sec) {
            Option::Some(epoch_of(y, mo, d, h, mi, sec))
        } else {
            Option::None
        },
    }
}

/// Powers of ten.
pub open spec fn ten_pow(n: nat) -> int
    decreases n,
{
    if n == 0 {
        1
    } else {
        10 * ten_pow((n - 1) as nat)
    }
}

proof fn lemma_digits_val_bound(s: Seq<char>)
    requires
        all_digits(s),
    ensures
        0 <= digits_val(s) < ten_pow(s.len()),
    decreases s.len(),
{
    if s.len() > 0 {
        assert(forall|i: int|
            0 <= i < s.drop_last().len() ==> is_digit(#[trigger] s.drop_last()[i]));
        lemma_digits_val_bound(s.drop_last());
        assert(is_digit(s.last()));
    }
}

/// Reads the decimal value of `s[from..to]`; nothing when a non-digit occurs.
fn parse_digits(s: &str, from: usize, to: usize) -> (r: Option<u32>)
    requires
        from <= to <= s@.len(),
        to - from <= 4,
    ensures
        r is Some <==> all_digits(s@.subrange(from as int, to as int)),
        r is Some ==> r->0 as int == digits_val(s@.subrange(from as int, to as int)),
        r is Some ==> r->0 < 10000,
{
    let mut val: u32 = 0;
    let mut j: usize = from;
    proof {
        assert(s@.subrange(from as int, from as int) =~= Seq::<char>::empty());
    }
    while j < to
        invariant
            from <= j <= to <= s@.len(),
            to - from <= 4,
            all_digits(s@.subrange(from as int, j as int)),
            val as int == digits_val(s@.subrange(from as int, j as int)),
        decreases to - j,
    {
        let c = s.get_char(j);
        let cu = c as u32;
        if cu < 48 || cu > 57 {
            proof {
                assert(s@.subrange(from as int, to as int)[j - from as int] == s@[j as int]);
            }
            return None;
        }
        proof {
            lemma_digits_val_bound(s@.subrange(from as int, j as int));
            assert(ten_pow((j - from) as nat) <= 1000) by {
                assert(ten_pow(0) == 1);
                assert(ten_pow(1) == 10);
                assert(ten_pow(2) == 100);
                assert(ten_pow(3) == 1000);
            }
            assert(s@.subrange(from as int, j as int + 1).drop_last() =~= s@.subrange(
                from as int,
                j as int,
            ));
            assert(s@.subrange(from as int, j as int + 1).last() == s@[j as int]);
            assert(forall|i: int|
                0 <= i < j + 1 - from ==> #[trigger] s@.subrange(from as int, j as int + 1)[i]
                    == s@.subrange(from as int, j as int + 1)[i]);
            assert forall|i: int| 0 <= i < j + 1 - from implies is_digit(
                #[trigger] s@.subrange(from as int, j as int + 1)[i],
            ) by {
                if i < j - from {
                    assert(s@.subrange(from as int, j as int + 1)[i] == s@.subrange(
                        from as int,
                        j as int,
                    )[i]);
                } else {
                    assert(s@.subrange(from as int, j as int + 1)[i] == s@[j as int]);
                }
            }
        }
        val = val * 10 + (cu - 48);
        j = j + 1;
    }
    proof {
        assert(s@.subrange(from as int, to as int) =~= s@.subrange(from as int, j as int));
        lemma_digits_val_bound(s@.subrange(from as int, to as int));
        assert(ten_pow((to - from) as nat) <= 10000) by {
            assert(ten_pow(0) == 1);
            assert(ten_pow(1) == 10);
            assert(ten_pow(2) == 100);
            assert(ten_pow(3) == 1000);
            assert(ten_pow(4) == 10000);
        }
    }
    Some(val)
}

/// The exact text of the time-conversion error for a literal that denotes no
/// instant: a bad length names the offending literal, a non-numeric slice
/// names the offending field (first in reading order), and numeric fields
/// that form no real civil time name the combination.
pub open spec fn spec_datetime_error_message(s: Seq<char>) -> Seq<char> {
    let t = spec_strip_markers(s);
    if t.len() != 14 && t.len() != 8 {
        "Invalid datetime format"@ + ": "@ + s
    } else if !all_digits(t.subrange(0, 4)) {
        "Invalid year"@
    } else if !all_digits(t.subrange(4, 6)) {
        "Invalid month"@
    } else if !all_digits(t.subrange(6, 8)) {
        "Invalid day"@
    } else if t.len() == 14 && !all_digits(t.subrange(8, 10)) {
        "Invalid hour"@
    } else if t.len() == 14 && !all_digits(t.subrange(10, 12)) {
        "Invalid minute"@
    } else if t.len() == 14 && !all_digits(t.subrange(12, 14)) {
        "Invalid second"@
    } else {
        "Invalid date/time combination"@
    }
}

/// A non-digit somewhere in a slice of `t` is a non-digit in `t`.
proof fn lemma_subrange_not_all_digits(t: Seq<char>, from: int, to: int)
    requires
        0 <= from <= to <= t.len(),
        !all_digits(t.subrange(from, to)),
    ensures
        !all_digits(t),
{
    let sub = t.subrange(from, to);
    let i = choose|i: int| 0 <= i < sub.len() && !is_digit(sub[i]);
    assert(t[from + i] == sub[i]);
}

/// Parses a feed date literal into an instant: a 14-digit `YYYYMMDDHHMMSS`
/// form or an 8-digit `YYYYMMDD` form (time defaulted to midnight), with any
/// `Z` or `T` markers stripped first. A literal of any other shape, or one
/// denoting no real civil time, is a time-conversion error whose text names
/// what was wrong.
pub fn parse_ical_datetime(dt: &str) -> (r: Result<i64, CalendarError>)
    ensures
        spec_parse_datetime(dt@) is Some ==> (r matches Ok(ep) && ep as int == spec_parse_datetime(
            dt@,
        )->0),
        spec_parse_datetime(dt@) is None ==> (r matches Err(e) && e is TimeConversionError
            && e.spec_message() == spec_datetime_error_message(dt@)),
{
    let stripped = remove_char_str(dt, 'Z');
    let cleaned = remove_char_str(stripped.as_str(), 'T');
    let n = cleaned.as_str().unicode_len();
    if n != 14 && n != 8 {
        return Err(
            CalendarError::TimeConversionError(
                String::from_str("Invalid datetime format").concat(": ").concat(dt),
            ),
        );
    }
    let c = cleaned.as_str();
    let year = match parse_digits(c, 0, 4) {
        Some(v) => v,
        None => {
            proof {
                lemma_subrange_not_all_digits(c@, 0, 4);
            }
            return Err(CalendarError::TimeConversionError(String::from_str("Invalid year")));
        },
    };
    let month = match parse_digits(c, 4, 6) {
        Some(v) => v,
        None => {
            proof {
                lemma_subrange_not_all_digits(c@, 4, 6);
            }
            return Err(CalendarError::TimeConversionError(String::from_str("Invalid month")));
        },
    };
    let day = match parse_digits(c, 6, 8) {
        Some(v) => v,
        None => {
            proof {
                lemma_subrange_not_all_digits(c@, 6, 8);
            }
            return Err(CalendarError::TimeConversionError(String::from_str("Invalid day")));
        },
    };
    let (hour, minute, second) = if n == 14 {
        let h = match parse_digits(c, 8, 10) {
            Some(v) => v,
            None => {
                proof {
                    lemma_subrange_not_all_digits(c@, 8, 10);
                }
                return Err(CalendarError::TimeConversionError(String::from_str("Invalid hour")));
            },
        };
        let mi = match parse_digits(c, 10, 12) {
            Some(v) => v,
            None => {
                proof {
                    lemma_subrange_not_all_digits(c@, 10, 12);
                }
                return Err(CalendarError::TimeConversionError(String::from_str("Invalid minute")));
            },
        };
        let sec = match parse_digits(c, 12, 14) {
            Some(v) => v,
            None => {
                proof {
                    lemma_subrange_not_all_digits(c@, 12, 14);
                }
                return Err(CalendarError::TimeConversionError(String::from_str("Invalid second")));
            },
        };
        (h, mi, sec)
    } else {
        (0, 0, 0)
    };
    proof {
        let t = spec_strip_markers(dt@);
        assert(t == c@);
        if n == 14 {
            assert forall|i: int| 0 <= i < t.len() implies is_digit(#[trigger] t[i]) by {
                if i < 4 {
                    assert(t.subrange(0, 4)[i] == t[i]);
                } else if i < 6 {
                    assert(t.subrange(4, 6)[i - 4] == t[i]);
                } else if i < 8 {
                    assert(t.subrange(6, 8)[i - 6] == t[i]);
                } else if i < 10 {
                    assert(t.subrange(8, 10)[i - 8] == t[i]);
                } else if i < 12 {
                    assert(t.subrange(10, 12)[i - 10] == t[i]);
                } else {
                    assert(t.subrange(12, 14)[i - 12] == t[i]);
                }
            }
        } else {
            assert forall|i: int| 0 <= i < t.len() implies is_digit(#[trigger] t[i]) by {
                if i < 4 {
                    assert(t.subrange(0, 4)[i] == t[i]);
                } else if i < 6 {
                    assert(t.subrange(4, 6)[i - 4] == t[i]);
                } else {
                    assert(t.subrange(6, 8)[i - 6] == t[i]);
                }
            }
        }
        assert(all_digits(t));
        assert(spec_datetime_fields(dt@) == Some(
            (
                year as int,
                month as int,
                day as int,
                hour as int,
                minute as int,
                second as int,
            ),
        ));
    }
    match civil_to_epoch(year as i32, month, day, hour, minute, second) {
        Some(ep) => Ok(ep),
        None => Err(
            CalendarError::TimeConversionError(String::from_str("Invalid date/time combination")),
        ),
    }
}

} // verus!
