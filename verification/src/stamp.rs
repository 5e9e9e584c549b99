use chrono::{Datelike, Timelike};
use vstd::prelude::*;
use vstd::string::*;
use crate::numbers::{decimal, decimal_string, digit_char, digit_str};

verus! {

/// A moment in UTC, by its calendar and clock parts. `nanosecond` counts
/// from the start of the second; from 1,000,000,000 on it stands for a leap
/// second.
#[derive(Debug, Clone, Copy, PartialEq, Eq)]
pub struct UtcParts {
    pub year: i32,
    pub month: u32,
    pub day: u32,
    pub hour: u32,
    pub minute: u32,
    pub second: u32,
    pub nanosecond: u32,
}

/// Each part lies in the range of its calendar or clock field.
pub open spec fn parts_in_range(p: UtcParts) -> bool {
    &&& 1 <= p.month <= 12
    &&& 1 <= p.day <= 31
    &&& p.hour <= 23
    &&& p.minute <= 59
    &&& p.second <= 59
    &&& p.nanosecond < 2_000_000_000
}

/// Two decimal digits of a value below one hundred, the first one zero when
/// the value is below ten.
pub open spec fn two_digits(v: nat) -> Seq<char> {
    seq![digit_char(v / 10), digit_char(v % 10)]
}

/// `s` with zeros put before it until it is four characters long.
pub open spec fn zero_pad4(s: Seq<char>) -> Seq<char> {
    if s.len() >= 4 {
        s
    } else {
        Seq::new((4 - s.len()) as nat, |i: int| '0') + s
    }
}

/// The year as a time stamp writes it: four digits from year 0 to 9999;
/// outside that range a sign, then at least four digits.
pub open spec fn year_text(y: int) -> Seq<char> {
    if 0 <= y <= 9999 {
        zero_pad4(decimal(y as nat))
    } else if y > 9999 {
        seq!['+'] + decimal(y as nat)
    } else {
        seq!['-'] + zero_pad4(decimal((-y) as nat))
    }
}

/// The time stamp of a dump: `year-month-day_hour:minute:second`, each
/// part but the year in two digits; a leap second is written as second 60.
pub open spec fn stamp_text(p: UtcParts) -> Seq<char> {
    year_text(p.year as int) + "-"@ + two_digits(p.month as nat) + "-"@ + two_digits(p.day as nat)
        + "_"@ + two_digits(p.hour as nat) + ":"@ + two_digits(p.minute as nat) + ":"@ + two_digits(
        (p.second + p.nanosecond / 1_000_000_000) as nat,
    )
}

/// Reads the system clock the way `chrono::Utc::now()` does:
/// `std::time::SystemTime::now()`, then `duration_since(UNIX_EPOCH)`, as
/// whole seconds and the nanoseconds of the last second; none when the clock
/// reads before 1970, where `Utc::now()` panics. The reading depends on the
/// clock, so nothing is stated of it.
#[verifier::external_body]
pub(crate) fn clock_since_epoch() -> (r: Option<(u64, u32)>) {
    match std::time::SystemTime::now().duration_since(std::time::UNIX_EPOCH) {
        Ok(d) => Some((d.as_secs(), d.subsec_nanos())),
        Err(_) => None,
    }
}

/// The parts of the moment `secs` seconds and `nanos` nanoseconds after
/// 1970-01-01 00:00:00 UTC, as `chrono::DateTime::from_timestamp` makes it
/// and chrono's `Datelike` and `Timelike` accessors read it; none when
/// chrono finds the moment out of its range.
pub uninterp spec fn utc_parts_of(secs: int, nanos: int) -> Option<UtcParts>;

/// Calls `chrono::DateTime::from_timestamp` and reads the moment's parts
/// with chrono's accessors. The result depends on the arguments alone; of
/// the parts, only the ranges that chrono documents for its accessors are
/// stated: month 1 to 12, day 1 to 31, hour 0 to 23, minute and second 0 to
/// 59, and nanoseconds below 2,000,000,000 (a leap second above
/// 999,999,999).
#[verifier::external_body]
pub(crate) fn utc_parts_at(secs: i64, nanos: u32) -> (r: Option<UtcParts>)
    ensures
        r == utc_parts_of(secs as int, nanos as int),
        r matches Some(p) ==> parts_in_range(p),
{
    match chrono::DateTime::from_timestamp(secs, nanos) {
        Some(t) => Some(
            UtcParts {
                year: t.year(),
                month: t.month(),
                day: t.day(),
                hour: t.hour(),
                minute: t.minute(),
                second: t.second(),
                nanosecond: t.nanosecond(),
            },
        ),
        None => None,
    }
}

/// Two decimal digits of `v`.
fn two_digit_string(v: u32) -> (r: String)
    requires
        v < 100,
    ensures
        r@ == two_digits(v as nat),
{
    let r = String::from_str(digit_str((v / 10) as u64)).concat(digit_str((v % 10) as u64));
    assert(r@ =~= two_digits(v as nat));
    r
}

/// `s` with zeros put before it until it is four characters long.
fn zero_padded4(s: String) -> (r: String)
    ensures
        r@ == zero_pad4(s@),
{
    let n = s.as_str().unicode_len();
    if n >= 4 {
        return s;
    }
    proof {
        reveal_strlit("0");
    }
    let mut pad = String::new();
    let mut k: usize = n;
    while k < 4
        invariant
            n <= k <= 4,
            n == s@.len(),
            pad@ =~= Seq::new((k - n) as nat, |i: int| '0'),
        decreases 4 - k,
    {
        proof {
            reveal_strlit("0");
        }
        let ghost before = pad@;
        pad.append("0");
        assert(pad@ =~= before.push('0'));
        k = k + 1;
    }
    let r = pad.concat(s.as_str());
    assert(r@ =~= zero_pad4(s@));
    r
}

/// The year as a time stamp writes it.
fn year_string(y: i32) -> (r: String)
    ensures
        r@ == year_text(y as int),
{
    if 0 <= y && y <= 9999 {
        zero_padded4(decimal_string(y as u64))
    } else if y > 9999 {
        proof {
            reveal_strlit("+");
        }
        let r = String::from_str("+").concat(decimal_string(y as u64).as_str());
        assert(r@ =~= year_text(y as int));
        r
    } else {
        proof {
            reveal_strlit("-");
        }
        let magnitude: u64 = (0 - (y as i64)) as u64;
        let r = String::from_str("-").concat(zero_padded4(decimal_string(magnitude)).as_str());
        assert(r@ =~= year_text(y as int));
        r
    }
}

/// The time stamp of the moment `p`, as a dump file's name carries it.
pub fn time_stamp(p: &UtcParts) -> (r: String)
    requires
        parts_in_range(*p),
    ensures
        r@ == stamp_text(*p),
{
    let second = p.second + p.nanosecond / 1_000_000_000;
    let r = year_string(p.year).concat("-").concat(two_digit_string(p.month).as_str()).concat(
        "-",
    ).concat(two_digit_string(p.day).as_str()).concat("_").concat(
        two_digit_string(p.hour).as_str(),
    ).concat(":").concat(two_digit_string(p.minute).as_str()).concat(":").concat(
        two_digit_string(second).as_str(),
    );
    assert(r@ =~= stamp_text(*p));
    r
}

/// The time stamp of the moment `secs` seconds and `nanos` nanoseconds
/// after 1970-01-01 00:00:00 UTC; none when chrono cannot hold that moment,
/// or `secs` is beyond `i64`.
pub fn stamp_at(secs: u64, nanos: u32) -> (r: Option<String>)
    ensures
        match r {
            Some(st) => secs <= i64::MAX && (utc_parts_of(secs as int, nanos as int) matches Some(p) && parts_in_range(p)
                && st@ == stamp_text(p)),
            None => secs > i64::MAX || utc_parts_of(secs as int, nanos as int) is None,
        },
{
    if secs > i64::MAX as u64 {
        return None;
    }
    match utc_parts_at(secs as i64, nanos) {
        Some(p) => Some(time_stamp(&p)),
        None => None,
    }
}

} // verus!
