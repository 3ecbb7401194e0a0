use crate::text::{push_char, push_zero_padded, zero_padded};
use vstd::prelude::*;

verus! {

/// Gregorian leap years.
pub open spec fn is_leap_year(y: int) -> bool {
    y % 4 == 0 && (y % 100 != 0 || y % 400 == 0)
}

/// Length of month `m` (1 to 12) of year `y`.
pub open spec fn days_in_month(y: int, m: int) -> int {
    if m == 2 {
        if is_leap_year(y) {
            29
        } else {
            28
        }
    } else if m == 4 || m == 6 || m == 9 || m == 11 {
        30
    } else {
        31
    }
}

/// Days in the years before year `y`, counted from the start of year 0.
pub open spec fn days_before_year(y: nat) -> nat
    decreases y,
{
    if y == 0 {
        0
    } else {
        days_before_year((y - 1) as nat) + (if is_leap_year(y - 1) {
            366nat
        } else {
            365nat
        })
    }
}

/// Days in the months of year `y` before month `m`.
pub open spec fn days_before_month(y: nat, m: nat) -> nat
    decreases m,
{
    if m <= 1 {
        0
    } else {
        days_before_month(y, (m - 1) as nat) + days_in_month(y as int, m - 1) as nat
    }
}

/// Days from 1970-01-01 to the date `y`-`m`-`d`.
pub open spec fn days_since_epoch(y: nat, m: nat, d: nat) -> int {
    days_before_year(y) + days_before_month(y, m) + d - 1 - days_before_year(1970)
}

/// `(y, m, d)` is a calendar date `days` days after 1970-01-01.
pub open spec fn is_date_of(days: nat, y: nat, m: nat, d: nat) -> bool {
    &&& 1 <= m <= 12
    &&& 1 <= d <= days_in_month(y as int, m as int)
    &&& days_since_epoch(y, m, d) == days
}

spec fn closed_days_before_year(y: int) -> int {
    365 * y + (y + 3) / 4 - (y + 99) / 100 + (y + 399) / 400
}

#[verifier::spinoff_prover]
proof fn lemma_days_before_year_closed(y: nat)
    ensures
        days_before_year(y) == closed_days_before_year(y as int),
    decreases y,
{
    if y > 0 {
        lemma_days_before_year_closed((y - 1) as nat);
    }
}

proof fn lemma_days_before_year_era(e: nat, r: nat)
    ensures
        days_before_year(400 * e + r) == 146097 * e + days_before_year(r),
{
    lemma_days_before_year_closed(400 * e + r);
    lemma_days_before_year_closed(r);
    assert(closed_days_before_year((400 * e + r) as int) == 146097 * e + closed_days_before_year(r as int))
        by (nonlinear_arith);
}



/// The March-based day of year `doy` of the 400-year-era day `doe`, and the
/// month index `mp` (March is 0) it falls in.
proof fn lemma_era_facts(doe: u64)
    requires
        doe < 146097,
    ensures
        ({
            let yoe = (doe - doe / 1460 + doe / 36524 - doe / 146096) / 365;
            let doy = doe - (365 * yoe + yoe / 4 - yoe / 100);
            let mp = (5 * doy + 2) / 153;
            &&& yoe <= 399
            &&& 365 * yoe + yoe / 4 - yoe / 100 <= doe
            &&& doy <= 364 || (doy == 365 && is_leap_year(yoe + 1))
            &&& mp <= 11
            &&& (153 * mp + 2) / 5 <= doy
            &&& doy < (153 * (mp + 1) + 2) / 5
        }),
{
    assert({
        let yoe = (doe - doe / 1460 + doe / 36524 - doe / 146096) / 365;
        yoe <= 399 && 365 * yoe + yoe / 4 - yoe / 100 <= doe
    }) by (bit_vector)
        requires
            doe < 146097,
    ;
    assert({
        let yoe = (doe - doe / 1460 + doe / 36524 - doe / 146096) / 365;
        let doy = doe - (365 * yoe + yoe / 4 - yoe / 100);
        doy <= 364 || (doy == 365 && (yoe + 1) % 4 == 0 && ((yoe + 1) % 100 != 0 || (yoe + 1) % 400
            == 0))
    }) by (bit_vector)
        requires
            doe < 146097,
    ;
    let yoe = (doe - doe / 1460 + doe / 36524 - doe / 146096) / 365;
    let doy = doe - (365 * yoe + yoe / 4 - yoe / 100);
    let d64: u64 = doy as u64;
    assert({
        let mp = (5 * d64 + 2) / 153;
        mp <= 11 && (153 * mp + 2) / 5 <= d64 && d64 < (153 * (mp + 1) + 2) / 5
    }) by (bit_vector)
        requires
            d64 <= 365,
    ;
}

/// Leap-year counting over one 400-year era.
proof fn lemma_leap_count(yoe: u64)
    requires
        yoe <= 399,
    ensures
        (yoe + 3) / 4 - (yoe + 99) / 100 + (yoe + 399) / 400 + (if is_leap_year(yoe as int) {
            1int
        } else {
            0int
        }) == yoe / 4 - yoe / 100 + 1,
{
    assert({
        let lp: int = if yoe % 4 == 0 && (yoe % 100 != 0 || yoe % 400 == 0) {
            1
        } else {
            0
        };
        (yoe + 3) / 4 - (yoe + 99) / 100 + (yoe + 399) / 400 + lp == yoe / 4 - yoe / 100 + 1
    }) by (bit_vector)
        requires
            yoe <= 399,
    ;
}

/// Leap years repeat every 400 years.
proof fn lemma_leap_era(e: int, r: int)
    requires
        e >= 0,
        r >= 0,
    ensures
        is_leap_year(400 * e + r) == is_leap_year(r),
{
    assert((400 * e + r) % 4 == r % 4 && (400 * e + r) % 100 == r % 100 && (400 * e + r) % 400
        == r % 400) by (nonlinear_arith)
        requires
            e >= 0,
            r >= 0,
    ;
}

proof fn lemma_month_days_era(e: nat, r: nat, m: nat)
    ensures
        days_before_month(400 * e + r, m) == days_before_month(r, m),
    decreases m,
{
    lemma_leap_era(e as int, r as int);
    if m > 1 {
        lemma_month_days_era(e, r, (m - 1) as nat);
    }
}

/// The era arithmetic of `days_to_ymd` lands on the calendar date
/// `doe` days after March 1st of year 0 of the era.
proof fn lemma_era_day(doe: u64)
    requires
        doe < 146097,
    ensures
        ({
            let yoe = (doe - doe / 1460 + doe / 36524 - doe / 146096) / 365;
            let doy = doe - (365 * yoe + yoe / 4 - yoe / 100);
            let mp = (5 * doy + 2) / 153;
            let d = doy - (153 * mp + 2) / 5 + 1;
            let m = if mp < 10 {
                mp + 3
            } else {
                mp - 9
            };
            let yy = if m <= 2 {
                yoe + 1
            } else {
                yoe
            };
            &&& yoe <= 399
            &&& 0 <= doy <= 365
            &&& mp <= 11
            &&& 1 <= m <= 12
            &&& 1 <= d <= days_in_month(yy, m)
            &&& days_before_year(yy as nat) + days_before_month(yy as nat, m as nat) + d - 1 == doe
                + 60
        }),
{
    lemma_era_facts(doe);
    let yoe = (doe - doe / 1460 + doe / 36524 - doe / 146096) / 365;
    let doy = doe - (365 * yoe + yoe / 4 - yoe / 100);
    let mp = (5 * doy + 2) / 153;
    let d = doy - (153 * mp + 2) / 5 + 1;
    let m = if mp < 10 {
        mp + 3
    } else {
        mp - 9
    };
    let yy = if m <= 2 {
        yoe + 1
    } else {
        yoe
    };
    lemma_leap_count(yoe as u64);
    lemma_days_before_year_closed(yoe as nat);
    lemma_days_before_year_closed((yoe + 1) as nat);
    reveal_with_fuel(days_before_month, 13);
    assert(days_before_year(yy as nat) + days_before_month(yy as nat, m as nat) + d - 1 == doe + 60);
}

/// Days from 0000-01-01 to 1970-01-01.
proof fn lemma_epoch_offset()
    ensures
        days_before_year(1970) == 719528,
{
    lemma_days_before_year_closed(1970);
}

/// The calendar date `days` days after 1970-01-01 (days ≥ 0), as
/// (year, month, day).
pub fn days_to_ymd(days: u64) -> (r: (u64, u64, u64))
    requires
        days <= u64::MAX - 719468,
    ensures
        is_date_of(days as nat, r.0 as nat, r.1 as nat, r.2 as nat),
{
    // Civil-from-days over 400-year eras (146097 days each), counting from
    // March 1st of year 0 so that the leap day ends the year.
    let days = days + 719468;
    let era = days / 146097;
    let doe = days - era * 146097;
    let yoe = (doe - doe / 1460 + doe / 36524 - doe / 146096) / 365;
    proof {
        lemma_era_day(doe);
    }
    let y = yoe + era * 400;
    let doy = doe - (365 * yoe + yoe / 4 - yoe / 100);
    let mp = (5 * doy + 2) / 153;
    let d = doy - (153 * mp + 2) / 5 + 1;
    let m = if mp < 10 {
        mp + 3
    } else {
        mp - 9
    };
    let y = if m <= 2 {
        y + 1
    } else {
        y
    };
    proof {
        let yy: int = if m <= 2 {
            yoe + 1
        } else {
            yoe as int
        };
        lemma_days_before_year_era(era as nat, yy as nat);
        lemma_month_days_era(era as nat, yy as nat, m as nat);
        lemma_leap_era(era as int, yy);
        lemma_epoch_offset();
        assert(y == 400 * era + yy);
    }
    (y, m, d)
}

/// `YYYY-MM-DDTHH:MM:SSZ` for the UTC time `secs` seconds after the epoch,
/// given the date it falls on.
pub open spec fn timestamp_text(secs: nat, y: nat, m: nat, d: nat) -> Seq<char> {
    let t = secs % 86400;
    zero_padded(y, 4) + seq!['-'] + zero_padded(m, 2) + seq!['-'] + zero_padded(d, 2) + seq!['T']
        + zero_padded(t / 3600, 2) + seq![':'] + zero_padded((t % 3600) / 60, 2) + seq![':']
        + zero_padded(t % 60, 2) + seq!['Z']
}

/// The ISO 8601 UTC timestamp of `secs` seconds after the epoch.
pub open spec fn is_timestamp_of(secs: nat, text: Seq<char>) -> bool {
    exists|y: nat, m: nat, d: nat|
        is_date_of(secs / 86400, y, m, d) && text == timestamp_text(secs, y, m, d)
}

/// Formats `secs` seconds after the epoch as `YYYY-MM-DDTHH:MM:SSZ` (UTC).
pub fn format_utc_timestamp(secs: u64) -> (r: String)
    ensures
        is_timestamp_of(secs as nat, r@),
{
    let days = secs / 86400;
    let time_secs = secs % 86400;
    let hours = time_secs / 3600;
    let mins = (time_secs % 3600) / 60;
    let s = time_secs % 60;
    let (year, month, day) = days_to_ymd(days);
    let mut out = String::new();
    push_zero_padded(&mut out, year, 4);
    push_char(&mut out, '-');
    push_zero_padded(&mut out, month, 2);
    push_char(&mut out, '-');
    push_zero_padded(&mut out, day, 2);
    push_char(&mut out, 'T');
    push_zero_padded(&mut out, hours, 2);
    push_char(&mut out, ':');
    push_zero_padded(&mut out, mins, 2);
    push_char(&mut out, ':');
    push_zero_padded(&mut out, s, 2);
    push_char(&mut out, 'Z');
    assert(out@ =~= timestamp_text(secs as nat, year as nat, month as nat, day as nat));
    out
}

#[verifier::external_type_specification]
#[verifier::external_body]
pub struct ExSystemTime(std::time::SystemTime);

/// The system clock's current time (std's `SystemTime::now`). Nothing is
/// promised of it.
#[verifier::external_body]
fn system_now() -> std::time::SystemTime {
    std::time::SystemTime::now()
}

#[verifier::external_type_specification]
#[verifier::external_body]
pub struct ExSystemTimeError(std::time::SystemTimeError);

/// The time from the Unix epoch to `t` (std's `SystemTime::duration_since`
/// with `UNIX_EPOCH`); an error when `t` is earlier than the epoch.
/// Nothing is promised of the duration, which comes from the clock.
#[verifier::external_body]
fn duration_since_epoch(t: &std::time::SystemTime) -> Result<core::time::Duration, std::time::SystemTimeError> {
    t.duration_since(std::time::UNIX_EPOCH)
}

/// The whole seconds of `d` (std's `Duration::as_secs`). Nothing is
/// stated of the number, as nothing is stated of durations.
#[verifier::external_body]
fn whole_secs(d: &core::time::Duration) -> u64 {
    d.as_secs()
}

/// Whole seconds from the Unix epoch to `t`; 0 when `t` is earlier than
/// the epoch.
fn secs_since_epoch(t: &std::time::SystemTime) -> u64 {
    match duration_since_epoch(t) {
        Ok(d) => whole_secs(&d),
        Err(_) => 0,
    }
}

/// `text` is the ISO 8601 UTC timestamp of some second after the epoch.
pub open spec fn is_utc_timestamp(text: Seq<char>) -> bool {
    exists|secs: nat| is_timestamp_of(secs, text)
}

/// The current UTC time as `YYYY-MM-DDTHH:MM:SSZ`.
pub fn chrono_now() -> (r: String)
    ensures
        is_utc_timestamp(r@),
{
    let now = system_now();
    let secs = secs_since_epoch(&now);
    format_utc_timestamp(secs)
}

} // verus!
