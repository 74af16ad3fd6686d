//! Calendar fields and text of timestamps, as `chrono` computes them.

use vstd::prelude::*;
use chrono::Datelike;
use crate::storage::Timestamp;
use crate::text::dec_digits;
use chrono::Timelike;

verus! {

/// Earliest second `chrono` can represent (the start of year -262143).
pub open spec fn min_secs() -> int {
    -8334601315200
}

/// Latest second `chrono` can represent (the end of year 262142).
pub open spec fn max_secs() -> int {
    8210266876799
}

/// A timestamp that a `chrono::DateTime<Utc>` can hold (leap seconds aside).
pub open spec fn valid_ts(ts: Timestamp) -> bool {
    min_secs() <= ts.secs <= max_secs() && ts.nanos < 1_000_000_000
}

/// The proleptic Gregorian date (year, month, day) of the day `days`
/// days after 1970-01-01: days are counted in eras of 400 years
/// (146097 days) from 0000-03-01, and within an era by years that start on
/// 1 March, so that the leap day is the last day of its year.
pub open spec fn civil_from_days(days: int) -> (int, int, int) {
    let z = days + 719468;
    let era = z / 146097;
    let doe = z - era * 146097;
    let yoe = (doe - doe / 1460 + doe / 36524 - doe / 146096) / 365;
    let doy = doe - (365 * yoe + yoe / 4 - yoe / 100);
    let mp = (5 * doy + 2) / 153;
    let d = doy - (153 * mp + 2) / 5 + 1;
    let m = if mp < 10 { mp + 3 } else { mp - 9 };
    let y = yoe + era * 400 + if m <= 2 { 1int } else { 0int };
    (y, m, d)
}

/// Every date `civil_from_days` gives has a month from 1 to 12 and a day
/// from 1 to 31.
proof fn lemma_civil_ranges(days: int)
    ensures
        1 <= civil_from_days(days).1 <= 12,
        1 <= civil_from_days(days).2 <= 31,
{
    let z = days + 719468;
    let era = z / 146097;
    let doe = z - era * 146097;
    assert(0 <= doe < 146097);
    let yoe = (doe - doe / 1460 + doe / 36524 - doe / 146096) / 365;
    assert(0 <= yoe <= 399) by {
        let q1 = doe / 1460;
        let q4 = doe / 36524;
        let q5 = doe / 146096;
        assert(1460 * q1 <= doe < 1460 * q1 + 1460);
        assert(0 <= q4 <= 4);
        assert(doe == 146096 ==> q5 == 1 && q1 == 100 && q4 == 4);
        assert(doe < 146096 ==> q5 == 0);
        assert(q1 <= doe);
        assert(0 <= doe - q1 + q4 - q5 <= 145999);
    }
    let doy = doe - (365 * yoe + yoe / 4 - yoe / 100);
    assert(0 <= doy <= 365) by (nonlinear_arith)
        requires
            0 <= doe < 146097,
            yoe == (doe - doe / 1460 + doe / 36524 - doe / 146096) / 365,
            doy == doe - (365 * yoe + yoe / 4 - yoe / 100),
    ;
    let mp = (5 * doy + 2) / 153;
    assert(0 <= mp <= 11);
    let d = doy - (153 * mp + 2) / 5 + 1;
    assert(1 <= d <= 31) by (nonlinear_arith)
        requires
            0 <= doy <= 365,
            mp == (5 * doy + 2) / 153,
            d == doy - (153 * mp + 2) / 5 + 1,
    ;
}

/// The month of `utc_date` is from 1 to 12 and its day from 1 to 31.
pub proof fn lemma_utc_date_ranges(secs: i64, nanos: u32)
    ensures
        1 <= utc_date(secs, nanos).1 <= 12,
        1 <= utc_date(secs, nanos).2 <= 31,
{
    lemma_civil_ranges(secs as int / 86400);
}

/// Year, month and day of a timestamp in UTC: the date of the day the
/// second falls in (days start at multiples of 86400 seconds from the
/// epoch; the nanoseconds play no part).
pub open spec fn utc_date(secs: i64, nanos: u32) -> (i32, u32, u32) {
    let c = civil_from_days(secs as int / 86400);
    (c.0 as i32, c.1 as u32, c.2 as u32)
}

/// The decimal numeral of `n`, with leading zeros up to `width` digits.
pub open spec fn zero_padded(n: nat, width: nat) -> Seq<char> {
    let ds = dec_digits(n);
    if ds.len() >= width {
        ds
    } else {
        Seq::new((width - ds.len()) as nat, |i: int| '0') + ds
    }
}

/// A year as `%Y` writes it: four digits (zero-padded) from 0 to 9999,
/// else signed, with at least four digits after the sign.
pub open spec fn year_field(y: int) -> Seq<char> {
    if 0 <= y <= 9999 {
        zero_padded(y as nat, 4)
    } else if y > 9999 {
        seq!['+'] + zero_padded(y as nat, 4)
    } else {
        seq!['-'] + zero_padded((-y) as nat, 4)
    }
}

/// `YYYY-MM-DD HH:MM:SS` text of a timestamp in UTC: the date of
/// `utc_date`, then the hour, minute and second of the day, each field but
/// the year in two digits.
#[verifier::opaque]
pub open spec fn utc_text(secs: i64, nanos: u32) -> Seq<char> {
    let d = civil_from_days(secs as int / 86400);
    let t = secs as int % 86400;
    year_field(d.0) + seq!['-'] + zero_padded(d.1 as nat, 2) + seq!['-'] + zero_padded(d.2 as nat, 2)
        + seq![' '] + zero_padded((t / 3600) as nat, 2) + seq![':'] + zero_padded((t % 3600 / 60) as nat, 2)
        + seq![':'] + zero_padded((t % 60) as nat, 2)
}

/// The UTC calendar date of a timestamp (`DateTime::<Utc>::from_timestamp`,
/// then `Datelike::year`, `month` and `day`). Claimed: the proleptic
/// Gregorian date `utc_date` of the timestamp, which `chrono` uses.
#[verifier::external_body]
pub(crate) fn utc_date_of(ts: Timestamp) -> (r: (i32, u32, u32))
    requires
        valid_ts(ts),
    ensures
        r == utc_date(ts.secs, ts.nanos),
{
    let d = chrono::DateTime::from_timestamp(ts.secs, ts.nanos).unwrap();
    (d.year(), d.month(), d.day())
}

/// `YYYY-MM-DD HH:MM:SS` in UTC (`format("%Y-%m-%d %H:%M:%S")` on
/// `DateTime<Utc>`). Claimed: the text `utc_text` of the timestamp, which
/// is how `chrono` writes `%Y` (`write_year`: four zero-padded digits, a
/// sign outside 0 to 9999) and the two-digit fields; a valid timestamp has
/// no leap second.
#[verifier::external_body]
pub(crate) fn utc_string(ts: Timestamp) -> (r: String)
    requires
        valid_ts(ts),
    ensures
        r@ == utc_text(ts.secs, ts.nanos),
{
    chrono::DateTime::from_timestamp(ts.secs, ts.nanos).unwrap().format("%Y-%m-%d %H:%M:%S").to_string()
}

/// `text` is the `YYYY-MM-DD HH:MM:SS` text of `ts` in some time zone less
/// than a day away from UTC: the UTC text of the timestamp moved by the
/// zone's offset.
pub open spec fn local_text_ok(ts: Timestamp, text: Seq<char>) -> bool {
    exists|off: int| -86400 < off < 86400 && text == #[trigger] utc_text((ts.secs + off) as i64, ts.nanos)
}

/// `YYYY-MM-DD HH:MM:SS` in the machine's local time zone
/// (`with_timezone(&chrono::Local)` then `format`). Claimed: the text is
/// the UTC text moved by some offset of less than a day (a `FixedOffset`,
/// `east_opt`'s range); which offset depends on the time zone of the
/// machine and is left open. `format` writes the local date and time
/// (`overflowing_naive_local`), one day outside `chrono`'s range included.
#[verifier::external_body]
pub(crate) fn local_string(ts: Timestamp) -> (r: String)
    requires
        valid_ts(ts),
    ensures
        local_text_ok(ts, r@),
{
    chrono::DateTime::from_timestamp(ts.secs, ts.nanos).unwrap().with_timezone(&chrono::Local).format(
        "%Y-%m-%d %H:%M:%S",
    ).to_string()
}

/// Whether a timestamp is one `chrono` can hold.
pub fn is_valid_ts(ts: Timestamp) -> (r: bool)
    ensures
        r == valid_ts(ts),
{
    -8334601315200i64 <= ts.secs && ts.secs <= 8210266876799i64 && ts.nanos < 1_000_000_000u32
}

/// `ts` moved back by `days` whole days (`DateTime<Utc> - Duration::days`).
/// Claimed: the nanoseconds stay and the seconds drop by `86400 * days`;
/// `chrono` panics when the result leaves its range, which `requires`
/// rules out.
#[verifier::external_body]
pub(crate) fn days_before(ts: Timestamp, days: u32) -> (r: Timestamp)
    requires
        valid_ts(ts),
        ts.secs - 86400 * days >= min_secs(),
    ensures
        r.secs == ts.secs - 86400 * days,
        r.nanos == ts.nanos,
{
    let d = chrono::DateTime::from_timestamp(ts.secs, ts.nanos).unwrap() - chrono::Duration::days(
        days as i64,
    );
    Timestamp { secs: d.timestamp(), nanos: d.nanosecond() }
}

} // verus!
