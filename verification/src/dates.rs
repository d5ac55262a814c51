//! Reading and writing the dates stored with videos and log lines.

use vstd::prelude::*;
use chrono::{Datelike, Timelike};
use vstd::utf8::encode_utf8;
use crate::text::{contains, contains_seq, decimal_seq, digit_char, occurs_at};
use crate::video::DownloadDate;

verus! {

/// How download dates are written: `2024-01-31 09:05:07 PM`.
pub const DOWNLOAD_DATE_FORMAT: &'static str = "%Y-%m-%d %I:%M:%S %p";

/// An ISO date and time without zone: `2024-01-31T21:05:07`.
pub const ISO_DATE_TIME_FORMAT: &'static str = "%Y-%m-%dT%H:%M:%S";

/// A bare date: `2024-01-31`.
pub const DATE_FORMAT: &'static str = "%Y-%m-%d";

/// How log lines are stamped: `2024-01-31 09:05:07.123456789 PM`.
pub const LOG_TIME_FORMAT: &'static str = "%Y-%m-%d %I:%M:%S%.f %p";

/// `n` in exactly `w` decimal digits (its last `w` digits, zero-padded).
pub open spec fn fixed_digits(n: nat, w: nat) -> Seq<char>
    decreases w,
{
    if w == 0 {
        Seq::empty()
    } else {
        fixed_digits(n / 10, (w - 1) as nat).push(digit_char(n % 10))
    }
}

/// A year as `%Y` writes it: four digits for years 0 to 9999, else a sign
/// and at least four digits.
pub open spec fn year_text(y: int) -> Seq<char> {
    if 0 <= y <= 9999 {
        fixed_digits(y as nat, 4)
    } else if y > 9999 {
        "+"@ + decimal_seq(y as nat)
    } else if -y <= 9999 {
        "-"@ + fixed_digits((-y) as nat, 4)
    } else {
        "-"@ + decimal_seq((-y) as nat)
    }
}

/// The hour on a twelve-hour clock, 1 to 12.
pub open spec fn hour12(h: u32) -> nat {
    if h % 12 == 0 {
        12
    } else {
        (h % 12) as nat
    }
}

/// The text of `d` in the download date format (`%Y-%m-%d %I:%M:%S %p`).
pub open spec fn download_date_text(d: DownloadDate) -> Seq<char> {
    year_text(d.year as int) + "-"@ + fixed_digits(d.month as nat, 2) + "-"@ + fixed_digits(
        d.day as nat,
        2,
    ) + " "@ + fixed_digits(hour12(d.hour), 2) + ":"@ + fixed_digits(d.minute as nat, 2) + ":"@
        + fixed_digits(d.second as nat, 2) + " "@ + if d.hour >= 12 {
        "PM"@
    } else {
        "AM"@
    }
}

/// The date part `%Y-%m-%d` of `d`.
pub open spec fn date_text(d: DownloadDate) -> Seq<char> {
    year_text(d.year as int) + "-"@ + fixed_digits(d.month as nat, 2) + "-"@ + fixed_digits(
        d.day as nat,
        2,
    )
}

/// `AM` before noon, `PM` from noon on (`%p`).
pub open spec fn am_pm_text(d: DownloadDate) -> Seq<char> {
    if d.hour >= 12 {
        "PM"@
    } else {
        "AM"@
    }
}

/// The text of `d` in the ISO format (`%Y-%m-%dT%H:%M:%S`).
pub open spec fn iso_date_time_text(d: DownloadDate) -> Seq<char> {
    date_text(d) + "T"@ + fixed_digits(d.hour as nat, 2) + ":"@ + fixed_digits(d.minute as nat, 2)
        + ":"@ + fixed_digits(d.second as nat, 2)
}

/// The fraction of a second as `%.f` writes it: nothing for none, else a
/// point and three, six or nine digits, the fewest that hold it exactly.
pub open spec fn fraction_text(nanos: u32) -> Seq<char> {
    if nanos == 0 {
        Seq::empty()
    } else if nanos % 1_000_000 == 0 {
        "."@ + fixed_digits((nanos / 1_000_000) as nat, 3)
    } else if nanos % 1000 == 0 {
        "."@ + fixed_digits((nanos / 1000) as nat, 6)
    } else {
        "."@ + fixed_digits(nanos as nat, 9)
    }
}

/// The text of `d` in the log time format (`%Y-%m-%d %I:%M:%S%.f %p`).
pub open spec fn log_time_text(d: DownloadDate) -> Seq<char> {
    date_text(d) + " "@ + fixed_digits(hour12(d.hour), 2) + ":"@ + fixed_digits(d.minute as nat, 2)
        + ":"@ + fixed_digits(d.second as nat, 2) + fraction_text(d.nanosecond) + " "@ + am_pm_text(
        d,
    )
}

/// No character of `s` is a `T`.
pub open spec fn has_no_t(s: Seq<char>) -> bool {
    forall|i: int| 0 <= i < s.len() ==> #[trigger] s[i] != 'T'
}

proof fn lemma_fixed_digits(n: nat, w: nat)
    ensures
        fixed_digits(n, w).len() == w,
        has_no_t(fixed_digits(n, w)),
    decreases w,
{
    if w > 0 {
        lemma_fixed_digits(n / 10, (w - 1) as nat);
        let prev = fixed_digits(n / 10, (w - 1) as nat);
        assert forall|i: int| 0 <= i < fixed_digits(n, w).len() implies #[trigger] fixed_digits(n, w)[i] != 'T' by {
            if i < prev.len() {
                assert(fixed_digits(n, w)[i] == prev[i]);
            } else {
                assert(fixed_digits(n, w)[i] == digit_char(n % 10));
                assert((n % 10 + 48) as char != 'T');
            }
        }
    }
}

proof fn lemma_decimal_no_t(n: nat)
    ensures
        1 <= decimal_seq(n).len() <= n + 1,
        has_no_t(decimal_seq(n)),
    decreases n,
{
    if n < 10 {
        assert(decimal_seq(n)[0] == digit_char(n));
        assert((n + 48) as char != 'T');
    } else {
        lemma_decimal_no_t(n / 10);
        let prev = decimal_seq(n / 10);
        assert forall|i: int| 0 <= i < decimal_seq(n).len() implies #[trigger] decimal_seq(n)[i] != 'T' by {
            if i < prev.len() {
                assert(decimal_seq(n)[i] == prev[i]);
            } else {
                assert(decimal_seq(n)[i] == digit_char(n % 10));
                assert((n % 10 + 48) as char != 'T');
            }
        }
    }
}

proof fn lemma_concat_no_t(a: Seq<char>, b: Seq<char>)
    requires
        has_no_t(a),
        has_no_t(b),
    ensures
        has_no_t(a + b),
{
    assert forall|i: int| 0 <= i < (a + b).len() implies #[trigger] (a + b)[i] != 'T' by {
        if i < a.len() {
            assert((a + b)[i] == a[i]);
        } else {
            assert((a + b)[i] == b[i - a.len()]);
        }
    }
}

proof fn lemma_encode_utf8_len(s: Seq<char>)
    ensures
        s.len() <= encode_utf8(s).len() <= 4 * s.len(),
    decreases s.len(),
{
    if s.len() > 0 {
        lemma_encode_utf8_len(s.drop_first());
    }
}

proof fn lemma_year_text(y: int)
    ensures
        4 <= year_text(y).len(),
        -10_000_000_000 < y < 10_000_000_000 ==> year_text(y).len() <= 11,
        has_no_t(year_text(y)),
{
    reveal_strlit("+");
    reveal_strlit("-");
    if 0 <= y <= 9999 {
        lemma_fixed_digits(y as nat, 4);
    } else if y > 9999 {
        lemma_decimal_no_t(y as nat);
        if y < 10_000_000_000 {
            assert(ten_pow(10) == 10_000_000_000) by {
                reveal_with_fuel(ten_pow, 11);
            }
            lemma_decimal_short(y as nat, 10);
        }
        lemma_concat_no_t("+"@, decimal_seq(y as nat));
        assert(decimal_seq(y as nat).len() >= 4) by {
            lemma_decimal_long(y as nat);
        }
    } else if -y <= 9999 {
        lemma_fixed_digits((-y) as nat, 4);
        lemma_concat_no_t("-"@, fixed_digits((-y) as nat, 4));
    } else {
        lemma_decimal_no_t((-y) as nat);
        if -y < 10_000_000_000 {
            assert(ten_pow(10) == 10_000_000_000) by {
                reveal_with_fuel(ten_pow, 11);
            }
            lemma_decimal_short((-y) as nat, 10);
        }
        lemma_concat_no_t("-"@, decimal_seq((-y) as nat));
        assert(decimal_seq((-y) as nat).len() >= 4) by {
            lemma_decimal_long((-y) as nat);
        }
    }
}

spec fn ten_pow(k: nat) -> nat
    decreases k,
{
    if k == 0 {
        1
    } else {
        10 * ten_pow((k - 1) as nat)
    }
}

proof fn lemma_decimal_short(n: nat, k: nat)
    requires
        k >= 1,
        n < ten_pow(k),
    ensures
        decimal_seq(n).len() <= k,
    decreases k,
{
    if n >= 10 {
        assert(k >= 2) by {
            if k == 1 {
                assert(ten_pow(1) == 10 * ten_pow(0));
            }
        }
        assert(ten_pow(k) == 10 * ten_pow((k - 1) as nat));
        lemma_decimal_short(n / 10, (k - 1) as nat);
    }
}

proof fn lemma_decimal_long(n: nat)
    requires
        n >= 1000,
    ensures
        decimal_seq(n).len() >= 4,
{
    lemma_decimal_no_t(n / 10);
    lemma_decimal_no_t(n / 100);
    lemma_decimal_no_t(n / 1000);
    assert(decimal_seq(n).len() == decimal_seq(n / 10).len() + 1);
    assert(decimal_seq(n / 10).len() == decimal_seq(n / 10 / 10).len() + 1);
    assert(n / 10 / 10 == n / 100);
    assert(decimal_seq(n / 100).len() == decimal_seq(n / 100 / 10).len() + 1);
}

/// The download date format's text is never taken for a bare date or an
/// ISO date and time: it is read back in the download date format.
pub proof fn law_download_text_kind(d: DownloadDate)
    ensures
        download_date_kind_of(download_date_text(d)) == StoredDateKind::DownloadDateTime,
{
    reveal_strlit("-");
    reveal_strlit(":");
    reveal_strlit(" ");
    reveal_strlit("AM");
    reveal_strlit("PM");
    reveal_strlit("T");
    let t = download_date_text(d);
    lemma_year_text(d.year as int);
    lemma_fixed_digits(d.month as nat, 2);
    lemma_fixed_digits(d.day as nat, 2);
    lemma_fixed_digits(hour12(d.hour), 2);
    lemma_fixed_digits(d.minute as nat, 2);
    lemma_fixed_digits(d.second as nat, 2);
    let ampm = if d.hour >= 12 {
        "PM"@
    } else {
        "AM"@
    };
    assert(has_no_t(ampm));
    assert(has_no_t("-"@) && has_no_t(":"@) && has_no_t(" "@));
    let p1 = year_text(d.year as int) + "-"@;
    lemma_concat_no_t(year_text(d.year as int), "-"@);
    let p2 = p1 + fixed_digits(d.month as nat, 2);
    lemma_concat_no_t(p1, fixed_digits(d.month as nat, 2));
    let p3 = p2 + "-"@;
    lemma_concat_no_t(p2, "-"@);
    let p4 = p3 + fixed_digits(d.day as nat, 2);
    lemma_concat_no_t(p3, fixed_digits(d.day as nat, 2));
    let p5 = p4 + " "@;
    lemma_concat_no_t(p4, " "@);
    let p6 = p5 + fixed_digits(hour12(d.hour), 2);
    lemma_concat_no_t(p5, fixed_digits(hour12(d.hour), 2));
    let p7 = p6 + ":"@;
    lemma_concat_no_t(p6, ":"@);
    let p8 = p7 + fixed_digits(d.minute as nat, 2);
    lemma_concat_no_t(p7, fixed_digits(d.minute as nat, 2));
    let p9 = p8 + ":"@;
    lemma_concat_no_t(p8, ":"@);
    let p10 = p9 + fixed_digits(d.second as nat, 2);
    lemma_concat_no_t(p9, fixed_digits(d.second as nat, 2));
    let p11 = p10 + " "@;
    lemma_concat_no_t(p10, " "@);
    lemma_concat_no_t(p11, ampm);
    assert(t == p11 + ampm);
    assert(t.len() >= 22);
    assert(t.len() <= 40);
    lemma_encode_utf8_len(t);
    if contains_seq(t, "T"@) {
        let i = choose|i: int| occurs_at(t, "T"@, i);
        assert(t.subrange(i, i + 1)[0] == t[i]);
        assert(false);
    }
}

/// The date and time that `s` spells in the `strftime`-style format `fmt`.
pub uninterp spec fn chrono_parse_date_time(s: Seq<char>, fmt: Seq<char>) -> Option<DownloadDate>;

/// Trusted: `chrono::NaiveDateTime::parse_from_str`, its result taken
/// field by field. The contract names the result, and states one fact that
/// chrono's parser shows (`format/parse.rs`: `%Y` reads up to four digits or
/// a signed number, `%m %d %I %M %S` two digits each, `%p` sets the half of
/// the day, spaces and literals match themselves): the text that the
/// download date format writes for a valid date and time with no fraction of
/// a second is read back as that date and time.
#[verifier::external_body]
fn parse_date_time(s: &str, fmt: &str) -> (r: Option<DownloadDate>)
    ensures
        r == chrono_parse_date_time(s@, fmt@),
        forall|d: DownloadDate|
            fmt@ == DOWNLOAD_DATE_FORMAT@ && valid_date_time(d) && d.nanosecond == 0 && s@
                == #[trigger] download_date_text(d) ==> r == Some(d),
{
    let t = chrono::NaiveDateTime::parse_from_str(s, fmt).ok()?;
    Some(DownloadDate {
        year: t.year(),
        month: t.month(),
        day: t.day(),
        hour: t.hour(),
        minute: t.minute(),
        second: t.second(),
        nanosecond: t.nanosecond(),
    })
}

/// The calendar date (year, month, day) that `s` spells in the format `fmt`.
pub uninterp spec fn chrono_parse_date(s: Seq<char>, fmt: Seq<char>) -> Option<(i32, u32, u32)>;

/// Trusted: `chrono::NaiveDate::parse_from_str`, its result taken field by
/// field. The contract only names the result.
#[verifier::external_body]
fn parse_date(s: &str, fmt: &str) -> (r: Option<(i32, u32, u32)>)
    ensures
        r == chrono_parse_date(s@, fmt@),
{
    let d = chrono::NaiveDate::parse_from_str(s, fmt).ok()?;
    Some((d.year(), d.month(), d.day()))
}

/// A leap year of the proleptic Gregorian calendar.
pub open spec fn is_leap_year(y: int) -> bool {
    y % 4 == 0 && (y % 100 != 0 || y % 400 == 0)
}

/// The number of days of month `m` of year `y`.
pub open spec fn days_in_month(y: int, m: int) -> int {
    if m == 2 {
        if is_leap_year(y) {
            29
        } else {
            28
        }
    } else if m == 4 || m == 6 || m == 9 || m == 11 {
        30
    } else {
        31
    }
}

/// `d` is a date and time that `chrono` can represent: a year within its
/// range, a real calendar day, and a time of day (with a leap second's
/// nanoseconds only in second 59).
pub open spec fn valid_date_time(d: DownloadDate) -> bool {
    &&& -262143 <= d.year <= 262142
    &&& 1 <= d.month <= 12
    &&& 1 <= d.day <= days_in_month(d.year as int, d.month as int)
    &&& d.hour < 24
    &&& d.minute < 60
    &&& d.second < 60
    &&& d.nanosecond < 2_000_000_000
    &&& (d.nanosecond < 1_000_000_000 || d.second == 59)
}

/// The text of the valid date and time `d` in the format `fmt`.
pub uninterp spec fn chrono_format_text(d: DownloadDate, fmt: Seq<char>) -> Seq<char>;

/// The text of `d` in the format `fmt`, where `d` is valid.
pub open spec fn chrono_format(d: DownloadDate, fmt: Seq<char>) -> Option<Seq<char>> {
    if valid_date_time(d) {
        Some(chrono_format_text(d, fmt))
    } else {
        None
    }
}

/// The formats this library writes dates in; `chrono` fails (and
/// `to_string` panics) only on malformed formats, which these are not.
pub open spec fn known_format(fmt: Seq<char>) -> bool {
    fmt == DOWNLOAD_DATE_FORMAT@ || fmt == ISO_DATE_TIME_FORMAT@ || fmt == LOG_TIME_FORMAT@
}

/// Trusted: `chrono::NaiveDate::from_ymd_opt(..)?.and_hms_nano_opt(..)?`,
/// then `NaiveDateTime::format(fmt)`. The contract states when the first two
/// give a value (as their source and documentation show: a year within
/// `chrono`'s range, a real calendar day, a time of day) and names the
/// formatted text. For each of the three formats it also states the text,
/// as chrono's formatter writes it (`format/formatting.rs`: `%Y` as four
/// zero-padded digits for years 0 to 9999 and signed otherwise, the other
/// fields as two zero-padded digits, `%p` as `AM` or `PM`, `%.f` as a point
/// and three, six or nine digits or nothing), where the time is not a leap
/// second.
#[verifier::external_body]
fn format_date_time(d: DownloadDate, fmt: &str) -> (r: Option<String>)
    requires
        known_format(fmt@),
    ensures
        r is Some <==> valid_date_time(d),
        r matches Some(t) ==> t@ == chrono_format_text(d, fmt@),
        r matches Some(t) ==> (fmt@ == DOWNLOAD_DATE_FORMAT@ && d.nanosecond < 1_000_000_000
            ==> t@ == download_date_text(d)),
        r matches Some(t) ==> (fmt@ == ISO_DATE_TIME_FORMAT@ && d.nanosecond < 1_000_000_000
            ==> t@ == iso_date_time_text(d)),
        r matches Some(t) ==> (fmt@ == LOG_TIME_FORMAT@ && d.nanosecond < 1_000_000_000 ==> t@
            == log_time_text(d)),
{
    let t = chrono::NaiveDate::from_ymd_opt(d.year, d.month, d.day)?.and_hms_nano_opt(
        d.hour,
        d.minute,
        d.second,
        d.nanosecond,
    )?;
    Some(format!("{}", t.format(fmt)))
}

/// Why a stored date could not be read.
#[derive(Debug, Clone, Copy, PartialEq, Eq, Structural)]
pub enum DateError {
    Invalid,
}

/// Midnight of a calendar date.
pub open spec fn midnight(d: Option<(i32, u32, u32)>) -> Option<DownloadDate> {
    match d {
        Some((year, month, day)) => Some(
            DownloadDate { year, month, day, hour: 0, minute: 0, second: 0, nanosecond: 0 },
        ),
        None => None,
    }
}

/// How a stored date is written.
#[derive(Debug, Clone, Copy, PartialEq, Eq, Structural)]
pub enum StoredDateKind {
    /// A bare date, `DATE_FORMAT`: read as midnight.
    BareDate,
    /// `ISO_DATE_TIME_FORMAT`.
    IsoDateTime,
    /// `DOWNLOAD_DATE_FORMAT`.
    DownloadDateTime,
}

/// A stored download date of ten bytes is a bare date; one with a `T` is an
/// ISO date and time; anything else is in the download date format.
pub open spec fn download_date_kind_of(s: Seq<char>) -> StoredDateKind {
    if encode_utf8(s).len() as usize == 10 {
        StoredDateKind::BareDate
    } else if contains_seq(s, "T"@) {
        StoredDateKind::IsoDateTime
    } else {
        StoredDateKind::DownloadDateTime
    }
}

/// How the stored download date `s` is written.
pub fn download_date_kind(s: &str) -> (r: StoredDateKind)
    ensures
        r == download_date_kind_of(s@),
{
    if s.len() == 10 {
        StoredDateKind::BareDate
    } else if contains(s, "T") {
        StoredDateKind::IsoDateTime
    } else {
        StoredDateKind::DownloadDateTime
    }
}

/// The date `s` spells, written as `kind` says.
pub open spec fn date_of_kind(s: Seq<char>, kind: StoredDateKind) -> Option<DownloadDate> {
    match kind {
        StoredDateKind::BareDate => midnight(chrono_parse_date(s, DATE_FORMAT@)),
        StoredDateKind::IsoDateTime => chrono_parse_date_time(s, ISO_DATE_TIME_FORMAT@),
        StoredDateKind::DownloadDateTime => chrono_parse_date_time(s, DOWNLOAD_DATE_FORMAT@),
    }
}

fn parse_of_kind(s: &str, kind: StoredDateKind) -> (r: Result<DownloadDate, DateError>)
    ensures
        r is Ok <==> date_of_kind(s@, kind) is Some,
        r matches Ok(d) ==> date_of_kind(s@, kind) == Some(d),
        forall|d: DownloadDate|
            kind == StoredDateKind::DownloadDateTime && valid_date_time(d) && d.nanosecond == 0 && s@
                == #[trigger] download_date_text(d) ==> r == Ok::<DownloadDate, DateError>(d),
{
    let parsed = match kind {
        StoredDateKind::BareDate => match parse_date(s, DATE_FORMAT) {
            Some((year, month, day)) => Some(
                DownloadDate { year, month, day, hour: 0, minute: 0, second: 0, nanosecond: 0 },
            ),
            None => None,
        },
        StoredDateKind::IsoDateTime => parse_date_time(s, ISO_DATE_TIME_FORMAT),
        StoredDateKind::DownloadDateTime => parse_date_time(s, DOWNLOAD_DATE_FORMAT),
    };
    match parsed {
        Some(d) => Ok(d),
        None => Err(DateError::Invalid),
    }
}

/// A stored download date, read as its kind says.
pub open spec fn download_date_of(s: Seq<char>) -> Option<DownloadDate> {
    date_of_kind(s, download_date_kind_of(s))
}

/// Reads a stored download date.
/// Reads what `format_download_date` writes back: for a valid date and time
/// that is not a leap second, the written text is read as the same date and
/// time without its fraction of a second.
pub fn parse_download_date(s: &str) -> (r: Result<DownloadDate, DateError>)
    ensures
        r is Ok <==> download_date_of(s@) is Some,
        r matches Ok(d) ==> download_date_of(s@) == Some(d),
        forall|d: DownloadDate|
            valid_date_time(d) && d.nanosecond < 1_000_000_000 && s@ == #[trigger] download_date_text(d)
                ==> r == Ok::<DownloadDate, DateError>(DownloadDate { nanosecond: 0, ..d }),
{
    let kind = download_date_kind(s);
    let r = parse_of_kind(s, kind);
    proof {
        assert forall|d: DownloadDate|
            valid_date_time(d) && d.nanosecond < 1_000_000_000 && s@ == #[trigger] download_date_text(d)
                implies r == Ok::<DownloadDate, DateError>(DownloadDate { nanosecond: 0, ..d }) by {
            let d0 = DownloadDate { nanosecond: 0, ..d };
            assert(download_date_text(d0) == download_date_text(d));
            law_download_text_kind(d);
        }
    }
    r
}

/// Writes a download date in the download date format.
pub fn format_download_date(d: DownloadDate) -> (r: Option<String>)
    ensures
        r.deep_view() == chrono_format(d, DOWNLOAD_DATE_FORMAT@),
        valid_date_time(d) && d.nanosecond < 1_000_000_000 ==> (r matches Some(t) && t@
            == download_date_text(d)),
{
    format_date_time(d, DOWNLOAD_DATE_FORMAT)
}

/// A date of the older seen-videos file of ten bytes is a bare date;
/// anything else is an ISO date and time.
pub open spec fn seen_video_date_kind_of(s: Seq<char>) -> StoredDateKind {
    if encode_utf8(s).len() as usize == 10 {
        StoredDateKind::BareDate
    } else {
        StoredDateKind::IsoDateTime
    }
}

/// How the date `s` of the older seen-videos file is written.
pub fn seen_video_date_kind(s: &str) -> (r: StoredDateKind)
    ensures
        r == seen_video_date_kind_of(s@),
{
    if s.len() == 10 {
        StoredDateKind::BareDate
    } else {
        StoredDateKind::IsoDateTime
    }
}

/// A date of the older seen-videos file, read as its kind says.
pub open spec fn seen_video_date_of(s: Seq<char>) -> Option<DownloadDate> {
    date_of_kind(s, seen_video_date_kind_of(s))
}

/// Reads a date of the older seen-videos file.
pub fn parse_seen_video_date(s: &str) -> (r: Result<DownloadDate, DateError>)
    ensures
        r is Ok <==> seen_video_date_of(s@) is Some,
        r matches Ok(d) ==> seen_video_date_of(s@) == Some(d),
{
    parse_of_kind(s, seen_video_date_kind(s))
}

/// Writes a date of the older seen-videos file (ISO date and time).
pub fn format_seen_video_date(d: DownloadDate) -> (r: Option<String>)
    ensures
        r.deep_view() == chrono_format(d, ISO_DATE_TIME_FORMAT@),
        valid_date_time(d) && d.nanosecond < 1_000_000_000 ==> (r matches Some(t) && t@
            == iso_date_time_text(d)),
{
    format_date_time(d, ISO_DATE_TIME_FORMAT)
}

/// Writes the time stamp of a log line.
pub fn format_log_time(d: DownloadDate) -> (r: Option<String>)
    ensures
        r.deep_view() == chrono_format(d, LOG_TIME_FORMAT@),
        valid_date_time(d) && d.nanosecond < 1_000_000_000 ==> (r matches Some(t) && t@
            == log_time_text(d)),
{
    format_date_time(d, LOG_TIME_FORMAT)
}

} // verus!
