//! Calendar calls into `chrono`: timestamps from RFC 3339 text, dates from
//! `YYYY-MM-DD` text, and local-time text for display.
use vstd::prelude::*;
use chrono::Datelike;

verus! {

/// Whether `chrono::DateTime::from_timestamp` accepts these seconds: chrono's
/// dates run from January 1, 262144 BCE (-262143-01-01T00:00:00Z) to
/// December 31, 262142 CE (262142-12-31T23:59:59Z).
pub open spec fn utc_timestamp_supported(secs: int) -> bool {
    -8_334_601_228_800 <= secs <= 8_210_266_876_799
}

/// The patterns the app formats local times with.
pub open spec fn display_pattern(p: Seq<char>) -> bool {
    ||| p == "重置  %-m 月 %-d 日 %H:%M"@
    ||| p == "%-m 月 %-d 日 %H:%M"@
    ||| p == "%Y-%m-%d"@
    ||| p == "%H:%M"@
    ||| p == "%-m月%-d日"@
}

/// The text that chrono's `format(pattern)` gives for the wall-clock time
/// `local_secs` seconds after 1970-01-01 00:00, with no time zone in it.
pub uninterp spec fn naive_format(local_secs: int, pattern: Seq<char>) -> Seq<char>;

/// `text` is the time `secs` shown with `pattern` in a time zone less than
/// a day away from UTC.
pub open spec fn shown_at(text: Seq<char>, secs: int, pattern: Seq<char>) -> bool {
    exists|z: int| -86_400 < z < 86_400 && text == #[trigger] naive_format(secs + z, pattern)
}

/// `text` is there exactly when chrono can represent `secs`, and then shows
/// `secs` with `pattern` in the local time zone.
pub open spec fn local_text_fits(text: Option<String>, secs: int, pattern: Seq<char>) -> bool {
    &&& (text is Some <==> utc_timestamp_supported(secs))
    &&& (text matches Some(t) ==> shown_at(t@, secs, pattern))
}

/// `DateTime::from_timestamp(secs, 0)`, shown in the local time zone with
/// `format(pattern)`.
///
/// Trusted: chrono's source returns `None` exactly for seconds outside its
/// range, and formatting with these patterns cannot fail. The local time
/// zone is a fixed offset of less than a day (chrono's `FixedOffset`), and
/// none of these patterns shows the offset itself, so the text is the
/// wall-clock time `secs` plus that offset, formatted; which offset depends
/// on the machine and is left unsaid.
#[verifier::external_body]
pub(crate) fn local_time_text(secs: i64, pattern: &str) -> (r: Option<String>)
    requires
        display_pattern(pattern@),
    ensures
        r is Some <==> utc_timestamp_supported(secs as int),
        r matches Some(t) ==> exists|z: int|
            -86_400 < z < 86_400 && t@ == #[trigger] naive_format(secs as int + z, pattern@),
{
    chrono::DateTime::from_timestamp(secs, 0).map(
        |value| value.with_timezone(&chrono::Local).format(pattern).to_string(),
    )
}

/// The (year, month, day) that `NaiveDate::parse_from_str(text, pattern)`
/// reads, or `None` when it rejects the text.
pub uninterp spec fn parsed_date(text: Seq<char>, pattern: Seq<char>) -> Option<(int, int, int)>;

/// `NaiveDate::parse_from_str`, read as (year, month, day).
///
/// Trusted: the result is named `parsed_date` of the text and pattern;
/// chrono documents that a parsed date has a month in 1..=12 and a day in
/// 1..=31.
#[verifier::external_body]
pub(crate) fn parse_date(text: &str, pattern: &str) -> (r: Option<(i32, u32, u32)>)
    ensures
        match r {
            Some((y, m, d)) => parsed_date(text@, pattern@) == Some((y as int, m as int, d as int))
                && 1 <= m <= 12 && 1 <= d <= 31,
            None => parsed_date(text@, pattern@) is None,
        },
{
    chrono::NaiveDate::parse_from_str(text, pattern).ok().map(
        |date| (date.year(), date.month(), date.day()),
    )
}

/// The Unix seconds that `DateTime::parse_from_rfc3339` reads from the
/// text, or `None` when it rejects the text.
pub uninterp spec fn rfc3339_seconds(text: Seq<char>) -> Option<int>;

/// `DateTime::parse_from_rfc3339(text)`, read as Unix seconds.
///
/// Trusted: the result is named `rfc3339_seconds` of the text.
#[verifier::external_body]
pub(crate) fn parse_rfc3339_seconds(text: &str) -> (r: Option<i64>)
    ensures
        match r {
            Some(t) => rfc3339_seconds(text@) == Some(t as int),
            None => rfc3339_seconds(text@) is None,
        },
{
    chrono::DateTime::parse_from_rfc3339(text).ok().map(|value| value.timestamp())
}

} // verus!
