use chrono::{DateTime, Duration, TimeZone, Utc};
use oxidarr::fuzzydate::parse_fuzzy;

/// `parse_fuzzy` against a `DateTime` clock, read back as a `DateTime`.
fn fuzzy(input: &str, now: DateTime<Utc>) -> Option<DateTime<Utc>> {
    parse_fuzzy(input, now.timestamp(), now.timestamp_subsec_nanos())
        .map(|s| DateTime::parse_from_rfc3339(&s).unwrap().with_timezone(&Utc))
}

fn now() -> DateTime<Utc> {
    Utc.with_ymd_and_hms(2026, 1, 15, 12, 0, 0).unwrap()
}

#[test]
fn parses_a_single_unit_ago() {
    assert_eq!(
        fuzzy("3 hours ago", now()),
        Some(Utc.with_ymd_and_hms(2026, 1, 15, 9, 0, 0).unwrap())
    );
}

#[test]
fn parses_a_chained_ago() {
    assert_eq!(
        fuzzy("1 day 2 hours ago", now()),
        Some(Utc.with_ymd_and_hms(2026, 1, 14, 10, 0, 0).unwrap())
    );
}

#[test]
fn parses_month_and_year_ago_with_the_documented_30_365_day_lengths() {
    assert_eq!(
        fuzzy("1 month ago", now()),
        Some(now() - Duration::days(30))
    );
    assert_eq!(
        fuzzy("1 year ago", now()),
        Some(now() - Duration::days(365))
    );
}

#[test]
fn parses_named_days_with_and_without_a_time() {
    assert_eq!(
        fuzzy("yesterday 08:15", now()),
        Some(Utc.with_ymd_and_hms(2026, 1, 14, 8, 15, 0).unwrap())
    );
    assert_eq!(
        fuzzy("Today at 10:32", now()),
        Some(Utc.with_ymd_and_hms(2026, 1, 15, 10, 32, 0).unwrap())
    );
    assert_eq!(
        fuzzy("tomorrow", now()),
        Some(Utc.with_ymd_and_hms(2026, 1, 16, 0, 0, 0).unwrap())
    );
    assert_eq!(
        fuzzy("today", now()),
        Some(Utc.with_ymd_and_hms(2026, 1, 15, 0, 0, 0).unwrap())
    );
}

#[test]
fn parses_a_bare_time_as_today() {
    assert_eq!(
        fuzzy("18:30", now()),
        Some(Utc.with_ymd_and_hms(2026, 1, 15, 18, 30, 0).unwrap())
    );
}

#[test]
fn parses_twelve_hour_times_with_am_pm_markers() {
    // Real corpus shapes (abtorrents.yml, 1337x.yml): a space or no
    // space before a lowercase am/pm marker.
    assert_eq!(
        fuzzy("yesterday 6:00 am", now()),
        Some(Utc.with_ymd_and_hms(2026, 1, 14, 6, 0, 0).unwrap())
    );
    assert_eq!(
        fuzzy("12:25am", now()),
        Some(Utc.with_ymd_and_hms(2026, 1, 15, 0, 25, 0).unwrap())
    );
}

#[test]
fn parses_month_name_dates() {
    assert_eq!(
        fuzzy("Mar 02 2025", now()),
        Some(Utc.with_ymd_and_hms(2025, 3, 2, 0, 0, 0).unwrap())
    );
    assert_eq!(
        fuzzy("02 Mar", now()),
        Some(Utc.with_ymd_and_hms(2026, 3, 2, 0, 0, 0).unwrap())
    );
}

#[test]
fn junk_does_not_parse() {
    assert_eq!(fuzzy("soon™", now()), None);
    assert_eq!(fuzzy("", now()), None);
    assert_eq!(fuzzy("   ", now()), None);
}

#[test]
fn absurdly_large_ago_counts_do_not_panic() {
    // Adversarial input: a count large enough to overflow chrono's
    // TimeDelta bounds must fall through to `None` (junk), not panic.
    assert_eq!(fuzzy("999999999999 days ago", now()), None);
    assert_eq!(fuzzy("9223372036854775807 months ago", now()), None);
}

#[test]
fn strips_a_trailing_utc_offset_and_converts_to_utc() {
    // Corpus shape (miobt.yml): 今天/昨天 are replaced with
    // Today/Yesterday, then `append " +08:00"` (the tracker's fixed
    // local zone) runs immediately before `fuzzytime`, producing
    // exactly this string. The day/time is resolved as if already in
    // that offset's local frame, then converted to UTC by subtracting
    // the offset.
    assert_eq!(
        fuzzy("Today 00:35 +08:00", now()),
        Some(Utc.with_ymd_and_hms(2026, 1, 14, 16, 35, 0).unwrap())
    );
}

#[test]
fn named_day_resolution_uses_the_offset_local_date_not_utc_now_s_date() {
    // Boundary case: at 20:00 UTC, +08:00 local time has already
    // rolled over to the next calendar day (2026-01-16). "Today" in
    // that local frame must resolve against 2026-01-16, not against
    // `now`'s own UTC date (2026-01-15) — otherwise the result is off
    // by a day for roughly a third of every day (any UTC hour from
    // 16:00 through 23:59 for a +08:00 offset).
    let clock_near_local_midnight = Utc.with_ymd_and_hms(2026, 1, 15, 20, 0, 0).unwrap();
    assert_eq!(
        fuzzy("Today 00:35 +08:00", clock_near_local_midnight),
        Some(Utc.with_ymd_and_hms(2026, 1, 15, 16, 35, 0).unwrap())
    );
}
