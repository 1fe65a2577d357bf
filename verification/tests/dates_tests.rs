use kasir_cache::dates::{format_dmy, Date, DateService};

fn d(year: u32, month: u32, day: u32) -> Date {
    Date { year, month, day }
}

#[test]
fn parse_canonical_dmy() {
    assert_eq!(DateService::parse_date("01/02/2024"), Ok(d(2024, 2, 1)));
    assert_eq!(DateService::parse_date("31/12/1999"), Ok(d(1999, 12, 31)));
}

#[test]
fn parse_iso_ymd() {
    assert_eq!(DateService::parse_date("2024-02-01"), Ok(d(2024, 2, 1)));
}

#[test]
fn parse_mdy_when_dmy_fails() {
    // 25 is no month, so DD/MM fails and MM/DD applies.
    assert_eq!(DateService::parse_date("02/25/2024"), Ok(d(2024, 2, 25)));
}

#[test]
fn parse_dmy_with_dashes() {
    assert_eq!(DateService::parse_date("15-03-2021"), Ok(d(2021, 3, 15)));
}

#[test]
fn parse_ymd_with_slashes() {
    assert_eq!(DateService::parse_date("2024/03/15"), Ok(d(2024, 3, 15)));
}

#[test]
fn parse_prefers_day_month_over_month_day() {
    // Ambiguous: both readings valid; DD/MM/YYYY is tried first.
    assert_eq!(DateService::parse_date("03/04/2024"), Ok(d(2024, 4, 3)));
}

#[test]
fn parse_rejects_junk() {
    assert!(DateService::parse_date("").is_err());
    assert!(DateService::parse_date("yesterday").is_err());
    assert!(DateService::parse_date("2024-13-01").is_err());
    assert!(DateService::parse_date("32/01/2024").is_err());
    assert!(DateService::parse_date("1/2/3/4").is_err());
    assert!(DateService::parse_date("01/02/24").is_err());
}

#[test]
fn parse_respects_leap_years() {
    assert_eq!(DateService::parse_date("29/02/2024"), Ok(d(2024, 2, 29)));
    assert!(DateService::parse_date("29/02/2023").is_err());
    assert!(DateService::parse_date("29/02/1900").is_err());
    assert_eq!(DateService::parse_date("29/02/2000"), Ok(d(2000, 2, 29)));
}

#[test]
fn normalize_pads_and_reorders() {
    assert_eq!(DateService::normalize_date_for_api("2024-02-01").unwrap(), "01/02/2024");
    assert_eq!(DateService::normalize_date_for_api("1/2/2024").unwrap(), "01/02/2024");
    assert!(DateService::normalize_date_for_api("not a date").is_err());
}

#[test]
fn format_canonical() {
    assert_eq!(format_dmy(&d(2024, 2, 1)), "01/02/2024");
    assert_eq!(format_dmy(&d(987, 11, 30)), "30/11/0987");
}

#[test]
fn date_range_inclusive_and_across_months() {
    let r = DateService::get_date_range("30/01/2024", "02/02/2024").unwrap();
    assert_eq!(r, vec!["30/01/2024", "31/01/2024", "01/02/2024", "02/02/2024"]);
}

#[test]
fn date_range_single_day_and_empty() {
    assert_eq!(DateService::get_date_range("05/05/2024", "05/05/2024").unwrap(), vec![
        "05/05/2024"
    ]);
    let empty = DateService::get_date_range("06/05/2024", "05/05/2024").unwrap();
    assert!(empty.is_empty());
}

#[test]
fn date_range_rejects_bad_bounds() {
    assert!(DateService::get_date_range("bad", "05/05/2024").is_err());
    assert!(DateService::get_date_range("05/05/2024", "bad").is_err());
}

#[test]
fn format_for_api_percent_encodes() {
    assert_eq!(DateService::format_for_api("2024-02-01").unwrap(), "01%2F02%2F2024");
    assert!(DateService::format_for_api("junk").is_err());
}

#[test]
fn successor_handles_rollovers() {
    assert_eq!(d(2024, 2, 28).succ(), d(2024, 2, 29));
    assert_eq!(d(2023, 2, 28).succ(), d(2023, 3, 1));
    assert_eq!(d(2024, 12, 31).succ(), d(2025, 1, 1));
}
