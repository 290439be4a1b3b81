use omatide::time::{civil_from_days, iso, mid_year, parse_iso, unix, year_of};

#[test]
fn unix_seconds_match_known_moments() {
    assert_eq!(unix(1970, 1, 1, 0, 0, 0), 0);
    assert_eq!(unix(2000, 1, 1, 12, 0, 0), 946_728_000);
    assert_eq!(unix(2026, 9, 20, 12, 0, 0), 1_789_905_600);
    assert_eq!(unix(1969, 12, 31, 23, 59, 59), -1);
    assert_eq!(unix(2024, 2, 29, 0, 0, 0), 1_709_164_800);
}

#[test]
fn a_time_written_is_a_time_read_back() {
    for t in [0, -1, 1_789_905_600, 951_782_400, -62_135_596_800, 253_402_300_799] {
        assert_eq!(parse_iso(&iso(t)), Some(t), "{t}");
    }
    assert_eq!(iso(1_789_905_600), "2026-09-20T12:00:00Z");
    assert_eq!(iso(-1), "1969-12-31T23:59:59Z");
}

#[test]
fn only_a_utc_time_is_read() {
    assert_eq!(parse_iso("2026-09-20T17:00:00Z"), Some(1_789_923_600));
    assert_eq!(parse_iso("2026-02-29T00:00:00Z"), None);
    assert_eq!(parse_iso("2024-02-29T00:00:00Z"), Some(1_709_164_800));
    assert_eq!(parse_iso("2026-09-20 17:00:00Z"), None);
    assert_eq!(parse_iso("2026-09-20T24:00:00Z"), None);
    assert_eq!(parse_iso("2026-09-20T17:00:00"), None);
    assert_eq!(parse_iso("0000-01-01T00:00:00Z"), None);
    assert_eq!(parse_iso("yesterday"), None);
}

#[test]
fn years_begin_at_midnight_on_new_years_day() {
    assert_eq!(year_of(unix(2026, 12, 31, 23, 59, 59)), 2026);
    assert_eq!(year_of(unix(2027, 1, 1, 0, 0, 0)), 2027);
    assert_eq!(year_of(-1), 1969);
    assert_eq!(mid_year(2026), unix(2026, 7, 2, 12, 0, 0));
    assert_eq!(civil_from_days(0), (1970, 1, 1));
    assert_eq!(civil_from_days(-1), (1969, 12, 31));
    assert_eq!(civil_from_days(20_716), (2026, 9, 20));
}
