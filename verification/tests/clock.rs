use dbui_ui::clock::{civil_from_days, format_utc, now_utc, reading_utc};

#[test]
fn the_epoch_is_the_first_of_january() {
    assert_eq!(format_utc(0, false), "1970-01-01 00:00:00");
    assert_eq!(format_utc(0, true), "1970-01-01");
}

#[test]
fn seconds_become_a_wall_clock() {
    // 2023-11-14T22:13:20Z -- a round number with every field non-zero.
    assert_eq!(format_utc(1_700_000_000, false), "2023-11-14 22:13:20");
}

#[test]
fn a_leap_day_is_the_day_it_says() {
    assert_eq!(format_utc(951_782_400, true), "2000-02-29");
    assert_eq!(format_utc(1_709_164_800, true), "2024-02-29");
    // 1900 was not a leap year; the day after 1900-02-28 is March.
    assert_eq!(format_utc(-2_203_891_200, true), "1900-03-01");
}

#[test]
fn a_timestamp_before_the_epoch_still_lands_on_a_real_date() {
    assert_eq!(format_utc(-1, false), "1969-12-31 23:59:59");
    assert_eq!(format_utc(-86_400, false), "1969-12-31 00:00:00");
}

#[test]
fn now_is_shaped_like_a_timestamp() {
    let stamp = now_utc(false);
    assert_eq!(stamp.len(), 19, "{stamp}");
    assert_eq!(now_utc(true).len(), 10);
    // Anything this side of 2001 means the clock, not the formatter.
    assert!(stamp.starts_with("20"), "{stamp}");
}

#[test]
fn a_clock_before_the_epoch_reads_as_the_epoch() {
    assert_eq!(reading_utc(None, false), "1970-01-01 00:00:00");
    assert_eq!(reading_utc(Some(1_700_000_000), true), "2023-11-14");
}

#[test]
fn days_become_dates_across_month_and_year_ends() {
    assert_eq!(civil_from_days(0), (1970, 1, 1));
    assert_eq!(civil_from_days(-1), (1969, 12, 31));
    assert_eq!(civil_from_days(59), (1970, 3, 1));
    assert_eq!(civil_from_days(-719_468), (0, 3, 1));
    assert_eq!(civil_from_days(-719_469), (0, 2, 29));
}

#[test]
fn a_year_before_the_first_keeps_its_sign_in_four_places() {
    let year_minus_one = -719_468 - 366;
    assert_eq!(format_utc(year_minus_one * 86_400, true), "-001-03-01");
}

#[test]
fn timestamps_sort_as_their_seconds_do() {
    let seconds: [i64; 9] = [
        -62_167_219_200, -2_203_891_200, -86_400, -1, 0, 59, 3_600, 1_700_000_000, 253_402_300_799,
    ];
    for pair in seconds.windows(2) {
        assert!(format_utc(pair[0], false) < format_utc(pair[1], false));
        assert!(format_utc(pair[0], true) <= format_utc(pair[1], true));
    }
    assert_eq!(format_utc(seconds[0], false), "0000-01-01 00:00:00");
    assert_eq!(format_utc(seconds[8], false), "9999-12-31 23:59:59");
}
