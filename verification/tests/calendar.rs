use tescellate_ui::calendar::{civil_from_days, date_text, time_of_day, time_text};

fn date(days: i64) -> String {
    let (y, m, d) = civil_from_days(days);
    date_text(y, m, d)
}

#[test]
fn day_zero_is_the_epoch() {
    assert_eq!(civil_from_days(0), (1970, 1, 1));
    assert_eq!(date(0), "1970-01-01");
}

#[test]
fn a_month_then_a_year_after_the_epoch() {
    assert_eq!(date(31), "1970-02-01");
    assert_eq!(date(365), "1971-01-01");
}

#[test]
fn the_leap_day_of_1972() {
    assert_eq!(civil_from_days(789), (1972, 2, 29));
    assert_eq!(civil_from_days(790), (1972, 3, 1));
}

#[test]
fn days_before_the_epoch_run_negative() {
    assert_eq!(date(-1), "1969-12-31");
    assert_eq!(civil_from_days(-719_468), (0, 3, 1));
}

#[test]
fn century_years_are_leap_only_every_four_hundred() {
    // 2000-02-29 exists; 1900-02-29 and 2100-02-29 do not.
    assert_eq!(civil_from_days(11_016), (2000, 2, 29));
    assert_eq!(civil_from_days(-25_508), (1900, 3, 1));
    assert_eq!(civil_from_days(-25_509), (1900, 2, 28));
    assert_eq!(civil_from_days(47_541), (2100, 3, 1));
    assert_eq!(civil_from_days(47_540), (2100, 2, 28));
}

#[test]
fn dates_before_year_zero_keep_their_sign() {
    let (y, m, d) = civil_from_days(-800_000);
    assert!(y < 0);
    assert_eq!(date_text(y, m, d), format!("-{:03}-{:02}-{:02}", -y, m, d));
    assert_eq!(date_text(-1, 12, 31), "-001-12-31");
}

#[test]
fn clock_times_of_day_seconds() {
    assert_eq!(time_of_day(0), (0, 0, 0));
    assert_eq!(time_of_day(43_200), (12, 0, 0));
    assert_eq!(time_of_day(61), (0, 1, 1));
    assert_eq!(time_of_day(86_400), (0, 0, 0));
    assert_eq!(time_text(6, 5, 9), "06:05:09");
    assert_eq!(time_text(18, 0, 0), "18:00:00");
}
