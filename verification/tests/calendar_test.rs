use bongo_cat::calendar::{
    date_from_days, date_text_of, day_number_of, days_in_month, format_year_field, get_current_week_dates,
    get_today_date, is_leap_year, month_dates, month_label, quarter_label, quarter_of,
    should_generate_monthly_summary, should_generate_quarterly_summary, should_generate_weekly_summary,
    should_generate_yearly_summary, week_dates, weekly_label, signed_day_number, date_of_day_number, day_text_of,
};

#[test]
fn leap_years_and_month_lengths() {
    assert!(is_leap_year(2000));
    assert!(!is_leap_year(1900));
    assert!(is_leap_year(2024));
    assert!(!is_leap_year(2023));
    assert_eq!(days_in_month(2024, 2), 29);
    assert_eq!(days_in_month(2023, 2), 28);
    assert_eq!(days_in_month(2024, 4), 30);
    assert_eq!(days_in_month(2024, 12), 31);
}

#[test]
fn day_numbers_and_dates_round_trip() {
    assert_eq!(date_from_days(0), (1970, 1, 1));
    assert_eq!(date_from_days(19723), (2024, 1, 1));
    assert_eq!(date_from_days(19782), (2024, 2, 29));
    for n in [0u64, 58, 59, 365, 10_000, 19_790, 30_000] {
        let (y, m, d) = date_from_days(n);
        assert_eq!(day_number_of(y, m as u32, d as u32), n);
    }
    assert_eq!(date_text_of(19790), "2024-03-08");
}

#[test]
fn today_is_computed_from_the_unix_time() {
    assert_eq!(get_today_date(0), "1970-01-01");
    assert_eq!(get_today_date(1709875200), "2024-03-08");
    assert_eq!(get_today_date(86399), "1970-01-01");
}

#[test]
fn summaries_are_due_at_period_ends() {
    assert!(should_generate_weekly_summary(6));
    assert!(!should_generate_weekly_summary(0));
    assert!(should_generate_monthly_summary(2024, 2, 29));
    assert!(!should_generate_monthly_summary(2024, 2, 28));
    assert!(should_generate_quarterly_summary(2024, 3, 31));
    assert!(!should_generate_quarterly_summary(2024, 2, 29));
    assert!(should_generate_yearly_summary(12, 31));
    assert!(!should_generate_yearly_summary(12, 30));
}

#[test]
fn a_due_yearly_summary_means_quarterly_and_monthly_are_due() {
    for year in [2023i64, 2024] {
        assert!(should_generate_yearly_summary(12, 31));
        assert!(should_generate_quarterly_summary(year, 12, 31));
        assert!(should_generate_monthly_summary(year, 12, 31));
    }
    for (m, d) in [(3u32, 31u32), (6, 30), (9, 30), (12, 31)] {
        assert!(should_generate_quarterly_summary(2024, m, d));
        assert!(should_generate_monthly_summary(2024, m, d));
    }
}

#[test]
fn period_labels() {
    assert_eq!(quarter_of(1), 1);
    assert_eq!(quarter_of(12), 4);
    assert_eq!(month_label(2024, 3), "2024-03");
    assert_eq!(quarter_label(2024, 3), "2024-Q1");
    assert_eq!(quarter_label(2024, 10), "2024-Q4");
    assert_eq!(weekly_label(2024, 3, 8, 4), "2024-W10");
    assert_eq!(weekly_label(2024, 1, 1, 0), "2024-W01");
    assert_eq!(weekly_label(2023, 1, 1, 6), "2023-W00");
    assert_eq!(format_year_field(2024), "2024");
    assert_eq!(format_year_field(-5), "-0005");
    assert_eq!(format_year_field(12345), "+12345");
}

#[test]
fn month_dates_cover_the_month() {
    let days = month_dates(2024, 2);
    assert_eq!(days.len(), 29);
    assert_eq!(days[0], "2024-02-01");
    assert_eq!(days[28], "2024-02-29");
    assert_eq!(month_dates(2023, 2).len(), 28);
}

#[test]
fn current_week_runs_monday_to_sunday() {
    let (start, end, label) = get_current_week_dates(2024, 3, 8);
    assert_eq!(start, "2024-03-04");
    assert_eq!(end, "2024-03-10");
    assert_eq!(label, "2024-W10");
    let (s2, e2, l2) = get_current_week_dates(2021, 1, 1);
    assert_eq!(s2, "2020-12-28");
    assert_eq!(e2, "2021-01-03");
    assert_eq!(l2, "2021-W53");
}

#[test]
fn a_week_has_its_seven_days_from_monday() {
    assert_eq!(
        week_dates(2024, 3, 8),
        vec!["2024-03-04", "2024-03-05", "2024-03-06", "2024-03-07", "2024-03-08", "2024-03-09", "2024-03-10"]
    );
    assert_eq!(
        week_dates(2020, 12, 31),
        vec!["2020-12-28", "2020-12-29", "2020-12-30", "2020-12-31", "2021-01-01", "2021-01-02", "2021-01-03"]
    );
    let (start, end, _) = get_current_week_dates(2024, 2, 29);
    let days = week_dates(2024, 2, 29);
    assert_eq!(days[0], start);
    assert_eq!(days[6], end);
    assert_eq!(days[5], "2024-03-02");
}

#[test]
fn weeks_before_1970_are_read_too() {
    assert_eq!(
        week_dates(1970, 1, 5),
        vec!["1970-01-05", "1970-01-06", "1970-01-07", "1970-01-08", "1970-01-09", "1970-01-10", "1970-01-11"]
    );
    assert_eq!(
        week_dates(1970, 1, 1),
        vec!["1969-12-29", "1969-12-30", "1969-12-31", "1970-01-01", "1970-01-02", "1970-01-03", "1970-01-04"]
    );
    let (start, end, label) = get_current_week_dates(1969, 7, 20);
    assert_eq!(start, "1969-07-14");
    assert_eq!(end, "1969-07-20");
    assert_eq!(label, "1969-W29");
    let (s0, e0, l0) = get_current_week_dates(1970, 1, 1);
    assert_eq!((s0.as_str(), e0.as_str(), l0.as_str()), ("1969-12-29", "1970-01-04", "1970-W01"));
}

#[test]
fn a_week_around_year_zero_has_signed_years() {
    // 0000-01-01 (proleptic Gregorian, a leap year) was a Saturday.
    let days = week_dates(0, 1, 1);
    assert_eq!(days[0], "-0001-12-27");
    assert_eq!(days[4], "-0001-12-31");
    assert_eq!(days[5], "0000-01-01");
    assert_eq!(days[6], "0000-01-02");
    let (_, end, label) = get_current_week_dates(0, 1, 1);
    assert_eq!(end, "0000-01-02");
    assert_eq!(label, "0000-W52");
}

#[test]
fn day_numbers_are_signed_before_1970() {
    assert_eq!(signed_day_number(1970, 1, 1), 0);
    assert_eq!(signed_day_number(1969, 12, 31), -1);
    assert_eq!(signed_day_number(1969, 1, 1), -365);
    assert_eq!(signed_day_number(2024, 3, 8), 19790);
    assert_eq!(date_of_day_number(-1), (1969, 12, 31));
    assert_eq!(date_of_day_number(-365), (1969, 1, 1));
    assert_eq!(date_of_day_number(19790), (2024, 3, 8));
    for n in [-800_000i64, -719_528, -1, 0, 59, 11_016, 2_932_896] {
        let (y, m, d) = date_of_day_number(n);
        assert_eq!(signed_day_number(y, m, d), n);
    }
    assert_eq!(day_text_of(-719_528), "0000-01-01");
    assert_eq!(day_text_of(2_932_897), "+10000-01-01");
}
