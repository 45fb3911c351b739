use finance_core::date::{
    add_days, calculate_next_execution_date, date_le, days_in_month_exec, is_leap_year_exec,
    parse_frequency, Date, Frequency,
};

fn d(year: i32, month: u8, day: u8) -> Date {
    Date { year, month, day }
}

#[test]
fn leap_years() {
    assert!(is_leap_year_exec(2024));
    assert!(!is_leap_year_exec(1900));
    assert!(is_leap_year_exec(2000));
    assert!(!is_leap_year_exec(2023));
    assert_eq!(days_in_month_exec(2024, 2), 29);
    assert_eq!(days_in_month_exec(2023, 2), 28);
    assert_eq!(days_in_month_exec(2024, 1), 31);
    assert_eq!(days_in_month_exec(2024, 4), 30);
}

#[test]
fn day_stepping() {
    assert_eq!(add_days(d(2024, 12, 30), 5), d(2025, 1, 4));
    assert_eq!(add_days(d(2024, 2, 28), 1), d(2024, 2, 29));
    assert_eq!(add_days(d(2023, 2, 28), 1), d(2023, 3, 1));
    assert_eq!(add_days(d(2024, 3, 1), -1), d(2024, 2, 29));
    assert_eq!(add_days(d(2024, 1, 15), 0), d(2024, 1, 15));
}

#[test]
fn calendar_order() {
    assert!(date_le(d(2024, 1, 15), d(2024, 1, 15)));
    assert!(date_le(d(2024, 1, 15), d(2024, 1, 16)));
    assert!(date_le(d(2024, 1, 31), d(2024, 2, 1)));
    assert!(!date_le(d(2025, 1, 1), d(2024, 12, 31)));
}

#[test]
fn frequency_parsing() {
    assert_eq!(parse_frequency(&"daily".to_string()), Frequency::Daily);
    assert_eq!(parse_frequency(&"weekly".to_string()), Frequency::Weekly);
    assert_eq!(parse_frequency(&"monthly".to_string()), Frequency::Monthly);
    assert_eq!(parse_frequency(&"yearly".to_string()), Frequency::Yearly);
    assert_eq!(parse_frequency(&"fortnightly".to_string()), Frequency::Other);
}

#[test]
fn monthly_clamps_to_day_28() {
    // a monthly payment anchored at day 31 lands on the 28th of the next month
    let r = calculate_next_execution_date(Frequency::Monthly, 1, Some(31), d(2024, 1, 15));
    assert_eq!(r, d(2024, 2, 28));
}

#[test]
fn monthly_without_anchor_uses_clamped_current_day() {
    let r = calculate_next_execution_date(Frequency::Monthly, 1, None, d(2024, 1, 31));
    assert_eq!(r, d(2024, 2, 28));
    let r2 = calculate_next_execution_date(Frequency::Monthly, 1, None, d(2024, 1, 10));
    assert_eq!(r2, d(2024, 2, 10));
}

#[test]
fn monthly_carries_the_year() {
    let r = calculate_next_execution_date(Frequency::Monthly, 13, Some(10), d(2024, 1, 15));
    assert_eq!(r, d(2025, 2, 10));
}

#[test]
fn monthly_bad_anchor_falls_back_thirty_days() {
    let r = calculate_next_execution_date(Frequency::Monthly, 1, Some(0), d(2024, 1, 15));
    assert_eq!(r, d(2024, 2, 14));
}

#[test]
fn yearly_leap_day_falls_back_365_days() {
    // a yearly payment from a leap day falls back to 365 plain days ahead
    let r = calculate_next_execution_date(Frequency::Yearly, 1, None, d(2024, 2, 29));
    assert_eq!(r, d(2025, 2, 28));
}

#[test]
fn yearly_plain_advance() {
    let r = calculate_next_execution_date(Frequency::Yearly, 2, None, d(2024, 3, 10));
    assert_eq!(r, d(2026, 3, 10));
}

#[test]
fn daily_weekly_and_unknown() {
    assert_eq!(
        calculate_next_execution_date(Frequency::Daily, 5, None, d(2024, 12, 30)),
        d(2025, 1, 4)
    );
    assert_eq!(
        calculate_next_execution_date(Frequency::Weekly, 2, None, d(2024, 1, 1)),
        d(2024, 1, 15)
    );
    assert_eq!(
        calculate_next_execution_date(Frequency::Other, 3, None, d(2024, 1, 1)),
        d(2024, 1, 4)
    );
}
