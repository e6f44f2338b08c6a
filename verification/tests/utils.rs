use balance::utils::{days_in_month, Date};

#[test]
fn days_in_month_leap_year() {
    assert_eq!(days_in_month(Date::from_ymd_opt(2020, 2, 1).unwrap()), 29);
}

#[test]
fn days_in_feb_1900() {
    assert_eq!(days_in_month(Date::from_ymd_opt(1900, 2, 1).unwrap()), 28);
}
