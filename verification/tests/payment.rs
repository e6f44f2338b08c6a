use std::str::FromStr;

use balance::amount::Amount;
use balance::payment::{Payment, PaymentManager};
use balance::sorting::sort_by_name;
use balance::utils::Date;
use chrono::{Datelike, NaiveDate};

fn day(text: &str) -> Date {
    let date = NaiveDate::from_str(text).unwrap();
    Date::from_ymd_opt(date.year(), date.month(), date.day()).unwrap()
}

#[test]
fn start_of_period() {
    let payments = vec![
        Payment::new("Phone".to_owned(), Amount::new(1000, 2), 28),
        Payment::new("Water".to_owned(), Amount::new(2000, 2), 3),
    ];

    let payment_manager = PaymentManager::new(Amount::new(10000, 2), 18, payments);

    let remaining = payment_manager.remaining_balance(day("2023-01-19"));
    assert_eq!(remaining, Amount::new(7000, 2));
}

#[test]
fn midway_through() {
    let payments = vec![
        Payment::new("Phone".to_owned(), Amount::new(1000, 2), 28),
        Payment::new("Water".to_owned(), Amount::new(2000, 2), 3),
    ];

    let payment_manager = PaymentManager::new(Amount::new(10000, 2), 18, payments);

    let remaining = payment_manager.remaining_balance(day("2023-01-01"));
    assert_eq!(remaining, Amount::new(8000, 2));
}

#[test]
fn same_day() {
    let payments = vec![
        Payment::new("Phone".to_owned(), Amount::new(1000, 2), 28),
        Payment::new("Water".to_owned(), Amount::new(2000, 2), 3),
    ];

    let payment_manager = PaymentManager::new(Amount::new(10000, 2), 18, payments);

    let remaining = payment_manager.remaining_balance(day("2023-01-28"));
    assert_eq!(remaining, Amount::new(8000, 2));
}

#[test]
fn end_of_month() {
    let payments = vec![
        Payment::new("Phone".to_owned(), Amount::new(1000, 2), 28),
        Payment::new("Water".to_owned(), Amount::new(2000, 2), 3),
    ];
    let payment_manager = PaymentManager::new(Amount::new(10000, 2), 18, payments);

    let remaining = payment_manager.remaining_balance(day("2023-01-31"));

    assert_eq!(remaining, Amount::new(8000, 2));
}

#[test]
fn reset_day() {
    let payments = vec![
        Payment::new("Phone".to_owned(), Amount::new(1000, 2), 28),
        Payment::new("Water".to_owned(), Amount::new(2000, 2), 3),
    ];
    let payment_manager = PaymentManager::new(Amount::new(10000, 2), 18, payments);

    let remaining = payment_manager.remaining_balance(day("2023-01-18"));

    assert_eq!(remaining, Amount::new(7000, 2));
}

#[test]
fn payments_are_sorted() {
    let mut payments = vec![
        Payment::new("Water".to_owned(), Amount::new(2000, 2), 3),
        Payment::new("Phone".to_owned(), Amount::new(1000, 2), 28),
    ];
    sort_by_name(&mut payments);

    assert_eq!(
        payments,
        vec![
            Payment::new("Phone".to_owned(), Amount::new(1000, 2), 28),
            Payment::new("Water".to_owned(), Amount::new(2000, 2), 3),
        ]
    );
}
