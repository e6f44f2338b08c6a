use balance::amount::Amount;
use balance::commands::{list_payments, payment_line, ListArgs};
use balance::payment::{Config, Payment};
use balance::sorting::sort_by_name;

fn bills() -> Vec<Payment> {
    vec![
        Payment::new("Water".to_owned(), Amount::new(2000, 2), 3),
        Payment::new("Phone".to_owned(), Amount::new(1000, 2), 28),
        Payment::new("Rent".to_owned(), Amount::new(525, 0), 1),
    ]
}

fn parts(payments: &[Payment]) -> Vec<(String, Amount, isize)> {
    payments.iter().map(|p| (p.name.clone(), p.amount, p.day_paid)).collect()
}

#[test]
fn a_listing_of_names() {
    let mut payments = bills();
    let lines = list_payments(&ListArgs { amount: false, day_paid: false }, &mut payments);
    assert_eq!(lines, vec!["Phone", "Rent", "Water"]);
}

#[test]
fn a_listing_with_amounts() {
    let mut payments = bills();
    let lines = list_payments(&ListArgs { amount: true, day_paid: false }, &mut payments);
    assert_eq!(lines, vec!["Phone £10.00", "Rent £525", "Water £20.00"]);
}

#[test]
fn a_listing_with_days() {
    let mut payments = bills();
    let lines = list_payments(&ListArgs { amount: false, day_paid: true }, &mut payments);
    assert_eq!(lines, vec!["Phone, day_paid: 28", "Rent, day_paid: 1", "Water, day_paid: 3"]);
}

#[test]
fn a_listing_with_amounts_and_days() {
    let mut payments = bills();
    let lines = list_payments(&ListArgs { amount: true, day_paid: true }, &mut payments);
    assert_eq!(
        lines,
        vec!["Phone £10.00, day paid: 28", "Rent £525, day paid: 1", "Water £20.00, day paid: 3"]
    );
}

#[test]
fn a_listing_leaves_the_payments_sorted() {
    let mut payments = bills();
    list_payments(&ListArgs { amount: false, day_paid: false }, &mut payments);
    assert_eq!(
        parts(&payments),
        vec![
            ("Phone".to_owned(), Amount::new(1000, 2), 28),
            ("Rent".to_owned(), Amount::new(525, 0), 1),
            ("Water".to_owned(), Amount::new(2000, 2), 3),
        ]
    );
}

#[test]
fn a_listing_of_nothing_is_empty() {
    let mut payments = Config::default().payments;
    assert!(payments.is_empty());
    let lines = list_payments(&ListArgs { amount: true, day_paid: true }, &mut payments);
    assert!(lines.is_empty());
}

#[test]
fn a_line_shows_small_and_negative_values() {
    let all = ListArgs { amount: true, day_paid: true };
    let p = Payment::new("Refund".to_owned(), Amount::new(-5, 2), -3);
    assert_eq!(payment_line(&p, &all), "Refund £-0.05, day paid: -3");
    let p = Payment::new("".to_owned(), Amount::new(0, 0), 0);
    assert_eq!(payment_line(&p, &all), " £0, day paid: 0");
    let p = Payment::new("Far".to_owned(), Amount::new(1, 28), isize::MAX);
    assert_eq!(
        payment_line(&p, &all),
        format!("Far £0.0000000000000000000000000001, day paid: {}", isize::MAX)
    );
    let p = Payment::new("Low".to_owned(), Amount::new(12345, 3), isize::MIN);
    assert_eq!(payment_line(&p, &all), format!("Low £12.345, day paid: {}", isize::MIN));
}

#[test]
fn a_payment_in_words() {
    let p = Payment::new("Phone".to_owned(), Amount::new(1000, 2), 28);
    assert_eq!(p.describe(), "Bill: Phone\nAmount: £10.00\nDay paid: 28");
    let p = Payment::new("Water".to_owned(), Amount::new(205, 1), 3);
    assert_eq!(p.describe(), "Bill: Water\nAmount: £20.5\nDay paid: 3");
}

#[test]
fn sorting_is_alphabetical_whatever_the_order_given() {
    let names = ["Water", "Phone", "Rent", "Gas"];
    let orders: [[usize; 4]; 6] =
        [[0, 1, 2, 3], [3, 2, 1, 0], [1, 0, 3, 2], [2, 3, 0, 1], [0, 2, 1, 3], [3, 0, 2, 1]];
    for order in orders {
        let mut payments: Vec<Payment> = order
            .iter()
            .map(|&i| Payment::new(names[i].to_owned(), Amount::new(i as i64, 0), i as isize))
            .collect();
        sort_by_name(&mut payments);
        assert_eq!(
            parts(&payments),
            vec![
                ("Gas".to_owned(), Amount::new(3, 0), 3),
                ("Phone".to_owned(), Amount::new(1, 0), 1),
                ("Rent".to_owned(), Amount::new(2, 0), 2),
                ("Water".to_owned(), Amount::new(0, 0), 0),
            ]
        );
    }
}

#[test]
fn sorting_keeps_the_order_of_payments_of_one_name() {
    let mut payments = vec![
        Payment::new("Water".to_owned(), Amount::new(1, 0), 1),
        Payment::new("Phone".to_owned(), Amount::new(2, 0), 2),
        Payment::new("Water".to_owned(), Amount::new(3, 0), 3),
        Payment::new("Phone".to_owned(), Amount::new(4, 0), 4),
        Payment::new("Water".to_owned(), Amount::new(5, 0), 5),
    ];
    sort_by_name(&mut payments);
    assert_eq!(
        parts(&payments),
        vec![
            ("Phone".to_owned(), Amount::new(2, 0), 2),
            ("Phone".to_owned(), Amount::new(4, 0), 4),
            ("Water".to_owned(), Amount::new(1, 0), 1),
            ("Water".to_owned(), Amount::new(3, 0), 3),
            ("Water".to_owned(), Amount::new(5, 0), 5),
        ]
    );
}

#[test]
fn sorting_goes_by_code_points() {
    let mut payments: Vec<Payment> = ["b", "B", "", "ab", "a", "é", "z", "Z", "a b", "10", "9"]
        .iter()
        .map(|n| Payment::new((*n).to_owned(), Amount::zero(), 1))
        .collect();
    sort_by_name(&mut payments);
    let names: Vec<&str> = payments.iter().map(|p| p.name.as_str()).collect();
    assert_eq!(names, vec!["", "10", "9", "B", "Z", "a", "a b", "ab", "b", "z", "é"]);
}

#[test]
fn sorting_agrees_with_the_order_of_strings() {
    let given = ["Water", "Phone", "Rent", "Gas", "gas", "Ga", "Électricité", "Zoo", "", "Phone"];
    let mut payments: Vec<Payment> =
        given.iter().map(|n| Payment::new((*n).to_owned(), Amount::zero(), 1)).collect();
    sort_by_name(&mut payments);
    let mut expected: Vec<String> = given.iter().map(|n| (*n).to_owned()).collect();
    expected.sort();
    let names: Vec<String> = payments.iter().map(|p| p.name.clone()).collect();
    assert_eq!(names, expected);
}

#[test]
fn sorting_few_payments() {
    let mut none: Vec<Payment> = Vec::new();
    sort_by_name(&mut none);
    assert!(none.is_empty());
    let mut one = vec![Payment::new("Phone".to_owned(), Amount::new(1000, 2), 28)];
    sort_by_name(&mut one);
    assert_eq!(parts(&one), vec![("Phone".to_owned(), Amount::new(1000, 2), 28)]);
}

#[test]
fn payments_are_told_apart_by_name() {
    let phone = Payment::new("Phone".to_owned(), Amount::new(1000, 2), 28);
    let other_phone = Payment::new("Phone".to_owned(), Amount::new(1, 0), 1);
    let water = Payment::new("Water".to_owned(), Amount::new(1000, 2), 28);
    assert!(phone == other_phone);
    assert!(phone != water);
    assert!(phone < water);
    assert!(water > phone);
    assert!(phone <= other_phone);
    assert!(phone >= other_phone);
    assert!(!(phone < other_phone));
    assert_eq!(phone.partial_cmp(&water), Some(std::cmp::Ordering::Less));
    assert_eq!(water.partial_cmp(&phone), Some(std::cmp::Ordering::Greater));
    assert_eq!(phone.partial_cmp(&other_phone), Some(std::cmp::Ordering::Equal));
}

fn written(mantissa: i128, scale: u32) -> String {
    let magnitude = mantissa.unsigned_abs();
    let unit = 10u128.pow(scale);
    let mut text = String::new();
    if mantissa < 0 {
        text.push('-');
    }
    text.push_str(&(magnitude / unit).to_string());
    if scale > 0 {
        text.push('.');
        text.push_str(&format!("{:0width$}", magnitude % unit, width = scale as usize));
    }
    text
}

#[test]
fn amounts_are_written_with_all_their_places() {
    let only_amount = ListArgs { amount: true, day_paid: false };
    let max = balance::amount::MAX_MANTISSA;
    let mantissas = [
        0i128, 1, -1, 5, -5, 9, 10, 99, 100, 101, 1000, -1000, 12345, -12345, 1050,
        4294967295, 4294967296, 18446744073709551615, 18446744073709551616,
        10000000000000000000000000000, 9999999999999999999999999999, max, -max, max - 1,
    ];
    for mantissa in mantissas {
        for scale in 0u32..=28 {
            let amount = Amount::try_new(mantissa, scale).unwrap();
            let p = Payment::new("x".to_owned(), amount, 1);
            assert_eq!(
                payment_line(&p, &only_amount),
                format!("x £{}", written(mantissa, scale)),
                "{mantissa} at scale {scale}"
            );
        }
    }
}

#[test]
fn amounts_written_by_hand() {
    assert_eq!(written(1000, 2), "10.00");
    assert_eq!(written(-5, 2), "-0.05");
    assert_eq!(written(525, 0), "525");
    assert_eq!(written(0, 0), "0");
    assert_eq!(written(0, 3), "0.000");
    assert_eq!(written(1, 28), "0.0000000000000000000000000001");
    let only_amount = ListArgs { amount: true, day_paid: false };
    for (mantissa, scale, text) in
        [(0i64, 0u32, "x £0"), (0, 3, "x £0.000"), (-1, 1, "x £-0.1"), (100, 2, "x £1.00"), (-12345, 3, "x £-12.345")]
    {
        let p = Payment::new("x".to_owned(), Amount::new(mantissa, scale), 1);
        assert_eq!(payment_line(&p, &only_amount), text);
    }
}
