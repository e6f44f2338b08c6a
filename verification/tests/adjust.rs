use balance::amount::Amount;
use balance::commands::{adjust_entry, AdjustArgs, AdjustError};
use balance::payment::Payment;

fn bills() -> Vec<Payment> {
    vec![
        Payment::new("Phone".to_owned(), Amount::new(1000, 2), 28),
        Payment::new("Water".to_owned(), Amount::new(2000, 2), 3),
        Payment::new("Rent".to_owned(), Amount::new(50000, 2), 1),
    ]
}

fn parts(payments: &[Payment]) -> Vec<(String, Amount, isize)> {
    payments.iter().map(|p| (p.name.clone(), p.amount, p.day_paid)).collect()
}

#[test]
fn adjusting_a_payment_that_is_not_there_fails() {
    let args = AdjustArgs { name: "Gas".to_owned(), amount: Some(Amount::new(1, 0)), day_paid: Some(2) };
    match adjust_entry(&args, bills()) {
        Err(AdjustError::NotFound(name)) => assert_eq!(name, "Gas"),
        Ok(_) => panic!("a payment was found"),
    }
}

#[test]
fn the_report_of_a_missing_payment_names_it() {
    let args = AdjustArgs { name: "Gas".to_owned(), amount: None, day_paid: None };
    let error = adjust_entry(&args, bills()).unwrap_err();
    assert_eq!(error.message(), "Gas not found");
    assert_eq!(AdjustError::NotFound(String::new()).message(), " not found");
}

#[test]
fn adjusting_in_an_empty_list_fails() {
    let args = AdjustArgs { name: "Phone".to_owned(), amount: None, day_paid: None };
    assert!(adjust_entry(&args, Vec::new()).is_err());
}

#[test]
fn names_are_matched_exactly() {
    for name in ["phone", "Phone ", "Phon", "", "Phone\n"] {
        let args = AdjustArgs { name: name.to_owned(), amount: None, day_paid: Some(5) };
        assert!(adjust_entry(&args, bills()).is_err(), "{name:?}");
    }
}

#[test]
fn adjusting_the_amount_leaves_the_day() {
    let args = AdjustArgs { name: "Water".to_owned(), amount: Some(Amount::new(2550, 2)), day_paid: None };
    let changed = adjust_entry(&args, bills()).unwrap();
    assert_eq!(
        parts(&changed),
        vec![
            ("Phone".to_owned(), Amount::new(1000, 2), 28),
            ("Water".to_owned(), Amount::new(2550, 2), 3),
            ("Rent".to_owned(), Amount::new(50000, 2), 1),
        ]
    );
}

#[test]
fn adjusting_the_day_leaves_the_amount() {
    let args = AdjustArgs { name: "Phone".to_owned(), amount: None, day_paid: Some(14) };
    let changed = adjust_entry(&args, bills()).unwrap();
    assert_eq!(
        parts(&changed),
        vec![
            ("Phone".to_owned(), Amount::new(1000, 2), 14),
            ("Water".to_owned(), Amount::new(2000, 2), 3),
            ("Rent".to_owned(), Amount::new(50000, 2), 1),
        ]
    );
}

#[test]
fn adjusting_both_changes_both() {
    let args = AdjustArgs { name: "Rent".to_owned(), amount: Some(Amount::new(525, 0)), day_paid: Some(2) };
    let changed = adjust_entry(&args, bills()).unwrap();
    assert_eq!(
        parts(&changed),
        vec![
            ("Phone".to_owned(), Amount::new(1000, 2), 28),
            ("Water".to_owned(), Amount::new(2000, 2), 3),
            ("Rent".to_owned(), Amount::new(525, 0), 2),
        ]
    );
}

#[test]
fn adjusting_nothing_changes_nothing() {
    let args = AdjustArgs { name: "Water".to_owned(), amount: None, day_paid: None };
    let changed = adjust_entry(&args, bills()).unwrap();
    assert_eq!(parts(&changed), parts(&bills()));
}

#[test]
fn of_two_payments_of_a_name_the_first_is_adjusted() {
    let mut payments = bills();
    payments.push(Payment::new("Water".to_owned(), Amount::new(1, 0), 9));
    let args = AdjustArgs { name: "Water".to_owned(), amount: Some(Amount::new(7, 1)), day_paid: Some(20) };
    let changed = adjust_entry(&args, payments).unwrap();
    assert_eq!(
        parts(&changed),
        vec![
            ("Phone".to_owned(), Amount::new(1000, 2), 28),
            ("Water".to_owned(), Amount::new(7, 1), 20),
            ("Rent".to_owned(), Amount::new(50000, 2), 1),
            ("Water".to_owned(), Amount::new(1, 0), 9),
        ]
    );
}
