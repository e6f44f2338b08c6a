//! What the commands of the bill tracker do with the payments: work out the
//! balance that remains, check what a user typed, change one payment, and
//! write the list.

use crate::amount::{
    decimal_from_str, decimal_text, decimal_to_string, spec_parsed, view_of, Amount, AmountView,
};
use crate::payment::{spec_remaining, Payment, PaymentManager};
use crate::sorting::{is_stable_sort_of, sort_by_name};
use crate::text::{int_text, isize_to_string, parse_isize, spec_parse_isize};
use crate::utils::{spec_days_in_month, Date};
use vstd::prelude::*;
use vstd::string::StringExecFns;

verus! {

/// The reset day that is taken where none is given.
pub const DEFAULT_RESET_DAY: isize = 18;

/// The first day of the month on which a payment may be made.
pub const FIRST_DAY_PAID: isize = 1;

/// The last day of the month on which a payment may be made: the last day
/// that every month has.
pub const LAST_DAY_PAID: isize = 28;

/// What is needed to work out the remaining balance.
pub struct ComputeArgs {
    /// Current balance of the account.
    pub balance: Amount,
    /// Day on which the bill cycle resets, normally pay day.
    pub reset_day: isize,
}

/// A change to one payment.
pub struct AdjustArgs {
    /// Name of the payment to change.
    pub name: String,
    /// Its new amount, if the amount is to change.
    pub amount: Option<Amount>,
    /// The new day on which it is paid, if the day is to change.
    pub day_paid: Option<isize>,
}

/// What a listing shows besides the names.
pub struct ListArgs {
    /// Whether to show what each payment takes.
    pub amount: bool,
    /// Whether to show the day on which each payment is made.
    pub day_paid: bool,
}

/// Why a payment could not be changed.
#[derive(Debug)]
pub enum AdjustError {
    /// No payment bears the name; the name is given.
    NotFound(String),
}

/// The text that reports that no payment bears `name`.
pub open spec fn not_found_message(name: Seq<char>) -> Seq<char> {
    name + " not found"@
}

impl AdjustError {
    /// The report of the error, for the user.
    pub fn message(&self) -> (r: String)
        ensures
            self matches AdjustError::NotFound(name) && r@ == not_found_message(name@),
    {
        match self {
            AdjustError::NotFound(name) => {
                let mut text = name.clone();
                text.append(" not found");
                text
            },
        }
    }
}

/// Whether a day of the month may be the day of a payment.
pub open spec fn spec_day_paid_in_range(day: int) -> bool {
    FIRST_DAY_PAID <= day <= LAST_DAY_PAID
}

/// The text that reports that `text` is no whole number.
pub open spec fn not_an_integer_message(text: Seq<char>) -> Seq<char> {
    "`"@ + text + "` isn't an integer"@
}

/// The text that reports a day outside the range of days paid.
pub open spec fn day_out_of_range_message() -> Seq<char> {
    "days paid not in range "@ + int_text(FIRST_DAY_PAID as int) + "-"@ + int_text(
        LAST_DAY_PAID as int,
    )
}

/// What [`days_paid_in_range`] makes of a text.
pub open spec fn spec_days_paid_in_range(text: Seq<char>) -> Result<isize, Seq<char>> {
    match spec_parse_isize(text) {
        Some(day) => if spec_day_paid_in_range(day as int) {
            Ok(day)
        } else {
            Err(day_out_of_range_message())
        },
        None => Err(not_an_integer_message(text)),
    }
}

/// Reads the day of a payment from what a user typed: a whole number from 1
/// to 28. Anything else is refused, with a report that says whether it was
/// no number at all or a number outside the range.
pub fn days_paid_in_range(s: &str) -> (r: Result<isize, String>)
    ensures
        match r {
            Ok(day) => spec_days_paid_in_range(s@) == Ok::<isize, Seq<char>>(day),
            Err(report) => spec_days_paid_in_range(s@) == Err::<isize, Seq<char>>(report@),
        },
{
    match parse_isize(s) {
        None => {
            let mut report = String::from_str("`");
            report.append(s);
            report.append("` isn't an integer");
            Err(report)
        },
        Some(day) => {
            if FIRST_DAY_PAID <= day && day <= LAST_DAY_PAID {
                Ok(day)
            } else {
                let mut report = String::from_str("days paid not in range ");
                report.append(isize_to_string(FIRST_DAY_PAID).as_str());
                report.append("-");
                report.append(isize_to_string(LAST_DAY_PAID).as_str());
                Err(report)
            }
        },
    }
}

/// The text that reports that `text` is no decimal.
pub open spec fn not_a_decimal_message(text: Seq<char>) -> Seq<char> {
    "`"@ + text + "` isn't a Decimal"@
}

/// The text that reports an amount below zero.
pub open spec fn negative_amount_message() -> Seq<char> {
    "amount not greater than or equal to zero"@
}

/// What is made of a text that was read as `parsed`: an amount of zero or
/// more is accepted; a negative one is refused, and so is a text that was
/// no decimal.
pub open spec fn spec_checked_amount(parsed: Option<AmountView>, text: Seq<char>) -> Result<
    AmountView,
    Seq<char>,
> {
    match parsed {
        Some(amount) => if amount.mantissa >= 0 {
            Ok(amount)
        } else {
            Err(negative_amount_message())
        },
        None => Err(not_a_decimal_message(text)),
    }
}

/// Decides on an amount that was read from `text`: `parsed` is what the
/// reading gave. Zero and more are accepted, a negative amount and a text
/// that was no decimal are refused, each with its report.
pub fn check_amount(parsed: Option<Amount>, text: &str) -> (r: Result<Amount, String>)
    ensures
        match r {
            Ok(amount) => spec_checked_amount(view_of(parsed), text@) == Ok::<
                AmountView,
                Seq<char>,
            >(amount@),
            Err(report) => spec_checked_amount(view_of(parsed), text@) == Err::<
                AmountView,
                Seq<char>,
            >(report@),
        },
{
    match parsed {
        None => {
            let mut report = String::from_str("`");
            report.append(text);
            report.append("` isn't a Decimal");
            Err(report)
        },
        Some(amount) => {
            if amount.is_non_negative() {
                Ok(amount)
            } else {
                Err(String::from_str("amount not greater than or equal to zero"))
            }
        },
    }
}

/// Reads the amount of a payment from what a user typed: a decimal that is
/// zero or more.
pub fn amount_validation(s: &str) -> (r: Result<Amount, String>)
    ensures
        match r {
            Ok(amount) => spec_checked_amount(spec_parsed(s@), s@) == Ok::<AmountView, Seq<char>>(
                amount@,
            ),
            Err(report) => spec_checked_amount(spec_parsed(s@), s@) == Err::<
                AmountView,
                Seq<char>,
            >(report@),
        },
{
    check_amount(decimal_from_str(s), s)
}

/// Whether a list holds a payment of the given name.
pub open spec fn has_name(payments: Seq<Payment>, name: Seq<char>) -> bool {
    exists|i: int| 0 <= i < payments.len() && (#[trigger] payments[i]).name@ == name
}

/// Whether `i` is the place of the first payment of the given name.
pub open spec fn is_first_named(payments: Seq<Payment>, name: Seq<char>, i: int) -> bool {
    &&& 0 <= i < payments.len()
    &&& payments[i].name@ == name
    &&& forall|k: int| 0 <= k < i ==> (#[trigger] payments[k]).name@ != name
}

/// A payment after a change: the amount and the day that the change
/// supplies replace the old ones; what it does not supply stays, and so
/// does the name.
pub open spec fn adjusted(payment: Payment, args: AdjustArgs) -> Payment {
    Payment {
        name: payment.name,
        amount: match args.amount {
            Some(amount) => amount,
            None => payment.amount,
        },
        day_paid: match args.day_paid {
            Some(day) => day,
            None => payment.day_paid,
        },
    }
}

/// Changes the payment that `args` names: its amount and its day become
/// those that `args` supplies, and what `args` leaves out stays as it was.
/// Of several payments of that name the first is changed. Every other
/// payment stays as it was, in its place. Where no payment bears the name,
/// nothing is changed and the error says so.
pub fn adjust_entry(args: &AdjustArgs, payments: Vec<Payment>) -> (r: Result<
    Vec<Payment>,
    AdjustError,
>)
    ensures
        r is Ok <==> has_name(payments@, args.name@),
        r matches Ok(changed) ==> exists|i: int|
            is_first_named(payments@, args.name@, i) && changed@ == payments@.update(
                i,
                adjusted(#[trigger] payments@[i], *args),
            ),
        r matches Err(e) ==> e matches AdjustError::NotFound(name) && name@ == args.name@,
{
    let mut list = payments;
    let mut i: usize = 0;
    while i < list.len()
        invariant
            list@ == payments@,
            0 <= i <= list@.len(),
            forall|k: int| 0 <= k < i ==> (#[trigger] payments@[k]).name@ != args.name@,
        decreases list@.len() - i,
    {
        if list[i].name == args.name {
            let mut payment = list.remove(i);
            if let Some(amount) = args.amount {
                payment.amount = amount;
            }
            if let Some(day) = args.day_paid {
                payment.day_paid = day;
            }
            list.insert(i, payment);
            proof {
                assert(list@ =~= payments@.update(
                    i as int,
                    adjusted(payments@[i as int], *args),
                ));
                assert(is_first_named(payments@, args.name@, i as int));
            }
            return Ok(list);
        }
        i = i + 1;
    }
    Err(AdjustError::NotFound(args.name.clone()))
}

/// A change that supplies neither an amount nor a day changes nothing.
pub proof fn lemma_empty_adjustment(payment: Payment, args: AdjustArgs)
    requires
        args.amount is None,
        args.day_paid is None,
    ensures
        adjusted(payment, args) == payment,
{
}

/// A change leaves the name of a payment alone, and takes over what it
/// supplies.
pub proof fn lemma_adjustment_takes_what_is_supplied(payment: Payment, args: AdjustArgs)
    ensures
        adjusted(payment, args).name == payment.name,
        args.amount matches Some(amount) ==> adjusted(payment, args).amount == amount,
        args.amount is None ==> adjusted(payment, args).amount == payment.amount,
        args.day_paid matches Some(day) ==> adjusted(payment, args).day_paid == day,
        args.day_paid is None ==> adjusted(payment, args).day_paid == payment.day_paid,
{
}

/// The line that a listing shows for a payment: its name, then its amount
/// and the day on which it is paid, as far as the listing shows them.
pub open spec fn listing_line(payment: Payment, args: ListArgs) -> Seq<char> {
    let amount = decimal_text(payment.amount@.mantissa, payment.amount@.scale);
    let day = int_text(payment.day_paid as int);
    if args.amount && args.day_paid {
        payment.name@ + " £"@ + amount + ", day paid: "@ + day
    } else if args.amount {
        payment.name@ + " £"@ + amount
    } else if args.day_paid {
        payment.name@ + ", day_paid: "@ + day
    } else {
        payment.name@
    }
}

/// The line of one payment in a listing.
pub fn payment_line(payment: &Payment, args: &ListArgs) -> (r: String)
    ensures
        r@ == listing_line(*payment, *args),
{
    let mut line = payment.name.clone();
    if args.amount {
        line.append(" £");
        line.append(decimal_to_string(payment.amount).as_str());
        if args.day_paid {
            line.append(", day paid: ");
            line.append(isize_to_string(payment.day_paid).as_str());
        }
    } else if args.day_paid {
        line.append(", day_paid: ");
        line.append(isize_to_string(payment.day_paid).as_str());
    }
    line
}

/// Puts the payments in the alphabetical order of their names and returns
/// the listing: one line for each payment, in that order.
pub fn list_payments(args: &ListArgs, payments: &mut Vec<Payment>) -> (lines: Vec<String>)
    ensures
        is_stable_sort_of(final(payments)@, old(payments)@),
        final(payments)@.to_multiset() == old(payments)@.to_multiset(),
        final(payments)@.len() == old(payments)@.len(),
        lines@.len() == final(payments)@.len(),
        forall|i: int|
            0 <= i < lines@.len() ==> (#[trigger] lines@[i])@ == listing_line(
                final(payments)@[i],
                *args,
            ),
{
    sort_by_name(payments);
    let mut lines: Vec<String> = Vec::new();
    let mut i: usize = 0;
    while i < payments.len()
        invariant
            0 <= i <= payments@.len(),
            lines@.len() == i,
            forall|k: int|
                0 <= k < i ==> (#[trigger] lines@[k])@ == listing_line(payments@[k], *args),
        decreases payments@.len() - i,
    {
        lines.push(payment_line(&payments[i], args));
        i = i + 1;
    }
    lines
}

/// The balance that remains on `current_day`, for the balance and the reset
/// day of `args` and the given payments; `None` where it cannot be
/// represented.
pub fn compute_balance(args: &ComputeArgs, payments: Vec<Payment>, current_day: Date) -> (r:
    Option<Amount>)
    ensures
        view_of(r) == spec_remaining(
            args.balance@,
            args.reset_day as int,
            payments@,
            current_day@.day,
            spec_days_in_month(current_day@.year, current_day@.month),
        ),
{
    let manager = PaymentManager::new(args.balance, args.reset_day, payments);
    manager.checked_remaining_balance(current_day)
}

} // verus!
