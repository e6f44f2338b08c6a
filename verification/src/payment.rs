//! Recurring payments and the projection of a balance: what is left of the
//! current balance once every payment that is still due before the next
//! reset of the pay cycle has been taken off.

use crate::amount::{
    decimal_checked_add, decimal_checked_sub, decimal_text, decimal_to_string,
    lemma_amount_settled_by_view, lemma_zero_changes_no_number, spec_difference, spec_sum,
    spec_zero, view_of, Amount, AmountView,
};
use crate::text::{int_text, isize_to_string, str_le, text_le};
use crate::utils::{
    days_in_month, lemma_modulo, modulo, spec_days_in_month, spec_modulo, Date, DateView,
};
use std::cmp::Ordering;
use vstd::arithmetic::div_mod::{lemma_fundamental_div_mod_converse, lemma_sub_mod_noop};
use vstd::prelude::*;
use vstd::std_specs::cmp::{PartialEqSpecImpl, PartialOrdSpecImpl};
use vstd::string::StringExecFns;

verus! {

/// A recurring bill: what it is called, how much it takes, and on which day
/// of the month it is paid.
#[derive(Debug, Clone)]
pub struct Payment {
    pub name: String,
    pub amount: Amount,
    pub day_paid: isize,
}

impl Payment {
    /// The payment with the given name, amount and day.
    pub fn new(name: String, amount: Amount, day_paid: isize) -> (r: Payment)
        ensures
            r.name == name,
            r.amount == amount,
            r.day_paid == day_paid,
    {
        Payment { name, amount, day_paid }
    }

    /// The payment in words, on three lines: its name, what it takes, and
    /// the day on which it is paid.
    pub fn describe(&self) -> (r: String)
        ensures
            r@ == spec_describe(*self),
    {
        let mut text = String::from_str("Bill: ");
        text.append(self.name.as_str());
        text.append("\nAmount: £");
        text.append(decimal_to_string(self.amount).as_str());
        text.append("\nDay paid: ");
        text.append(isize_to_string(self.day_paid).as_str());
        text
    }
}

/// A payment in words, on three lines.
pub open spec fn spec_describe(payment: Payment) -> Seq<char> {
    "Bill: "@ + payment.name@ + "\nAmount: £"@ + decimal_text(
        payment.amount@.mantissa,
        payment.amount@.scale,
    ) + "\nDay paid: "@ + int_text(payment.day_paid as int)
}

/// Payments are told apart by their names alone: two payments of the same
/// name are `==`, whatever they take and whenever they are paid.
impl PartialEq for Payment {
    fn eq(&self, other: &Payment) -> (r: bool) {
        self.name == other.name
    }
}

impl PartialEqSpecImpl for Payment {
    open spec fn obeys_eq_spec() -> bool {
        true
    }

    open spec fn eq_spec(&self, other: &Payment) -> bool {
        self.name@ == other.name@
    }
}

impl Eq for Payment {

}

/// Payments are ordered by their names alone, alphabetically.
impl PartialOrd for Payment {
    fn partial_cmp(&self, other: &Payment) -> (r: Option<Ordering>) {
        if self.name == other.name {
            Some(Ordering::Equal)
        } else if str_le(self.name.as_str(), other.name.as_str()) {
            Some(Ordering::Less)
        } else {
            Some(Ordering::Greater)
        }
    }
}

impl PartialOrdSpecImpl for Payment {
    open spec fn obeys_partial_cmp_spec() -> bool {
        true
    }

    open spec fn partial_cmp_spec(&self, other: &Payment) -> Option<Ordering> {
        if self.name@ == other.name@ {
            Some(Ordering::Equal)
        } else if text_le(self.name@, other.name@) {
            Some(Ordering::Less)
        } else {
            Some(Ordering::Greater)
        }
    }
}

/// The list of payments that is kept between runs.
#[derive(Debug)]
pub struct Config {
    pub payments: Vec<Payment>,
}

impl Default for Config {
    fn default() -> (r: Config)
        ensures
            r.payments@.len() == 0,
    {
        Config { payments: Vec::new() }
    }
}

/// How many days after the most recent reset a day of the month lies, in a
/// cycle of `cycle` days: 0 on the reset day itself, `cycle - 1` on the day
/// before the next reset.
pub open spec fn rebased(day: int, reset_day: int, cycle: int) -> int {
    spec_modulo(day - reset_day, cycle)
}

/// Whether a payment made on `day_paid` is still to come in the current
/// cycle: it lies strictly later after the reset than today does.
pub open spec fn is_pending(day_paid: int, reset_day: int, today: int, cycle: int) -> bool {
    rebased(day_paid, reset_day, cycle) > rebased(today, reset_day, cycle)
}

/// The test that picks the pending payments out of a list.
pub open spec fn pending(reset_day: int, today: int, cycle: int) -> spec_fn(Payment) -> bool {
    |p: Payment| is_pending(p.day_paid as int, reset_day, today, cycle)
}

/// What a payment takes.
pub open spec fn amount_of() -> spec_fn(Payment) -> AmountView {
    |p: Payment| p.amount@
}

/// The amounts of the pending payments, in the order of the list.
pub open spec fn pending_amounts(
    payments: Seq<Payment>,
    reset_day: int,
    today: int,
    cycle: int,
) -> Seq<AmountView> {
    payments.filter(pending(reset_day, today, cycle)).map_values(amount_of())
}

/// One step of adding up: the sum so far plus the next amount, or `None`
/// once a sum could not be represented.
pub open spec fn add_next() -> spec_fn(Option<AmountView>, AmountView) -> Option<AmountView> {
    |so_far: Option<AmountView>, next: AmountView|
        match so_far {
            Some(t) => spec_sum(t, next),
            None => None,
        }
}

/// The amounts added up from zero, first to last; `None` if one of the sums
/// on the way cannot be represented.
pub open spec fn spec_total(amounts: Seq<AmountView>) -> Option<AmountView> {
    amounts.fold_left(Some(spec_zero()), add_next())
}

/// The balance that remains on day `today` of a month of `cycle` days: the
/// balance minus the total of the pending payments. `None` if the total or
/// the difference cannot be represented.
pub open spec fn spec_remaining(
    balance: AmountView,
    reset_day: int,
    payments: Seq<Payment>,
    today: int,
    cycle: int,
) -> Option<AmountView> {
    match spec_total(pending_amounts(payments, reset_day, today, cycle)) {
        Some(total) => spec_difference(balance, total),
        None => None,
    }
}

/// A rebased day lies in the cycle: from 0, the reset day itself, up to the
/// day before the next reset.
pub proof fn lemma_rebased_in_cycle(day: int, reset_day: int, cycle: int)
    requires
        cycle > 0,
    ensures
        0 <= rebased(day, reset_day, cycle) < cycle,
        rebased(reset_day, reset_day, cycle) == 0,
{
    lemma_modulo(day - reset_day, cycle);
    lemma_modulo(0, cycle);
}

/// Where the days are days of the cycle, a rebased day is the day less the
/// reset day, taken into the next cycle if the day comes before the reset.
pub proof fn lemma_rebased_within_cycle(day: int, reset_day: int, cycle: int)
    requires
        1 <= day <= cycle,
        1 <= reset_day <= cycle,
    ensures
        rebased(day, reset_day, cycle) == if day >= reset_day {
            day - reset_day
        } else {
            day - reset_day + cycle
        },
{
    if day >= reset_day {
        lemma_fundamental_div_mod_converse(day - reset_day, cycle, 0, day - reset_day);
    } else {
        lemma_fundamental_div_mod_converse(day - reset_day, cycle, -1, day - reset_day + cycle);
    }
}

/// Pending in plain words, where the days are days of the cycle. Once the
/// reset day of this month has come, what is pending is what is paid later
/// in the month or, next month, before the reset day; before the reset day,
/// it is what is paid after today and before the reset day.
pub proof fn lemma_pending_in_plain_words(day_paid: int, reset_day: int, today: int, cycle: int)
    requires
        1 <= day_paid <= cycle,
        1 <= reset_day <= cycle,
        1 <= today <= cycle,
    ensures
        is_pending(day_paid, reset_day, today, cycle) <==> if today >= reset_day {
            day_paid > today || day_paid < reset_day
        } else {
            today < day_paid < reset_day
        },
{
    lemma_rebased_within_cycle(day_paid, reset_day, cycle);
    lemma_rebased_within_cycle(today, reset_day, cycle);
}

/// A payment made on the reset day is never pending, and neither is one
/// made on the day that today is.
pub proof fn lemma_never_pending(reset_day: int, today: int, cycle: int)
    requires
        cycle > 0,
    ensures
        !is_pending(reset_day, reset_day, today, cycle),
        !is_pending(today, reset_day, today, cycle),
{
    lemma_rebased_in_cycle(today, reset_day, cycle);
}

/// On the reset day every payment is pending but those made on the reset
/// day itself, or on a day that falls on it in this cycle.
pub proof fn lemma_pending_on_reset_day(day_paid: int, reset_day: int, cycle: int)
    requires
        cycle > 0,
    ensures
        is_pending(day_paid, reset_day, reset_day, cycle) <==> rebased(day_paid, reset_day, cycle)
            != 0,
{
    lemma_rebased_in_cycle(day_paid, reset_day, cycle);
}

/// Where no payment of the list is pending, what remains is the balance:
/// the same number, and the balance as it is written unless it is zero,
/// which comes back written without decimal places.
pub proof fn lemma_nothing_pending(
    balance: AmountView,
    reset_day: int,
    payments: Seq<Payment>,
    today: int,
    cycle: int,
)
    requires
        forall|i: int|
            0 <= i < payments.len() ==> !is_pending(
                (#[trigger] payments[i]).day_paid as int,
                reset_day,
                today,
                cycle,
            ),
    ensures
        spec_remaining(balance, reset_day, payments, today, cycle) == Some(
            if balance.mantissa == 0 {
                spec_zero()
            } else {
                balance
            },
        ),
        spec_remaining(balance, reset_day, payments, today, cycle) matches Some(r) && r.units()
            == balance.units(),
{
    let wanted = pending(reset_day, today, cycle);
    assert(payments.all(|p: Payment| !wanted(p)));
    payments.lemma_all_neg_filter_empty(wanted);
    assert(payments.filter(wanted).map_values(amount_of()) =~= Seq::<AmountView>::empty());
    lemma_zero_changes_no_number(balance, spec_zero());
}

/// Where every payment is made on the reset day, nothing is ever pending
/// and what remains is the balance, on every day.
pub proof fn lemma_all_paid_on_reset_day(
    balance: AmountView,
    reset_day: int,
    payments: Seq<Payment>,
    today: int,
    cycle: int,
)
    requires
        cycle > 0,
        forall|i: int| 0 <= i < payments.len() ==> (#[trigger] payments[i]).day_paid == reset_day,
    ensures
        spec_remaining(balance, reset_day, payments, today, cycle) matches Some(r) && r.units()
            == balance.units(),
{
    lemma_never_pending(reset_day, today, cycle);
    lemma_nothing_pending(balance, reset_day, payments, today, cycle);
}

/// The first pending payment is taken as it is: where one payment alone is
/// pending, the total is its amount.
pub proof fn lemma_one_pending(payment: Payment, reset_day: int, today: int, cycle: int)
    requires
        is_pending(payment.day_paid as int, reset_day, today, cycle),
    ensures
        spec_total(pending_amounts(seq![payment], reset_day, today, cycle)) == Some(
            payment.amount@,
        ),
{
    let none = Seq::<Payment>::empty();
    assert(seq![payment] =~= none.push(payment));
    lemma_pending_payment_is_added(reset_day, none, payment, today, cycle);
    lemma_nothing_pending(payment.amount@, reset_day, none, today, cycle);
    reveal(Seq::filter);
    assert(none.filter(pending(reset_day, today, cycle)).map_values(amount_of())
        =~= Seq::<AmountView>::empty());
}

/// The pending amounts of two lists are the same where the lists agree,
/// payment by payment, in the amounts and the days.
proof fn lemma_pending_amounts_agree(
    a: Seq<Payment>,
    b: Seq<Payment>,
    reset_day: int,
    today: int,
    cycle: int,
)
    requires
        a.len() == b.len(),
        forall|i: int|
            0 <= i < a.len() ==> (#[trigger] a[i]).amount@ == b[i].amount@ && a[i].day_paid
                == b[i].day_paid,
    ensures
        pending_amounts(a, reset_day, today, cycle) == pending_amounts(b, reset_day, today, cycle),
    decreases a.len(),
{
    let wanted = pending(reset_day, today, cycle);
    if a.len() == 0 {
        assert(a =~= b);
    } else {
        let a0 = a.drop_last();
        let b0 = b.drop_last();
        assert forall|i: int| 0 <= i < a0.len() implies (#[trigger] a0[i]).amount@ == b0[i].amount@
            && a0[i].day_paid == b0[i].day_paid by {
            assert(a[i].amount@ == b[i].amount@);
        }
        lemma_pending_amounts_agree(a0, b0, reset_day, today, cycle);
        assert(a =~= a0.push(a.last()));
        assert(b =~= b0.push(b.last()));
        assert(a[a.len() - 1].amount@ == b[a.len() - 1].amount@);
        a0.lemma_filter_push(a.last(), wanted);
        b0.lemma_filter_push(b.last(), wanted);
        a0.filter(wanted).lemma_push_map_commute(amount_of(), a.last());
        b0.filter(wanted).lemma_push_map_commute(amount_of(), b.last());
    }
}

/// The projection is settled by what it is given, and looks at no more than
/// this: the balance, the reset day, the amount and the day of each payment
/// in the order of the list, the day of the month that today is, and the
/// length of that month. Two projections that agree in these give the same
/// result, whatever the payments are called and whichever month it is.
pub proof fn lemma_remaining_settled_by_inputs(
    a: PaymentManagerView,
    b: PaymentManagerView,
    day_a: DateView,
    day_b: DateView,
)
    requires
        a.balance == b.balance,
        a.reset_day == b.reset_day,
        a.payments.len() == b.payments.len(),
        forall|i: int|
            0 <= i < a.payments.len() ==> (#[trigger] a.payments[i]).amount@ == b.payments[i].amount@
                && a.payments[i].day_paid == b.payments[i].day_paid,
        day_a.day == day_b.day,
        spec_days_in_month(day_a.year, day_a.month) == spec_days_in_month(day_b.year, day_b.month),
    ensures
        a.remaining_balance(day_a) == b.remaining_balance(day_b),
{
    lemma_pending_amounts_agree(
        a.payments,
        b.payments,
        a.reset_day,
        day_a.day,
        spec_days_in_month(day_a.year, day_a.month),
    );
}

/// The projection gives one result: two amounts that are both what remains
/// of the same balance, with the same reset day and payments, on the same
/// day, are the same amount.
pub proof fn lemma_remaining_balance_repeats(
    manager: PaymentManagerView,
    day: DateView,
    first: Amount,
    second: Amount,
)
    requires
        manager.remaining_balance(day) == Some(first@),
        manager.remaining_balance(day) == Some(second@),
    ensures
        first == second,
{
    lemma_amount_settled_by_view(first, second);
}

/// A payment that is not pending has no part in the projection: with it
/// or without it at the end of the list, the same remains.
pub proof fn lemma_settled_payment_has_no_part(
    balance: AmountView,
    reset_day: int,
    payments: Seq<Payment>,
    last: Payment,
    today: int,
    cycle: int,
)
    requires
        !is_pending(last.day_paid as int, reset_day, today, cycle),
    ensures
        spec_remaining(balance, reset_day, payments.push(last), today, cycle) == spec_remaining(
            balance,
            reset_day,
            payments,
            today,
            cycle,
        ),
{
    payments.lemma_filter_push(last, pending(reset_day, today, cycle));
}

/// A pending payment at the end of the list is added last: the total with
/// it is the total without it plus its amount.
pub proof fn lemma_pending_payment_is_added(
    reset_day: int,
    payments: Seq<Payment>,
    last: Payment,
    today: int,
    cycle: int,
)
    requires
        is_pending(last.day_paid as int, reset_day, today, cycle),
    ensures
        spec_total(pending_amounts(payments.push(last), reset_day, today, cycle)) == match spec_total(
            pending_amounts(payments, reset_day, today, cycle),
        ) {
            Some(total) => spec_sum(total, last.amount@),
            None => None,
        },
{
    let wanted = pending(reset_day, today, cycle);
    payments.lemma_filter_push(last, wanted);
    payments.filter(wanted).lemma_push_map_commute(amount_of(), last);
    let amounts = payments.filter(wanted).map_values(amount_of());
    assert(amounts.push(last.amount@).drop_last() =~= amounts);
}

/// What a [`PaymentManager`] holds.
pub struct PaymentManagerView {
    pub balance: AmountView,
    pub reset_day: int,
    pub payments: Seq<Payment>,
}

impl PaymentManagerView {
    /// The balance that remains on the day `today`, in the cycle given by
    /// the length of that day's month.
    pub open spec fn remaining_balance(self, today: DateView) -> Option<AmountView> {
        spec_remaining(
            self.balance,
            self.reset_day,
            self.payments,
            today.day,
            spec_days_in_month(today.year, today.month),
        )
    }
}

/// A balance, the day of the month on which the pay cycle starts anew, and
/// the payments of one cycle.
#[derive(Debug, Clone)]
pub struct PaymentManager {
    balance: Amount,
    reset_day: isize,
    payments: Vec<Payment>,
}

impl View for PaymentManager {
    type V = PaymentManagerView;

    closed spec fn view(&self) -> PaymentManagerView {
        PaymentManagerView {
            balance: self.balance@,
            reset_day: self.reset_day as int,
            payments: self.payments@,
        }
    }
}

/// Where `day` lies after `reset_day` in a cycle of `cycle` days. The
/// difference of the two days is never formed, so no pair of days overflows.
fn rebase(day: isize, reset_day: isize, cycle: isize) -> (r: isize)
    requires
        cycle > 0,
    ensures
        r == rebased(day as int, reset_day as int, cycle as int),
        0 <= r < cycle,
{
    let d: isize = modulo(day, cycle);
    let s: isize = modulo(reset_day, cycle);
    proof {
        lemma_sub_mod_noop(day as int, reset_day as int, cycle as int);
    }
    modulo(d - s, cycle)
}

impl PaymentManager {
    /// A manager of the given balance, reset day and payments.
    pub fn new(balance: Amount, reset_day: isize, payments: Vec<Payment>) -> (r: PaymentManager)
        ensures
            r@ == (PaymentManagerView {
                balance: balance@,
                reset_day: reset_day as int,
                payments: payments@,
            }),
    {
        PaymentManager { balance, reset_day, payments }
    }

    /// The projection, whether or not it can be represented.
    fn project(&self, current_day: Date) -> (r: Option<Amount>)
        ensures
            view_of(r) == self@.remaining_balance(current_day@),
    {
        let cycle: isize = days_in_month(current_day);
        let today: isize = current_day.day() as isize;
        let rebased_today: isize = rebase(today, self.reset_day, cycle);
        let ghost wanted = pending(self.reset_day as int, today as int, cycle as int);
        let mut total: Option<Amount> = Some(Amount::zero());
        let mut i: usize = 0;
        while i < self.payments.len()
            invariant
                0 <= i <= self.payments@.len(),
                cycle > 0,
                rebased_today == rebased(today as int, self.reset_day as int, cycle as int),
                wanted == pending(self.reset_day as int, today as int, cycle as int),
                view_of(total) == spec_total(
                    self.payments@.take(i as int).filter(wanted).map_values(amount_of()),
                ),
            decreases self.payments@.len() - i,
        {
            let payment = &self.payments[i];
            let rebased_paid: isize = rebase(payment.day_paid, self.reset_day, cycle);
            proof {
                let before = self.payments@.take(i as int);
                let kept = before.filter(wanted);
                assert(self.payments@.take(i + 1) =~= before.push(*payment));
                before.lemma_filter_push(*payment, wanted);
                if wanted(*payment) {
                    kept.lemma_push_map_commute(amount_of(), *payment);
                    let amounts = kept.map_values(amount_of());
                    assert(amounts.push(payment.amount@).drop_last() =~= amounts);
                }
            }
            if rebased_paid > rebased_today {
                total =
                match total {
                    Some(t) => decimal_checked_add(t, payment.amount),
                    None => None,
                };
            }
            i = i + 1;
        }
        assert(self.payments@.take(i as int) =~= self.payments@);
        match total {
            Some(t) => decimal_checked_sub(self.balance, t),
            None => None,
        }
    }

    /// The balance that remains on `current_day`: the balance minus the
    /// amounts of the payments that are still pending on that day, added up
    /// in the order of the list.
    ///
    /// The total and the difference must be representable; see
    /// [`PaymentManager::checked_remaining_balance`] for a caller who cannot
    /// know that.
    pub fn remaining_balance(&self, current_day: Date) -> (r: Amount)
        requires
            self@.remaining_balance(current_day@) is Some,
        ensures
            Some(r@) == self@.remaining_balance(current_day@),
    {
        self.project(current_day).unwrap()
    }

    /// The balance that remains on `current_day`, or `None` where the total
    /// of the pending payments or its difference from the balance cannot be
    /// represented.
    pub fn checked_remaining_balance(&self, current_day: Date) -> (r: Option<Amount>)
        ensures
            view_of(r) == self@.remaining_balance(current_day@),
    {
        if self.project(current_day).is_some() {
            Some(self.remaining_balance(current_day))
        } else {
            None
        }
    }
}

} // verus!
