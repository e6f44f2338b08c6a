//! Bill tracking: recurring monthly payments and the balance that is left
//! to spend before the next pay-cycle reset.
//!
//! - [`utils`]: calendar arithmetic, the non-negative remainder and the
//!   lengths of the months.
//! - [`amount`]: amounts of money as decimals.
//! - [`payment`]: payments, and the balance that remains once the pending
//!   ones are taken off.
//! - [`sorting`]: payments in the alphabetical order of their names.
//! - [`commands`]: what the commands of the bill tracker do with a list of
//!   payments.
//! - [`text`]: the order of names, and whole numbers as text.

pub mod amount;
pub mod commands;
pub mod payment;
pub mod sorting;
pub mod text;
pub mod utils;
