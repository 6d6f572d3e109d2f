//! Reading income and expense transactions from two plain-text formats: a
//! CSV table whose header names the columns, and a `;`-separated list with a
//! fixed column order.
use vstd::prelude::*;

pub mod io;
pub mod lexing;

verus! {

/// Whether a transaction brings money in or takes it out.
#[derive(Debug, Clone, Copy, PartialEq, Eq, Structural)]
pub enum TransactionType {
    Income,
    Expense,
}

/// The earliest year of a date.
pub const MIN_YEAR: i32 = -262143i32;

/// The latest year of a date.
pub const MAX_YEAR: i32 = 262142i32;

/// A day of the proleptic Gregorian calendar, by year, month (1 to 12) and
/// day of the month (from 1).
#[derive(Debug, Clone, Copy, PartialEq, Eq, Structural)]
pub struct Date {
    pub year: i32,
    pub month: u32,
    pub day: u32,
}

/// Whether `year` has a 29th of February.
pub open spec fn is_leap_year(year: int) -> bool {
    year % 4 == 0 && (year % 100 != 0 || year % 400 == 0)
}

/// The number of days of `month` in `year`.
pub open spec fn days_in_month(year: int, month: int) -> int {
    if month == 2 {
        if is_leap_year(year) {
            29
        } else {
            28
        }
    } else if month == 4 || month == 6 || month == 9 || month == 11 {
        30
    } else {
        31
    }
}

impl Date {
    /// Whether the date exists in the calendar and lies in the years a date
    /// can have.
    pub open spec fn is_valid(self) -> bool {
        &&& MIN_YEAR <= self.year <= MAX_YEAR
        &&& 1 <= self.month <= 12
        &&& 1 <= self.day <= days_in_month(self.year as int, self.month as int)
    }
}

/// One income or expense: its kind, the day it happened, a category and an
/// amount in the smallest unit of the currency.
#[derive(Debug, PartialEq)]
pub struct Transaction {
    pub type_: TransactionType,
    pub date: Date,
    pub category: String,
    pub amount: u64,
}

impl Transaction {
    /// Whether the transaction has a valid date and a non-empty category, as
    /// every transaction that is read has.
    pub open spec fn is_well_formed(&self) -> bool {
        self.date.is_valid() && self.category@.len() > 0
    }
}

/// Whether every transaction in `v` is well formed.
pub open spec fn all_well_formed(v: Seq<Transaction>) -> bool {
    forall|i: int| 0 <= i < v.len() ==> #[trigger] v[i].is_well_formed()
}

/// The content of a transaction, with the category as characters.
pub ghost struct TransactionModel {
    pub type_: TransactionType,
    pub date: Date,
    pub category: Seq<char>,
    pub amount: u64,
}

impl View for Transaction {
    type V = TransactionModel;

    open spec fn view(&self) -> TransactionModel {
        TransactionModel {
            type_: self.type_,
            date: self.date,
            category: self.category@,
            amount: self.amount,
        }
    }
}

/// The contents of a list of transactions.
pub open spec fn transactions_view(v: Seq<Transaction>) -> Seq<TransactionModel> {
    v.map_values(|t: Transaction| t@)
}

} // verus!
