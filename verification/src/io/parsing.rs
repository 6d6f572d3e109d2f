//! Parsing the four field values of a transaction: its kind, its date, its
//! category and its amount.
use crate::lexing::{chars_equal, chars_of};
use crate::{Date, Transaction, TransactionModel, TransactionType};
use chrono::format::ParseErrorKind;
use chrono::{Datelike, NaiveDate};
use vstd::prelude::*;
use vstd::string::StringExecFns;

verus! {

/// Why a text is not a date, as chrono's parser reports it.
#[derive(Debug, Clone, Copy, PartialEq, Eq, Structural)]
pub enum DateParseError {
    /// A field is out of its permitted range.
    OutOfRange,
    /// No date has the fields given.
    Impossible,
    /// The fields given are not enough for a date.
    NotEnough,
    /// The text holds characters that do not fit the format.
    Invalid,
    /// The text ends too early.
    TooShort,
    /// The text goes on after the date.
    TooLong,
    /// The format is bad or unsupported.
    BadFormat,
}

/// What went wrong with a date, in the words of chrono's `ParseError`.
pub open spec fn date_error_text(k: DateParseError) -> Seq<char> {
    match k {
        DateParseError::OutOfRange => "input is out of range"@,
        DateParseError::Impossible => "no possible date and time matching input"@,
        DateParseError::NotEnough => "input is not enough for unique date and time"@,
        DateParseError::Invalid => "input contains invalid characters"@,
        DateParseError::TooShort => "premature end of input"@,
        DateParseError::TooLong => "trailing input"@,
        DateParseError::BadFormat => "bad or unsupported format string"@,
    }
}

impl DateParseError {
    /// What went wrong (see `date_error_text`).
    pub fn message(&self) -> (res: String)
        ensures
            res@ == date_error_text(*self),
    {
        match self {
            DateParseError::OutOfRange => String::from_str("input is out of range"),
            DateParseError::Impossible => String::from_str("no possible date and time matching input"),
            DateParseError::NotEnough => String::from_str(
                "input is not enough for unique date and time",
            ),
            DateParseError::Invalid => String::from_str("input contains invalid characters"),
            DateParseError::TooShort => String::from_str("premature end of input"),
            DateParseError::TooLong => String::from_str("trailing input"),
            DateParseError::BadFormat => String::from_str("bad or unsupported format string"),
        }
    }
}

/// Why a text is not an amount, as `u64`'s parser reports it.
#[derive(Debug, Clone, Copy, PartialEq, Eq, Structural)]
pub enum AmountParseError {
    /// The text is empty.
    Empty,
    /// The text holds a character that is not a decimal digit where one is
    /// needed.
    InvalidDigit,
    /// The number is larger than `u64::MAX`.
    PosOverflow,
}

/// Why one field value of a transaction could not be parsed.
#[derive(Debug)]
pub enum TransactionFieldValueParseError {
    Type(String),
    Date(DateParseError),
    Category(String),
    Amount(AmountParseError),
}

/// The content of a `TransactionFieldValueParseError`.
pub ghost enum FieldErrorModel {
    Type(Seq<char>),
    Date(DateParseError),
    Category(Seq<char>),
    Amount(AmountParseError),
}

impl View for TransactionFieldValueParseError {
    type V = FieldErrorModel;

    open spec fn view(&self) -> FieldErrorModel {
        match self {
            TransactionFieldValueParseError::Type(s) => FieldErrorModel::Type(s@),
            TransactionFieldValueParseError::Date(k) => FieldErrorModel::Date(*k),
            TransactionFieldValueParseError::Category(s) => FieldErrorModel::Category(s@),
            TransactionFieldValueParseError::Amount(k) => FieldErrorModel::Amount(*k),
        }
    }
}

/// What went wrong with an amount, in the words of `u64`'s parser.
pub open spec fn amount_error_text(k: AmountParseError) -> Seq<char> {
    match k {
        AmountParseError::Empty => "cannot parse integer from empty string"@,
        AmountParseError::InvalidDigit => "invalid digit found in string"@,
        AmountParseError::PosOverflow => "number too large to fit in target type"@,
    }
}

impl AmountParseError {
    /// What went wrong (see `amount_error_text`).
    pub fn message(&self) -> (res: String)
        ensures
            res@ == amount_error_text(*self),
    {
        match self {
            AmountParseError::Empty => String::from_str("cannot parse integer from empty string"),
            AmountParseError::InvalidDigit => String::from_str("invalid digit found in string"),
            AmountParseError::PosOverflow => String::from_str("number too large to fit in target type"),
        }
    }
}

impl TransactionFieldValueParseError {
    /// The text that describes the error.
    pub open spec fn message_text(&self) -> Seq<char> {
        match self {
            TransactionFieldValueParseError::Type(s) => "invalid type string: \""@ + s@ + "\""@,
            TransactionFieldValueParseError::Date(k) => "cannot parse date: "@ + date_error_text(*k),
            TransactionFieldValueParseError::Category(s) => "invalid category string: \""@ + s@
                + "\""@,
            TransactionFieldValueParseError::Amount(k) => "cannot parse amount: "@
                + amount_error_text(*k),
        }
    }

    /// A description of the error (see `message_text`).
    pub fn message(&self) -> (res: String)
        ensures
            res@ == self.message_text(),
    {
        match self {
            TransactionFieldValueParseError::Type(s) => {
                let mut res = String::from_str("invalid type string: \"");
                res.append(s.as_str());
                res.append("\"");
                res
            },
            TransactionFieldValueParseError::Date(k) => {
                let mut res = String::from_str("cannot parse date: ");
                let detail = k.message();
                res.append(detail.as_str());
                res
            },
            TransactionFieldValueParseError::Category(s) => {
                let mut res = String::from_str("invalid category string: \"");
                res.append(s.as_str());
                res.append("\"");
                res
            },
            TransactionFieldValueParseError::Amount(k) => {
                let mut res = String::from_str("cannot parse amount: ");
                let detail = k.message();
                res.append(detail.as_str());
                res
            },
        }
    }
}

/// What `NaiveDate::parse_from_str(text, format)` gives: the date by year,
/// month and day, or the kind of its error.
pub uninterp spec fn naive_date_parsed(text: Seq<char>, format: Seq<char>) -> Result<
    Date,
    DateParseError,
>;

/// How a transaction writes its date: chrono's format `"%Y-%m-%d"`, year,
/// month and day separated by hyphens.
pub open spec fn naive_date_from_ymd_text(text: Seq<char>) -> Result<Date, DateParseError> {
    naive_date_parsed(text, "%Y-%m-%d"@)
}

/// Calls `chrono::NaiveDate::parse_from_str` and hands back the date it finds
/// by year, month and day, or the kind of its error (`ParseError::kind`). The
/// contract claims that the outcome is the named result `naive_date_parsed`
/// of the text and the format, and that every date chrono returns is a valid
/// calendar date in the years chrono can represent. Chrono never builds its
/// hidden placeholder kind `__Nonexhaustive` (format/mod.rs); the match needs
/// an arm for it, which gives `BadFormat`.
#[verifier::external_body]
fn naive_date_parse_from_str(s: &str, format: &str) -> (res: Result<Date, DateParseError>)
    ensures
        res == naive_date_parsed(s@, format@),
        res matches Ok(d) ==> d.is_valid(),
{
    match NaiveDate::parse_from_str(s, format) {
        Ok(d) => Ok(Date { year: d.year(), month: d.month(), day: d.day() }),
        Err(e) => Err(match e.kind() {
            ParseErrorKind::OutOfRange => DateParseError::OutOfRange,
            ParseErrorKind::Impossible => DateParseError::Impossible,
            ParseErrorKind::NotEnough => DateParseError::NotEnough,
            ParseErrorKind::Invalid => DateParseError::Invalid,
            ParseErrorKind::TooShort => DateParseError::TooShort,
            ParseErrorKind::TooLong => DateParseError::TooLong,
            ParseErrorKind::BadFormat => DateParseError::BadFormat,
            ParseErrorKind::__Nonexhaustive => DateParseError::BadFormat,
        }),
    }
}

/// The kind of transaction that `text` names, if any.
pub open spec fn transaction_type_named(text: Seq<char>) -> Option<TransactionType> {
    if text == "income"@ {
        Some(TransactionType::Income)
    } else if text == "expense"@ {
        Some(TransactionType::Expense)
    } else {
        None
    }
}

/// Exactly two texts name a kind of transaction, `income` and `expense`,
/// each its own kind; any other text, whatever its case or spacing, names
/// none.
pub proof fn law_kind_names(text: Seq<char>)
    ensures
        transaction_type_named(text) == Some(TransactionType::Income) <==> text == "income"@,
        transaction_type_named(text) == Some(TransactionType::Expense) <==> text == "expense"@,
        transaction_type_named(text) is None <==> text != "income"@ && text != "expense"@,
{
    reveal_strlit("income");
    reveal_strlit("expense");
    assert("income"@.len() == 6 && "expense"@.len() == 7);
    assert("income"@ != "expense"@);
}

/// Whether `c` is one of `0` to `9`.
pub open spec fn is_decimal_digit(c: char) -> bool {
    48 <= (c as u32) <= 57
}

/// The value of the decimal digit `c`.
pub open spec fn digit_value(c: char) -> nat {
    ((c as u32) - 48) as nat
}

/// Reading the decimal digits of `d` from the left into a `u64`: the first
/// character that is not a digit gives `InvalidDigit`, and the first digit
/// that takes the value above `u64::MAX` gives `PosOverflow`.
pub open spec fn scan_decimal(d: Seq<char>) -> Result<u64, AmountParseError>
    decreases d.len(),
{
    if d.len() == 0 {
        Ok(0)
    } else {
        match scan_decimal(d.drop_last()) {
            Err(e) => Err(e),
            Ok(v) => if !is_decimal_digit(d.last()) {
                Err(AmountParseError::InvalidDigit)
            } else if v * 10 + digit_value(d.last()) > u64::MAX {
                Err(AmountParseError::PosOverflow)
            } else {
                Ok((v * 10 + digit_value(d.last())) as u64)
            },
        }
    }
}

/// What `text.parse::<u64>()` gives: an optional `+` followed by decimal
/// digits whose value fits in a `u64`.
pub open spec fn parse_u64_text(text: Seq<char>) -> Result<u64, AmountParseError> {
    if text.len() == 0 {
        Err(AmountParseError::Empty)
    } else if text[0] == '+' {
        if text.len() == 1 {
            Err(AmountParseError::InvalidDigit)
        } else {
            scan_decimal(text.drop_first())
        }
    } else {
        scan_decimal(text)
    }
}

/// The decimal digit for `d`, which is below ten.
pub open spec fn digit_char(d: nat) -> char {
    ((48 + d) as u32) as char
}

/// How `v` is written in decimal, without leading zeros.
pub open spec fn decimal_text(v: nat) -> Seq<char>
    decreases v,
{
    if v < 10 {
        seq![digit_char(v)]
    } else {
        decimal_text(v / 10).push(digit_char(v % 10))
    }
}

proof fn lemma_scan_decimal_text(v: nat)
    requires
        v <= u64::MAX,
    ensures
        scan_decimal(decimal_text(v)) == Ok::<u64, AmountParseError>(v as u64),
        decimal_text(v).len() > 0,
        is_decimal_digit(decimal_text(v)[0]),
    decreases v,
{
    if v < 10 {
        let t = decimal_text(v);
        assert(t.drop_last() =~= Seq::<char>::empty());
        assert(scan_decimal(t.drop_last()) == Ok::<u64, AmountParseError>(0));
        assert(t.last() == digit_char(v));
        assert(digit_value(digit_char(v)) == v);
        assert(is_decimal_digit(digit_char(v)));
    } else {
        lemma_scan_decimal_text(v / 10);
        let t = decimal_text(v);
        assert(t.drop_last() =~= decimal_text(v / 10));
        let last = digit_char(v % 10);
        assert(t.last() == last);
        assert(digit_value(last) == v % 10);
        assert(is_decimal_digit(last));
        assert((v / 10) * 10 + v % 10 == v) by (nonlinear_arith);
        assert(scan_decimal(t.drop_last()) == Ok::<u64, AmountParseError>((v / 10) as u64));
        assert(t[0] == decimal_text(v / 10)[0]);
    }
}

/// Every amount written in decimal reads back as itself, with or without a
/// leading `+`.
pub proof fn law_amount_decimal_round_trip(v: u64)
    ensures
        parse_u64_text(decimal_text(v as nat)) == Ok::<u64, AmountParseError>(v),
        parse_u64_text(seq!['+'] + decimal_text(v as nat)) == Ok::<u64, AmountParseError>(v),
{
    lemma_scan_decimal_text(v as nat);
    let t = decimal_text(v as nat);
    assert((seq!['+'] + t).drop_first() =~= t);
}

/// Whether every character of `d` is a decimal digit.
pub open spec fn all_decimal_digits(d: Seq<char>) -> bool {
    forall|i: int| 0 <= i < d.len() ==> #[trigger] is_decimal_digit(d[i])
}

/// The number that the decimal digits `d` write.
pub open spec fn digits_value(d: Seq<char>) -> nat
    decreases d.len(),
{
    if d.len() == 0 {
        0
    } else {
        digits_value(d.drop_last()) * 10 + digit_value(d.last())
    }
}

/// The digits of an amount text: the text without one leading `+`.
pub open spec fn amount_digits(text: Seq<char>) -> Seq<char> {
    if text.len() > 0 && text[0] == '+' {
        text.drop_first()
    } else {
        text
    }
}

proof fn lemma_scan_decimal_ok(d: Seq<char>)
    ensures
        scan_decimal(d) is Ok <==> all_decimal_digits(d) && digits_value(d) <= u64::MAX,
        scan_decimal(d) matches Ok(v) ==> v == digits_value(d),
    decreases d.len(),
{
    if d.len() > 0 {
        let p = d.drop_last();
        lemma_scan_decimal_ok(p);
        assert forall|i: int| 0 <= i < p.len() implies p[i] == d[i] by {}
        if all_decimal_digits(d) {
            assert(all_decimal_digits(p)) by {
                assert forall|i: int| 0 <= i < p.len() implies #[trigger] is_decimal_digit(p[i]) by {
                    assert(is_decimal_digit(d[i]));
                }
            }
            assert(is_decimal_digit(d[d.len() - 1]));
        }
        if scan_decimal(d) is Ok {
            assert(all_decimal_digits(d)) by {
                assert forall|i: int| 0 <= i < d.len() implies #[trigger] is_decimal_digit(d[i]) by {
                    if i < p.len() {
                        assert(is_decimal_digit(p[i]));
                    }
                }
            }
        }
    }
}

/// An amount is read exactly from a text that, after one optional leading
/// `+`, is a non-empty run of decimal digits whose number fits in a `u64`,
/// and the amount is that number; in particular any other character, such
/// as a `.`, a `-` or a space, makes the text no amount.
pub proof fn law_amount_is_its_digits(text: Seq<char>)
    ensures
        parse_u64_text(text) is Ok <==> amount_digits(text).len() > 0 && all_decimal_digits(
            amount_digits(text),
        ) && digits_value(amount_digits(text)) <= u64::MAX,
        parse_u64_text(text) matches Ok(v) ==> v == digits_value(amount_digits(text)),
        (exists|i: int|
            0 <= i < text.len() && !is_decimal_digit(#[trigger] text[i]) && !(i == 0 && text[i]
                == '+')) ==> parse_u64_text(text) is Err,
{
    let d = amount_digits(text);
    lemma_scan_decimal_ok(d);
    if exists|i: int|
        0 <= i < text.len() && !is_decimal_digit(#[trigger] text[i]) && !(i == 0 && text[i] == '+') {
        let i = choose|i: int|
            0 <= i < text.len() && !is_decimal_digit(#[trigger] text[i]) && !(i == 0 && text[i]
                == '+');
        if text[0] == '+' {
            assert(d[i - 1] == text[i]);
        } else {
            assert(d[i] == text[i]);
        }
    }
}

/// The transaction made of a date outcome and the texts of the other three
/// fields, checked in the order date, category, kind, amount.
pub open spec fn fields_to_transaction(
    date: Result<Date, DateParseError>,
    category: Seq<char>,
    type_text: Seq<char>,
    amount_text: Seq<char>,
) -> Result<TransactionModel, FieldErrorModel> {
    match date {
        Err(k) => Err(FieldErrorModel::Date(k)),
        Ok(d) => if category.len() == 0 {
            Err(FieldErrorModel::Category(category))
        } else {
            match transaction_type_named(type_text) {
                None => Err(FieldErrorModel::Type(type_text)),
                Some(t) => match parse_u64_text(amount_text) {
                    Err(k) => Err(FieldErrorModel::Amount(k)),
                    Ok(a) => Ok(
                        TransactionModel { type_: t, date: d, category: category, amount: a },
                    ),
                },
            }
        },
    }
}

/// The fields of a transaction are checked in the order date, category, kind,
/// amount, and the first that fails gives the error: a date error as it
/// came, the category only when it is empty, the kind text unless it is
/// exactly `income` or `expense`, the amount's own error. When all pass, the
/// transaction holds the date, the category text itself, the kind named and
/// the amount read.
pub proof fn law_fields_checked_in_order(
    date: Result<Date, DateParseError>,
    category: Seq<char>,
    type_text: Seq<char>,
    amount_text: Seq<char>,
)
    ensures
        date matches Err(k) ==> fields_to_transaction(date, category, type_text, amount_text)
            == Err::<TransactionModel, FieldErrorModel>(FieldErrorModel::Date(k)),
        date is Ok && category.len() == 0 ==> fields_to_transaction(
            date,
            category,
            type_text,
            amount_text,
        ) == Err::<TransactionModel, FieldErrorModel>(FieldErrorModel::Category(category)),
        date is Ok && category.len() > 0 && type_text != "income"@ && type_text != "expense"@
            ==> fields_to_transaction(date, category, type_text, amount_text) == Err::<
            TransactionModel,
            FieldErrorModel,
        >(FieldErrorModel::Type(type_text)),
        date is Ok && category.len() > 0 && (type_text == "income"@ || type_text == "expense"@)
            && parse_u64_text(amount_text) is Err ==> fields_to_transaction(
            date,
            category,
            type_text,
            amount_text,
        ) == Err::<TransactionModel, FieldErrorModel>(
            FieldErrorModel::Amount(parse_u64_text(amount_text)->Err_0),
        ),
        date is Ok && category.len() > 0 && (type_text == "income"@ || type_text == "expense"@)
            && parse_u64_text(amount_text) is Ok ==> fields_to_transaction(
            date,
            category,
            type_text,
            amount_text,
        ) == Ok::<TransactionModel, FieldErrorModel>(
            TransactionModel {
                type_: if type_text == "income"@ {
                    TransactionType::Income
                } else {
                    TransactionType::Expense
                },
                date: date->Ok_0,
                category: category,
                amount: parse_u64_text(amount_text)->Ok_0,
            },
        ),
{
    reveal_strlit("income");
    reveal_strlit("expense");
}

/// The content of the outcome of parsing the fields of one transaction.
pub open spec fn field_result_view(r: Result<Transaction, TransactionFieldValueParseError>) -> Result<
    TransactionModel,
    FieldErrorModel,
> {
    match r {
        Ok(t) => Ok(t@),
        Err(e) => Err(e@),
    }
}

/// The kind named by `type_str`: `income` or `expense`, exactly; any other
/// text is handed back as the error.
pub fn parse_transaction_type(type_str: &str) -> (res: Result<TransactionType, String>)
    ensures
        match res {
            Ok(t) => transaction_type_named(type_str@) == Some(t),
            Err(s) => transaction_type_named(type_str@) is None && s@ == type_str@,
        },
{
    let cs = chars_of(type_str);
    let income = chars_of("income");
    let expense = chars_of("expense");
    if chars_equal(&cs, &income) {
        Ok(TransactionType::Income)
    } else if chars_equal(&cs, &expense) {
        Ok(TransactionType::Expense)
    } else {
        Err(type_str.to_owned())
    }
}

/// The date that `date_str` writes as year, month and day (chrono's
/// `"%Y-%m-%d"`).
pub fn parse_transaction_date(date_str: &str) -> (res: Result<Date, DateParseError>)
    ensures
        res == naive_date_parsed(date_str@, "%Y-%m-%d"@),
        res matches Ok(d) ==> d.is_valid(),
{
    naive_date_parse_from_str(date_str, "%Y-%m-%d")
}

/// The category `category_str`, which must not be empty; the empty text is
/// handed back as the error.
pub fn parse_transaction_category(category_str: &str) -> (res: Result<String, String>)
    ensures
        match res {
            Ok(c) => category_str@.len() > 0 && c@ == category_str@,
            Err(e) => category_str@.len() == 0 && e@ == category_str@,
        },
{
    if category_str.is_empty() {
        Err(category_str.to_owned())
    } else {
        Ok(category_str.to_owned())
    }
}

/// A failed scan of a prefix of `d` is the outcome of scanning all of `d`.
proof fn lemma_scan_decimal_error_stays(d: Seq<char>, k: int)
    requires
        0 <= k <= d.len(),
        scan_decimal(d.take(k)) is Err,
    ensures
        scan_decimal(d) == scan_decimal(d.take(k)),
    decreases d.len() - k,
{
    if k < d.len() {
        assert(d.take(k + 1).drop_last() =~= d.take(k));
        lemma_scan_decimal_error_stays(d, k + 1);
    } else {
        assert(d.take(k) =~= d);
    }
}

/// The amount that `amount_str` writes in decimal, with an optional `+`.
pub fn parse_transaction_amount(amount_str: &str) -> (res: Result<u64, AmountParseError>)
    ensures
        res == parse_u64_text(amount_str@),
{
    let cs = chars_of(amount_str);
    let n = cs.len();
    if n == 0 {
        return Err(AmountParseError::Empty);
    }
    let mut start: usize = 0;
    if cs[0] == '+' {
        if n == 1 {
            return Err(AmountParseError::InvalidDigit);
        }
        start = 1;
    }
    let ghost digits = if start == 1 {
        cs@.drop_first()
    } else {
        cs@
    };
    assert(digits =~= cs@.subrange(start as int, n as int));
    assert(parse_u64_text(amount_str@) == scan_decimal(digits));
    let mut acc: u64 = 0;
    let mut i: usize = start;
    assert(digits.take(0) =~= Seq::<char>::empty());
    while i < n
        invariant
            start <= i <= n == cs@.len(),
            digits == cs@.subrange(start as int, n as int),
            parse_u64_text(amount_str@) == scan_decimal(digits),
            scan_decimal(digits.take(i - start)) == Ok::<u64, AmountParseError>(acc),
        decreases n - i,
    {
        let c = cs[i];
        let ghost k = i - start;
        assert(digits.take(k + 1).drop_last() =~= digits.take(k));
        assert(digits.take(k + 1).last() == c);
        let u = c as u32;
        if u < 48 || u > 57 {
            proof {
                lemma_scan_decimal_error_stays(digits, k + 1);
            }
            return Err(AmountParseError::InvalidDigit);
        }
        let d = (u - 48) as u64;
        match acc.checked_mul(10) {
            None => {
                proof {
                    lemma_scan_decimal_error_stays(digits, k + 1);
                }
                return Err(AmountParseError::PosOverflow);
            },
            Some(m) => match m.checked_add(d) {
                None => {
                    proof {
                        lemma_scan_decimal_error_stays(digits, k + 1);
                    }
                    return Err(AmountParseError::PosOverflow);
                },
                Some(r) => {
                    acc = r;
                },
            },
        }
        i += 1;
    }
    assert(digits.take(n - start) =~= digits);
    Ok(acc)
}

/// The transaction made of the outcome `date` of the date parser and the
/// texts of the other three fields, checked in the order date, category,
/// kind, amount; a date error is handed on as it came.
pub fn transaction_from_fields(
    date: Result<Date, DateParseError>,
    category_str: &str,
    type_str: &str,
    amount_str: &str,
) -> (res: Result<Transaction, TransactionFieldValueParseError>)
    ensures
        field_result_view(res) == fields_to_transaction(
            date,
            category_str@,
            type_str@,
            amount_str@,
        ),
        res matches Ok(t) ==> date == Ok::<Date, DateParseError>(t.date),
{
    let date = match date {
        Ok(d) => d,
        Err(e) => return Err(TransactionFieldValueParseError::Date(e)),
    };
    let category = match parse_transaction_category(category_str) {
        Ok(c) => c,
        Err(s) => return Err(TransactionFieldValueParseError::Category(s)),
    };
    let type_ = match parse_transaction_type(type_str) {
        Ok(t) => t,
        Err(s) => return Err(TransactionFieldValueParseError::Type(s)),
    };
    let amount = match parse_transaction_amount(amount_str) {
        Ok(a) => a,
        Err(k) => return Err(TransactionFieldValueParseError::Amount(k)),
    };
    Ok(Transaction { type_, date, category, amount })
}

/// The transaction whose four fields have the texts given, each parsed by
/// its own parser.
pub fn parse_transaction_fields(
    date_str: &str,
    category_str: &str,
    type_str: &str,
    amount_str: &str,
) -> (res: Result<Transaction, TransactionFieldValueParseError>)
    ensures
        field_result_view(res) == fields_to_transaction(
            naive_date_from_ymd_text(date_str@),
            category_str@,
            type_str@,
            amount_str@,
        ),
        res matches Ok(t) ==> t.is_well_formed(),
{
    let date = parse_transaction_date(date_str);
    transaction_from_fields(date, category_str, type_str, amount_str)
}

} // verus!
