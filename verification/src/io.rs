//! Reading transactions from a whole input in one of the two formats.
pub mod csv;
pub mod parsing;
pub mod text;

use crate::{all_well_formed, transactions_view, Transaction, TransactionModel};
use vstd::prelude::*;
use vstd::std_specs::convert::FromSpecImpl;

verus! {

/// The format of an input.
#[derive(Debug, Clone, Copy, PartialEq, Eq, Structural)]
pub enum Format {
    /// A header line naming the columns, then comma-separated lines.
    Csv,
    /// `;`-separated lines with the columns date, category, kind, amount.
    Text,
}

/// Why an input could not be read, in either format.
#[derive(Debug)]
pub enum TransactionReadError {
    Csv(csv::TransactionReadError),
    Text(text::TransactionParseError),
}

impl From<csv::TransactionReadError> for TransactionReadError {
    fn from(value: csv::TransactionReadError) -> (res: Self) {
        TransactionReadError::Csv(value)
    }
}

impl FromSpecImpl<csv::TransactionReadError> for TransactionReadError {
    open spec fn obeys_from_spec() -> bool {
        true
    }

    open spec fn from_spec(v: csv::TransactionReadError) -> Self {
        TransactionReadError::Csv(v)
    }
}

impl From<text::TransactionParseError> for TransactionReadError {
    fn from(value: text::TransactionParseError) -> (res: Self) {
        TransactionReadError::Text(value)
    }
}

impl FromSpecImpl<text::TransactionParseError> for TransactionReadError {
    open spec fn obeys_from_spec() -> bool {
        true
    }

    open spec fn from_spec(v: text::TransactionParseError) -> Self {
        TransactionReadError::Text(v)
    }
}

impl TransactionReadError {
    /// The text that describes the error: that of the error of the format,
    /// with nothing added.
    pub open spec fn message_text(&self) -> Seq<char> {
        match self {
            TransactionReadError::Csv(e) => e.message_text(),
            TransactionReadError::Text(e) => e.message_text(),
        }
    }

    /// A description of the error: the description of the error of the
    /// format, unchanged.
    pub fn message(&self) -> (res: String)
        ensures
            res@ == self.message_text(),
            match self {
                TransactionReadError::Csv(e) => res@ == e.message_text(),
                TransactionReadError::Text(e) => res@ == e.message_text(),
            },
    {
        match self {
            TransactionReadError::Csv(e) => e.message(),
            TransactionReadError::Text(e) => e.message(),
        }
    }
}

/// The error of either format describes itself in the same words once it
/// is wrapped as a `TransactionReadError`.
pub proof fn law_message_adds_no_text(e: csv::TransactionReadError, e2: text::TransactionParseError)
    ensures
        TransactionReadError::Csv(e).message_text() == e.message_text(),
        TransactionReadError::Text(e2).message_text() == e2.message_text(),
{
}

/// The content of a `TransactionReadError`.
pub ghost enum ReadErrorModel {
    Csv(csv::CsvErrorModel),
    Text(text::TextErrorModel),
}

impl View for TransactionReadError {
    type V = ReadErrorModel;

    open spec fn view(&self) -> ReadErrorModel {
        match self {
            TransactionReadError::Csv(e) => ReadErrorModel::Csv(e@),
            TransactionReadError::Text(e) => ReadErrorModel::Text(e@),
        }
    }
}

/// The transactions of `input` read in `format`, or why it has none.
pub open spec fn parse_input(format: Format, input: Seq<char>) -> Result<
    Seq<TransactionModel>,
    ReadErrorModel,
> {
    match format {
        Format::Csv => match csv::parse_csv(input) {
            Ok(ts) => Ok(ts),
            Err(e) => Err(ReadErrorModel::Csv(e)),
        },
        Format::Text => match text::parse_text(input) {
            Ok(ts) => Ok(ts),
            Err(e) => Err(ReadErrorModel::Text(e)),
        },
    }
}

/// The content of the outcome of reading an input.
pub open spec fn read_result_view(r: Result<Vec<Transaction>, TransactionReadError>) -> Result<
    Seq<TransactionModel>,
    ReadErrorModel,
> {
    match r {
        Ok(v) => Ok(transactions_view(v@)),
        Err(e) => Err(e@),
    }
}

/// Reading in a format gives what that format's reader gives, its
/// transactions unchanged and its error wrapped as the format's variant.
pub proof fn law_format_picks_reader(input: Seq<char>)
    ensures
        parse_input(Format::Csv, input) == match csv::parse_csv(input) {
            Ok(ts) => Ok(ts),
            Err(e) => Err(ReadErrorModel::Csv(e)),
        },
        parse_input(Format::Text, input) == match text::parse_text(input) {
            Ok(ts) => Ok(ts),
            Err(e) => Err(ReadErrorModel::Text(e)),
        },
{
}

/// The transactions of `input` in `format` (see `parse_input`).
pub fn read_transactions(format: Format, input: &str) -> (res: Result<Vec<Transaction>, TransactionReadError>)
    requires
        format == Format::Csv ==> !csv::lookup_fails(input@),
    ensures
        read_result_view(res) == parse_input(format, input@),
        res matches Ok(v) ==> all_well_formed(v@),
{
    match format {
        Format::Csv => match csv::read_transactions(input) {
            Ok(v) => Ok(v),
            Err(e) => Err(TransactionReadError::from(e)),
        },
        Format::Text => match text::read_transactions(input) {
            Ok(v) => Ok(v),
            Err(e) => Err(TransactionReadError::from(e)),
        },
    }
}

} // verus!
