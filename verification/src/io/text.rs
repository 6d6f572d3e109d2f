//! The `;`-separated format: one transaction per line, its fields in the
//! order date, category, kind, amount.
use crate::io::parsing::{
    fields_to_transaction, naive_date_from_ymd_text, parse_transaction_fields, FieldErrorModel,
};
pub use crate::io::parsing::TransactionFieldValueParseError;
use crate::lexing::{
    all_white_space, chars_of, join, lemma_trim_ignores_padding, law_split_join, lines, lines_of, split, split_chars,
    string_from_chars, trim, trim_chars, views,
};
use crate::{all_well_formed, transactions_view, Transaction, TransactionModel};
use vstd::prelude::*;
use vstd::string::StringExecFns;

verus! {

/// Why a `;`-separated input could not be read.
#[derive(Debug)]
pub enum TransactionParseError {
    /// A line that does not hold exactly four fields: its pieces joined
    /// back with `;`, which is the line without surrounding white space
    /// (see `law_join_split`).
    BadInputLine(String),
    /// A field value that could not be parsed.
    FieldValue(TransactionFieldValueParseError),
}

/// The content of a `TransactionParseError`.
pub ghost enum TextErrorModel {
    BadInputLine(Seq<char>),
    FieldValue(FieldErrorModel),
}

impl View for TransactionParseError {
    type V = TextErrorModel;

    open spec fn view(&self) -> TextErrorModel {
        match self {
            TransactionParseError::BadInputLine(s) => TextErrorModel::BadInputLine(s@),
            TransactionParseError::FieldValue(e) => TextErrorModel::FieldValue(e@),
        }
    }
}

impl TransactionParseError {
    /// The text that describes the error.
    pub open spec fn message_text(&self) -> Seq<char> {
        match self {
            TransactionParseError::BadInputLine(l) => "incorrectly formatted line in input data: "@ + l@,
            TransactionParseError::FieldValue(e) => "non-parseable field value: "@ + e.message_text(),
        }
    }

    /// A description of the error (see `message_text`).
    pub fn message(&self) -> (res: String)
        ensures
            res@ == self.message_text(),
    {
        match self {
            TransactionParseError::BadInputLine(l) => {
                let mut res = String::from_str("incorrectly formatted line in input data: ");
                res.append(l.as_str());
                res
            },
            TransactionParseError::FieldValue(e) => {
                let mut res = String::from_str("non-parseable field value: ");
                let detail = e.message();
                res.append(detail.as_str());
                res
            },
        }
    }
}

/// The transaction on one line: the line without surrounding white space,
/// cut at `;` into exactly four fields, date, category, kind and amount.
pub open spec fn parse_text_line(line: Seq<char>) -> Result<TransactionModel, TextErrorModel> {
    let t = trim(line);
    let f = split(t, ';');
    if f.len() != 4 {
        Err(TextErrorModel::BadInputLine(t))
    } else {
        match fields_to_transaction(naive_date_from_ymd_text(f[0]), f[1], f[2], f[3]) {
            Ok(m) => Ok(m),
            Err(e) => Err(TextErrorModel::FieldValue(e)),
        }
    }
}

/// The transactions on `ls`, one per line and in order, or the error of the
/// first line that has none.
pub open spec fn parse_text_lines(ls: Seq<Seq<char>>) -> Result<Seq<TransactionModel>, TextErrorModel>
    decreases ls.len(),
{
    if ls.len() == 0 {
        Ok(Seq::empty())
    } else {
        match parse_text_lines(ls.drop_last()) {
            Err(e) => Err(e),
            Ok(ts) => match parse_text_line(ls.last()) {
                Err(e) => Err(e),
                Ok(t) => Ok(ts.push(t)),
            },
        }
    }
}

/// The transactions of a whole `;`-separated input.
pub open spec fn parse_text(input: Seq<char>) -> Result<Seq<TransactionModel>, TextErrorModel> {
    parse_text_lines(lines(input))
}

/// The content of the outcome of reading one line.
pub open spec fn line_result_view(r: Result<Transaction, TransactionParseError>) -> Result<
    TransactionModel,
    TextErrorModel,
> {
    match r {
        Ok(t) => Ok(t@),
        Err(e) => Err(e@),
    }
}

/// The content of the outcome of reading an input.
pub open spec fn read_result_view(r: Result<Vec<Transaction>, TransactionParseError>) -> Result<
    Seq<TransactionModel>,
    TextErrorModel,
> {
    match r {
        Ok(v) => Ok(transactions_view(v@)),
        Err(e) => Err(e@),
    }
}

/// An error on some first lines is the outcome of all of them.
pub proof fn lemma_text_error_stays(ls: Seq<Seq<char>>, k: int)
    requires
        0 <= k <= ls.len(),
        parse_text_lines(ls.take(k)) is Err,
    ensures
        parse_text_lines(ls) == parse_text_lines(ls.take(k)),
    decreases ls.len() - k,
{
    if k < ls.len() {
        assert(ls.take(k + 1).drop_last() =~= ls.take(k));
        lemma_text_error_stays(ls, k + 1);
    } else {
        assert(ls.take(k) =~= ls);
    }
}

/// White space before or after a line does not change what the line reads
/// as.
pub proof fn law_line_padding_ignored(before: Seq<char>, line: Seq<char>, after: Seq<char>)
    requires
        all_white_space(before),
        all_white_space(after),
    ensures
        parse_text_line(before + line + after) == parse_text_line(line),
{
    lemma_trim_ignores_padding(before, line, after);
}

/// Reading lines gives one transaction per line, in the order of the lines,
/// exactly when every line holds one; otherwise it gives the error of the
/// first line that holds none.
pub proof fn law_one_transaction_per_line(ls: Seq<Seq<char>>)
    ensures
        parse_text_lines(ls) is Ok <==> forall|i: int|
            0 <= i < ls.len() ==> #[trigger] parse_text_line(ls[i]) is Ok,
        parse_text_lines(ls) matches Ok(ts) ==> ts.len() == ls.len() && forall|i: int|
            0 <= i < ls.len() ==> Ok::<TransactionModel, TextErrorModel>(ts[i]) == #[trigger] parse_text_line(ls[i]),
        parse_text_lines(ls) matches Err(e) ==> exists|k: int|
            0 <= k < ls.len() && #[trigger] parse_text_line(ls[k]) == Err::<TransactionModel, TextErrorModel>(e)
                && forall|j: int| 0 <= j < k ==> #[trigger] parse_text_line(ls[j]) is Ok,
    decreases ls.len(),
{
    if ls.len() > 0 {
        let prev = ls.drop_last();
        law_one_transaction_per_line(prev);
        assert forall|i: int| 0 <= i < prev.len() implies prev[i] == ls[i] by {}
        match parse_text_lines(prev) {
            Ok(ts) => {
                if parse_text_lines(ls) is Ok {
                    assert forall|i: int| 0 <= i < ls.len() implies #[trigger] parse_text_line(ls[i]) is Ok by {
                        if i < prev.len() {
                            assert(prev[i] == ls[i]);
                        }
                    }
                } else {
                    assert(parse_text_line(ls[ls.len() - 1]) is Err);
                }
            },
            Err(e) => {
                let k = choose|k: int|
                    0 <= k < prev.len() && #[trigger] parse_text_line(prev[k]) == Err::<TransactionModel, TextErrorModel>(e)
                        && forall|j: int| 0 <= j < k ==> #[trigger] parse_text_line(prev[j]) is Ok;
                assert(prev[k] == ls[k]);
                assert forall|j: int| 0 <= j < k implies #[trigger] parse_text_line(ls[j]) is Ok by {
                    assert(prev[j] == ls[j]);
                }
            },
        }
    }
}

/// A line is cut at `;` and nowhere else: four field texts that hold no
/// `;`, joined with `;` into a line without surrounding white space, read as
/// the transaction of exactly those four texts, whatever else (such as `,`
/// or spaces) they hold; and a line that does not cut into four pieces at
/// `;` is refused as a whole.
pub proof fn law_line_cut_at_semicolons(
    date: Seq<char>,
    category: Seq<char>,
    kind: Seq<char>,
    amount: Seq<char>,
    line: Seq<char>,
)
    requires
        !date.contains(';'),
        !category.contains(';'),
        !kind.contains(';'),
        !amount.contains(';'),
        trim(join(seq![date, category, kind, amount], ';')) == join(
            seq![date, category, kind, amount],
            ';',
        ),
    ensures
        parse_text_line(join(seq![date, category, kind, amount], ';')) == match fields_to_transaction(
            naive_date_from_ymd_text(date),
            category,
            kind,
            amount,
        ) {
            Ok(m) => Ok::<TransactionModel, TextErrorModel>(m),
            Err(e) => Err(TextErrorModel::FieldValue(e)),
        },
        split(trim(line), ';').len() != 4 ==> parse_text_line(line) == Err::<
            TransactionModel,
            TextErrorModel,
        >(TextErrorModel::BadInputLine(trim(line))),
{
    let parts = seq![date, category, kind, amount];
    assert forall|k: int| 0 <= k < parts.len() implies !(#[trigger] parts[k]).contains(';') by {}
    law_split_join(parts, ';');
}

/// Reading an input gives one transaction per line of the input, in the
/// order of the lines, exactly when every line holds one, with nothing
/// dropped, merged or added; otherwise it gives the error of the first line
/// that holds none.
pub proof fn law_one_transaction_per_input_line(input: Seq<char>)
    ensures
        parse_text(input) is Ok <==> forall|i: int|
            0 <= i < lines(input).len() ==> #[trigger] parse_text_line(lines(input)[i]) is Ok,
        parse_text(input) is Ok ==> parse_text(input)->Ok_0.len() == lines(input).len() && forall|i: int|
            0 <= i < lines(input).len() ==> Ok::<TransactionModel, TextErrorModel>(
                parse_text(input)->Ok_0[i],
            ) == #[trigger] parse_text_line(lines(input)[i]),
        parse_text(input) is Err ==> exists|k: int|
            0 <= k < lines(input).len() && #[trigger] parse_text_line(lines(input)[k]) == Err::<
                TransactionModel,
                TextErrorModel,
            >(parse_text(input)->Err_0) && forall|j: int|
                0 <= j < k ==> #[trigger] parse_text_line(lines(input)[j]) is Ok,
{
    law_one_transaction_per_line(lines(input));
}

fn parse_line_chars(line: &[char]) -> (res: Result<Transaction, TransactionParseError>)
    ensures
        line_result_view(res) == parse_text_line(line@),
        res matches Ok(t) ==> t.is_well_formed(),
{
    let t = trim_chars(line);
    let parts = split_chars(&t, ';');
    if parts.len() != 4 {
        return Err(TransactionParseError::BadInputLine(string_from_chars(&t)));
    }
    assert(parts[0]@ == split(t@, ';')[0]);
    assert(parts[1]@ == split(t@, ';')[1]);
    assert(parts[2]@ == split(t@, ';')[2]);
    assert(parts[3]@ == split(t@, ';')[3]);
    let date_str = string_from_chars(&parts[0]);
    let category_str = string_from_chars(&parts[1]);
    let type_str = string_from_chars(&parts[2]);
    let amount_str = string_from_chars(&parts[3]);
    match parse_transaction_fields(
        date_str.as_str(),
        category_str.as_str(),
        type_str.as_str(),
        amount_str.as_str(),
    ) {
        Ok(tx) => Ok(tx),
        Err(e) => Err(TransactionParseError::FieldValue(e)),
    }
}

/// The transaction on the line `tx_line` (see `parse_text_line`).
pub fn parse_transaction(tx_line: &str) -> (res: Result<Transaction, TransactionParseError>)
    ensures
        line_result_view(res) == parse_text_line(tx_line@),
        res matches Ok(t) ==> t.is_well_formed(),
{
    let cs = chars_of(tx_line);
    parse_line_chars(&cs)
}

/// The transactions of `input`, one per line in the order of the lines, or
/// the error of the first line that holds none (see `parse_text`).
pub fn read_transactions(input: &str) -> (res: Result<Vec<Transaction>, TransactionParseError>)
    ensures
        read_result_view(res) == parse_text(input@),
        res matches Ok(v) ==> all_well_formed(v@),
{
    let cs = chars_of(input);
    let ls = lines_of(&cs);
    let n = ls.len();
    let mut result: Vec<Transaction> = Vec::new();
    assert(views(ls@).take(0) =~= Seq::<Seq<char>>::empty());
    assert(transactions_view(result@) =~= Seq::<TransactionModel>::empty());
    for i in 0..n
        invariant
            n == ls@.len(),
            views(ls@) == lines(input@),
            parse_text_lines(views(ls@).take(i as int)) == Ok::<
                Seq<TransactionModel>,
                TextErrorModel,
            >(transactions_view(result@)),
            all_well_formed(result@),
    {
        let ghost ls_view = views(ls@);
        assert(ls_view.take(i + 1).drop_last() =~= ls_view.take(i as int));
        assert(ls_view.take(i + 1).last() == ls[i as int]@);
        match parse_line_chars(&ls[i]) {
            Ok(tx) => {
                let ghost before = result@;
                result.push(tx);
                assert(transactions_view(result@) =~= transactions_view(before).push(tx@));
                assert(result@[result@.len() - 1] == tx);
                assert(forall|k: int| 0 <= k < before.len() ==> result@[k] == before[k]);
            },
            Err(e) => {
                proof {
                    lemma_text_error_stays(ls_view, i + 1);
                }
                return Err(e);
            },
        }
    }
    assert(views(ls@).take(n as int) =~= views(ls@));
    Ok(result)
}

} // verus!
