//! The CSV format: a header line that names the four columns in any order,
//! then one transaction per line with its fields in that order.
use crate::io::parsing::{
    fields_to_transaction, naive_date_from_ymd_text, parse_transaction_fields, FieldErrorModel,
    TransactionFieldValueParseError,
};
use crate::lexing::{
    all_white_space, chars_equal, chars_of, join, law_split_join, lemma_trim_ignores_padding, lines, lines_of, split,
    split_chars, string_from_chars, trim, trim_chars, views,
};
use crate::{all_well_formed, transactions_view, Transaction, TransactionModel};
use vstd::prelude::*;
use vstd::string::StringExecFns;

verus! {

/// Why a CSV input could not be read.
#[derive(Debug)]
pub enum TransactionReadError {
    /// The header does not hold exactly four names, or names an unknown
    /// field; a data line that does not hold exactly four fields is reported
    /// the same way. A line is given as its pieces joined back with `,`,
    /// which is the line without surrounding white space (see
    /// `law_join_split`).
    BadHeaderLine(String),
    /// A malformed data line.
    BadDataLine(String),
    /// A field value that could not be parsed.
    FieldValue(TransactionFieldValueParseError),
}

/// The content of a `TransactionReadError`.
pub ghost enum CsvErrorModel {
    BadHeaderLine(Seq<char>),
    BadDataLine(Seq<char>),
    FieldValue(FieldErrorModel),
}

impl View for TransactionReadError {
    type V = CsvErrorModel;

    open spec fn view(&self) -> CsvErrorModel {
        match self {
            TransactionReadError::BadHeaderLine(s) => CsvErrorModel::BadHeaderLine(s@),
            TransactionReadError::BadDataLine(s) => CsvErrorModel::BadDataLine(s@),
            TransactionReadError::FieldValue(e) => CsvErrorModel::FieldValue(e@),
        }
    }
}

impl TransactionReadError {
    /// The text that describes the error.
    pub open spec fn message_text(&self) -> Seq<char> {
        match self {
            TransactionReadError::BadHeaderLine(l) => "incorrectly formatted header line in input stream: "@ + l@,
            TransactionReadError::BadDataLine(l) => "incorrectly formatted data line in input stream: "@ + l@,
            TransactionReadError::FieldValue(e) => "non-parseable field value: "@ + e.message_text(),
        }
    }

    /// A description of the error (see `message_text`).
    pub fn message(&self) -> (res: String)
        ensures
            res@ == self.message_text(),
    {
        match self {
            TransactionReadError::BadHeaderLine(l) => {
                let mut res = String::from_str("incorrectly formatted header line in input stream: ");
                res.append(l.as_str());
                res
            },
            TransactionReadError::BadDataLine(l) => {
                let mut res = String::from_str("incorrectly formatted data line in input stream: ");
                res.append(l.as_str());
                res
            },
            TransactionReadError::FieldValue(e) => {
                let mut res = String::from_str("non-parseable field value: ");
                let detail = e.message();
                res.append(detail.as_str());
                res
            },
        }
    }
}

/// A field of a transaction, as a header names it.
#[derive(Debug, Clone, Copy, PartialEq, Eq, Structural)]
pub enum TransactionField {
    Type,
    Date,
    Category,
    Amount,
}

/// The column of each field that a header has named so far.
pub struct TransactionFieldIndexMap {
    type_: Option<usize>,
    date: Option<usize>,
    category: Option<usize>,
    amount: Option<usize>,
}

impl TransactionFieldIndexMap {
    /// The column recorded for `field`, if any.
    pub closed spec fn slot(self, field: TransactionField) -> Option<usize> {
        match field {
            TransactionField::Type => self.type_,
            TransactionField::Date => self.date,
            TransactionField::Category => self.category,
            TransactionField::Amount => self.amount,
        }
    }
}

impl View for TransactionFieldIndexMap {
    type V = Map<TransactionField, usize>;

    closed spec fn view(&self) -> Map<TransactionField, usize> {
        Map::new(|f: TransactionField| self.slot(f) is Some, |f: TransactionField| self.slot(f)->0)
    }
}

impl TransactionFieldIndexMap {
    /// A map with no field in it.
    pub fn new() -> (res: Self)
        ensures
            res@ == Map::<TransactionField, usize>::empty(),
    {
        let res = TransactionFieldIndexMap { type_: None, date: None, category: None, amount: None };
        assert(res@ =~= Map::<TransactionField, usize>::empty());
        res
    }

    /// Records `index` as the column of `field`, replacing an earlier one.
    pub fn insert(&mut self, field: TransactionField, index: usize)
        ensures
            final(self)@ == old(self)@.insert(field, index),
    {
        match field {
            TransactionField::Type => self.type_ = Some(index),
            TransactionField::Date => self.date = Some(index),
            TransactionField::Category => self.category = Some(index),
            TransactionField::Amount => self.amount = Some(index),
        }
        assert(self@ =~= old(self)@.insert(field, index));
    }

    /// Whether every field has a column among the first four (see
    /// `is_complete`).
    pub fn covers_all_fields(&self) -> (res: bool)
        ensures
            res == is_complete(self@),
    {
        let fits = |slot: Option<usize>| -> (r: bool)
            ensures
                r == (slot matches Some(i) && i < 4),
            {
                match slot {
                    Some(i) => i < 4,
                    None => false,
                }
            };
        fits(self.type_) && fits(self.date) && fits(self.category) && fits(self.amount)
    }

    /// The column of `field`, if one was recorded.
    pub fn get(&self, field: TransactionField) -> (res: Option<usize>)
        ensures
            res == (if self@.contains_key(field) {
                Some(self@[field])
            } else {
                None
            }),
    {
        match field {
            TransactionField::Type => self.type_,
            TransactionField::Date => self.date,
            TransactionField::Category => self.category,
            TransactionField::Amount => self.amount,
        }
    }
}

/// The field that a header name stands for, if any.
pub open spec fn field_named(name: Seq<char>) -> Option<TransactionField> {
    if name == "kind"@ {
        Some(TransactionField::Type)
    } else if name == "date"@ {
        Some(TransactionField::Date)
    } else if name == "category"@ {
        Some(TransactionField::Category)
    } else if name == "amount"@ {
        Some(TransactionField::Amount)
    } else {
        None
    }
}

/// The column of each field named in `names`, where the last column that
/// names a field wins.
pub open spec fn header_index_map(names: Seq<Seq<char>>) -> Map<TransactionField, usize>
    decreases names.len(),
{
    if names.len() == 0 {
        Map::empty()
    } else {
        header_index_map(names.drop_last()).insert(
            field_named(names.last())->0,
            (names.len() - 1) as usize,
        )
    }
}

/// The column map of a header line: the line without surrounding white space,
/// cut at `,` into exactly four known field names.
pub open spec fn parse_header_line(line: Seq<char>) -> Result<Map<TransactionField, usize>, CsvErrorModel> {
    let t = trim(line);
    let names = split(t, ',');
    if names.len() != 4 {
        Err(CsvErrorModel::BadHeaderLine(t))
    } else if exists|i: int| 0 <= i < 4 && #[trigger] field_named(names[i]) is None {
        Err(CsvErrorModel::BadHeaderLine("unknown field"@))
    } else {
        Ok(header_index_map(names))
    }
}

/// Whether `m` gives each of the four fields a column among the first four.
pub open spec fn is_complete(m: Map<TransactionField, usize>) -> bool {
    &&& m.contains_key(TransactionField::Type) && m[TransactionField::Type] < 4
    &&& m.contains_key(TransactionField::Date) && m[TransactionField::Date] < 4
    &&& m.contains_key(TransactionField::Category) && m[TransactionField::Category] < 4
    &&& m.contains_key(TransactionField::Amount) && m[TransactionField::Amount] < 4
}

/// The fields of a data line: the line without surrounding white space, cut
/// at `,`.
pub open spec fn data_fields(line: Seq<char>) -> Seq<Seq<char>> {
    split(trim(line), ',')
}

/// The transaction on a data line, whose fields stand in the columns that
/// `m` gives.
pub open spec fn parse_data_line(line: Seq<char>, m: Map<TransactionField, usize>) -> Result<
    TransactionModel,
    CsvErrorModel,
> {
    let f = data_fields(line);
    if f.len() != 4 {
        Err(CsvErrorModel::BadHeaderLine(trim(line)))
    } else {
        match fields_to_transaction(
            naive_date_from_ymd_text(f[m[TransactionField::Date] as int]),
            f[m[TransactionField::Category] as int],
            f[m[TransactionField::Type] as int],
            f[m[TransactionField::Amount] as int],
        ) {
            Ok(t) => Ok(t),
            Err(e) => Err(CsvErrorModel::FieldValue(e)),
        }
    }
}

/// The transactions on the data lines `ls`, in order, or the error of the
/// first line that has none.
pub open spec fn parse_data_lines(ls: Seq<Seq<char>>, m: Map<TransactionField, usize>) -> Result<
    Seq<TransactionModel>,
    CsvErrorModel,
>
    decreases ls.len(),
{
    if ls.len() == 0 {
        Ok(Seq::empty())
    } else {
        match parse_data_lines(ls.drop_last(), m) {
            Err(e) => Err(e),
            Ok(ts) => match parse_data_line(ls.last(), m) {
                Err(e) => Err(e),
                Ok(t) => Ok(ts.push(t)),
            },
        }
    }
}

/// The header line of an input: its first line, or the empty line if it has
/// none.
pub open spec fn header_of(ls: Seq<Seq<char>>) -> Seq<char> {
    if ls.len() == 0 {
        Seq::empty()
    } else {
        ls[0]
    }
}

/// The data lines of an input: the lines after the first.
pub open spec fn data_of(ls: Seq<Seq<char>>) -> Seq<Seq<char>> {
    if ls.len() == 0 {
        Seq::empty()
    } else {
        ls.drop_first()
    }
}

/// The transactions of a whole CSV input.
pub open spec fn parse_csv(input: Seq<char>) -> Result<Seq<TransactionModel>, CsvErrorModel> {
    let ls = lines(input);
    match parse_header_line(header_of(ls)) {
        Err(e) => Err(e),
        Ok(m) => parse_data_lines(data_of(ls), m),
    }
}

/// Whether reading `input` would look up a field that its header leaves
/// without a column: the header is well formed but names some field twice,
/// and the first data line holds four fields.
pub open spec fn lookup_fails(input: Seq<char>) -> bool {
    let ls = lines(input);
    match parse_header_line(header_of(ls)) {
        Err(_) => false,
        Ok(m) => !is_complete(m) && ls.len() > 1 && data_fields(ls[1]).len() == 4,
    }
}

/// The content of the outcome of reading a header line.
pub open spec fn header_result_view(r: Result<TransactionFieldIndexMap, TransactionReadError>) -> Result<
    Map<TransactionField, usize>,
    CsvErrorModel,
> {
    match r {
        Ok(m) => Ok(m@),
        Err(e) => Err(e@),
    }
}

/// The content of the outcome of reading one data line.
pub open spec fn line_result_view(r: Result<Transaction, TransactionReadError>) -> Result<
    TransactionModel,
    CsvErrorModel,
> {
    match r {
        Ok(t) => Ok(t@),
        Err(e) => Err(e@),
    }
}

/// The content of the outcome of reading an input.
pub open spec fn read_result_view(r: Result<Vec<Transaction>, TransactionReadError>) -> Result<
    Seq<TransactionModel>,
    CsvErrorModel,
> {
    match r {
        Ok(v) => Ok(transactions_view(v@)),
        Err(e) => Err(e@),
    }
}

/// Every column in the map of `names` is a position in `names`, and every
/// field in it is named there.
pub proof fn lemma_header_indices(names: Seq<Seq<char>>)
    ensures
        forall|f: TransactionField| #[trigger]
            header_index_map(names).contains_key(f) ==> header_index_map(names)[f] < names.len(),
    decreases names.len(),
{
    if names.len() > 0 {
        let prev = names.drop_last();
        lemma_header_indices(prev);
        assert forall|f: TransactionField| #[trigger]
            header_index_map(names).contains_key(f) implies header_index_map(names)[f]
            < names.len() by {
            if f != field_named(names.last())->0 {
                assert(header_index_map(prev).contains_key(f));
            }
        }
    }
}

/// An error on some first data lines is the outcome of all of them.
pub proof fn lemma_data_error_stays(ls: Seq<Seq<char>>, m: Map<TransactionField, usize>, k: int)
    requires
        0 <= k <= ls.len(),
        parse_data_lines(ls.take(k), m) is Err,
    ensures
        parse_data_lines(ls, m) == parse_data_lines(ls.take(k), m),
    decreases ls.len() - k,
{
    if k < ls.len() {
        assert(ls.take(k + 1).drop_last() =~= ls.take(k));
        lemma_data_error_stays(ls, m, k + 1);
    } else {
        assert(ls.take(k) =~= ls);
    }
}

/// White space before or after a header or a data line does not change what
/// it reads as.
pub proof fn law_line_padding_ignored(
    before: Seq<char>,
    line: Seq<char>,
    after: Seq<char>,
    m: Map<TransactionField, usize>,
)
    requires
        all_white_space(before),
        all_white_space(after),
    ensures
        parse_header_line(before + line + after) == parse_header_line(line),
        parse_data_line(before + line + after, m) == parse_data_line(line, m),
{
    lemma_trim_ignores_padding(before, line, after);
}

/// A header that names the four fields, each once, gives every field a
/// column, and that column is where the header names it.
pub proof fn law_header_columns(line: Seq<char>)
    requires
        parse_header_line(line) is Ok,
        forall|i: int, j: int|
            0 <= i < j < 4 ==> #[trigger] split(trim(line), ',')[i] != #[trigger] split(trim(line), ',')[j],
    ensures
        is_complete(parse_header_line(line)->Ok_0),
        forall|i: int|
            0 <= i < 4 ==> parse_header_line(line)->Ok_0[#[trigger] field_named(split(trim(line), ',')[i])->0]
                == i,
{
    let names = split(trim(line), ',');
    let m = header_index_map(names);
    assert(forall|i: int| 0 <= i < 4 ==> #[trigger] field_named(names[i]) is Some);
    let f0 = field_named(names[0])->0;
    let f1 = field_named(names[1])->0;
    let f2 = field_named(names[2])->0;
    let f3 = field_named(names[3])->0;
    assert(names.take(4) =~= names);
    assert(names.take(4).drop_last() =~= names.take(3));
    assert(names.take(3).drop_last() =~= names.take(2));
    assert(names.take(2).drop_last() =~= names.take(1));
    assert(names.take(1).drop_last() =~= names.take(0));
    let m0 = Map::<TransactionField, usize>::empty();
    assert(header_index_map(names.take(0)) == m0);
    assert(header_index_map(names.take(1)) == m0.insert(f0, 0));
    assert(header_index_map(names.take(2)) == m0.insert(f0, 0).insert(f1, 1));
    assert(header_index_map(names.take(3)) == m0.insert(f0, 0).insert(f1, 1).insert(f2, 2));
    assert(m == Map::<TransactionField, usize>::empty().insert(f0, 0).insert(f1, 1).insert(f2, 2).insert(f3, 3));
    assert(f0 != f1 && f0 != f2 && f0 != f3 && f1 != f2 && f1 != f3 && f2 != f3) by {
        assert(names[0] != names[1] && names[0] != names[2] && names[0] != names[3]);
        assert(names[1] != names[2] && names[1] != names[3] && names[2] != names[3]);
    }
}

/// The name that a header gives a field.
pub open spec fn name_of_field(f: TransactionField) -> Seq<char> {
    match f {
        TransactionField::Type => "kind"@,
        TransactionField::Date => "date"@,
        TransactionField::Category => "category"@,
        TransactionField::Amount => "amount"@,
    }
}

/// Whether `name` is one of the four names a header may hold.
pub open spec fn is_field_name(name: Seq<char>) -> bool {
    name == "kind"@ || name == "date"@ || name == "category"@ || name == "amount"@
}

proof fn lemma_field_named_is_name_of(name: Seq<char>)
    ensures
        field_named(name) is Some <==> is_field_name(name),
        field_named(name) is Some ==> name == name_of_field(field_named(name)->0),
        forall|f: TransactionField| name == name_of_field(f) ==> field_named(name) == Some(f),
{
    reveal_strlit("kind");
    reveal_strlit("date");
    reveal_strlit("category");
    reveal_strlit("amount");
    assert("kind"@[0] == 'k' && "date"@[0] == 'd');
    assert("kind"@.len() == 4 && "date"@.len() == 4 && "category"@.len() == 8 && "amount"@.len() == 6);
    assert("kind"@ != "date"@);
}

proof fn lemma_header_map_columns(names: Seq<Seq<char>>)
    requires
        names.len() <= 4,
        forall|i: int| 0 <= i < names.len() ==> #[trigger] field_named(names[i]) is Some,
    ensures
        forall|f: TransactionField| #[trigger]
            header_index_map(names).contains_key(f) ==> header_index_map(names)[f] < names.len()
                && field_named(names[header_index_map(names)[f] as int]) == Some(f) && forall|j: int|
                header_index_map(names)[f] < j < names.len() ==> #[trigger] field_named(names[j])
                    != Some(f),
        forall|i: int|
            0 <= i < names.len() ==> header_index_map(names).contains_key(
                #[trigger] field_named(names[i])->0,
            ),
    decreases names.len(),
{
    if names.len() > 0 {
        let p = names.drop_last();
        assert forall|i: int| 0 <= i < p.len() implies #[trigger] field_named(p[i]) is Some by {
            assert(p[i] == names[i]);
        }
        lemma_header_map_columns(p);
        let last = names.len() - 1;
        assert(field_named(names[last]) is Some);
        assert(names.last() == names[last]);
        let fl = field_named(names[last])->0;
        assert(header_index_map(names) == header_index_map(p).insert(fl, last as usize));
        assert forall|f: TransactionField| #[trigger]
            header_index_map(names).contains_key(f) implies header_index_map(names)[f]
            < names.len() && field_named(names[header_index_map(names)[f] as int]) == Some(f)
            && forall|j: int|
            header_index_map(names)[f] < j < names.len() ==> #[trigger] field_named(names[j])
                != Some(f) by {
            if f == fl {
                assert(header_index_map(names)[f] == last);
            } else {
                assert(header_index_map(p).contains_key(f));
                let c = header_index_map(p)[f];
                assert(names[c as int] == p[c as int]);
                assert forall|j: int| c < j < names.len() implies #[trigger] field_named(names[j])
                    != Some(f) by {
                    if j < last {
                        assert(names[j] == p[j]);
                    }
                }
            }
        }
        assert forall|i: int| 0 <= i < names.len() implies header_index_map(names).contains_key(
            #[trigger] field_named(names[i])->0,
        ) by {
            if i < last {
                assert(names[i] == p[i]);
            }
        }
    }
}

/// A header is read exactly when it cuts at `,` into four names, each of
/// `kind`, `date`, `category` and `amount`, in any order; then every name in
/// it has a column, and the column of each field is the last place where the
/// header names it. A header of another length is refused with its text, and
/// one with any other name is refused as an unknown field.
pub proof fn law_header_accepts_field_names(line: Seq<char>)
    ensures
        split(trim(line), ',').len() != 4 ==> parse_header_line(line) == Err::<
            Map<TransactionField, usize>,
            CsvErrorModel,
        >(CsvErrorModel::BadHeaderLine(trim(line))),
        split(trim(line), ',').len() == 4 && (exists|i: int|
            0 <= i < 4 && !is_field_name(#[trigger] split(trim(line), ',')[i])) ==> parse_header_line(
            line,
        ) == Err::<Map<TransactionField, usize>, CsvErrorModel>(
            CsvErrorModel::BadHeaderLine("unknown field"@),
        ),
        split(trim(line), ',').len() == 4 && (forall|i: int|
            0 <= i < 4 ==> is_field_name(#[trigger] split(trim(line), ',')[i]))
            ==> parse_header_line(line) is Ok,
        parse_header_line(line) is Ok ==> forall|i: int|
            #![trigger split(trim(line), ',')[i]]
            0 <= i < 4 ==> exists|f: TransactionField|
                #![trigger name_of_field(f)]
                name_of_field(f) == split(trim(line), ',')[i] && parse_header_line(line)->Ok_0.contains_key(f),
        parse_header_line(line) is Ok ==> forall|f: TransactionField|
            #[trigger] parse_header_line(line)->Ok_0.contains_key(f) ==> parse_header_line(line)->Ok_0[f] < 4
                && split(trim(line), ',')[parse_header_line(line)->Ok_0[f] as int] == name_of_field(f)
                && forall|j: int|
                parse_header_line(line)->Ok_0[f] < j < 4 ==> #[trigger] split(trim(line), ',')[j]
                    != name_of_field(f),
{
    let names = split(trim(line), ',');
    assert forall|i: int| 0 <= i < names.len() implies (field_named(#[trigger] names[i]) is Some
        <==> is_field_name(names[i])) by {
        lemma_field_named_is_name_of(names[i]);
    }
    if names.len() == 4 {
        if exists|i: int| 0 <= i < 4 && !is_field_name(#[trigger] names[i]) {
            let i = choose|i: int| 0 <= i < 4 && !is_field_name(#[trigger] names[i]);
            assert(field_named(names[i]) is None);
        }
        if forall|i: int| 0 <= i < 4 ==> is_field_name(#[trigger] names[i]) {
            assert(forall|i: int| 0 <= i < 4 ==> #[trigger] field_named(names[i]) is Some);
        }
    }
    if parse_header_line(line) is Ok {
        let m = parse_header_line(line)->Ok_0;
        assert(forall|i: int| 0 <= i < 4 ==> #[trigger] field_named(names[i]) is Some);
        lemma_header_map_columns(names);
        assert forall|i: int| #![trigger names[i]] 0 <= i < 4 implies exists|f: TransactionField|
            #![trigger name_of_field(f)]
            name_of_field(f) == names[i] && m.contains_key(f) by {
            lemma_field_named_is_name_of(names[i]);
            let f = field_named(names[i])->0;
            assert(m.contains_key(f));
        }
        assert forall|f: TransactionField| #[trigger] m.contains_key(f) implies m[f] < 4
            && names[m[f] as int] == name_of_field(f) && forall|j: int|
            m[f] < j < 4 ==> #[trigger] names[j] != name_of_field(f) by {
            lemma_field_named_is_name_of(names[m[f] as int]);
            assert forall|j: int| m[f] < j < 4 implies #[trigger] names[j] != name_of_field(f) by {
                lemma_field_named_is_name_of(names[j]);
                assert(field_named(names[j]) != Some(f));
            }
        }
    }
}

/// Whether the data line `l1` under the columns `m1` holds the same field
/// values as `l2` under `m2`, each line holding four fields.
pub open spec fn same_record(
    l1: Seq<char>,
    m1: Map<TransactionField, usize>,
    l2: Seq<char>,
    m2: Map<TransactionField, usize>,
) -> bool {
    &&& data_fields(l1).len() == 4
    &&& data_fields(l2).len() == 4
    &&& forall|f: TransactionField| #[trigger]
        data_fields(l1)[m1[f] as int] == data_fields(l2)[m2[f] as int]
}

proof fn lemma_same_records_same_result(
    d1: Seq<Seq<char>>,
    m1: Map<TransactionField, usize>,
    d2: Seq<Seq<char>>,
    m2: Map<TransactionField, usize>,
)
    requires
        d1.len() == d2.len(),
        forall|k: int| 0 <= k < d1.len() ==> same_record(#[trigger] d1[k], m1, d2[k], m2),
    ensures
        parse_data_lines(d1, m1) == parse_data_lines(d2, m2),
    decreases d1.len(),
{
    if d1.len() > 0 {
        let k = d1.len() - 1;
        assert(same_record(d1[k], m1, d2[k], m2));
        let f1 = data_fields(d1[k]);
        let f2 = data_fields(d2[k]);
        assert(f1[m1[TransactionField::Date] as int] == f2[m2[TransactionField::Date] as int]);
        assert(f1[m1[TransactionField::Category] as int] == f2[m2[TransactionField::Category] as int]);
        assert(f1[m1[TransactionField::Type] as int] == f2[m2[TransactionField::Type] as int]);
        assert(f1[m1[TransactionField::Amount] as int] == f2[m2[TransactionField::Amount] as int]);
        assert forall|j: int| 0 <= j < d1.drop_last().len() implies same_record(
            #[trigger] d1.drop_last()[j],
            m1,
            d2.drop_last()[j],
            m2,
        ) by {
            assert(same_record(d1[j], m1, d2[j], m2));
        }
        lemma_same_records_same_result(d1.drop_last(), m1, d2.drop_last(), m2);
    }
}

/// The order in which a header lists the columns does not matter: two
/// inputs whose headers give every field a column, and whose data lines
/// hold the same values under those columns line by line, read as the same
/// transactions.
pub proof fn law_column_order_irrelevant(
    input1: Seq<char>,
    input2: Seq<char>,
    m1: Map<TransactionField, usize>,
    m2: Map<TransactionField, usize>,
)
    requires
        parse_header_line(header_of(lines(input1))) == Ok::<Map<TransactionField, usize>, CsvErrorModel>(m1),
        parse_header_line(header_of(lines(input2))) == Ok::<Map<TransactionField, usize>, CsvErrorModel>(m2),
        data_of(lines(input1)).len() == data_of(lines(input2)).len(),
        forall|k: int|
            0 <= k < data_of(lines(input1)).len() ==> same_record(
                #[trigger] data_of(lines(input1))[k],
                m1,
                data_of(lines(input2))[k],
                m2,
            ),
    ensures
        parse_csv(input1) == parse_csv(input2),
{
    lemma_same_records_same_result(data_of(lines(input1)), m1, data_of(lines(input2)), m2);
}

/// Reading data lines gives one transaction per line, in the order of the
/// lines, exactly when every line holds one; otherwise it gives the error of
/// the first line that holds none.
pub proof fn law_one_transaction_per_line(ls: Seq<Seq<char>>, m: Map<TransactionField, usize>)
    ensures
        parse_data_lines(ls, m) is Ok <==> forall|i: int|
            0 <= i < ls.len() ==> #[trigger] parse_data_line(ls[i], m) is Ok,
        parse_data_lines(ls, m) matches Ok(ts) ==> ts.len() == ls.len() && forall|i: int|
            0 <= i < ls.len() ==> Ok::<TransactionModel, CsvErrorModel>(ts[i]) == #[trigger] parse_data_line(ls[i], m),
        parse_data_lines(ls, m) matches Err(e) ==> exists|k: int|
            0 <= k < ls.len() && #[trigger] parse_data_line(ls[k], m) == Err::<TransactionModel, CsvErrorModel>(e)
                && forall|j: int| 0 <= j < k ==> #[trigger] parse_data_line(ls[j], m) is Ok,
    decreases ls.len(),
{
    if ls.len() > 0 {
        let prev = ls.drop_last();
        law_one_transaction_per_line(prev, m);
        assert forall|i: int| 0 <= i < prev.len() implies prev[i] == ls[i] by {}
        match parse_data_lines(prev, m) {
            Ok(ts) => {
                if parse_data_lines(ls, m) is Ok {
                    assert forall|i: int| 0 <= i < ls.len() implies #[trigger] parse_data_line(ls[i], m) is Ok by {
                        if i < prev.len() {
                            assert(prev[i] == ls[i]);
                        }
                    }
                } else {
                    assert(parse_data_line(ls[ls.len() - 1], m) is Err);
                }
            },
            Err(e) => {
                let k = choose|k: int|
                    0 <= k < prev.len() && #[trigger] parse_data_line(prev[k], m) == Err::<TransactionModel, CsvErrorModel>(e)
                        && forall|j: int| 0 <= j < k ==> #[trigger] parse_data_line(prev[j], m) is Ok;
                assert(prev[k] == ls[k]);
                assert forall|j: int| 0 <= j < k implies #[trigger] parse_data_line(ls[j], m) is Ok by {
                    assert(prev[j] == ls[j]);
                }
            },
        }
    }
}

/// A data line is cut at `,` and nowhere else, and each field is taken from
/// the column that the header gives it: four texts that hold no `,`, joined
/// with `,` into a line without surrounding white space, read as the
/// transaction whose date, category, kind and amount are the texts in the
/// columns of those fields, whatever else (such as `;` or spaces) they hold;
/// a line that does not cut into four pieces at `,` is refused as a whole.
pub proof fn law_data_line_columns(fields: Seq<Seq<char>>, m: Map<TransactionField, usize>, line: Seq<char>)
    requires
        fields.len() == 4,
        forall|k: int| 0 <= k < 4 ==> !(#[trigger] fields[k]).contains(','),
        trim(join(fields, ',')) == join(fields, ','),
        is_complete(m),
    ensures
        parse_data_line(join(fields, ','), m) == match fields_to_transaction(
            naive_date_from_ymd_text(fields[m[TransactionField::Date] as int]),
            fields[m[TransactionField::Category] as int],
            fields[m[TransactionField::Type] as int],
            fields[m[TransactionField::Amount] as int],
        ) {
            Ok(t) => Ok::<TransactionModel, CsvErrorModel>(t),
            Err(e) => Err(CsvErrorModel::FieldValue(e)),
        },
        data_fields(line).len() != 4 ==> parse_data_line(line, m) == Err::<
            TransactionModel,
            CsvErrorModel,
        >(CsvErrorModel::BadHeaderLine(trim(line))),
{
    law_split_join(fields, ',');
}

/// Reading a CSV input reads its first line as the header, or the empty line
/// if it has none, and then gives one transaction per further line, in the
/// order of the lines, exactly when every such line holds one, with nothing
/// dropped, merged or added; otherwise the error of the header or of the
/// first line that holds no transaction.
pub proof fn law_one_transaction_per_data_line(input: Seq<char>)
    ensures
        lines(input).len() == 0 ==> parse_csv(input) == match parse_header_line(Seq::empty()) {
            Ok(m) => Ok::<Seq<TransactionModel>, CsvErrorModel>(Seq::empty()),
            Err(e) => Err(e),
        },
        lines(input).len() > 0 && parse_header_line(lines(input)[0]) is Err ==> parse_csv(input)
            == Err::<Seq<TransactionModel>, CsvErrorModel>(
            parse_header_line(lines(input)[0])->Err_0,
        ),
        lines(input).len() > 0 && parse_header_line(lines(input)[0]) is Ok ==> {
            let m = parse_header_line(lines(input)[0])->Ok_0;
            &&& parse_csv(input) is Ok <==> forall|i: int|
                1 <= i < lines(input).len() ==> #[trigger] parse_data_line(lines(input)[i], m) is Ok
            &&& parse_csv(input) is Ok ==> parse_csv(input)->Ok_0.len() + 1 == lines(input).len()
                && forall|i: int|
                1 <= i < lines(input).len() ==> Ok::<TransactionModel, CsvErrorModel>(
                    parse_csv(input)->Ok_0[i - 1],
                ) == #[trigger] parse_data_line(lines(input)[i], m)
            &&& parse_csv(input) is Err ==> exists|k: int|
                1 <= k < lines(input).len() && #[trigger] parse_data_line(lines(input)[k], m)
                    == Err::<TransactionModel, CsvErrorModel>(parse_csv(input)->Err_0) && forall|j: int|
                    1 <= j < k ==> #[trigger] parse_data_line(lines(input)[j], m) is Ok
        },
{
    let ls = lines(input);
    if ls.len() > 0 {
        if parse_header_line(ls[0]) is Ok {
            let m = parse_header_line(ls[0])->Ok_0;
            let d = ls.drop_first();
            law_one_transaction_per_line(d, m);
            assert forall|i: int| 0 <= i < d.len() implies d[i] == ls[i + 1] by {}
            if parse_csv(input) is Ok {
                assert forall|i: int| 1 <= i < ls.len() implies Ok::<TransactionModel, CsvErrorModel>(
                    parse_csv(input)->Ok_0[i - 1],
                ) == #[trigger] parse_data_line(ls[i], m) by {
                    assert(d[i - 1] == ls[i]);
                }
            } else {
                let k = choose|k: int|
                    0 <= k < d.len() && #[trigger] parse_data_line(d[k], m) == Err::<
                        TransactionModel,
                        CsvErrorModel,
                    >(parse_csv(input)->Err_0) && forall|j: int|
                        0 <= j < k ==> #[trigger] parse_data_line(d[j], m) is Ok;
                assert(d[k] == ls[k + 1]);
                assert forall|j: int| 1 <= j < k + 1 implies #[trigger] parse_data_line(ls[j], m) is Ok by {
                    assert(d[j - 1] == ls[j]);
                }
            }
            assert((forall|i: int| 0 <= i < d.len() ==> #[trigger] parse_data_line(d[i], m) is Ok)
                <==> (forall|i: int| 1 <= i < ls.len() ==> #[trigger] parse_data_line(ls[i], m) is Ok)) by {
                if forall|i: int| 0 <= i < d.len() ==> #[trigger] parse_data_line(d[i], m) is Ok {
                    assert forall|i: int| 1 <= i < ls.len() implies #[trigger] parse_data_line(ls[i], m) is Ok by {
                        assert(d[i - 1] == ls[i]);
                    }
                }
                if forall|i: int| 1 <= i < ls.len() ==> #[trigger] parse_data_line(ls[i], m) is Ok {
                    assert forall|i: int| 0 <= i < d.len() implies #[trigger] parse_data_line(d[i], m) is Ok by {
                        assert(d[i] == ls[i + 1]);
                    }
                }
            }
        }
    }
}

/// The field that `name` stands for (see `field_named`).
fn field_named_chars(name: &[char]) -> (res: Option<TransactionField>)
    ensures
        res == field_named(name@),
{
    if chars_equal(name, &chars_of("kind")) {
        Some(TransactionField::Type)
    } else if chars_equal(name, &chars_of("date")) {
        Some(TransactionField::Date)
    } else if chars_equal(name, &chars_of("category")) {
        Some(TransactionField::Category)
    } else if chars_equal(name, &chars_of("amount")) {
        Some(TransactionField::Amount)
    } else {
        None
    }
}

fn parse_header_chars(line: &[char]) -> (res: Result<TransactionFieldIndexMap, TransactionReadError>)
    ensures
        header_result_view(res) == parse_header_line(line@),
{
    let t = trim_chars(line);
    let names = split_chars(&t, ',');
    if names.len() != 4 {
        return Err(TransactionReadError::BadHeaderLine(string_from_chars(&t)));
    }
    let ghost nv = views(names@);
    let mut result = TransactionFieldIndexMap::new();
    assert(nv.take(0) =~= Seq::<Seq<char>>::empty());
    for i in 0..4
        invariant
            names@.len() == 4,
            nv == views(names@),
            nv == split(trim(line@), ','),
            result@ == header_index_map(nv.take(i as int)),
            forall|j: int| 0 <= j < i ==> #[trigger] field_named(nv[j]) is Some,
    {
        assert(names[i as int]@ == nv[i as int]);
        let field = match field_named_chars(&names[i]) {
            Some(f) => f,
            None => {
                assert(field_named(nv[i as int]) is None);
                return Err(TransactionReadError::BadHeaderLine("unknown field".to_owned()));
            },
        };
        assert(nv.take(i + 1).drop_last() =~= nv.take(i as int));
        result.insert(field, i);
    }
    assert(nv.take(4) =~= nv);
    Ok(result)
}

/// The column of each field that the header line `header_line` names (see
/// `parse_header_line`).
pub fn parse_header(header_line: &str) -> (res: Result<TransactionFieldIndexMap, TransactionReadError>)
    ensures
        header_result_view(res) == parse_header_line(header_line@),
{
    let cs = chars_of(header_line);
    parse_header_chars(&cs)
}

fn parse_data_line_chars(line: &[char], field_index_map: &TransactionFieldIndexMap) -> (res: Result<
    Transaction,
    TransactionReadError,
>)
    requires
        is_complete(field_index_map@) || data_fields(line@).len() != 4,
    ensures
        line_result_view(res) == parse_data_line(line@, field_index_map@),
        res matches Ok(t) ==> t.is_well_formed(),
{
    let t = trim_chars(line);
    let parts = split_chars(&t, ',');
    if parts.len() != 4 {
        return Err(TransactionReadError::BadHeaderLine(string_from_chars(&t)));
    }
    let date_index = field_index_map.get(TransactionField::Date).unwrap();
    let category_index = field_index_map.get(TransactionField::Category).unwrap();
    let type_index = field_index_map.get(TransactionField::Type).unwrap();
    let amount_index = field_index_map.get(TransactionField::Amount).unwrap();
    let date_str = string_from_chars(&parts[date_index]);
    let category_str = string_from_chars(&parts[category_index]);
    let type_str = string_from_chars(&parts[type_index]);
    let amount_str = string_from_chars(&parts[amount_index]);
    match parse_transaction_fields(
        date_str.as_str(),
        category_str.as_str(),
        type_str.as_str(),
        amount_str.as_str(),
    ) {
        Ok(tx) => Ok(tx),
        Err(e) => Err(TransactionReadError::FieldValue(e)),
    }
}

/// The transaction on the data line `tx_line`, whose fields stand in the
/// columns that `field_index_map` gives (see `parse_data_line`).
pub fn parse_transaction(tx_line: &str, field_index_map: &TransactionFieldIndexMap) -> (res: Result<
    Transaction,
    TransactionReadError,
>)
    requires
        is_complete(field_index_map@) || data_fields(tx_line@).len() != 4,
    ensures
        line_result_view(res) == parse_data_line(tx_line@, field_index_map@),
        res matches Ok(t) ==> t.is_well_formed(),
{
    let cs = chars_of(tx_line);
    parse_data_line_chars(&cs, field_index_map)
}

/// The transactions of the CSV input `input`: the header line, then one
/// transaction per data line in order, or the first error (see `parse_csv`).
pub fn read_transactions(input: &str) -> (res: Result<Vec<Transaction>, TransactionReadError>)
    requires
        !lookup_fails(input@),
    ensures
        read_result_view(res) == parse_csv(input@),
        res matches Ok(v) ==> all_well_formed(v@),
{
    let cs = chars_of(input);
    let ls = lines_of(&cs);
    let ghost lv = views(ls@);
    let n = ls.len();
    let empty: Vec<char> = Vec::new();
    let header: &Vec<char> = if n == 0 {
        &empty
    } else {
        &ls[0]
    };
    assert(header@ == header_of(lv));
    let field_index_map = match parse_header_chars(header) {
        Ok(m) => m,
        Err(e) => return Err(e),
    };
    proof {
        lemma_header_indices(split(trim(header_of(lv)), ','));
    }
    let ghost data = data_of(lv);
    let mut result: Vec<Transaction> = Vec::new();
    if n == 0 {
        assert(data =~= Seq::<Seq<char>>::empty());
        return Ok(result);
    }
    assert(data.take(0) =~= Seq::<Seq<char>>::empty());
    assert(transactions_view(result@) =~= Seq::<TransactionModel>::empty());
    for j in 0..n - 1
        invariant
            n == ls@.len() >= 1,
            lv == views(ls@),
            lv == lines(input@),
            data == data_of(lv),
            !lookup_fails(input@),
            parse_header_line(header_of(lv)) == Ok::<Map<TransactionField, usize>, CsvErrorModel>(
                field_index_map@,
            ),
            forall|f: TransactionField| #[trigger]
                field_index_map@.contains_key(f) ==> field_index_map@[f] < 4,
            j > 0 ==> is_complete(field_index_map@),
            parse_data_lines(data.take(j as int), field_index_map@) == Ok::<
                Seq<TransactionModel>,
                CsvErrorModel,
            >(transactions_view(result@)),
            all_well_formed(result@),
    {
        assert(data[j as int] == lv[j + 1]);
        assert(data.take(j + 1).drop_last() =~= data.take(j as int));
        assert(data.take(j + 1).last() == ls[j + 1]@);
        match parse_data_line_chars(&ls[j + 1], &field_index_map) {
            Ok(tx) => {
                let ghost before = result@;
                result.push(tx);
                assert(transactions_view(result@) =~= transactions_view(before).push(tx@));
                assert(result@[result@.len() - 1] == tx);
                assert(forall|k: int| 0 <= k < before.len() ==> result@[k] == before[k]);
            },
            Err(e) => {
                proof {
                    lemma_data_error_stays(data, field_index_map@, j + 1);
                }
                return Err(e);
            },
        }
    }
    assert(data.take(n - 1) =~= data);
    Ok(result)
}

/// Whether reading `input` would look up a field that its header leaves
/// without a column (see `lookup_fails`); `read_transactions` takes only
/// inputs for which this is false.
pub fn lookup_would_fail(input: &str) -> (res: bool)
    ensures
        res == lookup_fails(input@),
{
    let cs = chars_of(input);
    let ls = lines_of(&cs);
    let ghost lv = views(ls@);
    let n = ls.len();
    let empty: Vec<char> = Vec::new();
    let header: &Vec<char> = if n == 0 {
        &empty
    } else {
        &ls[0]
    };
    assert(header@ == header_of(lv));
    match parse_header_chars(header) {
        Err(_) => false,
        Ok(m) => {
            if m.covers_all_fields() || n < 2 {
                false
            } else {
                assert(ls[1]@ == lv[1]);
                let fields = split_chars(&trim_chars(&ls[1]), ',');
                fields.len() == 4
            }
        },
    }
}

} // verus!
