use altair::io::csv::{
    self, lookup_would_fail, parse_header, TransactionField, TransactionFieldIndexMap,
};
use altair::io::parsing::{
    parse_transaction_amount, parse_transaction_category, parse_transaction_date,
    parse_transaction_fields, parse_transaction_type, transaction_from_fields, AmountParseError,
    DateParseError, TransactionFieldValueParseError,
};
use altair::io::text::{self, TransactionParseError};
use altair::io::{read_transactions, Format, TransactionReadError};
use altair::lexing::{
    chars_equal, chars_of, copy_range, lines_of, split_chars, string_from_chars, trim_chars,
};
use altair::{Date, Transaction, TransactionType};

fn date(year: i32, month: u32, day: u32) -> Date {
    Date { year, month, day }
}

fn strings(v: Vec<Vec<char>>) -> Vec<String> {
    v.iter().map(|cs| cs.iter().collect()).collect()
}

#[test]
fn type_names_are_exact() {
    assert_eq!(parse_transaction_type("income"), Ok(TransactionType::Income));
    assert_eq!(parse_transaction_type("expense"), Ok(TransactionType::Expense));
    assert_eq!(parse_transaction_type("Income"), Err(String::from("Income")));
    assert_eq!(parse_transaction_type(" income"), Err(String::from(" income")));
    assert_eq!(parse_transaction_type(""), Err(String::new()));
}

#[test]
fn category_must_not_be_empty() {
    assert_eq!(parse_transaction_category("rent"), Ok(String::from("rent")));
    assert_eq!(parse_transaction_category(" "), Ok(String::from(" ")));
    assert_eq!(parse_transaction_category(""), Err(String::new()));
}

#[test]
fn amounts_follow_u64_parsing() {
    assert_eq!(parse_transaction_amount("0"), Ok(0));
    assert_eq!(parse_transaction_amount("120000"), Ok(120000));
    assert_eq!(parse_transaction_amount("+42"), Ok(42));
    assert_eq!(parse_transaction_amount("007"), Ok(7));
    assert_eq!(parse_transaction_amount("18446744073709551615"), Ok(u64::MAX));
    assert_eq!(parse_transaction_amount(""), Err(AmountParseError::Empty));
    assert_eq!(parse_transaction_amount("+"), Err(AmountParseError::InvalidDigit));
    assert_eq!(parse_transaction_amount("-"), Err(AmountParseError::InvalidDigit));
    assert_eq!(parse_transaction_amount("-1"), Err(AmountParseError::InvalidDigit));
    assert_eq!(parse_transaction_amount("12a"), Err(AmountParseError::InvalidDigit));
    assert_eq!(parse_transaction_amount(" 1"), Err(AmountParseError::InvalidDigit));
    assert_eq!(parse_transaction_amount("18446744073709551616"), Err(AmountParseError::PosOverflow));
    assert_eq!(parse_transaction_amount("99999999999999999999x"), Err(AmountParseError::PosOverflow));
    assert_eq!(parse_transaction_amount("1x99999999999999999999"), Err(AmountParseError::InvalidDigit));
}

#[test]
fn amounts_agree_with_std() {
    for s in ["", "+", "-", "0", "+0", "12", "+12", "-12", "1_000", "18446744073709551615", "18446744073709551616", "٣"] {
        let ours = parse_transaction_amount(s);
        let std_result = s.parse::<u64>();
        assert_eq!(ours.is_ok(), std_result.is_ok(), "{s:?}");
        if let (Ok(a), Ok(b)) = (ours, std_result) {
            assert_eq!(a, b);
        }
    }
}

#[test]
fn amount_round_trip() {
    for v in [0u64, 1, 9, 10, 99, 100, 120000, 1234567890123, u64::MAX] {
        assert_eq!(parse_transaction_amount(&v.to_string()), Ok(v));
        assert_eq!(parse_transaction_amount(&format!("+{v}")), Ok(v));
    }
}

#[test]
fn dates_are_checked_by_chrono() {
    assert_eq!(parse_transaction_date("2024-02-29"), Ok(date(2024, 2, 29)));
    assert!(parse_transaction_date("2023-02-29").is_err());
    assert!(parse_transaction_date("2023-13-01").is_err());
    assert!(parse_transaction_date("2023-01-01x").is_err());
    assert_eq!(parse_transaction_date("2014-5-17"), Ok(date(2014, 5, 17)));
}

#[test]
fn fields_are_checked_in_order() {
    let ok = parse_transaction_fields("2026-04-01", "salary", "income", "120000");
    assert_eq!(
        ok.unwrap(),
        Transaction {
            type_: TransactionType::Income,
            date: date(2026, 4, 1),
            category: String::from("salary"),
            amount: 120000
        }
    );
    assert!(matches!(
        parse_transaction_fields("nope", "", "x", "y"),
        Err(TransactionFieldValueParseError::Date(_))
    ));
    assert!(matches!(
        parse_transaction_fields("2026-04-01", "", "x", "y"),
        Err(TransactionFieldValueParseError::Category(s)) if s.is_empty()
    ));
    assert!(matches!(
        parse_transaction_fields("2026-04-01", "c", "x", "y"),
        Err(TransactionFieldValueParseError::Type(s)) if s == "x"
    ));
    assert!(matches!(
        parse_transaction_fields("2026-04-01", "c", "expense", "y"),
        Err(TransactionFieldValueParseError::Amount(AmountParseError::InvalidDigit))
    ));
}

#[test]
fn date_error_is_handed_on() {
    match transaction_from_fields(Err(DateParseError::TooShort), "c", "income", "1") {
        Err(TransactionFieldValueParseError::Date(k)) => assert_eq!(k, DateParseError::TooShort),
        _ => panic!("expected a date error"),
    }
    let tx = transaction_from_fields(Ok(date(2000, 1, 2)), "c", "expense", "3").unwrap();
    assert_eq!(tx.date, date(2000, 1, 2));
    assert_eq!(tx.type_, TransactionType::Expense);
    assert_eq!(tx.amount, 3);
}

#[test]
fn date_error_kinds_follow_chrono() {
    for text in ["", "x", "2023-13-01", "2023-02-30", "2023-01-01x", "2023-01", "+999999-01-01"] {
        let chrono_err = chrono::NaiveDate::parse_from_str(text, "%Y-%m-%d").unwrap_err();
        let ours = parse_transaction_date(text).unwrap_err();
        assert_eq!(format!("{ours:?}"), format!("{:?}", chrono_err.kind()), "{text:?}");
        assert_eq!(ours.message(), chrono_err.to_string());
        assert_eq!(
            TransactionFieldValueParseError::Date(ours).message(),
            format!("cannot parse date: {chrono_err}")
        );
    }
    assert_eq!(DateParseError::BadFormat.message(), "bad or unsupported format string");
    assert_eq!(DateParseError::NotEnough.message(), "input is not enough for unique date and time");
}

#[test]
fn field_error_messages() {
    assert_eq!(
        TransactionFieldValueParseError::Type(String::from("x")).message(),
        "invalid type string: \"x\""
    );
    assert_eq!(
        TransactionFieldValueParseError::Category(String::new()).message(),
        "invalid category string: \"\""
    );
    assert_eq!(
        TransactionFieldValueParseError::Amount(AmountParseError::PosOverflow).message(),
        "cannot parse amount: number too large to fit in target type"
    );
    assert_eq!(
        TransactionFieldValueParseError::Date(DateParseError::TooLong).message(),
        "cannot parse date: trailing input"
    );
    let std_err = "".parse::<u64>().unwrap_err();
    assert_eq!(AmountParseError::Empty.message(), std_err.to_string());
    let std_err = "x".parse::<u64>().unwrap_err();
    assert_eq!(AmountParseError::InvalidDigit.message(), std_err.to_string());
    let std_err = "99999999999999999999".parse::<u64>().unwrap_err();
    assert_eq!(AmountParseError::PosOverflow.message(), std_err.to_string());
}

#[test]
fn read_error_messages() {
    assert_eq!(
        TransactionParseError::BadInputLine(String::from("a;b")).message(),
        "incorrectly formatted line in input data: a;b"
    );
    assert_eq!(
        csv::TransactionReadError::BadHeaderLine(String::from("x")).message(),
        "incorrectly formatted header line in input stream: x"
    );
    assert_eq!(
        csv::TransactionReadError::BadDataLine(String::from("y")).message(),
        "incorrectly formatted data line in input stream: y"
    );
    let e = TransactionReadError::Text(TransactionParseError::FieldValue(
        TransactionFieldValueParseError::Type(String::from("WTF")),
    ));
    assert_eq!(e.message(), "non-parseable field value: invalid type string: \"WTF\"");
    let inner = csv::TransactionReadError::FieldValue(TransactionFieldValueParseError::Date(
        DateParseError::Invalid,
    ));
    let inner_text = inner.message();
    assert_eq!(TransactionReadError::Csv(inner).message(), inner_text);
}

#[test]
fn text_lines_are_trimmed_and_split_on_semicolons() {
    let tx = text::parse_transaction("  2026-05-16;travel;expense;6000\t\r").unwrap();
    assert_eq!(tx.category, "travel");
    assert_eq!(tx.amount, 6000);
    match text::parse_transaction(" a;b;c ") {
        Err(TransactionParseError::BadInputLine(l)) => assert_eq!(l, "a;b;c"),
        _ => panic!("expected a bad line"),
    }
    match text::parse_transaction("") {
        Err(TransactionParseError::BadInputLine(l)) => assert_eq!(l, ""),
        _ => panic!("expected a bad line"),
    }
    match text::parse_transaction("2026-01-01;a;income;1;") {
        Err(TransactionParseError::BadInputLine(l)) => assert_eq!(l, "2026-01-01;a;income;1;"),
        _ => panic!("expected a bad line"),
    }
}

#[test]
fn text_empty_input_has_no_transactions() {
    assert_eq!(text::read_transactions("").unwrap(), vec![]);
    assert_eq!(
        text::read_transactions("2026-04-01;salary;income;1\r\n").unwrap().len(),
        1
    );
}

#[test]
fn text_blank_line_is_an_error() {
    match text::read_transactions("2026-04-01;salary;income;1\n\n2026-04-02;x;income;2\n") {
        Err(TransactionParseError::BadInputLine(l)) => assert_eq!(l, ""),
        _ => panic!("expected a bad line"),
    }
}

#[test]
fn text_first_error_wins() {
    match text::read_transactions("2026-04-01;;income;1\n2026-04-02;x;nope;2\n") {
        Err(TransactionParseError::FieldValue(TransactionFieldValueParseError::Category(_))) => {}
        _ => panic!("expected the category error of the first line"),
    }
}

#[test]
fn header_maps_columns() {
    let m = parse_header("category,date,amount,kind\n").unwrap();
    assert_eq!(m.get(TransactionField::Category), Some(0));
    assert_eq!(m.get(TransactionField::Date), Some(1));
    assert_eq!(m.get(TransactionField::Amount), Some(2));
    assert_eq!(m.get(TransactionField::Type), Some(3));
    assert!(m.covers_all_fields());
    let dup = parse_header("date,date,kind,amount").unwrap();
    assert_eq!(dup.get(TransactionField::Date), Some(1));
    assert_eq!(dup.get(TransactionField::Category), None);
    assert!(!dup.covers_all_fields());
}

#[test]
fn header_errors() {
    match parse_header("date,category,kind") {
        Err(csv::TransactionReadError::BadHeaderLine(l)) => assert_eq!(l, "date,category,kind"),
        _ => panic!("expected a bad header"),
    }
    match parse_header("date,category,kind,Amount") {
        Err(csv::TransactionReadError::BadHeaderLine(l)) => assert_eq!(l, "unknown field"),
        _ => panic!("expected an unknown field"),
    }
    match csv::read_transactions("") {
        Err(csv::TransactionReadError::BadHeaderLine(l)) => assert_eq!(l, ""),
        _ => panic!("expected a bad header"),
    }
}

#[test]
fn index_map_insert_replaces() {
    let mut m = TransactionFieldIndexMap::new();
    assert_eq!(m.get(TransactionField::Amount), None);
    m.insert(TransactionField::Amount, 3);
    m.insert(TransactionField::Amount, 1);
    assert_eq!(m.get(TransactionField::Amount), Some(1));
}

#[test]
fn csv_data_line_with_wrong_field_count() {
    match csv::read_transactions("date,category,kind,amount\n2026-04-01,salary,income\n") {
        Err(csv::TransactionReadError::BadHeaderLine(l)) => assert_eq!(l, "2026-04-01,salary,income"),
        _ => panic!("expected a bad line"),
    }
}

#[test]
fn csv_header_only_is_empty() {
    assert_eq!(csv::read_transactions("kind,amount,date,category").unwrap(), vec![]);
}

#[test]
fn csv_lookup_check() {
    assert!(lookup_would_fail("date,date,kind,amount\n2026-04-01,a,income,1\n"));
    assert!(!lookup_would_fail("date,date,kind,amount\n2026-04-01,a,income\n"));
    assert!(!lookup_would_fail("date,date,kind,amount\n"));
    assert!(!lookup_would_fail("date,category,kind,amount\n2026-04-01,a,income,1\n"));
    assert!(!lookup_would_fail("date,category,bogus,amount\n2026-04-01,a,income,1\n"));
    assert!(csv::read_transactions("date,date,kind,amount\n2026-04-01,a,income\n").is_err());
}

#[test]
fn read_transactions_dispatches_on_format() {
    let csv_input = "date,category,kind,amount\n2026-04-30,rent,income,2000\n";
    let text_input = "2026-04-30;rent;income;2000";
    let a = read_transactions(Format::Csv, csv_input).unwrap();
    let b = read_transactions(Format::Text, text_input).unwrap();
    assert_eq!(a, b);
    assert!(matches!(read_transactions(Format::Text, csv_input), Err(TransactionReadError::Text(_))));
    assert!(matches!(read_transactions(Format::Csv, text_input), Err(TransactionReadError::Csv(_))));
    let e: TransactionReadError = TransactionParseError::BadInputLine(String::new()).into();
    assert!(matches!(e, TransactionReadError::Text(_)));
}

#[test]
fn whitespace_padding_is_ignored() {
    let plain = text::parse_transaction("2026-04-01;salary;income;1").unwrap();
    let padded = text::parse_transaction("\u{3000} 2026-04-01;salary;income;1 \u{a0}").unwrap();
    assert_eq!(plain, padded);
}

#[test]
fn lexing_helpers() {
    let cs = chars_of("  a,b,,c \t");
    let t = trim_chars(&cs);
    assert_eq!(string_from_chars(&t), "a,b,,c");
    assert_eq!(strings(split_chars(&t, ',')), vec!["a", "b", "", "c"]);
    assert_eq!(strings(split_chars(&[], ',')), vec![""]);
    assert_eq!(strings(lines_of(&chars_of("x\r\ny\n\nz\r"))), vec!["x", "y", "", "z\r"]);
    assert!(lines_of(&[]).is_empty());
    assert_eq!(string_from_chars(&copy_range(&cs, 2, 5)), "a,b");
    assert!(chars_equal(&chars_of("ab"), &['a', 'b']));
    assert!(!chars_equal(&chars_of("ab"), &['a']));
    assert_eq!(chars_of("héllo").len(), 5);
    for line in ["a,b,,c", "", ",", "x,y,z,w,"] {
        let pieces = strings(split_chars(&chars_of(line), ','));
        assert_eq!(pieces.join(","), line);
        let std_pieces: Vec<&str> = line.split(',').collect();
        assert_eq!(pieces, std_pieces);
    }
    for text in ["", "a", "a\n", "a\r\nb", "\n\n", "x\ry\n"] {
        let ours = strings(lines_of(&chars_of(text)));
        let std_lines: Vec<String> = std::io::BufRead::lines(text.as_bytes()).map(|l| l.unwrap()).collect();
        assert_eq!(ours, std_lines, "{text:?}");
    }
    for text in [" a ", "\u{2003}b\u{85}", "\t\n", "c"] {
        assert_eq!(string_from_chars(&trim_chars(&chars_of(text))), text.trim());
    }
}

#[test]
fn csv_header_padding_is_ignored() {
    let m = parse_header(" \u{a0}kind,amount,date,category\r\n").unwrap();
    assert_eq!(m.get(TransactionField::Type), Some(0));
    assert_eq!(m.get(TransactionField::Category), Some(3));
}
