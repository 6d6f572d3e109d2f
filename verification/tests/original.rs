use altair::io::csv;
use altair::io::parsing::parse_transaction_date;
use altair::io::text;
use altair::{Date, Transaction, TransactionType};
use chrono::Datelike;

fn ymd(year: i32, month: u32, day: u32) -> Date {
    let d = chrono::NaiveDate::from_ymd_opt(year, month, day).unwrap();
    Date { year: d.year(), month: d.month(), day: d.day() }
}

#[test]
fn csv_read_transactions_read_all() -> Result<(), csv::TransactionReadError> {
    let expected = [
        Transaction {
            type_: TransactionType::Income,
            date: ymd(2026, 04, 01),
            category: String::from("salary"),
            amount: 120000,
        },
        Transaction {
            type_: TransactionType::Expense,
            date: ymd(2026, 04, 02),
            category: String::from("rent"),
            amount: 40000,
        },
    ];

    let r1 = String::from(
        "\
        date,category,kind,amount\n\
        2026-04-01,salary,income,120000\n\
        2026-04-02,rent,expense,40000\n",
    );
    assert_eq!(csv::read_transactions(&r1)?, expected);

    let r2 = String::from(
        "\
        category,date,amount,kind\n\
        salary,2026-04-01,120000,income\n\
        rent,2026-04-02,40000,expense  \n",
    );
    assert_eq!(csv::read_transactions(&r2)?, expected);

    Ok(())
}

#[test]
fn read_transactions_malformed_header() {
    let r = String::from(
        "\
        date,category,unknown,amount\n\
        2026-04-01,salary,income,120000\n\
        2026-04-02,rent,expense,40000\n",
    );

    assert!(csv::read_transactions(&r).is_err());
}

#[test]
fn parsing_parse_transaction_date_works() {
    assert_eq!(parse_transaction_date("2020-12-31"), Ok(ymd(2020, 12, 31)));
    assert_eq!(parse_transaction_date("1900-01-01"), Ok(ymd(1900, 01, 01)));
    assert!(parse_transaction_date("ABCD-AA-BB").is_err());
    assert!(parse_transaction_date("").is_err());
}

#[test]
fn text_parse_transaction_date_works() {
    assert_eq!(parse_transaction_date("2020-12-31"), Ok(ymd(2020, 12, 31)));
    assert_eq!(parse_transaction_date("1900-01-01"), Ok(ymd(1900, 01, 01)));
    assert!(parse_transaction_date("ABCD-AA-BB").is_err());
    assert!(parse_transaction_date("").is_err());
}

#[test]
fn text_read_transactions_read_all() -> Result<(), text::TransactionParseError> {
    let r = String::from("2026-04-01;salary;income;120000\n2026-05-16;travel;expense;6000\n");

    let transactions = text::read_transactions(&r)?;
    assert_eq!(
        transactions,
        [
            Transaction {
                type_: TransactionType::Income,
                date: ymd(2026, 04, 01),
                category: String::from("salary"),
                amount: 120000
            },
            Transaction {
                type_: TransactionType::Expense,
                date: ymd(2026, 5, 16),
                category: String::from("travel"),
                amount: 6000
            },
        ]
    );

    Ok(())
}

#[test]
fn read_transactions_read_fail() {
    let r = String::from("2026-04-01;salary;income;120000\n2026-04-07;travel;WTF;6000\n\n\n");

    assert!(text::read_transactions(&r).is_err());
}
