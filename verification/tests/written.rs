use bank_statement_parser::bank_of_america_credit_statement as card;
use bank_statement_parser::bank_of_america_debit_statement as checking;
use bank_statement_parser::common_parsers::dollar_amount;
use bank_statement_parser::date::Date;
use bank_statement_parser::error::{ErrorKind, ParseError};

fn canonical(units: i32) -> String {
    let magnitude = units.unsigned_abs();
    format!("{}${}.{:02}", if units < 0 { "-" } else { "" }, magnitude / 100, magnitude % 100)
}

fn card_section(entries: &[(Date, Date, &str, &str, i32)], declared: i32) -> String {
    let mut text = String::from("Credits\n\n");
    for (date, posted, words, number, units) in entries {
        text.push_str(&format!(
            "{}/{} {}/{} {} {} 3456 {}\n\n",
            date.month,
            date.day,
            posted.month,
            posted.day,
            words,
            number,
            canonical(*units)
        ));
    }
    text.push_str(&format!("FOR THIS PERIOD {}\n\nrest", canonical(declared)));
    text
}

fn card_entries() -> Vec<(Date, Date, &'static str, &'static str, i32)> {
    vec![
        (
            Date { year: 2023, month: 11, day: 25 },
            Date { year: 2023, month: 11, day: 26 },
            "PAYMENT THANK YOU",
            "550",
            15000,
        ),
        (
            Date { year: 2023, month: 12, day: 1 },
            Date { year: 2023, month: 12, day: 31 },
            "REFUND",
            "0071",
            -99,
        ),
        (Date { year: 2024, month: 1, day: 9 }, Date { year: 2024, month: 2, day: 29 }, "Z", "9", 250),
    ]
}

#[test]
fn written_card_section_reads_back() {
    let start = Date { year: 2023, month: 11, day: 20 };
    let entries = card_entries();
    let text = card_section(&entries, 15151);
    let (rest, list) = card::transaction_section(
        text.as_bytes(),
        start,
        b"3456",
        b"Credits\n\n",
        card::TransactionType::Credit,
    )
    .unwrap();
    assert_eq!(rest, b"rest");
    assert_eq!(list.len(), entries.len());
    for (read, (date, posted, words, number, units)) in list.iter().zip(entries) {
        assert_eq!(read.type_, card::TransactionType::Credit);
        assert_eq!(read.date, date);
        assert_eq!(read.posting_date, posted);
        assert_eq!(read.description, words.as_bytes());
        assert_eq!(read.reference_number, number.as_bytes());
        assert_eq!(read.account_number, b"3456");
        assert_eq!(read.amount, units);
    }
}

#[test]
fn written_card_section_with_a_changed_amount_fails() {
    let start = Date { year: 2023, month: 11, day: 20 };
    for changed in 0..3 {
        for delta in [-15151, -1, 1, 99] {
            let mut entries = card_entries();
            entries[changed].4 += delta;
            let text = card_section(&entries, 15151);
            let read = card::transaction_section(
                text.as_bytes(),
                start,
                b"3456",
                b"Credits\n\n",
                card::TransactionType::Credit,
            );
            assert_eq!(
                read.unwrap_err(),
                ParseError { kind: ErrorKind::TotalsMismatch, remaining: 4 }
            );
        }
    }
}

fn checking_section(entries: &[(Date, &str, i32)], declared: i32) -> String {
    let mut text = String::from("Deposits\nDate Description Amount\n");
    for (date, words, units) in entries {
        text.push_str(&format!(
            "{}/{}/{} {} {}\n",
            date.month,
            date.day,
            date.year - 2000,
            words,
            canonical(*units)
        ));
    }
    text.push_str(&format!("Total deposits {}rest", canonical(declared)));
    text
}

fn checking_entries() -> Vec<(Date, &'static str, i32)> {
    vec![
        (Date { year: 2000, month: 2, day: 29 }, "PAYROLL DEPOSIT", 50000),
        (Date { year: 2024, month: 12, day: 31 }, "a", -1),
        (Date { year: 2123, month: 1, day: 1 }, "INTEREST EARNED ON ACCOUNT", 7),
    ]
}

#[test]
fn written_checking_section_reads_back() {
    let entries = checking_entries();
    let text = checking_section(&entries, 50006);
    let (rest, list) = checking::transaction_section(
        text.as_bytes(),
        b"Deposits",
        b"Total deposits",
        checking::TransactionType::Deposit,
    )
    .unwrap();
    assert_eq!(rest, b"rest");
    assert_eq!(list.len(), entries.len());
    for (read, (date, words, units)) in list.iter().zip(entries) {
        assert_eq!(read.type_, checking::TransactionType::Deposit);
        assert_eq!(read.date, date);
        assert_eq!(read.description, words.as_bytes());
        assert_eq!(read.amount, units);
    }
    let empty = checking_section(&[], 0);
    let (_, list) = checking::transaction_section(
        empty.as_bytes(),
        b"Deposits",
        b"Total deposits",
        checking::TransactionType::Deposit,
    )
    .unwrap();
    assert_eq!(list.len(), 0);
}

#[test]
fn written_checking_section_with_a_changed_amount_fails() {
    for changed in 0..3 {
        for delta in [-50006, -1, 1, 99] {
            let mut entries = checking_entries();
            entries[changed].2 += delta;
            let text = checking_section(&entries, 50006);
            let read = checking::transaction_section(
                text.as_bytes(),
                b"Deposits",
                b"Total deposits",
                checking::TransactionType::Deposit,
            );
            assert_eq!(
                read.unwrap_err(),
                ParseError { kind: ErrorKind::TotalsMismatch, remaining: 4 }
            );
        }
    }
}

#[test]
fn canonical_amounts_of_all_sizes_read_back() {
    let mut units: i64 = 1;
    while units <= i32::MAX as i64 {
        for value in [units as i32, -(units as i32), (units - 1) as i32, -((units - 1) as i32)] {
            let text = canonical(value);
            assert_eq!(dollar_amount(text.as_bytes()), Ok((&b""[..], value)));
            let followed = format!("{} more", text);
            assert_eq!(dollar_amount(followed.as_bytes()), Ok((&b" more"[..], value)));
            let longer = format!("{}9 more", text);
            assert!(dollar_amount(longer.as_bytes()).is_err());
        }
        units *= 7;
    }
    for value in [0, i32::MAX, -i32::MAX, 99, 100, -100, 101] {
        assert_eq!(dollar_amount(canonical(value).as_bytes()), Ok((&b""[..], value)));
    }
}

fn card_statement(new_balance: i32, fees: bool) -> String {
    let mut text = String::from("Account# 1234 5678 9012 3456\n");
    text.push_str("dec 28 - jan 25, 2024\n");
    text.push_str(&format!("Previous Balance {}\n", canonical(10000)));
    text.push_str(&format!("New Balance Total {}\n", canonical(new_balance)));
    text.push_str("Payments and Other Credits\n\n");
    text.push_str("12/30 12/31 PAYMENT THANK YOU 5550001 3456 $150.00\n\n");
    text.push_str("FOR THIS PERIOD $150.00\n\n");
    text.push_str("Purchases and Adjustments\n\n");
    text.push_str("1/2 1/3 GROCERY STORE 5550002 3456 -$120.00\n\n");
    text.push_str("1/4 1/5 COFFEE 5550003 3456 -$80.00\n\n");
    text.push_str("FOR THIS PERIOD -$200.00\n\n");
    if fees {
        text.push_str("Fees\n\n");
        text.push_str("1/25 1/25 LATE FEE 5550004 3456 -$25.00\n\n");
        text.push_str("FOR THIS PERIOD -$25.00\n\n");
    }
    text.push_str("TOTAL INTEREST CHARGED FOR THIS PERIOD $1.50rest");
    text
}

#[test]
fn written_card_statement_reads_back() {
    let text = card_statement(5150, false);
    let (rest, statement) = card::parse_statement(text.as_bytes()).unwrap();
    assert_eq!(rest, b"rest");
    assert_eq!(statement.account_number, b"1234 5678 9012 3456");
    assert_eq!(statement.start_date, Date { year: 2023, month: 12, day: 28 });
    assert_eq!(statement.end_date, Date { year: 2024, month: 1, day: 25 });
    assert_eq!(statement.start_balance, 10000);
    assert_eq!(statement.end_balance, 5150);
    assert_eq!(statement.total_interest, 150);
    let read: Vec<(card::TransactionType, Date, i32)> =
        statement.transactions.iter().map(|t| (t.type_, t.date, t.amount)).collect();
    assert_eq!(
        read,
        vec![
            (card::TransactionType::Credit, Date { year: 2023, month: 12, day: 30 }, 15000),
            (card::TransactionType::Purchase, Date { year: 2024, month: 1, day: 2 }, -12000),
            (card::TransactionType::Purchase, Date { year: 2024, month: 1, day: 4 }, -8000),
        ]
    );
    let text = card_statement(2650, true);
    let (_, statement) = card::parse_statement(text.as_bytes()).unwrap();
    assert_eq!(statement.transactions.len(), 4);
    assert_eq!(statement.transactions[3].type_, card::TransactionType::Fee);
    assert_eq!(statement.transactions[3].amount, -2500);
}

#[test]
fn written_card_statement_that_does_not_balance_fails() {
    for new_balance in [5149, 5151, -5150, 2650] {
        let text = card_statement(new_balance, false);
        assert_eq!(
            card::parse_statement(text.as_bytes()).unwrap_err(),
            ParseError { kind: ErrorKind::TotalsMismatch, remaining: 4 }
        );
    }
    assert!(card::parse_statement(card_statement(5150, true).as_bytes()).is_err());
}

fn checking_statement(ending: i32, fees: Option<&[i32]>) -> String {
    let mut text = String::from("Account number:123456789012");
    text.push_str(&format!("\nBeginning balance on jan 1, 2024 {}", canonical(100000)));
    text.push_str(&format!("\nEnding balance on jan 31, 2024 {}", canonical(ending)));
    text.push_str("\nDeposits and other additions\nDate Description Amount\n");
    text.push_str("1/5/24 PAYROLL DEPOSIT $500.00\n");
    text.push_str("1/19/24 PAYROLL DEPOSIT $500.00\n");
    text.push_str("Total deposits and other additions $1000.00");
    text.push_str("\nWithdrawals and other subtractions\nDate Description Amount\n");
    text.push_str("1/10/24 RENT PAYMENT -$250.00\n");
    text.push_str("Total withdrawals and other subtractions -$250.00");
    if let Some(amounts) = fees {
        text.push_str("\nService fees\nDate Description Amount\n");
        for units in amounts {
            text.push_str(&format!("1/31/24 MONTHLY FEE {}\n", canonical(*units)));
        }
        text.push_str(&format!("Total service fees {}", canonical(amounts.iter().sum())));
    }
    text.push_str("\nrest");
    text
}

#[test]
fn written_checking_statement_reads_back() {
    let text = checking_statement(175000, None);
    let (rest, statement) = checking::parse_statement(text.as_bytes()).unwrap();
    assert_eq!(rest, b"\nrest");
    assert_eq!(statement.account_number, b"123456789012");
    assert_eq!(statement.start_date, Date { year: 2024, month: 1, day: 1 });
    assert_eq!(statement.end_date, Date { year: 2024, month: 1, day: 31 });
    let read: Vec<(checking::TransactionType, i32)> =
        statement.transactions.iter().map(|t| (t.type_, t.amount)).collect();
    assert_eq!(
        read,
        vec![
            (checking::TransactionType::Deposit, 50000),
            (checking::TransactionType::Deposit, 50000),
            (checking::TransactionType::Withdrawal, -25000),
        ]
    );
    let text = checking_statement(173800, Some(&[-1200]));
    let (_, statement) = checking::parse_statement(text.as_bytes()).unwrap();
    assert_eq!(statement.transactions.len(), 4);
    assert_eq!(statement.transactions[3].type_, checking::TransactionType::Fee);
    let text = checking_statement(175000, Some(&[]));
    let (_, statement) = checking::parse_statement(text.as_bytes()).unwrap();
    assert_eq!(statement.transactions.len(), 3);
}

#[test]
fn written_checking_statement_that_does_not_balance_fails() {
    for (ending, fees) in [(175001, None), (175000, Some(&[-1200][..])), (173800, None)] {
        let text = checking_statement(ending, fees);
        assert_eq!(
            checking::parse_statement(text.as_bytes()).unwrap_err(),
            ParseError { kind: ErrorKind::TotalsMismatch, remaining: 5 }
        );
    }
}

#[test]
fn written_card_section_without_a_record_reads_back() {
    let start = Date { year: 2023, month: 11, day: 20 };
    let text = card_section(&[], 0);
    let (rest, list) = card::transaction_section(
        text.as_bytes(),
        start,
        b"3456",
        b"Credits\n\n",
        card::TransactionType::Credit,
    )
    .unwrap();
    assert_eq!(rest, b"rest");
    assert!(list.is_empty());
    let text = card_section(&[], -1);
    let read = card::transaction_section(
        text.as_bytes(),
        start,
        b"3456",
        b"Credits\n\n",
        card::TransactionType::Credit,
    );
    assert_eq!(read.unwrap_err(), ParseError { kind: ErrorKind::TotalsMismatch, remaining: 4 });
}
