use bank_statement_parser::bank_of_america_debit_statement::{
    description, dollar_amount_and_date_or_footer_follows, parse_statement, transaction,
    transaction_section, BankOfAmericaDebitStatement, Transaction, TransactionType,
};
use bank_statement_parser::date::Date;
use bank_statement_parser::error::{ErrorKind, ParseError};
use bank_statement_parser::statement_format::StatementFormat;

fn checking_text(ending: &str, fees: &str) -> String {
    format!(
        "Your checking account\nAccount number: 1234 5678 9012\n\
         Beginning balance on January 1, 2024 $1,000.00\n\
         Ending balance on January 31, 2024 {ending}\n\n\
         Deposits and other additions\nDate Description Amount\n\
         01/05/24 PAYROLL DEPOSIT ACME CORP 500.00\n\
         01/19/24 PAYROLL DEPOSIT ACME CORP\nID 42 500.00\n\
         Total deposits and other additions $1,000.00\n\n\
         Withdrawals and other subtractions\nDate Transaction description Amount\n\
         01/10/24 RENT PAYMENT -250.00\n\
         Total withdrawals and other subtractions -$250.00\n{fees}"
    )
}

fn january(day: u32) -> Date {
    Date { year: 2024, month: 1, day }
}

#[test]
fn debit_statement_without_service_fees() {
    let text = checking_text("$1,750.00", "");
    let (rest, statement) = parse_statement(text.as_bytes()).unwrap();
    assert_eq!(rest, b"\n");
    assert_eq!(statement.account_number, b" 1234 5678 9012");
    assert_eq!(statement.start_date, january(1));
    assert_eq!(statement.end_date, january(31));
    assert_eq!(statement.start_balance, 100000);
    assert_eq!(statement.end_balance, 175000);
    assert_eq!(statement.transactions.len(), 3);
    assert!(statement.transactions.iter().all(|t| t.type_ != TransactionType::Fee));
    let kinds: Vec<TransactionType> = statement.transactions.iter().map(|t| t.type_).collect();
    assert_eq!(
        kinds,
        vec![TransactionType::Deposit, TransactionType::Deposit, TransactionType::Withdrawal]
    );
    assert_eq!(statement.transactions[0].date, january(5));
    assert_eq!(statement.transactions[0].description, b"PAYROLL DEPOSIT ACME CORP");
    assert_eq!(statement.transactions[0].amount, 50000);
    assert_eq!(statement.transactions[1].description, b"PAYROLL DEPOSIT ACME CORP\nID 42");
    assert_eq!(statement.transactions[2].description, b"RENT PAYMENT");
    assert_eq!(statement.transactions[2].amount, -25000);
}

#[test]
fn debit_statement_with_service_fees() {
    let fees = "\nService fees\nDate Transaction description Amount\n\
                01/31/24 MONTHLY MAINTENANCE FEE -12.00\nTotal service fees -$12.00\n";
    let text = checking_text("$1,738.00", fees);
    let statement = BankOfAmericaDebitStatement::parse(text.as_bytes()).unwrap();
    assert_eq!(statement.transactions.len(), 4);
    assert_eq!(statement.transactions[3].description, b"MONTHLY MAINTENANCE FEE");
    assert_eq!(statement.transactions[3].amount, -1200);
    assert_eq!(statement.transactions[3].type_, TransactionType::Fee);
    assert_eq!(statement.end_balance, 173800);
}

#[test]
fn debit_statement_that_does_not_balance_is_a_totals_mismatch() {
    let text = checking_text("$1,750.01", "");
    assert_eq!(
        parse_statement(text.as_bytes()).unwrap_err(),
        ParseError { kind: ErrorKind::TotalsMismatch, remaining: 1 }
    );
}

#[test]
fn debit_statement_with_a_wrong_section_total_is_a_totals_mismatch() {
    let text = checking_text("$1,750.00", "").replace(
        "Total deposits and other additions $1,000.00",
        "Total deposits and other additions $1,000.01",
    );
    assert_eq!(parse_statement(text.as_bytes()).unwrap_err().kind, ErrorKind::TotalsMismatch);
}

#[test]
fn debit_statement_without_its_anchors_is_not_found() {
    let text = checking_text("$1,750.00", "").replace("Ending balance on", "Ending");
    assert_eq!(parse_statement(text.as_bytes()).unwrap_err().kind, ErrorKind::AnchorNotFound);
}

#[test]
fn debit_amount_counts_where_a_date_or_the_footer_follows() {
    let footer = b"Total";
    let (rest, amount) =
        dollar_amount_and_date_or_footer_follows(b"  12.00 \n 1/2/24 x", footer).unwrap();
    assert_eq!(amount, 1200);
    assert_eq!(rest, b" \n 1/2/24 x");
    let (rest, amount) = dollar_amount_and_date_or_footer_follows(b"-3.00\nTotal", footer).unwrap();
    assert_eq!(amount, -300);
    assert_eq!(rest, b"\nTotal");
    assert_eq!(
        dollar_amount_and_date_or_footer_follows(b"12.00 more text", footer),
        Err(ParseError { kind: ErrorKind::Lexical, remaining: 10 })
    );
    assert_eq!(
        dollar_amount_and_date_or_footer_follows(b"12.00 13/45/24", footer),
        Err(ParseError { kind: ErrorKind::Lexical, remaining: 9 })
    );
}

#[test]
fn debit_description_skips_amounts_inside_the_text() {
    let (rest, (text, amount)) =
        description(b"SAVE 5.00 TODAY 19.99\n1/3/24 NEXT", b"Total").unwrap();
    assert_eq!(text, b"SAVE 5.00 TODAY");
    assert_eq!(amount, 1999);
    assert_eq!(rest, b"\n1/3/24 NEXT");
}

#[test]
fn debit_transaction_reads_one_entry() {
    let (rest, entry) =
        transaction(b"12/31/23 CHECK 101 -45.10\nTotal x", b"Total", TransactionType::Withdrawal)
            .unwrap();
    assert_eq!(rest, b"Total x");
    assert_eq!(entry.date, Date { year: 2023, month: 12, day: 31 });
    assert_eq!(entry.description, b"CHECK 101");
    assert_eq!(entry.amount, -4510);
    assert_eq!(entry.type_, TransactionType::Withdrawal);
}

#[test]
fn debit_section_may_be_empty() {
    let text = "Deposits\nDate Description Amount\nTotal deposits $0.00 rest";
    let (rest, list) =
        transaction_section(text.as_bytes(), b"Deposits", b"Total deposits", TransactionType::Deposit)
            .unwrap();
    assert_eq!(list.len(), 0);
    assert_eq!(rest, b" rest");
}

#[test]
fn debit_section_needs_its_column_titles() {
    let text = "Deposits\nDate Amount\nTotal deposits $0.00";
    let error =
        transaction_section(text.as_bytes(), b"Deposits", b"Total deposits", TransactionType::Deposit)
            .unwrap_err();
    assert_eq!(error, ParseError { kind: ErrorKind::Lexical, remaining: 32 });
}

#[test]
fn debit_assemble_accepts_exactly_what_balances() {
    let candidate = |end_balance, amounts: &[i32]| BankOfAmericaDebitStatement {
        account_number: b"1".to_vec(),
        start_date: january(1),
        end_date: january(31),
        start_balance: -500,
        end_balance,
        transactions: amounts
            .iter()
            .map(|a| Transaction {
                type_: TransactionType::Deposit,
                date: january(2),
                description: Vec::new(),
                amount: *a,
            })
            .collect(),
    };
    assert!(BankOfAmericaDebitStatement::assemble(candidate(250, &[1000, -250]), 0).is_ok());
    assert_eq!(
        BankOfAmericaDebitStatement::assemble(candidate(250, &[1000, -251]), 9).unwrap_err(),
        ParseError { kind: ErrorKind::TotalsMismatch, remaining: 9 }
    );
    assert!(BankOfAmericaDebitStatement::assemble(candidate(251, &[1000, -250]), 0).is_err());
}
