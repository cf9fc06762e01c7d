use bank_statement_parser::bank_of_america_credit_statement::{
    account_number, description, parse_statement, reference, total_amount, transaction,
    transaction_section, BankOfAmericaCreditStatement, Transaction, TransactionType,
};
use bank_statement_parser::date::Date;
use bank_statement_parser::error::{ErrorKind, ParseError};
use bank_statement_parser::statement_format::StatementFormat;

fn statement_text(credit_total: &str, new_balance: &str, fees: &str) -> String {
    format!(
        "Bank of America\nAccount# 1234 5678 9012 3456\nJan 1 - Jan 31, 2024\n\
         Account Summary\nPrevious Balance $100.00\nPayments and Other Credits -$150.00\n\
         New Balance Total {new_balance}\n\nTransactions\n\
         Payments and Other Credits\n\n\
         01/15 01/16 PAYMENT - THANK YOU 5550001 3456 150.00\n\n\
         TOTAL PAYMENTS AND OTHER CREDITS FOR THIS PERIOD {credit_total}\n\n\
         Purchases and Adjustments\n\n\
         01/20 01/21 GROCERY STORE #12 SEATTLE WA 5550002 3456 -120.00\n\n\
         01/22 01/23 COFFEE 5550003 3456 -80.00\n\n\
         TOTAL PURCHASES AND ADJUSTMENTS FOR THIS PERIOD -$200.00\n\n\
         {fees}Interest Charged\n\
         TOTAL INTEREST CHARGED FOR THIS PERIOD $0.00\nend"
    )
}

fn january(day: u32) -> Date {
    Date { year: 2024, month: 1, day }
}

#[test]
fn credit_statement_end_to_end() {
    let text = statement_text("$150.00", "$50.00", "");
    let (rest, statement) = parse_statement(text.as_bytes()).unwrap();
    assert_eq!(rest, b"\nend");
    assert_eq!(statement.account_number, b"1234 5678 9012 3456");
    assert!(statement.account_number.ends_with(b"3456"));
    assert_eq!(statement.start_date, january(1));
    assert_eq!(statement.end_date, january(31));
    assert_eq!(statement.start_balance, 10000);
    assert_eq!(statement.end_balance, 5000);
    assert_eq!(statement.total_interest, 0);
    assert_eq!(statement.transactions.len(), 3);
    let credits: Vec<&Transaction> =
        statement.transactions.iter().filter(|t| t.type_ == TransactionType::Credit).collect();
    assert_eq!(credits.len(), 1);
    assert_eq!(credits[0].amount, 15000);
    assert_eq!(credits[0].date, january(15));
    assert_eq!(credits[0].posting_date, january(16));
    assert_eq!(credits[0].description, b"PAYMENT - THANK YOU");
    assert_eq!(credits[0].reference_number, b"5550001");
    assert_eq!(credits[0].account_number, b"3456");
    let second = &statement.transactions[1];
    assert_eq!(second.type_, TransactionType::Purchase);
    assert_eq!(second.description, b"GROCERY STORE #12 SEATTLE WA");
    assert_eq!(second.amount, -12000);
    assert_eq!(statement.transactions[2].amount, -8000);
    assert_eq!(total_amount(&statement.transactions), -5000);
}

#[test]
fn credit_statement_with_a_wrong_section_total_is_a_totals_mismatch() {
    let text = statement_text("$140.00", "$50.00", "");
    let error = parse_statement(text.as_bytes()).unwrap_err();
    assert_eq!(error.kind, ErrorKind::TotalsMismatch);
    let after_total = text.find("Purchases and Adjustments").unwrap();
    assert_eq!(error.remaining, text.len() - after_total);
}

#[test]
fn credit_statement_that_does_not_balance_is_a_totals_mismatch() {
    let text = statement_text("$150.00", "$50.01", "");
    assert_eq!(
        parse_statement(text.as_bytes()).unwrap_err(),
        ParseError { kind: ErrorKind::TotalsMismatch, remaining: 4 }
    );
}

#[test]
fn credit_statement_reads_fees_where_they_follow() {
    let fees = "Fees\n\n01/25 01/25 LATE FEE 5550004 3456 -25.00\n\n\
                TOTAL FEES FOR THIS PERIOD -$25.00\n\n";
    let text = statement_text("$150.00", "$25.00", fees);
    let statement = BankOfAmericaCreditStatement::parse(text.as_bytes()).unwrap();
    assert_eq!(statement.transactions.len(), 4);
    assert_eq!(statement.transactions[3].type_, TransactionType::Fee);
    assert_eq!(statement.transactions[3].amount, -2500);
    assert_eq!(statement.end_balance, 2500);
}

#[test]
fn credit_statement_without_its_anchors_is_not_found() {
    let error = parse_statement(b"nothing of the kind").unwrap_err();
    assert_eq!(error, ParseError { kind: ErrorKind::AnchorNotFound, remaining: 19 });
    let text = statement_text("$150.00", "$50.00", "").replace("Purchases and Adjustments", "X");
    assert_eq!(parse_statement(text.as_bytes()).unwrap_err().kind, ErrorKind::AnchorNotFound);
}

#[test]
fn credit_statement_with_a_day_that_does_not_exist() {
    let text = statement_text("$150.00", "$50.00", "").replace("Jan 31, 2024", "Feb 30, 2024");
    assert_eq!(parse_statement(text.as_bytes()).unwrap_err().kind, ErrorKind::InvalidDate);
}

#[test]
fn credit_statement_over_the_turn_of_the_year() {
    let text = "Account# 0000 1111\nDec 28 - Jan 25, 2024\nPrevious Balance $0.00\n\
                New Balance Total $30.00\nPayments and Other Credits\n\n\
                12/30 12/31 REFUND 77 1111 10.00\n\n\
                TOTAL FOR THIS PERIOD 10.00\n\n\
                Purchases and Adjustments\n\n\
                01/02 01/03 RETURN 78 1111 15.00\n\n\
                TOTAL FOR THIS PERIOD 15.00\n\n\
                TOTAL INTEREST CHARGED FOR THIS PERIOD 5.00";
    let statement = BankOfAmericaCreditStatement::parse(text.as_bytes()).unwrap();
    assert_eq!(statement.start_date, Date { year: 2023, month: 12, day: 28 });
    assert_eq!(statement.end_date, Date { year: 2024, month: 1, day: 25 });
    assert_eq!(statement.transactions[0].date, Date { year: 2023, month: 12, day: 30 });
    assert_eq!(statement.transactions[0].posting_date, Date { year: 2023, month: 12, day: 31 });
    assert_eq!(statement.transactions[1].date, Date { year: 2024, month: 1, day: 2 });
    assert_eq!(statement.total_interest, 500);
}

#[test]
fn credit_statement_with_a_short_account_number() {
    let text = "Account# 123\nJan 1 - Jan 31, 2024\nPrevious Balance $0.00\n\
                New Balance Total $0.00\nPayments and Other Credits\n\n";
    assert_eq!(
        parse_statement(text.as_bytes()).unwrap_err(),
        ParseError { kind: ErrorKind::Lexical, remaining: 29 }
    );
}

#[test]
fn credit_account_number_is_a_run_of_digits_and_spaces() {
    let (rest, number) = account_number(b"1234 5678 \nJan").unwrap();
    assert_eq!(number, b"1234 5678 ");
    assert_eq!(rest, b"\nJan");
    assert_eq!(
        account_number(b"x1"),
        Err(ParseError { kind: ErrorKind::Lexical, remaining: 2 })
    );
}

#[test]
fn credit_reference_closes_a_description() {
    let (rest, number) = reference(b"  0042\t3456 9.99", b"3456").unwrap();
    assert_eq!(number, b"0042");
    assert_eq!(rest, b" 9.99");
    assert!(reference(b"0042 3456", b"3456").is_err());
    assert!(reference(b" 0042 3457", b"3456").is_err());
    assert!(reference(b" 00423456", b"3456").is_err());
}

#[test]
fn credit_description_ends_at_the_first_reference() {
    let (rest, (text, number)) =
        description(b"SHOP 24 HOURS 777 3456 1 3456 5.00", b"3456").unwrap();
    assert_eq!(text, b"SHOP 24 HOURS");
    assert_eq!(number, b"777");
    assert_eq!(rest, b" 1 3456 5.00");
    assert_eq!(
        description(b"no reference here", b"3456"),
        Err(ParseError { kind: ErrorKind::Lexical, remaining: 17 })
    );
}

#[test]
fn credit_transaction_reads_one_entry() {
    let start = january(1);
    let (rest, entry) = transaction(
        b"01/05 01/06 BOOKS & MORE\nPORTLAND 9001 3456 $1,019.99\n\nnext",
        start,
        b"3456",
        TransactionType::Purchase,
    )
    .unwrap();
    assert_eq!(rest, b"next");
    assert_eq!(entry.type_, TransactionType::Purchase);
    assert_eq!(entry.date, january(5));
    assert_eq!(entry.posting_date, january(6));
    assert_eq!(entry.description, b"BOOKS & MORE\nPORTLAND");
    assert_eq!(entry.reference_number, b"9001");
    assert_eq!(entry.account_number, b"3456");
    assert_eq!(entry.amount, 101999);
}

#[test]
fn credit_transaction_needs_its_blank_line() {
    let start = january(1);
    let error =
        transaction(b"01/05 01/06 BOOKS 9001 3456 19.99\nnext", start, b"3456", TransactionType::Fee)
            .unwrap_err();
    assert_eq!(error, ParseError { kind: ErrorKind::Lexical, remaining: 5 });
    let error =
        transaction(b"02/30 01/06 BOOKS 9001 3456 19.99\n\n", start, b"3456", TransactionType::Fee)
            .unwrap_err();
    assert_eq!(error, ParseError { kind: ErrorKind::InvalidDate, remaining: 35 });
}

#[test]
fn credit_section_returns_its_transactions_in_order() {
    let text = "ads Credits\n\n\
                01/02 01/03 FIRST 1 3456 1.00\n\n\
                01/04 01/05 SECOND 2 3456 2.50\n\n\
                01/06 01/07 THIRD 3 3456 -0.25\n\n\
                TOTAL FOR THIS PERIOD $3.25\n\nrest";
    let (rest, list) = transaction_section(
        text.as_bytes(),
        january(1),
        b"3456",
        b"Credits\n\n",
        TransactionType::Credit,
    )
    .unwrap();
    assert_eq!(rest, b"rest");
    let amounts: Vec<i32> = list.iter().map(|t| t.amount).collect();
    assert_eq!(amounts, vec![100, 250, -25]);
    let names: Vec<&[u8]> = list.iter().map(|t| t.description.as_slice()).collect();
    assert_eq!(names, vec![&b"FIRST"[..], &b"SECOND"[..], &b"THIRD"[..]]);
}

#[test]
fn credit_section_with_a_changed_amount_is_a_totals_mismatch() {
    for changed in ["2.49", "2.51", "-2.50", "0.00"] {
        let text = format!(
            "Credits\n\n01/02 01/03 FIRST 1 3456 1.00\n\n01/04 01/05 SECOND 2 3456 {changed}\n\n\
             TOTAL FOR THIS PERIOD $3.50\n\nrest"
        );
        let error = transaction_section(
            text.as_bytes(),
            january(1),
            b"3456",
            b"Credits\n\n",
            TransactionType::Credit,
        )
        .unwrap_err();
        assert_eq!(error, ParseError { kind: ErrorKind::TotalsMismatch, remaining: 4 });
    }
}

#[test]
fn credit_section_may_hold_no_transaction() {
    let text = "Fees\n\nTOTAL FEES FOR THIS PERIOD $0.00\n\n";
    let (rest, list) =
        transaction_section(text.as_bytes(), january(1), b"3456", b"Fees\n\n", TransactionType::Fee)
            .unwrap();
    assert_eq!(rest, b"");
    assert!(list.is_empty());
    let text = "ads Credits\n\nTOTAL FOR THIS PERIOD -0.00\n\nrest";
    let (rest, list) = transaction_section(
        text.as_bytes(),
        january(1),
        b"3456",
        b"Credits\n\n",
        TransactionType::Credit,
    )
    .unwrap();
    assert_eq!(rest, b"rest");
    assert!(list.is_empty());
}

#[test]
fn credit_section_without_transactions_must_declare_zero() {
    let text = "Credits\n\nTOTAL FOR THIS PERIOD $0.01\n\nrest";
    let error = transaction_section(
        text.as_bytes(),
        january(1),
        b"3456",
        b"Credits\n\n",
        TransactionType::Credit,
    )
    .unwrap_err();
    assert_eq!(error, ParseError { kind: ErrorKind::TotalsMismatch, remaining: 4 });
    let text = "Credits\n\nno total";
    let error = transaction_section(
        text.as_bytes(),
        january(1),
        b"3456",
        b"Credits\n\n",
        TransactionType::Credit,
    )
    .unwrap_err();
    assert_eq!(error, ParseError { kind: ErrorKind::AnchorNotFound, remaining: 8 });
}

#[test]
fn credit_statement_with_one_transaction() {
    let text = "Account# 1234 5678 9012 3456\nJan 1 - Jan 31, 2024\n\
                Previous Balance $100.00\nNew Balance Total $50.00\n\
                Payments and Other Credits\n\n\
                01/15 01/16 PAYMENT - THANK YOU 5550001 3456 $150.00\n\n\
                TOTAL PAYMENTS AND OTHER CREDITS FOR THIS PERIOD $150.00\n\n\
                Purchases and Adjustments\n\n\
                TOTAL PURCHASES AND ADJUSTMENTS FOR THIS PERIOD $0.00\n\n\
                TOTAL INTEREST CHARGED FOR THIS PERIOD -$200.00\n";
    let (rest, statement) = parse_statement(text.as_bytes()).unwrap();
    assert_eq!(rest, b"\n");
    assert!(statement.account_number.ends_with(b"3456"));
    assert_eq!(statement.start_date, january(1));
    assert_eq!(statement.end_date, january(31));
    assert_eq!(statement.start_balance, 10000);
    assert_eq!(statement.end_balance, 5000);
    assert_eq!(statement.transactions.len(), 1);
    assert_eq!(statement.transactions[0].amount, 15000);
    assert_eq!(statement.transactions[0].type_, TransactionType::Credit);
    assert_eq!(statement.transactions[0].account_number, b"3456");
    assert_eq!(statement.total_interest, -20000);
    let wrong = text.replace("PERIOD $150.00", "PERIOD $140.00");
    assert_eq!(parse_statement(wrong.as_bytes()).unwrap_err().kind, ErrorKind::TotalsMismatch);
}

#[test]
fn credit_assemble_accepts_exactly_what_balances() {
    let entry = |amount| Transaction {
        type_: TransactionType::Purchase,
        date: january(2),
        posting_date: january(3),
        description: b"X".to_vec(),
        reference_number: b"1".to_vec(),
        account_number: b"3456".to_vec(),
        amount,
    };
    let candidate = |end_balance, amounts: &[i32], total_interest| BankOfAmericaCreditStatement {
        account_number: b"1234 3456".to_vec(),
        start_date: january(1),
        end_date: january(31),
        start_balance: 1000,
        end_balance,
        transactions: amounts.iter().map(|a| entry(*a)).collect(),
        total_interest,
    };
    let accepted =
        BankOfAmericaCreditStatement::assemble(candidate(1600, &[100, 200, 250], 50), 7).unwrap();
    assert_eq!(accepted.end_balance, 1600);
    assert_eq!(accepted.transactions.len(), 3);
    let mismatch = ParseError { kind: ErrorKind::TotalsMismatch, remaining: 7 };
    for amounts in [[101, 200, 250], [100, 199, 250], [100, 200, -250]] {
        let rejected = BankOfAmericaCreditStatement::assemble(candidate(1600, &amounts, 50), 7);
        assert_eq!(rejected.unwrap_err(), mismatch);
    }
    assert!(BankOfAmericaCreditStatement::assemble(candidate(1600, &[100, 200, 250], 0), 7)
        .is_err());
    assert!(BankOfAmericaCreditStatement::assemble(
        candidate(i32::MIN, &[i32::MIN, i32::MIN, 1000], 0),
        0
    )
    .is_err());
    assert!(BankOfAmericaCreditStatement::assemble(candidate(1000, &[], 0), 0).is_ok());
}

#[test]
fn credit_head_is_read_in_any_spelling_behind_any_text() {
    let text = "ads Account #1\nAccount# 0000 1111 2222 3456\t\n\nJANUARY  01 - january 31, 02024 \n\
                see Previous Balances\nPrevious Balance 1,000.00 and\nNew Balance Total +$1,150.00\n\
                Payments and Other Credits\n\n\
                1/15 01/16 PAYMENT 1 3456 150.00\n\n\
                FOR THIS PERIOD 150.00\n\n\
                Purchases and Adjustments\n\nFOR THIS PERIOD .00\n\n\
                TOTAL INTEREST CHARGED FOR THIS PERIOD 0.00";
    let (_, statement) = parse_statement(text.as_bytes()).unwrap();
    assert_eq!(statement.account_number, b"0000 1111 2222 3456");
    assert_eq!(statement.start_date, january(1));
    assert_eq!(statement.end_date, january(31));
    assert_eq!(statement.start_balance, 100000);
    assert_eq!(statement.end_balance, 115000);
    assert_eq!(statement.transactions.len(), 1);
    assert_eq!(statement.transactions[0].account_number, b"3456");
}

#[test]
fn credit_balance_is_read_behind_the_first_label() {
    let text = "Account# 1234 3456\nJan 1 - Jan 31, 2024\n\
                Previous Balance $40.00 as of last month\n\
                Previous Balance $100.00\nNew Balance Total $50.00\n\
                Payments and Other Credits\n\nFOR THIS PERIOD $0.00\n\n\
                Purchases and Adjustments\n\nFOR THIS PERIOD $0.00\n\n\
                TOTAL INTEREST CHARGED FOR THIS PERIOD $10.00";
    let (_, statement) = parse_statement(text.as_bytes()).unwrap();
    assert_eq!(statement.start_balance, 4000);
    assert_eq!(statement.end_balance, 5000);
    assert!(statement.transactions.is_empty());
    assert_eq!(statement.total_interest, 1000);
}

#[test]
fn credit_balance_with_a_third_fraction_digit_is_refused() {
    let text = "Account# 1234 3456\nJan 1 - Jan 31, 2024\n\
                Previous Balance $100.005\nNew Balance Total $100.00\n\
                Payments and Other Credits\n\nFOR THIS PERIOD $0.00\n\n\
                Purchases and Adjustments\n\nFOR THIS PERIOD $0.00\n\n\
                TOTAL INTEREST CHARGED FOR THIS PERIOD $0.00";
    let error = parse_statement(text.as_bytes()).unwrap_err();
    assert_eq!(error.kind, ErrorKind::Lexical);
}
