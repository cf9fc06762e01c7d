//! Bank of America credit card statements in their earlier layout, which
//! names no balances: the sections are checked against their declared
//! totals, and the interest charged is read, but nothing is held against a
//! balance.

use vstd::prelude::*;
use vstd::slice::{slice_subrange, slice_to_vec};
use vstd::string::*;
use crate::bank_of_america_credit_statement::{
    account_number, dates, description, lemma_period_valid, period, spec_account_number, spec_dates,
    spec_description, spec_period,
};
use crate::canonical::lemma_found_behind;
use crate::common_parsers::{
    digit_groups, fits_amount, fraction, make_amount, minor_units, spec_digit_groups, spec_fraction,
    spec_take_until_including, take_until_including, MAX_WHOLE_UNITS,
};
use crate::date::Date;
use crate::error::{error_at, fail_at, lexical, outcome, outcome_view, ErrorKind, ParseError};
use crate::scan::{
    blank_line, digits_value, joined_from, opt_byte, skip_spaces, spaces1, span, spec_blank_line,
    spec_opt_byte, spec_spaces1, starts_with, CharClass, DOLLAR, MINUS,
};
use crate::statement_format::StatementFormat;
use crate::totals::{
    check_total, lemma_changed_amount_breaks_total, lemma_sum_push, spec_check_total, sum,
    total_agrees,
};

verus! {

/// The section a transaction was listed in.
#[derive(Debug, Copy, Clone, PartialEq, Eq, Structural)]
pub enum TransactionType {
    Credit,
    Purchase,
    Fee,
}

/// One line of a statement.
#[derive(Debug)]
pub struct Transaction {
    pub type_: TransactionType,
    pub date: Date,
    pub posting_date: Date,
    pub description: Vec<u8>,
    pub reference_number: Vec<u8>,
    pub account_number: Vec<u8>,
    pub amount: i32,
}

/// A transaction as a value of the grammar.
pub struct TransactionView {
    pub type_: TransactionType,
    pub date: Date,
    pub posting_date: Date,
    pub description: Seq<u8>,
    pub reference_number: Seq<u8>,
    pub account_number: Seq<u8>,
    pub amount: i32,
}

impl View for Transaction {
    type V = TransactionView;

    open spec fn view(&self) -> TransactionView {
        TransactionView {
            type_: self.type_,
            date: self.date,
            posting_date: self.posting_date,
            description: self.description@,
            reference_number: self.reference_number@,
            account_number: self.account_number@,
            amount: self.amount,
        }
    }
}

impl TransactionView {
    /// Both dates are days of the calendar.
    pub open spec fn is_valid(self) -> bool {
        self.date.is_valid() && self.posting_date.is_valid()
    }
}

/// Every transaction of the list has dates that exist and is of the type
/// `transaction_type`.
pub open spec fn all_valid(list: Seq<TransactionView>, transaction_type: TransactionType) -> bool {
    forall|i: int|
        0 <= i < list.len() ==> (#[trigger] list[i]).is_valid() && list[i].type_
            == transaction_type
}

/// Every transaction of the list has dates that exist and carries the
/// account digits `account`.
pub open spec fn all_for_account(list: Seq<TransactionView>, account: Seq<u8>) -> bool {
    forall|i: int|
        0 <= i < list.len() ==> (#[trigger] list[i]).is_valid() && list[i].account_number
            == account
}

/// The transactions of a list, each as a value of the grammar.
pub open spec fn views(list: Seq<Transaction>) -> Seq<TransactionView> {
    Seq::new(list.len(), |i: int| list[i]@)
}

/// The amounts of a list of transactions, in order.
pub open spec fn amounts(list: Seq<TransactionView>) -> Seq<int> {
    Seq::new(list.len(), |i: int| list[i].amount as int)
}

/// A statement, read whole.
#[derive(Debug)]
pub struct BankOfAmericaStatement {
    pub account_number: Vec<u8>,
    pub start_date: Date,
    pub end_date: Date,
    pub transactions: Vec<Transaction>,
    pub total_interest: i32,
}

/// A statement as a value of the grammar.
pub struct BankOfAmericaStatementView {
    pub account_number: Seq<u8>,
    pub start_date: Date,
    pub end_date: Date,
    pub transactions: Seq<TransactionView>,
    pub total_interest: i32,
}

impl BankOfAmericaStatementView {
    /// What holds of every statement that was read: its dates and those of
    /// its transactions exist, and the transactions carry the last four
    /// bytes of the account number.
    pub open spec fn is_valid(self) -> bool {
        &&& self.start_date.is_valid()
        &&& self.end_date.is_valid()
        &&& self.account_number.len() >= 4
        &&& all_for_account(
            self.transactions,
            self.account_number.skip(self.account_number.len() - 4),
        )
    }
}

impl View for BankOfAmericaStatement {
    type V = BankOfAmericaStatementView;

    open spec fn view(&self) -> BankOfAmericaStatementView {
        BankOfAmericaStatementView {
            account_number: self.account_number@,
            start_date: self.start_date,
            end_date: self.end_date,
            transactions: views(self.transactions@),
            total_interest: self.total_interest,
        }
    }
}

/// Adds up the amounts of a list of transactions, exactly.
pub fn total_amount(list: &Vec<Transaction>) -> (total: i128)
    ensures
        total == sum(amounts(views(list@))),
        -0x8000_0000_0000_0000_0000_0000 <= total <= 0x8000_0000_0000_0000_0000_0000,
{
    let mut total: i128 = 0;
    let mut i: usize = 0;
    assert(amounts(views(list@)).take(0) =~= Seq::<int>::empty());
    while i < list.len()
        invariant
            i <= list.len(),
            total == sum(amounts(views(list@)).take(i as int)),
            -0x8000_0000 * i <= total <= 0x8000_0000 * i,
        decreases list.len() - i,
    {
        proof {
            let all = amounts(views(list@));
            lemma_sum_push(all.take(i as int), all[i as int]);
            assert(all.take(i as int).push(all[i as int]) =~= all.take(i + 1));
        }
        total = total + list[i].amount as i128;
        i += 1;
    }
    assert(amounts(views(list@)).take(list@.len() as int) =~= amounts(views(list@)));
    total
}

/// A currency amount as this layout writes it: an optional `-`, an optional
/// `$`, at least one digit group, further groups behind thousands
/// separators, a decimal point and two digits. Its value is counted in
/// minor units.
pub open spec fn spec_dollar_amount(s: Seq<u8>) -> Result<(Seq<u8>, i32), ParseError> {
    let negative = s.len() > 0 && s[0] == MINUS;
    let s1 = spec_opt_byte(spec_opt_byte(s, MINUS), DOLLAR);
    let (s2, digits) = spec_digit_groups(s1);
    if span(s1, CharClass::Digit) == 0 {
        Err(lexical(s1))
    } else {
        match spec_fraction(s2) {
            Ok((rest, cents)) => if fits_amount(digits_value(digits), cents) {
                Ok((rest, minor_units(negative, digits_value(digits), cents) as i32))
            } else {
                Err(lexical(s))
            },
            Err(e) => Err(e),
        }
    }
}

/// Reads a currency amount such as `-$1,234.56` and gives it in minor units.
/// An amount whose magnitude does not fit 32 bits is rejected.
pub fn dollar_amount(input: &[u8]) -> (r: Result<(&[u8], i32), ParseError>)
    ensures
        outcome(r) == spec_dollar_amount(input@),
{
    let negative = input.len() > 0 && input[0] == MINUS;
    let s1 = opt_byte(opt_byte(input, MINUS), DOLLAR);
    if s1.len() == 0 || !CharClass::Digit.contains(s1[0]) {
        return Err(error_at(ErrorKind::Lexical, s1));
    }
    let (s2, whole) = digit_groups(s1, MAX_WHOLE_UNITS);
    let (rest, cents) = match fraction(s2) {
        Ok(v) => v,
        Err(e) => return Err(e),
    };
    let ghost digits = spec_digit_groups(s1@).1;
    match make_amount(negative, whole, cents, Ghost(digits)) {
        Some(amount) => Ok((rest, amount)),
        None => Err(error_at(ErrorKind::Lexical, input)),
    }
}

/// The amount that ends a transaction: white space, the amount, a blank line.
pub open spec fn spec_closing_amount(s: Seq<u8>) -> Result<(Seq<u8>, i32), ParseError> {
    match spec_spaces1(s) {
        Ok((s1, _)) => match spec_dollar_amount(s1) {
            Ok((s2, amount)) => match spec_blank_line(s2) {
                Ok((rest, _)) => Ok((rest, amount)),
                Err(e) => Err(e),
            },
            Err(e) => Err(e),
        },
        Err(e) => Err(e),
    }
}

/// Reads the amount that ends a transaction.
pub fn closing_amount(input: &[u8]) -> (r: Result<(&[u8], i32), ParseError>)
    ensures
        outcome(r) == spec_closing_amount(input@),
{
    let (s1, _) = match spaces1(input) {
        Ok(v) => v,
        Err(e) => return Err(e),
    };
    let (s2, amount) = match dollar_amount(s1) {
        Ok(v) => v,
        Err(e) => return Err(e),
    };
    let (rest, _) = match blank_line(s2) {
        Ok(v) => v,
        Err(e) => return Err(e),
    };
    Ok((rest, amount))
}

/// One transaction: its dates, its description with the reference number
/// and the account digits `account` that close it, and its amount.
pub open spec fn spec_transaction(
    s: Seq<u8>,
    start_date: Date,
    account: Seq<u8>,
    transaction_type: TransactionType,
) -> Result<(Seq<u8>, TransactionView), ParseError> {
    match spec_dates(s, start_date) {
        Ok((s1, (date, posting_date))) => match spec_description(s1, account) {
            Ok((s2, (text, number))) => match spec_closing_amount(s2) {
                Ok((rest, amount)) => Ok(
                    (
                        rest,
                        TransactionView {
                            type_: transaction_type,
                            date,
                            posting_date,
                            description: text,
                            reference_number: number,
                            account_number: account,
                            amount,
                        },
                    ),
                ),
                Err(e) => Err(e),
            },
            Err(e) => Err(e),
        },
        Err(e) => Err(e),
    }
}

/// Reads one transaction of a statement that starts on `start_date`, for the
/// card whose last digits are `account_number`.
pub fn transaction<'a>(
    input: &'a [u8],
    start_date: Date,
    account_number: &[u8],
    transaction_type: TransactionType,
) -> (r: Result<(&'a [u8], Transaction), ParseError>)
    ensures
        outcome_view(r) == spec_transaction(
            input@,
            start_date,
            account_number@,
            transaction_type,
        ),
        r matches Ok((rest, entry)) ==> entry@.is_valid() && entry.type_ == transaction_type
            && entry.account_number@ == account_number@,
{
    let (s1, (date, posting_date)) = match dates(input, start_date) {
        Ok(v) => v,
        Err(e) => return Err(e),
    };
    let (s2, (text, number)) = match description(s1, account_number) {
        Ok(v) => v,
        Err(e) => return Err(e),
    };
    let (rest, amount) = match closing_amount(s2) {
        Ok(v) => v,
        Err(e) => return Err(e),
    };
    Ok(
        (
            rest,
            Transaction {
                type_: transaction_type,
                date,
                posting_date,
                description: slice_to_vec(text),
                reference_number: slice_to_vec(number),
                account_number: slice_to_vec(account_number),
                amount,
            },
        ),
    )
}

/// As many transactions as the text holds one after another: the rest, and
/// the transactions in order.
pub open spec fn spec_transactions(
    s: Seq<u8>,
    start_date: Date,
    account: Seq<u8>,
    transaction_type: TransactionType,
) -> (Seq<u8>, Seq<TransactionView>)
    decreases s.len(),
{
    match spec_transaction(s, start_date, account, transaction_type) {
        Ok((rest, first)) => if rest.len() < s.len() {
            let (end, others) = spec_transactions(rest, start_date, account, transaction_type);
            (end, seq![first] + others)
        } else {
            (s, Seq::empty())
        },
        Err(_) => (s, Seq::empty()),
    }
}

/// The transactions that the text holds have dates that exist, are of the
/// type asked for and carry the account digits asked for.
pub proof fn lemma_transactions_valid(
    s: Seq<u8>,
    start_date: Date,
    account: Seq<u8>,
    transaction_type: TransactionType,
)
    ensures
        all_valid(spec_transactions(s, start_date, account, transaction_type).1, transaction_type),
        all_for_account(spec_transactions(s, start_date, account, transaction_type).1, account),
    decreases s.len(),
{
    match spec_transaction(s, start_date, account, transaction_type) {
        Ok((rest, first)) => {
            if rest.len() < s.len() {
                lemma_transactions_valid(rest, start_date, account, transaction_type);
            }
        },
        Err(_) => {},
    }
}

/// Reads transactions until the text holds no further one.
pub fn transactions<'a>(
    input: &'a [u8],
    start_date: Date,
    account_number: &[u8],
    transaction_type: TransactionType,
) -> (r: (&'a [u8], Vec<Transaction>))
    ensures
        (r.0@, views(r.1@)) == spec_transactions(
            input@,
            start_date,
            account_number@,
            transaction_type,
        ),
        all_valid(views(r.1@), transaction_type),
        all_for_account(views(r.1@), account_number@),
{
    proof {
        lemma_transactions_valid(input@, start_date, account_number@, transaction_type);
    }
    let mut cur = input;
    let mut list: Vec<Transaction> = Vec::new();
    let ghost whole = spec_transactions(input@, start_date, account_number@, transaction_type);
    assert(views(list@) + whole.1 =~= whole.1);
    loop
        invariant
            whole == spec_transactions(input@, start_date, account_number@, transaction_type),
            all_valid(whole.1, transaction_type),
            all_for_account(whole.1, account_number@),
            whole.0 == spec_transactions(
                cur@,
                start_date,
                account_number@,
                transaction_type,
            ).0,
            whole.1 == views(list@) + spec_transactions(
                cur@,
                start_date,
                account_number@,
                transaction_type,
            ).1,
        decreases cur@.len(),
    {
        match transaction(cur, start_date, account_number, transaction_type) {
            Ok((rest, item)) => {
                if rest.len() >= cur.len() {
                    assert(views(list@) + Seq::<TransactionView>::empty() =~= views(list@));
                    return (cur, list);
                }
                proof {
                    let others = spec_transactions(
                        rest@,
                        start_date,
                        account_number@,
                        transaction_type,
                    ).1;
                    assert(views(list@.push(item)) =~= views(list@).push(item@));
                    assert(views(list@) + (seq![item@] + others) =~= views(list@).push(item@)
                        + others);
                }
                list.push(item);
                cur = rest;
            },
            Err(_) => {
                assert(views(list@) + Seq::<TransactionView>::empty() =~= views(list@));
                return (cur, list);
            },
        }
    }
}

/// An amount that a label announces: the text up to and including the first
/// occurrence of `label`, white space, and the amount.
pub open spec fn spec_labelled_amount(s: Seq<u8>, label: Seq<u8>) -> Result<
    (Seq<u8>, i32),
    ParseError,
> {
    match spec_take_until_including(s, label) {
        Ok((s1, _)) => match spec_spaces1(s1) {
            Ok((s2, _)) => spec_dollar_amount(s2),
            Err(e) => Err(e),
        },
        Err(e) => Err(e),
    }
}

/// Finds `label` and reads the amount it announces.
pub fn labelled_amount<'a>(input: &'a [u8], label: &[u8]) -> (r: Result<
    (&'a [u8], i32),
    ParseError,
>)
    ensures
        outcome(r) == spec_labelled_amount(input@, label@),
{
    let (s1, _) = match take_until_including(input, label) {
        Ok(v) => v,
        Err(e) => return Err(e),
    };
    let (s2, _) = match spaces1(s1) {
        Ok(v) => v,
        Err(e) => return Err(e),
    };
    dollar_amount(s2)
}

/// Holds the transactions of a section against the total that the section
/// declares; a disagreement is reported with `remaining` bytes unread.
pub fn check_section_total(list: &Vec<Transaction>, declared: i32, remaining: usize) -> (r:
    Result<(), ParseError>)
    ensures
        r == spec_check_total(sum(amounts(views(list@))), declared as int, remaining),
{
    check_total(total_amount(list), declared as i128, remaining)
}

/// What a section is made of: the text up to and including `header`, any
/// number of transactions, none included, and the total that the section
/// declares, with a blank line behind it. Gives the transactions and the
/// declared total.
pub open spec fn spec_section_parts(
    s: Seq<u8>,
    start_date: Date,
    account: Seq<u8>,
    header: Seq<u8>,
    transaction_type: TransactionType,
) -> Result<(Seq<u8>, (Seq<TransactionView>, i32)), ParseError> {
    match spec_take_until_including(s, header) {
        Ok((s1, _)) => {
            let (s2, list) = spec_transactions(s1, start_date, account, transaction_type);
            match spec_labelled_amount(s2, "FOR THIS PERIOD".spec_bytes()) {
                Ok((s3, declared)) => match spec_blank_line(s3) {
                    Ok((rest, _)) => Ok((rest, (list, declared))),
                    Err(e) => Err(e),
                },
                Err(e) => Err(e),
            }
        },
        Err(e) => Err(e),
    }
}

/// A section: its parts, and the check that the amounts of its transactions
/// add up to the total it declares.
pub open spec fn spec_transaction_section(
    s: Seq<u8>,
    start_date: Date,
    account: Seq<u8>,
    header: Seq<u8>,
    transaction_type: TransactionType,
) -> Result<(Seq<u8>, Seq<TransactionView>), ParseError> {
    match spec_section_parts(s, start_date, account, header, transaction_type) {
        Ok((rest, (list, declared))) => match spec_check_total(
            sum(amounts(list)),
            declared as int,
            rest.len() as usize,
        ) {
            Ok(_) => Ok((rest, list)),
            Err(e) => Err(e),
        },
        Err(e) => Err(e),
    }
}

/// A section whose parts can be read is accepted, with exactly the
/// transactions read and in their order, where their amounts add up to the
/// declared total; where they do not, it is a totals mismatch.
pub proof fn lemma_section_total_decides(
    s: Seq<u8>,
    start_date: Date,
    account: Seq<u8>,
    header: Seq<u8>,
    transaction_type: TransactionType,
)
    requires
        spec_section_parts(s, start_date, account, header, transaction_type) is Ok,
    ensures
        ({
            let (rest, (list, declared)) = spec_section_parts(
                s,
                start_date,
                account,
                header,
                transaction_type,
            )->Ok_0;
            let section = spec_transaction_section(
                s,
                start_date,
                account,
                header,
                transaction_type,
            );
            if total_agrees(amounts(list), declared as int) {
                section == Ok::<_, ParseError>((rest, list))
            } else {
                section == Err::<(Seq<u8>, Seq<TransactionView>), _>(
                    fail_at(ErrorKind::TotalsMismatch, rest),
                )
            }
        }),
{
}

/// Of two section texts that declare the same total and hold the same
/// amounts but for one, at most one is accepted: where the first is, the
/// second is a totals mismatch.
pub proof fn lemma_section_changed_amount_fails(
    s: Seq<u8>,
    changed: Seq<u8>,
    start_date: Date,
    account: Seq<u8>,
    header: Seq<u8>,
    transaction_type: TransactionType,
    i: int,
)
    requires
        spec_transaction_section(s, start_date, account, header, transaction_type) is Ok,
        spec_section_parts(changed, start_date, account, header, transaction_type) is Ok,
        ({
            let (list, declared) = spec_section_parts(
                s,
                start_date,
                account,
                header,
                transaction_type,
            )->Ok_0.1;
            let (other, same) = spec_section_parts(
                changed,
                start_date,
                account,
                header,
                transaction_type,
            )->Ok_0.1;
            &&& same == declared
            &&& other.len() == list.len()
            &&& 0 <= i < list.len()
            &&& other[i].amount != list[i].amount
            &&& forall|j: int| 0 <= j < list.len() && j != i ==> other[j].amount == list[j].amount
        }),
    ensures
        spec_transaction_section(changed, start_date, account, header, transaction_type) == Err::<
            (Seq<u8>, Seq<TransactionView>),
            _,
        >(
            fail_at(
                ErrorKind::TotalsMismatch,
                spec_section_parts(changed, start_date, account, header, transaction_type)->Ok_0.0,
            ),
        ),
{
    let (list, declared) = spec_section_parts(
        s,
        start_date,
        account,
        header,
        transaction_type,
    )->Ok_0.1;
    let other = spec_section_parts(changed, start_date, account, header, transaction_type)->Ok_0.1.0;
    assert(amounts(other) =~= amounts(list).update(i, other[i].amount as int));
    lemma_changed_amount_breaks_total(
        amounts(list),
        declared as int,
        i,
        other[i].amount - list[i].amount,
    );
}

/// The record at place `i` reads as `list[i]`: `cuts[i]` is the text before
/// it and `cuts[i + 1]`, which is shorter, the text behind it.
pub open spec fn reads_at(
    cuts: Seq<Seq<u8>>,
    list: Seq<TransactionView>,
    i: int,
    start_date: Date,
    account: Seq<u8>,
    transaction_type: TransactionType,
) -> bool {
    &&& spec_transaction(cuts[i], start_date, account, transaction_type) == Ok::<_, ParseError>(
        (cuts[i + 1], list[i]),
    )
    &&& cuts[i + 1].len() < cuts[i].len()
}

/// The records of a section follow one another in the text: `cuts` holds
/// the text before each record and the text behind the last, and `list`
/// what each record reads as. Behind the last record no further one stands.
pub open spec fn reads_in_turn(
    cuts: Seq<Seq<u8>>,
    list: Seq<TransactionView>,
    start_date: Date,
    account: Seq<u8>,
    transaction_type: TransactionType,
) -> bool {
    &&& cuts.len() == list.len() + 1
    &&& forall|i: int|
        0 <= i < list.len() ==> #[trigger] reads_at(cuts, list, i, start_date, account, transaction_type)
    &&& spec_transaction(cuts[list.len() as int], start_date, account, transaction_type) is Err
}

/// Records that follow one another in the text are read as they stand:
/// each of them, none twice, in the order of the text.
pub proof fn lemma_records_read_in_turn(
    cuts: Seq<Seq<u8>>,
    list: Seq<TransactionView>,
    start_date: Date,
    account: Seq<u8>,
    transaction_type: TransactionType,
)
    requires
        reads_in_turn(cuts, list, start_date, account, transaction_type),
    ensures
        spec_transactions(cuts[0], start_date, account, transaction_type) == (
            cuts[list.len() as int],
            list,
        ),
    decreases list.len(),
{
    if list.len() == 0 {
        assert(list =~= Seq::<TransactionView>::empty());
    } else {
        let later = cuts.skip(1);
        let others = list.skip(1);
        assert(reads_at(cuts, list, 0, start_date, account, transaction_type));
        assert forall|i: int| 0 <= i < others.len() implies #[trigger] reads_at(
            later,
            others,
            i,
            start_date, account, transaction_type,
        ) by {
            assert(reads_at(cuts, list, i + 1, start_date, account, transaction_type));
            assert(later[i] == cuts[i + 1]);
            assert(later[i + 1] == cuts[i + 2]);
            assert(others[i] == list[i + 1]);
        }
        assert(later[others.len() as int] == cuts[list.len() as int]);
        lemma_records_read_in_turn(later, others, start_date, account, transaction_type);
        assert(later[0] == cuts[1]);
        assert(seq![list[0]] + others =~= list);
    }
}

/// Any text that holds, behind whatever comes first, the header, records
/// that follow one another, and the line of the total, is a section. It is
/// accepted with exactly those records, in their order, where their amounts
/// add up to the total that the line declares, and is a totals mismatch
/// where they do not. What is left is the text behind the line of the total.
pub proof fn lemma_section_of_records(
    junk: Seq<u8>,
    header: Seq<u8>,
    cuts: Seq<Seq<u8>>,
    list: Seq<TransactionView>,
    declared: i32,
    tail: Seq<u8>,
    start_date: Date,
    account: Seq<u8>,
    transaction_type: TransactionType,
)
    requires
        forall|j: int|
            0 <= j < junk.len() ==> !header.is_prefix_of(#[trigger] (junk + header).skip(j)),
        reads_in_turn(cuts, list, start_date, account, transaction_type),
        spec_labelled_amount(cuts[list.len() as int], "FOR THIS PERIOD".spec_bytes()) matches Ok(
            (line_end, total),
        ) && total == declared && spec_blank_line(line_end) == Ok::<_, ParseError>((tail, ())),
    ensures
        spec_transaction_section(
            junk + (header + cuts[0]),
            start_date,
            account,
            header,
            transaction_type,
        ) == if sum(amounts(list)) == declared {
            Ok::<_, ParseError>((tail, list))
        } else {
            Err::<(Seq<u8>, Seq<TransactionView>), _>(fail_at(ErrorKind::TotalsMismatch, tail))
        },
{
    lemma_found_behind(junk, header, cuts[0]);
    lemma_records_read_in_turn(cuts, list, start_date, account, transaction_type);
}

/// Any text made of whatever comes first, the header, records written one
/// behind the other in any spelling that reads, and the line of the total,
/// is a section. It is accepted with exactly those records, as many as were
/// written and in their order, where their amounts add up to the total that
/// the line declares, and is a totals mismatch where they do not. What is
/// left is the text behind the line of the total.
pub proof fn lemma_section_of_texts(
    junk: Seq<u8>,
    header: Seq<u8>,
    records: Seq<Seq<u8>>,
    list: Seq<TransactionView>,
    total_line: Seq<u8>,
    declared: i32,
    tail: Seq<u8>,
    start_date: Date,
    account: Seq<u8>,
    transaction_type: TransactionType,
)
    requires
        forall|j: int|
            0 <= j < junk.len() ==> !header.is_prefix_of(#[trigger] (junk + header).skip(j)),
        records.len() == list.len(),
        forall|i: int|
            0 <= i < records.len() ==> (#[trigger] records[i]).len() > 0 && spec_transaction(
                records[i] + joined_from(records, i + 1, total_line + tail),
                start_date,
                account,
                transaction_type,
            ) == Ok::<_, ParseError>((joined_from(records, i + 1, total_line + tail), list[i])),
        spec_transaction(total_line + tail, start_date, account, transaction_type) is Err,
        spec_labelled_amount(total_line + tail, "FOR THIS PERIOD".spec_bytes()) matches Ok(
            (line_end, total),
        ) && total == declared && spec_blank_line(line_end) == Ok::<_, ParseError>((tail, ())),
    ensures
        spec_transaction_section(
            junk + (header + joined_from(records, 0, total_line + tail)),
            start_date,
            account,
            header,
            transaction_type,
        ) == if sum(amounts(list)) == declared {
            Ok::<_, ParseError>((tail, list))
        } else {
            Err::<(Seq<u8>, Seq<TransactionView>), _>(fail_at(ErrorKind::TotalsMismatch, tail))
        },
{
    let end = total_line + tail;
    let cuts = Seq::new(records.len() + 1, |i: int| joined_from(records, i, end));
    assert forall|i: int| 0 <= i < list.len() implies #[trigger] reads_at(
        cuts,
        list,
        i,
        start_date, account, transaction_type,
    ) by {
        assert(records[i].len() > 0);
        assert(cuts[i] == records[i] + joined_from(records, i + 1, end));
        assert(cuts[i + 1] == joined_from(records, i + 1, end));
    }
    assert(cuts[list.len() as int] == end);
    lemma_section_of_records(
        junk,
        header,
        cuts,
        list,
        declared,
        tail,
        start_date,
        account,
        transaction_type,
    );
}

/// The transactions of a section that is accepted have dates that exist,
/// are of the type asked for and carry the account digits asked for, and
/// add up to the total that the section declares.
pub proof fn lemma_section_valid(
    s: Seq<u8>,
    start_date: Date,
    account: Seq<u8>,
    header: Seq<u8>,
    transaction_type: TransactionType,
)
    ensures
        spec_transaction_section(s, start_date, account, header, transaction_type) matches Ok(
            (_, list),
        ) ==> {
            &&& all_valid(list, transaction_type)
            &&& all_for_account(list, account)
            &&& total_agrees(
                amounts(list),
                spec_section_parts(s, start_date, account, header, transaction_type)->Ok_0.1.1
                    as int,
            )
        },
{
    match spec_take_until_including(s, header) {
        Ok((s1, _)) => {
            lemma_transactions_valid(s1, start_date, account, transaction_type);
        },
        Err(_) => {},
    }
}

/// Reads the section that `section_header` opens and checks its total.
pub fn transaction_section<'a>(
    input: &'a [u8],
    start_date: Date,
    account_number: &[u8],
    section_header: &[u8],
    transaction_type: TransactionType,
) -> (r: Result<(&'a [u8], Vec<Transaction>), ParseError>)
    ensures
        match r {
            Ok((rest, list)) => spec_transaction_section(
                input@,
                start_date,
                account_number@,
                section_header@,
                transaction_type,
            ) == Ok::<_, ParseError>((rest@, views(list@))),
            Err(e) => spec_transaction_section(
                input@,
                start_date,
                account_number@,
                section_header@,
                transaction_type,
            ) == Err::<(Seq<u8>, Seq<TransactionView>), _>(e),
        },
        r matches Ok((_, list)) ==> all_valid(views(list@), transaction_type) && all_for_account(
            views(list@),
            account_number@,
        ),
{
    proof {
        lemma_section_valid(input@, start_date, account_number@, section_header@, transaction_type);
    }
    let (s1, _) = match take_until_including(input, section_header) {
        Ok(v) => v,
        Err(e) => return Err(e),
    };
    let (s2, list) = transactions(s1, start_date, account_number, transaction_type);
    let (s3, declared) = match labelled_amount(s2, "FOR THIS PERIOD".as_bytes()) {
        Ok(v) => v,
        Err(e) => return Err(e),
    };
    let (rest, _) = match blank_line(s3) {
        Ok(v) => v,
        Err(e) => return Err(e),
    };
    match check_section_total(&list, declared, rest.len()) {
        Ok(_) => Ok((rest, list)),
        Err(e) => Err(e),
    }
}

/// The sections of a statement, in their fixed order: payments and other
/// credits, purchases and adjustments, and fees where the text goes on with
/// the fees header. Transactions are matched with the last four bytes of the
/// account number, of which there must be that many.
pub open spec fn spec_sections(s: Seq<u8>, start_date: Date, number: Seq<u8>) -> Result<
    (Seq<u8>, Seq<TransactionView>),
    ParseError,
> {
    if number.len() < 4 {
        Err(lexical(s))
    } else {
        let account = number.skip(number.len() - 4);
        match spec_transaction_section(
            s,
            start_date,
            account,
            "Payments and Other Credits\n\n".spec_bytes(),
            TransactionType::Credit,
        ) {
            Ok((s1, credits)) => match spec_transaction_section(
                s1,
                start_date,
                account,
                "Purchases and Adjustments\n\n".spec_bytes(),
                TransactionType::Purchase,
            ) {
                Ok((s2, purchases)) => if "Fees\n\n".spec_bytes().is_prefix_of(s2) {
                    match spec_transaction_section(
                        s2,
                        start_date,
                        account,
                        "Fees\n\n".spec_bytes(),
                        TransactionType::Fee,
                    ) {
                        Ok((rest, fees)) => Ok((rest, credits + purchases + fees)),
                        Err(e) => Err(e),
                    }
                } else {
                    Ok((s2, credits + purchases))
                },
                Err(e) => Err(e),
            },
            Err(e) => Err(e),
        }
    }
}

/// The transactions of all sections have dates that exist and carry the
/// last four bytes of the account number.
pub proof fn lemma_sections_valid(s: Seq<u8>, start_date: Date, number: Seq<u8>)
    ensures
        spec_sections(s, start_date, number) matches Ok((_, list)) ==> number.len() >= 4
            && all_for_account(list, number.skip(number.len() - 4)),
{
    if number.len() >= 4 {
        let account = number.skip(number.len() - 4);
        let credits = "Payments and Other Credits\n\n".spec_bytes();
        let purchases = "Purchases and Adjustments\n\n".spec_bytes();
        let fees = "Fees\n\n".spec_bytes();
        lemma_section_valid(s, start_date, account, credits, TransactionType::Credit);
        match spec_transaction_section(s, start_date, account, credits, TransactionType::Credit) {
            Ok((s1, _)) => {
                lemma_section_valid(s1, start_date, account, purchases, TransactionType::Purchase);
                match spec_transaction_section(
                    s1,
                    start_date,
                    account,
                    purchases,
                    TransactionType::Purchase,
                ) {
                    Ok((s2, _)) => {
                        lemma_section_valid(s2, start_date, account, fees, TransactionType::Fee);
                    },
                    Err(_) => {},
                }
            },
            Err(_) => {},
        }
    }
}

/// The views of two lists put end to end.
pub proof fn lemma_views_concat(a: Seq<Transaction>, b: Seq<Transaction>)
    ensures
        views(a + b) =~= views(a) + views(b),
{
}

/// Reads the sections of a statement into one list.
pub fn sections<'a>(input: &'a [u8], start_date: Date, number: &[u8]) -> (r: Result<
    (&'a [u8], Vec<Transaction>),
    ParseError,
>)
    ensures
        match r {
            Ok((rest, list)) => spec_sections(input@, start_date, number@) == Ok::<
                _,
                ParseError,
            >((rest@, views(list@))),
            Err(e) => spec_sections(input@, start_date, number@) == Err::<
                (Seq<u8>, Seq<TransactionView>),
                _,
            >(e),
        },
        r matches Ok((_, list)) ==> number@.len() >= 4 && all_for_account(
            views(list@),
            number@.skip(number@.len() - 4),
        ),
{
    proof {
        lemma_sections_valid(input@, start_date, number@);
    }
    if number.len() < 4 {
        return Err(error_at(ErrorKind::Lexical, input));
    }
    let account = slice_subrange(number, number.len() - 4, number.len());
    let (s1, mut list) = match transaction_section(
        input,
        start_date,
        account,
        "Payments and Other Credits\n\n".as_bytes(),
        TransactionType::Credit,
    ) {
        Ok(v) => v,
        Err(e) => return Err(e),
    };
    let (s2, mut purchases) = match transaction_section(
        s1,
        start_date,
        account,
        "Purchases and Adjustments\n\n".as_bytes(),
        TransactionType::Purchase,
    ) {
        Ok(v) => v,
        Err(e) => return Err(e),
    };
    proof {
        lemma_views_concat(list@, purchases@);
    }
    list.append(&mut purchases);
    if !starts_with(s2, "Fees\n\n".as_bytes()) {
        return Ok((s2, list));
    }
    let (rest, mut fees) = match transaction_section(
        s2,
        start_date,
        account,
        "Fees\n\n".as_bytes(),
        TransactionType::Fee,
    ) {
        Ok(v) => v,
        Err(e) => return Err(e),
    };
    proof {
        lemma_views_concat(list@, fees@);
    }
    list.append(&mut fees);
    Ok((rest, list))
}

/// The head of a statement: the account number behind `Account# ` and the
/// period. Gives the account number and the first and last day.
pub open spec fn spec_summary(s: Seq<u8>) -> Result<(Seq<u8>, (Seq<u8>, (Date, Date))), ParseError> {
    match spec_take_until_including(s, "Account# ".spec_bytes()) {
        Ok((s1, _)) => match spec_account_number(s1) {
            Ok((s2, number)) => match spec_period(s2.skip(span(s2, CharClass::Space) as int)) {
                Ok((rest, days)) => Ok((rest, (number, days))),
                Err(e) => Err(e),
            },
            Err(e) => Err(e),
        },
        Err(e) => Err(e),
    }
}

/// Reads the head of a statement.
pub fn summary(input: &[u8]) -> (r: Result<(&[u8], (Vec<u8>, (Date, Date))), ParseError>)
    ensures
        match r {
            Ok((rest, (number, days))) => spec_summary(input@) == Ok::<_, ParseError>(
                (rest@, (number@, days)),
            ),
            Err(e) => spec_summary(input@) == Err::<(Seq<u8>, (Seq<u8>, (Date, Date))), _>(e),
        },
{
    let (s1, _) = match take_until_including(input, "Account# ".as_bytes()) {
        Ok(v) => v,
        Err(e) => return Err(e),
    };
    let (s2, number) = match account_number(s1) {
        Ok(v) => v,
        Err(e) => return Err(e),
    };
    let (rest, days) = match period(skip_spaces(s2)) {
        Ok(v) => v,
        Err(e) => return Err(e),
    };
    Ok((rest, (number, days)))
}

/// A whole statement: its head, its sections, and the interest charged.
pub open spec fn spec_parse_statement(s: Seq<u8>) -> Result<
    (Seq<u8>, BankOfAmericaStatementView),
    ParseError,
> {
    match spec_summary(s) {
        Ok((s1, (number, (start_date, end_date)))) => match spec_sections(s1, start_date, number) {
            Ok((s2, list)) => match spec_labelled_amount(
                s2,
                "TOTAL INTEREST CHARGED FOR THIS PERIOD".spec_bytes(),
            ) {
                Ok((rest, total_interest)) => Ok(
                    (
                        rest,
                        BankOfAmericaStatementView {
                            account_number: number,
                            start_date,
                            end_date,
                            transactions: list,
                            total_interest,
                        },
                    ),
                ),
                Err(e) => Err(e),
            },
            Err(e) => Err(e),
        },
        Err(e) => Err(e),
    }
}

/// The days in the head of a statement that was read exist.
pub proof fn lemma_summary_valid(s: Seq<u8>)
    ensures
        spec_summary(s) matches Ok((_, (_, (start_date, end_date)))) ==> start_date.is_valid()
            && end_date.is_valid(),
{
    match spec_take_until_including(s, "Account# ".spec_bytes()) {
        Ok((s1, _)) => match spec_account_number(s1) {
            Ok((s2, _)) => {
                lemma_period_valid(s2.skip(span(s2, CharClass::Space) as int));
            },
            Err(_) => {},
        },
        Err(_) => {},
    }
}

/// Every statement that is accepted is valid.
pub proof fn lemma_statement_valid(s: Seq<u8>)
    ensures
        spec_parse_statement(s) matches Ok((_, statement)) ==> statement.is_valid(),
{
    lemma_summary_valid(s);
    match spec_summary(s) {
        Ok((s1, (number, (start_date, _)))) => {
            lemma_sections_valid(s1, start_date, number);
        },
        Err(_) => {},
    }
}

/// Reads a whole statement. What is returned is valid.
pub fn parse_statement(input: &[u8]) -> (r: Result<(&[u8], BankOfAmericaStatement), ParseError>)
    ensures
        outcome_view(r) == spec_parse_statement(input@),
        r matches Ok((_, statement)) ==> statement@.is_valid(),
{
    proof {
        lemma_statement_valid(input@);
    }
    let (s1, (number, (start_date, end_date))) = match summary(input) {
        Ok(v) => v,
        Err(e) => return Err(e),
    };
    let (s2, list) = match sections(s1, start_date, number.as_slice()) {
        Ok(v) => v,
        Err(e) => return Err(e),
    };
    let (rest, total_interest) = match labelled_amount(
        s2,
        "TOTAL INTEREST CHARGED FOR THIS PERIOD".as_bytes(),
    ) {
        Ok(v) => v,
        Err(e) => return Err(e),
    };
    Ok(
        (
            rest,
            BankOfAmericaStatement {
                account_number: number,
                start_date,
                end_date,
                transactions: list,
                total_interest,
            },
        ),
    )
}

impl StatementFormat for BankOfAmericaStatement {
    open spec fn spec_parse(text: Seq<u8>) -> Result<BankOfAmericaStatementView, ParseError> {
        match spec_parse_statement(text) {
            Ok((_, statement)) => Ok(statement),
            Err(e) => Err(e),
        }
    }

    fn parse(text: &[u8]) -> (r: Result<Self, ParseError>) {
        match parse_statement(text) {
            Ok((_, statement)) => Ok(statement),
            Err(e) => Err(e),
        }
    }
}

} // verus!
