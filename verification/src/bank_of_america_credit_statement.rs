//! Bank of America credit card statements: two dates, a description that a
//! reference number and the card's last digits close, and an amount, in
//! sections that each declare their total.

use vstd::prelude::*;
use vstd::slice::{slice_subrange, slice_to_vec};
use vstd::string::*;
use crate::canonical::lemma_found_behind;
use crate::common_parsers::{
    dollar_amount, month_word_day, short_date, spec_dollar_amount, spec_month_word_day,
    spec_short_date, spec_take_until_including, take_until_including,
};
use crate::date::{Date, MIN_YEAR};
use crate::error::{error_at, fail_at, lexical, outcome, outcome_view, ErrorKind, ParseError};
use crate::scan::{
    advance, blank_line, joined_from, run1, signed, skip_spaces, spaces1, span, spec_blank_line,
    spec_run1, spec_signed, spec_spaces1, spec_tag, starts_with, tag, CharClass,
};
use crate::statement_format::StatementFormat;
use crate::totals::{
    balances, check_total, lemma_changed_amount_breaks_balance, lemma_changed_amount_breaks_total,
    lemma_sum_push, spec_check_total, sum, total_agrees,
};

verus! {

/// The section a transaction was listed in.
#[derive(Debug, Copy, Clone, PartialEq, Eq, Structural)]
pub enum TransactionType {
    Credit,
    Purchase,
    Fee,
}

/// One line of a statement.
#[derive(Debug)]
pub struct Transaction {
    pub type_: TransactionType,
    pub date: Date,
    pub posting_date: Date,
    pub description: Vec<u8>,
    pub reference_number: Vec<u8>,
    pub account_number: Vec<u8>,
    pub amount: i32,
}

/// A transaction as a value of the grammar.
pub struct TransactionView {
    pub type_: TransactionType,
    pub date: Date,
    pub posting_date: Date,
    pub description: Seq<u8>,
    pub reference_number: Seq<u8>,
    pub account_number: Seq<u8>,
    pub amount: i32,
}

impl View for Transaction {
    type V = TransactionView;

    open spec fn view(&self) -> TransactionView {
        TransactionView {
            type_: self.type_,
            date: self.date,
            posting_date: self.posting_date,
            description: self.description@,
            reference_number: self.reference_number@,
            account_number: self.account_number@,
            amount: self.amount,
        }
    }
}

impl TransactionView {
    /// Both dates are days of the calendar.
    pub open spec fn is_valid(self) -> bool {
        self.date.is_valid() && self.posting_date.is_valid()
    }
}

/// Every transaction of the list has dates that exist and is of the type
/// `transaction_type`.
pub open spec fn all_valid(list: Seq<TransactionView>, transaction_type: TransactionType) -> bool {
    forall|i: int|
        0 <= i < list.len() ==> (#[trigger] list[i]).is_valid() && list[i].type_
            == transaction_type
}

/// Every transaction of the list has dates that exist and carries the
/// account digits `account`.
pub open spec fn all_for_account(list: Seq<TransactionView>, account: Seq<u8>) -> bool {
    forall|i: int|
        0 <= i < list.len() ==> (#[trigger] list[i]).is_valid() && list[i].account_number
            == account
}

/// The transactions of a list, each as a value of the grammar.
pub open spec fn views(list: Seq<Transaction>) -> Seq<TransactionView> {
    Seq::new(list.len(), |i: int| list[i]@)
}

/// The amounts of a list of transactions, in order.
pub open spec fn amounts(list: Seq<TransactionView>) -> Seq<int> {
    Seq::new(list.len(), |i: int| list[i].amount as int)
}

/// A statement, read whole and checked.
#[derive(Debug)]
pub struct BankOfAmericaCreditStatement {
    pub account_number: Vec<u8>,
    pub start_date: Date,
    pub end_date: Date,
    pub start_balance: i32,
    pub end_balance: i32,
    pub transactions: Vec<Transaction>,
    pub total_interest: i32,
}

/// A statement as a value of the grammar.
pub struct BankOfAmericaCreditStatementView {
    pub account_number: Seq<u8>,
    pub start_date: Date,
    pub end_date: Date,
    pub start_balance: i32,
    pub end_balance: i32,
    pub transactions: Seq<TransactionView>,
    pub total_interest: i32,
}

impl BankOfAmericaCreditStatementView {
    /// The ending balance is the starting balance plus every transaction
    /// plus the interest charged.
    pub open spec fn is_balanced(self) -> bool {
        balances(
            self.start_balance as int,
            self.end_balance as int,
            amounts(self.transactions),
            self.total_interest as int,
        )
    }

    /// What holds of every statement that was read: its dates and those of
    /// its transactions exist, the transactions carry the last four bytes of
    /// the account number, and the statement balances.
    pub open spec fn is_valid(self) -> bool {
        &&& self.start_date.is_valid()
        &&& self.end_date.is_valid()
        &&& self.account_number.len() >= 4
        &&& all_for_account(
            self.transactions,
            self.account_number.skip(self.account_number.len() - 4),
        )
        &&& self.is_balanced()
    }
}

impl View for BankOfAmericaCreditStatement {
    type V = BankOfAmericaCreditStatementView;

    open spec fn view(&self) -> BankOfAmericaCreditStatementView {
        BankOfAmericaCreditStatementView {
            account_number: self.account_number@,
            start_date: self.start_date,
            end_date: self.end_date,
            start_balance: self.start_balance,
            end_balance: self.end_balance,
            transactions: views(self.transactions@),
            total_interest: self.total_interest,
        }
    }
}

/// Adds up the amounts of a list of transactions, exactly.
pub fn total_amount(list: &Vec<Transaction>) -> (total: i128)
    ensures
        total == sum(amounts(views(list@))),
        -0x8000_0000_0000_0000_0000_0000 <= total <= 0x8000_0000_0000_0000_0000_0000,
{
    let mut total: i128 = 0;
    let mut i: usize = 0;
    assert(amounts(views(list@)).take(0) =~= Seq::<int>::empty());
    while i < list.len()
        invariant
            i <= list.len(),
            total == sum(amounts(views(list@)).take(i as int)),
            -0x8000_0000 * i <= total <= 0x8000_0000 * i,
        decreases list.len() - i,
    {
        proof {
            let all = amounts(views(list@));
            lemma_sum_push(all.take(i as int), all[i as int]);
            assert(all.take(i as int).push(all[i as int]) =~= all.take(i + 1));
        }
        total = total + list[i].amount as i128;
        i += 1;
    }
    assert(amounts(views(list@)).take(list@.len() as int) =~= amounts(views(list@)));
    total
}

/// An account number: a run of digits and spaces.
pub open spec fn spec_account_number(s: Seq<u8>) -> Result<(Seq<u8>, Seq<u8>), ParseError> {
    spec_run1(s, CharClass::DigitOrSpace)
}

/// Reads the account number of the statement.
pub fn account_number(input: &[u8]) -> (r: Result<(&[u8], Vec<u8>), ParseError>)
    ensures
        outcome_view(r) == spec_account_number(input@),
{
    match run1(input, CharClass::DigitOrSpace) {
        Ok((rest, run)) => Ok((rest, slice_to_vec(run))),
        Err(e) => Err(e),
    }
}

/// What closes a description: white space, a reference number, white space,
/// and the last digits of the account. Gives the reference number.
pub open spec fn spec_reference(s: Seq<u8>, account: Seq<u8>) -> Result<
    (Seq<u8>, Seq<u8>),
    ParseError,
> {
    match spec_spaces1(s) {
        Ok((s1, _)) => match spec_run1(s1, CharClass::Digit) {
            Ok((s2, number)) => match spec_spaces1(s2) {
                Ok((s3, _)) => match spec_tag(s3, account) {
                    Ok((rest, _)) => Ok((rest, number)),
                    Err(e) => Err(e),
                },
                Err(e) => Err(e),
            },
            Err(e) => Err(e),
        },
        Err(e) => Err(e),
    }
}

/// Reads what closes a description.
pub fn reference<'a>(input: &'a [u8], account: &[u8]) -> (r: Result<
    (&'a [u8], &'a [u8]),
    ParseError,
>)
    ensures
        outcome_view(r) == spec_reference(input@, account@),
{
    let (s1, _) = match spaces1(input) {
        Ok(v) => v,
        Err(e) => return Err(e),
    };
    let (s2, number) = match run1(s1, CharClass::Digit) {
        Ok(v) => v,
        Err(e) => return Err(e),
    };
    let (s3, _) = match spaces1(s2) {
        Ok(v) => v,
        Err(e) => return Err(e),
    };
    let (rest, _) = match tag(s3, account) {
        Ok(v) => v,
        Err(e) => return Err(e),
    };
    Ok((rest, number))
}

/// The first offset from `i` on at which a description's close stands.
pub open spec fn reference_offset(s: Seq<u8>, account: Seq<u8>, i: int) -> Option<int>
    decreases s.len() - i,
{
    if i < 0 || i > s.len() {
        None
    } else if spec_reference(s.skip(i), account) is Ok {
        Some(i)
    } else if i == s.len() {
        None
    } else {
        reference_offset(s, account, i + 1)
    }
}

/// The offset found is the first from `i` on at which a description's close stands;
/// where none is found, none stands anywhere from `i` on.
pub proof fn lemma_reference_offset(s: Seq<u8>, account: Seq<u8>, i: int)
    requires
        0 <= i <= s.len(),
    ensures
        match reference_offset(s, account, i) {
            Some(k) => {
                &&& i <= k <= s.len()
                &&& spec_reference(s.skip(k), account, ) is Ok
                &&& forall|j: int| i <= j < k ==> spec_reference(#[trigger] s.skip(j), account, ) is Err
            },
            None => forall|j: int|
                i <= j <= s.len() ==> spec_reference(#[trigger] s.skip(j), account, ) is Err,
        },
    decreases s.len() - i,
{
    if spec_reference(s.skip(i), account, ) is Err && i < s.len() {
        lemma_reference_offset(s, account, i + 1);
    }
}

/// A description and its close: the description is all the text before the
/// first place where a close stands. Gives description and reference number.
pub open spec fn spec_description(s: Seq<u8>, account: Seq<u8>) -> Result<
    (Seq<u8>, (Seq<u8>, Seq<u8>)),
    ParseError,
> {
    match reference_offset(s, account, 0) {
        Some(k) => match spec_reference(s.skip(k), account) {
            Ok((rest, number)) => Ok((rest, (s.take(k), number))),
            Err(e) => Err(e),
        },
        None => Err(lexical(s)),
    }
}

/// Reads a description up to its close.
pub fn description<'a>(input: &'a [u8], account: &[u8]) -> (r: Result<
    (&'a [u8], (&'a [u8], &'a [u8])),
    ParseError,
>)
    ensures
        match r {
            Ok((rest, (text, number))) => spec_description(input@, account@) == Ok::<
                _,
                ParseError,
            >((rest@, (text@, number@))),
            Err(e) => spec_description(input@, account@) == Err::<
                (Seq<u8>, (Seq<u8>, Seq<u8>)),
                _,
            >(e),
        },
        r matches Ok((_, (text, _))) ==> text@.is_prefix_of(input@) && forall|j: int|
            0 <= j < text@.len() ==> spec_reference(#[trigger] input@.skip(j), account@) is Err,
{
    let mut i: usize = 0;
    loop
        invariant
            i <= input.len(),
            reference_offset(input@, account@, 0) == reference_offset(input@, account@, i as int),
        decreases input.len() - i,
    {
        match reference(advance(input, i), account) {
            Ok((rest, number)) => {
                proof {
                    lemma_reference_offset(input@, account@, 0);
                }
                return Ok((rest, (slice_subrange(input, 0, i), number)));
            },
            Err(_) => {},
        }
        if i == input.len() {
            return Err(error_at(ErrorKind::Lexical, input));
        }
        i += 1;
    }
}

/// The two dates that open a transaction, each followed by white space.
pub open spec fn spec_dates(s: Seq<u8>, start_date: Date) -> Result<
    (Seq<u8>, (Date, Date)),
    ParseError,
> {
    match spec_short_date(s, start_date) {
        Ok((s1, date)) => match spec_spaces1(s1) {
            Ok((s2, _)) => match spec_short_date(s2, start_date) {
                Ok((s3, posting_date)) => match spec_spaces1(s3) {
                    Ok((rest, _)) => Ok((rest, (date, posting_date))),
                    Err(e) => Err(e),
                },
                Err(e) => Err(e),
            },
            Err(e) => Err(e),
        },
        Err(e) => Err(e),
    }
}

/// Reads the transaction date and the posting date.
pub fn dates(input: &[u8], start_date: Date) -> (r: Result<(&[u8], (Date, Date)), ParseError>)
    ensures
        outcome(r) == spec_dates(input@, start_date),
        r matches Ok((_, (date, posting_date))) ==> date.is_valid() && posting_date.is_valid(),
{
    let (s1, date) = match short_date(input, start_date) {
        Ok(v) => v,
        Err(e) => return Err(e),
    };
    let (s2, _) = match spaces1(s1) {
        Ok(v) => v,
        Err(e) => return Err(e),
    };
    let (s3, posting_date) = match short_date(s2, start_date) {
        Ok(v) => v,
        Err(e) => return Err(e),
    };
    let (rest, _) = match spaces1(s3) {
        Ok(v) => v,
        Err(e) => return Err(e),
    };
    Ok((rest, (date, posting_date)))
}

/// The amount that ends a transaction: white space, the amount, a blank line.
pub open spec fn spec_closing_amount(s: Seq<u8>) -> Result<(Seq<u8>, i32), ParseError> {
    match spec_spaces1(s) {
        Ok((s1, _)) => match spec_dollar_amount(s1) {
            Ok((s2, amount)) => match spec_blank_line(s2) {
                Ok((rest, _)) => Ok((rest, amount)),
                Err(e) => Err(e),
            },
            Err(e) => Err(e),
        },
        Err(e) => Err(e),
    }
}

/// Reads the amount that ends a transaction.
pub fn closing_amount(input: &[u8]) -> (r: Result<(&[u8], i32), ParseError>)
    ensures
        outcome(r) == spec_closing_amount(input@),
{
    let (s1, _) = match spaces1(input) {
        Ok(v) => v,
        Err(e) => return Err(e),
    };
    let (s2, amount) = match dollar_amount(s1) {
        Ok(v) => v,
        Err(e) => return Err(e),
    };
    let (rest, _) = match blank_line(s2) {
        Ok(v) => v,
        Err(e) => return Err(e),
    };
    Ok((rest, amount))
}

/// One transaction: its dates, its description with the reference number
/// and the account digits `account` that close it, and its amount.
pub open spec fn spec_transaction(
    s: Seq<u8>,
    start_date: Date,
    account: Seq<u8>,
    transaction_type: TransactionType,
) -> Result<(Seq<u8>, TransactionView), ParseError> {
    match spec_dates(s, start_date) {
        Ok((s1, (date, posting_date))) => match spec_description(s1, account) {
            Ok((s2, (text, number))) => match spec_closing_amount(s2) {
                Ok((rest, amount)) => Ok(
                    (
                        rest,
                        TransactionView {
                            type_: transaction_type,
                            date,
                            posting_date,
                            description: text,
                            reference_number: number,
                            account_number: account,
                            amount,
                        },
                    ),
                ),
                Err(e) => Err(e),
            },
            Err(e) => Err(e),
        },
        Err(e) => Err(e),
    }
}

/// Reads one transaction of a statement that starts on `start_date`, for the
/// card whose last digits are `account_number`.
pub fn transaction<'a>(
    input: &'a [u8],
    start_date: Date,
    account_number: &[u8],
    transaction_type: TransactionType,
) -> (r: Result<(&'a [u8], Transaction), ParseError>)
    ensures
        outcome_view(r) == spec_transaction(
            input@,
            start_date,
            account_number@,
            transaction_type,
        ),
        r matches Ok((rest, entry)) ==> entry@.is_valid() && entry.type_ == transaction_type
            && entry.account_number@ == account_number@,
{
    let (s1, (date, posting_date)) = match dates(input, start_date) {
        Ok(v) => v,
        Err(e) => return Err(e),
    };
    let (s2, (text, number)) = match description(s1, account_number) {
        Ok(v) => v,
        Err(e) => return Err(e),
    };
    let (rest, amount) = match closing_amount(s2) {
        Ok(v) => v,
        Err(e) => return Err(e),
    };
    Ok(
        (
            rest,
            Transaction {
                type_: transaction_type,
                date,
                posting_date,
                description: slice_to_vec(text),
                reference_number: slice_to_vec(number),
                account_number: slice_to_vec(account_number),
                amount,
            },
        ),
    )
}

/// As many transactions as the text holds one after another: the rest, and
/// the transactions in order.
pub open spec fn spec_transactions(
    s: Seq<u8>,
    start_date: Date,
    account: Seq<u8>,
    transaction_type: TransactionType,
) -> (Seq<u8>, Seq<TransactionView>)
    decreases s.len(),
{
    match spec_transaction(s, start_date, account, transaction_type) {
        Ok((rest, first)) => if rest.len() < s.len() {
            let (end, others) = spec_transactions(rest, start_date, account, transaction_type);
            (end, seq![first] + others)
        } else {
            (s, Seq::empty())
        },
        Err(_) => (s, Seq::empty()),
    }
}

/// The transactions that the text holds have dates that exist, are of the
/// type asked for and carry the account digits asked for.
pub proof fn lemma_transactions_valid(
    s: Seq<u8>,
    start_date: Date,
    account: Seq<u8>,
    transaction_type: TransactionType,
)
    ensures
        all_valid(spec_transactions(s, start_date, account, transaction_type).1, transaction_type),
        all_for_account(spec_transactions(s, start_date, account, transaction_type).1, account),
    decreases s.len(),
{
    match spec_transaction(s, start_date, account, transaction_type) {
        Ok((rest, first)) => {
            if rest.len() < s.len() {
                lemma_transactions_valid(rest, start_date, account, transaction_type);
            }
        },
        Err(_) => {},
    }
}

/// Reads transactions until the text holds no further one.
pub fn transactions<'a>(
    input: &'a [u8],
    start_date: Date,
    account_number: &[u8],
    transaction_type: TransactionType,
) -> (r: (&'a [u8], Vec<Transaction>))
    ensures
        (r.0@, views(r.1@)) == spec_transactions(
            input@,
            start_date,
            account_number@,
            transaction_type,
        ),
        all_valid(views(r.1@), transaction_type),
        all_for_account(views(r.1@), account_number@),
{
    proof {
        lemma_transactions_valid(input@, start_date, account_number@, transaction_type);
    }
    let mut cur = input;
    let mut list: Vec<Transaction> = Vec::new();
    let ghost whole = spec_transactions(input@, start_date, account_number@, transaction_type);
    assert(views(list@) + whole.1 =~= whole.1);
    loop
        invariant
            whole == spec_transactions(input@, start_date, account_number@, transaction_type),
            all_valid(whole.1, transaction_type),
            all_for_account(whole.1, account_number@),
            whole.0 == spec_transactions(
                cur@,
                start_date,
                account_number@,
                transaction_type,
            ).0,
            whole.1 == views(list@) + spec_transactions(
                cur@,
                start_date,
                account_number@,
                transaction_type,
            ).1,
        decreases cur@.len(),
    {
        match transaction(cur, start_date, account_number, transaction_type) {
            Ok((rest, item)) => {
                if rest.len() >= cur.len() {
                    assert(views(list@) + Seq::<TransactionView>::empty() =~= views(list@));
                    return (cur, list);
                }
                proof {
                    let others = spec_transactions(
                        rest@,
                        start_date,
                        account_number@,
                        transaction_type,
                    ).1;
                    assert(views(list@.push(item)) =~= views(list@).push(item@));
                    assert(views(list@) + (seq![item@] + others) =~= views(list@).push(item@)
                        + others);
                }
                list.push(item);
                cur = rest;
            },
            Err(_) => {
                assert(views(list@) + Seq::<TransactionView>::empty() =~= views(list@));
                return (cur, list);
            },
        }
    }
}

/// An amount that a label announces: the text up to and including the first
/// occurrence of `label`, white space, and the amount.
pub open spec fn spec_labelled_amount(s: Seq<u8>, label: Seq<u8>) -> Result<
    (Seq<u8>, i32),
    ParseError,
> {
    match spec_take_until_including(s, label) {
        Ok((s1, _)) => match spec_spaces1(s1) {
            Ok((s2, _)) => spec_dollar_amount(s2),
            Err(e) => Err(e),
        },
        Err(e) => Err(e),
    }
}

/// Finds `label` and reads the amount it announces.
pub fn labelled_amount<'a>(input: &'a [u8], label: &[u8]) -> (r: Result<
    (&'a [u8], i32),
    ParseError,
>)
    ensures
        outcome(r) == spec_labelled_amount(input@, label@),
{
    let (s1, _) = match take_until_including(input, label) {
        Ok(v) => v,
        Err(e) => return Err(e),
    };
    let (s2, _) = match spaces1(s1) {
        Ok(v) => v,
        Err(e) => return Err(e),
    };
    dollar_amount(s2)
}

/// Holds the transactions of a section against the total that the section
/// declares; a disagreement is reported with `remaining` bytes unread.
pub fn check_section_total(list: &Vec<Transaction>, declared: i32, remaining: usize) -> (r:
    Result<(), ParseError>)
    ensures
        r == spec_check_total(sum(amounts(views(list@))), declared as int, remaining),
{
    check_total(total_amount(list), declared as i128, remaining)
}

/// What a section is made of: the text up to and including `header`, any
/// number of transactions, none included, and the total that the section
/// declares, with a blank line behind it. Gives the transactions and the
/// declared total.
pub open spec fn spec_section_parts(
    s: Seq<u8>,
    start_date: Date,
    account: Seq<u8>,
    header: Seq<u8>,
    transaction_type: TransactionType,
) -> Result<(Seq<u8>, (Seq<TransactionView>, i32)), ParseError> {
    match spec_take_until_including(s, header) {
        Ok((s1, _)) => {
            let (s2, list) = spec_transactions(s1, start_date, account, transaction_type);
            match spec_labelled_amount(s2, "FOR THIS PERIOD".spec_bytes()) {
                Ok((s3, declared)) => match spec_blank_line(s3) {
                    Ok((rest, _)) => Ok((rest, (list, declared))),
                    Err(e) => Err(e),
                },
                Err(e) => Err(e),
            }
        },
        Err(e) => Err(e),
    }
}

/// A section: its parts, and the check that the amounts of its transactions
/// add up to the total it declares.
pub open spec fn spec_transaction_section(
    s: Seq<u8>,
    start_date: Date,
    account: Seq<u8>,
    header: Seq<u8>,
    transaction_type: TransactionType,
) -> Result<(Seq<u8>, Seq<TransactionView>), ParseError> {
    match spec_section_parts(s, start_date, account, header, transaction_type) {
        Ok((rest, (list, declared))) => match spec_check_total(
            sum(amounts(list)),
            declared as int,
            rest.len() as usize,
        ) {
            Ok(_) => Ok((rest, list)),
            Err(e) => Err(e),
        },
        Err(e) => Err(e),
    }
}

/// A section whose parts can be read is accepted, with exactly the
/// transactions read and in their order, where their amounts add up to the
/// declared total; where they do not, it is a totals mismatch.
pub proof fn lemma_section_total_decides(
    s: Seq<u8>,
    start_date: Date,
    account: Seq<u8>,
    header: Seq<u8>,
    transaction_type: TransactionType,
)
    requires
        spec_section_parts(s, start_date, account, header, transaction_type) is Ok,
    ensures
        ({
            let (rest, (list, declared)) = spec_section_parts(
                s,
                start_date,
                account,
                header,
                transaction_type,
            )->Ok_0;
            let section = spec_transaction_section(
                s,
                start_date,
                account,
                header,
                transaction_type,
            );
            if total_agrees(amounts(list), declared as int) {
                section == Ok::<_, ParseError>((rest, list))
            } else {
                section == Err::<(Seq<u8>, Seq<TransactionView>), _>(
                    fail_at(ErrorKind::TotalsMismatch, rest),
                )
            }
        }),
{
}

/// Of two section texts that declare the same total and hold the same
/// amounts but for one, at most one is accepted: where the first is, the
/// second is a totals mismatch.
pub proof fn lemma_section_changed_amount_fails(
    s: Seq<u8>,
    changed: Seq<u8>,
    start_date: Date,
    account: Seq<u8>,
    header: Seq<u8>,
    transaction_type: TransactionType,
    i: int,
)
    requires
        spec_transaction_section(s, start_date, account, header, transaction_type) is Ok,
        spec_section_parts(changed, start_date, account, header, transaction_type) is Ok,
        ({
            let (list, declared) = spec_section_parts(
                s,
                start_date,
                account,
                header,
                transaction_type,
            )->Ok_0.1;
            let (other, same) = spec_section_parts(
                changed,
                start_date,
                account,
                header,
                transaction_type,
            )->Ok_0.1;
            &&& same == declared
            &&& other.len() == list.len()
            &&& 0 <= i < list.len()
            &&& other[i].amount != list[i].amount
            &&& forall|j: int| 0 <= j < list.len() && j != i ==> other[j].amount == list[j].amount
        }),
    ensures
        spec_transaction_section(changed, start_date, account, header, transaction_type) == Err::<
            (Seq<u8>, Seq<TransactionView>),
            _,
        >(
            fail_at(
                ErrorKind::TotalsMismatch,
                spec_section_parts(changed, start_date, account, header, transaction_type)->Ok_0.0,
            ),
        ),
{
    let (list, declared) = spec_section_parts(
        s,
        start_date,
        account,
        header,
        transaction_type,
    )->Ok_0.1;
    let other = spec_section_parts(changed, start_date, account, header, transaction_type)->Ok_0.1.0;
    assert(amounts(other) =~= amounts(list).update(i, other[i].amount as int));
    lemma_changed_amount_breaks_total(
        amounts(list),
        declared as int,
        i,
        other[i].amount - list[i].amount,
    );
}

/// The record at place `i` reads as `list[i]`: `cuts[i]` is the text before
/// it and `cuts[i + 1]`, which is shorter, the text behind it.
pub open spec fn reads_at(
    cuts: Seq<Seq<u8>>,
    list: Seq<TransactionView>,
    i: int,
    start_date: Date,
    account: Seq<u8>,
    transaction_type: TransactionType,
) -> bool {
    &&& spec_transaction(cuts[i], start_date, account, transaction_type) == Ok::<_, ParseError>(
        (cuts[i + 1], list[i]),
    )
    &&& cuts[i + 1].len() < cuts[i].len()
}

/// The records of a section follow one another in the text: `cuts` holds
/// the text before each record and the text behind the last, and `list`
/// what each record reads as. Behind the last record no further one stands.
pub open spec fn reads_in_turn(
    cuts: Seq<Seq<u8>>,
    list: Seq<TransactionView>,
    start_date: Date,
    account: Seq<u8>,
    transaction_type: TransactionType,
) -> bool {
    &&& cuts.len() == list.len() + 1
    &&& forall|i: int|
        0 <= i < list.len() ==> #[trigger] reads_at(cuts, list, i, start_date, account, transaction_type)
    &&& spec_transaction(cuts[list.len() as int], start_date, account, transaction_type) is Err
}

/// Records that follow one another in the text are read as they stand:
/// each of them, none twice, in the order of the text.
pub proof fn lemma_records_read_in_turn(
    cuts: Seq<Seq<u8>>,
    list: Seq<TransactionView>,
    start_date: Date,
    account: Seq<u8>,
    transaction_type: TransactionType,
)
    requires
        reads_in_turn(cuts, list, start_date, account, transaction_type),
    ensures
        spec_transactions(cuts[0], start_date, account, transaction_type) == (
            cuts[list.len() as int],
            list,
        ),
    decreases list.len(),
{
    if list.len() == 0 {
        assert(list =~= Seq::<TransactionView>::empty());
    } else {
        let later = cuts.skip(1);
        let others = list.skip(1);
        assert(reads_at(cuts, list, 0, start_date, account, transaction_type));
        assert forall|i: int| 0 <= i < others.len() implies #[trigger] reads_at(
            later,
            others,
            i,
            start_date, account, transaction_type,
        ) by {
            assert(reads_at(cuts, list, i + 1, start_date, account, transaction_type));
            assert(later[i] == cuts[i + 1]);
            assert(later[i + 1] == cuts[i + 2]);
            assert(others[i] == list[i + 1]);
        }
        assert(later[others.len() as int] == cuts[list.len() as int]);
        lemma_records_read_in_turn(later, others, start_date, account, transaction_type);
        assert(later[0] == cuts[1]);
        assert(seq![list[0]] + others =~= list);
    }
}

/// Any text that holds, behind whatever comes first, the header, records
/// that follow one another, and the line of the total, is a section. It is
/// accepted with exactly those records, in their order, where their amounts
/// add up to the total that the line declares, and is a totals mismatch
/// where they do not. What is left is the text behind the line of the total.
pub proof fn lemma_section_of_records(
    junk: Seq<u8>,
    header: Seq<u8>,
    cuts: Seq<Seq<u8>>,
    list: Seq<TransactionView>,
    declared: i32,
    tail: Seq<u8>,
    start_date: Date,
    account: Seq<u8>,
    transaction_type: TransactionType,
)
    requires
        forall|j: int|
            0 <= j < junk.len() ==> !header.is_prefix_of(#[trigger] (junk + header).skip(j)),
        reads_in_turn(cuts, list, start_date, account, transaction_type),
        spec_labelled_amount(cuts[list.len() as int], "FOR THIS PERIOD".spec_bytes()) matches Ok(
            (line_end, total),
        ) && total == declared && spec_blank_line(line_end) == Ok::<_, ParseError>((tail, ())),
    ensures
        spec_transaction_section(
            junk + (header + cuts[0]),
            start_date,
            account,
            header,
            transaction_type,
        ) == if sum(amounts(list)) == declared {
            Ok::<_, ParseError>((tail, list))
        } else {
            Err::<(Seq<u8>, Seq<TransactionView>), _>(fail_at(ErrorKind::TotalsMismatch, tail))
        },
{
    lemma_found_behind(junk, header, cuts[0]);
    lemma_records_read_in_turn(cuts, list, start_date, account, transaction_type);
}

/// Any text made of whatever comes first, the header, records written one
/// behind the other in any spelling that reads, and the line of the total,
/// is a section. It is accepted with exactly those records, as many as were
/// written and in their order, where their amounts add up to the total that
/// the line declares, and is a totals mismatch where they do not. What is
/// left is the text behind the line of the total.
pub proof fn lemma_section_of_texts(
    junk: Seq<u8>,
    header: Seq<u8>,
    records: Seq<Seq<u8>>,
    list: Seq<TransactionView>,
    total_line: Seq<u8>,
    declared: i32,
    tail: Seq<u8>,
    start_date: Date,
    account: Seq<u8>,
    transaction_type: TransactionType,
)
    requires
        forall|j: int|
            0 <= j < junk.len() ==> !header.is_prefix_of(#[trigger] (junk + header).skip(j)),
        records.len() == list.len(),
        forall|i: int|
            0 <= i < records.len() ==> (#[trigger] records[i]).len() > 0 && spec_transaction(
                records[i] + joined_from(records, i + 1, total_line + tail),
                start_date,
                account,
                transaction_type,
            ) == Ok::<_, ParseError>((joined_from(records, i + 1, total_line + tail), list[i])),
        spec_transaction(total_line + tail, start_date, account, transaction_type) is Err,
        spec_labelled_amount(total_line + tail, "FOR THIS PERIOD".spec_bytes()) matches Ok(
            (line_end, total),
        ) && total == declared && spec_blank_line(line_end) == Ok::<_, ParseError>((tail, ())),
    ensures
        spec_transaction_section(
            junk + (header + joined_from(records, 0, total_line + tail)),
            start_date,
            account,
            header,
            transaction_type,
        ) == if sum(amounts(list)) == declared {
            Ok::<_, ParseError>((tail, list))
        } else {
            Err::<(Seq<u8>, Seq<TransactionView>), _>(fail_at(ErrorKind::TotalsMismatch, tail))
        },
{
    let end = total_line + tail;
    let cuts = Seq::new(records.len() + 1, |i: int| joined_from(records, i, end));
    assert forall|i: int| 0 <= i < list.len() implies #[trigger] reads_at(
        cuts,
        list,
        i,
        start_date, account, transaction_type,
    ) by {
        assert(records[i].len() > 0);
        assert(cuts[i] == records[i] + joined_from(records, i + 1, end));
        assert(cuts[i + 1] == joined_from(records, i + 1, end));
    }
    assert(cuts[list.len() as int] == end);
    lemma_section_of_records(
        junk,
        header,
        cuts,
        list,
        declared,
        tail,
        start_date,
        account,
        transaction_type,
    );
}

/// The transactions of a section that is accepted have dates that exist,
/// are of the type asked for and carry the account digits asked for, and
/// add up to the total that the section declares.
pub proof fn lemma_section_valid(
    s: Seq<u8>,
    start_date: Date,
    account: Seq<u8>,
    header: Seq<u8>,
    transaction_type: TransactionType,
)
    ensures
        spec_transaction_section(s, start_date, account, header, transaction_type) matches Ok(
            (_, list),
        ) ==> {
            &&& all_valid(list, transaction_type)
            &&& all_for_account(list, account)
            &&& total_agrees(
                amounts(list),
                spec_section_parts(s, start_date, account, header, transaction_type)->Ok_0.1.1
                    as int,
            )
        },
{
    match spec_take_until_including(s, header) {
        Ok((s1, _)) => {
            lemma_transactions_valid(s1, start_date, account, transaction_type);
        },
        Err(_) => {},
    }
}

/// Reads the section that `section_header` opens and checks its total.
pub fn transaction_section<'a>(
    input: &'a [u8],
    start_date: Date,
    account_number: &[u8],
    section_header: &[u8],
    transaction_type: TransactionType,
) -> (r: Result<(&'a [u8], Vec<Transaction>), ParseError>)
    ensures
        match r {
            Ok((rest, list)) => spec_transaction_section(
                input@,
                start_date,
                account_number@,
                section_header@,
                transaction_type,
            ) == Ok::<_, ParseError>((rest@, views(list@))),
            Err(e) => spec_transaction_section(
                input@,
                start_date,
                account_number@,
                section_header@,
                transaction_type,
            ) == Err::<(Seq<u8>, Seq<TransactionView>), _>(e),
        },
        r matches Ok((_, list)) ==> all_valid(views(list@), transaction_type) && all_for_account(
            views(list@),
            account_number@,
        ),
{
    proof {
        lemma_section_valid(input@, start_date, account_number@, section_header@, transaction_type);
    }
    let (s1, _) = match take_until_including(input, section_header) {
        Ok(v) => v,
        Err(e) => return Err(e),
    };
    let (s2, list) = transactions(s1, start_date, account_number, transaction_type);
    let (s3, declared) = match labelled_amount(s2, "FOR THIS PERIOD".as_bytes()) {
        Ok(v) => v,
        Err(e) => return Err(e),
    };
    let (rest, _) = match blank_line(s3) {
        Ok(v) => v,
        Err(e) => return Err(e),
    };
    match check_section_total(&list, declared, rest.len()) {
        Ok(_) => Ok((rest, list)),
        Err(e) => Err(e),
    }
}

/// The period of a statement: `Month day - Month day, year`, and any white
/// space after it. The year is that of the end; the start lies in the year
/// before where its month comes later in the calendar than the end's. Both
/// days must exist.
pub open spec fn spec_period(s: Seq<u8>) -> Result<(Seq<u8>, (Date, Date)), ParseError> {
    match spec_month_word_day(s) {
        Ok((s1, (start_month, start_day))) => match spec_tag(s1, " - ".spec_bytes()) {
            Ok((s2, _)) => match spec_month_word_day(s2) {
                Ok((s3, (end_month, end_day))) => match spec_tag(s3, ", ".spec_bytes()) {
                    Ok((s4, _)) => match spec_signed(s4) {
                        Ok((s5, end_year)) => {
                            let start_year = if start_month > end_month {
                                end_year - 1
                            } else {
                                end_year as int
                            };
                            match (
                                Date::spec_from_ymd_opt(
                                    start_year,
                                    start_month as int,
                                    start_day as int,
                                ),
                                Date::spec_from_ymd_opt(
                                    end_year as int,
                                    end_month as int,
                                    end_day as int,
                                ),
                            ) {
                                (Some(start_date), Some(end_date)) => Ok(
                                    (
                                        s5.skip(span(s5, CharClass::Space) as int),
                                        (start_date, end_date),
                                    ),
                                ),
                                _ => Err(fail_at(ErrorKind::InvalidDate, s)),
                            }
                        },
                        Err(e) => Err(e),
                    },
                    Err(e) => Err(e),
                },
                Err(e) => Err(e),
            },
            Err(e) => Err(e),
        },
        Err(e) => Err(e),
    }
}

/// Reads the period that a statement covers.
pub fn period(input: &[u8]) -> (r: Result<(&[u8], (Date, Date)), ParseError>)
    ensures
        outcome(r) == spec_period(input@),
        r matches Ok((_, (start_date, end_date))) ==> start_date.is_valid() && end_date.is_valid(),
{
    let (s1, (start_month, start_day)) = match month_word_day(input) {
        Ok(v) => v,
        Err(e) => return Err(e),
    };
    let (s2, _) = match tag(s1, " - ".as_bytes()) {
        Ok(v) => v,
        Err(e) => return Err(e),
    };
    let (s3, (end_month, end_day)) = match month_word_day(s2) {
        Ok(v) => v,
        Err(e) => return Err(e),
    };
    let (s4, _) = match tag(s3, ", ".as_bytes()) {
        Ok(v) => v,
        Err(e) => return Err(e),
    };
    let (s5, end_year) = match signed(s4) {
        Ok(v) => v,
        Err(e) => return Err(e),
    };
    if end_year < MIN_YEAR {
        return Err(error_at(ErrorKind::InvalidDate, input));
    }
    let start_year = if start_month > end_month {
        end_year - 1
    } else {
        end_year
    };
    let start_date = match Date::from_ymd_opt(start_year, start_month, start_day) {
        Some(d) => d,
        None => return Err(error_at(ErrorKind::InvalidDate, input)),
    };
    let end_date = match Date::from_ymd_opt(end_year, end_month, end_day) {
        Some(d) => d,
        None => return Err(error_at(ErrorKind::InvalidDate, input)),
    };
    Ok((skip_spaces(s5), (start_date, end_date)))
}

/// A balance: the text up to and including the first occurrence of `label`,
/// and the amount right behind it.
pub open spec fn spec_balance(s: Seq<u8>, label: Seq<u8>) -> Result<(Seq<u8>, i32), ParseError> {
    match spec_take_until_including(s, label) {
        Ok((s1, _)) => spec_dollar_amount(s1),
        Err(e) => Err(e),
    }
}

/// Finds `label` and reads the balance right behind it.
pub fn balance<'a>(input: &'a [u8], label: &[u8]) -> (r: Result<(&'a [u8], i32), ParseError>)
    ensures
        outcome(r) == spec_balance(input@, label@),
{
    let (s1, _) = match take_until_including(input, label) {
        Ok(v) => v,
        Err(e) => return Err(e),
    };
    dollar_amount(s1)
}

/// The head of a statement: the account number behind `Account# `, the
/// period, and the previous and the new balance. Gives the account number,
/// the first and last day, and the two balances.
pub open spec fn spec_summary(s: Seq<u8>) -> Result<
    (Seq<u8>, (Seq<u8>, (Date, Date), (i32, i32))),
    ParseError,
> {
    match spec_take_until_including(s, "Account# ".spec_bytes()) {
        Ok((s1, _)) => match spec_account_number(s1) {
            Ok((s2, number)) => match spec_period(s2.skip(span(s2, CharClass::Space) as int)) {
                Ok((s3, days)) => match spec_balance(s3, "Previous Balance ".spec_bytes()) {
                    Ok((s4, start_balance)) => match spec_balance(
                        s4,
                        "New Balance Total ".spec_bytes(),
                    ) {
                        Ok((rest, end_balance)) => Ok(
                            (rest, (number, days, (start_balance, end_balance))),
                        ),
                        Err(e) => Err(e),
                    },
                    Err(e) => Err(e),
                },
                Err(e) => Err(e),
            },
            Err(e) => Err(e),
        },
        Err(e) => Err(e),
    }
}

/// Reads the head of a statement.
pub fn summary(input: &[u8]) -> (r: Result<
    (&[u8], (Vec<u8>, (Date, Date), (i32, i32))),
    ParseError,
>)
    ensures
        match r {
            Ok((rest, (number, days, amounts))) => spec_summary(input@) == Ok::<_, ParseError>(
                (rest@, (number@, days, amounts)),
            ),
            Err(e) => spec_summary(input@) == Err::<
                (Seq<u8>, (Seq<u8>, (Date, Date), (i32, i32))),
                _,
            >(e),
        },
{
    let (s1, _) = match take_until_including(input, "Account# ".as_bytes()) {
        Ok(v) => v,
        Err(e) => return Err(e),
    };
    let (s2, number) = match account_number(s1) {
        Ok(v) => v,
        Err(e) => return Err(e),
    };
    let (s3, days) = match period(skip_spaces(s2)) {
        Ok(v) => v,
        Err(e) => return Err(e),
    };
    let (s4, start_balance) = match balance(s3, "Previous Balance ".as_bytes()) {
        Ok(v) => v,
        Err(e) => return Err(e),
    };
    let (rest, end_balance) = match balance(s4, "New Balance Total ".as_bytes()) {
        Ok(v) => v,
        Err(e) => return Err(e),
    };
    Ok((rest, (number, days, (start_balance, end_balance))))
}

/// The sections of a statement, in their fixed order: payments and other
/// credits, purchases and adjustments, and fees where the text goes on with
/// the fees header. Transactions are matched with the last four bytes of the
/// account number, of which there must be that many.
pub open spec fn spec_sections(s: Seq<u8>, start_date: Date, number: Seq<u8>) -> Result<
    (Seq<u8>, Seq<TransactionView>),
    ParseError,
> {
    if number.len() < 4 {
        Err(lexical(s))
    } else {
        let account = number.skip(number.len() - 4);
        match spec_transaction_section(
            s,
            start_date,
            account,
            "Payments and Other Credits\n\n".spec_bytes(),
            TransactionType::Credit,
        ) {
            Ok((s1, credits)) => match spec_transaction_section(
                s1,
                start_date,
                account,
                "Purchases and Adjustments\n\n".spec_bytes(),
                TransactionType::Purchase,
            ) {
                Ok((s2, purchases)) => if "Fees\n\n".spec_bytes().is_prefix_of(s2) {
                    match spec_transaction_section(
                        s2,
                        start_date,
                        account,
                        "Fees\n\n".spec_bytes(),
                        TransactionType::Fee,
                    ) {
                        Ok((rest, fees)) => Ok((rest, credits + purchases + fees)),
                        Err(e) => Err(e),
                    }
                } else {
                    Ok((s2, credits + purchases))
                },
                Err(e) => Err(e),
            },
            Err(e) => Err(e),
        }
    }
}

/// The transactions of all sections have dates that exist and carry the
/// last four bytes of the account number.
pub proof fn lemma_sections_valid(s: Seq<u8>, start_date: Date, number: Seq<u8>)
    ensures
        spec_sections(s, start_date, number) matches Ok((_, list)) ==> number.len() >= 4
            && all_for_account(list, number.skip(number.len() - 4)),
{
    if number.len() >= 4 {
        let account = number.skip(number.len() - 4);
        let credits = "Payments and Other Credits\n\n".spec_bytes();
        let purchases = "Purchases and Adjustments\n\n".spec_bytes();
        let fees = "Fees\n\n".spec_bytes();
        lemma_section_valid(s, start_date, account, credits, TransactionType::Credit);
        match spec_transaction_section(s, start_date, account, credits, TransactionType::Credit) {
            Ok((s1, _)) => {
                lemma_section_valid(s1, start_date, account, purchases, TransactionType::Purchase);
                match spec_transaction_section(
                    s1,
                    start_date,
                    account,
                    purchases,
                    TransactionType::Purchase,
                ) {
                    Ok((s2, _)) => {
                        lemma_section_valid(s2, start_date, account, fees, TransactionType::Fee);
                    },
                    Err(_) => {},
                }
            },
            Err(_) => {},
        }
    }
}

/// The views of two lists put end to end.
pub proof fn lemma_views_concat(a: Seq<Transaction>, b: Seq<Transaction>)
    ensures
        views(a + b) =~= views(a) + views(b),
{
}

/// Reads the sections of a statement into one list.
pub fn sections<'a>(input: &'a [u8], start_date: Date, number: &[u8]) -> (r: Result<
    (&'a [u8], Vec<Transaction>),
    ParseError,
>)
    ensures
        match r {
            Ok((rest, list)) => spec_sections(input@, start_date, number@) == Ok::<
                _,
                ParseError,
            >((rest@, views(list@))),
            Err(e) => spec_sections(input@, start_date, number@) == Err::<
                (Seq<u8>, Seq<TransactionView>),
                _,
            >(e),
        },
        r matches Ok((_, list)) ==> number@.len() >= 4 && all_for_account(
            views(list@),
            number@.skip(number@.len() - 4),
        ),
{
    proof {
        lemma_sections_valid(input@, start_date, number@);
    }
    if number.len() < 4 {
        return Err(error_at(ErrorKind::Lexical, input));
    }
    let account = slice_subrange(number, number.len() - 4, number.len());
    let (s1, mut list) = match transaction_section(
        input,
        start_date,
        account,
        "Payments and Other Credits\n\n".as_bytes(),
        TransactionType::Credit,
    ) {
        Ok(v) => v,
        Err(e) => return Err(e),
    };
    let (s2, mut purchases) = match transaction_section(
        s1,
        start_date,
        account,
        "Purchases and Adjustments\n\n".as_bytes(),
        TransactionType::Purchase,
    ) {
        Ok(v) => v,
        Err(e) => return Err(e),
    };
    proof {
        lemma_views_concat(list@, purchases@);
    }
    list.append(&mut purchases);
    if !starts_with(s2, "Fees\n\n".as_bytes()) {
        return Ok((s2, list));
    }
    let (rest, mut fees) = match transaction_section(
        s2,
        start_date,
        account,
        "Fees\n\n".as_bytes(),
        TransactionType::Fee,
    ) {
        Ok(v) => v,
        Err(e) => return Err(e),
    };
    proof {
        lemma_views_concat(list@, fees@);
    }
    list.append(&mut fees);
    Ok((rest, list))
}

/// The whole-statement check: a statement that balances is accepted as it
/// is, any other is a totals mismatch, reported with `remaining` bytes unread.
pub open spec fn spec_assemble(
    candidate: BankOfAmericaCreditStatementView,
    remaining: usize,
) -> Result<BankOfAmericaCreditStatementView, ParseError> {
    if candidate.is_balanced() {
        Ok(candidate)
    } else {
        Err(ParseError { kind: ErrorKind::TotalsMismatch, remaining })
    }
}

impl BankOfAmericaCreditStatement {
    /// Accepts the parts of a statement exactly where the ending balance is
    /// the starting balance plus all transactions plus the interest.
    pub fn assemble(candidate: BankOfAmericaCreditStatement, remaining: usize) -> (r: Result<
        BankOfAmericaCreditStatement,
        ParseError,
    >)
        ensures
            match r {
                Ok(statement) => statement == candidate && spec_assemble(candidate@, remaining)
                    == Ok::<_, ParseError>(candidate@),
                Err(e) => spec_assemble(candidate@, remaining) == Err::<
                    BankOfAmericaCreditStatementView,
                    _,
                >(e),
            },
            r is Ok <==> candidate@.is_balanced(),
    {
        let moved: i128 = candidate.end_balance as i128 - candidate.start_balance as i128;
        let listed: i128 = total_amount(&candidate.transactions)
            + candidate.total_interest as i128;
        match check_total(listed, moved, remaining) {
            Ok(_) => Ok(candidate),
            Err(e) => Err(e),
        }
    }
}

/// Of two statements with the same balances and interest that hold the same
/// amounts but for one, at most one balances: where the first is accepted,
/// the second is a totals mismatch.
pub proof fn lemma_statement_changed_amount_fails(
    statement: BankOfAmericaCreditStatementView,
    changed: BankOfAmericaCreditStatementView,
    i: int,
    remaining: usize,
)
    requires
        spec_assemble(statement, remaining) is Ok,
        changed.start_balance == statement.start_balance,
        changed.end_balance == statement.end_balance,
        changed.total_interest == statement.total_interest,
        changed.transactions.len() == statement.transactions.len(),
        0 <= i < statement.transactions.len(),
        changed.transactions[i].amount != statement.transactions[i].amount,
        forall|j: int|
            0 <= j < statement.transactions.len() && j != i ==> changed.transactions[j].amount
                == statement.transactions[j].amount,
    ensures
        spec_assemble(changed, remaining) == Err::<BankOfAmericaCreditStatementView, _>(
            ParseError { kind: ErrorKind::TotalsMismatch, remaining },
        ),
{
    let before = amounts(statement.transactions);
    let after = amounts(changed.transactions);
    assert(after =~= before.update(i, changed.transactions[i].amount as int));
    lemma_changed_amount_breaks_balance(
        statement.start_balance as int,
        statement.end_balance as int,
        before,
        statement.total_interest as int,
        i,
        changed.transactions[i].amount - statement.transactions[i].amount,
    );
}

/// What a statement is made of: its head, its sections, and the interest
/// charged. Gives the statement as it stands in the text, unchecked.
pub open spec fn spec_statement_parts(s: Seq<u8>) -> Result<
    (Seq<u8>, BankOfAmericaCreditStatementView),
    ParseError,
> {
    match spec_summary(s) {
        Ok((s1, (number, (start_date, end_date), (start_balance, end_balance)))) => match spec_sections(
            s1,
            start_date,
            number,
        ) {
            Ok((s2, list)) => match spec_labelled_amount(
                s2,
                "TOTAL INTEREST CHARGED FOR THIS PERIOD".spec_bytes(),
            ) {
                Ok((rest, total_interest)) => Ok(
                    (
                        rest,
                        BankOfAmericaCreditStatementView {
                            account_number: number,
                            start_date,
                            end_date,
                            start_balance,
                            end_balance,
                            transactions: list,
                            total_interest,
                        },
                    ),
                ),
                Err(e) => Err(e),
            },
            Err(e) => Err(e),
        },
        Err(e) => Err(e),
    }
}

/// A whole statement: its parts, and the check that the statement balances.
pub open spec fn spec_parse_statement(s: Seq<u8>) -> Result<
    (Seq<u8>, BankOfAmericaCreditStatementView),
    ParseError,
> {
    match spec_statement_parts(s) {
        Ok((rest, candidate)) => match spec_assemble(candidate, rest.len() as usize) {
            Ok(statement) => Ok((rest, statement)),
            Err(e) => Err(e),
        },
        Err(e) => Err(e),
    }
}

/// A statement whose parts can be read is accepted, as it stands in the
/// text, exactly where its ending balance is its starting balance plus all
/// its transactions plus the interest; where not, it is a totals mismatch.
pub proof fn lemma_balance_decides(s: Seq<u8>)
    requires
        spec_statement_parts(s) is Ok,
    ensures
        ({
            let (rest, candidate) = spec_statement_parts(s)->Ok_0;
            if candidate.end_balance - candidate.start_balance == sum(
                amounts(candidate.transactions),
            ) + candidate.total_interest {
                spec_parse_statement(s) == Ok::<_, ParseError>((rest, candidate))
            } else {
                spec_parse_statement(s) == Err::<(Seq<u8>, BankOfAmericaCreditStatementView), _>(
                    fail_at(ErrorKind::TotalsMismatch, rest),
                )
            }
        }),
{
}

/// Any text whose head holds, behind whatever comes first, `Account# ` and
/// an account number, then a period, and behind texts that do not hold them
/// the labels of the two balances, each with its amount, reads as that
/// account number, those days and those balances, the previous balance
/// first. Each label is found where it first occurs.
pub proof fn lemma_summary_of_text(
    junk: Seq<u8>,
    after_label: Seq<u8>,
    number: Seq<u8>,
    after_number: Seq<u8>,
    days: (Date, Date),
    between: Seq<u8>,
    after_previous: Seq<u8>,
    start_balance: i32,
    filler: Seq<u8>,
    after_new: Seq<u8>,
    end_balance: i32,
    rest: Seq<u8>,
)
    requires
        forall|j: int|
            0 <= j < junk.len() ==> !"Account# ".spec_bytes().is_prefix_of(
                #[trigger] (junk + "Account# ".spec_bytes()).skip(j),
            ),
        spec_account_number(after_label) == Ok::<_, ParseError>((after_number, number)),
        spec_period(after_number.skip(span(after_number, CharClass::Space) as int)) == Ok::<
            _,
            ParseError,
        >((between + ("Previous Balance ".spec_bytes() + after_previous), days)),
        forall|j: int|
            0 <= j < between.len() ==> !"Previous Balance ".spec_bytes().is_prefix_of(
                #[trigger] (between + "Previous Balance ".spec_bytes()).skip(j),
            ),
        spec_dollar_amount(after_previous) == Ok::<_, ParseError>(
            (filler + ("New Balance Total ".spec_bytes() + after_new), start_balance),
        ),
        forall|j: int|
            0 <= j < filler.len() ==> !"New Balance Total ".spec_bytes().is_prefix_of(
                #[trigger] (filler + "New Balance Total ".spec_bytes()).skip(j),
            ),
        spec_dollar_amount(after_new) == Ok::<_, ParseError>((rest, end_balance)),
    ensures
        spec_summary(junk + ("Account# ".spec_bytes() + after_label)) == Ok::<_, ParseError>(
            (rest, (number, days, (start_balance, end_balance))),
        ),
{
    lemma_found_behind(junk, "Account# ".spec_bytes(), after_label);
    lemma_found_behind(between, "Previous Balance ".spec_bytes(), after_previous);
    lemma_found_behind(filler, "New Balance Total ".spec_bytes(), after_new);
}

/// Every statement that is accepted holds what its head reads: the account
/// number, the days of the period and the two balances. Its transactions
/// are those of its sections, and the interest is the amount behind its
/// label.
pub proof fn lemma_statement_is_as_read(s: Seq<u8>)
    ensures
        spec_parse_statement(s) matches Ok((rest, statement)) ==> {
            &&& spec_summary(s) matches Ok((s1, (number, days, balances)))
            &&& statement.account_number == number
            &&& statement.start_date == days.0
            &&& statement.end_date == days.1
            &&& statement.start_balance == balances.0
            &&& statement.end_balance == balances.1
            &&& spec_sections(s1, days.0, number) matches Ok((s2, list))
            &&& statement.transactions == list
            &&& spec_labelled_amount(
                s2,
                "TOTAL INTEREST CHARGED FOR THIS PERIOD".spec_bytes(),
            ) == Ok::<_, ParseError>((rest, statement.total_interest))
        },
{
}

/// The days of a period that was read exist.
pub proof fn lemma_period_valid(s: Seq<u8>)
    ensures
        spec_period(s) matches Ok((_, (start_date, end_date))) ==> start_date.is_valid()
            && end_date.is_valid(),
{
}

/// The days in the head of a statement that was read exist.
pub proof fn lemma_summary_valid(s: Seq<u8>)
    ensures
        spec_summary(s) matches Ok((_, (_, (start_date, end_date), _))) ==> start_date.is_valid()
            && end_date.is_valid(),
{
    match spec_take_until_including(s, "Account# ".spec_bytes()) {
        Ok((s1, _)) => match spec_account_number(s1) {
            Ok((s2, _)) => {
                lemma_period_valid(s2.skip(span(s2, CharClass::Space) as int));
            },
            Err(_) => {},
        },
        Err(_) => {},
    }
}

/// Every statement that is accepted is valid.
pub proof fn lemma_statement_valid(s: Seq<u8>)
    ensures
        spec_parse_statement(s) matches Ok((_, statement)) ==> statement.is_valid(),
{
    lemma_summary_valid(s);
    match spec_summary(s) {
        Ok((s1, (number, (start_date, _), _))) => {
            lemma_sections_valid(s1, start_date, number);
        },
        Err(_) => {},
    }
}

/// Reads a whole statement. What is returned is valid: above all, it balances.
pub fn parse_statement(input: &[u8]) -> (r: Result<
    (&[u8], BankOfAmericaCreditStatement),
    ParseError,
>)
    ensures
        outcome_view(r) == spec_parse_statement(input@),
        r matches Ok((_, statement)) ==> statement@.is_valid(),
{
    proof {
        lemma_statement_valid(input@);
    }
    let (s1, (number, (start_date, end_date), (start_balance, end_balance))) = match summary(
        input,
    ) {
        Ok(v) => v,
        Err(e) => return Err(e),
    };
    let (s2, list) = match sections(s1, start_date, number.as_slice()) {
        Ok(v) => v,
        Err(e) => return Err(e),
    };
    let (rest, total_interest) = match labelled_amount(
        s2,
        "TOTAL INTEREST CHARGED FOR THIS PERIOD".as_bytes(),
    ) {
        Ok(v) => v,
        Err(e) => return Err(e),
    };
    let candidate = BankOfAmericaCreditStatement {
        account_number: number,
        start_date,
        end_date,
        start_balance,
        end_balance,
        transactions: list,
        total_interest,
    };
    match BankOfAmericaCreditStatement::assemble(candidate, rest.len()) {
        Ok(statement) => Ok((rest, statement)),
        Err(e) => Err(e),
    }
}

impl StatementFormat for BankOfAmericaCreditStatement {
    open spec fn spec_parse(text: Seq<u8>) -> Result<BankOfAmericaCreditStatementView, ParseError> {
        match spec_parse_statement(text) {
            Ok((_, statement)) => Ok(statement),
            Err(e) => Err(e),
        }
    }

    fn parse(text: &[u8]) -> (r: Result<Self, ParseError>) {
        match parse_statement(text) {
            Ok((_, statement)) => Ok(statement),
            Err(e) => Err(e),
        }
    }
}

} // verus!
