//! Bank of America checking statements: a date, a description that runs up
//! to the amount before the next date or the section's footer, in sections
//! that each declare their total.

use vstd::prelude::*;
use vstd::slice::{slice_subrange, slice_to_vec};
use vstd::string::*;
use crate::canonical::lemma_found_behind;
use crate::common_parsers::{
    dollar_amount, month_day_year, month_word_day_year, spaced_digits, spec_dollar_amount,
    spec_month_day_year, spec_month_word_day_year, spec_spaced_digits, spec_take_until_including,
    take_until_including,
};
use crate::date::Date;
use crate::error::{error_at, fail_at, lexical, outcome, outcome_view, ErrorKind, ParseError};
use crate::scan::{
    advance, find, find_first, joined_from, skip_spaces, spaces1, span, spec_spaces1, spec_tag,
    starts_with, tag, CharClass,
};
use crate::statement_format::StatementFormat;
use crate::totals::{
    balances, check_total, lemma_changed_amount_breaks_balance, lemma_changed_amount_breaks_total,
    lemma_sum_push, spec_check_total, sum, total_agrees,
};

verus! {

/// The section a transaction was listed in.
#[derive(Debug, Copy, Clone, PartialEq, Eq, Structural)]
pub enum TransactionType {
    Deposit,
    Withdrawal,
    Fee,
}

/// One line of a statement.
#[derive(Debug)]
pub struct Transaction {
    pub type_: TransactionType,
    pub date: Date,
    pub description: Vec<u8>,
    pub amount: i32,
}

/// A transaction as a value of the grammar.
pub struct TransactionView {
    pub type_: TransactionType,
    pub date: Date,
    pub description: Seq<u8>,
    pub amount: i32,
}

impl View for Transaction {
    type V = TransactionView;

    open spec fn view(&self) -> TransactionView {
        TransactionView {
            type_: self.type_,
            date: self.date,
            description: self.description@,
            amount: self.amount,
        }
    }
}

impl TransactionView {
    /// The date is a day of the calendar.
    pub open spec fn is_valid(self) -> bool {
        self.date.is_valid()
    }
}

/// Every transaction of the list has a date that exists.
pub open spec fn all_dated(list: Seq<TransactionView>) -> bool {
    forall|i: int| 0 <= i < list.len() ==> (#[trigger] list[i]).is_valid()
}

/// Every transaction of the list has a date that exists and is of the type
/// `transaction_type`.
pub open spec fn all_valid(list: Seq<TransactionView>, transaction_type: TransactionType) -> bool {
    forall|i: int|
        0 <= i < list.len() ==> (#[trigger] list[i]).is_valid() && list[i].type_
            == transaction_type
}

/// The transactions of a list, each as a value of the grammar.
pub open spec fn views(list: Seq<Transaction>) -> Seq<TransactionView> {
    Seq::new(list.len(), |i: int| list[i]@)
}

/// The amounts of a list of transactions, in order.
pub open spec fn amounts(list: Seq<TransactionView>) -> Seq<int> {
    Seq::new(list.len(), |i: int| list[i].amount as int)
}

/// A statement, read whole and checked.
#[derive(Debug)]
pub struct BankOfAmericaDebitStatement {
    pub account_number: Vec<u8>,
    pub start_date: Date,
    pub end_date: Date,
    pub start_balance: i32,
    pub end_balance: i32,
    pub transactions: Vec<Transaction>,
}

/// A statement as a value of the grammar.
pub struct BankOfAmericaDebitStatementView {
    pub account_number: Seq<u8>,
    pub start_date: Date,
    pub end_date: Date,
    pub start_balance: i32,
    pub end_balance: i32,
    pub transactions: Seq<TransactionView>,
}

impl BankOfAmericaDebitStatementView {
    /// The ending balance is the starting balance plus every transaction.
    /// This format charges no interest.
    pub open spec fn is_balanced(self) -> bool {
        balances(
            self.start_balance as int,
            self.end_balance as int,
            amounts(self.transactions),
            0,
        )
    }

    /// What holds of every statement that was read: its dates and those of
    /// its transactions exist, and the statement balances.
    pub open spec fn is_valid(self) -> bool {
        &&& self.start_date.is_valid()
        &&& self.end_date.is_valid()
        &&& all_dated(self.transactions)
        &&& self.is_balanced()
    }
}

impl View for BankOfAmericaDebitStatement {
    type V = BankOfAmericaDebitStatementView;

    open spec fn view(&self) -> BankOfAmericaDebitStatementView {
        BankOfAmericaDebitStatementView {
            account_number: self.account_number@,
            start_date: self.start_date,
            end_date: self.end_date,
            start_balance: self.start_balance,
            end_balance: self.end_balance,
            transactions: views(self.transactions@),
        }
    }
}

/// Adds up the amounts of a list of transactions, exactly.
pub fn total_amount(list: &Vec<Transaction>) -> (total: i128)
    ensures
        total == sum(amounts(views(list@))),
        -0x8000_0000_0000_0000_0000_0000 <= total <= 0x8000_0000_0000_0000_0000_0000,
{
    let mut total: i128 = 0;
    let mut i: usize = 0;
    assert(amounts(views(list@)).take(0) =~= Seq::<int>::empty());
    while i < list.len()
        invariant
            i <= list.len(),
            total == sum(amounts(views(list@)).take(i as int)),
            -0x8000_0000 * i <= total <= 0x8000_0000 * i,
        decreases list.len() - i,
    {
        proof {
            let all = amounts(views(list@));
            lemma_sum_push(all.take(i as int), all[i as int]);
            assert(all.take(i as int).push(all[i as int]) =~= all.take(i + 1));
        }
        total = total + list[i].amount as i128;
        i += 1;
    }
    assert(amounts(views(list@)).take(list@.len() as int) =~= amounts(views(list@)));
    total
}

/// What may follow the amount of a transaction, after any white space: the
/// date of the next transaction, or the footer of the section.
pub open spec fn date_or_footer_follows(s: Seq<u8>, footer: Seq<u8>) -> bool {
    let t = s.skip(span(s, CharClass::Space) as int);
    spec_month_day_year(t) is Ok || footer.is_prefix_of(t)
}

/// The amount of a transaction: any white space and an amount, accepted only
/// where a date or the section's footer follows. What follows is not
/// consumed.
pub open spec fn spec_dollar_amount_and_date_or_footer_follows(
    s: Seq<u8>,
    footer: Seq<u8>,
) -> Result<(Seq<u8>, i32), ParseError> {
    match spec_dollar_amount(s.skip(span(s, CharClass::Space) as int)) {
        Ok((rest, amount)) => if date_or_footer_follows(rest, footer) {
            Ok((rest, amount))
        } else {
            Err(lexical(rest))
        },
        Err(e) => Err(e),
    }
}

/// Reads an amount and looks ahead for the next date or the footer.
pub fn dollar_amount_and_date_or_footer_follows<'a>(input: &'a [u8], section_footer: &[u8]) -> (r:
    Result<(&'a [u8], i32), ParseError>)
    ensures
        outcome(r) == spec_dollar_amount_and_date_or_footer_follows(input@, section_footer@),
{
    let (rest, amount) = match dollar_amount(skip_spaces(input)) {
        Ok(v) => v,
        Err(e) => return Err(e),
    };
    let ahead = skip_spaces(rest);
    let dated = match month_day_year(ahead) {
        Ok(_) => true,
        Err(_) => false,
    };
    if dated || starts_with(ahead, section_footer) {
        Ok((rest, amount))
    } else {
        Err(error_at(ErrorKind::Lexical, rest))
    }
}

/// The first offset from `i` on at which the amount of a transaction stands.
pub open spec fn amount_offset(s: Seq<u8>, footer: Seq<u8>, i: int) -> Option<int>
    decreases s.len() - i,
{
    if i < 0 || i > s.len() {
        None
    } else if spec_dollar_amount_and_date_or_footer_follows(s.skip(i), footer) is Ok {
        Some(i)
    } else if i == s.len() {
        None
    } else {
        amount_offset(s, footer, i + 1)
    }
}

/// The offset found is the first from `i` on at which the amount of a transaction stands;
/// where none is found, none stands anywhere from `i` on.
pub proof fn lemma_amount_offset(s: Seq<u8>, footer: Seq<u8>, i: int)
    requires
        0 <= i <= s.len(),
    ensures
        match amount_offset(s, footer, i) {
            Some(k) => {
                &&& i <= k <= s.len()
                &&& spec_dollar_amount_and_date_or_footer_follows(s.skip(k), footer, ) is Ok
                &&& forall|j: int| i <= j < k ==> spec_dollar_amount_and_date_or_footer_follows(#[trigger] s.skip(j), footer, ) is Err
            },
            None => forall|j: int|
                i <= j <= s.len() ==> spec_dollar_amount_and_date_or_footer_follows(#[trigger] s.skip(j), footer, ) is Err,
        },
    decreases s.len() - i,
{
    if spec_dollar_amount_and_date_or_footer_follows(s.skip(i), footer, ) is Err && i < s.len() {
        lemma_amount_offset(s, footer, i + 1);
    }
}

/// A description and the amount behind it: the description is all the text
/// before the first place where the amount of a transaction stands.
pub open spec fn spec_description(s: Seq<u8>, footer: Seq<u8>) -> Result<
    (Seq<u8>, (Seq<u8>, i32)),
    ParseError,
> {
    match amount_offset(s, footer, 0) {
        Some(k) => match spec_dollar_amount_and_date_or_footer_follows(s.skip(k), footer) {
            Ok((rest, amount)) => Ok((rest, (s.take(k), amount))),
            Err(e) => Err(e),
        },
        None => Err(lexical(s)),
    }
}

/// Reads a description up to the amount that ends it, and the amount.
pub fn description<'a>(input: &'a [u8], section_footer: &[u8]) -> (r: Result<
    (&'a [u8], (&'a [u8], i32)),
    ParseError,
>)
    ensures
        match r {
            Ok((rest, (text, amount))) => spec_description(input@, section_footer@) == Ok::<
                _,
                ParseError,
            >((rest@, (text@, amount))),
            Err(e) => spec_description(input@, section_footer@) == Err::<
                (Seq<u8>, (Seq<u8>, i32)),
                _,
            >(e),
        },
        r matches Ok((_, (text, _))) ==> text@.is_prefix_of(input@) && forall|j: int|
            0 <= j < text@.len() ==> spec_dollar_amount_and_date_or_footer_follows(
                #[trigger] input@.skip(j),
                section_footer@,
            ) is Err,
{
    let mut i: usize = 0;
    loop
        invariant
            i <= input.len(),
            amount_offset(input@, section_footer@, 0) == amount_offset(
                input@,
                section_footer@,
                i as int,
            ),
        decreases input.len() - i,
    {
        match dollar_amount_and_date_or_footer_follows(advance(input, i), section_footer) {
            Ok((rest, amount)) => {
                proof {
                    lemma_amount_offset(input@, section_footer@, 0);
                }
                return Ok((rest, (slice_subrange(input, 0, i), amount)));
            },
            Err(_) => {},
        }
        if i == input.len() {
            return Err(error_at(ErrorKind::Lexical, input));
        }
        i += 1;
    }
}

/// One transaction: its date, white space, its description and amount, and
/// white space.
pub open spec fn spec_transaction(
    s: Seq<u8>,
    footer: Seq<u8>,
    transaction_type: TransactionType,
) -> Result<(Seq<u8>, TransactionView), ParseError> {
    match spec_month_day_year(s) {
        Ok((s1, date)) => match spec_spaces1(s1) {
            Ok((s2, _)) => match spec_description(s2, footer) {
                Ok((s3, (text, amount))) => match spec_spaces1(s3) {
                    Ok((rest, _)) => Ok(
                        (
                            rest,
                            TransactionView {
                                type_: transaction_type,
                                date,
                                description: text,
                                amount,
                            },
                        ),
                    ),
                    Err(e) => Err(e),
                },
                Err(e) => Err(e),
            },
            Err(e) => Err(e),
        },
        Err(e) => Err(e),
    }
}

/// Reads one transaction of the section that `section_footer` ends.
pub fn transaction<'a>(
    input: &'a [u8],
    section_footer: &[u8],
    transaction_type: TransactionType,
) -> (r: Result<(&'a [u8], Transaction), ParseError>)
    ensures
        outcome_view(r) == spec_transaction(input@, section_footer@, transaction_type),
        r matches Ok((_, entry)) ==> entry@.is_valid() && entry.type_ == transaction_type,
{
    let (s1, date) = match month_day_year(input) {
        Ok(v) => v,
        Err(e) => return Err(e),
    };
    let (s2, _) = match spaces1(s1) {
        Ok(v) => v,
        Err(e) => return Err(e),
    };
    let (s3, (text, amount)) = match description(s2, section_footer) {
        Ok(v) => v,
        Err(e) => return Err(e),
    };
    let (rest, _) = match spaces1(s3) {
        Ok(v) => v,
        Err(e) => return Err(e),
    };
    Ok(
        (
            rest,
            Transaction { type_: transaction_type, date, description: slice_to_vec(text), amount },
        ),
    )
}

/// As many transactions as the text holds one after another: the rest, and
/// the transactions in order.
pub open spec fn spec_transactions(
    s: Seq<u8>,
    footer: Seq<u8>,
    transaction_type: TransactionType,
) -> (Seq<u8>, Seq<TransactionView>)
    decreases s.len(),
{
    match spec_transaction(s, footer, transaction_type) {
        Ok((rest, first)) => if rest.len() < s.len() {
            let (end, others) = spec_transactions(rest, footer, transaction_type);
            (end, seq![first] + others)
        } else {
            (s, Seq::empty())
        },
        Err(_) => (s, Seq::empty()),
    }
}

/// The transactions that the text holds have dates that exist and are of
/// the type asked for.
pub proof fn lemma_transactions_valid(
    s: Seq<u8>,
    footer: Seq<u8>,
    transaction_type: TransactionType,
)
    ensures
        all_valid(spec_transactions(s, footer, transaction_type).1, transaction_type),
    decreases s.len(),
{
    match spec_transaction(s, footer, transaction_type) {
        Ok((rest, first)) => {
            if rest.len() < s.len() {
                lemma_transactions_valid(rest, footer, transaction_type);
            }
        },
        Err(_) => {},
    }
}

/// Reads transactions until the text holds no further one.
pub fn transactions<'a>(
    input: &'a [u8],
    section_footer: &[u8],
    transaction_type: TransactionType,
) -> (r: (&'a [u8], Vec<Transaction>))
    ensures
        (r.0@, views(r.1@)) == spec_transactions(input@, section_footer@, transaction_type),
        all_valid(views(r.1@), transaction_type),
{
    proof {
        lemma_transactions_valid(input@, section_footer@, transaction_type);
    }
    let mut cur = input;
    let mut list: Vec<Transaction> = Vec::new();
    let ghost whole = spec_transactions(input@, section_footer@, transaction_type);
    assert(views(list@) + whole.1 =~= whole.1);
    loop
        invariant
            whole == spec_transactions(input@, section_footer@, transaction_type),
            all_valid(whole.1, transaction_type),
            whole.0 == spec_transactions(cur@, section_footer@, transaction_type).0,
            whole.1 == views(list@) + spec_transactions(
                cur@,
                section_footer@,
                transaction_type,
            ).1,
        decreases cur@.len(),
    {
        match transaction(cur, section_footer, transaction_type) {
            Ok((rest, item)) => {
                if rest.len() >= cur.len() {
                    assert(views(list@) + Seq::<TransactionView>::empty() =~= views(list@));
                    return (cur, list);
                }
                proof {
                    let others = spec_transactions(rest@, section_footer@, transaction_type).1;
                    assert(views(list@.push(item)) =~= views(list@).push(item@));
                    assert(views(list@) + (seq![item@] + others) =~= views(list@).push(item@)
                        + others);
                }
                list.push(item);
                cur = rest;
            },
            Err(_) => {
                assert(views(list@) + Seq::<TransactionView>::empty() =~= views(list@));
                return (cur, list);
            },
        }
    }
}

/// The titles of a section's columns, in either of their two wordings, with
/// any white space before and after them.
pub open spec fn spec_column_titles(s: Seq<u8>) -> Result<(Seq<u8>, ()), ParseError> {
    let s1 = s.skip(span(s, CharClass::Space) as int);
    let s2 = match spec_tag(s1, "Date Description Amount".spec_bytes()) {
        Ok(found) => Ok(found),
        Err(_) => spec_tag(s1, "Date Transaction description Amount".spec_bytes()),
    };
    match s2 {
        Ok((s3, _)) => Ok((s3.skip(span(s3, CharClass::Space) as int), ())),
        Err(e) => Err(e),
    }
}

/// Consumes the titles of a section's columns.
pub fn column_titles(input: &[u8]) -> (r: Result<(&[u8], ()), ParseError>)
    ensures
        outcome(r) == spec_column_titles(input@),
{
    let s1 = skip_spaces(input);
    let (s3, _) = match tag(s1, "Date Description Amount".as_bytes()) {
        Ok(v) => v,
        Err(_) => match tag(s1, "Date Transaction description Amount".as_bytes()) {
            Ok(v) => v,
            Err(e) => return Err(e),
        },
    };
    Ok((skip_spaces(s3), ()))
}

/// The total that ends a section: the footer, white space, and an amount.
pub open spec fn spec_section_total(s: Seq<u8>, footer: Seq<u8>) -> Result<
    (Seq<u8>, i32),
    ParseError,
> {
    match spec_tag(s, footer) {
        Ok((s1, _)) => match spec_spaces1(s1) {
            Ok((s2, _)) => spec_dollar_amount(s2),
            Err(e) => Err(e),
        },
        Err(e) => Err(e),
    }
}

/// Reads the total that ends a section.
pub fn section_total<'a>(input: &'a [u8], section_footer: &[u8]) -> (r: Result<
    (&'a [u8], i32),
    ParseError,
>)
    ensures
        outcome(r) == spec_section_total(input@, section_footer@),
{
    let (s1, _) = match tag(input, section_footer) {
        Ok(v) => v,
        Err(e) => return Err(e),
    };
    let (s2, _) = match spaces1(s1) {
        Ok(v) => v,
        Err(e) => return Err(e),
    };
    dollar_amount(s2)
}

/// Holds the transactions of a section against the total that the section
/// declares; a disagreement is reported with `remaining` bytes unread.
pub fn check_section_total(list: &Vec<Transaction>, declared: i32, remaining: usize) -> (r:
    Result<(), ParseError>)
    ensures
        r == spec_check_total(sum(amounts(views(list@))), declared as int, remaining),
{
    check_total(total_amount(list), declared as i128, remaining)
}

/// What a section is made of: the text up to and including `header`, the
/// column titles, any number of transactions, and behind `footer` the total
/// that the section declares. Gives the transactions and the declared total.
pub open spec fn spec_section_parts(
    s: Seq<u8>,
    header: Seq<u8>,
    footer: Seq<u8>,
    transaction_type: TransactionType,
) -> Result<(Seq<u8>, (Seq<TransactionView>, i32)), ParseError> {
    match spec_take_until_including(s, header) {
        Ok((s1, _)) => match spec_column_titles(s1) {
            Ok((s2, _)) => {
                let (s3, list) = spec_transactions(s2, footer, transaction_type);
                match spec_section_total(s3, footer) {
                    Ok((rest, declared)) => Ok((rest, (list, declared))),
                    Err(e) => Err(e),
                }
            },
            Err(e) => Err(e),
        },
        Err(e) => Err(e),
    }
}

/// A section: its parts, and the check that the amounts of its transactions
/// add up to the total it declares.
pub open spec fn spec_transaction_section(
    s: Seq<u8>,
    header: Seq<u8>,
    footer: Seq<u8>,
    transaction_type: TransactionType,
) -> Result<(Seq<u8>, Seq<TransactionView>), ParseError> {
    match spec_section_parts(s, header, footer, transaction_type) {
        Ok((rest, (list, declared))) => match spec_check_total(
            sum(amounts(list)),
            declared as int,
            rest.len() as usize,
        ) {
            Ok(_) => Ok((rest, list)),
            Err(e) => Err(e),
        },
        Err(e) => Err(e),
    }
}

/// A section whose parts can be read is accepted, with exactly the
/// transactions read and in their order, where their amounts add up to the
/// declared total; where they do not, it is a totals mismatch.
pub proof fn lemma_section_total_decides(
    s: Seq<u8>,
    header: Seq<u8>,
    footer: Seq<u8>,
    transaction_type: TransactionType,
)
    requires
        spec_section_parts(s, header, footer, transaction_type) is Ok,
    ensures
        ({
            let (rest, (list, declared)) = spec_section_parts(
                s,
                header,
                footer,
                transaction_type,
            )->Ok_0;
            let section = spec_transaction_section(s, header, footer, transaction_type);
            if total_agrees(amounts(list), declared as int) {
                section == Ok::<_, ParseError>((rest, list))
            } else {
                section == Err::<(Seq<u8>, Seq<TransactionView>), _>(
                    fail_at(ErrorKind::TotalsMismatch, rest),
                )
            }
        }),
{
}

/// Of two section texts that declare the same total and hold the same
/// amounts but for one, at most one is accepted: where the first is, the
/// second is a totals mismatch.
pub proof fn lemma_section_changed_amount_fails(
    s: Seq<u8>,
    changed: Seq<u8>,
    header: Seq<u8>,
    footer: Seq<u8>,
    transaction_type: TransactionType,
    i: int,
)
    requires
        spec_transaction_section(s, header, footer, transaction_type) is Ok,
        spec_section_parts(changed, header, footer, transaction_type) is Ok,
        ({
            let (list, declared) = spec_section_parts(s, header, footer, transaction_type)->Ok_0.1;
            let (other, same) = spec_section_parts(
                changed,
                header,
                footer,
                transaction_type,
            )->Ok_0.1;
            &&& same == declared
            &&& other.len() == list.len()
            &&& 0 <= i < list.len()
            &&& other[i].amount != list[i].amount
            &&& forall|j: int| 0 <= j < list.len() && j != i ==> other[j].amount == list[j].amount
        }),
    ensures
        spec_transaction_section(changed, header, footer, transaction_type) == Err::<
            (Seq<u8>, Seq<TransactionView>),
            _,
        >(
            fail_at(
                ErrorKind::TotalsMismatch,
                spec_section_parts(changed, header, footer, transaction_type)->Ok_0.0,
            ),
        ),
{
    let (list, declared) = spec_section_parts(s, header, footer, transaction_type)->Ok_0.1;
    let other = spec_section_parts(changed, header, footer, transaction_type)->Ok_0.1.0;
    assert(amounts(other) =~= amounts(list).update(i, other[i].amount as int));
    lemma_changed_amount_breaks_total(
        amounts(list),
        declared as int,
        i,
        other[i].amount - list[i].amount,
    );
}

/// The record at place `i` reads as `list[i]`: `cuts[i]` is the text before
/// it and `cuts[i + 1]`, which is shorter, the text behind it.
pub open spec fn reads_at(
    cuts: Seq<Seq<u8>>,
    list: Seq<TransactionView>,
    i: int,
    footer: Seq<u8>,
    transaction_type: TransactionType,
) -> bool {
    &&& spec_transaction(cuts[i], footer, transaction_type) == Ok::<_, ParseError>(
        (cuts[i + 1], list[i]),
    )
    &&& cuts[i + 1].len() < cuts[i].len()
}

/// The records of a section follow one another in the text: `cuts` holds
/// the text before each record and the text behind the last, and `list`
/// what each record reads as. Behind the last record no further one stands.
pub open spec fn reads_in_turn(
    cuts: Seq<Seq<u8>>,
    list: Seq<TransactionView>,
    footer: Seq<u8>,
    transaction_type: TransactionType,
) -> bool {
    &&& cuts.len() == list.len() + 1
    &&& forall|i: int|
        0 <= i < list.len() ==> #[trigger] reads_at(cuts, list, i, footer, transaction_type)
    &&& spec_transaction(cuts[list.len() as int], footer, transaction_type) is Err
}

/// Records that follow one another in the text are read as they stand:
/// each of them, none twice, in the order of the text.
pub proof fn lemma_records_read_in_turn(
    cuts: Seq<Seq<u8>>,
    list: Seq<TransactionView>,
    footer: Seq<u8>,
    transaction_type: TransactionType,
)
    requires
        reads_in_turn(cuts, list, footer, transaction_type),
    ensures
        spec_transactions(cuts[0], footer, transaction_type) == (
            cuts[list.len() as int],
            list,
        ),
    decreases list.len(),
{
    if list.len() == 0 {
        assert(list =~= Seq::<TransactionView>::empty());
    } else {
        let later = cuts.skip(1);
        let others = list.skip(1);
        assert(reads_at(cuts, list, 0, footer, transaction_type));
        assert forall|i: int| 0 <= i < others.len() implies #[trigger] reads_at(
            later,
            others,
            i,
            footer, transaction_type,
        ) by {
            assert(reads_at(cuts, list, i + 1, footer, transaction_type));
            assert(later[i] == cuts[i + 1]);
            assert(later[i + 1] == cuts[i + 2]);
            assert(others[i] == list[i + 1]);
        }
        assert(later[others.len() as int] == cuts[list.len() as int]);
        lemma_records_read_in_turn(later, others, footer, transaction_type);
        assert(later[0] == cuts[1]);
        assert(seq![list[0]] + others =~= list);
    }
}

/// Any text that holds, behind whatever comes first, the header, the
/// column titles, records that follow one another, and the footer with the
/// total, is a section. It is accepted with exactly those records, in their
/// order, where their amounts add up to the total that is declared, and is
/// a totals mismatch where they do not. What is left is the text behind the
/// total.
pub proof fn lemma_section_of_records(
    junk: Seq<u8>,
    header: Seq<u8>,
    titles: Seq<u8>,
    cuts: Seq<Seq<u8>>,
    list: Seq<TransactionView>,
    declared: i32,
    tail: Seq<u8>,
    footer: Seq<u8>,
    transaction_type: TransactionType,
)
    requires
        forall|j: int|
            0 <= j < junk.len() ==> !header.is_prefix_of(#[trigger] (junk + header).skip(j)),
        spec_column_titles(titles) == Ok::<_, ParseError>((cuts[0], ())),
        reads_in_turn(cuts, list, footer, transaction_type),
        spec_section_total(cuts[list.len() as int], footer) == Ok::<_, ParseError>(
            (tail, declared),
        ),
    ensures
        spec_transaction_section(junk + (header + titles), header, footer, transaction_type)
            == if sum(amounts(list)) == declared {
            Ok::<_, ParseError>((tail, list))
        } else {
            Err::<(Seq<u8>, Seq<TransactionView>), _>(fail_at(ErrorKind::TotalsMismatch, tail))
        },
{
    lemma_found_behind(junk, header, titles);
    lemma_records_read_in_turn(cuts, list, footer, transaction_type);
}

/// Any text made of whatever comes first, the header, the column titles,
/// records written one behind the other in any spelling that reads, and the
/// footer with the total, is a section. It is accepted with exactly those
/// records, as many as were written and in their order, where their amounts
/// add up to the total that is declared, and is a totals mismatch where
/// they do not. What is left is the text behind the total.
pub proof fn lemma_section_of_texts(
    junk: Seq<u8>,
    header: Seq<u8>,
    titles: Seq<u8>,
    records: Seq<Seq<u8>>,
    list: Seq<TransactionView>,
    total_line: Seq<u8>,
    declared: i32,
    tail: Seq<u8>,
    footer: Seq<u8>,
    transaction_type: TransactionType,
)
    requires
        forall|j: int|
            0 <= j < junk.len() ==> !header.is_prefix_of(#[trigger] (junk + header).skip(j)),
        spec_column_titles(titles + joined_from(records, 0, total_line + tail)) == Ok::<
            _,
            ParseError,
        >((joined_from(records, 0, total_line + tail), ())),
        records.len() == list.len(),
        forall|i: int|
            0 <= i < records.len() ==> (#[trigger] records[i]).len() > 0 && spec_transaction(
                records[i] + joined_from(records, i + 1, total_line + tail),
                footer,
                transaction_type,
            ) == Ok::<_, ParseError>((joined_from(records, i + 1, total_line + tail), list[i])),
        spec_transaction(total_line + tail, footer, transaction_type) is Err,
        spec_section_total(total_line + tail, footer) == Ok::<_, ParseError>((tail, declared)),
    ensures
        spec_transaction_section(
            junk + (header + (titles + joined_from(records, 0, total_line + tail))),
            header,
            footer,
            transaction_type,
        ) == if sum(amounts(list)) == declared {
            Ok::<_, ParseError>((tail, list))
        } else {
            Err::<(Seq<u8>, Seq<TransactionView>), _>(fail_at(ErrorKind::TotalsMismatch, tail))
        },
{
    let end = total_line + tail;
    let cuts = Seq::new(records.len() + 1, |i: int| joined_from(records, i, end));
    assert forall|i: int| 0 <= i < list.len() implies #[trigger] reads_at(
        cuts,
        list,
        i,
        footer, transaction_type,
    ) by {
        assert(records[i].len() > 0);
        assert(cuts[i] == records[i] + joined_from(records, i + 1, end));
        assert(cuts[i + 1] == joined_from(records, i + 1, end));
    }
    assert(cuts[list.len() as int] == end);
    lemma_section_of_records(
        junk,
        header,
        titles + cuts[0],
        cuts,
        list,
        declared,
        tail,
        footer,
        transaction_type,
    );
}

/// The transactions of a section that is accepted have dates that exist,
/// are of the type asked for, and add up to the total that the section
/// declares.
pub proof fn lemma_section_valid(
    s: Seq<u8>,
    header: Seq<u8>,
    footer: Seq<u8>,
    transaction_type: TransactionType,
)
    ensures
        spec_transaction_section(s, header, footer, transaction_type) matches Ok((_, list)) ==> {
            &&& all_valid(list, transaction_type)
            &&& total_agrees(
                amounts(list),
                spec_section_parts(s, header, footer, transaction_type)->Ok_0.1.1 as int,
            )
        },
{
    match spec_take_until_including(s, header) {
        Ok((s1, _)) => match spec_column_titles(s1) {
            Ok((s2, _)) => {
                lemma_transactions_valid(s2, footer, transaction_type);
            },
            Err(_) => {},
        },
        Err(_) => {},
    }
}

/// Reads the section between `section_header` and `section_footer` and
/// checks its total.
pub fn transaction_section<'a>(
    input: &'a [u8],
    section_header: &[u8],
    section_footer: &[u8],
    transaction_type: TransactionType,
) -> (r: Result<(&'a [u8], Vec<Transaction>), ParseError>)
    ensures
        match r {
            Ok((rest, list)) => spec_transaction_section(
                input@,
                section_header@,
                section_footer@,
                transaction_type,
            ) == Ok::<_, ParseError>((rest@, views(list@))),
            Err(e) => spec_transaction_section(
                input@,
                section_header@,
                section_footer@,
                transaction_type,
            ) == Err::<(Seq<u8>, Seq<TransactionView>), _>(e),
        },
        r matches Ok((_, list)) ==> all_valid(views(list@), transaction_type),
{
    proof {
        lemma_section_valid(input@, section_header@, section_footer@, transaction_type);
    }
    let (s1, _) = match take_until_including(input, section_header) {
        Ok(v) => v,
        Err(e) => return Err(e),
    };
    let (s2, _) = match column_titles(s1) {
        Ok(v) => v,
        Err(e) => return Err(e),
    };
    let (s3, list) = transactions(s2, section_footer, transaction_type);
    let (rest, declared) = match section_total(s3, section_footer) {
        Ok(v) => v,
        Err(e) => return Err(e),
    };
    match check_section_total(&list, declared, rest.len()) {
        Ok(_) => Ok((rest, list)),
        Err(e) => Err(e),
    }
}

/// A balance and the day it held on: the text up to and including the first
/// occurrence of `label`, a date in words, any white space, and the amount.
pub open spec fn spec_dated_balance(s: Seq<u8>, label: Seq<u8>) -> Result<
    (Seq<u8>, (Date, i32)),
    ParseError,
> {
    match spec_take_until_including(s, label) {
        Ok((s1, _)) => match spec_month_word_day_year(s1) {
            Ok((s2, date)) => match spec_dollar_amount(
                s2.skip(span(s2, CharClass::Space) as int),
            ) {
                Ok((rest, amount)) => Ok((rest, (date, amount))),
                Err(e) => Err(e),
            },
            Err(e) => Err(e),
        },
        Err(e) => Err(e),
    }
}

/// Finds `label` and reads the date and the balance behind it.
pub fn dated_balance<'a>(input: &'a [u8], label: &[u8]) -> (r: Result<
    (&'a [u8], (Date, i32)),
    ParseError,
>)
    ensures
        outcome(r) == spec_dated_balance(input@, label@),
{
    let (s1, _) = match take_until_including(input, label) {
        Ok(v) => v,
        Err(e) => return Err(e),
    };
    let (s2, date) = match month_word_day_year(s1) {
        Ok(v) => v,
        Err(e) => return Err(e),
    };
    let (rest, amount) = match dollar_amount(skip_spaces(s2)) {
        Ok(v) => v,
        Err(e) => return Err(e),
    };
    Ok((rest, (date, amount)))
}

/// The head of a statement: the account number behind `Account number:`,
/// and the beginning and the ending balance, each with its day.
pub open spec fn spec_summary(s: Seq<u8>) -> Result<
    (Seq<u8>, (Seq<u8>, (Date, i32), (Date, i32))),
    ParseError,
> {
    match spec_take_until_including(s, "Account number:".spec_bytes()) {
        Ok((s1, _)) => match spec_spaced_digits(s1) {
            Ok((s2, number)) => match spec_dated_balance(
                s2,
                "Beginning balance on ".spec_bytes(),
            ) {
                Ok((s3, beginning)) => match spec_dated_balance(
                    s3,
                    "Ending balance on ".spec_bytes(),
                ) {
                    Ok((rest, ending)) => Ok((rest, (number, beginning, ending))),
                    Err(e) => Err(e),
                },
                Err(e) => Err(e),
            },
            Err(e) => Err(e),
        },
        Err(e) => Err(e),
    }
}

/// Reads the head of a statement.
pub fn summary(input: &[u8]) -> (r: Result<
    (&[u8], (Vec<u8>, (Date, i32), (Date, i32))),
    ParseError,
>)
    ensures
        match r {
            Ok((rest, (number, beginning, ending))) => spec_summary(input@) == Ok::<
                _,
                ParseError,
            >((rest@, (number@, beginning, ending))),
            Err(e) => spec_summary(input@) == Err::<
                (Seq<u8>, (Seq<u8>, (Date, i32), (Date, i32))),
                _,
            >(e),
        },
{
    let (s1, _) = match take_until_including(input, "Account number:".as_bytes()) {
        Ok(v) => v,
        Err(e) => return Err(e),
    };
    let (s2, number) = match spaced_digits(s1) {
        Ok(v) => v,
        Err(e) => return Err(e),
    };
    let (s3, beginning) = match dated_balance(s2, "Beginning balance on ".as_bytes()) {
        Ok(v) => v,
        Err(e) => return Err(e),
    };
    let (rest, ending) = match dated_balance(s3, "Ending balance on ".as_bytes()) {
        Ok(v) => v,
        Err(e) => return Err(e),
    };
    Ok((rest, (slice_to_vec(number), beginning, ending)))
}

/// The sections of a statement, in their fixed order: deposits, then
/// withdrawals, then service fees where the rest of the text names them
/// anywhere. A statement without service fees has no such transactions.
pub open spec fn spec_sections(s: Seq<u8>) -> Result<(Seq<u8>, Seq<TransactionView>), ParseError> {
    match spec_transaction_section(
        s,
        "Deposits and other additions".spec_bytes(),
        "Total deposits and other additions".spec_bytes(),
        TransactionType::Deposit,
    ) {
        Ok((s1, deposits)) => match spec_transaction_section(
            s1,
            "Withdrawals and other subtractions".spec_bytes(),
            "Total withdrawals and other subtractions".spec_bytes(),
            TransactionType::Withdrawal,
        ) {
            Ok((s2, withdrawals)) => if find(s2, "Service fees".spec_bytes()) is Some {
                match spec_transaction_section(
                    s2,
                    "Service fees".spec_bytes(),
                    "Total service fees".spec_bytes(),
                    TransactionType::Fee,
                ) {
                    Ok((rest, fees)) => Ok((rest, deposits + withdrawals + fees)),
                    Err(e) => Err(e),
                }
            } else {
                Ok((s2, deposits + withdrawals))
            },
            Err(e) => Err(e),
        },
        Err(e) => Err(e),
    }
}

/// The transactions of all sections have dates that exist.
pub proof fn lemma_sections_valid(s: Seq<u8>)
    ensures
        spec_sections(s) matches Ok((_, list)) ==> all_dated(list),
{
    let deposits = "Deposits and other additions".spec_bytes();
    let deposits_end = "Total deposits and other additions".spec_bytes();
    let withdrawals = "Withdrawals and other subtractions".spec_bytes();
    let withdrawals_end = "Total withdrawals and other subtractions".spec_bytes();
    let fees = "Service fees".spec_bytes();
    let fees_end = "Total service fees".spec_bytes();
    lemma_section_valid(s, deposits, deposits_end, TransactionType::Deposit);
    match spec_transaction_section(s, deposits, deposits_end, TransactionType::Deposit) {
        Ok((s1, _)) => {
            lemma_section_valid(s1, withdrawals, withdrawals_end, TransactionType::Withdrawal);
            match spec_transaction_section(
                s1,
                withdrawals,
                withdrawals_end,
                TransactionType::Withdrawal,
            ) {
                Ok((s2, _)) => {
                    lemma_section_valid(s2, fees, fees_end, TransactionType::Fee);
                },
                Err(_) => {},
            }
        },
        Err(_) => {},
    }
}

/// The views of two lists put end to end.
pub proof fn lemma_views_concat(a: Seq<Transaction>, b: Seq<Transaction>)
    ensures
        views(a + b) =~= views(a) + views(b),
{
}

/// Reads the sections of a statement into one list.
pub fn sections(input: &[u8]) -> (r: Result<(&[u8], Vec<Transaction>), ParseError>)
    ensures
        match r {
            Ok((rest, list)) => spec_sections(input@) == Ok::<_, ParseError>(
                (rest@, views(list@)),
            ),
            Err(e) => spec_sections(input@) == Err::<(Seq<u8>, Seq<TransactionView>), _>(e),
        },
        r matches Ok((_, list)) ==> all_dated(views(list@)),
{
    proof {
        lemma_sections_valid(input@);
    }
    let (s1, mut list) = match transaction_section(
        input,
        "Deposits and other additions".as_bytes(),
        "Total deposits and other additions".as_bytes(),
        TransactionType::Deposit,
    ) {
        Ok(v) => v,
        Err(e) => return Err(e),
    };
    let (s2, mut withdrawals) = match transaction_section(
        s1,
        "Withdrawals and other subtractions".as_bytes(),
        "Total withdrawals and other subtractions".as_bytes(),
        TransactionType::Withdrawal,
    ) {
        Ok(v) => v,
        Err(e) => return Err(e),
    };
    proof {
        lemma_views_concat(list@, withdrawals@);
    }
    list.append(&mut withdrawals);
    match find_first(s2, "Service fees".as_bytes()) {
        Some(_) => {},
        None => return Ok((s2, list)),
    }
    let (rest, mut fees) = match transaction_section(
        s2,
        "Service fees".as_bytes(),
        "Total service fees".as_bytes(),
        TransactionType::Fee,
    ) {
        Ok(v) => v,
        Err(e) => return Err(e),
    };
    proof {
        lemma_views_concat(list@, fees@);
    }
    list.append(&mut fees);
    Ok((rest, list))
}

/// The whole-statement check: a statement that balances is accepted as it
/// is, any other is a totals mismatch, reported with `remaining` bytes unread.
pub open spec fn spec_assemble(
    candidate: BankOfAmericaDebitStatementView,
    remaining: usize,
) -> Result<BankOfAmericaDebitStatementView, ParseError> {
    if candidate.is_balanced() {
        Ok(candidate)
    } else {
        Err(ParseError { kind: ErrorKind::TotalsMismatch, remaining })
    }
}

impl BankOfAmericaDebitStatement {
    /// Accepts the parts of a statement exactly where the ending balance is
    /// the starting balance plus all transactions.
    pub fn assemble(candidate: BankOfAmericaDebitStatement, remaining: usize) -> (r: Result<
        BankOfAmericaDebitStatement,
        ParseError,
    >)
        ensures
            match r {
                Ok(statement) => statement == candidate && spec_assemble(candidate@, remaining)
                    == Ok::<_, ParseError>(candidate@),
                Err(e) => spec_assemble(candidate@, remaining) == Err::<
                    BankOfAmericaDebitStatementView,
                    _,
                >(e),
            },
            r is Ok <==> candidate@.is_balanced(),
    {
        let moved: i128 = candidate.end_balance as i128 - candidate.start_balance as i128;
        match check_total(total_amount(&candidate.transactions), moved, remaining) {
            Ok(_) => Ok(candidate),
            Err(e) => Err(e),
        }
    }
}

/// Of two statements with the same balances and interest that hold the same
/// amounts but for one, at most one balances: where the first is accepted,
/// the second is a totals mismatch.
pub proof fn lemma_statement_changed_amount_fails(
    statement: BankOfAmericaDebitStatementView,
    changed: BankOfAmericaDebitStatementView,
    i: int,
    remaining: usize,
)
    requires
        spec_assemble(statement, remaining) is Ok,
        changed.start_balance == statement.start_balance,
        changed.end_balance == statement.end_balance,
        changed.transactions.len() == statement.transactions.len(),
        0 <= i < statement.transactions.len(),
        changed.transactions[i].amount != statement.transactions[i].amount,
        forall|j: int|
            0 <= j < statement.transactions.len() && j != i ==> changed.transactions[j].amount
                == statement.transactions[j].amount,
    ensures
        spec_assemble(changed, remaining) == Err::<BankOfAmericaDebitStatementView, _>(
            ParseError { kind: ErrorKind::TotalsMismatch, remaining },
        ),
{
    let before = amounts(statement.transactions);
    let after = amounts(changed.transactions);
    assert(after =~= before.update(i, changed.transactions[i].amount as int));
    lemma_changed_amount_breaks_balance(
        statement.start_balance as int,
        statement.end_balance as int,
        before,
        0,
        i,
        changed.transactions[i].amount - statement.transactions[i].amount,
    );
}

/// What a statement is made of: its head and its sections. Gives the
/// statement as it stands in the text, unchecked.
pub open spec fn spec_statement_parts(s: Seq<u8>) -> Result<
    (Seq<u8>, BankOfAmericaDebitStatementView),
    ParseError,
> {
    match spec_summary(s) {
        Ok((s1, (number, (start_date, start_balance), (end_date, end_balance)))) => match spec_sections(
            s1,
        ) {
            Ok((rest, list)) => Ok(
                (
                    rest,
                    BankOfAmericaDebitStatementView {
                        account_number: number,
                        start_date,
                        end_date,
                        start_balance,
                        end_balance,
                        transactions: list,
                    },
                ),
            ),
            Err(e) => Err(e),
        },
        Err(e) => Err(e),
    }
}

/// A whole statement: its parts, and the check that the statement balances.
pub open spec fn spec_parse_statement(s: Seq<u8>) -> Result<
    (Seq<u8>, BankOfAmericaDebitStatementView),
    ParseError,
> {
    match spec_statement_parts(s) {
        Ok((rest, candidate)) => match spec_assemble(candidate, rest.len() as usize) {
            Ok(statement) => Ok((rest, statement)),
            Err(e) => Err(e),
        },
        Err(e) => Err(e),
    }
}

/// A statement whose parts can be read is accepted, as it stands in the
/// text, exactly where its ending balance is its starting balance plus all
/// its transactions; where not, it is a totals mismatch.
pub proof fn lemma_balance_decides(s: Seq<u8>)
    requires
        spec_statement_parts(s) is Ok,
    ensures
        ({
            let (rest, candidate) = spec_statement_parts(s)->Ok_0;
            if candidate.end_balance - candidate.start_balance == sum(
                amounts(candidate.transactions),
            ) {
                spec_parse_statement(s) == Ok::<_, ParseError>((rest, candidate))
            } else {
                spec_parse_statement(s) == Err::<(Seq<u8>, BankOfAmericaDebitStatementView), _>(
                    fail_at(ErrorKind::TotalsMismatch, rest),
                )
            }
        }),
{
}

/// A statement that names no service fees anywhere behind its withdrawals
/// has the transactions of its deposits and withdrawals and no others.
pub proof fn lemma_no_service_fees(s: Seq<u8>)
    requires
        spec_sections(s) is Ok,
    ensures
        ({
            let deposits = spec_transaction_section(
                s,
                "Deposits and other additions".spec_bytes(),
                "Total deposits and other additions".spec_bytes(),
                TransactionType::Deposit,
            )->Ok_0;
            let withdrawals = spec_transaction_section(
                deposits.0,
                "Withdrawals and other subtractions".spec_bytes(),
                "Total withdrawals and other subtractions".spec_bytes(),
                TransactionType::Withdrawal,
            )->Ok_0;
            find(withdrawals.0, "Service fees".spec_bytes()) is None ==> {
                &&& spec_sections(s) == Ok::<_, ParseError>(
                    (withdrawals.0, deposits.1 + withdrawals.1),
                )
                &&& forall|i: int|
                    0 <= i < spec_sections(s)->Ok_0.1.len() ==> (#[trigger] spec_sections(
                        s,
                    )->Ok_0.1[i]).type_ != TransactionType::Fee
            }
        }),
{
    let deposits = "Deposits and other additions".spec_bytes();
    let deposits_end = "Total deposits and other additions".spec_bytes();
    let withdrawals = "Withdrawals and other subtractions".spec_bytes();
    let withdrawals_end = "Total withdrawals and other subtractions".spec_bytes();
    lemma_section_valid(s, deposits, deposits_end, TransactionType::Deposit);
    let s1 = spec_transaction_section(s, deposits, deposits_end, TransactionType::Deposit)->Ok_0.0;
    lemma_section_valid(s1, withdrawals, withdrawals_end, TransactionType::Withdrawal);
}

/// Every statement that is accepted is valid.
pub proof fn lemma_statement_valid(s: Seq<u8>)
    ensures
        spec_parse_statement(s) matches Ok((_, statement)) ==> statement.is_valid(),
{
    match spec_summary(s) {
        Ok((s1, _)) => {
            lemma_sections_valid(s1);
        },
        Err(_) => {},
    }
}

/// Reads a whole statement. What is returned is valid: above all, it balances.
pub fn parse_statement(input: &[u8]) -> (r: Result<
    (&[u8], BankOfAmericaDebitStatement),
    ParseError,
>)
    ensures
        outcome_view(r) == spec_parse_statement(input@),
        r matches Ok((_, statement)) ==> statement@.is_valid(),
{
    proof {
        lemma_statement_valid(input@);
    }
    let (s1, (number, (start_date, start_balance), (end_date, end_balance))) = match summary(
        input,
    ) {
        Ok(v) => v,
        Err(e) => return Err(e),
    };
    let (rest, list) = match sections(s1) {
        Ok(v) => v,
        Err(e) => return Err(e),
    };
    let candidate = BankOfAmericaDebitStatement {
        account_number: number,
        start_date,
        end_date,
        start_balance,
        end_balance,
        transactions: list,
    };
    match BankOfAmericaDebitStatement::assemble(candidate, rest.len()) {
        Ok(statement) => Ok((rest, statement)),
        Err(e) => Err(e),
    }
}

impl StatementFormat for BankOfAmericaDebitStatement {
    open spec fn spec_parse(text: Seq<u8>) -> Result<BankOfAmericaDebitStatementView, ParseError> {
        match spec_parse_statement(text) {
            Ok((_, statement)) => Ok(statement),
            Err(e) => Err(e),
        }
    }

    fn parse(text: &[u8]) -> (r: Result<Self, ParseError>) {
        match parse_statement(text) {
            Ok((_, statement)) => Ok(statement),
            Err(e) => Err(e),
        }
    }
}

} // verus!
