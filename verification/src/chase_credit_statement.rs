//! Chase credit card statements: an indented date, a description line that
//! the amount ends, and further lines that continue the description.

use vstd::prelude::*;
use vstd::slice::{slice_subrange, slice_to_vec};
use vstd::string::*;
use crate::common_parsers::{
    dollar_amount, month_day, month_day_year, short_date, spaced_digits, spec_dollar_amount,
    spec_month_day, spec_month_day_year, spec_short_date, spec_spaced_digits,
    spec_take_until_including, take_until_including,
};
use crate::date::Date;
use crate::error::{error_at, fail_at, lexical, outcome, outcome_view, ErrorKind, ParseError};
use crate::scan::{
    advance, blank_line, byte, lemma_span_props, opt_byte, skip_spaces, spaces1, span, span_len,
    spec_blank_line, spec_byte, spec_opt_byte, spec_spaces1, spec_tag, tag, CharClass, LF, SPACE,
};
use crate::statement_format::StatementFormat;
use crate::totals::{
    balances, check_total, lemma_changed_amount_breaks_balance, lemma_sum_push, sum,
};

verus! {

/// The section a transaction was listed in.
#[derive(Debug, Copy, Clone, PartialEq, Eq, Structural)]
pub enum TransactionType {
    Credit,
    Purchase,
    Fee,
}

/// One entry of a statement.
#[derive(Debug)]
pub struct Transaction {
    pub type_: TransactionType,
    pub date: Date,
    pub description: Vec<u8>,
    pub amount: i32,
}

/// A transaction as a value of the grammar.
pub struct TransactionView {
    pub type_: TransactionType,
    pub date: Date,
    pub description: Seq<u8>,
    pub amount: i32,
}

impl View for Transaction {
    type V = TransactionView;

    open spec fn view(&self) -> TransactionView {
        TransactionView {
            type_: self.type_,
            date: self.date,
            description: self.description@,
            amount: self.amount,
        }
    }
}

impl TransactionView {
    /// The date is a day of the calendar.
    pub open spec fn is_valid(self) -> bool {
        self.date.is_valid()
    }
}

/// Every transaction of the list has a date that exists.
pub open spec fn all_dated(list: Seq<TransactionView>) -> bool {
    forall|i: int| 0 <= i < list.len() ==> (#[trigger] list[i]).is_valid()
}

/// Every transaction of the list has a date that exists and is of the type
/// `transaction_type`.
pub open spec fn all_valid(list: Seq<TransactionView>, transaction_type: TransactionType) -> bool {
    forall|i: int|
        0 <= i < list.len() ==> (#[trigger] list[i]).is_valid() && list[i].type_
            == transaction_type
}

/// The transactions of a list, each as a value of the grammar.
pub open spec fn views(list: Seq<Transaction>) -> Seq<TransactionView> {
    Seq::new(list.len(), |i: int| list[i]@)
}

/// The amounts of a list of transactions, in order.
pub open spec fn amounts(list: Seq<TransactionView>) -> Seq<int> {
    Seq::new(list.len(), |i: int| list[i].amount as int)
}

/// A statement, read whole and checked.
#[derive(Debug)]
pub struct ChaseCreditStatement {
    pub account_number: Vec<u8>,
    pub start_date: Date,
    pub end_date: Date,
    pub start_balance: i32,
    pub end_balance: i32,
    pub transactions: Vec<Transaction>,
    pub total_interest: i32,
}

/// A statement as a value of the grammar.
pub struct ChaseCreditStatementView {
    pub account_number: Seq<u8>,
    pub start_date: Date,
    pub end_date: Date,
    pub start_balance: i32,
    pub end_balance: i32,
    pub transactions: Seq<TransactionView>,
    pub total_interest: i32,
}

impl ChaseCreditStatementView {
    /// The ending balance is the starting balance plus every transaction
    /// plus the interest charged.
    pub open spec fn is_balanced(self) -> bool {
        balances(
            self.start_balance as int,
            self.end_balance as int,
            amounts(self.transactions),
            self.total_interest as int,
        )
    }

    /// What holds of every statement that was read: its dates and those of
    /// its transactions exist, and the statement balances.
    pub open spec fn is_valid(self) -> bool {
        &&& self.start_date.is_valid()
        &&& self.end_date.is_valid()
        &&& all_dated(self.transactions)
        &&& self.is_balanced()
    }
}

impl View for ChaseCreditStatement {
    type V = ChaseCreditStatementView;

    open spec fn view(&self) -> ChaseCreditStatementView {
        ChaseCreditStatementView {
            account_number: self.account_number@,
            start_date: self.start_date,
            end_date: self.end_date,
            start_balance: self.start_balance,
            end_balance: self.end_balance,
            transactions: views(self.transactions@),
            total_interest: self.total_interest,
        }
    }
}

/// Adds up the amounts of a list of transactions, exactly.
pub fn total_amount(list: &Vec<Transaction>) -> (total: i128)
    ensures
        total == sum(amounts(views(list@))),
        -0x8000_0000_0000_0000_0000_0000 <= total <= 0x8000_0000_0000_0000_0000_0000,
{
    let mut total: i128 = 0;
    let mut i: usize = 0;
    assert(amounts(views(list@)).take(0) =~= Seq::<int>::empty());
    while i < list.len()
        invariant
            i <= list.len(),
            total == sum(amounts(views(list@)).take(i as int)),
            -0x8000_0000 * i <= total <= 0x8000_0000 * i,
        decreases list.len() - i,
    {
        proof {
            let all = amounts(views(list@));
            lemma_sum_push(all.take(i as int), all[i as int]);
            assert(all.take(i as int).push(all[i as int]) =~= all.take(i + 1));
        }
        total = total + list[i].amount as i128;
        i += 1;
    }
    assert(amounts(views(list@)).take(list@.len() as int) =~= amounts(views(list@)));
    total
}

/// The amount that ends a description line: any white space, the amount,
/// and the end of the line.
pub open spec fn spec_line_amount(s: Seq<u8>) -> Result<(Seq<u8>, i32), ParseError> {
    match spec_dollar_amount(s.skip(span(s, CharClass::Space) as int)) {
        Ok((s1, amount)) => match spec_byte(s1, LF) {
            Ok((rest, _)) => Ok((rest, amount)),
            Err(e) => Err(e),
        },
        Err(e) => Err(e),
    }
}

/// Reads the amount that ends a description line.
pub fn line_amount(input: &[u8]) -> (r: Result<(&[u8], i32), ParseError>)
    ensures
        outcome(r) == spec_line_amount(input@),
{
    let (s1, amount) = match dollar_amount(skip_spaces(input)) {
        Ok(v) => v,
        Err(e) => return Err(e),
    };
    let (rest, _) = match byte(s1, LF) {
        Ok(v) => v,
        Err(e) => return Err(e),
    };
    Ok((rest, amount))
}

/// The first offset from `i` on at which the amount of a line stands.
pub open spec fn amount_offset(s: Seq<u8>, i: int) -> Option<int>
    decreases s.len() - i,
{
    if i < 0 || i > s.len() {
        None
    } else if spec_line_amount(s.skip(i)) is Ok {
        Some(i)
    } else if i == s.len() {
        None
    } else {
        amount_offset(s, i + 1)
    }
}

/// The offset found is the first from `i` on at which the amount of a line stands;
/// where none is found, none stands anywhere from `i` on.
pub proof fn lemma_amount_offset(s: Seq<u8>, i: int)
    requires
        0 <= i <= s.len(),
    ensures
        match amount_offset(s, i) {
            Some(k) => {
                &&& i <= k <= s.len()
                &&& spec_line_amount(s.skip(k)) is Ok
                &&& forall|j: int| i <= j < k ==> spec_line_amount(#[trigger] s.skip(j)) is Err
            },
            None => forall|j: int|
                i <= j <= s.len() ==> spec_line_amount(#[trigger] s.skip(j)) is Err,
        },
    decreases s.len() - i,
{
    if spec_line_amount(s.skip(i)) is Err && i < s.len() {
        lemma_amount_offset(s, i + 1);
    }
}

/// The first line of a transaction behind its date: the description is all
/// the text before the first place where the amount of a line stands.
pub open spec fn spec_description(s: Seq<u8>) -> Result<(Seq<u8>, (Seq<u8>, i32)), ParseError> {
    match amount_offset(s, 0) {
        Some(k) => match spec_line_amount(s.skip(k)) {
            Ok((rest, amount)) => Ok((rest, (s.take(k), amount))),
            Err(e) => Err(e),
        },
        None => Err(lexical(s)),
    }
}

/// Reads a description up to the amount that ends its line, and the amount.
pub fn description(input: &[u8]) -> (r: Result<(&[u8], (&[u8], i32)), ParseError>)
    ensures
        match r {
            Ok((rest, (text, amount))) => spec_description(input@) == Ok::<_, ParseError>(
                (rest@, (text@, amount)),
            ),
            Err(e) => spec_description(input@) == Err::<(Seq<u8>, (Seq<u8>, i32)), _>(e),
        },
        r matches Ok((_, (text, _))) ==> text@.is_prefix_of(input@) && forall|j: int|
            0 <= j < text@.len() ==> spec_line_amount(#[trigger] input@.skip(j)) is Err,
{
    let mut i: usize = 0;
    loop
        invariant
            i <= input.len(),
            amount_offset(input@, 0) == amount_offset(input@, i as int),
        decreases input.len() - i,
    {
        match line_amount(advance(input, i)) {
            Ok((rest, amount)) => {
                proof {
                    lemma_amount_offset(input@, 0);
                }
                return Ok((rest, (slice_subrange(input, 0, i), amount)));
            },
            Err(_) => {},
        }
        if i == input.len() {
            return Err(error_at(ErrorKind::Lexical, input));
        }
        i += 1;
    }
}

/// The date that opens a transaction: two spaces, then month and day.
pub open spec fn spec_indented_month_day(s: Seq<u8>) -> Result<(Seq<u8>, (u32, u32)), ParseError> {
    match spec_tag(s, "  ".spec_bytes()) {
        Ok((s1, _)) => spec_month_day(s1),
        Err(e) => Err(e),
    }
}

/// Reads the indented month and day that open a transaction.
pub fn indented_month_day(input: &[u8]) -> (r: Result<(&[u8], (u32, u32)), ParseError>)
    ensures
        outcome(r) == spec_indented_month_day(input@),
{
    let (s1, _) = match tag(input, "  ".as_bytes()) {
        Ok(v) => v,
        Err(e) => return Err(e),
    };
    month_day(s1)
}

/// Where the lines that continue a description end: before the date of the
/// next transaction, or before an empty line.
pub open spec fn continuation_ends(s: Seq<u8>) -> bool {
    spec_indented_month_day(s) is Ok || (s.len() > 0 && s[0] == LF)
}

/// Tells whether the lines that continue a description end here.
pub fn at_continuation_end(input: &[u8]) -> (b: bool)
    ensures
        b == continuation_ends(input@),
{
    match indented_month_day(input) {
        Ok(_) => true,
        Err(_) => input.len() > 0 && input[0] == LF,
    }
}

/// One line that continues a description: any white space, text without a
/// line break, and the end of the line. Gives the text.
pub open spec fn spec_continuation_line(s: Seq<u8>) -> Result<(Seq<u8>, Seq<u8>), ParseError> {
    let s1 = s.skip(span(s, CharClass::Space) as int);
    let n = span(s1, CharClass::LineText) as int;
    if n < s1.len() && s1[n] == LF {
        Ok((s1.skip(n + 1), s1.take(n)))
    } else {
        Err(lexical(s1))
    }
}

/// Reads one line that continues a description.
pub fn continuation_line(input: &[u8]) -> (r: Result<(&[u8], &[u8]), ParseError>)
    ensures
        outcome_view(r) == spec_continuation_line(input@),
        r matches Ok((rest, _)) ==> rest@.len() < input@.len(),
{
    proof {
        lemma_span_props(input@, CharClass::Space);
    }
    let s1 = skip_spaces(input);
    let n = span_len(s1, CharClass::LineText);
    proof {
        lemma_span_props(s1@, CharClass::LineText);
    }
    if n < s1.len() && s1[n] == LF {
        Ok((advance(s1, n + 1), slice_subrange(s1, 0, n)))
    } else {
        Err(error_at(ErrorKind::Lexical, s1))
    }
}

/// The lines that continue a description, up to where they end: the rest,
/// and what they add to the description, a line break before each line.
pub open spec fn spec_continuation(s: Seq<u8>) -> Result<(Seq<u8>, Seq<u8>), ParseError>
    decreases s.len(),
{
    if continuation_ends(s) {
        Ok((s, Seq::empty()))
    } else {
        match spec_continuation_line(s) {
            Ok((s1, text)) => if s1.len() < s.len() {
                match spec_continuation(s1) {
                    Ok((rest, more)) => Ok((rest, seq![LF] + text + more)),
                    Err(e) => Err(e),
                }
            } else {
                Err(lexical(s))
            },
            Err(e) => Err(e),
        }
    }
}

/// Reads the lines that continue a description; gives what they add to it.
pub fn continuation(input: &[u8]) -> (r: Result<(&[u8], Vec<u8>), ParseError>)
    ensures
        outcome_view(r) == spec_continuation(input@),
{
    let mut cur = input;
    let mut added: Vec<u8> = Vec::new();
    loop
        invariant
            match spec_continuation(cur@) {
                Ok((rest, more)) => spec_continuation(input@) == Ok::<_, ParseError>(
                    (rest, added@ + more),
                ),
                Err(e) => spec_continuation(input@) == Err::<(Seq<u8>, Seq<u8>), _>(e),
            },
        decreases cur@.len(),
    {
        if at_continuation_end(cur) {
            assert(added@ + Seq::<u8>::empty() =~= added@);
            return Ok((cur, added));
        }
        let (rest, text) = match continuation_line(cur) {
            Ok(v) => v,
            Err(e) => return Err(e),
        };
        proof {
            match spec_continuation(rest@) {
                Ok((_, more)) => {
                    assert(added@ + (seq![LF] + text@ + more) =~= (added@.push(LF) + text@)
                        + more);
                },
                Err(_) => {},
            }
        }
        added.push(LF);
        let mut tail = slice_to_vec(text);
        added.append(&mut tail);
        cur = rest;
    }
}

/// The date that opens a transaction: two spaces, then month and day, which
/// get the year that the statement's start implies.
pub open spec fn spec_indented_date(s: Seq<u8>, start_date: Date) -> Result<
    (Seq<u8>, Date),
    ParseError,
> {
    match spec_tag(s, "  ".spec_bytes()) {
        Ok((s1, _)) => spec_short_date(s1, start_date),
        Err(e) => Err(e),
    }
}

/// Reads the indented date that opens a transaction.
pub fn indented_date(input: &[u8], start_date: Date) -> (r: Result<(&[u8], Date), ParseError>)
    ensures
        outcome(r) == spec_indented_date(input@, start_date),
        r matches Ok((_, date)) ==> date.is_valid(),
{
    let (s1, _) = match tag(input, "  ".as_bytes()) {
        Ok(v) => v,
        Err(e) => return Err(e),
    };
    short_date(s1, start_date)
}

/// The text behind a transaction. Where further lines continued the
/// description and an empty line ended them, the empty line belongs to the
/// transaction; where the date of the next transaction ended them, or where
/// the description has one line, nothing more does.
pub open spec fn spec_entry_end(s: Seq<u8>, continued: bool) -> Seq<u8> {
    if continued {
        spec_opt_byte(s, LF)
    } else {
        s
    }
}

/// The lines that continue a description end before the date of the next
/// transaction or before an empty line.
pub proof fn lemma_continuation_stops(s: Seq<u8>)
    ensures
        spec_continuation(s) matches Ok((rest, _)) ==> continuation_ends(rest),
    decreases s.len(),
{
    if !continuation_ends(s) {
        match spec_continuation_line(s) {
            Ok((s1, _)) => {
                if s1.len() < s.len() {
                    lemma_continuation_stops(s1);
                }
            },
            Err(_) => {},
        }
    }
}

/// Where the date of the next transaction ends a description, that
/// transaction is left to be read: nothing of it belongs to the one before.
pub proof fn lemma_next_date_is_left(s: Seq<u8>, continued: bool)
    requires
        spec_indented_month_day(s) is Ok,
    ensures
        spec_entry_end(s, continued) == s,
{
    broadcast use vstd::string::is_ascii_spec_bytes;

    reveal_strlit("  ");
    assert(is_ascii("  "));
    assert("  ".spec_bytes()[0] == SPACE);
    assert(s.subrange(0, "  ".spec_bytes().len() as int)[0] == s[0]);
}

/// One transaction: its indented date, white space, the description line
/// with the amount, and the lines that continue the description up to the
/// date of the next transaction or an empty line, which are joined to the
/// description with line breaks.
pub open spec fn spec_transaction(
    s: Seq<u8>,
    start_date: Date,
    transaction_type: TransactionType,
) -> Result<(Seq<u8>, TransactionView), ParseError> {
    match spec_indented_date(s, start_date) {
        Ok((s1, date)) => match spec_spaces1(s1) {
            Ok((s2, _)) => match spec_description(s2) {
                Ok((s3, (text, amount))) => match spec_continuation(s3) {
                    Ok((s4, more)) => Ok(
                        (
                            spec_entry_end(s4, more.len() > 0),
                            TransactionView {
                                type_: transaction_type,
                                date,
                                description: text + more,
                                amount,
                            },
                        ),
                    ),
                    Err(e) => Err(e),
                },
                Err(e) => Err(e),
            },
            Err(e) => Err(e),
        },
        Err(e) => Err(e),
    }
}

/// Reads one transaction of a statement that starts on `start_date`.
pub fn transaction(input: &[u8], start_date: Date, transaction_type: TransactionType) -> (r:
    Result<(&[u8], Transaction), ParseError>)
    ensures
        outcome_view(r) == spec_transaction(input@, start_date, transaction_type),
        r matches Ok((_, entry)) ==> entry@.is_valid() && entry.type_ == transaction_type,
{
    let (s1, date) = match indented_date(input, start_date) {
        Ok(v) => v,
        Err(e) => return Err(e),
    };
    let (s2, _) = match spaces1(s1) {
        Ok(v) => v,
        Err(e) => return Err(e),
    };
    let (s3, (text, amount)) = match description(s2) {
        Ok(v) => v,
        Err(e) => return Err(e),
    };
    let (s4, mut more) = match continuation(s3) {
        Ok(v) => v,
        Err(e) => return Err(e),
    };
    let rest = if more.len() > 0 {
        opt_byte(s4, LF)
    } else {
        s4
    };
    let mut description = slice_to_vec(text);
    description.append(&mut more);
    Ok((rest, Transaction { type_: transaction_type, date, description, amount }))
}

/// As many transactions as the text holds one after another: the rest, and
/// the transactions in order.
pub open spec fn spec_transactions(
    s: Seq<u8>,
    start_date: Date,
    transaction_type: TransactionType,
) -> (Seq<u8>, Seq<TransactionView>)
    decreases s.len(),
{
    match spec_transaction(s, start_date, transaction_type) {
        Ok((rest, first)) => if rest.len() < s.len() {
            let (end, others) = spec_transactions(rest, start_date, transaction_type);
            (end, seq![first] + others)
        } else {
            (s, Seq::empty())
        },
        Err(_) => (s, Seq::empty()),
    }
}

/// The transactions that the text holds have dates that exist and are of
/// the type asked for.
pub proof fn lemma_transactions_valid(
    s: Seq<u8>,
    start_date: Date,
    transaction_type: TransactionType,
)
    ensures
        all_valid(spec_transactions(s, start_date, transaction_type).1, transaction_type),
    decreases s.len(),
{
    match spec_transaction(s, start_date, transaction_type) {
        Ok((rest, first)) => {
            if rest.len() < s.len() {
                lemma_transactions_valid(rest, start_date, transaction_type);
            }
        },
        Err(_) => {},
    }
}

/// Reads transactions until the text holds no further one.
pub fn transactions(input: &[u8], start_date: Date, transaction_type: TransactionType) -> (r: (
    &[u8],
    Vec<Transaction>,
))
    ensures
        (r.0@, views(r.1@)) == spec_transactions(input@, start_date, transaction_type),
        all_valid(views(r.1@), transaction_type),
{
    proof {
        lemma_transactions_valid(input@, start_date, transaction_type);
    }
    let mut cur = input;
    let mut list: Vec<Transaction> = Vec::new();
    let ghost whole = spec_transactions(input@, start_date, transaction_type);
    assert(views(list@) + whole.1 =~= whole.1);
    loop
        invariant
            whole == spec_transactions(input@, start_date, transaction_type),
            all_valid(whole.1, transaction_type),
            whole.0 == spec_transactions(cur@, start_date, transaction_type).0,
            whole.1 == views(list@) + spec_transactions(cur@, start_date, transaction_type).1,
        decreases cur@.len(),
    {
        match transaction(cur, start_date, transaction_type) {
            Ok((rest, item)) => {
                if rest.len() >= cur.len() {
                    assert(views(list@) + Seq::<TransactionView>::empty() =~= views(list@));
                    return (cur, list);
                }
                proof {
                    let others = spec_transactions(rest@, start_date, transaction_type).1;
                    assert(views(list@.push(item)) =~= views(list@).push(item@));
                    assert(views(list@) + (seq![item@] + others) =~= views(list@).push(item@)
                        + others);
                }
                list.push(item);
                cur = rest;
            },
            Err(_) => {
                assert(views(list@) + Seq::<TransactionView>::empty() =~= views(list@));
                return (cur, list);
            },
        }
    }
}

/// A section: the text up to and including `header`, a blank line, and any
/// number of transactions. This format declares no section totals.
pub open spec fn spec_transaction_section(
    s: Seq<u8>,
    start_date: Date,
    header: Seq<u8>,
    transaction_type: TransactionType,
) -> Result<(Seq<u8>, Seq<TransactionView>), ParseError> {
    match spec_take_until_including(s, header) {
        Ok((s1, _)) => match spec_blank_line(s1) {
            Ok((s2, _)) => Ok(spec_transactions(s2, start_date, transaction_type)),
            Err(e) => Err(e),
        },
        Err(e) => Err(e),
    }
}

/// Reads the section that `section_header` opens.
pub fn transaction_section<'a>(
    input: &'a [u8],
    start_date: Date,
    section_header: &[u8],
    transaction_type: TransactionType,
) -> (r: Result<(&'a [u8], Vec<Transaction>), ParseError>)
    ensures
        match r {
            Ok((rest, list)) => spec_transaction_section(
                input@,
                start_date,
                section_header@,
                transaction_type,
            ) == Ok::<_, ParseError>((rest@, views(list@))),
            Err(e) => spec_transaction_section(
                input@,
                start_date,
                section_header@,
                transaction_type,
            ) == Err::<(Seq<u8>, Seq<TransactionView>), _>(e),
        },
        r matches Ok((_, list)) ==> all_valid(views(list@), transaction_type),
{
    let (s1, _) = match take_until_including(input, section_header) {
        Ok(v) => v,
        Err(e) => return Err(e),
    };
    let (s2, _) = match blank_line(s1) {
        Ok(v) => v,
        Err(e) => return Err(e),
    };
    Ok(transactions(s2, start_date, transaction_type))
}

/// A balance: the text up to and including the first occurrence of `label`,
/// any white space, and the amount.
pub open spec fn spec_balance(s: Seq<u8>, label: Seq<u8>) -> Result<(Seq<u8>, i32), ParseError> {
    match spec_take_until_including(s, label) {
        Ok((s1, _)) => spec_dollar_amount(s1.skip(span(s1, CharClass::Space) as int)),
        Err(e) => Err(e),
    }
}

/// Finds `label` and reads the balance behind it.
pub fn balance<'a>(input: &'a [u8], label: &[u8]) -> (r: Result<(&'a [u8], i32), ParseError>)
    ensures
        outcome(r) == spec_balance(input@, label@),
{
    let (s1, _) = match take_until_including(input, label) {
        Ok(v) => v,
        Err(e) => return Err(e),
    };
    dollar_amount(skip_spaces(s1))
}

/// The billing cycle: the words `Opening/Closing Date` with any white space
/// around them, and the first and the last day with ` - ` between them.
pub open spec fn spec_cycle(s: Seq<u8>) -> Result<(Seq<u8>, (Date, Date)), ParseError> {
    match spec_tag(
        s.skip(span(s, CharClass::Space) as int),
        "Opening/Closing Date".spec_bytes(),
    ) {
        Ok((s1, _)) => match spec_month_day_year(s1.skip(span(s1, CharClass::Space) as int)) {
            Ok((s2, start_date)) => match spec_tag(s2, " - ".spec_bytes()) {
                Ok((s3, _)) => match spec_month_day_year(s3) {
                    Ok((rest, end_date)) => Ok((rest, (start_date, end_date))),
                    Err(e) => Err(e),
                },
                Err(e) => Err(e),
            },
            Err(e) => Err(e),
        },
        Err(e) => Err(e),
    }
}

/// Reads the billing cycle.
pub fn cycle(input: &[u8]) -> (r: Result<(&[u8], (Date, Date)), ParseError>)
    ensures
        outcome(r) == spec_cycle(input@),
        r matches Ok((_, (start_date, end_date))) ==> start_date.is_valid() && end_date.is_valid(),
{
    let (s1, _) = match tag(skip_spaces(input), "Opening/Closing Date".as_bytes()) {
        Ok(v) => v,
        Err(e) => return Err(e),
    };
    let (s2, start_date) = match month_day_year(skip_spaces(s1)) {
        Ok(v) => v,
        Err(e) => return Err(e),
    };
    let (s3, _) = match tag(s2, " - ".as_bytes()) {
        Ok(v) => v,
        Err(e) => return Err(e),
    };
    let (rest, end_date) = match month_day_year(s3) {
        Ok(v) => v,
        Err(e) => return Err(e),
    };
    Ok((rest, (start_date, end_date)))
}

/// The account number of a statement: behind `ACCOUNT SUMMARY`, the number
/// that `Account Number: ` announces.
pub open spec fn spec_account(s: Seq<u8>) -> Result<(Seq<u8>, Seq<u8>), ParseError> {
    match spec_take_until_including(s, "ACCOUNT SUMMARY".spec_bytes()) {
        Ok((s1, _)) => match spec_take_until_including(s1, "Account Number: ".spec_bytes()) {
            Ok((s2, _)) => spec_spaced_digits(s2),
            Err(e) => Err(e),
        },
        Err(e) => Err(e),
    }
}

/// Reads the account number of a statement.
pub fn account(input: &[u8]) -> (r: Result<(&[u8], Vec<u8>), ParseError>)
    ensures
        outcome_view(r) == spec_account(input@),
{
    let (s1, _) = match take_until_including(input, "ACCOUNT SUMMARY".as_bytes()) {
        Ok(v) => v,
        Err(e) => return Err(e),
    };
    let (s2, _) = match take_until_including(s1, "Account Number: ".as_bytes()) {
        Ok(v) => v,
        Err(e) => return Err(e),
    };
    match spaced_digits(s2) {
        Ok((rest, number)) => Ok((rest, slice_to_vec(number))),
        Err(e) => Err(e),
    }
}

/// The head of a statement: the account number, the previous and the new
/// balance, the billing cycle, and the text up to and including
/// `ACCOUNT ACTIVITY`.
pub open spec fn spec_summary(s: Seq<u8>) -> Result<
    (Seq<u8>, (Seq<u8>, (Date, Date), (i32, i32))),
    ParseError,
> {
    match spec_account(s) {
        Ok((s1, number)) => match spec_balance(s1, "Previous Balance".spec_bytes()) {
            Ok((s2, start_balance)) => match spec_balance(s2, "New Balance".spec_bytes()) {
                Ok((s3, end_balance)) => match spec_cycle(s3) {
                    Ok((s4, days)) => match spec_take_until_including(
                        s4,
                        "ACCOUNT ACTIVITY".spec_bytes(),
                    ) {
                        Ok((rest, _)) => Ok(
                            (rest, (number, days, (start_balance, end_balance))),
                        ),
                        Err(e) => Err(e),
                    },
                    Err(e) => Err(e),
                },
                Err(e) => Err(e),
            },
            Err(e) => Err(e),
        },
        Err(e) => Err(e),
    }
}

/// Reads the head of a statement.
pub fn summary(input: &[u8]) -> (r: Result<
    (&[u8], (Vec<u8>, (Date, Date), (i32, i32))),
    ParseError,
>)
    ensures
        match r {
            Ok((rest, (number, days, amounts))) => spec_summary(input@) == Ok::<_, ParseError>(
                (rest@, (number@, days, amounts)),
            ),
            Err(e) => spec_summary(input@) == Err::<
                (Seq<u8>, (Seq<u8>, (Date, Date), (i32, i32))),
                _,
            >(e),
        },
{
    let (s1, number) = match account(input) {
        Ok(v) => v,
        Err(e) => return Err(e),
    };
    let (s2, start_balance) = match balance(s1, "Previous Balance".as_bytes()) {
        Ok(v) => v,
        Err(e) => return Err(e),
    };
    let (s3, end_balance) = match balance(s2, "New Balance".as_bytes()) {
        Ok(v) => v,
        Err(e) => return Err(e),
    };
    let (s4, days) = match cycle(s3) {
        Ok(v) => v,
        Err(e) => return Err(e),
    };
    let (rest, _) = match take_until_including(s4, "ACCOUNT ACTIVITY".as_bytes()) {
        Ok(v) => v,
        Err(e) => return Err(e),
    };
    Ok((rest, (number, days, (start_balance, end_balance))))
}

/// The sections of a statement, in their fixed order: payments and other
/// credits, then purchases.
pub open spec fn spec_sections(s: Seq<u8>, start_date: Date) -> Result<
    (Seq<u8>, Seq<TransactionView>),
    ParseError,
> {
    match spec_transaction_section(
        s,
        start_date,
        "PAYMENTS AND OTHER CREDITS".spec_bytes(),
        TransactionType::Credit,
    ) {
        Ok((s1, credits)) => match spec_transaction_section(
            s1,
            start_date,
            "PURCHASE".spec_bytes(),
            TransactionType::Purchase,
        ) {
            Ok((rest, purchases)) => Ok((rest, credits + purchases)),
            Err(e) => Err(e),
        },
        Err(e) => Err(e),
    }
}

/// The transactions of all sections have dates that exist.
pub proof fn lemma_sections_valid(s: Seq<u8>, start_date: Date)
    ensures
        spec_sections(s, start_date) matches Ok((_, list)) ==> all_dated(list),
{
    let credits = "PAYMENTS AND OTHER CREDITS".spec_bytes();
    let purchases = "PURCHASE".spec_bytes();
    match spec_take_until_including(s, credits) {
        Ok((a, _)) => match spec_blank_line(a) {
            Ok((b, _)) => {
                lemma_transactions_valid(b, start_date, TransactionType::Credit);
                let s1 = spec_transactions(b, start_date, TransactionType::Credit).0;
                match spec_take_until_including(s1, purchases) {
                    Ok((c, _)) => match spec_blank_line(c) {
                        Ok((d, _)) => {
                            lemma_transactions_valid(d, start_date, TransactionType::Purchase);
                        },
                        Err(_) => {},
                    },
                    Err(_) => {},
                }
            },
            Err(_) => {},
        },
        Err(_) => {},
    }
}

/// The views of two lists put end to end.
pub proof fn lemma_views_concat(a: Seq<Transaction>, b: Seq<Transaction>)
    ensures
        views(a + b) =~= views(a) + views(b),
{
}

/// Reads the sections of a statement into one list.
pub fn sections(input: &[u8], start_date: Date) -> (r: Result<
    (&[u8], Vec<Transaction>),
    ParseError,
>)
    ensures
        match r {
            Ok((rest, list)) => spec_sections(input@, start_date) == Ok::<_, ParseError>(
                (rest@, views(list@)),
            ),
            Err(e) => spec_sections(input@, start_date) == Err::<
                (Seq<u8>, Seq<TransactionView>),
                _,
            >(e),
        },
        r matches Ok((_, list)) ==> all_dated(views(list@)),
{
    proof {
        lemma_sections_valid(input@, start_date);
    }
    let (s1, mut list) = match transaction_section(
        input,
        start_date,
        "PAYMENTS AND OTHER CREDITS".as_bytes(),
        TransactionType::Credit,
    ) {
        Ok(v) => v,
        Err(e) => return Err(e),
    };
    let (rest, mut purchases) = match transaction_section(
        s1,
        start_date,
        "PURCHASE".as_bytes(),
        TransactionType::Purchase,
    ) {
        Ok(v) => v,
        Err(e) => return Err(e),
    };
    proof {
        lemma_views_concat(list@, purchases@);
    }
    list.append(&mut purchases);
    Ok((rest, list))
}

/// The whole-statement check: a statement that balances is accepted as it
/// is, any other is a totals mismatch, reported with `remaining` bytes unread.
pub open spec fn spec_assemble(candidate: ChaseCreditStatementView, remaining: usize) -> Result<
    ChaseCreditStatementView,
    ParseError,
> {
    if candidate.is_balanced() {
        Ok(candidate)
    } else {
        Err(ParseError { kind: ErrorKind::TotalsMismatch, remaining })
    }
}

impl ChaseCreditStatement {
    /// Accepts the parts of a statement exactly where the ending balance is
    /// the starting balance plus all transactions plus the interest.
    pub fn assemble(candidate: ChaseCreditStatement, remaining: usize) -> (r: Result<
        ChaseCreditStatement,
        ParseError,
    >)
        ensures
            match r {
                Ok(statement) => statement == candidate && spec_assemble(candidate@, remaining)
                    == Ok::<_, ParseError>(candidate@),
                Err(e) => spec_assemble(candidate@, remaining) == Err::<
                    ChaseCreditStatementView,
                    _,
                >(e),
            },
            r is Ok <==> candidate@.is_balanced(),
    {
        let moved: i128 = candidate.end_balance as i128 - candidate.start_balance as i128;
        let listed: i128 = total_amount(&candidate.transactions)
            + candidate.total_interest as i128;
        match check_total(listed, moved, remaining) {
            Ok(_) => Ok(candidate),
            Err(e) => Err(e),
        }
    }
}

/// Of two statements with the same balances and interest that hold the same
/// amounts but for one, at most one balances: where the first is accepted,
/// the second is a totals mismatch.
pub proof fn lemma_statement_changed_amount_fails(
    statement: ChaseCreditStatementView,
    changed: ChaseCreditStatementView,
    i: int,
    remaining: usize,
)
    requires
        spec_assemble(statement, remaining) is Ok,
        changed.start_balance == statement.start_balance,
        changed.end_balance == statement.end_balance,
        changed.total_interest == statement.total_interest,
        changed.transactions.len() == statement.transactions.len(),
        0 <= i < statement.transactions.len(),
        changed.transactions[i].amount != statement.transactions[i].amount,
        forall|j: int|
            0 <= j < statement.transactions.len() && j != i ==> changed.transactions[j].amount
                == statement.transactions[j].amount,
    ensures
        spec_assemble(changed, remaining) == Err::<ChaseCreditStatementView, _>(
            ParseError { kind: ErrorKind::TotalsMismatch, remaining },
        ),
{
    let before = amounts(statement.transactions);
    let after = amounts(changed.transactions);
    assert(after =~= before.update(i, changed.transactions[i].amount as int));
    lemma_changed_amount_breaks_balance(
        statement.start_balance as int,
        statement.end_balance as int,
        before,
        statement.total_interest as int,
        i,
        changed.transactions[i].amount - statement.transactions[i].amount,
    );
}

/// What a statement is made of: its head and its sections. Gives the
/// statement as it stands in the text, unchecked. The text names no
/// interest, which counts as zero.
pub open spec fn spec_statement_parts(s: Seq<u8>) -> Result<
    (Seq<u8>, ChaseCreditStatementView),
    ParseError,
> {
    match spec_summary(s) {
        Ok((s1, (number, (start_date, end_date), (start_balance, end_balance)))) => match spec_sections(
            s1,
            start_date,
        ) {
            Ok((rest, list)) => Ok(
                (
                    rest,
                    ChaseCreditStatementView {
                        account_number: number,
                        start_date,
                        end_date,
                        start_balance,
                        end_balance,
                        transactions: list,
                        total_interest: 0,
                    },
                ),
            ),
            Err(e) => Err(e),
        },
        Err(e) => Err(e),
    }
}

/// A whole statement: its parts, and the check that the statement balances.
pub open spec fn spec_parse_statement(s: Seq<u8>) -> Result<
    (Seq<u8>, ChaseCreditStatementView),
    ParseError,
> {
    match spec_statement_parts(s) {
        Ok((rest, candidate)) => match spec_assemble(candidate, rest.len() as usize) {
            Ok(statement) => Ok((rest, statement)),
            Err(e) => Err(e),
        },
        Err(e) => Err(e),
    }
}

/// A statement whose parts can be read is accepted, as it stands in the
/// text, exactly where its ending balance is its starting balance plus all
/// its transactions; where not, it is a totals mismatch.
pub proof fn lemma_balance_decides(s: Seq<u8>)
    requires
        spec_statement_parts(s) is Ok,
    ensures
        ({
            let (rest, candidate) = spec_statement_parts(s)->Ok_0;
            if candidate.end_balance - candidate.start_balance == sum(
                amounts(candidate.transactions),
            ) + candidate.total_interest {
                spec_parse_statement(s) == Ok::<_, ParseError>((rest, candidate))
            } else {
                spec_parse_statement(s) == Err::<(Seq<u8>, ChaseCreditStatementView), _>(
                    fail_at(ErrorKind::TotalsMismatch, rest),
                )
            }
        }),
{
}

/// Every statement that is accepted is valid.
pub proof fn lemma_statement_valid(s: Seq<u8>)
    ensures
        spec_parse_statement(s) matches Ok((_, statement)) ==> statement.is_valid(),
{
    match spec_summary(s) {
        Ok((s1, (_, (start_date, _), _))) => {
            lemma_sections_valid(s1, start_date);
        },
        Err(_) => {},
    }
}

/// Reads a whole statement. What is returned is valid: above all, it balances.
pub fn parse_statement(input: &[u8]) -> (r: Result<(&[u8], ChaseCreditStatement), ParseError>)
    ensures
        outcome_view(r) == spec_parse_statement(input@),
        r matches Ok((_, statement)) ==> statement@.is_valid(),
{
    proof {
        lemma_statement_valid(input@);
    }
    let (s1, (number, (start_date, end_date), (start_balance, end_balance))) = match summary(
        input,
    ) {
        Ok(v) => v,
        Err(e) => return Err(e),
    };
    let (rest, list) = match sections(s1, start_date) {
        Ok(v) => v,
        Err(e) => return Err(e),
    };
    let candidate = ChaseCreditStatement {
        account_number: number,
        start_date,
        end_date,
        start_balance,
        end_balance,
        transactions: list,
        total_interest: 0,
    };
    match ChaseCreditStatement::assemble(candidate, rest.len()) {
        Ok(statement) => Ok((rest, statement)),
        Err(e) => Err(e),
    }
}

impl StatementFormat for ChaseCreditStatement {
    open spec fn spec_parse(text: Seq<u8>) -> Result<ChaseCreditStatementView, ParseError> {
        match spec_parse_statement(text) {
            Ok((_, statement)) => Ok(statement),
            Err(e) => Err(e),
        }
    }

    fn parse(text: &[u8]) -> (r: Result<Self, ParseError>) {
        match parse_statement(text) {
            Ok((_, statement)) => Ok(statement),
            Err(e) => Err(e),
        }
    }
}

} // verus!
