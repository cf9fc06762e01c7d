//! Credit card statements written out from their records, and the law that
//! the grammar reads back what was written.

use vstd::prelude::*;
use vstd::string::*;
use crate::bank_of_america_credit_statement::{
    amounts, lemma_statement_is_as_read, lemma_statement_valid, lemma_summary_of_text,
    reference_offset, spec_account_number, spec_description, spec_labelled_amount,
    spec_parse_statement, spec_period, spec_reference, spec_section_parts, spec_sections,
    spec_summary, spec_transaction, spec_transaction_section, spec_transactions,
    BankOfAmericaCreditStatementView, TransactionType, TransactionView,
};
use crate::canonical::{
    all_in, canonical_amount, day_in_words_then, decimal, is_plain, lemma_amount_before,
    lemma_canonical_amount_start, lemma_canonical_amount_then, lemma_day_in_words_reads,
    lemma_day_in_words_reads_as, lemma_decimal_value, lemma_digits_span, lemma_found_at_start,
    lemma_found_on_next_line, lemma_month_name, lemma_one_space, lemma_plain_then_letter,
    lemma_run_before, lemma_short_date_reads, lemma_signed_reads_decimal, lemma_signed_reads_digits,
    month_name, no_digit_first, none_first, short_date_then,
};
use crate::common_parsers::{inferred_year, spec_dollar_amount, spec_month_word_day};
use crate::date::{month_of_name, Date};
use crate::error::{fail_at, ErrorKind, ParseError};
use crate::scan::{
    all_digits, digits_value, lemma_span_is, span, spec_blank_line, spec_signed, CharClass, LF,
    SPACE,
};
use crate::totals::{lemma_sum_update, sum};

verus! {

/// Account digits that can close a description: there are some, and they
/// begin with no white space.
pub open spec fn is_account(account: Seq<u8>) -> bool {
    account.len() > 0 && !CharClass::Space.accepts(account[0])
}

/// A transaction that can be written out for a statement that starts on
/// `start_date`: its dates exist and lie in the year that the start implies
/// for their month, its description is plain, its reference number is made
/// of digits, and its amount has a magnitude that fits.
pub open spec fn is_writable(t: TransactionView, start_date: Date) -> bool {
    &&& t.date.is_valid()
    &&& t.date.year == inferred_year(t.date.month, start_date)
    &&& t.posting_date.is_valid()
    &&& t.posting_date.year == inferred_year(t.posting_date.month, start_date)
    &&& is_plain(t.description)
    &&& t.reference_number.len() > 0
    &&& all_digits(t.reference_number)
    &&& is_account(t.account_number)
    &&& t.amount > i32::MIN
}

/// What closes a description, and the amount, before the text `rest`: the
/// reference number, the account digits and the amount in canonical form,
/// a space before each, and a blank line.
pub open spec fn close_then(t: TransactionView, rest: Seq<u8>) -> Seq<u8> {
    seq![SPACE] + (t.reference_number + (seq![SPACE] + (t.account_number + (seq![SPACE] + (
    canonical_amount(t.amount as int) + (seq![LF, LF] + rest))))))
}

/// A transaction written out before the text `rest`: the two dates without
/// their years, the description, and what closes it.
pub open spec fn transaction_then(t: TransactionView, rest: Seq<u8>) -> Seq<u8> {
    short_date_then(
        t.date,
        seq![SPACE] + short_date_then(
            t.posting_date,
            seq![SPACE] + (t.description + close_then(t, rest)),
        ),
    )
}

/// Where a description's close stands at `k` and at no place from `i` up to
/// `k`, the offset found from `i` on is `k`.
pub proof fn lemma_reference_offset_is(s: Seq<u8>, account: Seq<u8>, i: int, k: int)
    requires
        0 <= i <= k <= s.len(),
        spec_reference(s.skip(k), account) is Ok,
        forall|j: int| i <= j < k ==> spec_reference(#[trigger] s.skip(j), account) is Err,
    ensures
        reference_offset(s, account, i) == Some(k),
    decreases k - i,
{
    if i < k {
        lemma_reference_offset_is(s, account, i + 1, k);
    }
}

/// A plain description, written before its close, reads back as it was
/// written, with the reference number.
pub proof fn lemma_description_reads(t: TransactionView, start_date: Date, rest: Seq<u8>)
    requires
        is_writable(t, start_date),
    ensures
        spec_description(t.description + close_then(t, rest), t.account_number) == Ok::<
            _,
            ParseError,
        >(
            (
                seq![SPACE] + (canonical_amount(t.amount as int) + (seq![LF, LF] + rest)),
                (t.description, t.reference_number),
            ),
        ),
{
    let amount = seq![SPACE] + (canonical_amount(t.amount as int) + (seq![LF, LF] + rest));
    let account = t.account_number + amount;
    let number = t.reference_number + (seq![SPACE] + account);
    let tail = seq![SPACE] + number;
    assert(tail == close_then(t, rest));
    let s = t.description + tail;
    let k = t.description.len() as int;
    assert forall|j: int| 0 <= j < k implies spec_reference(
        #[trigger] s.skip(j),
        t.account_number,
    ) is Err by {
        lemma_plain_then_letter(t.description, tail, j);
        let u = s.skip(j);
        lemma_span_is(u.skip(span(u, CharClass::Space) as int), CharClass::Digit, 0);
    }
    assert(s.skip(k) =~= tail);
    assert(s.take(k) =~= t.description);
    assert(number[0] == t.reference_number[0]);
    lemma_one_space(SPACE, number);
    lemma_digits_span(t.reference_number, seq![SPACE] + account);
    assert(account[0] == t.account_number[0]);
    lemma_one_space(SPACE, account);
    assert(t.account_number =~= account.subrange(0, t.account_number.len() as int));
    assert(account.skip(t.account_number.len() as int) =~= amount);
    lemma_reference_offset_is(s, t.account_number, 0, k);
}

/// A writable transaction reads back as it was written.
pub proof fn lemma_transaction_reads(t: TransactionView, start_date: Date, rest: Seq<u8>)
    requires
        is_writable(t, start_date),
    ensures
        spec_transaction(transaction_then(t, rest), start_date, t.account_number, t.type_) == Ok::<
            _,
            ParseError,
        >((rest, t)),
{
    let end = seq![LF, LF] + rest;
    let amount = canonical_amount(t.amount as int) + end;
    let line = t.description + close_then(t, rest);
    let posted = short_date_then(t.posting_date, seq![SPACE] + line);
    lemma_short_date_reads(t.date, start_date, seq![SPACE] + posted);
    lemma_decimal_value(t.posting_date.month as nat);
    assert(posted[0] == decimal(t.posting_date.month as nat)[0]);
    lemma_one_space(SPACE, posted);
    lemma_short_date_reads(t.posting_date, start_date, seq![SPACE] + line);
    assert(line[0] == t.description[0]);
    lemma_one_space(SPACE, line);
    lemma_description_reads(t, start_date, rest);
    lemma_canonical_amount_start(t.amount as int, end);
    lemma_one_space(SPACE, amount);
    lemma_canonical_amount_then(t.amount as int, end);
    assert(end.skip(2) =~= rest);
}

/// Transactions written one after another, before the text `rest`.
pub open spec fn transactions_then(list: Seq<TransactionView>, rest: Seq<u8>) -> Seq<u8>
    decreases list.len(),
{
    if list.len() == 0 {
        rest
    } else {
        transaction_then(list[0], transactions_then(list.skip(1), rest))
    }
}

/// Every transaction of the list can be written out, carries the account
/// digits `account`, and is of the type `transaction_type`.
pub open spec fn all_writable(
    list: Seq<TransactionView>,
    start_date: Date,
    account: Seq<u8>,
    transaction_type: TransactionType,
) -> bool {
    forall|i: int|
        0 <= i < list.len() ==> is_writable(#[trigger] list[i], start_date)
            && list[i].account_number == account && list[i].type_ == transaction_type
}

/// A transaction that is written out takes up room.
proof fn lemma_transaction_longer(t: TransactionView, rest: Seq<u8>)
    ensures
        transaction_then(t, rest).len() > rest.len(),
{
}

/// Where all transactions of a list are writable, so are all but the first.
proof fn lemma_all_writable_skip(
    list: Seq<TransactionView>,
    start_date: Date,
    account: Seq<u8>,
    transaction_type: TransactionType,
)
    requires
        all_writable(list, start_date, account, transaction_type),
        list.len() > 0,
    ensures
        all_writable(list.skip(1), start_date, account, transaction_type),
        is_writable(list[0], start_date),
        list[0].account_number == account,
        list[0].type_ == transaction_type,
{
    assert forall|i: int| 0 <= i < list.skip(1).len() implies is_writable(
        #[trigger] list.skip(1)[i],
        start_date,
    ) && list.skip(1)[i].account_number == account && list.skip(1)[i].type_
        == transaction_type by {
        assert(list.skip(1)[i] == list[i + 1]);
    }
}

/// Writable transactions that are written before a text that begins with no
/// digit read back as they were written, all of them and in their order.
#[verifier::spinoff_prover]
#[verifier::rlimit(30)]
pub proof fn lemma_transactions_read(
    list: Seq<TransactionView>,
    start_date: Date,
    account: Seq<u8>,
    transaction_type: TransactionType,
    rest: Seq<u8>,
)
    requires
        all_writable(list, start_date, account, transaction_type),
        no_digit_first(rest),
    ensures
        spec_transactions(
            transactions_then(list, rest),
            start_date,
            account,
            transaction_type,
        ) == (rest, list),
    decreases list.len(),
{
    if list.len() == 0 {
        lemma_span_is(rest, CharClass::Digit, 0);
        assert(list =~= Seq::<TransactionView>::empty());
    } else {
        let tail = transactions_then(list.skip(1), rest);
        lemma_all_writable_skip(list, start_date, account, transaction_type);
        lemma_transactions_read(list.skip(1), start_date, account, transaction_type, rest);
        lemma_transaction_reads(list[0], start_date, tail);
        lemma_transaction_longer(list[0], tail);
        assert(seq![list[0]] + list.skip(1) =~= list);
    }
}

/// A section written out: the header, the transactions, and the words
/// `FOR THIS PERIOD` with the declared total in canonical form and a blank
/// line, before the text `rest`.
pub open spec fn section_then(
    header: Seq<u8>,
    list: Seq<TransactionView>,
    declared: i32,
    rest: Seq<u8>,
) -> Seq<u8> {
    header + transactions_then(
        list,
        "FOR THIS PERIOD".spec_bytes() + (seq![SPACE] + (canonical_amount(declared as int) + (
        seq![LF, LF] + rest))),
    )
}

/// The words that announce a total begin with a letter.
proof fn lemma_label(rest: Seq<u8>)
    ensures
        no_digit_first("FOR THIS PERIOD".spec_bytes() + rest),
{
    broadcast use vstd::string::is_ascii_spec_bytes;

    reveal_strlit("FOR THIS PERIOD");
    let label = "FOR THIS PERIOD";
    assert(is_ascii(label));
    assert(label.spec_bytes()[0] == 70);
    assert((label.spec_bytes() + rest)[0] == label.spec_bytes()[0]);
}

/// The words that announce a total, the declared total in canonical form
/// and a blank line read as the declared total.
proof fn lemma_declared_total_reads(declared: i32, rest: Seq<u8>)
    requires
        declared > i32::MIN,
    ensures
        spec_labelled_amount(
            "FOR THIS PERIOD".spec_bytes() + (seq![SPACE] + (canonical_amount(declared as int) + (
            seq![LF, LF] + rest))),
            "FOR THIS PERIOD".spec_bytes(),
        ) == Ok::<_, ParseError>((seq![LF, LF] + rest, declared)),
        spec_blank_line(seq![LF, LF] + rest) == Ok::<_, ParseError>((rest, ())),
{
    let end = seq![LF, LF] + rest;
    let total = canonical_amount(declared as int) + end;
    lemma_found_at_start("FOR THIS PERIOD".spec_bytes(), seq![SPACE] + total);
    lemma_canonical_amount_start(declared as int, end);
    lemma_one_space(SPACE, total);
    lemma_canonical_amount_then(declared as int, end);
    assert(end.skip(2) =~= rest);
}

/// A section that is written out from writable transactions, or from none,
/// and a declared total reads back as those transactions, in their order,
/// and that total.
pub proof fn lemma_section_parts_read(
    header: Seq<u8>,
    list: Seq<TransactionView>,
    declared: i32,
    start_date: Date,
    account: Seq<u8>,
    transaction_type: TransactionType,
    rest: Seq<u8>,
)
    requires
        all_writable(list, start_date, account, transaction_type),
        declared > i32::MIN,
    ensures
        spec_section_parts(
            section_then(header, list, declared, rest),
            start_date,
            account,
            header,
            transaction_type,
        ) == Ok::<_, ParseError>((rest, (list, declared))),
{
    let line = "FOR THIS PERIOD".spec_bytes() + (seq![SPACE] + (canonical_amount(declared as int)
        + (seq![LF, LF] + rest)));
    let lines = transactions_then(list, line);
    lemma_found_at_start(header, lines);
    lemma_label(seq![SPACE] + (canonical_amount(declared as int) + (seq![LF, LF] + rest)));
    lemma_transactions_read(list, start_date, account, transaction_type, line);
    lemma_declared_total_reads(declared, rest);
}

/// A section that is written out from writable transactions, or from none,
/// and a declared total reads back exactly those transactions, in their
/// order, where their amounts add up to the declared total, and is a totals
/// mismatch where they do not.
pub proof fn lemma_section_reads(
    header: Seq<u8>,
    list: Seq<TransactionView>,
    declared: i32,
    start_date: Date,
    account: Seq<u8>,
    transaction_type: TransactionType,
    rest: Seq<u8>,
)
    requires
        all_writable(list, start_date, account, transaction_type),
        declared > i32::MIN,
    ensures
        spec_transaction_section(
            section_then(header, list, declared, rest),
            start_date,
            account,
            header,
            transaction_type,
        ) == if sum(amounts(list)) == declared {
            Ok::<_, ParseError>((rest, list))
        } else {
            Err::<(Seq<u8>, Seq<TransactionView>), _>(fail_at(ErrorKind::TotalsMismatch, rest))
        },
{
    lemma_section_parts_read(header, list, declared, start_date, account, transaction_type, rest);
}

/// Of two written sections that declare the same total and hold the same
/// amounts but for one, at most one is accepted: where the amounts of the
/// first add up to the declared total, the second is a totals mismatch.
pub proof fn lemma_changed_section_fails(
    header: Seq<u8>,
    list: Seq<TransactionView>,
    changed: Seq<TransactionView>,
    declared: i32,
    start_date: Date,
    account: Seq<u8>,
    transaction_type: TransactionType,
    rest: Seq<u8>,
    i: int,
)
    requires
        sum(amounts(list)) == declared,
        declared > i32::MIN,
        all_writable(changed, start_date, account, transaction_type),
        changed.len() == list.len(),
        0 <= i < list.len(),
        changed[i].amount != list[i].amount,
        forall|j: int| 0 <= j < list.len() && j != i ==> changed[j].amount == list[j].amount,
    ensures
        spec_transaction_section(
            section_then(header, changed, declared, rest),
            start_date,
            account,
            header,
            transaction_type,
        ) == Err::<(Seq<u8>, Seq<TransactionView>), _>(fail_at(ErrorKind::TotalsMismatch, rest)),
{
    assert(amounts(changed) =~= amounts(list).update(i, changed[i].amount as int));
    lemma_sum_update(amounts(list), i, changed[i].amount as int);
    lemma_section_reads(header, changed, declared, start_date, account, transaction_type, rest);
}

/// The phrases of the grammar begin as they are spelled: the labels with a
/// capital letter, the separators of a period with a space or a comma.
proof fn lemma_phrases()
    ensures
        "Account# ".spec_bytes().len() > 0,
        "Previous Balance ".spec_bytes().len() > 0,
        "Previous Balance ".spec_bytes()[0] == 80,
        "New Balance Total ".spec_bytes().len() > 0,
        "New Balance Total ".spec_bytes()[0] == 78,
        "Payments and Other Credits\n\n".spec_bytes().len() > 0,
        "Payments and Other Credits\n\n".spec_bytes()[0] == 80,
        "Fees\n\n".spec_bytes().len() > 0,
        "Fees\n\n".spec_bytes()[0] == 70,
        "TOTAL INTEREST CHARGED FOR THIS PERIOD".spec_bytes().len() > 0,
        "TOTAL INTEREST CHARGED FOR THIS PERIOD".spec_bytes()[0] == 84,
        " - ".spec_bytes().len() > 0,
        " - ".spec_bytes()[0] == SPACE,
        ", ".spec_bytes().len() > 0,
        ", ".spec_bytes()[0] == 44,
{
    broadcast use vstd::string::is_ascii_spec_bytes;

    reveal_strlit("Account# ");
    reveal_strlit("Previous Balance ");
    reveal_strlit("New Balance Total ");
    reveal_strlit("Payments and Other Credits\n\n");
    reveal_strlit("Fees\n\n");
    reveal_strlit("TOTAL INTEREST CHARGED FOR THIS PERIOD");
    reveal_strlit(" - ");
    reveal_strlit(", ");
    assert(is_ascii("Account# ") && is_ascii("Previous Balance ") && is_ascii(
        "New Balance Total ",
    ));
    assert(is_ascii("Payments and Other Credits\n\n") && is_ascii("Fees\n\n"));
    assert(is_ascii("TOTAL INTEREST CHARGED FOR THIS PERIOD"));
    assert(is_ascii(" - ") && is_ascii(", "));
}

/// The period of a statement written out on a line of its own, before the
/// text `rest`: `month day - month day, year`.
pub open spec fn period_then(start_date: Date, end_date: Date, rest: Seq<u8>) -> Seq<u8> {
    day_in_words_then(
        start_date.month,
        start_date.day,
        " - ".spec_bytes() + day_in_words_then(
            end_date.month,
            end_date.day,
            ", ".spec_bytes() + (decimal(end_date.year as nat) + (seq![LF] + rest)),
        ),
    )
}

/// A period that can be written out: both days exist, the year of the end
/// is not negative, and the start lies in the same year, or in the year
/// before where its month comes later in the calendar than the end's.
pub open spec fn is_period(start_date: Date, end_date: Date) -> bool {
    &&& start_date.is_valid()
    &&& end_date.is_valid()
    &&& end_date.year >= 0
    &&& start_date.year == if start_date.month > end_date.month {
        end_date.year - 1
    } else {
        end_date.year as int
    }
}

/// A period that is written out reads back as its two days.
pub proof fn lemma_period_reads(start_date: Date, end_date: Date, rest: Seq<u8>)
    requires
        is_period(start_date, end_date),
        rest.len() > 0,
        !CharClass::Space.accepts(rest[0]),
    ensures
        spec_period(period_then(start_date, end_date, rest)) == Ok::<_, ParseError>(
            (rest, (start_date, end_date)),
        ),
{
    lemma_phrases();
    let line_end = seq![LF] + rest;
    let year = decimal(end_date.year as nat) + line_end;
    let comma = ", ".spec_bytes() + year;
    let end = day_in_words_then(end_date.month, end_date.day, comma);
    let dash = " - ".spec_bytes() + end;
    assert(dash[0] == " - ".spec_bytes()[0]);
    lemma_day_in_words_reads(start_date.month, start_date.day, dash);
    lemma_found_at_start(" - ".spec_bytes(), end);
    assert(comma[0] == ", ".spec_bytes()[0]);
    lemma_day_in_words_reads(end_date.month, end_date.day, comma);
    lemma_found_at_start(", ".spec_bytes(), year);
    lemma_signed_reads_decimal(end_date.year as nat, line_end);
    lemma_one_space(LF, rest);
}

/// An account number that can be written out: digits and spaces, at least
/// four of them, the fourth from the end a digit.
pub open spec fn is_account_number(number: Seq<u8>) -> bool {
    &&& number.len() >= 4
    &&& forall|i: int| 0 <= i < number.len() ==> CharClass::DigitOrSpace.accepts(#[trigger] number[i])
    &&& is_account(number.skip(number.len() - 4))
}

/// The head of a statement written out before the text `rest`: the account
/// number, the period, and the two balances, each on a line of its own.
pub open spec fn summary_then(
    number: Seq<u8>,
    start_date: Date,
    end_date: Date,
    start_balance: i32,
    end_balance: i32,
    rest: Seq<u8>,
) -> Seq<u8> {
    "Account# ".spec_bytes() + (number + (seq![LF] + period_then(
        start_date,
        end_date,
        "Previous Balance ".spec_bytes() + (canonical_amount(start_balance as int) + (seq![LF] + (
        "New Balance Total ".spec_bytes() + (canonical_amount(end_balance as int) + rest)))),
    )))
}

/// The head of a statement that is written out reads back as it was
/// written.
pub proof fn lemma_summary_reads(
    number: Seq<u8>,
    start_date: Date,
    end_date: Date,
    start_balance: i32,
    end_balance: i32,
    rest: Seq<u8>,
)
    requires
        is_account_number(number),
        is_period(start_date, end_date),
        start_balance > i32::MIN,
        end_balance > i32::MIN,
        no_digit_first(rest),
    ensures
        spec_summary(
            summary_then(number, start_date, end_date, start_balance, end_balance, rest),
        ) == Ok::<_, ParseError>(
            (rest, (number, (start_date, end_date), (start_balance, end_balance))),
        ),
{
    lemma_phrases();
    let after = canonical_amount(end_balance as int) + rest;
    let second = "New Balance Total ".spec_bytes() + after;
    let before = canonical_amount(start_balance as int) + (seq![LF] + second);
    let first = "Previous Balance ".spec_bytes() + before;
    let period = period_then(start_date, end_date, first);
    let line = number + (seq![LF] + period);
    lemma_found_at_start("Account# ".spec_bytes(), line);
    // the account number is the run of digits and spaces before the line break
    assert forall|j: int| 0 <= j < number.len() implies CharClass::DigitOrSpace.accepts(
        #[trigger] line[j],
    ) by {
        assert(line[j] == number[j]);
    }
    assert(line[number.len() as int] == LF);
    lemma_span_is(line, CharClass::DigitOrSpace, number.len());
    assert(line.take(number.len() as int) =~= number);
    assert(line.skip(number.len() as int) =~= seq![LF] + period);
    // the period
    lemma_month_name(start_date.month);
    assert(period[0] == month_name(start_date.month)[0]);
    lemma_one_space(LF, period);
    assert(first[0] == "Previous Balance ".spec_bytes()[0]);
    lemma_period_reads(start_date, end_date, first);
    // the balances
    lemma_found_at_start("Previous Balance ".spec_bytes(), before);
    lemma_canonical_amount_then(start_balance as int, seq![LF] + second);
    lemma_found_on_next_line("New Balance Total ".spec_bytes(), after);
    lemma_canonical_amount_then(end_balance as int, rest);
}

/// The total of a list of transactions can be declared: its magnitude fits.
pub open spec fn total_fits(list: Seq<TransactionView>) -> bool {
    -i32::MAX <= sum(amounts(list)) <= i32::MAX
}

/// The sections of a statement written out before the text `rest`, each
/// with the total of its transactions: credits, purchases, and fees where
/// the statement has a section of them. A section may hold no transaction.
pub open spec fn sections_then(
    credits: Seq<TransactionView>,
    purchases: Seq<TransactionView>,
    fees: Option<Seq<TransactionView>>,
    rest: Seq<u8>,
) -> Seq<u8> {
    section_then(
        "Payments and Other Credits\n\n".spec_bytes(),
        credits,
        sum(amounts(credits)) as i32,
        section_then(
            "Purchases and Adjustments\n\n".spec_bytes(),
            purchases,
            sum(amounts(purchases)) as i32,
            match fees {
                Some(list) => section_then(
                    "Fees\n\n".spec_bytes(),
                    list,
                    sum(amounts(list)) as i32,
                    rest,
                ),
                None => rest,
            },
        ),
    )
}

/// The transactions of the sections, one list after the other.
pub open spec fn all_transactions(
    credits: Seq<TransactionView>,
    purchases: Seq<TransactionView>,
    fees: Option<Seq<TransactionView>>,
) -> Seq<TransactionView> {
    match fees {
        Some(list) => credits + purchases + list,
        None => credits + purchases,
    }
}

/// Sections that can be written out for the account number `number`: every
/// transaction is writable and carries the last four bytes of the account
/// number, and the totals of the sections fit.
pub open spec fn are_sections(
    credits: Seq<TransactionView>,
    purchases: Seq<TransactionView>,
    fees: Option<Seq<TransactionView>>,
    start_date: Date,
    number: Seq<u8>,
) -> bool {
    let account = number.skip(number.len() - 4);
    &&& number.len() >= 4
    &&& all_writable(credits, start_date, account, TransactionType::Credit)
    &&& all_writable(purchases, start_date, account, TransactionType::Purchase)
    &&& total_fits(credits)
    &&& total_fits(purchases)
    &&& fees matches Some(list) ==> all_writable(list, start_date, account, TransactionType::Fee)
        && total_fits(list)
}

/// A section that is written out with the total of its transactions reads
/// back as those transactions.
proof fn lemma_totalled_section_reads(
    header: Seq<u8>,
    list: Seq<TransactionView>,
    start_date: Date,
    account: Seq<u8>,
    transaction_type: TransactionType,
    rest: Seq<u8>,
)
    requires
        all_writable(list, start_date, account, transaction_type),
        total_fits(list),
    ensures
        spec_transaction_section(
            section_then(header, list, sum(amounts(list)) as i32, rest),
            start_date,
            account,
            header,
            transaction_type,
        ) == Ok::<_, ParseError>((rest, list)),
        header.is_prefix_of(section_then(header, list, sum(amounts(list)) as i32, rest)),
{
    let declared = sum(amounts(list)) as i32;
    let lines = transactions_then(
        list,
        "FOR THIS PERIOD".spec_bytes() + (seq![SPACE] + (canonical_amount(declared as int) + (
        seq![LF, LF] + rest))),
    );
    assert(section_then(header, list, declared, rest) == header + lines);
    lemma_found_at_start(header, lines);
    lemma_section_reads(header, list, declared, start_date, account, transaction_type, rest);
}

/// A section reads the same on the line after a line break as on the line
/// it begins, unless its header begins with a line break.
proof fn lemma_section_on_next_line(
    section: Seq<u8>,
    start_date: Date,
    account: Seq<u8>,
    header: Seq<u8>,
    transaction_type: TransactionType,
)
    requires
        header.len() > 0,
        header[0] != LF,
        header.is_prefix_of(section),
    ensures
        spec_transaction_section(
            seq![LF] + section,
            start_date,
            account,
            header,
            transaction_type,
        ) == spec_transaction_section(section, start_date, account, header, transaction_type),
{
    let rest = section.skip(header.len() as int);
    assert(section =~= header + rest);
    lemma_found_at_start(header, rest);
    lemma_found_on_next_line(header, rest);
}

/// Sections that are written out on the line after a line break read back
/// as their transactions, one section after the other.
pub proof fn lemma_sections_read(
    credits: Seq<TransactionView>,
    purchases: Seq<TransactionView>,
    fees: Option<Seq<TransactionView>>,
    start_date: Date,
    number: Seq<u8>,
    rest: Seq<u8>,
)
    requires
        are_sections(credits, purchases, fees, start_date, number),
        fees is None ==> !"Fees\n\n".spec_bytes().is_prefix_of(rest),
    ensures
        spec_sections(
            seq![LF] + sections_then(credits, purchases, fees, rest),
            start_date,
            number,
        ) == Ok::<_, ParseError>((rest, all_transactions(credits, purchases, fees))),
{
    lemma_phrases();
    let account = number.skip(number.len() - 4);
    let first = "Payments and Other Credits\n\n".spec_bytes();
    let second = "Purchases and Adjustments\n\n".spec_bytes();
    let third = "Fees\n\n".spec_bytes();
    let last = match fees {
        Some(list) => section_then(third, list, sum(amounts(list)) as i32, rest),
        None => rest,
    };
    let middle = section_then(second, purchases, sum(amounts(purchases)) as i32, last);
    let whole = section_then(first, credits, sum(amounts(credits)) as i32, middle);
    assert(whole == sections_then(credits, purchases, fees, rest));
    match fees {
        Some(list) => {
            lemma_totalled_section_reads(third, list, start_date, account, TransactionType::Fee, rest);
        },
        None => {},
    }
    lemma_totalled_section_reads(
        second,
        purchases,
        start_date,
        account,
        TransactionType::Purchase,
        last,
    );
    lemma_totalled_section_reads(
        first,
        credits,
        start_date,
        account,
        TransactionType::Credit,
        middle,
    );
    lemma_section_on_next_line(whole, start_date, account, first, TransactionType::Credit);
    assert(spec_transaction_section(
        seq![LF] + whole,
        start_date,
        account,
        first,
        TransactionType::Credit,
    ) == Ok::<_, ParseError>((middle, credits)));
    assert(spec_transaction_section(
        middle,
        start_date,
        account,
        second,
        TransactionType::Purchase,
    ) == Ok::<_, ParseError>((last, purchases)));
}

/// A statement written out before the text `rest`: its head, its sections,
/// and the interest charged.
pub open spec fn statement_then(
    statement: BankOfAmericaCreditStatementView,
    credits: Seq<TransactionView>,
    purchases: Seq<TransactionView>,
    fees: Option<Seq<TransactionView>>,
    rest: Seq<u8>,
) -> Seq<u8> {
    summary_then(
        statement.account_number,
        statement.start_date,
        statement.end_date,
        statement.start_balance,
        statement.end_balance,
        seq![LF] + sections_then(
            credits,
            purchases,
            fees,
            "TOTAL INTEREST CHARGED FOR THIS PERIOD".spec_bytes() + (seq![SPACE] + (
            canonical_amount(statement.total_interest as int) + rest)),
        ),
    )
}

/// A statement that can be written out section by section: its
/// transactions are those of its sections in their order, and all its
/// parts can be written out.
pub open spec fn is_writable_statement(
    statement: BankOfAmericaCreditStatementView,
    credits: Seq<TransactionView>,
    purchases: Seq<TransactionView>,
    fees: Option<Seq<TransactionView>>,
) -> bool {
    &&& statement.transactions == all_transactions(credits, purchases, fees)
    &&& is_account_number(statement.account_number)
    &&& is_period(statement.start_date, statement.end_date)
    &&& statement.start_balance > i32::MIN
    &&& statement.end_balance > i32::MIN
    &&& statement.total_interest > i32::MIN
    &&& are_sections(credits, purchases, fees, statement.start_date, statement.account_number)
}

/// A writable statement that is written out reads back as that statement
/// exactly where its ending balance is its starting balance plus all its
/// transactions plus the interest; where not, it is a totals mismatch.
pub proof fn lemma_statement_reads(
    statement: BankOfAmericaCreditStatementView,
    credits: Seq<TransactionView>,
    purchases: Seq<TransactionView>,
    fees: Option<Seq<TransactionView>>,
    rest: Seq<u8>,
)
    requires
        is_writable_statement(statement, credits, purchases, fees),
        no_digit_first(rest),
    ensures
        spec_parse_statement(statement_then(statement, credits, purchases, fees, rest))
            == if statement.end_balance - statement.start_balance == sum(
            amounts(statement.transactions),
        ) + statement.total_interest {
            Ok::<_, ParseError>((rest, statement))
        } else {
            Err::<(Seq<u8>, BankOfAmericaCreditStatementView), _>(
                fail_at(ErrorKind::TotalsMismatch, rest),
            )
        },
{
    lemma_phrases();
    let label = "TOTAL INTEREST CHARGED FOR THIS PERIOD".spec_bytes();
    let amount = canonical_amount(statement.total_interest as int) + rest;
    let interest = label + (seq![SPACE] + amount);
    let sections = seq![LF] + sections_then(credits, purchases, fees, interest);
    assert(sections[0] == LF);
    lemma_summary_reads(
        statement.account_number,
        statement.start_date,
        statement.end_date,
        statement.start_balance,
        statement.end_balance,
        sections,
    );
    assert(!"Fees\n\n".spec_bytes().is_prefix_of(interest)) by {
        if "Fees\n\n".spec_bytes().is_prefix_of(interest) {
            assert("Fees\n\n".spec_bytes()[0] == interest.subrange(
                0,
                "Fees\n\n".spec_bytes().len() as int,
            )[0]);
            assert(interest[0] == label[0]);
        }
    }
    lemma_sections_read(
        credits,
        purchases,
        fees,
        statement.start_date,
        statement.account_number,
        interest,
    );
    lemma_found_at_start(label, seq![SPACE] + amount);
    lemma_canonical_amount_start(statement.total_interest as int, rest);
    lemma_one_space(SPACE, amount);
    lemma_canonical_amount_then(statement.total_interest as int, rest);
}

/// A period written in any spelling before the text `rest`: a day in
/// words, ` - `, a day in words, `, `, the digits of the year, and any
/// white space.
pub open spec fn period_as(
    first: (Seq<u8>, Seq<u8>, Seq<u8>),
    last: (Seq<u8>, Seq<u8>, Seq<u8>),
    year: Seq<u8>,
    gap: Seq<u8>,
    rest: Seq<u8>,
) -> Seq<u8> {
    first.0 + (first.1 + (first.2 + (" - ".spec_bytes() + (last.0 + (last.1 + (last.2 + (
    ", ".spec_bytes() + (year + (gap + rest)))))))))
}

/// A day in words that reads as the month `month`: any name of the month,
/// white space, and digits.
pub open spec fn is_day_in_words(word: (Seq<u8>, Seq<u8>, Seq<u8>), month: u32) -> bool {
    &&& word.0.len() > 0
    &&& all_in(word.0, CharClass::Alpha)
    &&& month_of_name(word.0) == Some(month)
    &&& word.1.len() > 0
    &&& all_in(word.1, CharClass::Space)
    &&& word.2.len() > 0
    &&& all_digits(word.2)
    &&& digits_value(word.2) <= u32::MAX
}

/// A period written in any spelling reads as its two days: the end in the
/// year that is written, the start in the same year, or in the year before
/// where its month comes later in the calendar than the end's.
pub proof fn lemma_period_reads_as(
    first: (Seq<u8>, Seq<u8>, Seq<u8>),
    last: (Seq<u8>, Seq<u8>, Seq<u8>),
    year: Seq<u8>,
    gap: Seq<u8>,
    rest: Seq<u8>,
    start_date: Date,
    end_date: Date,
)
    requires
        is_day_in_words(first, start_date.month),
        is_day_in_words(last, end_date.month),
        digits_value(first.2) == start_date.day,
        digits_value(last.2) == end_date.day,
        year.len() > 0,
        all_digits(year),
        digits_value(year) == end_date.year,
        is_period(start_date, end_date),
        all_in(gap, CharClass::Space),
        none_first(rest, CharClass::Space),
        gap.len() == 0 ==> no_digit_first(rest),
    ensures
        spec_period(period_as(first, last, year, gap, rest)) == Ok::<_, ParseError>(
            (rest, (start_date, end_date)),
        ),
{
    lemma_phrases();
    let after_year = gap + rest;
    let comma = ", ".spec_bytes() + (year + after_year);
    let end = last.0 + (last.1 + (last.2 + comma));
    let dash = " - ".spec_bytes() + end;
    let text = first.0 + (first.1 + (first.2 + dash));
    assert(text == period_as(first, last, year, gap, rest));
    assert(dash[0] == " - ".spec_bytes()[0]);
    lemma_day_in_words_reads_as(first.0, start_date.month, first.1, first.2, dash);
    assert(spec_month_word_day(text) == Ok::<_, ParseError>(
        (dash, (start_date.month, start_date.day)),
    ));
    lemma_found_at_start(" - ".spec_bytes(), end);
    assert(comma[0] == ", ".spec_bytes()[0]);
    lemma_day_in_words_reads_as(last.0, end_date.month, last.1, last.2, comma);
    assert(spec_month_word_day(end) == Ok::<_, ParseError>(
        (comma, (end_date.month, end_date.day)),
    ));
    lemma_found_at_start(", ".spec_bytes(), year + after_year);
    lemma_year_reads(year, gap, rest);
}

/// The digits of a year read as the year, and the white space behind them
/// is skipped.
proof fn lemma_year_reads(year: Seq<u8>, gap: Seq<u8>, rest: Seq<u8>)
    requires
        year.len() > 0,
        all_digits(year),
        digits_value(year) <= i32::MAX,
        all_in(gap, CharClass::Space),
        none_first(rest, CharClass::Space),
        gap.len() == 0 ==> no_digit_first(rest),
    ensures
        spec_signed(year + (gap + rest)) == Ok::<_, ParseError>(
            (gap + rest, digits_value(year) as i32),
        ),
        (gap + rest).skip(span(gap + rest, CharClass::Space) as int) == rest,
{
    let after_year = gap + rest;
    if gap.len() > 0 {
        assert(after_year[0] == gap[0]);
        assert(CharClass::Space.accepts(gap[0]));
    } else {
        assert(after_year =~= rest);
    }
    lemma_signed_reads_digits(year, after_year);
    lemma_run_before(gap, rest, CharClass::Space);
}

/// An account number as it stands in a text: digits and spaces, behind
/// which the text goes on with neither.
pub proof fn lemma_account_number_reads(number: Seq<u8>, rest: Seq<u8>)
    requires
        number.len() > 0,
        all_in(number, CharClass::DigitOrSpace),
        none_first(rest, CharClass::DigitOrSpace),
    ensures
        spec_account_number(number + rest) == Ok::<_, ParseError>((rest, number)),
{
    lemma_run_before(number, rest, CharClass::DigitOrSpace);
}

/// What stands behind the period in the head of a statement: behind texts
/// that do not hold them, the labels of the two balances, each with an
/// amount in any spelling.
pub open spec fn behind_period(
    between: Seq<u8>,
    previous: Seq<u8>,
    filler: Seq<u8>,
    new: Seq<u8>,
    rest: Seq<u8>,
) -> Seq<u8> {
    between + ("Previous Balance ".spec_bytes() + (previous + (filler + (
    "New Balance Total ".spec_bytes() + (new + rest)))))
}

/// The head of a statement in any spelling, behind whatever comes first:
/// `Account# ` and the account number, white space, the period, and behind
/// texts that do not hold them the labels of the two balances, each with
/// an amount in any spelling.
pub open spec fn head_as(
    junk: Seq<u8>,
    number: Seq<u8>,
    gap: Seq<u8>,
    period: Seq<u8>,
    between: Seq<u8>,
    previous: Seq<u8>,
    filler: Seq<u8>,
    new: Seq<u8>,
    rest: Seq<u8>,
) -> Seq<u8> {
    junk + ("Account# ".spec_bytes() + (number + (gap + (period + behind_period(
        between,
        previous,
        filler,
        new,
        rest,
    )))))
}

/// Any text whose head is written as `head_as` says reads as the account
/// number, the days and the balances that are written, the previous balance
/// first: whatever stands before the head and between its parts, as long as
/// no label occurs there before its place.
pub proof fn lemma_head_reads_as(
    junk: Seq<u8>,
    number: Seq<u8>,
    gap: Seq<u8>,
    period: Seq<u8>,
    days: (Date, Date),
    between: Seq<u8>,
    previous: Seq<u8>,
    filler: Seq<u8>,
    new: Seq<u8>,
    rest: Seq<u8>,
)
    requires
        forall|j: int|
            0 <= j < junk.len() ==> !"Account# ".spec_bytes().is_prefix_of(
                #[trigger] (junk + "Account# ".spec_bytes()).skip(j),
            ),
        number.len() > 0,
        all_in(number, CharClass::DigitOrSpace),
        all_in(gap, CharClass::Space),
        period.len() > 0,
        none_first(gap + period, CharClass::DigitOrSpace),
        none_first(period, CharClass::Space),
        spec_period(period + behind_period(between, previous, filler, new, rest)) == Ok::<
            _,
            ParseError,
        >((behind_period(between, previous, filler, new, rest), days)),
        forall|j: int|
            0 <= j < between.len() ==> !"Previous Balance ".spec_bytes().is_prefix_of(
                #[trigger] (between + "Previous Balance ".spec_bytes()).skip(j),
            ),
        spec_dollar_amount(previous) matches Ok((left, _)) && left.len() == 0,
        forall|j: int|
            0 <= j < filler.len() ==> !"New Balance Total ".spec_bytes().is_prefix_of(
                #[trigger] (filler + "New Balance Total ".spec_bytes()).skip(j),
            ),
        filler.len() > 0 ==> !CharClass::Digit.accepts(filler[0]),
        spec_dollar_amount(new) matches Ok((left, _)) && left.len() == 0,
        no_digit_first(rest),
    ensures
        spec_summary(head_as(junk, number, gap, period, between, previous, filler, new, rest))
            == Ok::<_, ParseError>(
            (
                rest,
                (
                    number,
                    days,
                    (spec_dollar_amount(previous)->Ok_0.1, spec_dollar_amount(new)->Ok_0.1),
                ),
            ),
        ),
{
    lemma_phrases();
    let after_new = new + rest;
    let second = "New Balance Total ".spec_bytes() + after_new;
    let after_previous = previous + (filler + second);
    let first = "Previous Balance ".spec_bytes() + after_previous;
    let after_period = between + first;
    let after_gap = period + after_period;
    let after_number = gap + after_gap;
    let after_label = number + after_number;
    assert(head_as(junk, number, gap, period, between, previous, filler, new, rest) == junk + (
    "Account# ".spec_bytes() + after_label));
    // the account number, and the white space behind it
    assert(after_period == behind_period(between, previous, filler, new, rest));
    lemma_summary_head_parts(number, gap, period, after_period, days);
    // the balances
    if (filler + second).len() > 0 {
        if filler.len() > 0 {
            assert((filler + second)[0] == filler[0]);
        } else {
            assert((filler + second)[0] == second[0]);
            assert(second[0] == "New Balance Total ".spec_bytes()[0]);
        }
    }
    lemma_amount_before(previous, filler + second);
    lemma_amount_before(new, rest);
    lemma_summary_of_text(
        junk,
        after_label,
        number,
        after_number,
        days,
        between,
        after_previous,
        spec_dollar_amount(previous)->Ok_0.1,
        filler,
        after_new,
        spec_dollar_amount(new)->Ok_0.1,
        rest,
    );
}

/// The account number and the period of a head, with white space between
/// them, read as they are written.
proof fn lemma_summary_head_parts(
    number: Seq<u8>,
    gap: Seq<u8>,
    period: Seq<u8>,
    after_period: Seq<u8>,
    days: (Date, Date),
)
    requires
        number.len() > 0,
        all_in(number, CharClass::DigitOrSpace),
        all_in(gap, CharClass::Space),
        period.len() > 0,
        none_first(gap + period, CharClass::DigitOrSpace),
        none_first(period, CharClass::Space),
        spec_period(period + after_period) == Ok::<_, ParseError>((after_period, days)),
    ensures
        spec_account_number(number + (gap + (period + after_period))) == Ok::<_, ParseError>(
            (gap + (period + after_period), number),
        ),
        spec_period(
            (gap + (period + after_period)).skip(
                span(gap + (period + after_period), CharClass::Space) as int,
            ),
        ) == Ok::<_, ParseError>((after_period, days)),
{
    let after_gap = period + after_period;
    assert(after_gap[0] == period[0]);
    assert((gap + period)[0] == (gap + after_gap)[0]) by {
        if gap.len() > 0 {
            assert((gap + period)[0] == gap[0]);
            assert((gap + after_gap)[0] == gap[0]);
        } else {
            assert((gap + period)[0] == period[0]);
            assert((gap + after_gap)[0] == after_gap[0]);
        }
    }
    lemma_account_number_reads(number, gap + after_gap);
    lemma_run_before(gap, after_gap, CharClass::Space);
}

/// Every statement that is accepted from a text whose head is written as
/// `head_as` says holds the account number, the days and the balances that
/// are written there, and each of its transactions carries the last four
/// bytes of that account number.
pub proof fn lemma_accepted_statement_holds_its_head(
    junk: Seq<u8>,
    number: Seq<u8>,
    gap: Seq<u8>,
    period: Seq<u8>,
    days: (Date, Date),
    between: Seq<u8>,
    previous: Seq<u8>,
    filler: Seq<u8>,
    new: Seq<u8>,
    rest: Seq<u8>,
)
    requires
        forall|j: int|
            0 <= j < junk.len() ==> !"Account# ".spec_bytes().is_prefix_of(
                #[trigger] (junk + "Account# ".spec_bytes()).skip(j),
            ),
        number.len() > 0,
        all_in(number, CharClass::DigitOrSpace),
        all_in(gap, CharClass::Space),
        period.len() > 0,
        none_first(gap + period, CharClass::DigitOrSpace),
        none_first(period, CharClass::Space),
        spec_period(period + behind_period(between, previous, filler, new, rest)) == Ok::<
            _,
            ParseError,
        >((behind_period(between, previous, filler, new, rest), days)),
        forall|j: int|
            0 <= j < between.len() ==> !"Previous Balance ".spec_bytes().is_prefix_of(
                #[trigger] (between + "Previous Balance ".spec_bytes()).skip(j),
            ),
        spec_dollar_amount(previous) matches Ok((left, _)) && left.len() == 0,
        forall|j: int|
            0 <= j < filler.len() ==> !"New Balance Total ".spec_bytes().is_prefix_of(
                #[trigger] (filler + "New Balance Total ".spec_bytes()).skip(j),
            ),
        filler.len() > 0 ==> !CharClass::Digit.accepts(filler[0]),
        spec_dollar_amount(new) matches Ok((left, _)) && left.len() == 0,
        no_digit_first(rest),
        spec_parse_statement(
            head_as(junk, number, gap, period, between, previous, filler, new, rest),
        ) is Ok,
    ensures
        ({
            let statement = spec_parse_statement(
                head_as(junk, number, gap, period, between, previous, filler, new, rest),
            )->Ok_0.1;
            &&& statement.account_number == number
            &&& statement.start_date == days.0
            &&& statement.end_date == days.1
            &&& statement.start_balance == spec_dollar_amount(previous)->Ok_0.1
            &&& statement.end_balance == spec_dollar_amount(new)->Ok_0.1
            &&& number.len() >= 4
            &&& forall|i: int|
                0 <= i < statement.transactions.len() ==> (
                #[trigger] statement.transactions[i]).account_number == number.skip(
                    number.len() - 4,
                )
        }),
{
    let text = head_as(junk, number, gap, period, between, previous, filler, new, rest);
    lemma_head_reads_as(junk, number, gap, period, days, between, previous, filler, new, rest);
    lemma_statement_is_as_read(text);
    lemma_statement_valid(text);
}

} // verus!
