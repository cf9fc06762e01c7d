//! Checking statements written out from their records, and the law that the
//! grammar reads back what was written.

use vstd::prelude::*;
use vstd::string::*;
use crate::bank_of_america_debit_statement::{
    amount_offset, amounts, spec_column_titles, spec_dated_balance, spec_description,
    spec_dollar_amount_and_date_or_footer_follows, spec_parse_statement, spec_section_parts,
    spec_section_total, spec_sections, spec_summary, spec_transaction, spec_transaction_section,
    spec_transactions, BankOfAmericaDebitStatementView, TransactionType, TransactionView,
};
use crate::canonical::{
    canonical_amount, date_in_words_then, decimal, is_plain, lemma_canonical_amount_start,
    lemma_canonical_amount_then, lemma_date_in_words_reads, lemma_decimal_value, lemma_digits_span,
    lemma_found_at_start, lemma_found_on_next_line, lemma_no_amount_at_letter, lemma_one_space,
    lemma_plain_then_letter, lemma_slashed_date_reads, no_digit_first, slashed_date_then,
};
use crate::common_parsers::{spaced_digits_len, spec_month_day_year};
use crate::date::Date;
use crate::error::{fail_at, ErrorKind, ParseError};
use crate::scan::{all_digits, find, lemma_span_is, span, CharClass, LF, SPACE};
use crate::totals::{lemma_sum_update, sum};

verus! {

/// A transaction that can be written out: its date exists and lies in the
/// year 2000 or later, its description is plain, and its amount has a
/// magnitude that fits.
pub open spec fn is_writable(t: TransactionView) -> bool {
    &&& t.date.is_valid()
    &&& t.date.year >= 2000
    &&& t.amount > i32::MIN
    &&& is_plain(t.description)
}

/// A transaction written on one line, before the text `rest`: the date, the
/// description, and the amount in canonical form, with single spaces
/// between them.
pub open spec fn transaction_then(t: TransactionView, rest: Seq<u8>) -> Seq<u8> {
    slashed_date_then(
        t.date,
        seq![SPACE] + (t.description + (seq![SPACE] + (canonical_amount(t.amount as int) + (
        seq![LF] + rest)))),
    )
}

/// The text may follow a transaction: it begins with a date or with the
/// section's footer, and with no white space.
pub open spec fn may_follow(rest: Seq<u8>, footer: Seq<u8>) -> bool {
    &&& rest.len() > 0
    &&& !CharClass::Space.accepts(rest[0])
    &&& spec_month_day_year(rest) is Ok || footer.is_prefix_of(rest)
}

/// Where the amount of a transaction stands at `k` and at no place from `i`
/// up to `k`, the offset found from `i` on is `k`.
pub proof fn lemma_amount_offset_is(s: Seq<u8>, footer: Seq<u8>, i: int, k: int)
    requires
        0 <= i <= k <= s.len(),
        spec_dollar_amount_and_date_or_footer_follows(s.skip(k), footer) is Ok,
        forall|j: int|
            i <= j < k ==> spec_dollar_amount_and_date_or_footer_follows(
                #[trigger] s.skip(j),
                footer,
            ) is Err,
    ensures
        amount_offset(s, footer, i) == Some(k),
    decreases k - i,
{
    if i < k {
        lemma_amount_offset_is(s, footer, i + 1, k);
    }
}

/// A plain description, written before its amount, reads back as it was
/// written, with the amount.
pub proof fn lemma_description_reads(
    text: Seq<u8>,
    amount: i32,
    footer: Seq<u8>,
    rest: Seq<u8>,
)
    requires
        is_plain(text),
        amount > i32::MIN,
        may_follow(rest, footer),
    ensures
        spec_description(
            text + (seq![SPACE] + (canonical_amount(amount as int) + (seq![LF] + rest))),
            footer,
        ) == Ok::<_, ParseError>((seq![LF] + rest, (text, amount))),
{
    let line_end = seq![LF] + rest;
    let written = canonical_amount(amount as int) + line_end;
    let tail = seq![SPACE] + written;
    let s = text + tail;
    let k = text.len() as int;
    assert forall|j: int| 0 <= j < k implies spec_dollar_amount_and_date_or_footer_follows(
        #[trigger] s.skip(j),
        footer,
    ) is Err by {
        lemma_plain_then_letter(text, tail, j);
        let t = s.skip(j);
        lemma_no_amount_at_letter(t.skip(span(t, CharClass::Space) as int));
    }
    assert(s.skip(k) =~= tail);
    assert(s.take(k) =~= text);
    lemma_canonical_amount_start(amount as int, line_end);
    lemma_one_space(SPACE, written);
    lemma_canonical_amount_then(amount as int, line_end);
    lemma_one_space(LF, rest);
    lemma_amount_offset_is(s, footer, 0, k);
}

/// A writable transaction reads back as it was written.
pub proof fn lemma_transaction_reads(t: TransactionView, footer: Seq<u8>, rest: Seq<u8>)
    requires
        is_writable(t),
        may_follow(rest, footer),
    ensures
        spec_transaction(transaction_then(t, rest), footer, t.type_) == Ok::<_, ParseError>(
            (rest, t),
        ),
{
    let line = t.description + (seq![SPACE] + (canonical_amount(t.amount as int) + (seq![LF]
        + rest)));
    lemma_slashed_date_reads(t.date, seq![SPACE] + line);
    assert(line[0] == t.description[0]);
    lemma_one_space(SPACE, line);
    lemma_description_reads(t.description, t.amount, footer, rest);
    lemma_one_space(LF, rest);
}

/// Transactions written line after line, before the text `rest`.
pub open spec fn transactions_then(list: Seq<TransactionView>, rest: Seq<u8>) -> Seq<u8>
    decreases list.len(),
{
    if list.len() == 0 {
        rest
    } else {
        transaction_then(list[0], transactions_then(list.skip(1), rest))
    }
}

/// Every transaction of the list can be written out and is of the type
/// `transaction_type`.
pub open spec fn all_writable(list: Seq<TransactionView>, transaction_type: TransactionType) -> bool {
    forall|i: int|
        0 <= i < list.len() ==> is_writable(#[trigger] list[i]) && list[i].type_
            == transaction_type
}

/// A footer that cannot be taken for a transaction: it begins with neither
/// white space nor a digit.
pub open spec fn is_footer(footer: Seq<u8>) -> bool {
    &&& footer.len() > 0
    &&& !CharClass::Space.accepts(footer[0])
    &&& !CharClass::Digit.accepts(footer[0])
}

/// A transaction that is written out takes up room.
proof fn lemma_transaction_longer(t: TransactionView, rest: Seq<u8>)
    ensures
        transaction_then(t, rest).len() > rest.len(),
{
}

/// Where all transactions of a list are writable, so are all but the first.
proof fn lemma_all_writable_skip(list: Seq<TransactionView>, transaction_type: TransactionType)
    requires
        all_writable(list, transaction_type),
        list.len() > 0,
    ensures
        all_writable(list.skip(1), transaction_type),
        is_writable(list[0]),
        list[0].type_ == transaction_type,
{
    assert forall|i: int| 0 <= i < list.skip(1).len() implies is_writable(
        #[trigger] list.skip(1)[i],
    ) && list.skip(1)[i].type_ == transaction_type by {
        assert(list.skip(1)[i] == list[i + 1]);
    }
}

/// Writable transactions that are written before the footer read back as
/// they were written, all of them and in their order.
pub proof fn lemma_transactions_read(
    list: Seq<TransactionView>,
    footer: Seq<u8>,
    transaction_type: TransactionType,
    rest: Seq<u8>,
)
    requires
        all_writable(list, transaction_type),
        is_footer(footer),
        footer.is_prefix_of(rest),
    ensures
        spec_transactions(transactions_then(list, rest), footer, transaction_type) == (rest, list),
        may_follow(transactions_then(list, rest), footer),
    decreases list.len(),
{
    let text = transactions_then(list, rest);
    if list.len() == 0 {
        assert(rest[0] == footer[0]);
        lemma_span_is(rest, CharClass::Digit, 0);
        assert(list =~= Seq::<TransactionView>::empty());
    } else {
        let tail = transactions_then(list.skip(1), rest);
        lemma_all_writable_skip(list, transaction_type);
        lemma_transactions_read(list.skip(1), footer, transaction_type, rest);
        lemma_transaction_reads(list[0], footer, tail);
        lemma_transaction_longer(list[0], tail);
        assert(seq![list[0]] + list.skip(1) =~= list);
        let first = list[0];
        let line = seq![SPACE] + (first.description + (seq![SPACE] + (canonical_amount(
            first.amount as int,
        ) + (seq![LF] + tail))));
        lemma_slashed_date_reads(first.date, line);
        lemma_decimal_value(first.date.month as nat);
        assert(text[0] == decimal(first.date.month as nat)[0]);
    }
}

/// A section written out: the header, the column titles on a line of their
/// own, the transactions, and the footer with the declared total in
/// canonical form, before the text `rest`.
pub open spec fn section_then(
    header: Seq<u8>,
    footer: Seq<u8>,
    list: Seq<TransactionView>,
    declared: i32,
    rest: Seq<u8>,
) -> Seq<u8> {
    header + (seq![LF] + ("Date Description Amount".spec_bytes() + (seq![LF] + transactions_then(
        list,
        footer + (seq![SPACE] + (canonical_amount(declared as int) + rest)),
    ))))
}

/// The column titles on a line of their own, before text that begins with
/// no white space, read as column titles.
proof fn lemma_titles_read(rest: Seq<u8>)
    requires
        rest.len() > 0,
        !CharClass::Space.accepts(rest[0]),
    ensures
        spec_column_titles(
            seq![LF] + ("Date Description Amount".spec_bytes() + (seq![LF] + rest)),
        ) == Ok::<_, ParseError>((rest, ())),
{
    broadcast use vstd::string::is_ascii_spec_bytes;

    reveal_strlit("Date Description Amount");
    let titles = "Date Description Amount";
    assert(is_ascii(titles));
    assert(titles.spec_bytes()[0] == 68);
    let line_end = seq![LF] + rest;
    let line = titles.spec_bytes() + line_end;
    assert(line[0] == titles.spec_bytes()[0]);
    lemma_one_space(LF, line);
    lemma_found_at_start(titles.spec_bytes(), line_end);
    lemma_one_space(LF, rest);
}

/// The footer with the declared total in canonical form reads as the
/// declared total.
proof fn lemma_declared_total_reads(footer: Seq<u8>, declared: i32, rest: Seq<u8>)
    requires
        declared > i32::MIN,
        no_digit_first(rest),
    ensures
        spec_section_total(
            footer + (seq![SPACE] + (canonical_amount(declared as int) + rest)),
            footer,
        ) == Ok::<_, ParseError>((rest, declared)),
{
    let total = canonical_amount(declared as int) + rest;
    lemma_found_at_start(footer, seq![SPACE] + total);
    lemma_canonical_amount_start(declared as int, rest);
    lemma_one_space(SPACE, total);
    lemma_canonical_amount_then(declared as int, rest);
}

/// A section that is written out from writable transactions and a declared
/// total reads back as those transactions, in their order, and that total.
pub proof fn lemma_section_parts_read(
    header: Seq<u8>,
    footer: Seq<u8>,
    list: Seq<TransactionView>,
    declared: i32,
    transaction_type: TransactionType,
    rest: Seq<u8>,
)
    requires
        all_writable(list, transaction_type),
        is_footer(footer),
        declared > i32::MIN,
        no_digit_first(rest),
    ensures
        spec_section_parts(
            section_then(header, footer, list, declared, rest),
            header,
            footer,
            transaction_type,
        ) == Ok::<_, ParseError>((rest, (list, declared))),
{
    let end = footer + (seq![SPACE] + (canonical_amount(declared as int) + rest));
    let lines = transactions_then(list, end);
    let head = seq![LF] + ("Date Description Amount".spec_bytes() + (seq![LF] + lines));
    lemma_found_at_start(header, head);
    lemma_found_at_start(footer, seq![SPACE] + (canonical_amount(declared as int) + rest));
    lemma_transactions_read(list, footer, transaction_type, end);
    lemma_titles_read(lines);
    lemma_declared_total_reads(footer, declared, rest);
}

/// A section that is written out from writable transactions and a declared
/// total reads back exactly those transactions, in their order, where their
/// amounts add up to the declared total, and is a totals mismatch where
/// they do not.
pub proof fn lemma_section_reads(
    header: Seq<u8>,
    footer: Seq<u8>,
    list: Seq<TransactionView>,
    declared: i32,
    transaction_type: TransactionType,
    rest: Seq<u8>,
)
    requires
        all_writable(list, transaction_type),
        is_footer(footer),
        declared > i32::MIN,
        no_digit_first(rest),
    ensures
        spec_transaction_section(
            section_then(header, footer, list, declared, rest),
            header,
            footer,
            transaction_type,
        ) == if sum(amounts(list)) == declared {
            Ok::<_, ParseError>((rest, list))
        } else {
            Err::<(Seq<u8>, Seq<TransactionView>), _>(fail_at(ErrorKind::TotalsMismatch, rest))
        },
{
    lemma_section_parts_read(header, footer, list, declared, transaction_type, rest);
}

/// Of two written sections that declare the same total and hold the same
/// amounts but for one, at most one is accepted: where the amounts of the
/// first add up to the declared total, the second is a totals mismatch.
pub proof fn lemma_changed_section_fails(
    header: Seq<u8>,
    footer: Seq<u8>,
    list: Seq<TransactionView>,
    changed: Seq<TransactionView>,
    declared: i32,
    transaction_type: TransactionType,
    rest: Seq<u8>,
    i: int,
)
    requires
        sum(amounts(list)) == declared,
        declared > i32::MIN,
        no_digit_first(rest),
        all_writable(changed, transaction_type),
        is_footer(footer),
        changed.len() == list.len(),
        0 <= i < list.len(),
        changed[i].amount != list[i].amount,
        forall|j: int| 0 <= j < list.len() && j != i ==> changed[j].amount == list[j].amount,
    ensures
        spec_transaction_section(
            section_then(header, footer, changed, declared, rest),
            header,
            footer,
            transaction_type,
        ) == Err::<(Seq<u8>, Seq<TransactionView>), _>(fail_at(ErrorKind::TotalsMismatch, rest)),
{
    assert(amounts(changed) =~= amounts(list).update(i, changed[i].amount as int));
    lemma_sum_update(amounts(list), i, changed[i].amount as int);
    lemma_section_reads(header, footer, changed, declared, transaction_type, rest);
}

/// The phrases of the grammar begin as they are spelled, with a capital
/// letter.
proof fn lemma_phrases()
    ensures
        "Beginning balance on ".spec_bytes().len() > 0,
        "Beginning balance on ".spec_bytes()[0] == 66,
        "Ending balance on ".spec_bytes().len() > 0,
        "Ending balance on ".spec_bytes()[0] == 69,
        "Deposits and other additions".spec_bytes().len() > 0,
        "Deposits and other additions".spec_bytes()[0] == 68,
        "Total deposits and other additions".spec_bytes().len() > 0,
        "Total deposits and other additions".spec_bytes()[0] == 84,
        "Withdrawals and other subtractions".spec_bytes().len() > 0,
        "Withdrawals and other subtractions".spec_bytes()[0] == 87,
        "Total withdrawals and other subtractions".spec_bytes().len() > 0,
        "Total withdrawals and other subtractions".spec_bytes()[0] == 84,
        "Service fees".spec_bytes().len() > 0,
        "Service fees".spec_bytes()[0] == 83,
        "Total service fees".spec_bytes().len() > 0,
        "Total service fees".spec_bytes()[0] == 84,
{
    broadcast use vstd::string::is_ascii_spec_bytes;

    reveal_strlit("Beginning balance on ");
    reveal_strlit("Ending balance on ");
    reveal_strlit("Deposits and other additions");
    reveal_strlit("Total deposits and other additions");
    reveal_strlit("Withdrawals and other subtractions");
    reveal_strlit("Total withdrawals and other subtractions");
    reveal_strlit("Service fees");
    reveal_strlit("Total service fees");
    assert(is_ascii("Beginning balance on ") && is_ascii("Ending balance on "));
    assert(is_ascii("Deposits and other additions") && is_ascii(
        "Total deposits and other additions",
    ));
    assert(is_ascii("Withdrawals and other subtractions") && is_ascii(
        "Total withdrawals and other subtractions",
    ));
    assert(is_ascii("Service fees") && is_ascii("Total service fees"));
}

/// A balance written on the line after a line break, before the text
/// `rest`: the label, the day in words, and the amount in canonical form.
pub open spec fn dated_balance_then(label: Seq<u8>, date: Date, amount: i32, rest: Seq<u8>) -> Seq<
    u8,
> {
    seq![LF] + (label + date_in_words_then(
        date,
        seq![SPACE] + (canonical_amount(amount as int) + rest),
    ))
}

/// A balance that is written out reads back as its day and its amount.
pub proof fn lemma_dated_balance_reads(label: Seq<u8>, date: Date, amount: i32, rest: Seq<u8>)
    requires
        label.len() > 0,
        label[0] != LF,
        date.is_valid(),
        date.year >= 0,
        amount > i32::MIN,
        no_digit_first(rest),
    ensures
        spec_dated_balance(dated_balance_then(label, date, amount, rest), label) == Ok::<
            _,
            ParseError,
        >((rest, (date, amount))),
{
    let written = canonical_amount(amount as int) + rest;
    let day = date_in_words_then(date, seq![SPACE] + written);
    lemma_found_on_next_line(label, day);
    lemma_date_in_words_reads(date, seq![SPACE] + written);
    lemma_canonical_amount_start(amount as int, rest);
    lemma_one_space(SPACE, written);
    lemma_canonical_amount_then(amount as int, rest);
}

/// The head of a statement written out before the text `rest`: the account
/// number, and the beginning and the ending balance each on a line of its
/// own.
pub open spec fn summary_then(
    number: Seq<u8>,
    start_date: Date,
    end_date: Date,
    start_balance: i32,
    end_balance: i32,
    rest: Seq<u8>,
) -> Seq<u8> {
    "Account number:".spec_bytes() + (number + dated_balance_then(
        "Beginning balance on ".spec_bytes(),
        start_date,
        start_balance,
        dated_balance_then("Ending balance on ".spec_bytes(), end_date, end_balance, rest),
    ))
}

/// The head of a statement that is written out, with an account number of
/// digits, reads back as it was written.
pub proof fn lemma_summary_reads(
    number: Seq<u8>,
    start_date: Date,
    end_date: Date,
    start_balance: i32,
    end_balance: i32,
    rest: Seq<u8>,
)
    requires
        number.len() > 0,
        all_digits(number),
        start_date.is_valid(),
        start_date.year >= 0,
        end_date.is_valid(),
        end_date.year >= 0,
        start_balance > i32::MIN,
        end_balance > i32::MIN,
        no_digit_first(rest),
    ensures
        spec_summary(
            summary_then(number, start_date, end_date, start_balance, end_balance, rest),
        ) == Ok::<_, ParseError>(
            (rest, (number, (start_date, start_balance), (end_date, end_balance))),
        ),
{
    lemma_phrases();
    let first = "Beginning balance on ".spec_bytes();
    let second = "Ending balance on ".spec_bytes();
    let ending = dated_balance_then(second, end_date, end_balance, rest);
    assert(ending[0] == LF);
    let beginning = dated_balance_then(first, start_date, start_balance, ending);
    let line = number + beginning;
    lemma_found_at_start("Account number:".spec_bytes(), line);
    // the account number is the one group of digits before the line break
    assert(number[0] == line[0]);
    lemma_span_is(line, CharClass::Space, 0);
    assert(line.skip(0) =~= line);
    lemma_digits_span(number, beginning);
    let label = first + date_in_words_then(
        start_date,
        seq![SPACE] + (canonical_amount(start_balance as int) + ending),
    );
    assert(label[0] == first[0]);
    lemma_one_space(LF, label);
    lemma_span_is(label, CharClass::Digit, 0);
    assert(spaced_digits_len(beginning) == 0);
    assert(spaced_digits_len(line) == number.len());
    lemma_dated_balance_reads(first, start_date, start_balance, ending);
    lemma_dated_balance_reads(second, end_date, end_balance, rest);
}

/// The total of a list of transactions can be declared: its magnitude fits.
pub open spec fn total_fits(list: Seq<TransactionView>) -> bool {
    -i32::MAX <= sum(amounts(list)) <= i32::MAX
}

/// A section written out on the line after a line break, with the total of
/// its transactions, before the text `rest`.
pub open spec fn next_section_then(
    header: Seq<u8>,
    footer: Seq<u8>,
    list: Seq<TransactionView>,
    rest: Seq<u8>,
) -> Seq<u8> {
    seq![LF] + section_then(header, footer, list, sum(amounts(list)) as i32, rest)
}

/// A section that is written out on the line after a line break, with the
/// total of its transactions, reads back as those transactions.
pub proof fn lemma_next_section_reads(
    header: Seq<u8>,
    footer: Seq<u8>,
    list: Seq<TransactionView>,
    transaction_type: TransactionType,
    rest: Seq<u8>,
)
    requires
        header.len() > 0,
        header[0] != LF,
        all_writable(list, transaction_type),
        total_fits(list),
        is_footer(footer),
        no_digit_first(rest),
    ensures
        spec_transaction_section(
            next_section_then(header, footer, list, rest),
            header,
            footer,
            transaction_type,
        ) == Ok::<_, ParseError>((rest, list)),
        find(next_section_then(header, footer, list, rest), header) is Some,
        no_digit_first(next_section_then(header, footer, list, rest)),
{
    assert(next_section_then(header, footer, list, rest)[0] == LF);
    let declared = sum(amounts(list)) as i32;
    let body = seq![LF] + ("Date Description Amount".spec_bytes() + (seq![LF] + transactions_then(
        list,
        footer + (seq![SPACE] + (canonical_amount(declared as int) + rest)),
    )));
    assert(section_then(header, footer, list, declared, rest) == header + body);
    lemma_found_at_start(header, body);
    lemma_found_on_next_line(header, body);
    lemma_section_reads(header, footer, list, declared, transaction_type, rest);
}

/// The sections of a statement written out before the text `rest`, each
/// with the total of its transactions: deposits, withdrawals, and service
/// fees where the statement has a section of them.
pub open spec fn sections_then(
    deposits: Seq<TransactionView>,
    withdrawals: Seq<TransactionView>,
    fees: Option<Seq<TransactionView>>,
    rest: Seq<u8>,
) -> Seq<u8> {
    next_section_then(
        "Deposits and other additions".spec_bytes(),
        "Total deposits and other additions".spec_bytes(),
        deposits,
        next_section_then(
            "Withdrawals and other subtractions".spec_bytes(),
            "Total withdrawals and other subtractions".spec_bytes(),
            withdrawals,
            match fees {
                Some(list) => next_section_then(
                    "Service fees".spec_bytes(),
                    "Total service fees".spec_bytes(),
                    list,
                    rest,
                ),
                None => rest,
            },
        ),
    )
}

/// The transactions of the sections, one list after the other.
pub open spec fn all_transactions(
    deposits: Seq<TransactionView>,
    withdrawals: Seq<TransactionView>,
    fees: Option<Seq<TransactionView>>,
) -> Seq<TransactionView> {
    match fees {
        Some(list) => deposits + withdrawals + list,
        None => deposits + withdrawals,
    }
}

/// Sections that can be written out: every transaction is writable and of
/// the type of its section, and the totals of the sections fit.
pub open spec fn are_sections(
    deposits: Seq<TransactionView>,
    withdrawals: Seq<TransactionView>,
    fees: Option<Seq<TransactionView>>,
) -> bool {
    &&& all_writable(deposits, TransactionType::Deposit)
    &&& total_fits(deposits)
    &&& all_writable(withdrawals, TransactionType::Withdrawal)
    &&& total_fits(withdrawals)
    &&& fees matches Some(list) ==> all_writable(list, TransactionType::Fee) && total_fits(list)
}

/// Sections that are written out read back as their transactions, one
/// section after the other. A statement that is written without a section
/// of service fees, before a text that does not name them, has the
/// transactions of its deposits and withdrawals and no others.
pub proof fn lemma_sections_read(
    deposits: Seq<TransactionView>,
    withdrawals: Seq<TransactionView>,
    fees: Option<Seq<TransactionView>>,
    rest: Seq<u8>,
)
    requires
        are_sections(deposits, withdrawals, fees),
        no_digit_first(rest),
        fees is None ==> find(rest, "Service fees".spec_bytes()) is None,
    ensures
        spec_sections(sections_then(deposits, withdrawals, fees, rest)) == Ok::<_, ParseError>(
            (rest, all_transactions(deposits, withdrawals, fees)),
        ),
        no_digit_first(sections_then(deposits, withdrawals, fees, rest)),
{
    lemma_phrases();
    let last = match fees {
        Some(list) => next_section_then(
            "Service fees".spec_bytes(),
            "Total service fees".spec_bytes(),
            list,
            rest,
        ),
        None => rest,
    };
    let middle = next_section_then(
        "Withdrawals and other subtractions".spec_bytes(),
        "Total withdrawals and other subtractions".spec_bytes(),
        withdrawals,
        last,
    );
    match fees {
        Some(list) => {
            lemma_next_section_reads(
                "Service fees".spec_bytes(),
                "Total service fees".spec_bytes(),
                list,
                TransactionType::Fee,
                rest,
            );
        },
        None => {},
    }
    lemma_next_section_reads(
        "Withdrawals and other subtractions".spec_bytes(),
        "Total withdrawals and other subtractions".spec_bytes(),
        withdrawals,
        TransactionType::Withdrawal,
        last,
    );
    lemma_next_section_reads(
        "Deposits and other additions".spec_bytes(),
        "Total deposits and other additions".spec_bytes(),
        deposits,
        TransactionType::Deposit,
        middle,
    );
}

/// A statement written out before the text `rest`: its head and its
/// sections.
pub open spec fn statement_then(
    statement: BankOfAmericaDebitStatementView,
    deposits: Seq<TransactionView>,
    withdrawals: Seq<TransactionView>,
    fees: Option<Seq<TransactionView>>,
    rest: Seq<u8>,
) -> Seq<u8> {
    summary_then(
        statement.account_number,
        statement.start_date,
        statement.end_date,
        statement.start_balance,
        statement.end_balance,
        sections_then(deposits, withdrawals, fees, rest),
    )
}

/// A statement that can be written out section by section: its
/// transactions are those of its sections in their order, its account
/// number is made of digits, its days exist in years that are not negative,
/// and all its amounts can be written out.
pub open spec fn is_writable_statement(
    statement: BankOfAmericaDebitStatementView,
    deposits: Seq<TransactionView>,
    withdrawals: Seq<TransactionView>,
    fees: Option<Seq<TransactionView>>,
) -> bool {
    &&& statement.transactions == all_transactions(deposits, withdrawals, fees)
    &&& statement.account_number.len() > 0
    &&& all_digits(statement.account_number)
    &&& statement.start_date.is_valid()
    &&& statement.start_date.year >= 0
    &&& statement.end_date.is_valid()
    &&& statement.end_date.year >= 0
    &&& statement.start_balance > i32::MIN
    &&& statement.end_balance > i32::MIN
    &&& are_sections(deposits, withdrawals, fees)
}

/// A writable statement that is written out reads back as that statement
/// exactly where its ending balance is its starting balance plus all its
/// transactions; where not, it is a totals mismatch. This holds with a
/// section of service fees, and without one before a text that does not
/// name them.
pub proof fn lemma_statement_reads(
    statement: BankOfAmericaDebitStatementView,
    deposits: Seq<TransactionView>,
    withdrawals: Seq<TransactionView>,
    fees: Option<Seq<TransactionView>>,
    rest: Seq<u8>,
)
    requires
        is_writable_statement(statement, deposits, withdrawals, fees),
        no_digit_first(rest),
        fees is None ==> find(rest, "Service fees".spec_bytes()) is None,
    ensures
        spec_parse_statement(statement_then(statement, deposits, withdrawals, fees, rest))
            == if statement.end_balance - statement.start_balance == sum(
            amounts(statement.transactions),
        ) {
            Ok::<_, ParseError>((rest, statement))
        } else {
            Err::<(Seq<u8>, BankOfAmericaDebitStatementView), _>(
                fail_at(ErrorKind::TotalsMismatch, rest),
            )
        },
{
    lemma_sections_read(deposits, withdrawals, fees, rest);
    lemma_summary_reads(
        statement.account_number,
        statement.start_date,
        statement.end_date,
        statement.start_balance,
        statement.end_balance,
        sections_then(deposits, withdrawals, fees, rest),
    );
}

} // verus!
