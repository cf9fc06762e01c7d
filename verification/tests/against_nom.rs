//! Cross-checks: the same grammars written with nom's combinators and
//! chrono's types must read generated texts exactly as the library does.

use bank_statement_parser::bank_of_america_credit_statement as card;
use bank_statement_parser::bank_of_america_debit_statement as checking;
use bank_statement_parser::bank_of_america_statement as earlier;
use bank_statement_parser::chase_credit_statement as chase;
use bank_statement_parser::common_parsers as lib;
use bank_statement_parser::date::Date;
use bank_statement_parser::error::ParseError;
use bank_statement_parser::scan;

use chrono::{Datelike, Month, NaiveDate};
use nom::branch::alt;
use nom::bytes::complete::{is_a, tag, take_until};
use nom::character::complete::{
    alpha1, anychar, char as one, digit1, multispace0, multispace1, newline, not_line_ending,
};
use nom::combinator::{cond, map_res, opt, peek, recognize, value};
use nom::multi::{many0, many1_count, many_till, separated_list0, separated_list1};
use nom::sequence::{delimited, preceded, separated_pair, terminated, tuple};
use nom::IResult;

struct Dice(u64);

impl Dice {
    fn roll(&mut self, sides: usize) -> usize {
        self.0 = self.0.wrapping_mul(6364136223846793005).wrapping_add(1442695040888963407);
        ((self.0 >> 33) as usize) % sides
    }

    fn text(&mut self, words: &[&str], most: usize) -> String {
        let count = self.roll(most + 1);
        let mut text = String::new();
        for _ in 0..count {
            text.push_str(words[self.roll(words.len())]);
        }
        text
    }
}

impl Dice {
    /// The given part, or now and then a word in its place.
    fn mostly(&mut self, part: String, words: &[&str]) -> String {
        if self.roll(12) == 0 {
            words[self.roll(words.len())].to_string()
        } else {
            part
        }
    }

    fn units(&mut self) -> i32 {
        self.roll(40000) as i32 - 20000
    }

    fn short_day(&mut self) -> String {
        format!("{:02}/{:02}", 1 + self.roll(12), 1 + self.roll(29))
    }
}

fn written(units: i32) -> String {
    let sign = if units < 0 { "-" } else { "" };
    let magnitude = units.unsigned_abs();
    if magnitude >= 100000 {
        format!("{}${},{:03}.{:02}", sign, magnitude / 100000, magnitude / 100 % 1000, magnitude % 100)
    } else {
        format!("{}{}.{:02}", sign, magnitude / 100, magnitude % 100)
    }
}

fn refuse<T>(input: &str) -> IResult<&str, T> {
    Err(nom::Err::Error(nom::error::Error::new(input, nom::error::ErrorKind::Verify)))
}

fn lift<'a, T>(input: &'a str, read: Result<(&'a [u8], T), ParseError>) -> IResult<&'a str, T> {
    match read {
        Ok((rest, found)) => Ok((&input[input.len() - rest.len()..], found)),
        Err(_) => refuse(input),
    }
}

fn same<T: PartialEq + std::fmt::Debug, U>(
    text: &str,
    ours: Result<(&[u8], T), ParseError>,
    theirs: IResult<&str, U>,
    convert: impl Fn(U) -> T,
) {
    match (ours, theirs) {
        (Ok((rest, found)), Ok((left, expected))) => {
            assert_eq!(rest, left.as_bytes(), "rest differs on {:?}", text);
            assert_eq!(found, convert(expected), "value differs on {:?}", text);
        }
        (Err(_), Err(_)) => {}
        (ours, theirs) => {
            panic!("on {:?}: library is_ok = {}, nom is_ok = {}", text, ours.is_ok(), theirs.is_ok())
        }
    }
}

const TOKENS: [&str; 40] = [
    "0", "1", "2", "9", "12", "31", "007", "2024", "4294967295", "4294967296", "2147483648", "/",
    "-", "+", "$", ",", ".", " ", "  ", "\t", "\n", "\n\n", "\r\n", "\r", "Jan", "january", "FEB",
    "Sept", "May", "x", "Total", "3456", "1.00", "-2.50", "12.345", " - ", ", ", "é", "€", "日",
];

fn nom_month_day(input: &str) -> IResult<&str, (u32, u32)> {
    separated_pair(nom::character::complete::u32, one('/'), nom::character::complete::u32)(input)
}

fn nom_month_word(input: &str) -> IResult<&str, Month> {
    map_res(alpha1, |word: &str| word.parse::<Month>())(input)
}

#[test]
fn numbers_as_nom_reads_them() {
    let mut dice = Dice(1);
    for _ in 0..30000 {
        let text = dice.text(&TOKENS, 5);
        same(
            &text,
            scan::unsigned(text.as_bytes()),
            nom::character::complete::u32::<&str, nom::error::Error<&str>>(&text),
            |n| n,
        );
        same(
            &text,
            scan::signed(text.as_bytes()),
            nom::character::complete::i32::<&str, nom::error::Error<&str>>(&text),
            |n| n,
        );
    }
}

#[test]
fn month_and_day_as_nom_reads_them() {
    let mut dice = Dice(2);
    for _ in 0..30000 {
        let text = dice.text(&TOKENS, 6);
        same(&text, lib::month_day(text.as_bytes()), nom_month_day(&text), |pair| pair);
        same(&text, lib::month_word(text.as_bytes()), nom_month_word(&text), |m| {
            m.number_from_month()
        });
        same(
            &text,
            lib::month_word_day(text.as_bytes()),
            separated_pair(nom_month_word, multispace1, nom::character::complete::u32)(&text),
            |(m, d): (Month, u32)| (m.number_from_month(), d),
        );
    }
}

fn as_date(day: NaiveDate) -> Date {
    Date { year: day.year(), month: day.month(), day: day.day() }
}

fn nom_date_in_words(input: &str) -> IResult<&str, NaiveDate> {
    let (input, (month, day)) =
        separated_pair(nom_month_word, multispace1, nom::character::complete::u32)(input)?;
    let (input, _) = delimited(multispace0, opt(one(',')), multispace0)(input)?;
    let (rest, year) = nom::character::complete::i32(input)?;
    match NaiveDate::from_ymd_opt(year, month.number_from_month(), day) {
        Some(date) => Ok((rest, date)),
        None => refuse(input),
    }
}

fn nom_slashed_date(input: &str) -> IResult<&str, NaiveDate> {
    let (rest, (month, _, day, _, year)) = tuple((
        nom::character::complete::u32,
        one('/'),
        nom::character::complete::u32,
        one('/'),
        nom::character::complete::i32,
    ))(input)?;
    match year.checked_add(2000).and_then(|y| NaiveDate::from_ymd_opt(y, month, day)) {
        Some(date) => Ok((rest, date)),
        None => refuse(input),
    }
}

#[test]
fn dates_as_nom_and_chrono_read_them() {
    let words = [
        "1", "2", "12", "13", "28", "29", "30", "31", "0", "24", "23", "2023", "2024", "1900",
        "/", "/", " ", ",", ", ", "Feb", "Apr", "dec", "June", "-", "x", "\n", "262143",
    ];
    let mut dice = Dice(3);
    for _ in 0..40000 {
        let text = dice.text(&words, 7);
        same(&text, lib::month_day_year(text.as_bytes()), nom_slashed_date(&text), as_date);
        same(&text, lib::month_word_day_year(text.as_bytes()), nom_date_in_words(&text), as_date);
    }
}

#[test]
fn year_inference_as_chrono_dates_give_it() {
    let mut dice = Dice(4);
    for _ in 0..20000 {
        let start = NaiveDate::from_ymd_opt(
            1990 + dice.roll(40) as i32,
            1 + dice.roll(12) as u32,
            1 + dice.roll(28) as u32,
        )
        .unwrap();
        let month = dice.roll(14) as u32;
        let day = dice.roll(33) as u32;
        let year = if month < start.month() { start.year() + 1 } else { start.year() };
        let expected = NaiveDate::from_ymd_opt(year, month, day).map(as_date);
        assert_eq!(lib::infer_year(month, day, as_date(start)), expected);
    }
}

#[test]
fn phrases_as_nom_finds_them() {
    let words = ["a", "b", "ab", "ba", "abc", " ", "é", "Fees", "\n"];
    let mut dice = Dice(5);
    for _ in 0..30000 {
        let text = dice.text(&words, 8);
        let phrase = dice.text(&words, 2);
        if phrase.is_empty() {
            continue;
        }
        let theirs: IResult<&str, ()> =
            value((), preceded(take_until(phrase.as_str()), tag(phrase.as_str())))(&text);
        same(&text, lib::take_until_including(text.as_bytes(), phrase.as_bytes()), theirs, |u| u);
        let theirs: IResult<&str, &str> = tag(phrase.as_str())(text.as_str());
        same(&text, scan::tag(text.as_bytes(), phrase.as_bytes()), theirs, |_| ());
    }
}

#[test]
fn account_numbers_as_nom_reads_them() {
    let words = ["1", "22", "333", " ", "  ", "\n", "\t", "x", "-"];
    let mut dice = Dice(6);
    for _ in 0..30000 {
        let text = dice.text(&words, 8);
        let theirs: IResult<&str, &str> = is_a("0123456789 ")(text.as_str());
        same(&text, card::account_number(text.as_bytes()), theirs, |s| s.as_bytes().to_vec());
        let theirs: IResult<&str, &str> =
            recognize(many1_count(preceded(multispace0, digit1)))(text.as_str());
        same(&text, lib::spaced_digits(text.as_bytes()), theirs, |s| s.as_bytes());
    }
}

fn nom_amount_parts(input: &str) -> IResult<&str, (bool, bool, Vec<&str>, &str)> {
    let (input, minus) = opt(one('-'))(input)?;
    let (input, plus) = opt(one('+'))(input)?;
    let (input, _) = opt(one('$'))(input)?;
    let (input, groups) = separated_list0(one(','), digit1)(input)?;
    let (input, cents) = preceded(one('.'), digit1)(input)?;
    Ok((input, (minus.is_some(), plus.is_some(), groups, cents)))
}

#[test]
fn amounts_split_as_nom_splits_them() {
    let words = [
        "-", "+", "$", ",", ".", "0", "1", "9", "12", "345", "00", "99", "21474836", "47", "48",
        " ", "x",
    ];
    let mut dice = Dice(7);
    for _ in 0..60000 {
        let text = dice.text(&words, 7);
        let ours = lib::dollar_amount(text.as_bytes());
        let expected = match nom_amount_parts(&text) {
            Ok((_, (minus, plus, groups, cents))) if !(minus && plus) && cents.len() == 2 => {
                let whole: u128 = groups.concat().chars().fold(0u128, |n, c| {
                    n.saturating_mul(10).saturating_add(c.to_digit(10).unwrap() as u128)
                });
                let units = whole.saturating_mul(100) + cents[..2].parse::<u128>().unwrap();
                let unread = cents.len() - 2
                    + (text.len() - (cents.as_ptr() as usize - text.as_ptr() as usize) - cents.len());
                if units <= i32::MAX as u128 {
                    let units = units as i32;
                    Some((unread, if minus { -units } else { units }))
                } else {
                    None
                }
            }
            _ => None,
        };
        match (ours, expected) {
            (Ok((rest, amount)), Some((unread, units))) => {
                assert_eq!(rest.len(), unread, "rest differs on {:?}", text);
                assert_eq!(amount, units, "value differs on {:?}", text);
            }
            (Err(_), None) => {}
            (ours, expected) => panic!("on {:?}: {:?} against {:?}", text, ours, expected),
        }
    }
}

fn amount(input: &str) -> IResult<&str, i32> {
    lift(input, lib::dollar_amount(input.as_bytes()))
}

fn slashed_date(input: &str) -> IResult<&str, Date> {
    lift(input, lib::month_day_year(input.as_bytes()))
}

fn short_date<'a>(start: Date) -> impl Fn(&'a str) -> IResult<&'a str, Date> {
    move |input| lift(input, lib::short_date(input.as_bytes(), start))
}

type CardEntry = (Date, Date, String, String, String, i32);

fn nom_card_entry<'a>(start: Date, account: &'a str) -> impl Fn(&'a str) -> IResult<&'a str, CardEntry> {
    move |input| {
        let (input, date) = terminated(short_date(start), multispace1)(input)?;
        let (input, posted) = terminated(short_date(start), multispace1)(input)?;
        let (input, (letters, (number, digits))) = many_till(
            anychar,
            preceded(multispace1, separated_pair(digit1, multispace1, tag(account))),
        )(input)?;
        let (input, units) = delimited(multispace1, amount, tag("\n\n"))(input)?;
        let words: String = letters.into_iter().collect();
        Ok((input, (date, posted, words, number.to_string(), digits.to_string(), units)))
    }
}

fn card_entry(t: card::Transaction) -> CardEntry {
    (
        t.date,
        t.posting_date,
        String::from_utf8(t.description).unwrap(),
        String::from_utf8(t.reference_number).unwrap(),
        String::from_utf8(t.account_number).unwrap(),
        t.amount,
    )
}

const CARD_WORDS: [&str; 26] = [
    "01/15", "12/31", "02/30", " ", " ", "  ", "\n", "\n\n", "\n\n", "SHOP", "é", "3456", "3456",
    "77", "1.00", "-2.50", "$3.25", "12.5", "Credits\n\n", "FOR THIS PERIOD", "TOTAL", "x",
    " 77 3456 1.00\n\n", "01/15 01/16 SHOP 77 3456 1.00\n\n", "01/17 01/18 CAFE 78 3456 2.25\n\n",
    "TOTAL FOR THIS PERIOD $3.25\n\n",
];

#[test]
fn card_transactions_as_nom_reads_them() {
    let start = Date { year: 2023, month: 12, day: 5 };
    let mut dice = Dice(8);
    for _ in 0..40000 {
        let text = dice.text(&CARD_WORDS, 9);
        same(
            &text,
            card::transaction(text.as_bytes(), start, b"3456", card::TransactionType::Credit)
                .map(|(rest, t)| (rest, card_entry(t))),
            nom_card_entry(start, "3456")(&text),
            |entry| entry,
        );
    }
}

fn same_entries<T, U: PartialEq + std::fmt::Debug>(
    text: &str,
    ours: Result<(&[u8], Vec<T>), ParseError>,
    theirs: IResult<&str, Vec<U>>,
    convert: impl Fn(T) -> U,
) {
    let ours = ours.map(|(rest, list)| (rest, list.into_iter().map(&convert).collect::<Vec<U>>()));
    same(text, ours, theirs, |list| list);
}

fn nom_card_section<'a>(
    input: &'a str,
    start: Date,
    account: &'a str,
    header: &'a str,
) -> IResult<&'a str, Vec<CardEntry>> {
    let (input, _) = preceded(take_until(header), tag(header))(input)?;
    let (input, list) = many0(nom_card_entry(start, account))(input)?;
    let (input, _) = terminated(
        preceded(take_until("FOR THIS PERIOD"), tag("FOR THIS PERIOD")),
        multispace1,
    )(input)?;
    let (input, declared) = terminated(amount, tag("\n\n"))(input)?;
    if list.iter().map(|entry| entry.5 as i64).sum::<i64>() != declared as i64 {
        return refuse(input);
    }
    Ok((input, list))
}

fn card_section_text(dice: &mut Dice) -> String {
    let names = ["SHOP", "CAFE 24", "é TEA", "PAY 1.00 NOW", "A\nB", "3456 X", "77 345"];
    let mut text = dice.mostly("ads 3456\nCredits\n\n".to_string(), &CARD_WORDS);
    let mut sum = 0;
    for _ in 0..dice.roll(4) {
        let units = dice.units();
        sum += units;
        let entry = format!(
            "{} {} {} {} 3456 {}\n\n",
            dice.short_day(),
            dice.short_day(),
            names[dice.roll(names.len())],
            dice.roll(1000),
            written(units)
        );
        text.push_str(&dice.mostly(entry, &CARD_WORDS));
    }
    if dice.roll(4) == 0 {
        sum += 1;
    }
    let total = format!("TOTAL FOR THIS PERIOD {}\n\n", written(sum));
    text.push_str(&dice.mostly(total, &CARD_WORDS));
    text.push_str(&dice.text(&CARD_WORDS, 2));
    text
}

#[test]
fn card_sections_as_nom_reads_them() {
    let start = Date { year: 2023, month: 6, day: 5 };
    let mut dice = Dice(9);
    let mut accepted = 0;
    let mut entries = 0;
    for _ in 0..30000 {
        let text = card_section_text(&mut dice);
        let ours = card::transaction_section(
            text.as_bytes(),
            start,
            b"3456",
            b"Credits\n\n",
            card::TransactionType::Credit,
        );
        let ours = ours.map(|(rest, list)| {
            assert!(list.iter().all(|t| t.type_ == card::TransactionType::Credit));
            accepted += 1;
            entries += list.len();
            (rest, list)
        });
        same_entries(&text, ours, nom_card_section(&text, start, "3456", "Credits\n\n"), card_entry);
    }
    assert!(accepted > 3000);
    assert!(entries > accepted);
}

type Entry = (Date, String, i32);

fn nom_checking_amount<'a>(footer: &'a str) -> impl Fn(&'a str) -> IResult<&'a str, i32> {
    move |input| {
        let (input, units) = preceded(multispace0, amount)(input)?;
        let (input, _) =
            peek(preceded(multispace0, alt((recognize(slashed_date), tag(footer)))))(input)?;
        Ok((input, units))
    }
}

fn nom_checking_entry<'a>(footer: &'a str) -> impl Fn(&'a str) -> IResult<&'a str, Entry> {
    move |input| {
        let (input, date) = terminated(slashed_date, multispace1)(input)?;
        let (input, (letters, units)) = many_till(anychar, nom_checking_amount(footer))(input)?;
        let (input, _) = multispace1(input)?;
        Ok((input, (date, letters.into_iter().collect(), units)))
    }
}

fn nom_checking_section<'a>(
    input: &'a str,
    header: &'a str,
    footer: &'a str,
) -> IResult<&'a str, Vec<Entry>> {
    let (input, _) = preceded(take_until(header), tag(header))(input)?;
    let (input, _) = delimited(
        multispace0,
        alt((tag("Date Description Amount"), tag("Date Transaction description Amount"))),
        multispace0,
    )(input)?;
    let (input, list) = many0(nom_checking_entry(footer))(input)?;
    let (input, _) = tag(footer)(input)?;
    let (input, declared) = preceded(multispace1, amount)(input)?;
    if list.iter().map(|entry| entry.2 as i64).sum::<i64>() != declared as i64 {
        return refuse(input);
    }
    Ok((input, list))
}

const CHECKING_WORDS: [&str; 24] = [
    "1/5/24", "12/31/23", "2/30/24", " ", " ", "\n", "\n", "PAY", "é", "5.00", "-2.50", "$7.50",
    "Total in", "Total in", "In", "Date Description Amount", "Date Transaction description Amount",
    "x", "1/5/24 PAY 5.00\n", "1/6/24 MORE PAY\nID 4 2.50\n", "Total in $7.50", "3", "/", "Date",
];

#[test]
fn checking_transactions_as_nom_reads_them() {
    let mut dice = Dice(10);
    for _ in 0..40000 {
        let text = dice.text(&CHECKING_WORDS, 8);
        same(
            &text,
            checking::dollar_amount_and_date_or_footer_follows(text.as_bytes(), b"Total in"),
            nom_checking_amount("Total in")(&text),
            |units| units,
        );
        same(
            &text,
            checking::transaction(text.as_bytes(), b"Total in", checking::TransactionType::Deposit)
                .map(|(rest, t)| (rest, (t.date, String::from_utf8(t.description).unwrap(), t.amount))),
            nom_checking_entry("Total in")(&text),
            |entry| entry,
        );
    }
}

fn checking_section_text(dice: &mut Dice) -> String {
    let names = ["PAY", "CHECK 101", "é TEA", "SAVE 1.00 NOW", "A\nB  C", "1/2/24", "Total"];
    let titles = ["Date Description Amount", "Date Transaction description Amount"];
    let mut text = dice.mostly("summary In\n".to_string(), &CHECKING_WORDS);
    let title = format!("{}\n", titles[dice.roll(2)]);
    text.push_str(&dice.mostly(title, &CHECKING_WORDS));
    let mut sum = 0;
    for _ in 0..dice.roll(4) {
        let units = dice.units();
        sum += units;
        let entry = format!(
            "{}/{}/{} {} {}\n",
            1 + dice.roll(12),
            1 + dice.roll(29),
            20 + dice.roll(6),
            names[dice.roll(names.len())],
            written(units)
        );
        text.push_str(&dice.mostly(entry, &CHECKING_WORDS));
    }
    if dice.roll(4) == 0 {
        sum += 1;
    }
    let total = format!("Total in {}", written(sum));
    text.push_str(&dice.mostly(total, &CHECKING_WORDS));
    text.push_str(&dice.text(&CHECKING_WORDS, 2));
    text
}

#[test]
fn checking_sections_as_nom_reads_them() {
    let mut dice = Dice(11);
    let mut accepted = 0;
    let mut entries = 0;
    for _ in 0..30000 {
        let text = checking_section_text(&mut dice);
        let ours = checking::transaction_section(
            text.as_bytes(),
            b"In",
            b"Total in",
            checking::TransactionType::Deposit,
        );
        let ours = ours.map(|(rest, list)| {
            accepted += 1;
            entries += list.len();
            (rest, list)
        });
        same_entries(&text, ours, nom_checking_section(&text, "In", "Total in"), |t| {
            (t.date, String::from_utf8(t.description).unwrap(), t.amount)
        });
    }
    assert!(accepted > 3000);
    assert!(entries > accepted);
}

fn nom_chase_entry<'a>(start: Date) -> impl Fn(&'a str) -> IResult<&'a str, Entry> {
    move |input| {
        let (input, date) = preceded(tag("  "), short_date(start))(input)?;
        let (input, _) = multispace1(input)?;
        let (input, (letters, units)) =
            many_till(anychar, delimited(multispace0, amount, newline))(input)?;
        let (input, (lines, _)) = many_till(
            delimited(multispace0, not_line_ending, newline),
            peek(alt((value((), preceded(tag("  "), nom_month_day)), value((), newline)))),
        )(input)?;
        let (input, _) = cond(!lines.is_empty(), opt(newline))(input)?;
        let mut words: String = letters.into_iter().collect();
        for line in lines {
            words.push('\n');
            words.push_str(line);
        }
        Ok((input, (date, words, units)))
    }
}

const CHASE_WORDS: [&str; 24] = [
    "  ", "  ", " ", "\n", "\n", "\n\n", "\r\n", "12/20", "01/02", "2/30", "SHOP", "é", "5.50",
    "-100.00", "Order 7", "PURCHASE", "  12/20 SHOP 5.50\n", "  01/02 BOOKS 70.00\n  Order 7\n\n",
    "  Gift wrap\n", "x", "/", "1", "  01/03 TEA 1.00\n\n", "\t",
];

#[test]
fn chase_transactions_as_nom_reads_them() {
    let start = Date { year: 2023, month: 12, day: 5 };
    let mut dice = Dice(12);
    let mut accepted = 0;
    for _ in 0..60000 {
        let text = dice.text(&CHASE_WORDS, 9);
        let ours = chase::transaction(text.as_bytes(), start, chase::TransactionType::Purchase)
            .map(|(rest, t)| (rest, (t.date, String::from_utf8(t.description).unwrap(), t.amount)));
        accepted += ours.is_ok() as usize;
        same(&text, ours, nom_chase_entry(start)(&text), |entry| entry);
    }
    assert!(accepted > 100);
}

fn chase_section_text(dice: &mut Dice) -> String {
    let names = ["SHOP", "COFFEE  SHOP", "é TEA", "SAVE 1.00 NOW", "12/20 X"];
    let more = ["Order 7", "Gift wrap 2.00", "é", "12/20", "1.00"];
    let mut text = dice.mostly("ACTIVITY PURCHASE\n\n".to_string(), &CHASE_WORDS);
    for _ in 0..dice.roll(4) {
        let mut entry = format!(
            "  {}     {}      {}\n",
            dice.short_day(),
            names[dice.roll(names.len())],
            written(dice.units())
        );
        let lines = dice.roll(3);
        for _ in 0..lines {
            entry.push_str(&format!("   {}\n", more[dice.roll(more.len())]));
        }
        if (lines > 0 && dice.roll(2) == 0) || dice.roll(4) == 0 {
            entry.push('\n');
        }
        text.push_str(&dice.mostly(entry, &CHASE_WORDS));
    }
    text.push_str(&dice.text(&CHASE_WORDS, 2));
    text
}

#[test]
fn chase_sections_as_nom_reads_them() {
    let start = Date { year: 2023, month: 6, day: 5 };
    let mut dice = Dice(13);
    let mut entries = 0;
    let mut continued = 0;
    for _ in 0..30000 {
        let text = chase_section_text(&mut dice);
        let theirs: IResult<&str, Vec<Entry>> = preceded(
            tuple((take_until("PURCHASE"), tag("PURCHASE"), tag("\n\n"))),
            many0(nom_chase_entry(start)),
        )(&text);
        let ours = chase::transaction_section(
            text.as_bytes(),
            start,
            b"PURCHASE",
            chase::TransactionType::Purchase,
        );
        let ours = ours.map(|(rest, list)| {
            entries += list.len();
            continued += list.iter().filter(|t| t.description.contains(&b'\n')).count();
            (rest, list)
        });
        same_entries(&text, ours, theirs, |t| {
            (t.date, String::from_utf8(t.description).unwrap(), t.amount)
        });
    }
    assert!(entries > 20000);
    assert!(continued > 3000);
}

fn nom_period(input: &str) -> IResult<&str, (Date, Date)> {
    let day_in_words = |input| separated_pair(nom_month_word, multispace1, nom::character::complete::u32)(input);
    let (rest, ((from_month, from_day), (to_month, to_day))) =
        separated_pair(day_in_words, tag(" - "), day_in_words)(input)?;
    let (rest, to_year) = delimited(tag(", "), nom::character::complete::i32, multispace0)(rest)?;
    let from_year = if from_month.number_from_month() > to_month.number_from_month() {
        to_year.checked_sub(1)
    } else {
        Some(to_year)
    };
    let from = from_year.and_then(|y| NaiveDate::from_ymd_opt(y, from_month.number_from_month(), from_day));
    let to = NaiveDate::from_ymd_opt(to_year, to_month.number_from_month(), to_day);
    match (from, to) {
        (Some(from), Some(to)) => Ok((rest, (as_date(from), as_date(to)))),
        _ => refuse(input),
    }
}

fn skip_to<'a>(phrase: &'a str) -> impl Fn(&'a str) -> IResult<&'a str, ()> {
    move |input| value((), preceded(take_until(phrase), tag(phrase)))(input)
}

type CardStatement = (String, Date, Date, i32, i32, Vec<(u8, CardEntry)>, i32);

fn nom_card_statement(input: &str) -> IResult<&str, CardStatement> {
    let (input, number) = preceded(skip_to("Account# "), is_a("0123456789 "))(input)?;
    let (input, (from, to)) = preceded(multispace0, nom_period)(input)?;
    let (input, before) = preceded(skip_to("Previous Balance "), amount)(input)?;
    let (input, after) = preceded(skip_to("New Balance Total "), amount)(input)?;
    if number.len() < 4 {
        return refuse(input);
    }
    let digits = &number[number.len() - 4..];
    let mut list = Vec::new();
    let (input, credits) = nom_card_section(input, from, digits, "Payments and Other Credits\n\n")?;
    list.extend(credits.into_iter().map(|entry| (0, entry)));
    let (input, purchases) = nom_card_section(input, from, digits, "Purchases and Adjustments\n\n")?;
    list.extend(purchases.into_iter().map(|entry| (1, entry)));
    let (input, fees_follow) = peek(opt(tag("Fees\n\n")))(input)?;
    let input = if fees_follow.is_some() {
        let (input, fees) = nom_card_section(input, from, digits, "Fees\n\n")?;
        list.extend(fees.into_iter().map(|entry| (2, entry)));
        input
    } else {
        input
    };
    let (input, interest) = preceded(
        terminated(skip_to("TOTAL INTEREST CHARGED FOR THIS PERIOD"), multispace1),
        amount,
    )(input)?;
    let listed: i64 = list.iter().map(|(_, entry)| entry.5 as i64).sum::<i64>() + interest as i64;
    if after as i64 - before as i64 != listed {
        return refuse(input);
    }
    Ok((input, (number.to_string(), from, to, before, after, list, interest)))
}

fn card_statement_text(dice: &mut Dice) -> String {
    let words = [
        "Fees\n\n", "Account# ", "12", " ", "\n", "Jan 1 - Jan 31, 2024", ", ", " - ", "Feb 30",
        "$1.00", "Previous Balance ", "New Balance Total ", "x", "Interest",
    ];
    let numbers = ["1234 5678 9012 3456", "3456", "456", "12 3456 ", "0000111122223456"];
    let periods = [
        "Jan 1 - Jan 31, 2024", "December 28 - January 25, 2024", "Jun 5 - Jul 4, 2023",
        "Feb 1 - Feb 29, 2023", "Nov 30 -  Dec 1, 2023", "Jan 1 - Jan 31 2024",
    ];
    let names = ["SHOP", "CAFE 24", "é TEA", "PAY 1.00 NOW", "A\nB", "77 345"];
    let number = numbers[dice.roll(numbers.len())];
    let mut text = dice.mostly(format!("Bank\nAccount# {}\n", number), &words);
    let period = format!("{}\n", periods[dice.roll(periods.len())]);
    text.push_str(&dice.mostly(period, &words));
    let before = dice.units();
    text.push_str(&dice.mostly(format!("Previous Balance {}\n", written(before)), &words));
    let mut body = String::new();
    let mut listed = 0;
    let sections = 2 + dice.roll(2);
    let headers = ["Payments and Other Credits\n\n", "Purchases and Adjustments\n\n", "Fees\n\n"];
    for header in &headers[..sections] {
        body.push_str(&dice.mostly(header.to_string(), &words));
        let mut sum = 0;
        for _ in 0..dice.roll(3) {
            let units = dice.units();
            sum += units;
            let entry = format!(
                "{} {} {} {} 3456 {}\n\n",
                dice.short_day(),
                dice.short_day(),
                names[dice.roll(names.len())],
                dice.roll(1000),
                written(units)
            );
            body.push_str(&dice.mostly(entry, &words));
        }
        listed += sum;
        if dice.roll(10) == 0 {
            sum += 1;
        }
        let total = format!("TOTAL FOR THIS PERIOD {}\n\n", written(sum));
        body.push_str(&dice.mostly(total, &words));
    }
    let interest = dice.roll(500) as i32;
    let mut after = before + listed + interest;
    if dice.roll(6) == 0 {
        after += 1;
    }
    text.push_str(&dice.mostly(format!("New Balance Total {}\n", written(after)), &words));
    text.push_str(&body);
    let last = format!("Interest\nTOTAL INTEREST CHARGED FOR THIS PERIOD {}\n", written(interest));
    text.push_str(&dice.mostly(last, &words));
    text
}

#[test]
fn card_statements_as_nom_reads_them() {
    let mut dice = Dice(14);
    let mut accepted = 0;
    let mut with_fees = 0;
    for _ in 0..20000 {
        let text = card_statement_text(&mut dice);
        let ours = card::parse_statement(text.as_bytes()).map(|(rest, s)| {
            accepted += 1;
            let list: Vec<(u8, CardEntry)> = s
                .transactions
                .into_iter()
                .map(|t| {
                    let kind = match t.type_ {
                        card::TransactionType::Credit => 0,
                        card::TransactionType::Purchase => 1,
                        card::TransactionType::Fee => 2,
                    };
                    (kind, card_entry(t))
                })
                .collect();
            with_fees += list.iter().any(|(kind, _)| *kind == 2) as usize;
            let number = String::from_utf8(s.account_number).unwrap();
            (rest, (number, s.start_date, s.end_date, s.start_balance, s.end_balance, list, s.total_interest))
        });
        same(&text, ours, nom_card_statement(&text), |statement| statement);
    }
    assert!(accepted > 1000);
    assert!(with_fees > 300);
}

type CheckingStatement = (String, Date, Date, i32, i32, Vec<(u8, Entry)>);

fn nom_checking_statement(input: &str) -> IResult<&str, CheckingStatement> {
    let (input, number) = preceded(
        skip_to("Account number:"),
        recognize(many1_count(preceded(multispace0, digit1))),
    )(input)?;
    let (input, from) = preceded(skip_to("Beginning balance on "), nom_date_in_words)(input)?;
    let (input, before) = preceded(multispace0, amount)(input)?;
    let (input, to) = preceded(skip_to("Ending balance on "), nom_date_in_words)(input)?;
    let (input, after) = preceded(multispace0, amount)(input)?;
    let mut list = Vec::new();
    let (input, deposits) = nom_checking_section(
        input,
        "Deposits and other additions",
        "Total deposits and other additions",
    )?;
    list.extend(deposits.into_iter().map(|entry| (0, entry)));
    let (input, withdrawals) = nom_checking_section(
        input,
        "Withdrawals and other subtractions",
        "Total withdrawals and other subtractions",
    )?;
    list.extend(withdrawals.into_iter().map(|entry| (1, entry)));
    let (input, fees_named) = peek(opt(take_until("Service fees")))(input)?;
    let input = if fees_named.is_some() {
        let (input, fees) = nom_checking_section(input, "Service fees", "Total service fees")?;
        list.extend(fees.into_iter().map(|entry| (2, entry)));
        input
    } else {
        input
    };
    if after as i64 - before as i64 != list.iter().map(|(_, entry)| entry.2 as i64).sum::<i64>() {
        return refuse(input);
    }
    Ok((input, (number.to_string(), as_date(from), as_date(to), before, after, list)))
}

fn checking_statement_text(dice: &mut Dice) -> String {
    let words = [
        "Service fees", "Account number:", "12", " ", "\n", "January 1, 2024", "$1.00", "x",
        "Date Description Amount", "Total service fees", "1/2/24",
    ];
    let names = ["PAY", "CHECK 101", "é TEA", "SAVE 1.00 NOW", "A\nB  C", "Total"];
    let sections = [
        ("Deposits and other additions", "Total deposits and other additions"),
        ("Withdrawals and other subtractions", "Total withdrawals and other subtractions"),
        ("Service fees", "Total service fees"),
    ];
    let before = dice.units();
    let mut body = String::new();
    let mut listed = 0;
    for (header, footer) in &sections[..2 + dice.roll(2)] {
        let head = format!("{}\nDate Description Amount\n", header);
        body.push_str(&dice.mostly(head, &words));
        let mut sum = 0;
        for _ in 0..dice.roll(3) {
            let units = dice.units();
            sum += units;
            let entry = format!(
                "{}/{}/{} {} {}\n",
                1 + dice.roll(12),
                1 + dice.roll(29),
                20 + dice.roll(6),
                names[dice.roll(names.len())],
                written(units)
            );
            body.push_str(&dice.mostly(entry, &words));
        }
        listed += sum;
        if dice.roll(10) == 0 {
            sum += 1;
        }
        let total = format!("{} {}\n\n", footer, written(sum));
        body.push_str(&dice.mostly(total, &words));
    }
    let mut after = before + listed;
    if dice.roll(6) == 0 {
        after += 1;
    }
    let mut text = dice.mostly("Account number: 1234 5678 9012\n".to_string(), &words);
    let begin = format!("Beginning balance on January {}, 2024 {}\n", 1 + dice.roll(31), written(before));
    text.push_str(&dice.mostly(begin, &words));
    let end = format!("Ending balance on Feb {} 2024   {}\n\n", 20 + dice.roll(11), written(after));
    text.push_str(&dice.mostly(end, &words));
    text.push_str(&body);
    text.push_str(&dice.text(&words, 2));
    text
}

#[test]
fn checking_statements_as_nom_reads_them() {
    let mut dice = Dice(15);
    let mut accepted = 0;
    let mut without_fees = 0;
    for _ in 0..20000 {
        let text = checking_statement_text(&mut dice);
        let ours = checking::parse_statement(text.as_bytes()).map(|(rest, s)| {
            accepted += 1;
            let list: Vec<(u8, Entry)> = s
                .transactions
                .into_iter()
                .map(|t| {
                    let kind = match t.type_ {
                        checking::TransactionType::Deposit => 0,
                        checking::TransactionType::Withdrawal => 1,
                        checking::TransactionType::Fee => 2,
                    };
                    (kind, (t.date, String::from_utf8(t.description).unwrap(), t.amount))
                })
                .collect();
            without_fees += list.iter().all(|(kind, _)| *kind != 2) as usize;
            let number = String::from_utf8(s.account_number).unwrap();
            (rest, (number, s.start_date, s.end_date, s.start_balance, s.end_balance, list))
        });
        same(&text, ours, nom_checking_statement(&text), |statement| statement);
    }
    assert!(accepted > 1000);
    assert!(without_fees > 300);
    assert!(accepted - without_fees > 300);
}

type ChaseStatement = (String, Date, Date, i32, i32, Vec<(u8, Entry)>);

fn nom_chase_statement(input: &str) -> IResult<&str, ChaseStatement> {
    let (input, _) = skip_to("ACCOUNT SUMMARY")(input)?;
    let (input, number) = preceded(
        skip_to("Account Number: "),
        recognize(many1_count(preceded(multispace0, digit1))),
    )(input)?;
    let (input, before) = preceded(skip_to("Previous Balance"), preceded(multispace0, amount))(input)?;
    let (input, after) = preceded(skip_to("New Balance"), preceded(multispace0, amount))(input)?;
    let (input, _) = delimited(multispace0, tag("Opening/Closing Date"), multispace0)(input)?;
    let (input, (from, to)) = separated_pair(slashed_date, tag(" - "), slashed_date)(input)?;
    let (input, _) = skip_to("ACCOUNT ACTIVITY")(input)?;
    let mut list = Vec::new();
    let (input, credits) = preceded(
        tuple((skip_to("PAYMENTS AND OTHER CREDITS"), tag("\n\n"))),
        many0(nom_chase_entry(from)),
    )(input)?;
    list.extend(credits.into_iter().map(|entry| (0, entry)));
    let (input, purchases) =
        preceded(tuple((skip_to("PURCHASE"), tag("\n\n"))), many0(nom_chase_entry(from)))(input)?;
    list.extend(purchases.into_iter().map(|entry| (1, entry)));
    if after as i64 - before as i64 != list.iter().map(|(_, entry)| entry.2 as i64).sum::<i64>() {
        return refuse(input);
    }
    Ok((input, (number.to_string(), from, to, before, after, list)))
}

fn chase_statement_text(dice: &mut Dice) -> String {
    let words = [
        "PURCHASE", "ACCOUNT SUMMARY", "12", " ", "\n", "12/05/23", "$1.00", "x", "\n\n",
        "Opening/Closing Date", "ACCOUNT ACTIVITY",
    ];
    let names = ["SHOP", "COFFEE  SHOP", "é TEA", "SAVE 1.00 NOW", "12/20 X"];
    let more = ["Order 7", "Gift wrap 2.00", "é"];
    let before = dice.units();
    let mut body = String::new();
    let mut listed = 0;
    for header in ["PAYMENTS AND OTHER CREDITS", "PURCHASE"] {
        body.push_str(&dice.mostly(format!("{}\n\n", header), &words));
        for _ in 0..dice.roll(3) {
            let units = dice.units();
            listed += units;
            let mut entry = format!(
                "  {}     {}      {}\n",
                dice.short_day(),
                names[dice.roll(names.len())],
                written(units)
            );
            let lines = dice.roll(3);
            for _ in 0..lines {
                entry.push_str(&format!("   {}\n", more[dice.roll(more.len())]));
            }
            if lines > 0 && dice.roll(2) == 0 {
                entry.push('\n');
            }
            body.push_str(&dice.mostly(entry, &words));
        }
        body.push('\n');
    }
    let mut after = before + listed;
    if dice.roll(6) == 0 {
        after += 1;
    }
    let mut text = dice.mostly("ACCOUNT SUMMARY\n".to_string(), &words);
    text.push_str(&dice.mostly("  Account Number: 4111 1111 1111 1111\n".to_string(), &words));
    text.push_str(&dice.mostly(format!("Previous Balance      {}\n", written(before)), &words));
    text.push_str(&dice.mostly(format!("New Balance  {}\n", written(after)), &words));
    let dates = format!("Opening/Closing Date   {}/05/23 - 01/04/24\n", 1 + dice.roll(12));
    text.push_str(&dice.mostly(dates, &words));
    text.push_str(&dice.mostly("ACCOUNT ACTIVITY\n".to_string(), &words));
    text.push_str(&body);
    text
}

#[test]
fn chase_statements_as_nom_reads_them() {
    let mut dice = Dice(16);
    let mut accepted = 0;
    for _ in 0..20000 {
        let text = chase_statement_text(&mut dice);
        let ours = chase::parse_statement(text.as_bytes()).map(|(rest, s)| {
            accepted += 1;
            assert_eq!(s.total_interest, 0);
            let list: Vec<(u8, Entry)> = s
                .transactions
                .into_iter()
                .map(|t| {
                    let kind = match t.type_ {
                        chase::TransactionType::Credit => 0,
                        chase::TransactionType::Purchase => 1,
                        chase::TransactionType::Fee => 2,
                    };
                    (kind, (t.date, String::from_utf8(t.description).unwrap(), t.amount))
                })
                .collect();
            let number = String::from_utf8(s.account_number).unwrap();
            (rest, (number, s.start_date, s.end_date, s.start_balance, s.end_balance, list))
        });
        same(&text, ours, nom_chase_statement(&text), |statement| statement);
    }
    assert!(accepted > 1000);
}

fn nom_earlier_amount_parts(input: &str) -> IResult<&str, (bool, Vec<&str>, &str)> {
    let (input, minus) = opt(one('-'))(input)?;
    let (input, _) = opt(one('$'))(input)?;
    let (input, groups) = separated_list1(one(','), digit1)(input)?;
    let (input, cents) = preceded(one('.'), digit1)(input)?;
    Ok((input, (minus.is_some(), groups, cents)))
}

#[test]
fn earlier_layout_amounts_split_as_nom_splits_them() {
    let words = [
        "-", "+", "$", ",", ".", "0", "1", "9", "12", "345", "00", "99", "21474836", "47", "48",
        " ", "x",
    ];
    let mut dice = Dice(17);
    let mut accepted = 0;
    for _ in 0..60000 {
        let text = dice.text(&words, 7);
        let ours = earlier::dollar_amount(text.as_bytes());
        let expected = match nom_earlier_amount_parts(&text) {
            Ok((_, (minus, groups, cents))) if cents.len() == 2 => {
                let whole: u128 = groups.concat().chars().fold(0u128, |n, c| {
                    n.saturating_mul(10).saturating_add(c.to_digit(10).unwrap() as u128)
                });
                let units = whole.saturating_mul(100) + cents[..2].parse::<u128>().unwrap();
                let unread = cents.len() - 2
                    + (text.len() - (cents.as_ptr() as usize - text.as_ptr() as usize) - cents.len());
                if units <= i32::MAX as u128 {
                    let units = units as i32;
                    Some((unread, if minus { -units } else { units }))
                } else {
                    None
                }
            }
            _ => None,
        };
        match (ours, expected) {
            (Ok((rest, amount)), Some((unread, units))) => {
                accepted += 1;
                assert_eq!(rest.len(), unread, "rest differs on {:?}", text);
                assert_eq!(amount, units, "value differs on {:?}", text);
            }
            (Err(_), None) => {}
            (ours, expected) => panic!("on {:?}: {:?} against {:?}", text, ours, expected),
        }
    }
    assert!(accepted > 100);
}

fn earlier_amount(input: &str) -> IResult<&str, i32> {
    lift(input, earlier::dollar_amount(input.as_bytes()))
}

fn nom_earlier_entry<'a>(
    start: Date,
    account: &'a str,
) -> impl Fn(&'a str) -> IResult<&'a str, CardEntry> {
    move |input| {
        let (input, date) = terminated(short_date(start), multispace1)(input)?;
        let (input, posted) = terminated(short_date(start), multispace1)(input)?;
        let (input, (letters, (number, digits))) = many_till(
            anychar,
            preceded(multispace1, separated_pair(digit1, multispace1, tag(account))),
        )(input)?;
        let (input, units) = delimited(multispace1, earlier_amount, tag("\n\n"))(input)?;
        let words: String = letters.into_iter().collect();
        Ok((input, (date, posted, words, number.to_string(), digits.to_string(), units)))
    }
}

fn nom_earlier_section<'a>(
    input: &'a str,
    start: Date,
    account: &'a str,
    header: &'a str,
) -> IResult<&'a str, Vec<CardEntry>> {
    let (input, _) = skip_to(header)(input)?;
    let (input, list) = many0(nom_earlier_entry(start, account))(input)?;
    let (input, _) = terminated(skip_to("FOR THIS PERIOD"), multispace1)(input)?;
    let (input, declared) = terminated(earlier_amount, tag("\n\n"))(input)?;
    if list.iter().map(|entry| entry.5 as i64).sum::<i64>() != declared as i64 {
        return refuse(input);
    }
    Ok((input, list))
}

type EarlierStatement = (String, Date, Date, Vec<(u8, CardEntry)>, i32);

fn nom_earlier_statement(input: &str) -> IResult<&str, EarlierStatement> {
    let (input, number) = preceded(skip_to("Account# "), is_a("0123456789 "))(input)?;
    let (input, (from, to)) = preceded(multispace0, nom_period)(input)?;
    if number.len() < 4 {
        return refuse(input);
    }
    let digits = &number[number.len() - 4..];
    let mut list = Vec::new();
    let (input, credits) =
        nom_earlier_section(input, from, digits, "Payments and Other Credits\n\n")?;
    list.extend(credits.into_iter().map(|entry| (0, entry)));
    let (input, purchases) =
        nom_earlier_section(input, from, digits, "Purchases and Adjustments\n\n")?;
    list.extend(purchases.into_iter().map(|entry| (1, entry)));
    let (input, fees_follow) = peek(opt(tag("Fees\n\n")))(input)?;
    let input = if fees_follow.is_some() {
        let (input, fees) = nom_earlier_section(input, from, digits, "Fees\n\n")?;
        list.extend(fees.into_iter().map(|entry| (2, entry)));
        input
    } else {
        input
    };
    let (input, interest) = preceded(
        terminated(skip_to("TOTAL INTEREST CHARGED FOR THIS PERIOD"), multispace1),
        earlier_amount,
    )(input)?;
    Ok((input, (number.to_string(), from, to, list, interest)))
}

#[test]
fn earlier_layout_statements_as_nom_reads_them() {
    let mut dice = Dice(18);
    let mut accepted = 0;
    for _ in 0..20000 {
        let text = card_statement_text(&mut dice);
        let ours = earlier::parse_statement(text.as_bytes()).map(|(rest, s)| {
            accepted += 1;
            let list: Vec<(u8, CardEntry)> = s
                .transactions
                .into_iter()
                .map(|t| {
                    let kind = match t.type_ {
                        earlier::TransactionType::Credit => 0,
                        earlier::TransactionType::Purchase => 1,
                        earlier::TransactionType::Fee => 2,
                    };
                    let entry = (
                        t.date,
                        t.posting_date,
                        String::from_utf8(t.description).unwrap(),
                        String::from_utf8(t.reference_number).unwrap(),
                        String::from_utf8(t.account_number).unwrap(),
                        t.amount,
                    );
                    (kind, entry)
                })
                .collect();
            let number = String::from_utf8(s.account_number).unwrap();
            (rest, (number, s.start_date, s.end_date, list, s.total_interest))
        });
        same(&text, ours, nom_earlier_statement(&text), |statement| statement);
    }
    assert!(accepted > 1000);
}
