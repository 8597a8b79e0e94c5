//! Calendar dates and the date fields of a section.
//!
//! The catalog writes a date as a month's name, a day and a year, with or
//! without a comma behind the day, and sometimes with a note behind the
//! year. Reading the three parts is left to `chrono`; what is handed to it,
//! and what becomes of its answer, is decided here.

use crate::error::{outcome, Error, ErrorView};
use crate::fields::{basic_field, Section};
use crate::text::{
    chars_of, count_of, find_char, index_of_nth, lemma_first_index_facts,
    lemma_index_of_nth_skip, lines, replace, replace_all, string_of,
};
use chrono::Datelike;
use vstd::prelude::*;

verus! {

/// A day of the calendar.
#[derive(Debug, Clone, Copy, PartialEq, Eq, Structural)]
pub struct Date {
    pub year: i32,
    pub month: u32,
    pub day: u32,
}

impl View for Date {
    type V = Date;

    open spec fn view(&self) -> Date {
        *self
    }
}

impl DeepView for Date {
    type V = Date;

    open spec fn deep_view(&self) -> Date {
        *self
    }
}

/// The error with which `chrono` rejects a text that is no date.
#[verifier::external_type_specification]
#[verifier::external_body]
pub struct ExParseError(chrono::format::ParseError);

/// The date that `chrono::NaiveDate::parse_from_str` reads from `text`
/// under the format `fmt`, or `None` where it rejects the text.
pub uninterp spec fn naive_date_from_str(text: Seq<char>, fmt: Seq<char>) -> Option<Date>;

/// Calls `chrono::NaiveDate::parse_from_str` and hands back the year, month
/// and day of the date it read. Nothing is proved of which texts it accepts:
/// the contract only names its answer.
#[verifier::external_body]
fn parse_naive_date(text: &str, fmt: &str) -> (r: Result<Date, chrono::format::ParseError>)
    ensures
        r is Ok <==> naive_date_from_str(text@, fmt@) is Some,
        r matches Ok(d) ==> naive_date_from_str(text@, fmt@) == Some(d),
{
    match chrono::NaiveDate::parse_from_str(text, fmt) {
        Ok(d) => Ok(Date { year: d.year(), month: d.month(), day: d.day() }),
        Err(e) => Err(e),
    }
}

/// The part of a date field's value that holds the date: the value up to
/// its third space, or all of it where it has fewer.
pub open spec fn date_head(value: Seq<char>) -> Seq<char> {
    value.take(index_of_nth(value, ' ', 3))
}

/// The text that is read as a date: the head of the value, with the month
/// that the catalog misspells put right.
pub open spec fn date_text(value: Seq<char>) -> Seq<char> {
    replace_all(date_head(value), "Febuary"@, "February"@)
}

/// Whether the date is written with a comma behind the day.
pub open spec fn date_has_comma(value: Seq<char>) -> bool {
    date_head(value).contains(',')
}

/// The format under which the value is read.
pub open spec fn date_format(value: Seq<char>) -> Seq<char> {
    if date_has_comma(value) {
        "%B %-d, %Y"@
    } else {
        "%B %-d %Y"@
    }
}

/// What the reading of a date gives for the field `field`.
pub open spec fn date_outcome(parsed: Option<Date>, field: Seq<char>) -> Result<Date, ErrorView> {
    match parsed {
        Some(d) => Ok(d),
        None => Err(ErrorView::DateParseFailure { field }),
    }
}

/// The date that a field's value holds.
pub open spec fn date_value(value: Seq<char>, field: Seq<char>) -> Result<Date, ErrorView> {
    date_outcome(naive_date_from_str(date_text(value), date_format(value)), field)
}

/// The field read as a date: absent where the section does not name it, and
/// a failure where its value is no date.
pub open spec fn date_field(lines: Seq<Seq<char>>, name: Seq<char>) -> Result<
    Option<Date>,
    ErrorView,
> {
    match basic_field(lines, name) {
        None => Ok(None),
        Some(value) => match date_value(value, name) {
            Ok(d) => Ok(Some(d)),
            Err(e) => Err(e),
        },
    }
}

/// Index of the `n`-th occurrence of `c` in `v`, or `v.len()`.
fn nth_index(v: &Vec<char>, c: char, n: usize) -> (i: usize)
    requires
        n >= 1,
    ensures
        i == index_of_nth(v@, c, n as nat),
        i <= v.len(),
{
    let mut i: usize = 0;
    let mut seen: usize = 0;
    proof {
        assert(v@.take(0) =~= Seq::<char>::empty());
    }
    while i < v.len()
        invariant
            i <= v.len(),
            seen < n,
            seen == count_of(v@.take(i as int), c),
        decreases v.len() - i,
    {
        proof {
            lemma_index_of_nth_skip(v@, c, n as nat, i as int);
            let rest = v@.skip(i as int);
            assert(rest[0] == v@[i as int]);
            let now = v@.take(i + 1);
            assert(now.drop_last() =~= v@.take(i as int));
            assert(now.last() == v@[i as int]);
        }
        if v[i] == c {
            if seen + 1 == n {
                return i;
            }
            seen += 1;
        }
        i += 1;
    }
    proof {
        lemma_index_of_nth_skip(v@, c, n as nat, i as int);
    }
    i
}

/// What is handed to the date reader for a field's value: the text, and
/// whether it is written with a comma.
pub fn date_input(value: &str) -> (r: (String, bool))
    ensures
        r.0@ == date_text(value@),
        r.1 == date_has_comma(value@),
{
    let v = chars_of(value);
    let end = nth_index(&v, ' ', 3);
    let head = string_of(&v, 0, end);
    let h = chars_of(head.as_str());
    proof {
        assert(h@.skip(0) =~= h@);
        lemma_first_index_facts(h@, ',');
    }
    let comma = find_char(&h, 0, ',') < h.len();
    (replace(head.as_str(), "Febuary", "February"), comma)
}

/// What the date reader's answer gives for the field `field`: the date, or
/// the failure that names the field.
pub fn date_from_parsed(field: &str, parsed: Result<Date, chrono::format::ParseError>) -> (r:
    Result<Date, Error>)
    ensures
        outcome(r) == date_outcome(parsed.ok(), field@),
{
    match parsed {
        Ok(d) => Ok(d),
        Err(_) => Err(Error::DateParseFailure { field: field.to_owned() }),
    }
}

/// The date that the value of the field `field` holds.
pub fn parse_date(value: &str, field: &str) -> (r: Result<Date, Error>)
    ensures
        outcome(r) == date_value(value@, field@),
{
    let (text, comma) = date_input(value);
    let parsed = if comma {
        parse_naive_date(text.as_str(), "%B %-d, %Y")
    } else {
        parse_naive_date(text.as_str(), "%B %-d %Y")
    };
    date_from_parsed(field, parsed)
}

impl Section {
    /// The field read as a date.
    pub fn date(&self, name: &str) -> (r: Result<Option<Date>, Error>)
        ensures
            outcome(r) == date_field(self@, name@),
    {
        match self.basic(name) {
            None => Ok(None),
            Some(value) => match parse_date(value.as_str(), name) {
                Ok(d) => Ok(Some(d)),
                Err(e) => Err(e),
            },
        }
    }
}

/// The field `name` of the section `s`, read as a date.
pub fn get_date_field(s: &str, name: &str) -> (r: Result<Option<Date>, Error>)
    ensures
        outcome(r) == date_field(lines(s@), name@),
{
    Section::parse(s).date(name)
}

} // verus!
