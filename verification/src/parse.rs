//! Reading the text of a commit's input into a document.

use crate::document::{Date, Item};
use crate::since::valid_date;
use vstd::prelude::*;

verus! {

/// `toml::Value`: a value of a TOML document, carried from the parser to
/// [`lower`] and not looked into.
#[verifier::external_type_specification]
#[verifier::external_body]
pub struct ExValue(toml::Value);

/// `toml::de::Error`: the error of the parser, not looked into.
#[verifier::external_type_specification]
#[verifier::external_body]
pub struct ExError(toml::de::Error);

/// The document that a text in TOML stands for; nothing where the text is
/// not TOML.
pub uninterp spec fn parsed_toml(text: Seq<char>) -> Option<Item>;

/// The item that a value of `toml` holds.
pub uninterp spec fn lowered(value: toml::Value) -> Item;

/// `str::parse` into `toml::Table`: the table that the text stands for, or
/// the parser's error. The contract names what the parser makes of a text
/// and claims that it is a table.
#[verifier::external_body]
fn parse_toml(text: &str) -> (r: Result<toml::Value, toml::de::Error>)
    ensures
        match r {
            Ok(v) => parsed_toml(text@) == Some(lowered(v)) && lowered(v) is Table,
            Err(_) => parsed_toml(text@) is None,
        },
{
    text.parse::<toml::Table>().map(toml::Value::Table)
}

/// Moves what a `toml::Value` holds into an [`Item`], variant by variant. Of
/// a float only its presence is kept, of a date-time only its date.
#[verifier::external_body]
fn lower(value: &toml::Value) -> (r: Item)
    ensures
        r == lowered(*value),
{
    match value {
        toml::Value::String(s) => Item::Text(s.clone()),
        toml::Value::Integer(i) => Item::Integer(*i),
        toml::Value::Float(_) => Item::Float,
        toml::Value::Boolean(b) => Item::Bool(*b),
        toml::Value::Datetime(d) => Item::Datetime(
            d.date.map(|x| Date { year: x.year, month: x.month, day: x.day }),
        ),
        toml::Value::Array(a) => Item::Array(a.iter().map(lower).collect()),
        toml::Value::Table(t) => Item::Table(
            t.iter().map(|(k, v)| (k.clone(), lower(v))).collect(),
        ),
    }
}

/// Whether a document can write the day: its year has four digits at most,
/// and the calendar has the day.
pub open spec fn writable_date(year: u16, month: u16, day: u16) -> bool {
    year <= 9999 && valid_date(year as int, month as int, day as int)
}

/// `format!` with `{:04}-{:02}-{:02}`, `str::parse` into
/// `toml::value::Datetime`, and its field `date`: the date that the three
/// numbers spell as a date of TOML. The contract claims that the parser
/// takes a year of four digits and a day that the calendar has, and gives
/// the numbers back.
#[verifier::external_body]
fn parse_date(year: u16, month: u16, day: u16) -> (r: Option<Date>)
    ensures
        match r {
            Some(d) => writable_date(year, month, day) && d.year == year && d.month == month
                && d.day == day,
            None => !writable_date(year, month, day),
        },
{
    let parsed = format!("{:04}-{:02}-{:02}", year, month, day).parse::<toml::value::Datetime>();
    parsed.ok().and_then(|d| d.date).map(|x| Date { year: x.year, month: x.month, day: x.day })
}

/// The date of a day, given as day, month and year, as a document writes
/// it; nothing where a document cannot write it.
pub fn array_to_date(arr: &[u16; 3]) -> (r: Option<Date>)
    ensures
        match r {
            Some(d) => writable_date(arr[2], arr[1], arr[0]) && d.year == arr[2] && d.month
                == arr[1] && d.day == arr[0],
            None => !writable_date(arr[2], arr[1], arr[0]),
        },
{
    parse_date(arr[2], arr[1], arr[0])
}

/// The text is not a document.
#[derive(Debug, Clone, Copy, PartialEq, Eq)]
pub struct SyntaxError;

/// Reads a text in TOML into a document: the pairs of its top-level table.
pub fn parse_document(text: &str) -> (r: Result<Vec<(String, Item)>, SyntaxError>)
    ensures
        match r {
            Ok(pairs) => parsed_toml(text@) == Some(Item::Table(pairs)),
            Err(_) => parsed_toml(text@) is None,
        },
{
    match parse_toml(text) {
        Ok(value) => match lower(&value) {
            Item::Table(pairs) => Ok(pairs),
            _ => Err(SyntaxError),
        },
        Err(_) => Err(SyntaxError),
    }
}

} // verus!
