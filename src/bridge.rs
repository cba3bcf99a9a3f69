//! Calls into std and outside crates that the parsers rely on, with the
//! contracts that the rest of the library is proved against.

use vstd::prelude::*;

verus! {

/// The text that lossy UTF-8 decoding makes of `b`.
pub uninterp spec fn utf8_lossy(b: Seq<u8>) -> Seq<char>;

/// The rows that the `csv` crate reads from `text` with the field delimiter
/// `delimiter`, up to the end or to the first row it rejects.
pub uninterp spec fn csv_rows_of(text: Seq<char>, delimiter: u8) -> Seq<Seq<Seq<char>>>;

/// The instant that `chrono` reads from `s` in the format `fmt`, as
/// milliseconds since the Unix epoch.
pub uninterp spec fn datetime_millis_of(s: Seq<char>, fmt: Seq<char>) -> Option<i64>;

/// The calendar date that `chrono` reads from `s` in the format `fmt`, written
/// back in chrono's `YYYY-MM-DD` form.
pub uninterp spec fn date_text_of(s: Seq<char>, fmt: Seq<char>) -> Option<Seq<char>>;

/// Relies on `String::from_utf8_lossy`: every byte sequence decodes, invalid
/// parts as U+FFFD; empty input gives empty text.
#[verifier::external_body]
pub(crate) fn decode_lossy(b: &[u8]) -> (r: String)
    ensures
        r@ == utf8_lossy(b@),
        b@.len() == 0 ==> r@.len() == 0,
{
    String::from_utf8_lossy(b).into_owned()
}

/// Relies on `String`'s `FromIterator<&char>`: the text of the characters in order.
#[verifier::external_body]
pub(crate) fn string_of(c: &[char]) -> (r: String)
    ensures
        r@ == c@,
{
    c.iter().collect()
}

/// Relies on `csv::Reader::records` over a reader built with the given
/// delimiter and no header row: each row read, in order, until the end of the
/// text or the first error (such as a row whose field count differs from the
/// first row's).
#[verifier::external_body]
pub(crate) fn read_csv_rows(text: &str, delimiter: u8) -> (r: Vec<Vec<String>>)
    ensures
        r.deep_view() == csv_rows_of(text@, delimiter),
{
    csv::ReaderBuilder::new()
        .delimiter(delimiter)
        .has_headers(false)
        .from_reader(text.as_bytes())
        .records()
        .map_while(Result::ok)
        .map(|row| row.iter().map(String::from).collect())
        .collect()
}

/// Relies on `chrono::NaiveDateTime::parse_from_str`, and on
/// `DateTime::timestamp_millis` of the result taken as UTC.
#[verifier::external_body]
pub(crate) fn parse_datetime_millis(s: &str, fmt: &str) -> (r: Option<i64>)
    ensures
        r == datetime_millis_of(s@, fmt@),
{
    match chrono::NaiveDateTime::parse_from_str(s, fmt) {
        Ok(t) => Some(t.and_utc().timestamp_millis()),
        Err(_) => None,
    }
}

/// Relies on `chrono::NaiveDate::parse_from_str`, and on `NaiveDate`'s
/// `Display` for the text of the date read.
#[verifier::external_body]
pub(crate) fn parse_date_text(s: &str, fmt: &str) -> (r: Option<String>)
    ensures
        match r {
            Some(t) => date_text_of(s@, fmt@) == Some(t@),
            None => date_text_of(s@, fmt@) is None,
        },
{
    match chrono::NaiveDate::parse_from_str(s, fmt) {
        Ok(d) => Some(d.to_string()),
        Err(_) => None,
    }
}

} // verus!
