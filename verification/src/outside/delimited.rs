//! Delimited records, read and written by the `csv` crate.
use vstd::prelude::*;

verus! {

/// The records that the `csv` crate reads from a text, or why it cannot.
pub uninterp spec fn csv_records(s: Seq<char>, delimiter: u8) -> Result<
    Seq<Seq<Seq<char>>>,
    Seq<char>,
>;

/// The bytes that the `csv` crate writes for a record, or why it cannot.
pub uninterp spec fn csv_record(fields: Seq<Seq<char>>, delimiter: u8) -> Result<
    Seq<u8>,
    Seq<char>,
>;

/// What a list of records holds, or the error text.
pub open spec fn records_view(r: Result<Vec<Vec<String>>, String>) -> Result<
    Seq<Seq<Seq<char>>>,
    Seq<char>,
> {
    match r {
        Ok(v) => Ok(v.deep_view()),
        Err(e) => Err(e@),
    }
}

/// What bytes hold, or the error text.
pub open spec fn bytes_view(r: Result<Vec<u8>, String>) -> Result<Seq<u8>, Seq<char>> {
    match r {
        Ok(v) => Ok(v@),
        Err(e) => Err(e@),
    }
}

/// Whether a text starts with a byte order mark.
pub open spec fn is_marked(s: Seq<char>) -> bool {
    s.len() > 0 && s[0] == '\u{FEFF}'
}

/// Whether a byte can part the fields of a line: an ASCII character other than
/// a quote and the line ends.
pub open spec fn is_separator(delimiter: u8) -> bool {
    delimiter < 0x80 && delimiter != 0x22 && delimiter != 0x0A && delimiter != 0x0D
}

/// A line with a single empty field.
pub open spec fn empty_line() -> Seq<char> {
    seq!['"', '"', '\n']
}

/// Whether a text reads as some records where it stands behind a line, so that
/// no byte order mark in it is at the start.
pub open spec fn is_tail(rest: Seq<char>, delimiter: u8, records: Seq<Seq<Seq<char>>>) -> bool {
    csv_records(empty_line() + rest, delimiter) == Ok::<_, Seq<char>>(
        seq![seq![Seq::<char>::empty()]] + records,
    )
}

/// Whether bytes are the line of some fields: in front of further lines they
/// read as one more record, behind a line, and at the start of a text too where
/// no byte order mark stands in front.
pub open spec fn is_line_of(bytes: Seq<u8>, fields: Seq<Seq<char>>, delimiter: u8) -> bool {
    let line = vstd::utf8::decode_utf8(bytes);
    &&& vstd::utf8::valid_utf8(bytes)
    &&& line.len() > 0
    &&& is_marked(line) ==> is_marked(fields[0])
    &&& is_tail(Seq::empty(), delimiter, Seq::empty())
    &&& forall|rest: Seq<char>, more: Seq<Seq<Seq<char>>>|
        #![trigger is_tail(line + rest, delimiter, seq![fields] + more)]
        is_tail(rest, delimiter, more) ==> {
            &&& is_tail(line + rest, delimiter, seq![fields] + more)
            &&& !is_marked(line) ==> csv_records(line + rest, delimiter) == Ok::<_, Seq<char>>(
                seq![fields] + more,
            )
        }
}

/// `csv::Reader::records`, without a header row, for records of any length,
/// nothing trimmed: all the records of a text, or the text of the first error.
/// They depend on the text and the delimiter alone.
#[verifier::external_body]
pub(crate) fn read_records(s: &str, delimiter: u8) -> (r: Result<Vec<Vec<String>>, String>)
    ensures
        records_view(r) == csv_records(s@, delimiter),
{
    csv::ReaderBuilder::new()
        .has_headers(false)
        .flexible(true)
        .trim(csv::Trim::None)
        .delimiter(delimiter)
        .from_reader(s.as_bytes())
        .records()
        .map(|r| r.map(|record| record.iter().map(str::to_owned).collect()))
        .collect::<Result<Vec<Vec<String>>, csv::Error>>()
        .map_err(|e| e.to_string())
}

/// `csv::Writer::write_record` into an empty buffer: one record with its line
/// end. It depends on the fields and the delimiter alone; records written one
/// after the other do not influence each other. What is written reads back as
/// it was, whatever lines stand before and behind; the reader takes a byte order
/// mark away at the start of the text only.
#[verifier::external_body]
pub(crate) fn write_record(fields: &Vec<String>, delimiter: u8) -> (r: Result<Vec<u8>, String>)
    ensures
        bytes_view(r) == csv_record(fields.deep_view(), delimiter),
        r matches Ok(bytes) ==> (is_separator(delimiter) && fields@.len() > 0 ==> is_line_of(
            bytes@,
            fields.deep_view(),
            delimiter,
        )),
{
    let mut writer = csv::WriterBuilder::new()
        .has_headers(false)
        .flexible(true)
        .delimiter(delimiter)
        .from_writer(Vec::new());
    writer.write_record(fields).map_err(|e| e.to_string())?;
    writer.into_inner().map_err(|e| e.to_string())
}

} // verus!
