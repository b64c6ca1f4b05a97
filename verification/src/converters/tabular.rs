//! Tabular engine: CSV and TSV, spreadsheets and JSON.
//!
//! - The delimiter of a CSV file is detected among `, ; \t |` unless the
//!   caller gives one.
//! - Spreadsheets are written with a header row, a filter, a frozen top row
//!   and column widths that fit the content.
//! - JSON is flattened with dotted keys (`address.city`), so that nested
//!   objects survive in a flat grid.
use vstd::prelude::*;

use crate::converters;
use crate::converters::csv_laws;
use crate::converters::document;
use crate::converters::table;
use crate::converters::table::Table;
use crate::converters::table::TableView;
use crate::converters::json_table;
use crate::converters::workbook_table;
use crate::converters::xlsx;
use crate::converters::{
    ConversionError, ConvertOptions, Converter, Delivery, DeliveryView, Failure, Source, SourceView,
};
use crate::number;
use crate::outside::delimited;
use crate::outside::encoding;
use crate::outside::json;
use crate::text;

verus! {

/// Formats that tables are written in.
pub open spec fn is_table_target(e: Seq<char>) -> bool {
    ||| e == "csv"@
    ||| e == "tsv"@
    ||| e == "xlsx"@
    ||| e == "json"@
}

/// The tabular pairs of this engine: a workbook is not written as another one.
pub open spec fn handles(from: Seq<char>, to: Seq<char>) -> bool {
    converters::is_tabular(from) && is_table_target(to) && from != to && !(
    converters::is_workbook(from) && to == "xlsx"@)
}

/// Returns `true` for tabular pairs handled by this engine.
pub fn supports(from: &str, to: &str) -> (r: bool)
    ensures
        r == handles(from@, to@),
{
    (text::same(from, "csv") || text::same(from, "tsv") || converters::workbook_ext(from)
        || text::same(from, "json")) && (text::same(to, "csv") || text::same(to, "tsv")
        || text::same(to, "xlsx") || text::same(to, "json")) && !text::same(from, to) && !(
    converters::workbook_ext(from) && text::same(to, "xlsx"))
}

/// The target list of a tabular source, in display order.
pub open spec fn targets(from: Seq<char>) -> Seq<Seq<char>> {
    let list = if from == "csv"@ || from == "tsv"@ {
        seq!["xlsx"@, "json"@, "csv"@, "tsv"@]
    } else if converters::is_workbook(from) {
        seq!["csv"@, "tsv"@, "json"@]
    } else if from == "json"@ {
        seq!["csv"@, "tsv"@, "xlsx"@]
    } else {
        seq!["csv"@, "xlsx"@, "json"@]
    };
    text::without(list, from)
}

/// Target list for a tabular source extension, in display order.
pub fn targets_for(from: &str) -> (r: Vec<String>)
    ensures
        r.deep_view() == targets(from@),
{
    if text::same(from, "csv") || text::same(from, "tsv") {
        let list = vec!["xlsx".to_owned(), "json".to_owned(), "csv".to_owned(), "tsv".to_owned()];
        assert(list.deep_view() =~= seq!["xlsx"@, "json"@, "csv"@, "tsv"@]);
        text::leave_out(list, from)
    } else if converters::workbook_ext(from) {
        let list = vec!["csv".to_owned(), "tsv".to_owned(), "json".to_owned()];
        assert(list.deep_view() =~= seq!["csv"@, "tsv"@, "json"@]);
        text::leave_out(list, from)
    } else if text::same(from, "json") {
        let list = vec!["csv".to_owned(), "tsv".to_owned(), "xlsx".to_owned()];
        assert(list.deep_view() =~= seq!["csv"@, "tsv"@, "xlsx"@]);
        text::leave_out(list, from)
    } else {
        let list = vec!["csv".to_owned(), "xlsx".to_owned(), "json".to_owned()];
        assert(list.deep_view() =~= seq!["csv"@, "xlsx"@, "json"@]);
        text::leave_out(list, from)
    }
}

// ---------------------------------------------------------------------------
// Delimiters
// ---------------------------------------------------------------------------

/// How many lines are looked at to find a delimiter.
pub const SAMPLE_LINES: usize = 8;

/// The lines that are not blank.
pub open spec fn filled_lines(lines: Seq<Seq<char>>) -> Seq<Seq<char>>
    decreases lines.len(),
{
    if lines.len() == 0 {
        Seq::empty()
    } else if text::blank(lines.last()) {
        filled_lines(lines.drop_last())
    } else {
        filled_lines(lines.drop_last()).push(lines.last())
    }
}

/// The first members of a list.
pub open spec fn first_few<T>(v: Seq<T>, n: nat) -> Seq<T> {
    if v.len() > n {
        v.take(n as int)
    } else {
        v
    }
}

/// The first lines of a sample that are not blank.
pub open spec fn sampled(sample: Seq<char>) -> Seq<Seq<char>> {
    first_few(filled_lines(text::lines(sample)), SAMPLE_LINES as nat)
}

/// How many columns a delimiter gives a line.
pub open spec fn columns(line: Seq<char>, delimiter: char) -> nat {
    text::split(line, delimiter).len()
}

/// How many lines have a number of columns.
pub open spec fn agreeing(lines: Seq<Seq<char>>, delimiter: char, n: nat) -> nat
    decreases lines.len(),
{
    if lines.len() == 0 {
        0
    } else {
        agreeing(lines.drop_last(), delimiter, n) + if columns(lines.last(), delimiter) == n {
            1nat
        } else {
            0nat
        }
    }
}

/// How consistent a delimiter is: how many lines agree on a number of columns
/// above one, and that number. A delimiter that splits no line has (0, 0).
pub struct Consistency {
    pub lines: nat,
    pub columns: nat,
}

/// Whether a delimiter is more consistent than another: more lines agree, or as
/// many on more columns.
pub open spec fn beats(a: Consistency, b: Consistency) -> bool {
    a.lines > b.lines || a.lines == b.lines && a.columns > b.columns
}

/// The agreement of all lines with the `i`-th one.
pub open spec fn agreement(lines: Seq<Seq<char>>, delimiter: char, i: int) -> Consistency {
    let n = columns(lines[i], delimiter);
    if n > 1 {
        Consistency { lines: agreeing(lines, delimiter, n), columns: n }
    } else {
        Consistency { lines: 0, columns: 0 }
    }
}

/// The best agreement with one of the first `k` lines.
pub open spec fn best_agreement(lines: Seq<Seq<char>>, delimiter: char, k: nat) -> Consistency
    decreases k,
{
    if k == 0 {
        Consistency { lines: 0, columns: 0 }
    } else {
        let before = best_agreement(lines, delimiter, (k - 1) as nat);
        let now = agreement(lines, delimiter, k - 1);
        if beats(now, before) {
            now
        } else {
            before
        }
    }
}

/// How consistent a delimiter is.
pub open spec fn consistency(lines: Seq<Seq<char>>, delimiter: char) -> Consistency {
    best_agreement(lines, delimiter, lines.len())
}

/// The most consistent delimiter, the first of several; a comma where none
/// splits anything.
pub open spec fn best_delimiter(lines: Seq<Seq<char>>) -> u8 {
    let (a, b, c, d) = (
        consistency(lines, ','),
        consistency(lines, ';'),
        consistency(lines, '\t'),
        consistency(lines, '|'),
    );
    if !beats(b, a) && !beats(c, a) && !beats(d, a) {
        0x2C
    } else if !beats(c, b) && !beats(d, b) {
        0x3B
    } else if !beats(d, c) {
        0x09
    } else {
        0x7C
    }
}

/// The delimiter of a sample.
pub open spec fn detected(sample: Seq<char>) -> u8 {
    best_delimiter(sampled(sample))
}

/// The first lines of a sample that are not blank.
fn sample_lines(sample: &str) -> (r: Vec<String>)
    ensures
        r.deep_view() == sampled(sample@),
        r@.len() <= SAMPLE_LINES,
{
    let lines = text::lines_of(sample);
    let ghost all = lines.deep_view();
    let mut out: Vec<String> = Vec::new();
    assert(out.deep_view() =~= first_few(filled_lines(all.take(0)), SAMPLE_LINES as nat));
    for i in 0..lines.len()
        invariant
            all == lines.deep_view(),
            out@.len() <= SAMPLE_LINES,
            out.deep_view() == first_few(filled_lines(all.take(i as int)), SAMPLE_LINES as nat),
    {
        let ghost so_far = out.deep_view();
        proof {
            assert(all.take(i + 1).drop_last() =~= all.take(i as int));
            assert(all[i as int] == lines@[i as int]@);
        }
        if !text::is_blank(lines[i].as_str()) {
            let ghost was = filled_lines(all.take(i as int));
            if out.len() < SAMPLE_LINES {
                out.push(lines[i].clone());
                assert(out.deep_view() =~= so_far.push(all[i as int]));
            } else {
                assert(was.push(all[i as int]).take(SAMPLE_LINES as int) =~= so_far);
            }
        }
    }
    assert(all.take(all.len() as int) =~= all);
    out
}

/// How many columns a delimiter gives each line.
fn columns_of(lines: &Vec<String>, delimiter: char) -> (r: Vec<usize>)
    ensures
        r@.len() == lines@.len(),
        forall|i: int|
            0 <= i < r@.len() ==> #[trigger] r@[i] == columns(lines.deep_view()[i], delimiter),
{
    let ghost all = lines.deep_view();
    let mut out: Vec<usize> = Vec::new();
    for i in 0..lines.len()
        invariant
            all == lines.deep_view(),
            out@.len() == i,
            forall|j: int| 0 <= j < i ==> #[trigger] out@[j] == columns(all[j], delimiter),
    {
        assert(all[i as int] == lines@[i as int]@);
        let pieces = text::split_at_char(lines[i].as_str(), delimiter);
        assert(pieces.deep_view().len() == pieces@.len());
        out.push(pieces.len());
    }
    out
}

/// How consistent a delimiter is: lines that agree, and their columns.
fn consistency_of(lines: &Vec<String>, delimiter: char) -> (r: (usize, usize))
    ensures
        r.0 == consistency(lines.deep_view(), delimiter).lines,
        r.1 == consistency(lines.deep_view(), delimiter).columns,
{
    let ghost all = lines.deep_view();
    let counts = columns_of(lines, delimiter);
    let mut best: (usize, usize) = (0, 0);
    for i in 0..counts.len()
        invariant
            counts@.len() == all.len(),
            forall|j: int|
                0 <= j < counts@.len() ==> #[trigger] counts@[j] == columns(all[j], delimiter),
            best.0 == best_agreement(all, delimiter, i as nat).lines,
            best.1 == best_agreement(all, delimiter, i as nat).columns,
    {
        let n = counts[i];
        let ghost before = best_agreement(all, delimiter, i as nat);
        let ghost now = agreement(all, delimiter, i as int);
        assert(best_agreement(all, delimiter, (i + 1) as nat) == if beats(now, before) {
            now
        } else {
            before
        });
        if n > 1 {
            let mut lines_with: usize = 0;
            for j in 0..counts.len()
                invariant
                    counts@.len() == all.len(),
                    forall|k: int|
                        0 <= k < counts@.len() ==> #[trigger] counts@[k] == columns(
                            all[k],
                            delimiter,
                        ),
                    lines_with <= j,
                    lines_with == agreeing(all.take(j as int), delimiter, n as nat),
            {
                assert(all.take(j + 1).drop_last() =~= all.take(j as int));
                if counts[j] == n {
                    lines_with = lines_with + 1;
                }
            }
            assert(all.take(all.len() as int) =~= all);
            if lines_with > best.0 || (lines_with == best.0 && n > best.1) {
                best = (lines_with, n);
            }
        }
    }
    best
}

/// Detect the delimiter by scoring the first few non-empty lines.
///
/// The winner is the delimiter producing the most consistent column count above
/// one across the sampled lines, and the most columns where several are as
/// consistent; ties prefer `,`, then `;`, then tab, then `|`. A file with no
/// clear delimiter falls back to `,`.
pub fn detect_delimiter(sample: &str) -> (r: u8)
    ensures
        r == detected(sample@),
{
    let lines = sample_lines(sample);
    let mut best: u8 = 0x2C;
    let mut most = consistency_of(&lines, ',');
    let semicolon = consistency_of(&lines, ';');
    if semicolon.0 > most.0 || (semicolon.0 == most.0 && semicolon.1 > most.1) {
        most = semicolon;
        best = 0x3B;
    }
    let tab = consistency_of(&lines, '\t');
    if tab.0 > most.0 || (tab.0 == most.0 && tab.1 > most.1) {
        most = tab;
        best = 0x09;
    }
    let bar = consistency_of(&lines, '|');
    if bar.0 > most.0 || (bar.0 == most.0 && bar.1 > most.1) {
        best = 0x7C;
    }
    best
}

/// Whether a character is one of the delimiters that are looked for.
pub open spec fn is_candidate(delimiter: char) -> bool {
    delimiter == ',' || delimiter == ';' || delimiter == '\t' || delimiter == '|'
}

proof fn lemma_best_agreement(lines: Seq<Seq<char>>, delimiter: char, k: nat, i: int)
    requires
        0 <= i < k <= lines.len(),
    ensures
        !beats(agreement(lines, delimiter, i), best_agreement(lines, delimiter, k)),
    decreases k,
{
    if i < k - 1 {
        lemma_best_agreement(lines, delimiter, (k - 1) as nat, i);
    }
}

proof fn lemma_some_agree(lines: Seq<Seq<char>>, delimiter: char, n: nat) -> (i: int)
    requires
        agreeing(lines, delimiter, n) > 0,
    ensures
        0 <= i < lines.len(),
        columns(lines[i], delimiter) == n,
    decreases lines.len(),
{
    if columns(lines.last(), delimiter) == n {
        lines.len() - 1
    } else {
        lemma_some_agree(lines.drop_last(), delimiter, n)
    }
}

/// No delimiter gives more lines the same number of columns above one than the
/// detected one does.
pub proof fn law_detected_is_most_consistent(sample: Seq<char>, other: char, n: nat)
    requires
        is_candidate(other),
        n > 1,
    ensures
        is_candidate(detected(sample) as char),
        agreeing(sampled(sample), other, n) <= consistency(
            sampled(sample),
            detected(sample) as char,
        ).lines,
{
    let lines = sampled(sample);
    if agreeing(lines, other, n) > 0 {
        let i = lemma_some_agree(lines, other, n);
        lemma_best_agreement(lines, other, lines.len(), i);
    }
}

/// The delimiter that a format is written with.
pub open spec fn written_delimiter(e: Seq<char>) -> u8 {
    if e == "tsv"@ {
        0x09
    } else {
        0x2C
    }
}

/// The delimiter that a format is written with.
pub fn delimiter_for_ext(ext: &str) -> (r: u8)
    ensures
        r == written_delimiter(ext@),
{
    if text::same(ext, "tsv") {
        0x09
    } else {
        0x2C
    }
}

// ---------------------------------------------------------------------------
// Reading CSV
// ---------------------------------------------------------------------------

/// The first lines of a text.
pub open spec fn sample_of(s: Seq<char>) -> Seq<char> {
    text::join(first_few(text::lines(s), SAMPLE_LINES as nat), "\n"@)
}

/// The delimiter that a text is read with: the one asked for, else a tab in a
/// `.tsv` file that has any, else the one detected.
pub open spec fn reading_delimiter(
    input: Seq<char>,
    s: Seq<char>,
    asked: Option<u8>,
) -> u8 {
    match asked {
        Some(d) => d,
        None => {
            let sample = sample_of(s);
            if converters::ext(input) == "tsv"@ && sample.contains('\t') {
                0x09
            } else {
                detected(sample)
            }
        },
    }
}

/// The table of a CSV text: its records, without blank ones.
pub open spec fn csv_table(
    input: Seq<char>,
    s: Seq<char>,
    asked: Option<u8>,
) -> Result<TableView, Failure> {
    let plain = document::strip_mark(s);
    match delimited::csv_records(plain, reading_delimiter(input, plain, asked)) {
        Ok(records) => Ok(table::headed(table::filled_rows(records))),
        Err(why) => Err(
            Failure::MalformedData { path: input, format: "CSV"@, reason: why },
        ),
    }
}

/// What a table result says.
pub open spec fn table_result(r: Result<Table, ConversionError>) -> Result<TableView, Failure> {
    match r {
        Ok(t) => Ok(t.deep_view()),
        Err(e) => Err(e.deep_view()),
    }
}

/// The table of some records: without blank ones, as wide as the header.
pub fn table_of_records(records: Vec<Vec<String>>) -> (r: Table)
    ensures
        r.deep_view() == table::headed(table::filled_rows(records.deep_view())),
{
    table::head(table::drop_blank_rows(records))
}

fn delimiter_to_read(input: &str, s: &str, asked: Option<u8>) -> (r: u8)
    ensures
        r == reading_delimiter(input@, s@, asked),
{
    match asked {
        Some(d) => d,
        None => {
            let lines = text::lines_of(s);
            let ghost all = lines.deep_view();
            let mut few: Vec<String> = Vec::new();
            assert(few.deep_view() =~= first_few(all.take(0), SAMPLE_LINES as nat));
            for i in 0..lines.len()
                invariant
                    all == lines.deep_view(),
                    few@.len() <= SAMPLE_LINES,
                    few.deep_view() == first_few(all.take(i as int), SAMPLE_LINES as nat),
            {
                let ghost so_far = few.deep_view();
                assert(all.take(i + 1) =~= all.take(i as int).push(lines@[i as int]@));
                if few.len() < SAMPLE_LINES {
                    few.push(lines[i].clone());
                    assert(few.deep_view() =~= so_far.push(lines@[i as int]@));
                } else {
                    assert(all.take(i + 1).take(SAMPLE_LINES as int) =~= so_far);
                }
            }
            assert(all.take(all.len() as int) =~= all);
            let sample = text::joined(&few, "\n");
            let ext = converters::extension_of(input);
            if text::same(ext.as_str(), "tsv") && text::has_char(sample.as_str(), '\t') {
                0x09
            } else {
                detect_delimiter(sample.as_str())
            }
        },
    }
}

/// Read a CSV or TSV file.
///
/// * Empty files give an empty table.
/// * Ragged rows are padded/truncated to the header width, never an error.
/// * `opts.csv_delimiter` overrides detection.
pub fn read_csv(input: &str, content: &[u8], opts: &ConvertOptions) -> (r: Result<
    Table,
    ConversionError,
>)
    ensures
        table_result(r) == csv_table(input@, encoding::lossy(content@), opts.csv_delimiter),
        vstd::utf8::valid_utf8(content@) ==> table_result(r) == csv_table(
            input@,
            vstd::utf8::decode_utf8(content@),
            opts.csv_delimiter,
        ),
{
    let raw = encoding::lossy_text(content);
    let plain = document::without_mark(raw.as_str());
    let delimiter = delimiter_to_read(input, plain, opts.csv_delimiter);
    match delimited::read_records(plain, delimiter) {
        Ok(records) => Ok(table_of_records(records)),
        Err(why) => Err(
            ConversionError::MalformedData {
                path: input.to_owned(),
                format: "CSV".to_owned(),
                reason: why,
            },
        ),
    }
}

// ---------------------------------------------------------------------------
// Writing CSV
// ---------------------------------------------------------------------------

/// The lines of a written table: the header where there is one, then the rows.
pub open spec fn written_lines(t: TableView) -> Seq<Seq<Seq<char>>> {
    if t.headers.len() > 0 {
        seq![t.headers] + t.rows
    } else {
        t.rows
    }
}

/// The bytes of some records, one after the other, or the first error.
pub open spec fn csv_bytes(lines: Seq<Seq<Seq<char>>>, delimiter: u8) -> Result<
    Seq<u8>,
    Seq<char>,
>
    decreases lines.len(),
{
    if lines.len() == 0 {
        Ok(Seq::empty())
    } else {
        match csv_bytes(lines.drop_last(), delimiter) {
            Ok(before) => match delimited::csv_record(lines.last(), delimiter) {
                Ok(line) => Ok(before + line),
                Err(why) => Err(why),
            },
            Err(why) => Err(why),
        }
    }
}

/// The bytes of a table, or why they cannot be written.
pub open spec fn csv_written(t: TableView, output: Seq<char>, delimiter: u8) -> Result<
    Seq<u8>,
    Failure,
> {
    match csv_bytes(written_lines(t), delimiter) {
        Ok(bytes) => Ok(bytes),
        Err(why) => Err(Failure::UnwritableOutput { path: output, reason: why }),
    }
}

proof fn lemma_first_error(lines: Seq<Seq<Seq<char>>>, delimiter: u8, k: int)
    requires
        0 <= k <= lines.len(),
        csv_bytes(lines.take(k), delimiter) is Err,
    ensures
        csv_bytes(lines, delimiter) == csv_bytes(lines.take(k), delimiter),
    decreases lines.len(),
{
    if k == lines.len() {
        assert(lines.take(k) =~= lines);
    } else {
        assert(lines.drop_last().take(k) =~= lines.take(k));
        lemma_first_error(lines.drop_last(), delimiter, k);
    }
}

/// Whether written lines read back as they were, one record each.
pub open spec fn reads_back(lines: Seq<Seq<Seq<char>>>, delimiter: u8, bytes: Seq<u8>) -> bool {
    let s = vstd::utf8::decode_utf8(bytes);
    vstd::utf8::valid_utf8(bytes) && !delimited::is_marked(s) && delimited::csv_records(
        s,
        delimiter,
    ) == Ok::<_, Seq<char>>(lines)
}

/// Write a table as CSV or TSV. What was written reads back, unless a line has
/// no fields or the first starts with a byte order mark; a table as reading
/// leaves one comes back as it was.
pub fn write_csv_rows(t: Table, output: &str, delimiter: u8) -> (r: Result<
    Vec<u8>,
    ConversionError,
>)
    ensures
        converters::bytes_result(r) == csv_written(t.deep_view(), output@, delimiter),
        r matches Ok(bytes) ==> ({
            let lines = written_lines(t.deep_view());
            &&& delimited::is_separator(delimiter)
            &&& lines.len() > 0
            &&& forall|k: int| 0 <= k < lines.len() ==> (#[trigger] lines[k]).len() > 0
            &&& !delimited::is_marked(lines[0][0])
        } ==> reads_back(written_lines(t.deep_view()), delimiter, bytes@)),
        r matches Ok(bytes) ==> ({
            &&& delimited::is_separator(delimiter)
            &&& csv_laws::is_settled(t.deep_view())
            &&& !delimited::is_marked(t.deep_view().headers[0])
        } ==> vstd::utf8::valid_utf8(bytes@) && forall|input: Seq<char>| #[trigger]
            csv_table(input, vstd::utf8::decode_utf8(bytes@), Some(delimiter)) == Ok::<
                _,
                Failure,
            >(t.deep_view())),
{
    let ghost view = t.deep_view();
    let mut lines: Vec<Vec<String>> = Vec::new();
    let mut rows = t.rows;
    let ghost table_rows = rows.deep_view();
    if t.headers.len() > 0 {
        lines.push(t.headers);
    }
    let ghost head = lines.deep_view();
    lines.append(&mut rows);
    let ghost all = written_lines(view);
    assert(lines.deep_view() =~= head + table_rows);
    assert(lines.deep_view() =~= all);
    let mut out: Vec<u8> = Vec::new();
    for i in 0..lines.len()
        invariant
            all == lines.deep_view(),
            csv_bytes(all.take(i as int), delimiter) == Ok::<Seq<u8>, Seq<char>>(out@),
            all == written_lines(view),
            view == t.deep_view(),
            forall|k: int|
                0 <= k < i && delimited::is_separator(delimiter) && all[k].len() > 0
                    ==> delimited::is_line_of(
                    (#[trigger] delimited::csv_record(all[k], delimiter))->Ok_0,
                    all[k],
                    delimiter,
                ),
    {
        proof {
            assert(all.take(i + 1).drop_last() =~= all.take(i as int));
            assert(all[i as int] == lines@[i as int].deep_view());
        }
        match delimited::write_record(&lines[i], delimiter) {
            Ok(line) => {
                let mut line = line;
                out.append(&mut line);
            },
            Err(why) => {
                proof {
                    lemma_first_error(all, delimiter, i + 1);
                }
                return Err(
                    ConversionError::UnwritableOutput { path: output.to_owned(), reason: why },
                );
            },
        }
    }
    assert(all.take(all.len() as int) =~= all);
    proof {
        if delimited::is_separator(delimiter) && all.len() > 0 && (forall|k: int|
            0 <= k < all.len() ==> (#[trigger] all[k]).len() > 0) && !delimited::is_marked(
            all[0][0],
        ) {
            csv_laws::lemma_lines_read_back(all, delimiter);
            if csv_laws::is_settled(view) {
                let s = vstd::utf8::decode_utf8(out@);
                assert forall|input: Seq<char>| #[trigger]
                    csv_table(input, s, Some(delimiter)) == Ok::<_, Failure>(view) by {
                    csv_laws::law_table_reads_back(view, input, s, delimiter);
                }
            }
        }
        if csv_laws::is_settled(view) {
            assert forall|k: int| 0 <= k < all.len() implies (#[trigger] all[k]).len() > 0 by {
                if k > 0 {
                    assert(all[k] == view.rows[k - 1]);
                }
            }
        }
    }
    Ok(out)
}

// ---------------------------------------------------------------------------
// Writing JSON
// ---------------------------------------------------------------------------

/// The key of a column.
pub open spec fn key_of(headers: Seq<Seq<char>>, i: int) -> Seq<char> {
    if headers[i].len() == 0 {
        "column_"@ + number::decimal((i + 1) as nat)
    } else {
        headers[i]
    }
}

/// A row as keys and texts; what a short row lacks is empty.
pub open spec fn keyed_row(headers: Seq<Seq<char>>, row: Seq<Seq<char>>) -> Seq<
    (Seq<char>, Seq<char>),
> {
    Seq::new(
        headers.len(),
        |i: int|
            (
                key_of(headers, i),
                if i < row.len() {
                    row[i]
                } else {
                    Seq::empty()
                },
            ),
    )
}

/// All rows as keys and texts.
pub open spec fn keyed_rows(t: TableView) -> Seq<Seq<(Seq<char>, Seq<char>)>> {
    t.rows.map_values(|row: Seq<Seq<char>>| keyed_row(t.headers, row))
}

/// The JSON of a table, or why it cannot be written.
pub open spec fn json_written(t: TableView, output: Seq<char>) -> Result<Seq<char>, Failure> {
    match json::pretty_rows(keyed_rows(t)) {
        Ok(s) => Ok(s),
        Err(why) => Err(Failure::UnwritableOutput { path: output, reason: why }),
    }
}

/// The rows of a table as keys and texts.
pub fn keyed_rows_of(t: &Table) -> (r: Vec<Vec<(String, String)>>)
    ensures
        json::rows_view(r@) == keyed_rows(t.deep_view()),
{
    let ghost view = t.deep_view();
    let mut out: Vec<Vec<(String, String)>> = Vec::new();
    let ghost see = |p: (String, String)| (p.0@, p.1@);
    for i in 0..t.rows.len()
        invariant
            view == t.deep_view(),
            see == (|p: (String, String)| (p.0@, p.1@)),
            out@.len() == i,
            forall|j: int|
                0 <= j < i ==> (#[trigger] out@[j])@.map_values(see) == keyed_row(
                    view.headers,
                    view.rows[j],
                ),
    {
        let row = &t.rows[i];
        assert(view.rows[i as int] == row.deep_view());
        let mut keyed: Vec<(String, String)> = Vec::new();
        for c in 0..t.headers.len()
            invariant
                view == t.deep_view(),
                i < t.rows@.len(),
                row == t.rows@[i as int],
                view.rows[i as int] == row.deep_view(),
                keyed@.len() == c,
                forall|j: int|
                    0 <= j < c ==> {
                        let p = #[trigger] keyed@[j];
                        (p.0@, p.1@) == keyed_row(view.headers, view.rows[i as int])[j]
                    },
        {
            assert(view.headers[c as int] == t.headers@[c as int]@);
            let key = if t.headers[c].as_str().is_empty() {
                text::cat("column_", number::decimal_of((c + 1) as u64).as_str())
            } else {
                t.headers[c].clone()
            };
            let value = if c < row.len() {
                assert(row.deep_view()[c as int] == row@[c as int]@);
                row[c].clone()
            } else {
                String::new()
            };
            assert(c >= row@.len() ==> value@ =~= Seq::empty());
            keyed.push((key, value));
        }
        assert(keyed@.map_values(see) =~= keyed_row(view.headers, view.rows[i as int]));
        out.push(keyed);
    }
    assert(json::rows_view(out@) =~= keyed_rows(view));
    out
}

/// Write a table as a JSON array of objects. All values stay texts: a guess at
/// types would corrupt ids such as `00123`.
pub fn write_json_rows(t: &Table, output: &str) -> (r: Result<String, ConversionError>)
    ensures
        converters::text_result(r) == json_written(t.deep_view(), output@),
        r matches Ok(s) ==> json::reads_as_rows(s@, keyed_rows(t.deep_view())),
{
    match json::print_rows(&keyed_rows_of(t)) {
        Ok(s) => Ok(s),
        Err(why) => Err(
            ConversionError::UnwritableOutput { path: output.to_owned(), reason: why },
        ),
    }
}

// ---------------------------------------------------------------------------
// Conversion
// ---------------------------------------------------------------------------

/// The pairs that can be converted.
pub open spec fn converts(from: Seq<char>, to: Seq<char>) -> bool {
    ||| (from == "csv"@ || from == "tsv"@) && is_table_target(to)
    ||| converters::is_workbook(from) && (to == "csv"@ || to == "tsv"@ || to == "json"@)
    ||| from == "json"@ && (to == "csv"@ || to == "tsv"@ || to == "xlsx"@)
}

/// The table that a source holds.
pub open spec fn source_table(
    input: Seq<char>,
    source: SourceView,
    csv_delimiter: Option<u8>,
) -> Result<TableView, Failure> {
    let from = converters::ext(input);
    if converters::is_workbook(from) {
        if !source.is_file {
            Err(
                Failure::UnreadableInput {
                    path: input,
                    reason: "file does not exist or is not a regular file"@,
                },
            )
        } else {
            workbook_table::book_table(input, source.workbook)
        }
    } else {
        match source.content {
            Err(reason) => Err(Failure::UnreadableInput { path: input, reason }),
            Ok(bytes) => if from == "json"@ {
                json_table::json_table(input, encoding::lossy(bytes))
            } else {
                csv_table(input, encoding::lossy(bytes), csv_delimiter)
            },
        }
    }
}

/// What becomes of a table that was read or not.
pub open spec fn table_outcome(
    input: Seq<char>,
    read: Result<TableView, Failure>,
    output: Seq<char>,
) -> Result<DeliveryView, Failure> {
    let to = converters::ext(output);
    match read {
        Err(f) => Err(f),
        Ok(t) => if to == "json"@ {
            match json_written(t, output) {
                Ok(s) => Ok(DeliveryView::Text(s)),
                Err(f) => Err(f),
            }
        } else if to == "xlsx"@ {
            Ok(DeliveryView::Sheet(xlsx::sheet_of(t, xlsx::sheet_name(input))))
        } else {
            match csv_written(t, output, written_delimiter(to)) {
                Ok(bytes) => Ok(DeliveryView::Bytes(bytes)),
                Err(f) => Err(f),
            }
        },
    }
}

/// What comes of a tabular file.
pub open spec fn tabular_outcome(
    input: Seq<char>,
    source: SourceView,
    output: Seq<char>,
    opts: ConvertOptions,
) -> Result<DeliveryView, Failure> {
    let from = converters::ext(input);
    let to = converters::ext(output);
    if converts(from, to) {
        table_outcome(input, source_table(input, source, opts.csv_delimiter), output)
    } else {
        Err(Failure::UnsupportedConversion { from, to })
    }
}

/// Reads the table that a source holds.
fn read_table(input: &str, from: &str, source: Source, opts: &ConvertOptions) -> (r: Result<
    Table,
    ConversionError,
>)
    requires
        from@ == converters::ext(input@),
    ensures
        table_result(r) == source_table(input@, source.deep_view(), opts.csv_delimiter),
{
    if converters::workbook_ext(from) {
        if !source.is_file {
            return Err(
                ConversionError::UnreadableInput {
                    path: input.to_owned(),
                    reason: "file does not exist or is not a regular file".to_owned(),
                },
            );
        }
        return workbook_table::read_workbook(input, source.workbook);
    }
    match source.content {
        Err(reason) => Err(ConversionError::UnreadableInput { path: input.to_owned(), reason }),
        Ok(bytes) => {
            if text::same(from, "json") {
                json_table::read_json_table(input, bytes.as_slice())
            } else {
                read_csv(input, bytes.as_slice(), opts)
            }
        },
    }
}

/// Works out what becomes of a table that was read or not.
pub fn convert_table(input: &str, read: Result<Table, ConversionError>, output: &str) -> (r: Result<
    Delivery,
    ConversionError,
>)
    ensures
        converters::delivery_result(r) == table_outcome(input@, table_result(read), output@),
{
    let to = converters::extension_of(output);
    let t = match read {
        Ok(t) => t,
        Err(e) => return Err(e),
    };
    if text::same(to.as_str(), "json") {
        match write_json_rows(&t, output) {
            Ok(s) => Ok(Delivery::Text(s)),
            Err(e) => Err(e),
        }
    } else if text::same(to.as_str(), "xlsx") {
        let name = xlsx::sheet_name_for(input);
        Ok(Delivery::Sheet(xlsx::write_xlsx(&t, name.as_str())))
    } else {
        match write_csv_rows(t, output, delimiter_for_ext(to.as_str())) {
            Ok(bytes) => Ok(Delivery::Bytes(bytes)),
            Err(e) => Err(e),
        }
    }
}

/// Works out the conversion of a tabular file.
pub fn convert_tabular(input: &str, source: Source, output: &str, opts: &ConvertOptions) -> (r:
    Result<Delivery, ConversionError>)
    ensures
        converters::delivery_result(r) == tabular_outcome(
            input@,
            source.deep_view(),
            output@,
            *opts,
        ),
{
    let from = converters::extension_of(input);
    let to = converters::extension_of(output);
    let (f, t) = (from.as_str(), to.as_str());
    let plain = text::same(t, "csv") || text::same(t, "tsv");
    let json = text::same(t, "json");
    let sheet = text::same(t, "xlsx");
    let known = ((text::same(f, "csv") || text::same(f, "tsv")) && (plain || json || sheet)) || (
    converters::workbook_ext(f) && (plain || json)) || (text::same(f, "json") && (plain || sheet));
    if !known {
        return Err(ConversionError::UnsupportedConversion { from, to });
    }
    let read = read_table(input, from.as_str(), source, opts);
    convert_table(input, read, output)
}

/// The engine for tables.
pub struct TabularConverter;

impl Converter for TabularConverter {
    open spec fn allows(
        &self,
        input: Seq<char>,
        source: SourceView,
        output: Seq<char>,
        opts: ConvertOptions,
        r: Result<DeliveryView, Failure>,
    ) -> bool {
        r == tabular_outcome(input, source, output, opts)
    }

    fn convert(&self, input: &str, source: Source, output: &str, opts: &ConvertOptions) -> (r:
        Result<Delivery, ConversionError>) {
        convert_tabular(input, source, output, opts)
    }
}

} // verus!
