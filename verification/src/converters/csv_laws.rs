//! What is written as CSV reads back.
use vstd::prelude::*;

use crate::converters::document;
use crate::converters::table;
use crate::converters::table::TableView;
use crate::converters::tabular;
use crate::outside::delimited;
use crate::text;

verus! {

/// The characters of joined bytes are those of either part.
proof fn lemma_decode_joined(a: Seq<u8>, b: Seq<u8>)
    requires
        vstd::utf8::valid_utf8(a),
        vstd::utf8::valid_utf8(b),
    ensures
        vstd::utf8::valid_utf8(a + b),
        vstd::utf8::decode_utf8(a + b) == vstd::utf8::decode_utf8(a) + vstd::utf8::decode_utf8(b),
{
    let x = vstd::utf8::decode_utf8(a);
    let y = vstd::utf8::decode_utf8(b);
    vstd::utf8::decode_utf8_encode_utf8(a);
    vstd::utf8::decode_utf8_encode_utf8(b);
    lemma_encode_joined(x, y);
    vstd::utf8::encode_utf8_decode_utf8(x + y);
    vstd::utf8::encode_utf8_valid_utf8(x + y);
}

proof fn lemma_encode_joined(x: Seq<char>, y: Seq<char>)
    ensures
        vstd::utf8::encode_utf8(x + y) == vstd::utf8::encode_utf8(x) + vstd::utf8::encode_utf8(y),
    decreases x.len(),
{
    if x.len() == 0 {
        assert(x + y =~= y);
        assert(vstd::utf8::encode_utf8(x) + vstd::utf8::encode_utf8(y)
            =~= vstd::utf8::encode_utf8(y));
    } else {
        assert((x + y).drop_first() =~= x.drop_first() + y);
        lemma_encode_joined(x.drop_first(), y);
        assert(vstd::utf8::encode_utf8(x + y) =~= vstd::utf8::encode_utf8(x)
            + vstd::utf8::encode_utf8(y));
    }
}

/// The bytes of some lines are those of the first and those of the others.
proof fn lemma_first_line(lines: Seq<Seq<Seq<char>>>, delimiter: u8)
    requires
        lines.len() > 0,
        tabular::csv_bytes(lines, delimiter) is Ok,
    ensures
        delimited::csv_record(lines[0], delimiter) matches Ok(first) && tabular::csv_bytes(
            lines.skip(1),
            delimiter,
        ) matches Ok(rest) && tabular::csv_bytes(lines, delimiter) == Ok::<_, Seq<char>>(
            first + rest,
        ),
    decreases lines.len(),
{
    let front = lines.drop_last();
    if front.len() == 0 {
        assert(lines.skip(1) =~= Seq::<Seq<Seq<char>>>::empty());
        assert(front =~= Seq::<Seq<Seq<char>>>::empty());
        let first = delimited::csv_record(lines[0], delimiter)->Ok_0;
        assert(Seq::<u8>::empty() + first =~= first + Seq::<u8>::empty());
    } else {
        lemma_first_line(front, delimiter);
        assert(lines.skip(1).drop_last() =~= front.skip(1));
        let first = delimited::csv_record(lines[0], delimiter)->Ok_0;
        let middle = tabular::csv_bytes(front.skip(1), delimiter)->Ok_0;
        let last = delimited::csv_record(lines.last(), delimiter)->Ok_0;
        assert((first + middle) + last =~= first + (middle + last));
    }
}

/// Whether each line reads as its fields.
pub open spec fn are_lines(lines: Seq<Seq<Seq<char>>>, delimiter: u8) -> bool {
    forall|k: int|
        0 <= k < lines.len() ==> delimited::is_line_of(
            (#[trigger] delimited::csv_record(lines[k], delimiter))->Ok_0,
            lines[k],
            delimiter,
        )
}

proof fn lemma_other_lines(lines: Seq<Seq<Seq<char>>>, delimiter: u8)
    requires
        lines.len() > 0,
        are_lines(lines, delimiter),
    ensures
        are_lines(lines.skip(1), delimiter),
{
    let rest = lines.skip(1);
    assert forall|k: int| 0 <= k < rest.len() implies delimited::is_line_of(
        (#[trigger] delimited::csv_record(rest[k], delimiter))->Ok_0,
        rest[k],
        delimiter,
    ) by {
        assert(rest[k] == lines[k + 1]);
        assert(delimited::csv_record(lines[k + 1], delimiter)
            == delimited::csv_record(rest[k], delimiter));
    }
}

/// Written lines read back behind a line.
proof fn lemma_lines_are_tail(lines: Seq<Seq<Seq<char>>>, delimiter: u8)
    requires
        tabular::csv_bytes(lines, delimiter) is Ok,
        are_lines(lines, delimiter),
        delimited::is_tail(Seq::empty(), delimiter, Seq::empty()),
    ensures
        ({
            let bytes = tabular::csv_bytes(lines, delimiter)->Ok_0;
            &&& vstd::utf8::valid_utf8(bytes)
            &&& delimited::is_tail(vstd::utf8::decode_utf8(bytes), delimiter, lines)
        }),
    decreases lines.len(),
{
    if lines.len() == 0 {
        vstd::utf8::encode_utf8_decode_utf8(Seq::empty());
        vstd::utf8::encode_utf8_valid_utf8(Seq::empty());
        assert(vstd::utf8::encode_utf8(Seq::empty()) =~= Seq::<u8>::empty());
        assert(lines =~= Seq::<Seq<Seq<char>>>::empty());
    } else {
        lemma_first_line(lines, delimiter);
        lemma_other_lines(lines, delimiter);
        lemma_lines_are_tail(lines.skip(1), delimiter);
        let first = delimited::csv_record(lines[0], delimiter)->Ok_0;
        let more = tabular::csv_bytes(lines.skip(1), delimiter)->Ok_0;
        lemma_decode_joined(first, more);
        let line = vstd::utf8::decode_utf8(first);
        let tail = vstd::utf8::decode_utf8(more);
        assert(delimited::is_line_of(first, lines[0], delimiter));
        assert(delimited::is_tail(line + tail, delimiter, seq![lines[0]] + lines.skip(1)));
        assert(seq![lines[0]] + lines.skip(1) =~= lines);
    }
}

/// Written lines read back, one after the other, where no byte order mark stands
/// in front of the first.
pub proof fn lemma_lines_read_back(lines: Seq<Seq<Seq<char>>>, delimiter: u8)
    requires
        lines.len() > 0,
        !delimited::is_marked(lines[0][0]),
        tabular::csv_bytes(lines, delimiter) is Ok,
        are_lines(lines, delimiter),
    ensures
        ({
            let bytes = tabular::csv_bytes(lines, delimiter)->Ok_0;
            let s = vstd::utf8::decode_utf8(bytes);
            &&& vstd::utf8::valid_utf8(bytes)
            &&& !delimited::is_marked(s)
            &&& delimited::csv_records(s, delimiter) == Ok::<_, Seq<char>>(lines)
        }),
{
    lemma_first_line(lines, delimiter);
    lemma_other_lines(lines, delimiter);
    let first = delimited::csv_record(lines[0], delimiter)->Ok_0;
    lemma_lines_are_tail(lines.skip(1), delimiter);
    let more = tabular::csv_bytes(lines.skip(1), delimiter)->Ok_0;
    lemma_decode_joined(first, more);
    let line = vstd::utf8::decode_utf8(first);
    let tail = vstd::utf8::decode_utf8(more);
    assert((line + tail)[0] == line[0]);
    assert(delimited::is_line_of(first, lines[0], delimiter));
    assert(delimited::is_tail(line + tail, delimiter, seq![lines[0]] + lines.skip(1)));
    assert(seq![lines[0]] + lines.skip(1) =~= lines);
}

/// Whether a table is as reading leaves one: it has columns, its headers differ
/// and are not blank, its rows are as wide and not blank.
pub open spec fn is_settled(t: TableView) -> bool {
    &&& t.headers.len() > 0
    &&& t.headers.no_duplicates()
    &&& forall|k: int| 0 <= k < t.headers.len() ==> !text::blank(#[trigger] t.headers[k])
    &&& forall|k: int|
        0 <= k < t.rows.len() ==> (#[trigger] t.rows[k]).len() == t.headers.len()
            && !table::blank_row(t.rows[k])
}

proof fn lemma_all_filled(rows: Seq<Seq<Seq<char>>>)
    requires
        forall|k: int| 0 <= k < rows.len() ==> !table::blank_row(#[trigger] rows[k]),
    ensures
        table::filled_rows(rows) == rows,
    decreases rows.len(),
{
    if rows.len() > 0 {
        assert forall|k: int| 0 <= k < rows.drop_last().len() implies !table::blank_row(
            #[trigger] rows.drop_last()[k],
        ) by {
            assert(rows.drop_last()[k] == rows[k]);
        }
        lemma_all_filled(rows.drop_last());
        assert(!table::blank_row(rows[rows.len() - 1]));
        assert(rows.drop_last().push(rows.last()) =~= rows);
    } else {
        assert(rows =~= Seq::<Seq<Seq<char>>>::empty());
    }
}

/// A settled table that was written reads back as it was, where it is read with
/// the same delimiter: a text whose records are the written lines is that table.
pub proof fn law_table_reads_back(t: TableView, input: Seq<char>, s: Seq<char>, delimiter: u8)
    requires
        is_settled(t),
        !delimited::is_marked(s),
        delimited::csv_records(s, delimiter) == Ok::<_, Seq<char>>(tabular::written_lines(t)),
    ensures
        tabular::csv_table(input, s, Some(delimiter)) == Ok::<_, crate::converters::Failure>(t),
{
    let lines = tabular::written_lines(t);
    assert(document::strip_mark(s) == s);
    assert forall|k: int| 0 <= k < lines.len() implies !table::blank_row(#[trigger] lines[k])
        && lines[k].len() == t.headers.len() by {
        if k > 0 {
            assert(lines[k] == t.rows[k - 1]);
        } else {
            assert(!text::blank(t.headers[0]));
        }
    }
    lemma_all_filled(lines);
    table::law_good_headers_stay(t.headers);
    let headed = table::headed(lines);
    assert(headed.rows =~= t.rows) by {
        assert forall|k: int| 0 <= k < t.rows.len() implies #[trigger] headed.rows[k]
            == t.rows[k] by {
            assert(lines.skip(1)[k] == t.rows[k]);
            assert(table::fitted(t.rows[k], t.headers.len()) =~= t.rows[k]);
        }
    }
}

} // verus!
