//! What delimited files give as tables, and tables as files.
use vstd::prelude::*;

use crate::converters;
use crate::converters::document;
use crate::converters::json_table;
use crate::converters::table;
use crate::converters::table::TableView;
use crate::converters::tabular;
use crate::converters::tabular::Consistency;
use crate::converters::workbook_table;
use crate::converters::xlsx;
use crate::converters::{DeliveryView, Failure, SourceView};
use crate::number;
use crate::outside::delimited;
use crate::outside::encoding;
use crate::outside::json;
use crate::outside::json::JsonView;
use crate::text;
use crate::text_laws;
use crate::text_laws::is_line;

verus! {

// ---------------------------------------------------------------------------
// Delimiters
// ---------------------------------------------------------------------------

/// Whether a character parts each of some lines into the same number of columns,
/// more than one, while no other delimiter stands in any of them.
pub open spec fn only_parts(lines: Seq<Seq<char>>, d: char, n: nat) -> bool {
    &&& n > 1
    &&& forall|k: int| 0 <= k < lines.len() ==> text::split(#[trigger] lines[k], d).len() == n
    &&& forall|k: int, c: char|
        0 <= k < lines.len() && (c == ',' || c == ';' || c == '\t' || c == '|') && c != d
            ==> !#[trigger] lines[k].contains(c)
}

proof fn lemma_unparted(line: Seq<char>, c: char)
    requires
        !line.contains(c),
    ensures
        text::split(line, c).len() == 1,
{
    let one = seq![line];
    assert(one[0] == line);
    text_laws::law_joined_splits_back(one, c);
}

proof fn lemma_agreeing(lines: Seq<Seq<char>>, d: char, n: nat)
    requires
        forall|k: int| 0 <= k < lines.len() ==> text::split(#[trigger] lines[k], d).len() == n,
    ensures
        tabular::agreeing(lines, d, n) == lines.len(),
    decreases lines.len(),
{
    if lines.len() > 0 {
        let less = lines.drop_last();
        assert forall|k: int| 0 <= k < less.len() implies text::split(#[trigger] less[k], d).len()
            == n by {
            assert(less[k] == lines[k]);
        }
        lemma_agreeing(less, d, n);
        assert(lines[lines.len() - 1] == lines.last());
    }
}

proof fn lemma_consistent(lines: Seq<Seq<char>>, d: char, n: nat, k: nat)
    requires
        forall|k: int| 0 <= k < lines.len() ==> text::split(#[trigger] lines[k], d).len() == n,
        k <= lines.len(),
    ensures
        tabular::best_agreement(lines, d, k) == (if k > 0 && n > 1 {
            Consistency { lines: lines.len(), columns: n }
        } else {
            Consistency { lines: 0, columns: 0 }
        }),
    decreases k,
{
    lemma_agreeing(lines, d, n);
    if k > 0 {
        lemma_consistent(lines, d, n, (k - 1) as nat);
        assert(text::split(lines[k - 1], d).len() == n);
    }
}

proof fn lemma_best(lines: Seq<Seq<char>>, d: char, n: nat)
    requires
        lines.len() > 0,
        tabular::is_candidate(d),
        only_parts(lines, d, n),
    ensures
        tabular::best_delimiter(lines) as char == d,
{
    lemma_consistent(lines, d, n, lines.len());
    assert forall|c: char| #[trigger] tabular::is_candidate(c) && c != d implies
        tabular::consistency(lines, c) == (Consistency { lines: 0, columns: 0 }) by {
        assert forall|k: int| 0 <= k < lines.len() implies text::split(#[trigger] lines[k], c).len()
            == 1 by {
            assert(!lines[k].contains(c));
            lemma_unparted(lines[k], c);
        }
        lemma_consistent(lines, c, 1, lines.len());
    }
    assert(tabular::is_candidate(',') && tabular::is_candidate(';') && tabular::is_candidate('\t')
        && tabular::is_candidate('|'));
}

/// Whether some texts are lines that are not blank.
pub open spec fn are_full_lines(v: Seq<Seq<char>>) -> bool {
    forall|k: int| 0 <= k < v.len() ==> is_line(#[trigger] v[k]) && !text::blank(v[k])
}

proof fn lemma_all_filled(v: Seq<Seq<char>>)
    requires
        are_full_lines(v),
    ensures
        tabular::filled_lines(v) == v,
    decreases v.len(),
{
    if v.len() > 0 {
        let less = v.drop_last();
        assert forall|k: int| 0 <= k < less.len() implies is_line(#[trigger] less[k])
            && !text::blank(less[k]) by {
            assert(less[k] == v[k]);
        }
        lemma_all_filled(less);
        assert(is_line(v[v.len() - 1]));
        assert(less.push(v.last()) =~= v);
    }
}

proof fn lemma_lines_of_sample(v: Seq<Seq<char>>)
    requires
        v.len() > 0,
        are_full_lines(v),
    ensures
        text::lines(text::join(v, seq!['\n'])) == v,
        text::lines(text::join(v, "\n"@)) == v,
{
    reveal_strlit("\n");
    assert("\n"@ =~= seq!['\n']);
    assert(is_line(v[v.len() - 1]) && !text::blank(v[v.len() - 1]));
    text_laws::law_lines(v);
}

/// The one delimiter that parts all lines alike is found.
pub proof fn law_delimiter_is_found(v: Seq<Seq<char>>, d: char, n: nat)
    requires
        0 < v.len() <= 8,
        are_full_lines(v),
        d == ',' || d == ';' || d == '\t' || d == '|',
        only_parts(v, d, n),
    ensures
        tabular::detected(text::join(v, seq!['\n'])) as char == d,
{
    lemma_lines_of_sample(v);
    lemma_all_filled(v);
    lemma_best(v, d, n);
}

/// Where no delimiter parts anything, it is the comma.
pub proof fn law_comma_without_delimiters(v: Seq<Seq<char>>)
    requires
        0 < v.len() <= 8,
        are_full_lines(v),
        forall|k: int, c: char|
            0 <= k < v.len() && (c == ',' || c == ';' || c == '\t' || c == '|')
                ==> !#[trigger] v[k].contains(c),
    ensures
        tabular::detected(text::join(v, seq!['\n'])) as char == ',',
{
    lemma_lines_of_sample(v);
    lemma_all_filled(v);
    assert forall|c: char| #[trigger] tabular::is_candidate(c) implies tabular::consistency(v, c)
        == (Consistency { lines: 0, columns: 0 }) by {
        assert forall|k: int| 0 <= k < v.len() implies text::split(#[trigger] v[k], c).len()
            == 1 by {
            assert(!v[k].contains(c));
            lemma_unparted(v[k], c);
        }
        lemma_consistent(v, c, 1, v.len());
    }
    assert(tabular::is_candidate(',') && tabular::is_candidate(';') && tabular::is_candidate('\t')
        && tabular::is_candidate('|'));
}

/// Of two delimiters that part lines, one that parts all of them alike wins over
/// one that does not.
pub proof fn law_consistent_delimiter_wins(v: Seq<Seq<char>>, d: char, n: nat, c: char)
    requires
        0 < v.len() <= 8,
        are_full_lines(v),
        d == ',' || d == ';' || d == '\t' || d == '|',
        c == ',' || c == ';' || c == '\t' || c == '|',
        n > 1,
        forall|k: int| 0 <= k < v.len() ==> text::split(#[trigger] v[k], d).len() == n,
        forall|i: int|
            0 <= i < v.len() && text::split(#[trigger] v[i], c).len() > 1 ==> exists|j: int|
                0 <= j < v.len() && text::split(#[trigger] v[j], c).len() != text::split(
                    v[i],
                    c,
                ).len(),
    ensures
        tabular::detected(text::join(v, seq!['\n'])) as char != c,
{
    lemma_lines_of_sample(v);
    lemma_all_filled(v);
    lemma_consistent(v, d, n, v.len());
    lemma_not_all(v, c, v.len());
    assert(tabular::is_candidate(c) && tabular::is_candidate(d));
}

proof fn lemma_disagree(lines: Seq<Seq<char>>, c: char, n: nat, j: int)
    requires
        0 <= j < lines.len(),
        text::split(lines[j], c).len() != n,
    ensures
        tabular::agreeing(lines, c, n) < lines.len(),
    decreases lines.len(),
{
    lemma_agreeing_bound(lines.drop_last(), c, n);
    if j < lines.len() - 1 {
        assert(lines.drop_last()[j] == lines[j]);
        lemma_disagree(lines.drop_last(), c, n, j);
    }
}

proof fn lemma_agreeing_bound(lines: Seq<Seq<char>>, c: char, n: nat)
    ensures
        tabular::agreeing(lines, c, n) <= lines.len(),
    decreases lines.len(),
{
    if lines.len() > 0 {
        lemma_agreeing_bound(lines.drop_last(), c, n);
    }
}

proof fn lemma_not_all(lines: Seq<Seq<char>>, c: char, k: nat)
    requires
        lines.len() > 0,
        k <= lines.len(),
        forall|i: int|
            0 <= i < lines.len() && text::split(#[trigger] lines[i], c).len() > 1 ==> exists|j: int|
                0 <= j < lines.len() && text::split(#[trigger] lines[j], c).len() != text::split(
                    lines[i],
                    c,
                ).len(),
    ensures
        tabular::best_agreement(lines, c, k).lines < lines.len(),
    decreases k,
{
    if k > 0 {
        lemma_not_all(lines, c, (k - 1) as nat);
        let n = text::split(lines[k - 1], c).len();
        if n > 1 {
            let j = choose|j: int|
                0 <= j < lines.len() && text::split(#[trigger] lines[j], c).len() != n;
            lemma_disagree(lines, c, n, j);
        }
    }
}

/// A delimiter that was asked for is taken; else the tab for a TSV file with
/// tabs in its first lines, and for any other the one that is found there.
pub proof fn law_delimiter_taken(
    input: Seq<char>,
    v: Seq<Seq<char>>,
    asked: Option<u8>,
    d: char,
    n: nat,
)
    requires
        v.len() > 0,
        are_full_lines(v),
        d == ',' || d == ';' || d == '\t' || d == '|',
        only_parts(
            if v.len() > 8 {
                v.take(8)
            } else {
                v
            },
            d,
            n,
        ),
    ensures
        asked matches Some(a) ==> tabular::reading_delimiter(
            input,
            text::join(v, seq!['\n']),
            asked,
        ) == a,
        asked is None ==> tabular::reading_delimiter(input, text::join(v, seq!['\n']), asked) as char
            == d,
{
    lemma_lines_of_sample(v);
    let few = if v.len() > 8 {
        v.take(8)
    } else {
        v
    };
    assert forall|k: int| 0 <= k < few.len() implies is_line(#[trigger] few[k]) && !text::blank(
        few[k],
    ) by {
        assert(few[k] == v[k]);
    }
    lemma_lines_of_sample(few);
    law_delimiter_is_found(few, d, n);
    reveal_strlit("\n");
    assert("\n"@ =~= seq!['\n']);
    let sample = text::join(few, seq!['\n']);
    if d != '\t' && sample.contains('\t') {
        lemma_in_join(few, '\t');
    }
}

proof fn lemma_in_join(v: Seq<Seq<char>>, c: char)
    requires
        text::join(v, seq!['\n']).contains(c),
        c != '\n',
    ensures
        exists|k: int| 0 <= k < v.len() && (#[trigger] v[k]).contains(c),
    decreases v.len(),
{
    let s = text::join(v, seq!['\n']);
    let i = choose|i: int| 0 <= i < s.len() && s[i] == c;
    if v.len() == 1 {
        assert(v[0].contains(c));
    } else if v.len() > 1 {
        let less = v.drop_last();
        let head = text::join(less, seq!['\n']);
        if i < head.len() {
            assert(head[i] == c);
            assert(head.contains(c));
            lemma_in_join(less, c);
            let k = choose|k: int| 0 <= k < less.len() && (#[trigger] less[k]).contains(c);
            assert(v[k].contains(c));
        } else {
            assert(i > head.len());
            assert(v.last()[i - head.len() - 1] == c);
            assert(v[v.len() - 1].contains(c));
        }
    }
}

// ---------------------------------------------------------------------------
// Rows
// ---------------------------------------------------------------------------

/// Of the records of a file those that are blank are left out, and no others.
pub proof fn law_blank_rows_go(
    a: Seq<Seq<Seq<char>>>,
    b: Seq<Seq<Seq<char>>>,
    row: Seq<Seq<char>>,
    k: int,
)
    ensures
        table::filled_rows(a + b) == table::filled_rows(a) + table::filled_rows(b),
        0 <= k < row.len() && !text::blank(row[k]) ==> table::filled_rows(seq![row]) == seq![row],
        (forall|j: int| 0 <= j < row.len() ==> text::blank(#[trigger] row[j]))
            ==> table::filled_rows(seq![row]).len() == 0,
    decreases b.len(),
{
    let none = Seq::<Seq<Seq<char>>>::empty();
    assert(seq![row].drop_last() =~= none);
    assert(table::filled_rows(none) =~= none);
    assert(none.push(row) =~= seq![row]);
    if b.len() == 0 {
        assert(a + b =~= a);
        assert(table::filled_rows(a) + table::filled_rows(b) =~= table::filled_rows(a));
    } else {
        law_blank_rows_go(a, b.drop_last(), row, k);
        assert((a + b).drop_last() =~= a + b.drop_last());
        assert((a + b).last() == b.last());
        if !table::blank_row(b.last()) {
            assert((table::filled_rows(a) + table::filled_rows(b.drop_last())).push(b.last())
                =~= table::filled_rows(a) + table::filled_rows(b.drop_last()).push(b.last()));
        }
    }
}

/// The records of a delimited file are its table: the first gives the headers,
/// and the others the rows, in order, each field in its column.
pub proof fn law_records_are_rows(
    input: Seq<char>,
    s: Seq<char>,
    d: u8,
    records: Seq<Seq<Seq<char>>>,
    i: int,
    j: int,
)
    requires
        s.len() > 0 ==> s[0] != '\u{FEFF}',
        delimited::csv_records(s, d) == Ok::<_, Seq<char>>(records),
        forall|k: int| 0 <= k < records.len() ==> !table::blank_row(#[trigger] records[k]),
        1 <= i < records.len(),
        0 <= j < records[0].len(),
    ensures
        tabular::csv_table(input, s, Some(d)) matches Ok(t) && {
            &&& t.rows.len() == records.len() - 1
            &&& t.headers.len() == records[0].len()
            &&& t.rows[i - 1].len() == t.headers.len()
            &&& t.rows[i - 1][j] == (if j < records[i].len() {
                records[i][j]
            } else {
                Seq::empty()
            })
            &&& !text::blank(records[0][j]) && (forall|k: int|
                0 <= k < j ==> records[0][k] != records[0][j]) ==> t.headers[j] == records[0][j]
        },
        tabular::csv_table(input, seq!['\u{FEFF}'] + s, Some(d)) == tabular::csv_table(
            input,
            s,
            Some(d),
        ),
{
    lemma_none_blank(records);
    table::law_header_decides_width(records, i, j);
    table::law_headers_differ(records[0]);
    if !text::blank(records[0][j]) && (forall|k: int| 0 <= k < j ==> records[0][k] != records[0][j]) {
        table::law_new_header_stays(records[0], j);
    }
    assert((seq!['\u{FEFF}'] + s).skip(1) =~= s);
}

proof fn lemma_none_blank(rows: Seq<Seq<Seq<char>>>)
    requires
        forall|k: int| 0 <= k < rows.len() ==> !table::blank_row(#[trigger] rows[k]),
    ensures
        table::filled_rows(rows) == rows,
    decreases rows.len(),
{
    if rows.len() > 0 {
        let less = rows.drop_last();
        assert forall|k: int| 0 <= k < less.len() implies !table::blank_row(#[trigger] less[k]) by {
            assert(less[k] == rows[k]);
        }
        lemma_none_blank(less);
        assert(rows[rows.len() - 1] == rows.last());
        assert(less.push(rows.last()) =~= rows);
    }
}

/// A file that cannot be taken apart is reported with the reason.
pub proof fn law_broken_records(input: Seq<char>, s: Seq<char>, d: u8, why: Seq<char>)
    requires
        s.len() > 0 ==> s[0] != '\u{FEFF}',
        delimited::csv_records(s, d) == Err::<Seq<Seq<Seq<char>>>, _>(why),
    ensures
        tabular::csv_table(input, s, Some(d)) matches Err(
            Failure::MalformedData { path, reason, .. },
        ) && path == input && reason == why,
{
}

// ---------------------------------------------------------------------------
// Headers
// ---------------------------------------------------------------------------

/// The `m`-th name tried for a header: the name, `name (2)`, `name (3)`.
pub open spec fn tried(name: Seq<char>, m: nat) -> Seq<char> {
    if m <= 1 {
        name
    } else {
        name + " ("@ + number::decimal(m) + ")"@
    }
}

proof fn lemma_first_free(name: Seq<char>, n: nat, taken: Seq<Seq<char>>) -> (m: nat)
    requires
        n >= 1,
    ensures
        m >= n,
        table::first_free(name, n, taken) == tried(name, m),
        forall|l: nat| n <= l < m ==> taken.contains(#[trigger] tried(name, l)),
    decreases taken.len() + 1 - n,
{
    assert(table::numbered(name, n) == tried(name, n));
    if n > taken.len() || !taken.contains(table::numbered(name, n)) {
        n
    } else {
        let m = lemma_first_free(name, n + 1, taken);
        assert forall|l: nat| n <= l < m implies taken.contains(#[trigger] tried(name, l)) by {}
        m
    }
}

/// The name that a column goes by: its header, or `column_N` for a blank one.
pub open spec fn first_try(headers: Seq<Seq<char>>, i: int) -> Seq<char> {
    if text::blank(headers[i]) {
        "column_"@ + number::decimal((i + 1) as nat)
    } else {
        headers[i]
    }
}

/// Whether a column has the `m`-th name tried for it, and every name tried before
/// is a header of the file or that of an earlier column.
pub open spec fn has_nth_name(
    headers: Seq<Seq<char>>,
    names: Seq<Seq<char>>,
    i: int,
    m: nat,
) -> bool {
    &&& names[i] == tried(first_try(headers, i), m)
    &&& forall|l: nat|
        1 <= l < m ==> headers.contains(#[trigger] tried(first_try(headers, i), l)) || names.take(
            i,
        ).contains(tried(first_try(headers, i), l))
}

/// A header that cannot stay gets a number behind it, the first that gives a new
/// name; a blank one is called after its column.
pub proof fn law_renamed_headers(headers: Seq<Seq<char>>, i: int)
    requires
        0 <= i < headers.len(),
    ensures
        exists|m: nat| #[trigger] has_nth_name(headers, table::deduped(headers), i, m),
{
    let names = table::renamed(headers, headers.len());
    lemma_renamed_at(headers, headers.len(), i);
    let m = choose|m: nat| #[trigger] has_nth_name(headers, names, i, m);
    assert(has_nth_name(headers, table::deduped(headers), i, m));
}

proof fn lemma_renamed_at(headers: Seq<Seq<char>>, n: nat, i: int)
    requires
        0 <= i < n <= headers.len(),
    ensures
        exists|m: nat| #[trigger] has_nth_name(headers, table::renamed(headers, n), i, m),
    decreases n,
{
    let k = n - 1;
    let before = table::renamed(headers, k as nat);
    let now = table::renamed(headers, n);
    lemma_renamed_len(headers, k as nat);
    if i < k {
        lemma_renamed_at(headers, k as nat, i);
        let m = choose|m: nat| #[trigger] has_nth_name(headers, before, i, m);
        assert(now[i] == before[i]);
        assert(now.take(i) =~= before.take(i));
        assert(has_nth_name(headers, now, i, m));
    } else if table::keeps_header(headers, k) {
        assert(has_nth_name(headers, now, i, 1));
    } else {
        let taken = headers + before;
        let m = lemma_first_free(table::named_header(headers, k), 1, taken);
        assert(now.take(i) =~= before);
        assert forall|l: nat| 1 <= l < m implies headers.contains(
            #[trigger] tried(first_try(headers, i), l),
        ) || now.take(i).contains(tried(first_try(headers, i), l)) by {
            let x = tried(first_try(headers, i), l);
            assert(taken.contains(x));
            let p = choose|p: int| 0 <= p < taken.len() && taken[p] == x;
            if p < headers.len() {
                assert(headers[p] == x);
            } else {
                assert(before[p - headers.len()] == x);
            }
        }
        assert(has_nth_name(headers, now, i, m));
    }
}

proof fn lemma_renamed_len(headers: Seq<Seq<char>>, n: nat)
    requires
        n <= headers.len(),
    ensures
        table::renamed(headers, n).len() == n,
    decreases n,
{
    if n > 0 {
        lemma_renamed_len(headers, (n - 1) as nat);
    }
}

// ---------------------------------------------------------------------------
// Files
// ---------------------------------------------------------------------------

/// The lines of a delimited file are those of its records, in order.
pub proof fn law_lines_in_order(a: Seq<Seq<Seq<char>>>, b: Seq<Seq<Seq<char>>>, d: u8)
    ensures
        tabular::csv_bytes(a, d) is Ok && tabular::csv_bytes(b, d) is Ok
            ==> tabular::csv_bytes(a + b, d) == Ok::<_, Seq<char>>(
            tabular::csv_bytes(a, d)->Ok_0 + tabular::csv_bytes(b, d)->Ok_0,
        ),
        a.len() == 1 ==> tabular::csv_bytes(a, d) == delimited::csv_record(a[0], d),
    decreases b.len(),
{
    let none = Seq::<Seq<Seq<char>>>::empty();
    if a.len() == 1 {
        assert(a.drop_last() =~= none);
        assert(tabular::csv_bytes(none, d) == Ok::<Seq<u8>, Seq<char>>(Seq::empty()));
        if let Ok(line) = delimited::csv_record(a[0], d) {
            assert(Seq::<u8>::empty() + line =~= line);
        }
    }
    if b.len() == 0 {
        assert(a + b =~= a);
        if let Ok(x) = tabular::csv_bytes(a, d) {
            assert(x + Seq::<u8>::empty() =~= x);
        }
    } else {
        law_lines_in_order(a, b.drop_last(), d);
        assert((a + b).drop_last() =~= a + b.drop_last());
        assert((a + b).last() == b.last());
        if let (Ok(x), Ok(y), Ok(z)) = (
            tabular::csv_bytes(a, d),
            tabular::csv_bytes(b.drop_last(), d),
            delimited::csv_record(b.last(), d),
        ) {
            assert((x + y) + z =~= x + (y + z));
        }
    }
}

/// A table goes into the file that the output is named after: tabs part the
/// columns of a TSV file and commas those of a CSV file, headers first; a JSON
/// file lists an object for each row; a workbook gets a sheet called after the
/// input.
pub proof fn law_tables_are_written(input: Seq<char>, t: TableView, output: Seq<char>)
    requires
        t.headers.len() > 0,
    ensures
        converters::ext(output) == "csv"@ && tabular::csv_bytes(seq![t.headers] + t.rows, 0x2C) is
            Ok ==> tabular::table_outcome(input, Ok(t), output) == Ok::<_, Failure>(
            DeliveryView::Bytes(tabular::csv_bytes(seq![t.headers] + t.rows, 0x2C)->Ok_0),
        ),
        converters::ext(output) == "tsv"@ && tabular::csv_bytes(seq![t.headers] + t.rows, 0x09) is
            Ok ==> tabular::table_outcome(input, Ok(t), output) == Ok::<_, Failure>(
            DeliveryView::Bytes(tabular::csv_bytes(seq![t.headers] + t.rows, 0x09)->Ok_0),
        ),
        converters::ext(output) == "json"@ && json::pretty_rows(tabular::keyed_rows(t)) is Ok
            ==> tabular::table_outcome(input, Ok(t), output) == Ok::<_, Failure>(
            DeliveryView::Text(json::pretty_rows(tabular::keyed_rows(t))->Ok_0),
        ),
        converters::ext(output) == "xlsx"@ ==> tabular::table_outcome(input, Ok(t), output) == Ok::<
            _,
            Failure,
        >(DeliveryView::Sheet(xlsx::sheet_of(t, xlsx::sheet_name(input)))),
{
    converters::names::lemma_tabular_names();
}

/// A file that cannot be read as a table is not written as one.
pub proof fn law_failures_are_passed_on(input: Seq<char>, f: Failure, output: Seq<char>)
    ensures
        tabular::table_outcome(input, Err(f), output) == Err::<DeliveryView, _>(f),
{
}

/// Every row of a table is an object whose fields are its cells under the
/// headers; a header without a name is called after its column, and a cell that
/// is missing is empty.
pub proof fn law_rows_are_objects(t: TableView, i: int, c: int)
    requires
        0 <= i < t.rows.len(),
        0 <= c < t.headers.len(),
    ensures
        tabular::keyed_rows(t).len() == t.rows.len(),
        tabular::keyed_rows(t)[i].len() == t.headers.len(),
        t.headers[c].len() > 0 ==> tabular::keyed_rows(t)[i][c].0 == t.headers[c],
        t.headers[c].len() == 0 ==> tabular::keyed_rows(t)[i][c].0 == "column_"@ + number::decimal(
            (c + 1) as nat,
        ),
        c < t.rows[i].len() ==> tabular::keyed_rows(t)[i][c].1 == t.rows[i][c],
        c >= t.rows[i].len() ==> tabular::keyed_rows(t)[i][c].1.len() == 0,
{
}

/// A table is read by the rules of the format that the input is named after.
pub proof fn law_tables_are_read(
    input: Seq<char>,
    source: SourceView,
    delimiter: Option<u8>,
    bytes: Seq<u8>,
)
    ensures
        ({
            let e = converters::ext(input);
            let t = tabular::source_table(input, source, delimiter);
            &&& source.content == Ok::<_, Seq<char>>(bytes) && e == "json"@ ==> t
                == json_table::json_table(input, encoding::lossy(bytes))
            &&& source.content == Ok::<_, Seq<char>>(bytes) && (e == "csv"@ || e == "tsv"@) ==> t
                == tabular::csv_table(input, encoding::lossy(bytes), delimiter)
            &&& source.is_file && (e == "xlsx"@ || e == "xls"@ || e == "xlsm"@ || e == "xlsb"@ || e
                == "ods"@) ==> t == workbook_table::book_table(input, source.workbook)
            &&& source.content is Err && (e == "json"@ || e == "csv"@ || e == "tsv"@) ==> (
            t matches Err(Failure::UnreadableInput { path, reason }) && path == input && reason
                == source.content->Err_0)
        }),
{
    converters::names::lemma_tabular_names();
}

/// The headers of a table are all different and none is blank; one that is
/// neither blank nor taken before stays as the first row has it.
pub proof fn law_headers_are_names(rows: Seq<Seq<Seq<char>>>, j: int)
    requires
        rows.len() > 0,
        0 <= j < rows[0].len(),
    ensures
        table::shaped(rows).headers.no_duplicates(),
        table::headed(rows).headers.no_duplicates(),
        j < table::shaped(rows).headers.len() && !text::blank(table::shaped(rows).headers[j]),
        j < table::headed(rows).headers.len() && !text::blank(table::headed(rows).headers[j]),
        !text::blank(rows[0][j]) && (forall|i: int| 0 <= i < j ==> rows[0][i] != rows[0][j])
            ==> table::shaped(rows).headers[j] == rows[0][j] && table::headed(rows).headers[j]
            == rows[0][j],
{
    table::law_headers_differ(rows[0]);
    lemma_widest_first(rows);
    let wide = table::fitted(rows[0], table::widest(rows));
    table::law_headers_differ(wide);
    if !text::blank(rows[0][j]) && (forall|i: int| 0 <= i < j ==> rows[0][i] != rows[0][j]) {
        table::law_new_header_stays(rows[0], j);
        assert forall|i: int| 0 <= i < j implies wide[i] != wide[j] by {
            assert(wide[i] == rows[0][i]);
        }
        table::law_new_header_stays(wide, j);
    }
}

proof fn lemma_widest_first(rows: Seq<Seq<Seq<char>>>)
    requires
        rows.len() > 0,
    ensures
        rows[0].len() <= table::widest(rows),
    decreases rows.len(),
{
    if rows.len() > 1 {
        assert(rows.drop_last()[0] == rows[0]);
        lemma_widest_first(rows.drop_last());
    }
}

/// Only the name of a TSV file makes tabs count more than what the lines show;
/// its first eight lines then hold a tab. Otherwise those lines decide.
pub proof fn law_tabs(input: Seq<char>, s: Seq<char>)
    ensures
        ({
            let lines = text::lines(s);
            let few = if lines.len() > 8 {
                lines.take(8)
            } else {
                lines
            };
            let sample = text::join(few, "\n"@);
            let r = tabular::reading_delimiter(input, s, None);
            &&& converters::ext(input) != "tsv"@ ==> r == tabular::detected(sample)
            &&& converters::ext(input) == "tsv"@ && sample.contains('\t') ==> r as char == '\t'
            &&& converters::ext(input) == "tsv"@ && !sample.contains('\t') ==> r
                == tabular::detected(sample)
        }),
{
}

// ---------------------------------------------------------------------------
// Failures
// ---------------------------------------------------------------------------

/// What cannot be read is reported by its path, by the format that it was read
/// as and with the reason; what cannot be written by the path of the output.
pub proof fn law_table_failures(
    input: Seq<char>,
    s: Seq<char>,
    d: u8,
    t: TableView,
    output: Seq<char>,
    why: Seq<char>,
)
    ensures
        delimited::csv_records(document::strip_mark(s), d) == Err::<Seq<Seq<Seq<char>>>, _>(why)
            ==> tabular::csv_table(input, s, Some(d)) == Err::<TableView, _>(
            Failure::MalformedData { path: input, format: "CSV"@, reason: why },
        ),
        json::parsed_json(s) == Err::<JsonView, _>(why) ==> json_table::json_table(input, s)
            == Err::<TableView, _>(
            Failure::MalformedData { path: input, format: "JSON"@, reason: why },
        ),
        tabular::csv_bytes(tabular::written_lines(t), d) == Err::<Seq<u8>, _>(why)
            ==> tabular::csv_written(t, output, d) == Err::<Seq<u8>, _>(
            Failure::UnwritableOutput { path: output, reason: why },
        ),
        json::pretty_rows(tabular::keyed_rows(t)) == Err::<Seq<char>, _>(why)
            ==> tabular::json_written(t, output) == Err::<Seq<char>, _>(
            Failure::UnwritableOutput { path: output, reason: why },
        ),
{
}

/// A workbook that cannot be parsed, one without sheets, and a sheet that
/// cannot be read are each told as such, with the reason and the sheet's name.
pub proof fn law_book_failures(
    input: Seq<char>,
    sheets: Seq<workbook_table::SheetView>,
    why: Seq<char>,
)
    ensures
        workbook_table::book_table(input, Err(why)) == Err::<TableView, _>(
            Failure::MalformedData {
                path: input,
                format: "spreadsheet"@,
                reason: "cannot parse workbook: "@ + why,
            },
        ),
        sheets.len() == 0 ==> workbook_table::book_table(input, Ok(sheets)) == Err::<TableView, _>(
            Failure::MalformedData {
                path: input,
                format: "spreadsheet"@,
                reason: "workbook contains no sheets"@,
            },
        ),
        sheets.len() > 0 && sheets[0].rows == Err::<Seq<Seq<workbook_table::CellView>>, _>(why)
            ==> workbook_table::book_table(input, Ok(sheets)) == Err::<TableView, _>(
            Failure::MalformedData {
                path: input,
                format: "spreadsheet"@,
                reason: "cannot read sheet '"@ + sheets[0].name + "': "@ + why,
            },
        ),
{
}

/// A source that cannot be read, and a workbook that is no file, are reported
/// by their path.
pub proof fn law_unreadable_sources(
    input: Seq<char>,
    source: SourceView,
    asked: Option<u8>,
    why: Seq<char>,
)
    ensures
        !converters::is_workbook(converters::ext(input)) && source.content == Err::<Seq<u8>, _>(why)
            ==> tabular::source_table(input, source, asked) == Err::<TableView, _>(
            Failure::UnreadableInput { path: input, reason: why },
        ),
        converters::is_workbook(converters::ext(input)) && !source.is_file
            ==> tabular::source_table(input, source, asked) == Err::<TableView, _>(
            Failure::UnreadableInput {
                path: input,
                reason: "file does not exist or is not a regular file"@,
            },
        ),
{
}

/// Blank lines do not count where a delimiter is looked for; all others do, in
/// order.
pub proof fn law_blank_lines_do_not_count(
    a: Seq<Seq<char>>,
    b: Seq<Seq<char>>,
    line: Seq<char>,
)
    ensures
        tabular::filled_lines(a + b) == tabular::filled_lines(a) + tabular::filled_lines(b),
        text::trim(line).len() == 0 ==> tabular::filled_lines(seq![line]).len() == 0,
        text::trim(line).len() > 0 ==> tabular::filled_lines(seq![line]) == seq![line],
    decreases b.len(),
{
    if b.len() == 0 {
        assert(a + b =~= a);
        assert(tabular::filled_lines(b) =~= Seq::<Seq<char>>::empty());
    } else {
        assert((a + b).drop_last() =~= a + b.drop_last());
        assert((a + b).last() == b.last());
        law_blank_lines_do_not_count(a, b.drop_last(), line);
        assert(tabular::filled_lines(a + b) =~= tabular::filled_lines(a) + tabular::filled_lines(
            b,
        ));
    }
    text::lemma_trim_blank(line);
    assert(seq![line].drop_last() =~= Seq::<Seq<char>>::empty());
    assert(tabular::filled_lines(seq![line].drop_last()) =~= Seq::<Seq<char>>::empty());
    assert(seq![line].last() == line);
    if text::trim(line).len() > 0 {
        assert(tabular::filled_lines(seq![line]) =~= seq![line]);
    }
}

/// A table without headers is written as its rows alone, and one with headers
/// with one line more, in front.
pub proof fn law_lines_written(t: TableView)
    ensures
        t.headers.len() == 0 ==> tabular::written_lines(t) == t.rows,
        t.headers.len() > 0 ==> tabular::written_lines(t).len() == t.rows.len() + 1
            && tabular::written_lines(t)[0] == t.headers && tabular::written_lines(t).skip(1)
            == t.rows,
{
    if t.headers.len() > 0 {
        assert(tabular::written_lines(t).skip(1) =~= t.rows);
    }
}

} // verus!
