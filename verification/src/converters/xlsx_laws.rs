//! What a table becomes in a workbook.
use vstd::prelude::*;

use crate::converters::table::TableView;
use crate::converters::xlsx;
use crate::converters::xlsx::SheetCellView;
use crate::number;
use crate::number_laws;
use crate::number_laws::{digits_only, in_numeral};
use crate::paths;
use crate::text;

verus! {

// ---------------------------------------------------------------------------
// Cells
// ---------------------------------------------------------------------------

/// Whether a cell stands for a text: as that text, or as the number that it is
/// the numeral of, a comma in it read as a point.
pub open spec fn stands_for(cell: SheetCellView, s: Seq<char>) -> bool {
    match cell {
        SheetCellView::Text(t) => t == s,
        SheetCellView::Plain(t) => is_pointed(t, s),
        SheetCellView::Decimal(t) => is_pointed(t, s),
    }
}

/// Whether a text is another one with points for commas.
pub open spec fn is_pointed(t: Seq<char>, s: Seq<char>) -> bool {
    t.len() == s.len() && forall|i: int|
        0 <= i < s.len() ==> #[trigger] t[i] == (if s[i] == ',' {
            '.'
        } else {
            s[i]
        })
}

/// No cell says anything but what the table says.
pub proof fn law_cells_stand_for_their_texts(s: Seq<char>)
    ensures
        stands_for(xlsx::cell_of(s), s),
        text::blank(s) ==> xlsx::cell_of(s) == SheetCellView::Text(s),
{
}

/// Digits that start with a zero are no number but an id, and stay a text with
/// all their zeros.
pub proof fn law_leading_zeros_stay(s: Seq<char>)
    requires
        s.len() >= 2,
        s[0] == '0',
        digits_only(s),
    ensures
        xlsx::cell_of(s) == SheetCellView::Text(s),
{
    assert(!s.contains('.') && !s.contains('e') && !s.contains('E'));
}

proof fn lemma_not_blank(s: Seq<char>, i: int)
    requires
        0 <= i < s.len(),
        '0' <= s[i] && s[i] <= '9',
    ensures
        !text::blank(s),
{
    assert(!text::is_space(s[i]));
}

proof fn lemma_no_commas(s: Seq<char>)
    requires
        !s.contains(','),
    ensures
        xlsx::with_points(s) == s,
{
    assert forall|i: int| 0 <= i < s.len() implies xlsx::with_points(s)[i] == s[i] by {
        assert(s.contains(s[i]));
    }
    assert(xlsx::with_points(s) =~= s);
}

/// Digits with a decimal point are a number with two places, a zero in front or
/// not, with a sign or without.
pub proof fn law_decimals_are_numbers(a: Seq<char>, b: Seq<char>, sign: char)
    requires
        digits_only(a),
        digits_only(b),
        a.len() > 0,
        sign == '+' || sign == '-',
    ensures
        xlsx::cell_of(a.push('.') + b) == SheetCellView::Decimal(a.push('.') + b),
        xlsx::cell_of(seq![sign] + (a.push('.') + b)) == SheetCellView::Decimal(
            seq![sign] + (a.push('.') + b),
        ),
{
    let s = a.push('.') + b;
    let t = seq![sign] + s;
    number_laws::law_numerals(a, b, sign);
    assert(s[a.len() as int] == '.');
    assert(t[a.len() as int + 1] == '.');
    assert(s.contains('.') && t.contains('.'));
    assert(!s.contains(',')) by {
        if s.contains(',') {
            let i = choose|i: int| 0 <= i < s.len() && s[i] == ',';
            if i < a.len() {
                assert(a[i] == s[i]);
            } else if i > a.len() {
                assert(b[i - a.len() - 1] == s[i]);
            }
        }
    }
    assert(!t.contains(',')) by {
        if t.contains(',') {
            let i = choose|i: int| 0 <= i < t.len() && t[i] == ',';
            assert(i > 0 && s[i - 1] == t[i]);
        }
    }
    lemma_no_commas(s);
    lemma_no_commas(t);
    assert(s[0] == a[0]);
    lemma_not_blank(s, 0);
    assert(t[1] == a[0]);
    lemma_not_blank(t, 1);
}

/// Digits with a power of ten behind them are a number with two places, however
/// the power is marked.
pub proof fn law_powers_are_numbers(a: Seq<char>, e: Seq<char>, mark: char)
    requires
        digits_only(a),
        digits_only(e),
        a.len() > 0,
        e.len() > 0,
        mark == 'e' || mark == 'E',
    ensures
        xlsx::cell_of(a.push(mark) + e) == SheetCellView::Decimal(a.push(mark) + e),
{
    let s = a.push(mark) + e;
    number_laws::law_powers(a, e, mark);
    assert(s[a.len() as int] == mark);
    assert(s.contains(mark));
    assert(!s.contains(',')) by {
        if s.contains(',') {
            let i = choose|i: int| 0 <= i < s.len() && s[i] == ',';
            if i < a.len() {
                assert(a[i] == s[i]);
            } else if i > a.len() {
                assert(e[i - a.len() - 1] == s[i]);
            }
        }
    }
    lemma_no_commas(s);
    assert(s[0] == a[0]);
    lemma_not_blank(s, 0);
}

/// Digits without a zero in front are a plain number, and so are they behind a
/// minus sign.
pub proof fn law_whole_numbers_are_numbers(a: Seq<char>)
    requires
        digits_only(a),
        a.len() > 0,
        a.len() > 1 ==> a[0] != '0',
    ensures
        xlsx::cell_of(a) == SheetCellView::Plain(a),
        xlsx::cell_of(seq!['-'] + a) == SheetCellView::Plain(seq!['-'] + a),
{
    let t = seq!['-'] + a;
    number_laws::law_numerals(a, Seq::empty(), '-');
    assert(!a.contains('.') && !a.contains('e') && !a.contains('E') && !a.contains(','));
    assert forall|c: char| !('0' <= c && c <= '9') && c != '-' implies !#[trigger] t.contains(c) by {
        if t.contains(c) {
            let i = choose|i: int| 0 <= i < t.len() && t[i] == c;
            if i > 0 {
                assert(a[i - 1] == t[i]);
            }
        }
    }
    lemma_no_commas(a);
    lemma_no_commas(t);
    lemma_not_blank(a, 0);
    assert(t[1] == a[0]);
    lemma_not_blank(t, 1);
}

/// A decimal comma is read as a point.
pub proof fn law_decimal_commas(a: Seq<char>, b: Seq<char>)
    requires
        digits_only(a),
        digits_only(b),
        a.len() > 0,
        a[0] != '0',
    ensures
        xlsx::cell_of(a.push(',') + b) == SheetCellView::Plain(a.push('.') + b),
{
    let s = a.push(',') + b;
    number_laws::law_numerals(a, b, '-');
    assert forall|i: int| 0 <= i < s.len() implies xlsx::with_points(s)[i] == (a.push('.')
        + b)[i] by {
        if i < a.len() {
            assert(s[i] == a[i]);
        } else if i > a.len() {
            assert(s[i] == b[i - a.len() - 1]);
        }
    }
    assert(xlsx::with_points(s) =~= a.push('.') + b);
    assert forall|c: char| !('0' <= c && c <= '9') && c != ',' implies !#[trigger] s.contains(c) by {
        if s.contains(c) {
            let i = choose|i: int| 0 <= i < s.len() && s[i] == c;
            if i < a.len() {
                assert(a[i] == s[i]);
            } else if i > a.len() {
                assert(b[i - a.len() - 1] == s[i]);
            }
        }
    }
    assert(s[0] == a[0]);
    lemma_not_blank(s, 0);
}

/// What holds anything that no numeral holds stays a text.
pub proof fn law_words_stay_texts(s: Seq<char>, i: int)
    requires
        0 <= i < s.len(),
        !in_numeral(s[i]),
        s[i] != ',',
        ({
            let name = text::lower(
                if s[0] == '+' || s[0] == '-' {
                    s.skip(1)
                } else {
                    s
                },
            );
            name != "inf"@ && name != "infinity"@ && name != "nan"@
        }),
    ensures
        xlsx::cell_of(s) == SheetCellView::Text(s),
{
    let p = xlsx::with_points(s);
    if number::is_real_numeral(p) {
        number_laws::law_no_numeral(p, i);
        let t = if p[0] == '+' || p[0] == '-' {
            p.skip(1)
        } else {
            p
        };
        let u = if s[0] == '+' || s[0] == '-' {
            s.skip(1)
        } else {
            s
        };
        assert(t.len() == u.len());
        reveal_strlit("inf");
        reveal_strlit("infinity");
        reveal_strlit("nan");
        let name = text::lower(t);
        assert(name == "inf"@ || name == "infinity"@ || name == "nan"@);
        assert(name.len() == t.len());
        assert(name.len() <= 8);
        assert forall|k: int| 0 <= k < u.len() implies text::lower(u)[k] == name[k] by {
            assert(t[k] == (if u[k] == ',' {
                '.'
            } else {
                u[k]
            }));
            assert(name[k] == text::lower_char(t[k]));
            assert(k == 0 || k == 1 || k == 2 || k == 3 || k == 4 || k == 5 || k == 6 || k == 7);
            assert(name[k] != '.');
        }
        assert(text::lower(u) =~= name);
    }
}

// ---------------------------------------------------------------------------
// Sheets
// ---------------------------------------------------------------------------

/// A sheet has the headers and the cells of its table, each in its place.
pub proof fn law_sheet_keeps_the_table(t: TableView, name: Seq<char>, i: int, c: int)
    requires
        0 <= i < t.rows.len(),
        0 <= c < t.rows[i].len() <= t.headers.len(),
    ensures
        xlsx::sheet_of(t, name).headers == t.headers,
        xlsx::sheet_of(t, name).rows.len() == t.rows.len(),
        xlsx::sheet_of(t, name).rows[i].len() == t.rows[i].len(),
        stands_for(xlsx::sheet_of(t, name).rows[i][c], t.rows[i][c]),
{
    law_cells_stand_for_their_texts(t.rows[i][c]);
}

/// Whether a character is not allowed in the name of a sheet.
pub open spec fn is_barred(c: char) -> bool {
    "[]:*?/\\"@.contains(c)
}

proof fn lemma_barred(c: char)
    ensures
        is_barred(c) <==> c == '[' || c == ']' || c == ':' || c == '*' || c == '?' || c == '/' || c
            == '\\',
{
    reveal_strlit("[]:*?/\\");
    let all = "[]:*?/\\"@;
    assert(all =~= seq!['[', ']', ':', '*', '?', '/', '\\']);
    if c == '[' {
        assert(all[0] == c);
    }
    if c == ']' {
        assert(all[1] == c);
    }
    if c == ':' {
        assert(all[2] == c);
    }
    if c == '*' {
        assert(all[3] == c);
    }
    if c == '?' {
        assert(all[4] == c);
    }
    if c == '/' {
        assert(all[5] == c);
    }
    if c == '\\' {
        assert(all[6] == c);
    }
}

/// The name of a sheet has at most 31 characters, is not blank and holds none of
/// those that are barred; as far as it can it is the name asked for, with `_`
/// for each of them.
pub proof fn law_sheet_names(name: Seq<char>, i: int)
    requires
        0 <= i < xlsx::clean_name(name).len(),
    ensures
        1 <= xlsx::clean_name(name).len() <= 31,
        !text::blank(xlsx::clean_name(name)),
        !is_barred(xlsx::clean_name(name)[i]),
        (exists|k: int| 0 <= k < 31 && k < name.len() && !text::is_space(#[trigger] name[k])) ==> (i
            < name.len() && xlsx::clean_name(name)[i] == (if is_barred(name[i]) {
            '_'
        } else {
            name[i]
        }) && xlsx::clean_name(name).len() == (if name.len() > 31 {
            31
        } else {
            name.len()
        })),
{
    xlsx::law_sheet_name_allowed(name);
    let clean = xlsx::clean_name(name);
    lemma_barred(clean[i]);
    assert(xlsx::name_char(clean[i]) == clean[i]);
    if i < name.len() {
        lemma_barred(name[i]);
    }
    if exists|k: int| 0 <= k < 31 && k < name.len() && !text::is_space(#[trigger] name[k]) {
        let k = choose|k: int| 0 <= k < 31 && k < name.len() && !text::is_space(#[trigger] name[k]);
        let cleaned = name.map_values(|c: char| xlsx::name_char(c));
        let short = if cleaned.len() > 31 {
            cleaned.take(31)
        } else {
            cleaned
        };
        assert(short[k] == xlsx::name_char(name[k]));
        assert(!text::is_space('_'));
        assert(!text::is_space(short[k]));
        assert(clean == short);
    }
}

/// A name of which nothing can be seen is replaced.
pub proof fn law_blank_sheet_names(name: Seq<char>)
    requires
        forall|k: int| 0 <= k < 31 && k < name.len() ==> text::is_space(#[trigger] name[k]),
    ensures
        xlsx::clean_name(name) == "Sheet1"@,
{
    let cleaned = name.map_values(|c: char| xlsx::name_char(c));
    let short = if cleaned.len() > 31 {
        cleaned.take(31)
    } else {
        cleaned
    };
    assert forall|k: int| 0 <= k < short.len() implies text::is_space(#[trigger] short[k]) by {
        assert(text::is_space(name[k]));
        assert(short[k] == xlsx::name_char(name[k]));
    }
}

/// The sheet of a file is called like the file, without its extension.
pub proof fn law_sheet_is_named_like_the_file(input: Seq<char>)
    ensures
        paths::file_stem(input) is None ==> xlsx::sheet_name(input) == "Sheet1"@,
        paths::file_stem(input) matches Some(stem) ==> xlsx::sheet_name(input) == xlsx::clean_name(
            stem,
        ),
{
}

// ---------------------------------------------------------------------------
// Widths
// ---------------------------------------------------------------------------

/// The width of a text is that of its characters together: one for each of an
/// alphabet, two for each Chinese, Japanese or Korean one and each face.
pub proof fn law_width_adds_up(a: Seq<char>, b: Seq<char>, c: char)
    ensures
        xlsx::text_width(a + b) == xlsx::text_width(a) + xlsx::text_width(b),
        xlsx::text_width(Seq::empty()) == 0,
        (c as u32) < 0x1100 ==> xlsx::text_width(seq![c]) == 1,
        0x3041 <= (c as u32) <= 0x30FF || 0x4E00 <= (c as u32) <= 0x9FFF || 0xAC00 <= (c as u32)
            <= 0xD7A3 || 0xFF01 <= (c as u32) <= 0xFF60 || 0x1F600 <= (c as u32) <= 0x1F64F
            ==> xlsx::text_width(seq![c]) == 2,
        0x1100 <= (c as u32) <= 0x115F || 0x2E80 <= (c as u32) <= 0xA4CF || 0xF900 <= (c as u32)
            <= 0xFAFF || 0xFE30 <= (c as u32) <= 0xFE4F || 0xFFE0 <= (c as u32) <= 0xFFE6
            || 0x20000 <= (c as u32) <= 0x3FFFD ==> xlsx::text_width(seq![c]) == 2,
        0x1160 <= (c as u32) < 0x203C || 0x2500 <= (c as u32) < 0x25AA || 0xA4D0 <= (c as u32)
            < 0xAC00 || 0x10000 <= (c as u32) < 0x1F000 || (c as u32) >= 0x40000
            ==> xlsx::text_width(seq![c]) == 1,
        1 <= xlsx::text_width(seq![c]) <= 2,
    decreases b.len(),
{
    assert(seq![c].drop_last() =~= Seq::<char>::empty());
    assert(xlsx::text_width(seq![c].drop_last()) == 0);
    assert(seq![c].last() == c);
    if b.len() == 0 {
        assert(a + b =~= a);
    } else {
        law_width_adds_up(a, b.drop_last(), c);
        assert((a + b).drop_last() =~= a + b.drop_last());
        assert((a + b).last() == b.last());
    }
}

/// The width that a cell asks for: its own and two more, within 10 and 50.
pub open spec fn is_asked(s: Seq<char>, w: int) -> bool {
    let own = xlsx::text_width(s) + 2;
    w == (if own < 10 {
        10
    } else if own > 50 {
        50
    } else {
        own as int
    })
}

proof fn lemma_rows_width(rows: Seq<Seq<Seq<char>>>, c: int, n: nat)
    requires
        n <= rows.len(),
        0 <= c,
    ensures
        forall|i: int|
            0 <= i < n && c < (#[trigger] rows[i]).len() ==> xlsx::rows_width(rows, c, n)
                >= xlsx::asked_width(rows[i][c]),
        xlsx::rows_width(rows, c, n) == 10 || exists|i: int|
            0 <= i < n && c < (#[trigger] rows[i]).len() && xlsx::rows_width(rows, c, n)
                == xlsx::asked_width(rows[i][c]),
        10 <= xlsx::rows_width(rows, c, n) <= 50,
    decreases n,
{
    if n > 0 {
        lemma_rows_width(rows, c, (n - 1) as nat);
        let row = rows[n - 1];
        let before = xlsx::rows_width(rows, c, (n - 1) as nat);
        if before > 10 && !(c < row.len() && xlsx::asked_width(row[c]) > before) {
            let i = choose|i: int|
                0 <= i < n - 1 && c < (#[trigger] rows[i]).len() && before == xlsx::asked_width(
                    rows[i][c],
                );
            assert(xlsx::rows_width(rows, c, n) == xlsx::asked_width(rows[i][c]));
        }
    }
}

/// A column is as wide as its widest cell asks for, the header counted, and no
/// wider.
pub proof fn law_columns_fit_their_cells(t: TableView, name: Seq<char>, c: int, w: int, i: int, v: int)
    requires
        0 <= c < t.headers.len(),
        is_asked(t.headers[c], w),
        0 <= i < t.rows.len(),
        c < t.rows[i].len(),
        is_asked(t.rows[i][c], v),
    ensures
        xlsx::sheet_of(t, name).widths.len() >= t.headers.len(),
        xlsx::sheet_of(t, name).widths[c] >= w,
        xlsx::sheet_of(t, name).widths[c] >= v,
        xlsx::sheet_of(t, name).widths[c] == w || exists|k: int|
            0 <= k < t.rows.len() && c < (#[trigger] t.rows[k]).len() && is_asked(
                t.rows[k][c],
                xlsx::sheet_of(t, name).widths[c] as int,
            ),
{
    lemma_rows_width(t.rows, c, t.rows.len());
    let cells = xlsx::rows_width(t.rows, c, t.rows.len());
    assert(w == xlsx::asked_width(t.headers[c]));
    assert(v == xlsx::asked_width(t.rows[i][c]));
    assert(xlsx::sheet_of(t, name).widths[c] == xlsx::column_width(t, c) as u32);
    if cells > w {
        let k = choose|k: int|
            0 <= k < t.rows.len() && c < (#[trigger] t.rows[k]).len() && cells
                == xlsx::asked_width(t.rows[k][c]);
        assert(is_asked(t.rows[k][c], cells as int));
    }
}

} // verus!
