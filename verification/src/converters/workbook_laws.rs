//! What a spreadsheet gives as a table.
use vstd::arithmetic::power2::pow2;
use vstd::prelude::*;

use crate::converters::table;
use crate::converters::table::TableView;
use crate::converters::workbook_table;
use crate::converters::workbook_table::{CellView, SheetView};
use crate::converters::Failure;
use crate::number;
use crate::number_laws;
use crate::text;

verus! {

// ---------------------------------------------------------------------------
// Cells
// ---------------------------------------------------------------------------

/// A cell says what it holds: a text as it is, a truth value by its name, a date
/// or a duration as it is printed, an error by its name, a whole number by its
/// digits, and any other number as it is printed.
pub proof fn law_cells_say_what_they_hold(c: CellView)
    ensures
        c matches CellView::Text(s) ==> workbook_table::cell_text(c) == s,
        c matches CellView::DateTime(s) ==> workbook_table::cell_text(c) == s,
        c matches CellView::DateTimeIso(s) ==> workbook_table::cell_text(c) == s,
        c matches CellView::DurationIso(s) ==> workbook_table::cell_text(c) == s,
        c matches CellView::Error(s) ==> "#ERR:"@.is_prefix_of(workbook_table::cell_text(c))
            && workbook_table::cell_text(c).skip(5) == s,
        c matches CellView::Bool(b) ==> workbook_table::cell_text(c) == (if b {
            "TRUE"@
        } else {
            "FALSE"@
        }),
        c matches CellView::Int(i) ==> says_number(workbook_table::cell_text(c), i as int),
        c matches CellView::Float(bits, s) ==> match workbook_table::whole_number(bits) {
            Some(n) => says_number(workbook_table::cell_text(c), n),
            None => workbook_table::cell_text(c) == s,
        },
        c is Empty ==> workbook_table::cell_text(c).len() == 0,
{
    reveal_strlit("#ERR:");
    if let CellView::Error(s) = c {
        assert(("#ERR:"@ + s).skip(5) =~= s);
    }
    if let CellView::Int(i) = c {
        number_laws::law_signed(i as int);
    }
    if let CellView::Float(bits, s) = c {
        if let Some(n) = workbook_table::whole_number(bits) {
            number_laws::law_signed(n);
        }
    }
}

/// Whether a text is the digits of a number, behind a minus sign where it is
/// below zero.
pub open spec fn says_number(s: Seq<char>, n: int) -> bool {
    let digits = if n < 0 {
        s.skip(1)
    } else {
        s
    };
    &&& n < 0 ==> s.len() > 1 && s[0] == '-'
    &&& digits.len() > 0
    &&& forall|i: int| 0 <= i < digits.len() ==> '0' <= #[trigger] digits[i] && digits[i] <= '9'
    &&& number::digits_value(digits) == (if n < 0 {
        -n
    } else {
        n
    })
}

/// Only an empty cell, or one that holds an empty text, gives an empty text.
pub proof fn law_full_cells_stay_full(c: CellView)
    requires
        !(c is Empty),
        c matches CellView::Text(s) ==> s.len() > 0,
        c matches CellView::Float(_, s) ==> s.len() > 0,
        c matches CellView::DateTime(s) ==> s.len() > 0,
        c matches CellView::DateTimeIso(s) ==> s.len() > 0,
        c matches CellView::DurationIso(s) ==> s.len() > 0,
    ensures
        workbook_table::cell_text(c).len() > 0,
{
    law_cells_say_what_they_hold(c);
    reveal_strlit("#ERR:");
    reveal_strlit("TRUE");
    reveal_strlit("FALSE");
}

proof fn lemma_power(n: nat)
    ensures
        workbook_table::power_of_two(n) == pow2(n),
        pow2(n) > 0,
    decreases n,
{
    vstd::arithmetic::power2::lemma_pow2_pos(n);
    if n == 0 {
        vstd::arithmetic::power2::lemma2_to64();
    } else {
        lemma_power((n - 1) as nat);
        vstd::arithmetic::power2::lemma_pow2_unfold(n);
    }
}

/// A float is whole where its value is: for one with exponent `e`, significand
/// `f` and a sign, `f * 2^(e - 1075)`. Only what is below 10^15 counts.
pub proof fn law_whole_floats(bits: u64, n: int)
    requires
        n != 0,
        (bits as int / 0x10_0000_0000_0000) % 0x800 > 0,
    ensures
        workbook_table::whole_number(bits) == Some(n) <==> ({
            let e = ((bits as int / 0x10_0000_0000_0000) % 0x800) as nat;
            let f = 0x10_0000_0000_0000 + bits as int % 0x10_0000_0000_0000;
            let size = if n < 0 {
                -n
            } else {
                n
            };
            &&& size < 1_000_000_000_000_000
            &&& f * pow2(e) == size * pow2(1075)
            &&& n < 0 <==> bits >= 0x8000_0000_0000_0000
        }),
{
    let e = ((bits as int / 0x10_0000_0000_0000) % 0x800) as nat;
    let f = 0x10_0000_0000_0000 + bits as int % 0x10_0000_0000_0000;
    let size = if n < 0 {
        -n
    } else {
        n
    };
    lemma_power(e);
    lemma_power(1075);
    if 1023 <= e <= 1074 {
        let d = (1075 - e) as nat;
        lemma_power(d);
        vstd::arithmetic::power2::lemma_pow2_adds(d, e);
        let (p, q) = (pow2(d) as int, pow2(e) as int);
        assert(pow2(1075) == p * q);
        if f == size * p {
            assert(f * q == size * (p * q)) by (nonlinear_arith)
                requires
                    f == size * p,
            ;
            assert(f % p == 0 && f / p == size) by (nonlinear_arith)
                requires
                    f == size * p,
                    p > 0,
            ;
        }
        if f * q == size * (p * q) {
            assert(f == size * p) by (nonlinear_arith)
                requires
                    f * q == size * (p * q),
                    q > 0,
            ;
        }
        if f % p == 0 && f / p == size {
            assert(f == size * p) by (nonlinear_arith)
                requires
                    f % p == 0,
                    f / p == size,
                    p > 0,
            ;
        }
        if workbook_table::whole_number(bits) == Some(n) {
            assert(f / p >= 0) by (nonlinear_arith)
                requires
                    f >= 0,
                    p > 0,
            ;
        }
    } else if e > 1074 {
        let d = (e - 1075) as nat;
        lemma_power(d);
        vstd::arithmetic::power2::lemma_pow2_adds(1075, d);
        let (p, q) = (pow2(d) as int, pow2(1075) as int);
        if size < 1_000_000_000_000_000 {
            assert(f * (q * p) > size * q) by (nonlinear_arith)
                requires
                    f >= 0x10_0000_0000_0000,
                    size < 1_000_000_000_000_000,
                    size > 0,
                    p >= 1,
                    q >= 1,
            ;
        }
    } else {
        let d = (1022 - e) as nat;
        lemma_power(d);
        lemma_power(53);
        lemma_power(1022);
        vstd::arithmetic::power2::lemma_pow2_adds(d, e);
        vstd::arithmetic::power2::lemma_pow2_adds(53, 1022);
        vstd::arithmetic::power2::lemma2_to64_rest();
        let (p, q) = (pow2(d) as int, pow2(e) as int);
        assert(pow2(1075) == 0x20_0000_0000_0000 * pow2(1022));
        assert(pow2(1022) == p * q);
        assert(f * q < size * (0x20_0000_0000_0000 * (p * q))) by (nonlinear_arith)
            requires
                0 < f < 0x20_0000_0000_0000,
                size >= 1,
                p >= 1,
                q >= 1,
        ;
    }
}

/// Zero is whole, with either sign, and no other float is taken for it.
pub proof fn law_zero_floats(bits: u64)
    ensures
        workbook_table::whole_number(bits) == Some(0int) <==> bits == 0 || bits
            == 0x8000_0000_0000_0000,
{
    let e = (bits as int / 0x10_0000_0000_0000) % 0x800;
    let f = 0x10_0000_0000_0000 + bits as int % 0x10_0000_0000_0000;
    if 1023 <= e <= 1074 {
        let d = (1075 - e) as nat;
        lemma_power(d);
        let p = pow2(d) as int;
        if f % p == 0 && f / p == 0 {
            assert(f == 0) by (nonlinear_arith)
                requires
                    f % p == 0,
                    f / p == 0,
                    p > 0,
            ;
        }
    }
}

// ---------------------------------------------------------------------------
// Sheets
// ---------------------------------------------------------------------------

/// What the cell at a place says.
pub open spec fn said_at(grid: Seq<Seq<CellView>>, i: int, j: int) -> Seq<char> {
    workbook_table::cell_text(grid[i][j])
}

/// Whether the cell at a place says something.
pub open spec fn is_filled(grid: Seq<Seq<CellView>>, i: int, j: int) -> bool {
    0 <= i < grid.len() && 0 <= j < grid[i].len() && !text::blank(said_at(grid, i, j))
}

/// Whether nothing is filled above a row, nor left of a column, but something in
/// that row and something in that column.
pub open spec fn is_corner(grid: Seq<Seq<CellView>>, r: int, c: int) -> bool {
    &&& forall|i: int, j: int| #[trigger] is_filled(grid, i, j) ==> r <= i && c <= j
    &&& exists|j: int| #[trigger] is_filled(grid, r, j)
    &&& exists|i: int| #[trigger] is_filled(grid, i, c)
}

proof fn lemma_trim_rows(rows: Seq<Seq<Seq<char>>>) -> (n: int)
    ensures
        0 <= n <= rows.len(),
        workbook_table::trim_rows(rows) == rows.take(n),
        forall|i: int| n <= i < rows.len() ==> table::blank_row(#[trigger] rows[i]),
    decreases rows.len(),
{
    if rows.len() > 0 && table::blank_row(rows.last()) {
        let n = lemma_trim_rows(rows.drop_last());
        assert(rows.drop_last().take(n) =~= rows.take(n));
        assert forall|i: int| n <= i < rows.len() implies table::blank_row(#[trigger] rows[i]) by {
            if i < rows.len() - 1 {
                assert(rows.drop_last()[i] == rows[i]);
            }
        }
        n
    } else {
        assert(rows.take(rows.len() as int) =~= rows);
        rows.len() as int
    }
}

proof fn lemma_trim_front(rows: Seq<Seq<Seq<char>>>) -> (r: int)
    ensures
        0 <= r <= rows.len(),
        workbook_table::trim_front(rows) == rows.skip(r),
        forall|i: int| 0 <= i < r ==> table::blank_row(#[trigger] rows[i]),
        r < rows.len() ==> !table::blank_row(rows[r]),
    decreases rows.len(),
{
    if rows.len() > 0 && table::blank_row(rows[0]) {
        let r = lemma_trim_front(rows.skip(1));
        assert(rows.skip(1).skip(r) =~= rows.skip(r + 1));
        assert forall|i: int| 0 <= i < r + 1 implies table::blank_row(#[trigger] rows[i]) by {
            if i > 0 {
                assert(rows.skip(1)[i - 1] == rows[i]);
            }
        }
        if r + 1 < rows.len() {
            assert(rows.skip(1)[r] == rows[r + 1]);
        }
        r + 1
    } else {
        assert(rows.skip(0) =~= rows);
        0
    }
}

proof fn lemma_first_column(rows: Seq<Seq<Seq<char>>>, c: nat)
    ensures
        workbook_table::first_column(rows, c) >= c,
        forall|k: int|
            c <= k < workbook_table::first_column(rows, c) ==> #[trigger]
                workbook_table::blank_column(rows, k),
        workbook_table::first_column(rows, c) < table::widest(rows)
            ==> !workbook_table::blank_column(
            rows,
            workbook_table::first_column(rows, c) as int,
        ),
    decreases table::widest(rows) - c,
{
    if c < table::widest(rows) && workbook_table::blank_column(rows, c as int) {
        lemma_first_column(rows, c + 1);
    }
}

proof fn lemma_widest(rows: Seq<Seq<Seq<char>>>, i: int)
    requires
        0 <= i < rows.len(),
    ensures
        rows[i].len() <= table::widest(rows),
    decreases rows.len(),
{
    if i < rows.len() - 1 {
        assert(rows.drop_last()[i] == rows[i]);
        lemma_widest(rows.drop_last(), i);
    }
}

/// A sheet gives a table exactly where a cell of it says something.
pub proof fn law_blank_sheets(grid: Seq<Seq<CellView>>)
    ensures
        workbook_table::sheet_table(grid) is Some <==> exists|i: int, j: int| #[trigger]
            is_filled(grid, i, j),
{
    let rows = workbook_table::grid_texts(grid);
    if !workbook_table::all_blank(rows) {
        let i = choose|i: int| 0 <= i < rows.len() && !table::blank_row(#[trigger] rows[i]);
        let j = choose|j: int| 0 <= j < rows[i].len() && !text::blank(#[trigger] rows[i][j]);
        assert(rows[i][j] == said_at(grid, i, j));
        assert(is_filled(grid, i, j));
    }
    if exists|i: int, j: int| #[trigger] is_filled(grid, i, j) {
        let (i, j) = choose|i: int, j: int| #[trigger] is_filled(grid, i, j);
        assert(rows[i][j] == said_at(grid, i, j));
        assert(!table::blank_row(rows[i]));
    }
}

/// Whether the cells of a sheet below its first filled row stand in a table, each
/// as many rows and columns from the corner as in the sheet.
pub open spec fn stands_in(grid: Seq<Seq<CellView>>, r: int, c: int, t: TableView) -> bool {
    &&& forall|i: int, j: int| #[trigger]
        is_filled(grid, i, j) && i > r ==> i - r - 1 < t.rows.len() && j - c < t.rows[i - r
            - 1].len() && t.rows[i - r - 1][j - c] == said_at(grid, i, j)
    &&& forall|j: int| #[trigger]
        is_filled(grid, r, j) && (forall|k: int| 0 <= k < j ==> said_at(grid, r, k) != said_at(
            grid,
            r,
            j,
        )) ==> j - c < t.headers.len() && t.headers[j - c] == said_at(grid, r, j)
}

/// No cell that says something is lost, and none changes its place among the
/// others: blank rows and columns at the edges are left out, the first row gives
/// the headers and every other one a row of the table.
pub proof fn law_sheets_keep_their_cells(grid: Seq<Seq<CellView>>, a: int, b: int)
    requires
        is_filled(grid, a, b),
    ensures
        exists|r: int, c: int| #[trigger]
            is_corner(grid, r, c) && stands_in(
                grid,
                r,
                c,
                workbook_table::sheet_table(grid)->Some_0,
            ),
{
    law_blank_sheets(grid);
    let rows = workbook_table::grid_texts(grid);
    let n = lemma_trim_rows(rows);
    let upper = rows.take(n);
    let r = lemma_trim_front(upper);
    let core = upper.skip(r);
    assert forall|i: int, j: int| #[trigger] is_filled(grid, i, j) implies r <= i < n && rows[i][j]
        == said_at(grid, i, j) && core[i - r] == rows[i] by {
        assert(rows[i][j] == said_at(grid, i, j));
        assert(!table::blank_row(rows[i]));
        if i < n {
            assert(upper[i] == rows[i]);
        }
    }
    assert(r <= a < n);
    let c = workbook_table::first_column(core, 0) as int;
    lemma_first_column(core, 0);
    assert forall|i: int, j: int| #[trigger] is_filled(grid, i, j) implies c <= j by {
        lemma_widest(core, i - r);
        if j < c {
            assert(workbook_table::blank_column(core, j));
            assert(core[i - r] == rows[i]);
            assert(text::blank(core[i - r][j]));
        }
    }
    assert(is_filled(grid, a, b));
    lemma_widest(core, a - r);
    assert(c <= b < core[a - r].len());
    assert(is_corner(grid, r, c)) by {
        assert(upper[r] == rows[r]);
        assert(!table::blank_row(rows[r]));
        let j = choose|j: int| 0 <= j < rows[r].len() && !text::blank(#[trigger] rows[r][j]);
        assert(rows[r][j] == said_at(grid, r, j));
        assert(is_filled(grid, r, j));
        assert(!workbook_table::blank_column(core, c));
        let k = choose|k: int|
            0 <= k < core.len() && c < (#[trigger] core[k]).len() && !text::blank(core[k][c]);
        assert(core[k] == rows[k + r]);
        assert(rows[k + r][c] == said_at(grid, k + r, c));
        assert(is_filled(grid, k + r, c));
    }
    let cut = workbook_table::trim_columns(core);
    let t = workbook_table::sheet_table(grid)->Some_0;
    assert(t == table::shaped(cut));
    assert forall|i: int, j: int| #[trigger] is_filled(grid, i, j) && i > r implies i - r - 1
        < t.rows.len() && j - c < t.rows[i - r - 1].len() && t.rows[i - r - 1][j - c] == said_at(
        grid,
        i,
        j,
    ) by {
        assert(cut[i - r] == workbook_table::without_first(core[i - r], c as nat));
        assert(c <= j);
        assert(cut[i - r][j - c] == core[i - r][j]);
        table::law_shaping_keeps_fields(cut, i - r, j - c);
    }
    assert forall|j: int| #[trigger]
        is_filled(grid, r, j) && (forall|k: int| 0 <= k < j ==> said_at(grid, r, k) != said_at(
            grid,
            r,
            j,
        )) implies j - c < t.headers.len() && t.headers[j - c] == said_at(grid, r, j) by {
        assert(c <= j);
        assert(core[0] == rows[r]);
        assert(cut[0] == workbook_table::without_first(core[0], c as nat));
        assert(cut[0][j - c] == rows[r][j]);
        lemma_widest(cut, 0);
        let first = table::fitted(cut[0], table::widest(cut));
        assert(first[j - c] == said_at(grid, r, j));
        assert forall|k: int| 0 <= k < j - c implies #[trigger] first[k] != said_at(grid, r, j) by {
            assert(cut[0][k] == rows[r][k + c]);
            assert(rows[r][k + c] == said_at(grid, r, k + c));
        }
        table::law_new_header_stays(first, j - c);
        table::law_headers_differ(first);
    }
}

/// A workbook gives its first sheet that says something; the sheets before it
/// are passed over where they are blank, and one that cannot be read is an
/// error.
pub proof fn law_first_filled_sheet(
    label: Seq<char>,
    sheets: Seq<SheetView>,
    k: int,
)
    requires
        0 <= k < sheets.len(),
        forall|j: int|
            0 <= j < k ==> ((#[trigger] sheets[j]).rows matches Ok(g)
                && workbook_table::sheet_table(g) is None),
    ensures
        sheets[k].rows matches Ok(g) && workbook_table::sheet_table(g) is Some
            ==> workbook_table::book_table(label, Ok(sheets)) == Ok::<_, Failure>(
            workbook_table::sheet_table(sheets[k].rows->Ok_0)->Some_0,
        ),
        sheets[k].rows is Err ==> (workbook_table::book_table(label, Ok(sheets)) matches Err(f)
            && f is MalformedData),
{
    lemma_passed_over(label, sheets, 0, k);
}

proof fn lemma_passed_over(label: Seq<char>, sheets: Seq<SheetView>, from: nat, k: int)
    requires
        from <= k <= sheets.len(),
        forall|j: int|
            0 <= j < k ==> ((#[trigger] sheets[j]).rows matches Ok(g)
                && workbook_table::sheet_table(g) is None),
    ensures
        workbook_table::first_table(label, sheets, from) == workbook_table::first_table(
            label,
            sheets,
            k as nat,
        ),
    decreases k - from,
{
    if from < k {
        assert(sheets[from as int].rows is Ok);
        lemma_passed_over(label, sheets, from + 1, k);
    }
}

/// A workbook whose sheets are all blank gives an empty table, and one without
/// sheets, or that cannot be opened, an error.
pub proof fn law_books_without_cells(label: Seq<char>, sheets: Seq<SheetView>, why: Seq<char>)
    requires
        forall|j: int|
            0 <= j < sheets.len() ==> ((#[trigger] sheets[j]).rows matches Ok(g)
                && workbook_table::sheet_table(g) is None),
    ensures
        sheets.len() > 0 ==> (workbook_table::book_table(label, Ok(sheets)) matches Ok(t)
            && t.headers.len() == 0 && t.rows.len() == 0),
        sheets.len() == 0 ==> (workbook_table::book_table(label, Ok(sheets)) matches Err(f)
            && f is MalformedData && f->MalformedData_path == label),
        workbook_table::book_table(label, Err(why)) matches Err(f) && f is MalformedData
            && f->MalformedData_path == label,
{
    lemma_passed_over(label, sheets, 0, sheets.len() as int);
}

} // verus!
