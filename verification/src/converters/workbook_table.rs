//! Spreadsheets as tables: the first sheet that holds anything.
use vstd::prelude::*;

use crate::converters::table;
use crate::converters::table::Table;
use crate::converters::table::TableView;
use crate::converters::tabular;
use crate::converters::ConversionError;
use crate::converters::Failure;
use crate::number;
use crate::paths;
use crate::text;

verus! {

// ---------------------------------------------------------------------------
// Cells
// ---------------------------------------------------------------------------

/// One cell of a sheet.
#[derive(Debug)]
pub enum Cell {
    Empty,
    Text(String),
    /// A floating point number: its IEEE 754 bits, and how it is printed.
    Float(u64, String),
    Int(i64),
    Bool(bool),
    DateTime(String),
    DateTimeIso(String),
    DurationIso(String),
    /// An error value, by name.
    Error(String),
}

/// What a [`Cell`] holds.
#[verifier::ext_equal]
pub enum CellView {
    Empty,
    Text(Seq<char>),
    Float(u64, Seq<char>),
    Int(i64),
    Bool(bool),
    DateTime(Seq<char>),
    DateTimeIso(Seq<char>),
    DurationIso(Seq<char>),
    Error(Seq<char>),
}

impl DeepView for Cell {
    type V = CellView;

    open spec fn deep_view(&self) -> CellView {
        match self {
            Cell::Empty => CellView::Empty,
            Cell::Text(s) => CellView::Text(s@),
            Cell::Float(bits, s) => CellView::Float(*bits, s@),
            Cell::Int(i) => CellView::Int(*i),
            Cell::Bool(b) => CellView::Bool(*b),
            Cell::DateTime(s) => CellView::DateTime(s@),
            Cell::DateTimeIso(s) => CellView::DateTimeIso(s@),
            Cell::DurationIso(s) => CellView::DurationIso(s@),
            Cell::Error(s) => CellView::Error(s@),
        }
    }
}

/// A power of two.
pub open spec fn power_of_two(n: nat) -> nat
    decreases n,
{
    if n == 0 {
        1
    } else {
        2 * power_of_two((n - 1) as nat)
    }
}

/// The exponent field of a double.
pub open spec fn exponent_of(bits: u64) -> int {
    (bits as int / 0x10_0000_0000_0000) % 0x800
}

/// The fraction field of a double.
pub open spec fn fraction_of(bits: u64) -> int {
    bits as int % 0x10_0000_0000_0000
}

/// The integer that a double is, if it is one below `10^15` in size.
///
/// With exponent field `e` and fraction field `m` the size of a double is
/// `(2^52 + m) / 2^(1075 - e)`: below 1 and no integer for `0 < e < 1023`, and
/// above the bound for `e > 1074`.
pub open spec fn whole_number(bits: u64) -> Option<int> {
    let e = exponent_of(bits);
    let m = fraction_of(bits);
    if e == 0 && m == 0 {
        Some(0)
    } else if 1023 <= e <= 1074 {
        let unit = power_of_two((1075 - e) as nat) as int;
        let size = (0x10_0000_0000_0000 + m) / unit;
        if (0x10_0000_0000_0000 + m) % unit == 0 && size < 1_000_000_000_000_000 {
            Some(
                if bits >= 0x8000_0000_0000_0000 {
                    -size
                } else {
                    size
                },
            )
        } else {
            None
        }
    } else {
        None
    }
}

/// A cell as text: whole numbers without a fraction, booleans in capitals.
pub open spec fn cell_text(c: CellView) -> Seq<char> {
    match c {
        CellView::Empty => Seq::empty(),
        CellView::Text(s) => s,
        CellView::Float(bits, s) => match whole_number(bits) {
            Some(n) => number::signed_decimal(n),
            None => s,
        },
        CellView::Int(i) => number::signed_decimal(i as int),
        CellView::Bool(b) => if b {
            "TRUE"@
        } else {
            "FALSE"@
        },
        CellView::DateTime(s) => s,
        CellView::DateTimeIso(s) => s,
        CellView::DurationIso(s) => s,
        CellView::Error(s) => "#ERR:"@ + s,
    }
}

fn two_to(n: u64) -> (r: u64)
    requires
        n <= 52,
    ensures
        r == power_of_two(n as nat),
        1 <= r <= 0x10_0000_0000_0000,
{
    let mut r: u64 = 1;
    let mut i: u64 = 0;
    let ghost mut left: nat = 52;
    proof {
        lemma_power_52();
    }
    while i < n
        invariant
            i <= n <= 52,
            left == 52 - i,
            r == power_of_two(i as nat),
            r >= 1,
            r * power_of_two(left) == 0x10_0000_0000_0000,
            power_of_two(left) >= 1,
        decreases n - i,
    {
        proof {
            let half = power_of_two((left - 1) as nat);
            assert(power_of_two(left) == 2 * half);
            assert(half >= 1) by (nonlinear_arith)
                requires
                    r * (2 * half) == 0x10_0000_0000_0000,
                    half >= 0,
            ;
            assert((2 * r) * half == r * (2 * half)) by (nonlinear_arith);
            assert(2 * r <= 0x10_0000_0000_0000) by (nonlinear_arith)
                requires
                    (2 * r) * half == 0x10_0000_0000_0000,
                    half >= 1,
            ;
            left = (left - 1) as nat;
        }
        r = 2 * r;
        i = i + 1;
    }
    proof {
        assert(r <= 0x10_0000_0000_0000) by (nonlinear_arith)
            requires
                r * power_of_two(left) == 0x10_0000_0000_0000,
                power_of_two(left) >= 1,
                r >= 1,
        ;
    }
    r
}

proof fn lemma_power_52()
    ensures
        power_of_two(52) == 0x10_0000_0000_0000,
{
    reveal_with_fuel(power_of_two, 53);
}

/// The integer that a double is, if it is one of moderate size.
pub fn whole_number_of(bits: u64) -> (r: Option<i64>)
    ensures
        match r {
            Some(n) => whole_number(bits) == Some(n as int),
            None => whole_number(bits) is None,
        },
{
    let e = (bits / 0x10_0000_0000_0000) % 0x800;
    let m = bits % 0x10_0000_0000_0000;
    if e == 0 && m == 0 {
        return Some(0);
    }
    if e < 1023 || e > 1074 {
        return None;
    }
    let unit = two_to(1075 - e);
    let full = 0x10_0000_0000_0000 + m;
    let size = full / unit;
    if full % unit == 0 && size < 1_000_000_000_000_000 {
        if bits >= 0x8000_0000_0000_0000 {
            Some(-(size as i64))
        } else {
            Some(size as i64)
        }
    } else {
        None
    }
}

/// Render a cell as plain text.
///
/// Numbers that are integral print without a trailing `.0`; other floats as
/// they are printed; booleans become `TRUE` and `FALSE`.
pub fn cell_to_string(cell: &Cell) -> (r: String)
    ensures
        r@ == cell_text(cell.deep_view()),
{
    match cell {
        Cell::Empty => String::new(),
        Cell::Text(s) => s.clone(),
        Cell::Float(bits, s) => match whole_number_of(*bits) {
            Some(n) => number::signed_decimal_of(n),
            None => s.clone(),
        },
        Cell::Int(i) => number::signed_decimal_of(*i),
        Cell::Bool(b) => if *b {
            "TRUE".to_owned()
        } else {
            "FALSE".to_owned()
        },
        Cell::DateTime(s) => s.clone(),
        Cell::DateTimeIso(s) => s.clone(),
        Cell::DurationIso(s) => s.clone(),
        Cell::Error(s) => text::cat("#ERR:", s.as_str()),
    }
}

// ---------------------------------------------------------------------------
// Sheets
// ---------------------------------------------------------------------------

/// The rows of a sheet as texts.
pub open spec fn grid_texts(grid: Seq<Seq<CellView>>) -> Seq<Seq<Seq<char>>> {
    grid.map_values(|row: Seq<CellView>| row.map_values(|c: CellView| cell_text(c)))
}

/// Whether all rows are blank.
pub open spec fn all_blank(rows: Seq<Seq<Seq<char>>>) -> bool {
    forall|i: int| 0 <= i < rows.len() ==> table::blank_row(#[trigger] rows[i])
}

/// Rows without the blank ones at the end.
pub open spec fn trim_rows(rows: Seq<Seq<Seq<char>>>) -> Seq<Seq<Seq<char>>>
    decreases rows.len(),
{
    if rows.len() > 0 && table::blank_row(rows.last()) {
        trim_rows(rows.drop_last())
    } else {
        rows
    }
}

/// Rows without the blank ones at the start.
pub open spec fn trim_front(rows: Seq<Seq<Seq<char>>>) -> Seq<Seq<Seq<char>>>
    decreases rows.len(),
{
    if rows.len() > 0 && table::blank_row(rows[0]) {
        trim_front(rows.skip(1))
    } else {
        rows
    }
}

/// Whether no row has anything in a column.
pub open spec fn blank_column(rows: Seq<Seq<Seq<char>>>, c: int) -> bool {
    forall|i: int|
        0 <= i < rows.len() && c < (#[trigger] rows[i]).len() ==> text::blank(rows[i][c])
}

/// The first column, from one on, that has anything in it.
pub open spec fn first_column(rows: Seq<Seq<Seq<char>>>, c: nat) -> nat
    decreases table::widest(rows) - c,
{
    if c < table::widest(rows) && blank_column(rows, c as int) {
        first_column(rows, c + 1)
    } else {
        c
    }
}

/// A row without its first fields.
pub open spec fn without_first(row: Seq<Seq<char>>, n: nat) -> Seq<Seq<char>> {
    if n < row.len() {
        row.skip(n as int)
    } else {
        Seq::empty()
    }
}

/// Rows without the blank columns at the start.
pub open spec fn trim_columns(rows: Seq<Seq<Seq<char>>>) -> Seq<Seq<Seq<char>>> {
    let n = first_column(rows, 0);
    rows.map_values(|row: Seq<Seq<char>>| without_first(row, n))
}

/// The table of a sheet, if it holds anything.
pub open spec fn sheet_table(grid: Seq<Seq<CellView>>) -> Option<TableView> {
    let rows = grid_texts(grid);
    if all_blank(rows) {
        None
    } else {
        Some(table::shaped(trim_columns(trim_front(trim_rows(rows)))))
    }
}

/// An error in a workbook.
pub open spec fn bad_book(label: Seq<char>, reason: Seq<char>) -> Failure {
    Failure::MalformedData { path: label, format: "spreadsheet"@, reason }
}

/// A sheet of a workbook: its name, and its rows or why they cannot be read.
#[derive(Debug)]
pub struct SheetCells {
    pub name: String,
    pub rows: Result<Vec<Vec<Cell>>, String>,
}

/// What a [`SheetCells`] holds.
#[verifier::ext_equal]
pub struct SheetView {
    pub name: Seq<char>,
    pub rows: Result<Seq<Seq<CellView>>, Seq<char>>,
}

impl DeepView for SheetCells {
    type V = SheetView;

    open spec fn deep_view(&self) -> SheetView {
        SheetView {
            name: self.name@,
            rows: match self.rows {
                Ok(rows) => Ok(rows.deep_view()),
                Err(why) => Err(why@),
            },
        }
    }
}

/// The sheets of a workbook, or why it cannot be opened.
pub type Book = Result<Seq<SheetView>, Seq<char>>;

/// What opening a workbook came to.
pub open spec fn book_view(r: Result<Vec<SheetCells>, String>) -> Book {
    match r {
        Ok(sheets) => Ok(sheets.deep_view()),
        Err(why) => Err(why@),
    }
}

/// The table of the first sheet, from the `k`-th on, that holds anything; the
/// first sheet that cannot be read before it is an error.
pub open spec fn first_table(label: Seq<char>, sheets: Seq<SheetView>, k: nat) -> Result<
    TableView,
    Failure,
>
    decreases sheets.len() - k,
{
    if k >= sheets.len() {
        Ok(table::empty_table())
    } else {
        let sheet = sheets[k as int];
        match sheet.rows {
            Err(why) => Err(
                bad_book(label, "cannot read sheet '"@ + sheet.name + "': "@ + why),
            ),
            Ok(grid) => match sheet_table(grid) {
                Some(t) => Ok(t),
                None => first_table(label, sheets, k + 1),
            },
        }
    }
}

/// The table of a workbook.
pub open spec fn book_table(label: Seq<char>, book: Book) -> Result<TableView, Failure> {
    match book {
        Err(why) => Err(bad_book(label, "cannot parse workbook: "@ + why)),
        Ok(sheets) => if sheets.len() == 0 {
            Err(bad_book(label, "workbook contains no sheets"@))
        } else {
            first_table(label, sheets, 0)
        },
    }
}

/// The format that a workbook is read as.
#[derive(Debug, Clone, Copy, PartialEq, Eq, Structural)]
pub enum BookFormat {
    Xls,
    Xlsx,
    Xlsb,
    Ods,
    /// The first of these that the bytes can be read as.
    Detect,
}

/// The format that a file is read as: by its extension as it is written, by
/// its content where that is none of these.
pub open spec fn format_of(input: Seq<char>) -> BookFormat {
    match paths::extension(input) {
        Some(e) => if e == "xls"@ || e == "xla"@ {
            BookFormat::Xls
        } else if e == "xlsx"@ || e == "xlsm"@ || e == "xlam"@ {
            BookFormat::Xlsx
        } else if e == "xlsb"@ {
            BookFormat::Xlsb
        } else if e == "ods"@ {
            BookFormat::Ods
        } else {
            BookFormat::Detect
        },
        None => BookFormat::Detect,
    }
}

/// The format that a file is read as.
pub fn book_format(input: &str) -> (r: BookFormat)
    ensures
        r == format_of(input@),
{
    match paths::extension_of(input) {
        Some(ext) => {
            let e = ext.as_str();
            if text::same(e, "xls") || text::same(e, "xla") {
                BookFormat::Xls
            } else if text::same(e, "xlsx") || text::same(e, "xlsm") || text::same(e, "xlam") {
                BookFormat::Xlsx
            } else if text::same(e, "xlsb") {
                BookFormat::Xlsb
            } else if text::same(e, "ods") {
                BookFormat::Ods
            } else {
                BookFormat::Detect
            }
        },
        None => BookFormat::Detect,
    }
}

fn texts_of(grid: &Vec<Vec<Cell>>) -> (r: Vec<Vec<String>>)
    ensures
        r.deep_view() == grid_texts(grid.deep_view()),
{
    let ghost all = grid_texts(grid.deep_view());
    let mut out: Vec<Vec<String>> = Vec::new();
    for i in 0..grid.len()
        invariant
            all == grid_texts(grid.deep_view()),
            out@.len() == i,
            forall|j: int| 0 <= j < i ==> (#[trigger] out@[j]).deep_view() == all[j],
    {
        let row = &grid[i];
        assert(grid.deep_view()[i as int] == row.deep_view());
        let mut texts: Vec<String> = Vec::new();
        for c in 0..row.len()
            invariant
                texts@.len() == c,
                forall|j: int|
                    0 <= j < c ==> (#[trigger] texts@[j])@ == cell_text(row.deep_view()[j]),
        {
            assert(row.deep_view()[c as int] == row@[c as int].deep_view());
            texts.push(cell_to_string(&row[c]));
        }
        assert(texts.deep_view() =~= all[i as int]);
        out.push(texts);
    }
    assert(out.deep_view() =~= all);
    out
}

fn are_blank(rows: &Vec<Vec<String>>) -> (r: bool)
    ensures
        r == all_blank(rows.deep_view()),
{
    for i in 0..rows.len()
        invariant
            forall|j: int| 0 <= j < i ==> table::blank_row((#[trigger] rows@[j]).deep_view()),
    {
        if !table::is_blank_row(&rows[i]) {
            assert(!table::blank_row(rows.deep_view()[i as int]));
            return false;
        }
    }
    true
}

/// The table of a sheet, if it holds anything.
pub fn table_of_sheet(grid: &Vec<Vec<Cell>>) -> (r: Option<Table>)
    ensures
        r.deep_view() == sheet_table(grid.deep_view()),
{
    let mut rows = texts_of(grid);
    if are_blank(&rows) {
        return None;
    }
    let ghost all = rows.deep_view();
    while rows.len() > 0 && table::is_blank_row(&rows[rows.len() - 1])
        invariant
            trim_rows(all) == trim_rows(rows.deep_view()),
        decreases rows@.len(),
    {
        let ghost before = rows.deep_view();
        assert(before.last() == rows@[rows@.len() - 1].deep_view());
        rows.pop();
        assert(rows.deep_view() =~= before.drop_last());
    }
    proof {
        if rows@.len() > 0 {
            assert(rows.deep_view().last() == rows@[rows@.len() - 1].deep_view());
        }
        assert(trim_rows(all) == rows.deep_view());
    }
    let ghost ended = rows.deep_view();
    while rows.len() > 0 && table::is_blank_row(&rows[0])
        invariant
            trim_front(ended) == trim_front(rows.deep_view()),
        decreases rows@.len(),
    {
        let ghost before = rows.deep_view();
        assert(before[0] == rows@[0].deep_view());
        rows.remove(0);
        assert(rows.deep_view() =~= before.skip(1));
    }
    proof {
        if rows@.len() > 0 {
            assert(rows.deep_view()[0] == rows@[0].deep_view());
        }
        assert(trim_front(ended) == rows.deep_view());
    }
    Some(table::shape(cut_columns(rows)))
}

fn is_blank_column(rows: &Vec<Vec<String>>, c: usize) -> (r: bool)
    ensures
        r == blank_column(rows.deep_view(), c as int),
{
    let ghost all = rows.deep_view();
    for i in 0..rows.len()
        invariant
            all == rows.deep_view(),
            forall|k: int|
                0 <= k < i && c < (#[trigger] all[k]).len() ==> text::blank(all[k][c as int]),
    {
        assert(all[i as int] == rows@[i as int].deep_view());
        if c < rows[i].len() && !text::is_blank(rows[i][c].as_str()) {
            assert(all[i as int][c as int] == rows@[i as int]@[c as int]@);
            return false;
        }
    }
    true
}

fn cut_columns(rows: Vec<Vec<String>>) -> (r: Vec<Vec<String>>)
    ensures
        r.deep_view() == trim_columns(rows.deep_view()),
{
    let ghost all = rows.deep_view();
    let width = table::widest_of(&rows);
    let mut n: usize = 0;
    while n < width && is_blank_column(&rows, n)
        invariant
            all == rows.deep_view(),
            width == table::widest(all),
            first_column(all, 0) == first_column(all, n as nat),
            n <= width,
        decreases width - n,
    {
        n = n + 1;
    }
    assert(first_column(all, 0) == n);
    let mut out: Vec<Vec<String>> = Vec::new();
    for i in 0..rows.len()
        invariant
            all == rows.deep_view(),
            out@.len() == i,
            forall|k: int|
                0 <= k < i ==> (#[trigger] out@[k]).deep_view() == without_first(
                    all[k],
                    n as nat,
                ),
    {
        let ghost old = all[i as int];
        assert(old == rows@[i as int].deep_view());
        let mut row: Vec<String> = Vec::new();
        let mut c: usize = n;
        while c < rows[i].len()
            invariant
                i < rows@.len(),
                old == rows@[i as int].deep_view(),
                n <= c,
                n < c ==> c <= old.len(),
                row@.len() == c - n,
                forall|k: int| 0 <= k < row@.len() ==> (#[trigger] row@[k])@ == old[k + n],
            decreases rows@[i as int]@.len() - c,
        {
            assert(old[c as int] == rows@[i as int]@[c as int]@);
            row.push(rows[i][c].clone());
            c = c + 1;
        }
        assert(row.deep_view() =~= without_first(old, n as nat));
        out.push(row);
    }
    assert(out.deep_view() =~= trim_columns(all));
    out
}

fn bad_workbook(label: &str, reason: String) -> (r: ConversionError)
    ensures
        r.deep_view() == bad_book(label@, reason@),
{
    ConversionError::MalformedData {
        path: label.to_owned(),
        format: "spreadsheet".to_owned(),
        reason,
    }
}

/// Read the first non-empty sheet of a workbook.
///
/// Empty leading rows/columns are trimmed; ragged rows are normalised to the
/// widest row; the first row becomes the header (deduplicated).
pub fn read_workbook(input: &str, book: Result<Vec<SheetCells>, String>) -> (r: Result<
    Table,
    ConversionError,
>)
    ensures
        tabular::table_result(r) == book_table(input@, book_view(book)),
{
    let sheets = match book {
        Ok(b) => b,
        Err(why) => {
            return Err(bad_workbook(input, text::cat("cannot parse workbook: ", why.as_str())));
        },
    };
    let ghost all = sheets.deep_view();
    if sheets.len() == 0 {
        return Err(bad_workbook(input, "workbook contains no sheets".to_owned()));
    }
    for k in 0..sheets.len()
        invariant
            all == sheets.deep_view(),
            book_table(input@, book_view(book)) == first_table(input@, all, k as nat),
    {
        assert(all[k as int] == sheets@[k as int].deep_view());
        match &sheets[k].rows {
            Err(why) => {
                return Err(
                    bad_workbook(
                        input,
                        text::cat4(
                            "cannot read sheet '",
                            sheets[k].name.as_str(),
                            "': ",
                            why.as_str(),
                        ),
                    ),
                );
            },
            Ok(grid) => {
                if let Some(t) = table_of_sheet(grid) {
                    return Ok(t);
                }
            },
        }
    }
    Ok(table::no_table())
}

} // verus!
