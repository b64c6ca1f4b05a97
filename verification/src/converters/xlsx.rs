//! The layout of a written spreadsheet: which cells are numbers, how wide the
//! columns are, what the sheet is called.
use vstd::prelude::*;

use crate::converters::table::Table;
use crate::converters::table::TableView;
use crate::number;
use crate::paths;
use crate::text;

verus! {

// ---------------------------------------------------------------------------
// Names and widths
// ---------------------------------------------------------------------------

/// How long the name of a sheet may be.
pub const SHEET_NAME_CHARS: usize = 31;

/// A character of a sheet name.
pub open spec fn name_char(c: char) -> char {
    if c == '[' || c == ']' || c == ':' || c == '*' || c == '?' || c == '/' || c == '\\' {
        '_'
    } else {
        c
    }
}

/// A sheet name without what is not allowed there, cut to what is.
pub open spec fn clean_name(name: Seq<char>) -> Seq<char> {
    let cleaned = name.map_values(|c: char| name_char(c));
    let short = if cleaned.len() > SHEET_NAME_CHARS {
        cleaned.take(SHEET_NAME_CHARS as int)
    } else {
        cleaned
    };
    if text::blank(short) {
        "Sheet1"@
    } else {
        short
    }
}

/// A sheet name of at most 31 characters without `[]:*?/\`.
pub fn sanitize_sheet_name(name: &str) -> (r: String)
    ensures
        r@ == clean_name(name@),
{
    let ghost cleaned = name@.map_values(|c: char| name_char(c));
    let cs = text::chars_of(name);
    let n = if cs.len() > SHEET_NAME_CHARS {
        SHEET_NAME_CHARS
    } else {
        cs.len()
    };
    let mut short = String::new();
    for i in 0..n
        invariant
            cs@ == name@,
            n <= cs@.len(),
            cleaned == name@.map_values(|c: char| name_char(c)),
            short@ == cleaned.take(i as int),
    {
        let c = cs[i];
        short.push(
            if c == '[' || c == ']' || c == ':' || c == '*' || c == '?' || c == '/' || c == '\\' {
                '_'
            } else {
                c
            },
        );
        assert(short@ =~= cleaned.take(i + 1));
    }
    assert(cleaned.take(cleaned.len() as int) =~= cleaned);
    if text::is_blank(short.as_str()) {
        "Sheet1".to_owned()
    } else {
        short
    }
}

/// The name of a sheet: the stem of the input file, cleaned.
pub open spec fn sheet_name(input: Seq<char>) -> Seq<char> {
    match paths::file_stem(input) {
        Some(stem) => clean_name(stem),
        None => "Sheet1"@,
    }
}

/// Sheet name from the input file stem, sanitised for Excel rules.
pub fn sheet_name_for(input: &str) -> (r: String)
    ensures
        r@ == sheet_name(input@),
{
    match paths::file_stem_of(input) {
        Some(stem) => sanitize_sheet_name(stem.as_str()),
        None => "Sheet1".to_owned(),
    }
}

/// The name of a sheet that is written is allowed, whatever the file is called.
pub proof fn law_sheet_is_named_by_rules(input: Seq<char>)
    ensures
        0 < sheet_name(input).len() <= SHEET_NAME_CHARS,
        !text::blank(sheet_name(input)),
        forall|i: int| 0 <= i < sheet_name(input).len() ==> name_char(#[trigger] sheet_name(input)[i])
            == sheet_name(input)[i],
{
    reveal_strlit("Sheet1");
    assert(!text::is_space("Sheet1"@[0]));
    if let Some(stem) = paths::file_stem(input) {
        law_sheet_name_allowed(stem);
    }
}

/// A name of a sheet is allowed: short, not blank, without special characters.
pub proof fn law_sheet_name_allowed(name: Seq<char>)
    ensures
        0 < clean_name(name).len() <= SHEET_NAME_CHARS,
        !text::blank(clean_name(name)),
        forall|i: int| 0 <= i < clean_name(name).len() ==> name_char(#[trigger] clean_name(name)[i])
            == clean_name(name)[i],
{
    reveal_strlit("Sheet1");
    assert(!text::is_space("Sheet1"@[0]));
}

/// Whether a character is a Chinese, Japanese or Korean one, or as wide.
pub open spec fn is_cjk(c: char) -> bool {
    let u = c as u32;
    ||| 0x1100 <= u <= 0x115F
    ||| 0x2E80 <= u <= 0xA4CF
    ||| 0xAC00 <= u <= 0xD7A3
    ||| 0xF900 <= u <= 0xFAFF
    ||| 0xFE30 <= u <= 0xFE4F
    ||| 0xFF00 <= u <= 0xFF60
    ||| 0xFFE0 <= u <= 0xFFE6
    ||| 0x20000 <= u <= 0x3FFFD
}

/// Whether a code point is an emoji among the marks, arrows, technical signs and
/// geometric shapes.
pub open spec fn is_sign(u: u32) -> bool {
    ||| u == 0x203C
    ||| u == 0x2049
    ||| u == 0x2122
    ||| u == 0x2139
    ||| 0x2194 <= u <= 0x2199
    ||| 0x21A9 <= u <= 0x21AA
    ||| 0x231A <= u <= 0x231B
    ||| u == 0x2328
    ||| u == 0x23CF
    ||| 0x23E9 <= u <= 0x23F3
    ||| 0x23F8 <= u <= 0x23FA
    ||| u == 0x24C2
    ||| 0x25AA <= u <= 0x25AB
    ||| u == 0x25B6
    ||| u == 0x25C0
    ||| 0x25FB <= u <= 0x25FE
    ||| 0x2934 <= u <= 0x2935
    ||| 0x2B05 <= u <= 0x2B07
    ||| 0x2B1B <= u <= 0x2B1C
    ||| u == 0x2B50
    ||| u == 0x2B55
}

/// Whether a code point is an emoji among the miscellaneous symbols.
pub open spec fn is_symbol(u: u32) -> bool {
    ||| 0x2600 <= u <= 0x2604
    ||| u == 0x260E
    ||| u == 0x2611
    ||| 0x2614 <= u <= 0x2615
    ||| u == 0x2618
    ||| u == 0x261D
    ||| u == 0x2620
    ||| 0x2622 <= u <= 0x2623
    ||| u == 0x2626
    ||| u == 0x262A
    ||| 0x262E <= u <= 0x262F
    ||| 0x2638 <= u <= 0x263A
    ||| u == 0x2640
    ||| u == 0x2642
    ||| 0x2648 <= u <= 0x2653
    ||| 0x265F <= u <= 0x2660
    ||| u == 0x2663
    ||| 0x2665 <= u <= 0x2666
    ||| u == 0x2668
    ||| u == 0x267B
    ||| 0x267E <= u <= 0x267F
    ||| 0x2692 <= u <= 0x2697
    ||| u == 0x2699
    ||| 0x269B <= u <= 0x269C
    ||| 0x26A0 <= u <= 0x26A1
    ||| u == 0x26A7
    ||| 0x26AA <= u <= 0x26AB
    ||| 0x26B0 <= u <= 0x26B1
    ||| 0x26BD <= u <= 0x26BE
    ||| 0x26C4 <= u <= 0x26C5
    ||| u == 0x26C8
    ||| 0x26CE <= u <= 0x26CF
    ||| u == 0x26D1
    ||| 0x26D3 <= u <= 0x26D4
    ||| 0x26E9 <= u <= 0x26EA
    ||| 0x26F0 <= u <= 0x26F5
    ||| 0x26F7 <= u <= 0x26FA
    ||| u == 0x26FD
}

/// Whether a code point is an emoji among the dingbats.
pub open spec fn is_dingbat(u: u32) -> bool {
    ||| u == 0x2702
    ||| u == 0x2705
    ||| 0x2708 <= u <= 0x270D
    ||| u == 0x270F
    ||| u == 0x2712
    ||| u == 0x2714
    ||| u == 0x2716
    ||| u == 0x271D
    ||| u == 0x2721
    ||| u == 0x2728
    ||| 0x2733 <= u <= 0x2734
    ||| u == 0x2744
    ||| u == 0x2747
    ||| u == 0x274C
    ||| u == 0x274E
    ||| 0x2753 <= u <= 0x2755
    ||| u == 0x2757
    ||| 0x2763 <= u <= 0x2764
    ||| 0x2795 <= u <= 0x2797
    ||| u == 0x27A1
    ||| u == 0x27B0
    ||| u == 0x27BF
}

/// Whether a code point is an emoji among the pictographs.
pub open spec fn is_pictograph(u: u32) -> bool {
    ||| u == 0x1F004
    ||| u == 0x1F0CF
    ||| 0x1F170 <= u <= 0x1F171
    ||| 0x1F17E <= u <= 0x1F17F
    ||| u == 0x1F18E
    ||| 0x1F191 <= u <= 0x1F19A
    ||| 0x1F1E6 <= u <= 0x1F1FF
    ||| 0x1F201 <= u <= 0x1F202
    ||| u == 0x1F21A
    ||| u == 0x1F22F
    ||| 0x1F232 <= u <= 0x1F23A
    ||| 0x1F250 <= u <= 0x1F251
    ||| 0x1F300 <= u <= 0x1F321
    ||| 0x1F324 <= u <= 0x1F393
    ||| 0x1F396 <= u <= 0x1F397
    ||| 0x1F399 <= u <= 0x1F39B
    ||| 0x1F39E <= u <= 0x1F3F0
    ||| 0x1F3F3 <= u <= 0x1F3F5
    ||| 0x1F3F7 <= u <= 0x1F4FD
    ||| 0x1F4FF <= u <= 0x1F53D
    ||| 0x1F549 <= u <= 0x1F54E
    ||| 0x1F550 <= u <= 0x1F567
    ||| 0x1F56F <= u <= 0x1F570
    ||| 0x1F573 <= u <= 0x1F57A
    ||| u == 0x1F587
    ||| 0x1F58A <= u <= 0x1F58D
    ||| u == 0x1F590
    ||| 0x1F595 <= u <= 0x1F596
    ||| 0x1F5A4 <= u <= 0x1F5A5
    ||| u == 0x1F5A8
    ||| 0x1F5B1 <= u <= 0x1F5B2
    ||| u == 0x1F5BC
    ||| 0x1F5C2 <= u <= 0x1F5C4
    ||| 0x1F5D1 <= u <= 0x1F5D3
    ||| 0x1F5DC <= u <= 0x1F5DE
    ||| u == 0x1F5E1
    ||| u == 0x1F5E3
    ||| u == 0x1F5E8
    ||| u == 0x1F5EF
    ||| u == 0x1F5F3
    ||| 0x1F5FA <= u <= 0x1F64F
    ||| 0x1F680 <= u <= 0x1F6C5
    ||| 0x1F6CB <= u <= 0x1F6D2
    ||| 0x1F6D5 <= u <= 0x1F6D7
    ||| 0x1F6DC <= u <= 0x1F6E5
    ||| u == 0x1F6E9
    ||| 0x1F6EB <= u <= 0x1F6EC
    ||| u == 0x1F6F0
    ||| 0x1F6F3 <= u <= 0x1F6FC
    ||| 0x1F7E0 <= u <= 0x1F7EB
    ||| u == 0x1F7F0
    ||| 0x1F90C <= u <= 0x1F93A
    ||| 0x1F93C <= u <= 0x1F945
    ||| 0x1F947 <= u <= 0x1F9FF
    ||| 0x1FA70 <= u <= 0x1FA7C
    ||| 0x1FA80 <= u <= 0x1FA89
    ||| 0x1FA8F <= u <= 0x1FAC6
    ||| 0x1FACE <= u <= 0x1FADC
    ||| 0x1FADF <= u <= 0x1FAE9
    ||| 0x1FAF0 <= u <= 0x1FAF8
}

/// Whether a character is an emoji: one that Unicode lists as such, but for the
/// digits and signs of plain text.
pub open spec fn is_emoji(c: char) -> bool {
    let u = c as u32;
    is_sign(u) || is_symbol(u) || is_dingbat(u) || is_pictograph(u)
}

/// Whether a character is twice as wide as others.
pub open spec fn is_wide(c: char) -> bool {
    is_cjk(c) || is_emoji(c)
}

fn sign(u: u32) -> (r: bool)
    ensures
        r == is_sign(u),
{
    match u {
        0x203C | 0x2049 | 0x2122 | 0x2139 | 0x2194..=0x2199 | 0x21A9..=0x21AA
        | 0x231A..=0x231B | 0x2328 | 0x23CF | 0x23E9..=0x23F3 | 0x23F8..=0x23FA | 0x24C2
        | 0x25AA..=0x25AB | 0x25B6 | 0x25C0 | 0x25FB..=0x25FE | 0x2934..=0x2935
        | 0x2B05..=0x2B07 | 0x2B1B..=0x2B1C | 0x2B50 | 0x2B55 => true,
        _ => false,
    }
}

fn symbol(u: u32) -> (r: bool)
    ensures
        r == is_symbol(u),
{
    match u {
        0x2600..=0x2604 | 0x260E | 0x2611 | 0x2614..=0x2615 | 0x2618 | 0x261D | 0x2620
        | 0x2622..=0x2623 | 0x2626 | 0x262A | 0x262E..=0x262F | 0x2638..=0x263A | 0x2640
        | 0x2642 | 0x2648..=0x2653 | 0x265F..=0x2660 | 0x2663 | 0x2665..=0x2666 | 0x2668
        | 0x267B | 0x267E..=0x267F | 0x2692..=0x2697 | 0x2699 | 0x269B..=0x269C
        | 0x26A0..=0x26A1 | 0x26A7 | 0x26AA..=0x26AB | 0x26B0..=0x26B1 | 0x26BD..=0x26BE
        | 0x26C4..=0x26C5 | 0x26C8 | 0x26CE..=0x26CF | 0x26D1 | 0x26D3..=0x26D4
        | 0x26E9..=0x26EA | 0x26F0..=0x26F5 | 0x26F7..=0x26FA | 0x26FD => true,
        _ => false,
    }
}

fn dingbat(u: u32) -> (r: bool)
    ensures
        r == is_dingbat(u),
{
    match u {
        0x2702 | 0x2705 | 0x2708..=0x270D | 0x270F | 0x2712 | 0x2714 | 0x2716 | 0x271D
        | 0x2721 | 0x2728 | 0x2733..=0x2734 | 0x2744 | 0x2747 | 0x274C | 0x274E
        | 0x2753..=0x2755 | 0x2757 | 0x2763..=0x2764 | 0x2795..=0x2797 | 0x27A1 | 0x27B0
        | 0x27BF => true,
        _ => false,
    }
}

fn pictograph(u: u32) -> (r: bool)
    ensures
        r == is_pictograph(u),
{
    match u {
        0x1F004 | 0x1F0CF | 0x1F170..=0x1F171 | 0x1F17E..=0x1F17F | 0x1F18E
        | 0x1F191..=0x1F19A | 0x1F1E6..=0x1F1FF | 0x1F201..=0x1F202 | 0x1F21A | 0x1F22F
        | 0x1F232..=0x1F23A | 0x1F250..=0x1F251 | 0x1F300..=0x1F321 | 0x1F324..=0x1F393
        | 0x1F396..=0x1F397 | 0x1F399..=0x1F39B | 0x1F39E..=0x1F3F0 | 0x1F3F3..=0x1F3F5
        | 0x1F3F7..=0x1F4FD | 0x1F4FF..=0x1F53D | 0x1F549..=0x1F54E | 0x1F550..=0x1F567
        | 0x1F56F..=0x1F570 | 0x1F573..=0x1F57A | 0x1F587 | 0x1F58A..=0x1F58D | 0x1F590
        | 0x1F595..=0x1F596 | 0x1F5A4..=0x1F5A5 | 0x1F5A8 | 0x1F5B1..=0x1F5B2 | 0x1F5BC
        | 0x1F5C2..=0x1F5C4 | 0x1F5D1..=0x1F5D3 | 0x1F5DC..=0x1F5DE | 0x1F5E1 | 0x1F5E3
        | 0x1F5E8 | 0x1F5EF | 0x1F5F3 | 0x1F5FA..=0x1F64F | 0x1F680..=0x1F6C5
        | 0x1F6CB..=0x1F6D2 | 0x1F6D5..=0x1F6D7 | 0x1F6DC..=0x1F6E5 | 0x1F6E9
        | 0x1F6EB..=0x1F6EC | 0x1F6F0 | 0x1F6F3..=0x1F6FC | 0x1F7E0..=0x1F7EB | 0x1F7F0
        | 0x1F90C..=0x1F93A | 0x1F93C..=0x1F945 | 0x1F947..=0x1F9FF | 0x1FA70..=0x1FA7C
        | 0x1FA80..=0x1FA89 | 0x1FA8F..=0x1FAC6 | 0x1FACE..=0x1FADC | 0x1FADF..=0x1FAE9
        | 0x1FAF0..=0x1FAF8 => true,
        _ => false,
    }
}

fn takes_two(c: char) -> (r: bool)
    ensures
        r == is_wide(c),
{
    let u = c as u32;
    let cjk = (0x1100 <= u && u <= 0x115F) || (0x2E80 <= u && u <= 0xA4CF) || (0xAC00 <= u && u
        <= 0xD7A3) || (0xF900 <= u && u <= 0xFAFF) || (0xFE30 <= u && u <= 0xFE4F) || (0xFF00 <= u
        && u <= 0xFF60) || (0xFFE0 <= u && u <= 0xFFE6) || (0x20000 <= u && u <= 0x3FFFD);
    cjk || sign(u) || symbol(u) || dingbat(u) || pictograph(u)
}

/// The width of a text, without padding.
pub open spec fn text_width(s: Seq<char>) -> nat
    decreases s.len(),
{
    if s.len() == 0 {
        0
    } else {
        text_width(s.drop_last()) + if is_wide(s.last()) {
            2nat
        } else {
            1nat
        }
    }
}

/// Approximate display width: CJK and emoji count double, else the number of
/// characters; two more keep the text off the cell borders.
pub fn display_width(s: &str) -> (r: u128)
    ensures
        r == text_width(s@) + 2,
{
    let cs = text::chars_of(s);
    let mut width: u128 = 0;
    for i in 0..cs.len()
        invariant
            cs@ == s@,
            width <= 2 * i,
            width == text_width(s@.take(i as int)),
    {
        assert(s@.take(i + 1).drop_last() =~= s@.take(i as int));
        if takes_two(cs[i]) {
            width = width + 2;
        } else {
            width = width + 1;
        }
    }
    assert(s@.take(s@.len() as int) =~= s@);
    width + 2
}

/// The column width that a cell asks for: between 10 and 50.
pub open spec fn asked_width(s: Seq<char>) -> nat {
    let w = text_width(s) + 2;
    if w > 50 {
        50
    } else if w < 10 {
        10
    } else {
        w
    }
}

fn width_for(s: &str) -> (r: u32)
    ensures
        r == asked_width(s@),
        10 <= r <= 50,
{
    let w = display_width(s);
    if w > 50 {
        50
    } else if w < 10 {
        10
    } else {
        w as u32
    }
}

// ---------------------------------------------------------------------------
// Cells
// ---------------------------------------------------------------------------

/// How a cell is written.
#[derive(Debug)]
pub enum SheetCell {
    Text(String),
    /// A number in plain format, as a numeral with a decimal point.
    Plain(String),
    /// A number with two decimal places, as a numeral with a decimal point.
    Decimal(String),
}

/// What a [`SheetCell`] is.
#[verifier::ext_equal]
pub enum SheetCellView {
    Text(Seq<char>),
    Plain(Seq<char>),
    Decimal(Seq<char>),
}

impl DeepView for SheetCell {
    type V = SheetCellView;

    open spec fn deep_view(&self) -> SheetCellView {
        match self {
            SheetCell::Text(s) => SheetCellView::Text(s@),
            SheetCell::Plain(s) => SheetCellView::Plain(s@),
            SheetCell::Decimal(s) => SheetCellView::Decimal(s@),
        }
    }
}

/// Whether a text holds a decimal point or an exponent.
pub open spec fn has_fraction(s: Seq<char>) -> bool {
    s.contains('.') || s.contains('e') || s.contains('E')
}

/// Whether a numeral stays a text: one with leading zeros is an id.
pub open spec fn stays_text(s: Seq<char>) -> bool {
    s.len() > 1 && s[0] == '0' && !has_fraction(s)
}

/// A cell with decimal points for commas.
pub open spec fn with_points(s: Seq<char>) -> Seq<char> {
    s.map_values(
        |c: char|
            if c == ',' {
                '.'
            } else {
                c
            },
    )
}

/// How a cell is written: as a number where it reads as one, so that it can be
/// summed; ids with leading zeros stay texts.
pub open spec fn cell_of(s: Seq<char>) -> SheetCellView {
    if number::is_real_numeral(with_points(s)) && !stays_text(s) && !text::blank(s) {
        if has_fraction(s) {
            SheetCellView::Decimal(with_points(s))
        } else {
            SheetCellView::Plain(with_points(s))
        }
    } else {
        SheetCellView::Text(s)
    }
}

fn points_for_commas(s: &str) -> (r: String)
    ensures
        r@ == with_points(s@),
{
    let cs = text::chars_of(s);
    let mut out = String::new();
    for i in 0..cs.len()
        invariant
            cs@ == s@,
            out@ == with_points(s@).take(i as int),
    {
        out.push(
            if cs[i] == ',' {
                '.'
            } else {
                cs[i]
            },
        );
    }
    out
}

/// How a cell is written.
pub fn sheet_cell(s: &str) -> (r: SheetCell)
    ensures
        r.deep_view() == cell_of(s@),
{
    let points = points_for_commas(s);
    let fraction = text::has_char(s, '.') || text::has_char(s, 'e') || text::has_char(s, 'E');
    let id = s.unicode_len() > 1 && s.get_char(0) == '0' && !fraction;
    if number::reads_as_real(points.as_str()) && !id && !text::is_blank(s) {
        if fraction {
            SheetCell::Decimal(points)
        } else {
            SheetCell::Plain(points)
        }
    } else {
        SheetCell::Text(s.to_owned())
    }
}

// ---------------------------------------------------------------------------
// Sheets
// ---------------------------------------------------------------------------

/// A sheet to write: header, cells, column widths, and whether the table has
/// any column to filter and freeze.
#[derive(Debug)]
pub struct Sheet {
    pub name: String,
    pub headers: Vec<String>,
    pub rows: Vec<Vec<SheetCell>>,
    pub widths: Vec<u32>,
}

/// What a [`Sheet`] holds.
#[verifier::ext_equal]
pub struct SheetView {
    pub name: Seq<char>,
    pub headers: Seq<Seq<char>>,
    pub rows: Seq<Seq<SheetCellView>>,
    pub widths: Seq<u32>,
}

impl DeepView for Sheet {
    type V = SheetView;

    open spec fn deep_view(&self) -> SheetView {
        SheetView {
            name: self.name@,
            headers: self.headers.deep_view(),
            rows: self.rows.deep_view(),
            widths: self.widths@,
        }
    }
}

/// How many columns a sheet has: those of the header or of the first row.
pub open spec fn sheet_width(t: TableView) -> nat {
    if t.rows.len() > 0 && t.rows[0].len() > t.headers.len() {
        t.rows[0].len()
    } else {
        t.headers.len()
    }
}

/// The wider of two widths.
pub open spec fn wider(a: nat, b: nat) -> nat {
    if a > b {
        a
    } else {
        b
    }
}

/// The width that the first `n` rows ask for a column.
pub open spec fn rows_width(rows: Seq<Seq<Seq<char>>>, c: int, n: nat) -> nat
    decreases n,
{
    if n == 0 {
        10
    } else {
        let before = rows_width(rows, c, (n - 1) as nat);
        let row = rows[n - 1];
        if c < row.len() {
            wider(before, asked_width(row[c]))
        } else {
            before
        }
    }
}

/// The width of a column: the most that its header or any cell asks for.
pub open spec fn column_width(t: TableView, c: int) -> nat {
    let cells = rows_width(t.rows, c, t.rows.len());
    if c < t.headers.len() {
        wider(asked_width(t.headers[c]), cells)
    } else {
        cells
    }
}

/// The cells of a row, up to the width of the sheet.
pub open spec fn row_cells(row: Seq<Seq<char>>, width: nat) -> Seq<SheetCellView> {
    Seq::new(
        if row.len() < width {
            row.len()
        } else {
            width
        },
        |c: int| cell_of(row[c]),
    )
}

/// The sheet of a table.
pub open spec fn sheet_of(t: TableView, name: Seq<char>) -> SheetView {
    let width = sheet_width(t);
    SheetView {
        name: clean_name(name),
        headers: t.headers,
        rows: t.rows.map_values(|row: Seq<Seq<char>>| row_cells(row, width)),
        widths: Seq::new(width, |c: int| column_width(t, c) as u32),
    }
}

proof fn lemma_rows_width(rows: Seq<Seq<Seq<char>>>, c: int, n: nat)
    ensures
        10 <= rows_width(rows, c, n) <= 50,
    decreases n,
{
    if n > 0 {
        lemma_rows_width(rows, c, (n - 1) as nat);
    }
}

/// Every column is between 10 and 50 characters wide.
pub proof fn law_column_widths(t: TableView, name: Seq<char>, c: int)
    requires
        0 <= c < sheet_of(t, name).widths.len(),
    ensures
        10 <= sheet_of(t, name).widths[c] <= 50,
{
    lemma_rows_width(t.rows, c, t.rows.len());
}

fn widths_of(t: &Table, width: usize) -> (r: Vec<u32>)
    requires
        width == sheet_width(t.deep_view()),
    ensures
        r@ == sheet_of(t.deep_view(), Seq::empty()).widths,
{
    let ghost view = t.deep_view();
    let mut out: Vec<u32> = Vec::new();
    for c in 0..width
        invariant
            view == t.deep_view(),
            out@.len() == c,
            forall|j: int| 0 <= j < c ==> out@[j] == column_width(view, j) as u32,
    {
        let mut most: u32 = 10;
        for i in 0..t.rows.len()
            invariant
                view == t.deep_view(),
                10 <= most <= 50,
                most == rows_width(view.rows, c as int, i as nat),
        {
            let row = &t.rows[i];
            assert(view.rows[i as int] == row.deep_view());
            if c < row.len() {
                assert(row.deep_view()[c as int] == row@[c as int]@);
                let w = width_for(row[c].as_str());
                if w > most {
                    most = w;
                }
            }
        }
        if c < t.headers.len() {
            assert(view.headers[c as int] == t.headers@[c as int]@);
            let w = width_for(t.headers[c].as_str());
            if w > most {
                most = w;
            }
        }
        out.push(most);
    }
    assert(out@ =~= sheet_of(view, Seq::empty()).widths);
    out
}

/// Lay a table out as a sheet.
pub fn write_xlsx(t: &Table, name: &str) -> (r: Sheet)
    ensures
        r.deep_view() == sheet_of(t.deep_view(), name@),
{
    let ghost view = t.deep_view();
    let mut width = t.headers.len();
    if t.rows.len() > 0 {
        assert(view.rows[0] == t.rows@[0].deep_view());
        if t.rows[0].len() > width {
            width = t.rows[0].len();
        }
    }
    assert(width == sheet_width(view));
    let mut rows: Vec<Vec<SheetCell>> = Vec::new();
    for i in 0..t.rows.len()
        invariant
            view == t.deep_view(),
            rows@.len() == i,
            forall|j: int|
                0 <= j < i ==> (#[trigger] rows@[j]).deep_view() == row_cells(
                    view.rows[j],
                    width as nat,
                ),
    {
        let row = &t.rows[i];
        assert(view.rows[i as int] == row.deep_view());
        let n = if row.len() < width {
            row.len()
        } else {
            width
        };
        let mut cells: Vec<SheetCell> = Vec::new();
        for c in 0..n
            invariant
                n <= row@.len(),
                cells@.len() == c,
                forall|j: int|
                    0 <= j < c ==> (#[trigger] cells@[j]).deep_view() == cell_of(
                        row.deep_view()[j],
                    ),
        {
            assert(row.deep_view()[c as int] == row@[c as int]@);
            cells.push(sheet_cell(row[c].as_str()));
        }
        assert(cells.deep_view() =~= row_cells(view.rows[i as int], width as nat));
        rows.push(cells);
    }
    let r = Sheet {
        name: sanitize_sheet_name(name),
        headers: text::copy_list(&t.headers),
        rows,
        widths: widths_of(t, width),
    };
    assert(r.rows.deep_view() =~= sheet_of(view, name@).rows);
    r
}

} // verus!
