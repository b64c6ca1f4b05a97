use hawellha::converters::json_table::{json_scalar_to_string, read_json_table};
use hawellha::converters::table::{dedupe_headers, head, normalise_width, shape};
use hawellha::converters::tabular::{
    delimiter_for_ext, detect_delimiter, read_csv, write_csv_rows, write_json_rows,
    TabularConverter,
};
use calamine::Reader;
use hawellha::converters::workbook_table::{
    book_format, cell_to_string, read_workbook, table_of_sheet, whole_number_of, BookFormat, Cell,
    SheetCells,
};
use hawellha::converters::xlsx::{
    display_width, sanitize_sheet_name, sheet_cell, sheet_name_for, Sheet, SheetCell,
};
use hawellha::converters::{ConversionError, ConvertOptions, Converter, Delivery, Source};
use hawellha::outside::json::Json;

fn file(content: &[u8]) -> Source {
    Source { content: Ok(content.to_vec()), ..Source::unread(true, true, false) }
}

fn unreadable() -> Source {
    Source {
        content: Err("denied".to_string()),
        workbook: Err("denied".to_string()),
        ..Source::unread(true, true, false)
    }
}

fn text_of(d: Delivery) -> String {
    match d {
        Delivery::Text(s) => s,
        Delivery::Bytes(b) => String::from_utf8(b).unwrap(),
        other => panic!("{other:?}"),
    }
}

fn list(names: &[&str]) -> Vec<String> {
    names.iter().map(|s| s.to_string()).collect()
}

/// Writes a sheet the way a spreadsheet program would.
fn workbook_of(sheet: &Sheet) -> Vec<u8> {
    let mut book = rust_xlsxwriter::Workbook::new();
    let page = book.add_worksheet();
    page.set_name(&sheet.name).unwrap();
    for (c, h) in sheet.headers.iter().enumerate() {
        page.write_string(0, c as u16, h).unwrap();
    }
    for (r, row) in sheet.rows.iter().enumerate() {
        for (c, cell) in row.iter().enumerate() {
            match cell {
                SheetCell::Text(s) => {
                    page.write_string(r as u32 + 1, c as u16, s).unwrap();
                }
                SheetCell::Plain(s) | SheetCell::Decimal(s) => {
                    page.write_number(r as u32 + 1, c as u16, s.parse::<f64>().unwrap()).unwrap();
                }
            }
        }
    }
    book.save_to_buffer().unwrap()
}

fn cell_of(data: &calamine::Data) -> Cell {
    match data {
        calamine::Data::Empty => Cell::Empty,
        calamine::Data::String(s) => Cell::Text(s.clone()),
        calamine::Data::Float(f) => Cell::Float(f.to_bits(), f.to_string()),
        calamine::Data::Int(i) => Cell::Int(*i),
        calamine::Data::Bool(b) => Cell::Bool(*b),
        other => Cell::Text(other.to_string()),
    }
}

/// A source with the sheets of a workbook.
fn workbook(bytes: Vec<u8>) -> Source {
    let mut book: calamine::Xlsx<_> =
        calamine::open_workbook_from_rs(std::io::Cursor::new(bytes)).unwrap();
    let mut sheets = Vec::new();
    for name in book.sheet_names() {
        let range = book.worksheet_range(&name).unwrap();
        let rows = range.rows().map(|row| row.iter().map(cell_of).collect()).collect();
        sheets.push(SheetCells { name, rows: Ok(rows) });
    }
    Source { workbook: Ok(sheets), ..Source::unread(true, true, false) }
}

#[test]
fn delimiter_detection() {
    assert_eq!(detect_delimiter("a,b,c\n1,2,3\n"), b',');
    assert_eq!(detect_delimiter("a;b;c\n1;2;3\n"), b';');
    assert_eq!(detect_delimiter("a\tb\tc\n1\t2\t3\n"), b'\t');
    assert_eq!(detect_delimiter("a|b|c\n1|2|3\n"), b'|');
}

#[test]
fn delimiters_without_a_winner() {
    assert_eq!(detect_delimiter(""), b',');
    assert_eq!(detect_delimiter("one\ntwo\n"), b',');
    assert_eq!(detect_delimiter("a,b,c,d,e,f,g,h,i,j,k,l,m;n\no;p"), b';');
    assert_eq!(detect_delimiter("a,b;c;d\n1,2;3;4"), b';');
    assert_eq!(detect_delimiter("a;b,c\n1;2,3"), b',');
    assert_eq!(delimiter_for_ext("tsv"), b'\t');
    assert_eq!(delimiter_for_ext("csv"), b',');
}

#[test]
fn csv_xlsx_roundtrip() {
    let opts = ConvertOptions::default();
    let csv = b"name,age,city\nAda,36,London\nLinus,55,Helsinki\n";
    let d = TabularConverter.convert("/d/in.csv", file(csv), "/d/out.xlsx", &opts).expect("csv->xlsx");
    let sheet = match d {
        Delivery::Sheet(s) => s,
        other => panic!("{other:?}"),
    };
    assert_eq!(sheet.name, "in");
    assert_eq!(sheet.headers, list(&["name", "age", "city"]));
    let book = workbook_of(&sheet);
    let back = TabularConverter
        .convert("/d/out.xlsx", workbook(book), "/d/back.csv", &opts)
        .expect("xlsx->csv");
    let back = text_of(back);
    assert!(back.contains("Ada") && back.contains("Linus"));
    assert_eq!(back, "name,age,city\nAda,36,London\nLinus,55,Helsinki\n");
}

#[test]
fn json_csv_flatten() {
    let json = r#"[{"name":"Ada","address":{"city":"London"}},{"name":"Linus","address":{"city":"Helsinki"}}]"#;
    let d = TabularConverter
        .convert("/d/in.json", file(json.as_bytes()), "/d/out.csv", &ConvertOptions::default())
        .expect("json->csv");
    let out = text_of(d);
    assert!(out.contains("address.city"), "{out}");
    assert_eq!(out, "name,address.city\nAda,London\nLinus,Helsinki\n");
}

#[test]
fn semicolon_csv_to_json() {
    let d = TabularConverter
        .convert("/d/in.csv", file(b"a;b;c\n1;2;3\n"), "/d/out.json", &ConvertOptions::default())
        .expect("csv->json");
    let out = text_of(d);
    assert!(out.contains("\"a\""), "{out}");
    let value: serde_json::Value = serde_json::from_str(&out).unwrap();
    assert_eq!(value[0]["b"], "2");
}

#[test]
fn csv_becomes_tsv() {
    let d = TabularConverter
        .convert("/d/a.csv", file(b"a,b\n1,\"x\ty\"\n"), "/d/a.tsv", &ConvertOptions::default())
        .unwrap();
    assert_eq!(text_of(d), "a\tb\n1\t\"x\ty\"\n");
}

#[test]
fn csv_with_a_mark_and_ragged_rows() {
    let t = read_csv("/d/a.csv", "\u{FEFF}a,b\n1\n2,3,4\n".as_bytes(), &ConvertOptions::default()).unwrap();
    assert_eq!(t.headers, list(&["a", "b"]));
    assert_eq!(t.rows, vec![list(&["1", ""]), list(&["2", "3"])]);
    let t = head(vec![list(&["a", "b"]), list(&["1", "2", "3"]), list(&["4"])]);
    assert_eq!(t.headers, list(&["a", "b"]));
    assert_eq!(t.rows, vec![list(&["1", "2"]), list(&["4", ""])]);
}

#[test]
fn chosen_delimiter_wins() {
    let opts = ConvertOptions { csv_delimiter: Some(b'|'), ..ConvertOptions::default() };
    let t = read_csv("/d/a.csv", b"a,b|c\n1,2|3\n", &opts).unwrap();
    assert_eq!(t.headers, list(&["a,b", "c"]));
}

#[test]
fn bytes_that_are_no_utf8_are_replaced() {
    let t = read_csv("/d/a.csv", b"a,b\n\xff,2\n", &ConvertOptions::default()).unwrap();
    assert_eq!(t.rows[0], list(&["\u{FFFD}", "2"]));
}

#[test]
fn unreadable_and_malformed_tables() {
    let opts = ConvertOptions::default();
    let e = TabularConverter.convert("/d/a.csv", unreadable(), "/d/a.json", &opts).unwrap_err();
    assert_eq!(e.message(), "cannot read input file '/d/a.csv': denied");
    let e = TabularConverter.convert("/d/a.json", file(b"{"), "/d/a.csv", &opts).unwrap_err();
    assert!(matches!(e, ConversionError::MalformedData { ref format, .. } if format == "JSON"));
    let e = TabularConverter.convert("/d/a.xlsx", unreadable(), "/d/a.csv", &opts).unwrap_err();
    assert_eq!(e.message(), "malformed spreadsheet data in '/d/a.xlsx': cannot parse workbook: denied");
    let gone = Source { is_file: false, exists: false, ..unreadable() };
    let e = TabularConverter.convert("/d/a.xlsx", gone, "/d/a.csv", &opts).unwrap_err();
    assert_eq!(
        e.message(),
        "cannot read input file '/d/a.xlsx': file does not exist or is not a regular file"
    );
    let e = TabularConverter.convert("/d/a.xlsx", file(b""), "/d/a.xlsx", &opts).unwrap_err();
    assert_eq!(e.message(), "unsupported conversion: xlsx → xlsx");
}

#[test]
fn headers_are_named_and_told_apart() {
    assert_eq!(
        dedupe_headers(&list(&["a", "", "a", "a"])),
        list(&["a", "column_2", "a (2)", "a (3)"])
    );
    assert_eq!(dedupe_headers(&list(&["a", "a", "a (2)"])), list(&["a", "a (3)", "a (2)"]));
    assert_eq!(dedupe_headers(&list(&["", "column_1"])), list(&["column_1 (2)", "column_1"]));
}

#[test]
fn rows_are_brought_to_one_width() {
    let mut row = list(&["1"]);
    normalise_width(&mut row, 3);
    assert_eq!(row, list(&["1", "", ""]));
    let t = shape(vec![list(&["a"]), list(&["1", "2"])]);
    assert_eq!(t.headers, list(&["a", "column_2"]));
    assert_eq!(t.rows, vec![list(&["1", "2"])]);
}

#[test]
fn csv_is_quoted_where_needed() {
    let t = shape(vec![list(&["a", "b"]), list(&["x,y", "say \"hi\""])]);
    let bytes = write_csv_rows(t, "/d/o.csv", b',').unwrap();
    assert_eq!(String::from_utf8(bytes).unwrap(), "a,b\n\"x,y\",\"say \"\"hi\"\"\"\n");
}

#[test]
fn json_documents_become_tables() {
    let t = read_json_table("/d/a.json", br#"{"b":1,"a":{"x":[1,2],"y":null}}"#).unwrap();
    assert_eq!(t.headers, list(&["b", "a.x", "a.y"]));
    assert_eq!(t.rows, vec![list(&["1", "1; 2", ""])]);
    let t = read_json_table("/d/a.json", br#"[{"k":[{"z":1},[2]]}]"#).unwrap();
    assert_eq!(t.rows, vec![list(&["[{\"z\":1},[2]]"])]);
    let t = read_json_table("/d/a.json", b"[]").unwrap();
    assert!(t.headers.is_empty() && t.rows.is_empty());
    let t = read_json_table("/d/a.json", b"[1,\"x\"]").unwrap();
    assert_eq!(t.rows.len(), 2);
}

#[test]
fn json_scalars() {
    assert_eq!(json_scalar_to_string(&Json::Null), "");
    assert_eq!(json_scalar_to_string(&Json::Bool(true)), "true");
}

#[test]
fn workbook_cells() {
    assert_eq!(cell_to_string(&Cell::Empty), "");
    assert_eq!(cell_to_string(&Cell::Bool(false)), "FALSE");
    assert_eq!(whole_number_of(36.0f64.to_bits()), Some(36));
    assert_eq!(whole_number_of((-2.0f64).to_bits()), Some(-2));
    assert_eq!(whole_number_of(0.5f64.to_bits()), None);
    assert_eq!(whole_number_of(1e15f64.to_bits()), None);
    assert_eq!(whole_number_of(f64::NAN.to_bits()), None);
}

#[test]
fn whole_numbers_agree_with_floating_point() {
    for x in [0.0f64, -0.0, 1.0, 1.5, -7.0, 999999999999999.0, 1e15, 1e300, 3.0e-5, f64::INFINITY] {
        let expected = if x.fract() == 0.0 && x.abs() < 1e15 { Some(x as i64) } else { None };
        assert_eq!(whole_number_of(x.to_bits()), expected, "{x}");
    }
}

#[test]
fn blank_sheets_hold_no_table() {
    assert!(table_of_sheet(&Vec::new()).is_none());
    assert!(table_of_sheet(&vec![vec![Cell::Empty]]).is_none());
}

#[test]
fn sheets_start_where_they_hold_something() {
    let t = |s: &str| Cell::Text(s.to_string());
    let table = table_of_sheet(&vec![
        vec![t(" "), Cell::Empty, Cell::Empty],
        vec![Cell::Empty, t("a"), t("b")],
        vec![Cell::Empty, Cell::Empty, t("1")],
        vec![Cell::Empty, t(""), Cell::Empty],
    ])
    .unwrap();
    assert_eq!(table.headers, list(&["a", "b"]));
    assert_eq!(table.rows, vec![list(&["", "1"])]);
}

#[test]
fn the_first_sheet_that_holds_something_is_read() {
    let sheet = |name: &str, rows| SheetCells { name: name.to_string(), rows };
    let full = || Ok(vec![vec![Cell::Text("a".to_string())], vec![Cell::Int(7)]]);
    let blank = || Ok(vec![vec![Cell::Empty]]);
    let t = read_workbook("/d/a.ods", Ok(vec![sheet("one", blank()), sheet("two", full())])).unwrap();
    assert_eq!(t.headers, list(&["a"]));
    assert_eq!(t.rows, vec![list(&["7"])]);
    let bad = vec![sheet("one", blank()), sheet("two", Err("torn".to_string())), sheet("x", full())];
    let e = read_workbook("/d/a.ods", Ok(bad)).unwrap_err();
    assert_eq!(
        e.message(),
        "malformed spreadsheet data in '/d/a.ods': cannot read sheet 'two': torn"
    );
    let e = read_workbook("/d/a.ods", Ok(Vec::new())).unwrap_err();
    assert_eq!(
        e.message(),
        "malformed spreadsheet data in '/d/a.ods': workbook contains no sheets"
    );
    assert_eq!(book_format("/d/a.ods"), BookFormat::Ods);
    assert_eq!(book_format("/d/a.XLS"), BookFormat::Detect);
}

#[test]
fn sheet_names_are_cleaned() {
    assert_eq!(sheet_name_for("/a/report.csv"), "report");
    assert_eq!(sheet_name_for("/"), "Sheet1");
    assert_eq!(sheet_name_for("/a/q1[2024].csv"), "q1_2024_");
    assert_eq!(sanitize_sheet_name("a/b:c"), "a_b_c");
    assert!(sanitize_sheet_name(&"x".repeat(50)).chars().count() <= 31);
    assert!(!sanitize_sheet_name("").is_empty());
}

#[test]
fn cells_of_a_sheet() {
    assert!(matches!(sheet_cell("36"), SheetCell::Plain(s) if s == "36"));
    assert!(matches!(sheet_cell("3.5"), SheetCell::Decimal(s) if s == "3.5"));
    assert!(matches!(sheet_cell("Ada"), SheetCell::Text(s) if s == "Ada"));
    assert_eq!(display_width("abc"), 5);
    assert_eq!(display_width("日本"), 6);
    assert_eq!(display_width("😀"), 4);
    assert_eq!(display_width("漢"), 4);
    assert_eq!(display_width("a"), 3);
    assert_eq!(display_width("✓"), 3);
    assert_eq!(display_width("✔✅❤"), 8);
    assert_eq!(display_width("🂡"), 3);
    assert_eq!(display_width("🀄"), 4);
    assert_eq!(display_width("©#1"), 5);
}

#[test]
fn column_widths_have_bounds() {
    let long = "x".repeat(200);
    let csv = format!("a,b\n1,{long}\n");
    let d = TabularConverter
        .convert("/d/a.csv", file(csv.as_bytes()), "/d/a.xlsx", &ConvertOptions::default())
        .unwrap();
    match d {
        Delivery::Sheet(s) => assert_eq!(s.widths, vec![10, 50]),
        other => panic!("{other:?}"),
    }
}

#[test]
fn json_tables_are_rectangular() {
    let t = read_json_table("/d/a.json", br#"[{"a":1},{"b":2},{"a":3,"b":4}]"#).unwrap();
    assert_eq!(t.headers, list(&["a", "b"]));
    assert_eq!(t.rows, vec![list(&["1", ""]), list(&["", "2"]), list(&["3", "4"])]);
}

#[test]
fn written_csv_reads_back() {
    for delimiter in [b',', b';', b'\t', b'|'] {
        let rows = vec![
            list(&["a", "b;c", "d\te"]),
            list(&["", "x", "\"q\", said"]),
            list(&["two\nlines", " padded ", "ä|ö"]),
            list(&["\u{FEFF}marked", "\r", "\u{FEFF}"]),
        ];
        let before = shape(rows.clone());
        let bytes = write_csv_rows(shape(rows), "/d/o.csv", delimiter).unwrap();
        let opts = ConvertOptions { csv_delimiter: Some(delimiter), ..ConvertOptions::default() };
        let after = read_csv("/d/o.csv", &bytes, &opts).unwrap();
        assert_eq!(after.headers, before.headers);
        assert_eq!(after.rows, before.rows);
    }
}

#[test]
fn written_json_reads_back() {
    let before = shape(vec![list(&["b", "a.x"]), list(&["\"1\"", "ü\n"]), list(&["", "\\"])]);
    let text = write_json_rows(&before, "/d/o.json").unwrap();
    let after = read_json_table("/d/o.json", text.as_bytes()).unwrap();
    assert_eq!(after.headers, list(&["b", "a.x"]));
    assert_eq!(after.rows, vec![list(&["\"1\"", "ü\n"]), list(&["", "\\"])]);
}
