use hawellha::converters::document::{
    collapse_blanks, html_body, html_escape, html_to_text, html_unescape, logical_lines_of,
    paginate, parse_markdown_heading, pdf_to_text, sanitize, strip_tags, supports, targets_for,
    text_to_html, text_to_pdf, wrap_line, DocumentConverter, PageOp,
};
use hawellha::converters::{ConvertOptions, Converter, Delivery, Source};

fn file(content: &[u8]) -> Source {
    Source { content: Ok(content.to_vec()), ..Source::unread(true, true, false) }
}

fn written(page: &[PageOp]) -> Vec<(String, bool)> {
    let mut out = Vec::new();
    for op in page {
        if let PageOp::Write(s, heading) = op {
            out.push((s.clone(), *heading));
        }
    }
    out
}

#[test]
fn wrap_and_heading() {
    assert_eq!(parse_markdown_heading("## Hello ##"), (2, "Hello"));
    assert_eq!(parse_markdown_heading("plain"), (0, "plain"));
    let lines = wrap_line("one two three four", 7);
    assert_eq!(lines, vec!["one two", "three", "four"]);
}

#[test]
fn headings_need_a_space() {
    assert_eq!(parse_markdown_heading("#hashtag").0, 0);
    assert_eq!(parse_markdown_heading("###### Deep"), (6, "Deep"));
    assert_eq!(parse_markdown_heading("####### Deeper").0, 0);
}

#[test]
fn long_words_are_cut() {
    assert_eq!(wrap_line("abcdefgh", 3), vec!["abc", "def", "gh"]);
    assert_eq!(wrap_line("äöüäöü", 4), vec!["äöüä", "öü"]);
    for line in wrap_line("the quick brown fox jumps over it", 9) {
        assert!(line.chars().count() <= 9, "{line}");
    }
}

#[test]
fn txt_to_pdf_smoke() {
    let src = b"# Title\n\nHello world, this is a test of the PDF writer.\n";
    let d = DocumentConverter
        .convert("/d/note.txt", file(src), "/d/note.pdf", &ConvertOptions::default())
        .expect("txt->pdf");
    let book = match d {
        Delivery::Pages(b) => b,
        other => panic!("{other:?}"),
    };
    assert_eq!(book.title, "note");
    assert_eq!(book.pages.len(), 1);
    let lines = written(&book.pages[0]);
    assert_eq!(lines[0], ("Title".to_string(), true));
    assert!(lines
        .iter()
        .any(|l| *l == ("Hello world, this is a test of the PDF writer.".to_string(), false)));
}

#[test]
fn md_to_html_smoke() {
    assert!(supports("md", "html"));
    let opts = ConvertOptions::default();
    let src = b"# Title\n\nHello <world> & friends.\n";
    let d = DocumentConverter
        .convert("/d/note.md", file(src), "/d/note.html", &opts)
        .expect("md->html");
    let html = match d {
        Delivery::Text(s) => s,
        other => panic!("{other:?}"),
    };
    assert!(html.contains("<h1>Title</h1>"));
    assert!(html.contains("&lt;world&gt;"));
    // Round-trip back to text.
    let d = DocumentConverter
        .convert("/d/note.html", file(html.as_bytes()), "/d/note.txt", &opts)
        .expect("html->txt");
    let txt = match d {
        Delivery::Text(s) => s,
        other => panic!("{other:?}"),
    };
    assert!(txt.contains("Title"));
    assert!(txt.contains("Hello <world> & friends."));
}

#[test]
fn empty_text_makes_one_page() {
    let book = text_to_pdf("/d/empty.txt", b"");
    assert_eq!(book.pages.len(), 1);
}

#[test]
fn long_texts_fill_several_pages() {
    let src = "line\n".repeat(200);
    let book = text_to_pdf("/d/long.txt", src.as_bytes());
    assert!(book.pages.len() > 1);
    let total: usize = book.pages.iter().map(|p| written(p).len()).sum();
    assert_eq!(total, 200);
}

#[test]
fn lines_after_wrapping() {
    let lines = logical_lines_of("# A\n\nplain\n");
    assert_eq!(lines.len(), 3);
    let pages = paginate(&lines);
    assert_eq!(pages.len(), 1);
}

#[test]
fn drawn_text_is_plain() {
    assert_eq!(sanitize("plain text"), "plain text");
    assert!(sanitize("“quoted” – done…").is_ascii());
}

#[test]
fn escaping_is_undone() {
    let s = "a < b && c > \"d\"";
    assert_eq!(html_escape(s), "a &lt; b &amp;&amp; c &gt; &quot;d&quot;");
    assert_eq!(html_unescape(&html_escape(s)), s);
    let tricky = "&lt;";
    assert_eq!(html_unescape(&html_escape(tricky)), tricky);
}

#[test]
fn markup_is_stripped() {
    assert_eq!(strip_tags("<p>hi</p>"), "\nhi\n");
    assert_eq!(strip_tags("no tags"), "no tags");
    assert_eq!(html_to_text(b"<p>a &amp; b</p>"), "a & b\n\n");
}

#[test]
fn blank_lines_collapse() {
    assert_eq!(collapse_blanks("a\n\n\n\n\nb"), "a\n\n\nb\n");
}

#[test]
fn html_of_paragraphs() {
    let body = html_body("# T\n\none\ntwo\n");
    assert!(body.contains("<h1>T</h1>"));
    assert!(text_to_html("/d/<x>.md", b"").contains("&lt;x&gt;"));
}

#[test]
fn extracted_text() {
    assert_eq!(pdf_to_text("/d/a.pdf", Ok("words".to_string())).unwrap(), "words");
    let e = pdf_to_text("/d/a.pdf", Ok(" \n".to_string())).unwrap_err();
    assert_eq!(
        e.message(),
        "malformed PDF data in '/d/a.pdf': no embedded text found — this PDF may be scanned images; OCR is not supported yet"
    );
    let e = pdf_to_text("/d/a.pdf", Err("broken".to_string())).unwrap_err();
    assert_eq!(e.message(), "malformed PDF data in '/d/a.pdf': cannot extract text: broken");
}

#[test]
fn documents_without_a_way() {
    let opts = ConvertOptions::default();
    let d = DocumentConverter.convert("/d/a.pdf", file(b"%PDF"), "/d/a.txt", &opts).unwrap();
    assert!(matches!(d, Delivery::ExtractPdf(b) if b == b"%PDF"));
    let d = DocumentConverter.convert("/d/a.md", file(b"x"), "/d/a.txt", &opts).unwrap();
    assert!(matches!(d, Delivery::Copy));
    let e = DocumentConverter.convert("/d/a.pdf", file(b"x"), "/d/a.html", &opts).unwrap_err();
    assert_eq!(e.message(), "unsupported conversion: pdf → html");
    let gone = Source { content: Err("denied".to_string()), ..file(b"") };
    let e = DocumentConverter.convert("/d/a.txt", gone, "/d/a.pdf", &opts).unwrap_err();
    assert_eq!(e.message(), "cannot read input file '/d/a.txt': denied");
}

#[test]
fn document_targets() {
    assert_eq!(targets_for("txt"), vec!["pdf", "html", "md"]);
    assert_eq!(targets_for("pdf"), vec!["txt", "md"]);
}

#[test]
fn wrapping_keeps_every_letter() {
    let line = "  Words of   very_different_lengths and unbreakable-strings-that-are-long ";
    let ink = |s: &str| s.chars().filter(|c| !c.is_whitespace()).collect::<String>();
    for width in 1..30 {
        assert_eq!(ink(&wrap_line(line, width).concat()), ink(line), "{width}");
    }
}

#[test]
fn escaped_text_holds_no_markup() {
    let s = html_escape("<script>\"&\"</script>");
    assert!(!s.contains('<') && !s.contains('>') && !s.contains('"'));
    assert_eq!(strip_tags(&s), s);
}

#[test]
fn no_page_overflows() {
    let src = "# H\n\ntext\n".repeat(60);
    for page in text_to_pdf("/d/x.md", src.as_bytes()).pages {
        let breaks = page.iter().filter(|op| matches!(op, PageOp::Break)).count();
        assert!(breaks <= 43, "{breaks}");
    }
}

#[test]
fn pages_give_the_text_back() {
    let source = "\u{FEFF}# A < B & \"C\"\n\nfirst &amp; line \r\n  second <line>\n\n## end ##\nlast";
    let html = text_to_html("/d/x & y.md", source.as_bytes());
    let plain = html_to_text(html.as_bytes());
    for shown in ["A < B & \"C\"", "first &amp; line", "second <line>", "end", "last"] {
        assert!(plain.contains(shown), "{shown} in {plain}");
    }
    assert!(plain.contains("first &amp; line second <line>\n"));
}
