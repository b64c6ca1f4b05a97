//! Document engine: text and Markdown to PDF and HTML, PDF and HTML to text.
//!
//! - text or Markdown to PDF: word-wrapped and paginated; headings are larger
//!   and lose their `#` markers.
//! - text or Markdown to HTML: a minimal standalone page, escaped, headings as
//!   `<h1>` to `<h6>`, paragraphs as `<p>`.
//! - HTML to text: tags stripped, the escaped characters restored.
//! - PDF to text: the embedded text.
//! - text to Markdown and back: a plain copy.
use vstd::prelude::*;

use crate::converters;
use crate::converters::{
    ConversionError, ConvertOptions, Converter, Delivery, DeliveryView, Failure, Source, SourceView,
};
use crate::number;
use crate::outside::encoding;
use crate::paths;
use crate::text;

verus! {

/// Plain-text formats.
pub open spec fn is_markup(e: Seq<char>) -> bool {
    e == "md"@ || e == "markdown"@
}

/// The document pairs of this engine.
pub open spec fn handles(from: Seq<char>, to: Seq<char>) -> bool {
    ||| (from == "txt"@ || is_markup(from)) && (to == "pdf"@ || to == "html"@)
    ||| (from == "pdf"@ || from == "html"@) && (to == "txt"@ || to == "md"@)
    ||| from == "txt"@ && is_markup(to)
    ||| is_markup(from) && to == "txt"@
}

/// Returns `true` for document pairs handled by this engine.
pub fn supports(from: &str, to: &str) -> (r: bool)
    ensures
        r == handles(from@, to@),
{
    let markup = text::same(from, "md") || text::same(from, "markdown");
    let txt = text::same(from, "txt");
    ((txt || markup) && (text::same(to, "pdf") || text::same(to, "html"))) || ((text::same(
        from,
        "pdf",
    ) || text::same(from, "html")) && (text::same(to, "txt") || text::same(to, "md"))) || (txt && (
    text::same(to, "md") || text::same(to, "markdown"))) || (markup && text::same(to, "txt"))
}

/// The target list of a document source, in display order.
pub open spec fn targets(from: Seq<char>) -> Seq<Seq<char>> {
    if from == "pdf"@ || from == "html"@ {
        seq!["txt"@, "md"@]
    } else if from == "txt"@ {
        seq!["pdf"@, "html"@, "md"@]
    } else if is_markup(from) {
        seq!["pdf"@, "html"@, "txt"@]
    } else {
        seq!["pdf"@, "txt"@, "html"@]
    }
}

/// Targets for a document source, in display order.
pub fn targets_for(from: &str) -> (r: Vec<String>)
    ensures
        r.deep_view() == targets(from@),
{
    if text::same(from, "pdf") || text::same(from, "html") {
        let r = vec!["txt".to_owned(), "md".to_owned()];
        assert(r.deep_view() =~= seq!["txt"@, "md"@]);
        r
    } else if text::same(from, "txt") {
        let r = vec!["pdf".to_owned(), "html".to_owned(), "md".to_owned()];
        assert(r.deep_view() =~= seq!["pdf"@, "html"@, "md"@]);
        r
    } else if text::same(from, "md") || text::same(from, "markdown") {
        let r = vec!["pdf".to_owned(), "html".to_owned(), "txt".to_owned()];
        assert(r.deep_view() =~= seq!["pdf"@, "html"@, "txt"@]);
        r
    } else {
        let r = vec!["pdf".to_owned(), "txt".to_owned(), "html".to_owned()];
        assert(r.deep_view() =~= seq!["pdf"@, "txt"@, "html"@]);
        r
    }
}

// ---------------------------------------------------------------------------
// Reading text
// ---------------------------------------------------------------------------

/// A text without one byte order mark at its start.
pub open spec fn strip_mark(s: Seq<char>) -> Seq<char> {
    if s.len() > 0 && s[0] == '\u{FEFF}' {
        s.skip(1)
    } else {
        s
    }
}

/// The string without one byte order mark at its start.
pub fn without_mark(s: &str) -> (r: &str)
    ensures
        r@ == strip_mark(s@),
{
    let n = s.unicode_len();
    if n > 0 && s.get_char(0) == '\u{FEFF}' {
        let r = s.substring_char(1, n);
        assert(r@ =~= s@.skip(1));
        r
    } else {
        s
    }
}

/// The title of a document: the name of its file.
pub open spec fn title_of(input: Seq<char>) -> Seq<char> {
    match paths::file_stem(input) {
        Some(stem) => stem,
        None => "Document"@,
    }
}

fn document_title(input: &str) -> (r: String)
    ensures
        r@ == title_of(input@),
{
    match paths::file_stem_of(input) {
        Some(stem) => stem,
        None => "Document".to_owned(),
    }
}

// ---------------------------------------------------------------------------
// Headings
// ---------------------------------------------------------------------------

/// How many `#` a text starts with.
pub open spec fn hashes(s: Seq<char>) -> nat
    decreases s.len(),
{
    if s.len() > 0 && s[0] == '#' {
        1 + hashes(s.skip(1))
    } else {
        0
    }
}

/// A text without the `#` at its end.
pub open spec fn strip_hashes(s: Seq<char>) -> Seq<char>
    decreases s.len(),
{
    if s.len() > 0 && s.last() == '#' {
        strip_hashes(s.drop_last())
    } else {
        s
    }
}

/// The text of a heading without its closing hashes.
pub open spec fn close_heading(s: Seq<char>) -> Seq<char> {
    if s.len() > 0 && s.last() == '#' {
        text::trim_end(strip_hashes(text::trim_end(s.drop_last())))
    } else {
        s
    }
}

/// Level and text of a line: 1 to 6 for a `#`-style heading, 0 for body text.
pub open spec fn heading(line: Seq<char>) -> (nat, Seq<char>) {
    let trimmed = text::trim_start(line);
    let level = hashes(trimmed);
    if 0 < level <= 6 && level < trimmed.len() && (trimmed[level as int] == ' '
        || trimmed[level as int] == '\t') {
        (level, close_heading(text::trim(trimmed.skip(level as int))))
    } else {
        (0, text::trim_end(line))
    }
}

proof fn lemma_hashes(s: Seq<char>, k: int)
    requires
        0 <= k <= s.len(),
        forall|i: int| 0 <= i < k ==> s[i] == '#',
        k == s.len() || s[k] != '#',
    ensures
        hashes(s) == k,
    decreases s.len(),
{
    if k > 0 {
        lemma_hashes(s.skip(1), k - 1);
    }
}

/// The string without the `#` at its end.
fn without_hashes(s: &str) -> (r: &str)
    ensures
        r@ == strip_hashes(s@),
{
    let mut n = s.unicode_len();
    assert(s@.take(n as int) =~= s@);
    while n > 0 && s.get_char(n - 1) == '#'
        invariant
            n <= s@.len(),
            strip_hashes(s@) == strip_hashes(s@.take(n as int)),
        decreases n,
    {
        assert(s@.take(n as int).drop_last() =~= s@.take(n - 1));
        n = n - 1;
    }
    let r = s.substring_char(0, n);
    assert(r@ =~= s@.take(n as int));
    r
}

/// Split a `#`-style heading into level and text; level 0 is body text.
/// Closing hashes (`## Title ##`) and leading white space are tolerated.
pub fn parse_markdown_heading(line: &str) -> (r: (usize, &str))
    ensures
        r.0 == heading(line@).0,
        r.1@ == heading(line@).1,
{
    let trimmed = text::without_lead(line);
    let n = trimmed.unicode_len();
    let mut level: usize = 0;
    while level < n && trimmed.get_char(level) == '#'
        invariant
            n == trimmed@.len(),
            level <= n,
            forall|i: int| 0 <= i < level ==> trimmed@[i] == '#',
        decreases n - level,
    {
        level = level + 1;
    }
    proof {
        lemma_hashes(trimmed@, level as int);
    }
    if 0 < level && level <= 6 && level < n && (trimmed.get_char(level) == ' '
        || trimmed.get_char(level) == '\t') {
        let rest = trimmed.substring_char(level, n);
        assert(rest@ =~= trimmed@.skip(level as int));
        let title = text::trimmed(rest);
        let len = title.unicode_len();
        if len > 0 && title.get_char(len - 1) == '#' {
            let cut = title.substring_char(0, len - 1);
            assert(cut@ =~= title@.drop_last());
            (level, text::without_tail(without_hashes(text::without_tail(cut))))
        } else {
            (level, title)
        }
    } else {
        (0, text::without_tail(line))
    }
}

// ---------------------------------------------------------------------------
// Word wrap
// ---------------------------------------------------------------------------

/// The full lines that an overlong word gives.
pub open spec fn full_pieces(word: Seq<char>, width: nat) -> Seq<Seq<char>>
    decreases word.len(),
{
    if width == 0 || word.len() <= width {
        Seq::empty()
    } else {
        seq![word.take(width as int)] + full_pieces(word.skip(width as int), width)
    }
}

/// What is left of a word after its full lines.
pub open spec fn last_piece(word: Seq<char>, width: nat) -> Seq<char>
    decreases word.len(),
{
    if width == 0 || word.len() <= width {
        word
    } else {
        last_piece(word.skip(width as int), width)
    }
}

/// Finished lines, and the line being filled.
#[verifier::ext_equal]
pub struct Wrapped {
    pub done: Seq<Seq<char>>,
    pub current: Seq<char>,
}

/// A word split hard: its full lines end the line being filled.
pub open spec fn split_word(w: Wrapped, word: Seq<char>, width: nat) -> Wrapped {
    let full = full_pieces(word, width);
    if full.len() == 0 {
        w
    } else {
        Wrapped {
            done: (if w.current.len() > 0 {
                w.done.push(w.current)
            } else {
                w.done
            }) + full,
            current: Seq::empty(),
        }
    }
}

/// One more word: on the line being filled if it fits, else on a new one.
pub open spec fn add_word(w: Wrapped, word: Seq<char>, width: nat) -> Wrapped {
    let v = split_word(w, word, width);
    let rest = last_piece(word, width);
    if v.current.len() == 0 {
        Wrapped { done: v.done, current: rest }
    } else if v.current.len() + 1 + rest.len() <= width {
        Wrapped { done: v.done, current: v.current.push(' ') + rest }
    } else {
        Wrapped { done: v.done.push(v.current), current: rest }
    }
}

/// All words of a line, in order.
pub open spec fn fill(words: Seq<Seq<char>>, width: nat) -> Wrapped
    decreases words.len(),
{
    if words.len() == 0 {
        Wrapped { done: Seq::empty(), current: Seq::empty() }
    } else {
        add_word(fill(words.drop_last(), width), words.last(), width)
    }
}

/// A line wrapped greedily at `width` characters; there is always one line.
pub open spec fn wrap(line: Seq<char>, width: nat) -> Seq<Seq<char>> {
    let w = fill(text::words(line), width);
    let all = if w.current.len() > 0 {
        w.done.push(w.current)
    } else {
        w.done
    };
    if all.len() == 0 {
        seq![Seq::empty()]
    } else {
        all
    }
}

/// Greedy word wrap at `width` characters; overlong words are hard-split.
pub fn wrap_line(line: &str, width: usize) -> (r: Vec<String>)
    requires
        width > 0,
    ensures
        r.deep_view() == wrap(line@, width as nat),
{
    let words = text::words_of(line);
    let ghost all = words.deep_view();
    let mut out: Vec<String> = Vec::new();
    let mut current = String::new();
    proof {
        assert(out.deep_view() =~= Seq::empty());
        assert(current@ =~= Seq::empty());
    }
    for i in 0..words.len()
        invariant
            width > 0,
            all == words.deep_view(),
            (Wrapped { done: out.deep_view(), current: current@ }) == fill(
                all.take(i as int),
                width as nat,
            ),
    {
        let ghost before = fill(all.take(i as int), width as nat);
        let word = words[i].as_str();
        proof {
            assert(all.take(i + 1).drop_last() =~= all.take(i as int));
            assert(all[i as int] == word@);
        }
        let n = word.unicode_len();
        let mut at: usize = 0;
        let ghost split = split_word(before, word@, width as nat);
        proof {
            assert(word@.skip(0) =~= word@);
            if before.current.len() > 0 {
                assert(before.done.push(before.current) + full_pieces(word@, width as nat)
                    =~= split.done || full_pieces(word@, width as nat).len() == 0);
            }
        }
        while n - at > width
            invariant
                width > 0,
                n == word@.len(),
                at <= n,
                split == split_word(before, word@, width as nat),
                last_piece(word@, width as nat) == last_piece(word@.skip(at as int), width as nat),
                at == 0 ==> (Wrapped { done: out.deep_view(), current: current@ }) == before,
                at > 0 ==> current@.len() == 0 && full_pieces(word@, width as nat).len() > 0
                    && split.done == out.deep_view() + full_pieces(
                    word@.skip(at as int),
                    width as nat,
                ),
            decreases n - at,
        {
            let ghost left = word@.skip(at as int);
            let ghost more = full_pieces(left.skip(width as int), width as nat);
            if !current.as_str().is_empty() {
                let ghost done = out.deep_view();
                out.push(current);
                assert(out.deep_view() =~= done.push(before.current));
                current = String::new();
            }
            let ghost done = out.deep_view();
            let piece = word.substring_char(at, at + width);
            proof {
                assert(piece@ =~= left.take(width as int));
                assert(left.skip(width as int) =~= word@.skip(at + width));
                assert(full_pieces(left, width as nat) == seq![left.take(width as int)] + more);
                assert(done + (seq![piece@] + more) =~= done.push(piece@) + more);
                if at == 0 {
                    assert(left =~= word@);
                }
            }
            out.push(piece.to_owned());
            assert(out.deep_view() =~= done.push(piece@));
            assert(current@ =~= Seq::empty());
            at = at + width;
        }
        let rest = word.substring_char(at, n);
        proof {
            let left = word@.skip(at as int);
            assert(rest@ =~= left);
            assert(last_piece(word@, width as nat) == rest@);
            if at > 0 {
                assert(full_pieces(left, width as nat) =~= Seq::empty());
                assert(out.deep_view() =~= split.done);
                assert(current@ =~= split.current);
            } else {
                assert(left =~= word@);
                assert(full_pieces(word@, width as nat) =~= Seq::empty());
                assert(split == before);
            }
            assert((Wrapped { done: out.deep_view(), current: current@ }) == split);
        }
        if current.as_str().is_empty() {
            current = rest.to_owned();
        } else {
            let len = current.as_str().unicode_len();
            // The rest fits where blank and rest take no more than what is left.
            if len < width && n - at <= width - len - 1 {
                current.push(' ');
                current.append(rest);
            } else {
                let ghost done = out.deep_view();
                out.push(current);
                assert(out.deep_view() =~= done.push(split.current));
                current = rest.to_owned();
            }
        }
    }
    assert(all.take(all.len() as int) =~= all);
    if !current.as_str().is_empty() {
        let ghost done = out.deep_view();
        out.push(current);
        assert(out.deep_view() =~= done.push(current@));
    }
    if out.len() == 0 {
        out.push(String::new());
        assert(out.deep_view() =~= seq![Seq::empty()]);
    }
    out
}

// ---------------------------------------------------------------------------
// Typeset pages
// ---------------------------------------------------------------------------

/// Characters per line: the usable width of an A4 page at 12 points.
pub const LINE_CHARS: usize = 73;

/// Lines per page: the usable height of an A4 page at 6 mm a line.
pub const PAGE_LINES: usize = 42;

/// One step in typesetting a page.
#[derive(Debug)]
pub enum PageOp {
    /// Start the text of a page.
    Start,
    /// Go to the upper left corner of the usable area.
    Home,
    /// Set the line height.
    LineHeight,
    /// Choose the font: bold and large for a heading.
    Font(bool),
    /// Write a text in that font.
    Write(String, bool),
    /// Go to the next line.
    Break,
    /// End the text of a page.
    End,
}

/// What a [`PageOp`] does.
#[verifier::ext_equal]
pub enum OpView {
    Start,
    Home,
    LineHeight,
    Font(bool),
    Write(Seq<char>, bool),
    Break,
    End,
}

impl DeepView for PageOp {
    type V = OpView;

    open spec fn deep_view(&self) -> OpView {
        match self {
            PageOp::Start => OpView::Start,
            PageOp::Home => OpView::Home,
            PageOp::LineHeight => OpView::LineHeight,
            PageOp::Font(heading) => OpView::Font(*heading),
            PageOp::Write(s, heading) => OpView::Write(s@, *heading),
            PageOp::Break => OpView::Break,
            PageOp::End => OpView::End,
        }
    }
}

/// A typeset document.
#[derive(Debug)]
pub struct Booklet {
    pub title: String,
    pub pages: Vec<Vec<PageOp>>,
}

/// What a [`Booklet`] holds.
#[verifier::ext_equal]
pub struct BookletView {
    pub title: Seq<char>,
    pub pages: Seq<Seq<OpView>>,
}

impl DeepView for Booklet {
    type V = BookletView;

    open spec fn deep_view(&self) -> BookletView {
        BookletView { title: self.title@, pages: self.pages.deep_view() }
    }
}

/// A line to typeset, and whether it is a heading.
pub type Logical = (String, bool);

/// What a line to typeset says.
pub type LogicalView = (Seq<char>, bool);

/// Wrapped lines of one source line.
pub open spec fn marked(lines: Seq<Seq<char>>, is_heading: bool) -> Seq<LogicalView> {
    lines.map_values(|l: Seq<char>| (l, is_heading))
}

/// The lines to typeset for one source line: a blank one is a gap.
pub open spec fn logical_of(raw: Seq<char>) -> Seq<LogicalView> {
    let (level, stripped) = heading(raw);
    if text::blank(stripped) {
        seq![(Seq::empty(), false)]
    } else {
        marked(wrap(stripped, LINE_CHARS as nat), level > 0)
    }
}

/// The lines to typeset for some source lines.
pub open spec fn logical_lines(lines: Seq<Seq<char>>) -> Seq<LogicalView>
    decreases lines.len(),
{
    if lines.len() == 0 {
        Seq::empty()
    } else {
        logical_lines(lines.drop_last()) + logical_of(lines.last())
    }
}

/// The lines to typeset for a text; there is always one.
pub open spec fn logical_text(s: Seq<char>) -> Seq<LogicalView> {
    let all = logical_lines(text::lines(s));
    if all.len() == 0 {
        seq![(Seq::empty(), false)]
    } else {
        all
    }
}

/// A character that the built-in fonts can show.
pub open spec fn printable(c: char) -> char {
    if ((c as u32) < 32 && c != '\t') || (c as u32) > 255 {
        '?'
    } else {
        c
    }
}

/// A text with `?` for what the built-in fonts cannot show.
pub open spec fn sanitized(s: Seq<char>) -> Seq<char> {
    s.map_values(|c: char| printable(c))
}

/// How a page starts.
pub open spec fn page_start() -> Seq<OpView> {
    seq![OpView::Start, OpView::Home, OpView::LineHeight]
}

/// Finished pages, the page being filled, and its used lines.
#[verifier::ext_equal]
pub struct Typeset {
    pub pages: Seq<Seq<OpView>>,
    pub ops: Seq<OpView>,
    pub used: nat,
}

/// A new page, where the one being filled is full.
pub open spec fn turn_page(t: Typeset) -> Typeset {
    if t.used >= PAGE_LINES {
        Typeset { pages: t.pages.push(t.ops.push(OpView::End)), ops: page_start(), used: 0 }
    } else {
        t
    }
}

/// Whether a line takes a second one for air: headings and gaps do.
pub open spec fn airy(line: LogicalView) -> bool {
    line.1 || line.0.len() == 0
}

/// One more line; headings and gaps take an extra one.
pub open spec fn set_line(t: Typeset, line: LogicalView) -> Typeset {
    let u = turn_page(t);
    let ops = u.ops.push(OpView::Font(line.1)).push(
        OpView::Write(sanitized(line.0), line.1),
    ).push(OpView::Break);
    if airy(line) {
        Typeset { pages: u.pages, ops: ops.push(OpView::Break), used: u.used + 2 }
    } else {
        Typeset { pages: u.pages, ops, used: u.used + 1 }
    }
}

/// All lines, in order.
pub open spec fn set_lines(lines: Seq<LogicalView>) -> Typeset
    decreases lines.len(),
{
    if lines.len() == 0 {
        Typeset { pages: Seq::empty(), ops: page_start(), used: 0 }
    } else {
        set_line(set_lines(lines.drop_last()), lines.last())
    }
}

/// The pages of some lines.
pub open spec fn pages_of(lines: Seq<LogicalView>) -> Seq<Seq<OpView>> {
    let t = set_lines(lines);
    t.pages.push(t.ops.push(OpView::End))
}

/// The typeset form of a text.
pub open spec fn booklet(input: Seq<char>, s: Seq<char>) -> BookletView {
    BookletView { title: title_of(input), pages: pages_of(logical_text(strip_mark(s))) }
}

/// The string with `?` for what the built-in fonts cannot show.
pub fn sanitize(s: &str) -> (r: String)
    ensures
        r@ == sanitized(s@),
{
    let cs = text::chars_of(s);
    let mut out = String::new();
    for i in 0..cs.len()
        invariant
            cs@ == s@,
            out@ == sanitized(s@).take(i as int),
    {
        let c = cs[i];
        let u = c as u32;
        out.push(
            if (u < 32 && c != '\t') || u > 255 {
                '?'
            } else {
                c
            },
        );
    }
    out
}

/// The lines to typeset for a text.
pub fn logical_lines_of(s: &str) -> (r: Vec<Logical>)
    ensures
        r@.map_values(|l: Logical| (l.0@, l.1)) == logical_text(s@),
{
    let lines = text::lines_of(s);
    let ghost all = lines.deep_view();
    let ghost see = |l: Logical| (l.0@, l.1);
    let mut out: Vec<Logical> = Vec::new();
    assert(out@.map_values(see) =~= logical_lines(all.take(0)));
    for i in 0..lines.len()
        invariant
            all == lines.deep_view(),
            see == (|l: Logical| (l.0@, l.1)),
            out@.map_values(see) == logical_lines(all.take(i as int)),
    {
        let ghost so_far = out@;
        let raw = lines[i].as_str();
        proof {
            assert(all.take(i + 1).drop_last() =~= all.take(i as int));
            assert(all[i as int] == raw@);
        }
        let (level, stripped) = parse_markdown_heading(raw);
        if text::is_blank(stripped) {
            out.push((String::new(), false));
            assert(out@.map_values(see) =~= so_far.map_values(see) + logical_of(raw@));
        } else {
            let wrapped = wrap_line(stripped, LINE_CHARS);
            for j in 0..wrapped.len()
                invariant
                    see == (|l: Logical| (l.0@, l.1)),
                    out@.map_values(see) == so_far.map_values(see) + marked(
                        wrapped.deep_view().take(j as int),
                        level > 0,
                    ),
            {
                let ghost was = out@;
                out.push((wrapped[j].clone(), level > 0));
                proof {
                    let took = wrapped.deep_view().take(j as int);
                    assert(wrapped.deep_view().take(j + 1) =~= took.push(wrapped@[j as int]@));
                    assert(marked(took.push(wrapped@[j as int]@), level > 0) =~= marked(
                        took,
                        level > 0,
                    ).push((wrapped@[j as int]@, level > 0)));
                    assert(out@.map_values(see) =~= was.map_values(see).push(
                        (wrapped@[j as int]@, level > 0),
                    ));
                }
            }
            assert(wrapped.deep_view().take(wrapped@.len() as int) =~= wrapped.deep_view());
        }
    }
    assert(all.take(all.len() as int) =~= all);
    if out.len() == 0 {
        out.push((String::new(), false));
        assert(out@.map_values(see) =~= seq![(Seq::<char>::empty(), false)]);
    }
    out
}

fn start_page() -> (r: Vec<PageOp>)
    ensures
        r.deep_view() == page_start(),
{
    let r = vec![PageOp::Start, PageOp::Home, PageOp::LineHeight];
    assert(r.deep_view() =~= page_start());
    r
}

fn push_op(ops: &mut Vec<PageOp>, op: PageOp)
    ensures
        final(ops).deep_view() == old(ops).deep_view().push(op.deep_view()),
{
    let ghost before = ops.deep_view();
    ops.push(op);
    assert(ops.deep_view() =~= before.push(op.deep_view()));
}

/// Lays lines out on pages.
pub fn paginate(lines: &Vec<Logical>) -> (r: Vec<Vec<PageOp>>)
    ensures
        r.deep_view() == pages_of(lines@.map_values(|l: Logical| (l.0@, l.1))),
{
    let ghost see = |l: Logical| (l.0@, l.1);
    let ghost all = lines@.map_values(see);
    let mut pages: Vec<Vec<PageOp>> = Vec::new();
    let mut ops = start_page();
    let mut used: usize = 0;
    assert(pages.deep_view() =~= Seq::empty());
    for i in 0..lines.len()
        invariant
            see == (|l: Logical| (l.0@, l.1)),
            all == lines@.map_values(see),
            used <= PAGE_LINES + 1,
            (Typeset { pages: pages.deep_view(), ops: ops.deep_view(), used: used as nat })
                == set_lines(all.take(i as int)),
    {
        let ghost t = set_lines(all.take(i as int));
        proof {
            assert(all.take(i + 1).drop_last() =~= all.take(i as int));
            assert(all[i as int] == (lines@[i as int].0@, lines@[i as int].1));
        }
        if used >= PAGE_LINES {
            push_op(&mut ops, PageOp::End);
            let ghost so_far = pages.deep_view();
            let full = ops;
            pages.push(full);
            assert(pages.deep_view() =~= so_far.push(full.deep_view()));
            ops = start_page();
            used = 0;
        }
        let is_heading = lines[i].1;
        push_op(&mut ops, PageOp::Font(is_heading));
        push_op(&mut ops, PageOp::Write(sanitize(lines[i].0.as_str()), is_heading));
        push_op(&mut ops, PageOp::Break);
        if is_heading || lines[i].0.as_str().is_empty() {
            push_op(&mut ops, PageOp::Break);
            used = used + 1;
        }
        used = used + 1;
        assert((Typeset { pages: pages.deep_view(), ops: ops.deep_view(), used: used as nat })
            == set_line(t, all[i as int]));
    }
    assert(all.take(all.len() as int) =~= all);
    push_op(&mut ops, PageOp::End);
    let ghost so_far = pages.deep_view();
    pages.push(ops);
    assert(pages.deep_view() =~= so_far.push(ops.deep_view()));
    pages
}

/// The typeset form of a text or Markdown file.
pub fn text_to_pdf(input: &str, content: &[u8]) -> (r: Booklet)
    ensures
        r.deep_view() == booklet(input@, encoding::lossy(content@)),
        vstd::utf8::valid_utf8(content@) ==> r.deep_view() == booklet(
            input@,
            vstd::utf8::decode_utf8(content@),
        ),
{
    let raw = encoding::lossy_text(content);
    let lines = logical_lines_of(without_mark(raw.as_str()));
    Booklet { title: document_title(input), pages: paginate(&lines) }
}

// ---------------------------------------------------------------------------
// HTML pages
// ---------------------------------------------------------------------------

/// A character in HTML text.
pub open spec fn escaped_char(c: char) -> Seq<char> {
    if c == '&' {
        "&amp;"@
    } else if c == '<' {
        "&lt;"@
    } else if c == '>' {
        "&gt;"@
    } else if c == '"' {
        "&quot;"@
    } else {
        seq![c]
    }
}

/// A text escaped for HTML.
pub open spec fn escaped(s: Seq<char>) -> Seq<char>
    decreases s.len(),
{
    if s.len() == 0 {
        Seq::empty()
    } else {
        escaped(s.drop_last()) + escaped_char(s.last())
    }
}

/// Escape `&<>"` for embedding in HTML body text.
pub fn html_escape(s: &str) -> (r: String)
    ensures
        r@ == escaped(s@),
{
    let cs = text::chars_of(s);
    let mut out = String::new();
    for i in 0..cs.len()
        invariant
            cs@ == s@,
            out@ == escaped(s@.take(i as int)),
    {
        assert(s@.take(i + 1).drop_last() =~= s@.take(i as int));
        let ghost before = out@;
        let c = cs[i];
        if c == '&' {
            out.append("&amp;");
        } else if c == '<' {
            out.append("&lt;");
        } else if c == '>' {
            out.append("&gt;");
        } else if c == '"' {
            out.append("&quot;");
        } else {
            out.push(c);
            assert(out@ =~= before + seq![c]);
        }
    }
    assert(s@.take(s@.len() as int) =~= s@);
    out
}

/// A page body so far, and the lines of the paragraph being read.
#[verifier::ext_equal]
pub struct Body {
    pub html: Seq<char>,
    pub paragraph: Seq<Seq<char>>,
}

/// The body with the paragraph ended.
pub open spec fn end_paragraph(b: Body) -> Body {
    if b.paragraph.len() == 0 {
        b
    } else {
        Body {
            html: b.html + "<p>"@ + text::join(b.paragraph, " "@) + "</p>\n"@,
            paragraph: Seq::empty(),
        }
    }
}

/// A heading in HTML.
pub open spec fn heading_html(level: nat, title: Seq<char>) -> Seq<char> {
    "<h"@ + number::decimal(level) + ">"@ + title + "</h"@ + (number::decimal(level) + ">\n"@)
}

/// One more line: blank lines end a paragraph, headings stand alone.
pub open spec fn add_line(b: Body, raw: Seq<char>) -> Body {
    let (level, stripped) = heading(raw);
    if text::blank(stripped) {
        end_paragraph(b)
    } else if level > 0 {
        let e = end_paragraph(b);
        Body {
            html: e.html + heading_html(level, escaped(text::trim(stripped))),
            paragraph: e.paragraph,
        }
    } else {
        Body { html: b.html, paragraph: b.paragraph.push(escaped(text::trim(stripped))) }
    }
}

/// All lines, in order.
pub open spec fn add_lines(lines: Seq<Seq<char>>) -> Body
    decreases lines.len(),
{
    if lines.len() == 0 {
        Body { html: Seq::empty(), paragraph: Seq::empty() }
    } else {
        add_line(add_lines(lines.drop_last()), lines.last())
    }
}

/// The body of a page; never empty.
pub open spec fn body_html(s: Seq<char>) -> Seq<char> {
    let html = end_paragraph(add_lines(text::lines(s))).html;
    if html.len() == 0 {
        "<p></p>\n"@
    } else {
        html
    }
}

/// A standalone page.
pub open spec fn page_html(title: Seq<char>, body: Seq<char>) -> Seq<char> {
    PAGE_HEAD@ + title + PAGE_STYLE@ + body + PAGE_TAIL@
}

/// What stands before the title of a page.
pub const PAGE_HEAD: &'static str = "<!DOCTYPE html>\n<html lang=\"en\">\n<head>\n<meta charset=\"utf-8\">\n<meta name=\"viewport\" content=\"width=device-width, initial-scale=1\">\n<title>";

/// What stands between the title and the body of a page.
pub const PAGE_STYLE: &'static str = "</title>\n<style>body{max-width:45rem;margin:2rem auto;padding:0 1rem;font-family:system-ui,sans-serif;line-height:1.6}</style>\n</head>\n<body>\n";

/// What stands behind the body of a page.
pub const PAGE_TAIL: &'static str = "</body>\n</html>\n";

/// The page of a text or Markdown file.
pub open spec fn html_of(input: Seq<char>, s: Seq<char>) -> Seq<char> {
    page_html(escaped(title_of(input)), body_html(strip_mark(s)))
}

/// Ends the paragraph being read.
fn flush_paragraph(html: &mut String, paragraph: &mut Vec<String>)
    ensures
        (Body { html: final(html)@, paragraph: final(paragraph).deep_view() }) == end_paragraph(
            Body { html: old(html)@, paragraph: old(paragraph).deep_view() },
        ),
{
    if paragraph.len() > 0 {
        html.append("<p>");
        html.append(text::joined(paragraph, " ").as_str());
        html.append("</p>\n");
        *paragraph = Vec::new();
        assert(paragraph.deep_view() =~= Seq::empty());
    }
}

/// The body of a page.
pub fn html_body(s: &str) -> (r: String)
    ensures
        r@ == body_html(s@),
{
    let lines = text::lines_of(s);
    let ghost all = lines.deep_view();
    let mut html = String::new();
    let mut paragraph: Vec<String> = Vec::new();
    proof {
        assert(html@ =~= Seq::empty());
        assert(paragraph.deep_view() =~= Seq::empty());
    }
    for i in 0..lines.len()
        invariant
            all == lines.deep_view(),
            (Body { html: html@, paragraph: paragraph.deep_view() }) == add_lines(
                all.take(i as int),
            ),
    {
        let raw = lines[i].as_str();
        proof {
            assert(all.take(i + 1).drop_last() =~= all.take(i as int));
            assert(all[i as int] == raw@);
        }
        let (level, stripped) = parse_markdown_heading(raw);
        if text::is_blank(stripped) {
            flush_paragraph(&mut html, &mut paragraph);
        } else if level > 0 {
            flush_paragraph(&mut html, &mut paragraph);
            let number = number::decimal_of(level as u64);
            let title = html_escape(text::trimmed(stripped));
            let mut tag = text::cat5("<h", number.as_str(), ">", title.as_str(), "</h");
            tag.append(text::cat(number.as_str(), ">\n").as_str());
            html.append(tag.as_str());
        } else {
            let ghost so_far = paragraph.deep_view();
            paragraph.push(html_escape(text::trimmed(stripped)));
            assert(paragraph.deep_view() =~= so_far.push(escaped(text::trim(stripped@))));
        }
    }
    assert(all.take(all.len() as int) =~= all);
    flush_paragraph(&mut html, &mut paragraph);
    if html.as_str().is_empty() {
        "<p></p>\n".to_owned()
    } else {
        html
    }
}

/// The page of a text or Markdown file.
pub fn text_to_html(input: &str, content: &[u8]) -> (r: String)
    ensures
        r@ == html_of(input@, encoding::lossy(content@)),
        vstd::utf8::valid_utf8(content@) ==> r@ == html_of(
            input@,
            vstd::utf8::decode_utf8(content@),
        ),
{
    let raw = encoding::lossy_text(content);
    let title = html_escape(document_title(input).as_str());
    let body = html_body(without_mark(raw.as_str()));
    text::cat5(PAGE_HEAD, title.as_str(), PAGE_STYLE, body.as_str(), PAGE_TAIL)
}

// ---------------------------------------------------------------------------
// HTML to text
// ---------------------------------------------------------------------------

/// Text outside tags so far, and whether a tag is being read.
#[verifier::ext_equal]
pub struct Untagged {
    pub text: Seq<char>,
    pub in_tag: bool,
}

/// One more character: a tag ends a line.
pub open spec fn read_char(u: Untagged, c: char) -> Untagged {
    if c == '<' {
        Untagged { text: u.text, in_tag: true }
    } else if c == '>' {
        Untagged {
            text: if u.text.len() > 0 && u.text.last() == '\n' {
                u.text
            } else {
                u.text.push('\n')
            },
            in_tag: false,
        }
    } else if u.in_tag {
        u
    } else {
        Untagged { text: u.text.push(c), in_tag: false }
    }
}

/// All characters, in order.
pub open spec fn untag(html: Seq<char>) -> Untagged
    decreases html.len(),
{
    if html.len() == 0 {
        Untagged { text: Seq::empty(), in_tag: false }
    } else {
        read_char(untag(html.drop_last()), html.last())
    }
}

/// A text with the escaped characters restored.
pub open spec fn unescaped(s: Seq<char>) -> Seq<char> {
    text::replace(
        text::replace(
            text::replace(text::replace(s, "&lt;"@, "<"@), "&gt;"@, ">"@),
            "&quot;"@,
            "\""@,
        ),
        "&amp;"@,
        "&"@,
    )
}

/// Lines kept so far, and how many blank ones were last.
#[verifier::ext_equal]
pub struct Collapsed {
    pub text: Seq<char>,
    pub blanks: nat,
}

/// One more line: two blank ones in a row are kept, no more.
pub open spec fn keep_line(c: Collapsed, line: Seq<char>) -> Collapsed {
    if text::blank(line) {
        Collapsed {
            text: if c.blanks < 2 {
                c.text.push('\n')
            } else {
                c.text
            },
            blanks: c.blanks + 1,
        }
    } else {
        Collapsed { text: (c.text + text::trim_end(line)).push('\n'), blanks: 0 }
    }
}

/// All lines, in order.
pub open spec fn keep_lines(lines: Seq<Seq<char>>) -> Collapsed
    decreases lines.len(),
{
    if lines.len() == 0 {
        Collapsed { text: Seq::empty(), blanks: 0 }
    } else {
        keep_line(keep_lines(lines.drop_last()), lines.last())
    }
}

/// The text of a page.
pub open spec fn plain_text(html: Seq<char>) -> Seq<char> {
    text::trim_start(keep_lines(text::lines(unescaped(untag(html).text))).text) + "\n"@
}

/// The text outside tags.
pub fn strip_tags(html: &str) -> (r: String)
    ensures
        r@ == untag(html@).text,
{
    let cs = text::chars_of(html);
    let mut out = String::new();
    let mut in_tag = false;
    let mut ended = false;
    assert(out@ =~= Seq::empty());
    for i in 0..cs.len()
        invariant
            cs@ == html@,
            (Untagged { text: out@, in_tag }) == untag(html@.take(i as int)),
            ended == (out@.len() > 0 && out@.last() == '\n'),
    {
        assert(html@.take(i + 1).drop_last() =~= html@.take(i as int));
        let c = cs[i];
        if c == '<' {
            in_tag = true;
        } else if c == '>' {
            in_tag = false;
            if !ended {
                out.push('\n');
                ended = true;
            }
        } else if !in_tag {
            out.push(c);
            ended = c == '\n';
        }
    }
    assert(html@.take(html@.len() as int) =~= html@);
    out
}

/// The string with the escaped characters restored.
pub fn html_unescape(s: &str) -> (r: String)
    ensures
        r@ == unescaped(s@),
{
    proof {
        reveal_strlit("&lt;");
        reveal_strlit("&gt;");
        reveal_strlit("&quot;");
        reveal_strlit("&amp;");
    }
    let a = text::replaced(s, "&lt;", "<");
    let b = text::replaced(a.as_str(), "&gt;", ">");
    let c = text::replaced(b.as_str(), "&quot;", "\"");
    text::replaced(c.as_str(), "&amp;", "&")
}

/// The lines of a text, with no more than two blank ones in a row.
pub fn collapse_blanks(s: &str) -> (r: String)
    ensures
        r@ == keep_lines(text::lines(s@)).text,
{
    let lines = text::lines_of(s);
    let ghost all = lines.deep_view();
    let mut out = String::new();
    let mut blanks: usize = 0;
    assert(out@ =~= Seq::empty());
    for i in 0..lines.len()
        invariant
            all == lines.deep_view(),
            blanks <= i,
            (Collapsed { text: out@, blanks: blanks as nat }) == keep_lines(all.take(i as int)),
    {
        let line = lines[i].as_str();
        proof {
            assert(all.take(i + 1).drop_last() =~= all.take(i as int));
            assert(all[i as int] == line@);
        }
        if text::is_blank(line) {
            if blanks < 2 {
                out.push('\n');
            }
            blanks = blanks + 1;
        } else {
            blanks = 0;
            out.append(text::without_tail(line));
            out.push('\n');
        }
    }
    assert(all.take(all.len() as int) =~= all);
    out
}

/// The text of an HTML file: tags stripped, escaped characters restored.
pub fn html_to_text(content: &[u8]) -> (r: String)
    ensures
        r@ == plain_text(encoding::lossy(content@)),
        vstd::utf8::valid_utf8(content@) ==> r@ == plain_text(
            vstd::utf8::decode_utf8(content@),
        ),
{
    let html = encoding::lossy_text(content);
    let bare = strip_tags(html.as_str());
    let plain = html_unescape(bare.as_str());
    let kept = collapse_blanks(plain.as_str());
    text::cat(text::without_lead(kept.as_str()), "\n")
}

// ---------------------------------------------------------------------------
// PDF to text
// ---------------------------------------------------------------------------

/// The result of extracting the text of a PDF: text that was not found or is
/// blank is an error.
pub open spec fn pdf_outcome(
    label: Seq<char>,
    extracted: Result<Seq<char>, Seq<char>>,
) -> Result<Seq<char>, Failure> {
    match extracted {
        Err(why) => Err(
            Failure::MalformedData {
                path: label,
                format: "PDF"@,
                reason: "cannot extract text: "@ + why,
            },
        ),
        Ok(s) => if text::blank(s) {
            Err(
                Failure::MalformedData {
                    path: label,
                    format: "PDF"@,
                    reason: "no embedded text found — this PDF may be scanned images; OCR is not supported yet"@,
                },
            )
        } else {
            Ok(s)
        },
    }
}

/// The text of a PDF, or why there is none.
pub fn pdf_to_text(label: &str, extracted: Result<String, String>) -> (r: Result<
    String,
    ConversionError,
>)
    ensures
        match (r, pdf_outcome(
            label@,
            match extracted {
                Ok(s) => Ok(s@),
                Err(why) => Err(why@),
            },
        )) {
            (Ok(s), Ok(t)) => s@ == t,
            (Err(e), Err(f)) => e.deep_view() == f,
            _ => false,
        },
{
    match extracted {
        Err(why) => Err(
            ConversionError::MalformedData {
                path: label.to_owned(),
                format: "PDF".to_owned(),
                reason: text::cat("cannot extract text: ", why.as_str()),
            },
        ),
        Ok(s) => if text::is_blank(s.as_str()) {
            Err(
                ConversionError::MalformedData {
                    path: label.to_owned(),
                    format: "PDF".to_owned(),
                    reason: "no embedded text found — this PDF may be scanned images; OCR is not supported yet".to_owned(),
                },
            )
        } else {
            Ok(s)
        },
    }
}

// ---------------------------------------------------------------------------
// Conversion
// ---------------------------------------------------------------------------

/// The formats that hold plain text.
pub open spec fn is_plain(e: Seq<char>) -> bool {
    e == "txt"@ || is_markup(e)
}

/// Whether a document is its own conversion: plain text stays plain text.
pub open spec fn is_copied(from: Seq<char>, to: Seq<char>) -> bool {
    (from == "txt"@ && is_plain(to)) || (is_markup(from) && to == "txt"@) || (from == "md"@ && to
        == "md"@)
}

/// What comes of a document.
pub open spec fn document_outcome(input: Seq<char>, source: SourceView, output: Seq<char>) -> Result<
    DeliveryView,
    Failure,
> {
    let from = converters::ext(input);
    let to = converters::ext(output);
    let draws = is_plain(from) && (to == "pdf"@ || to == "html"@);
    let reads = (from == "pdf"@ || from == "html"@) && is_plain(to);
    if draws || reads {
        match source.content {
            Err(reason) => Err(Failure::UnreadableInput { path: input, reason }),
            Ok(bytes) => Ok(
                if to == "pdf"@ {
                    DeliveryView::Pages(booklet(input, encoding::lossy(bytes)))
                } else if to == "html"@ {
                    DeliveryView::Text(html_of(input, encoding::lossy(bytes)))
                } else if from == "pdf"@ {
                    DeliveryView::ExtractPdf(bytes)
                } else {
                    DeliveryView::Text(plain_text(encoding::lossy(bytes)))
                },
            ),
        }
    } else if is_copied(from, to) {
        Ok(DeliveryView::Copy)
    } else {
        Err(Failure::UnsupportedConversion { from, to })
    }
}

/// Whether a format holds plain text.
fn plain_ext(e: &str) -> (r: bool)
    ensures
        r == is_plain(e@),
{
    text::same(e, "txt") || text::same(e, "md") || text::same(e, "markdown")
}

/// Whether a document is its own conversion.
pub fn copies(from: &str, to: &str) -> (r: bool)
    ensures
        r == is_copied(from@, to@),
{
    (text::same(from, "txt") && plain_ext(to)) || (plain_ext(from) && text::same(to, "txt")) || (
    text::same(from, "md") && text::same(to, "md"))
}

/// Works out the conversion of a document.
pub fn convert_document(input: &str, source: Source, output: &str) -> (r: Result<
    Delivery,
    ConversionError,
>)
    ensures
        converters::delivery_result(r) == document_outcome(input@, source.deep_view(), output@),
{
    let from = converters::extension_of(input);
    let to = converters::extension_of(output);
    let (f, t) = (from.as_str(), to.as_str());
    let (from_plain, to_plain) = (plain_ext(f), plain_ext(t));
    let (to_pdf, to_html) = (text::same(t, "pdf"), text::same(t, "html"));
    let from_pdf = text::same(f, "pdf");
    let draws = from_plain && (to_pdf || to_html);
    let reads = (from_pdf || text::same(f, "html")) && to_plain;
    if draws || reads {
        let bytes = match source.content {
            Ok(b) => b,
            Err(reason) => {
                return Err(ConversionError::UnreadableInput { path: input.to_owned(), reason });
            },
        };
        return Ok(
            if to_pdf {
                Delivery::Pages(text_to_pdf(input, bytes.as_slice()))
            } else if to_html {
                Delivery::Text(text_to_html(input, bytes.as_slice()))
            } else if from_pdf {
                Delivery::ExtractPdf(bytes)
            } else {
                Delivery::Text(html_to_text(bytes.as_slice()))
            },
        );
    }
    if copies(f, t) {
        return Ok(Delivery::Copy);
    }
    Err(ConversionError::UnsupportedConversion { from, to })
}

/// The engine for documents.
pub struct DocumentConverter;

impl Converter for DocumentConverter {
    open spec fn allows(
        &self,
        input: Seq<char>,
        source: SourceView,
        output: Seq<char>,
        opts: ConvertOptions,
        r: Result<DeliveryView, Failure>,
    ) -> bool {
        r == document_outcome(input, source, output)
    }

    fn convert(&self, input: &str, source: Source, output: &str, _opts: &ConvertOptions) -> (r:
        Result<Delivery, ConversionError>) {
        convert_document(input, source, output)
    }
}

} // verus!
