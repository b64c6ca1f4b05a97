//! What the pages of a document owe to its text.
use vstd::prelude::*;

use crate::converters::document;
use crate::converters::document::LogicalView;
use crate::converters::document::OpView;
use crate::converters::document_laws;
use crate::converters::document_laws::{ink, ink_of};
use crate::paths;
use crate::text;
use crate::text_laws;

verus! {

// ---------------------------------------------------------------------------
// Letters
// ---------------------------------------------------------------------------

/// The characters of a text that no layout may lose: all but white space and
/// the `#` of heading marks.
pub open spec fn letters(s: Seq<char>) -> Seq<char>
    decreases s.len(),
{
    if s.len() == 0 {
        Seq::empty()
    } else if text::is_space(s.last()) || s.last() == '#' {
        letters(s.drop_last())
    } else {
        letters(s.drop_last()).push(s.last())
    }
}

/// Characters as the built-in fonts show them: a `?` for each that they lack.
pub open spec fn as_shown(s: Seq<char>) -> Seq<char> {
    s.map_values(
        |c: char|
            if 32 <= c as u32 && c as u32 <= 255 {
                c
            } else {
                '?'
            },
    )
}

/// What the pages write, one text behind the other.
pub open spec fn written(pages: Seq<Seq<OpView>>) -> Seq<char>
    decreases pages.len(),
{
    if pages.len() == 0 {
        Seq::empty()
    } else {
        written(pages.drop_last()) + page_text(pages.last())
    }
}

/// What a page writes.
pub open spec fn page_text(ops: Seq<OpView>) -> Seq<char>
    decreases ops.len(),
{
    if ops.len() == 0 {
        Seq::empty()
    } else {
        match ops.last() {
            OpView::Write(s, _) => page_text(ops.drop_last()) + s,
            _ => page_text(ops.drop_last()),
        }
    }
}

proof fn lemma_letters_concat(a: Seq<char>, b: Seq<char>)
    ensures
        letters(a + b) == letters(a) + letters(b),
    decreases b.len(),
{
    if b.len() == 0 {
        assert(a + b =~= a);
        assert(letters(a) + letters(b) =~= letters(a));
    } else {
        lemma_letters_concat(a, b.drop_last());
        assert((a + b).drop_last() =~= a + b.drop_last());
        assert((a + b).last() == b.last());
        assert((letters(a) + letters(b.drop_last())).push(b.last()) =~= letters(a) + letters(
            b.drop_last(),
        ).push(b.last()));
    }
}

proof fn lemma_letters_one(c: char)
    ensures
        letters(seq![c]) == (if text::is_space(c) || c == '#' {
            Seq::empty()
        } else {
            seq![c]
        }),
{
    assert(seq![c].drop_last() =~= Seq::<char>::empty());
    assert(letters(seq![c].drop_last()) =~= Seq::<char>::empty());
    assert(Seq::<char>::empty().push(c) =~= seq![c]);
    assert(seq![c].last() == c);
}

proof fn lemma_letters_of_ink(s: Seq<char>)
    ensures
        letters(ink(s)) == letters(s),
    decreases s.len(),
{
    if s.len() > 0 {
        lemma_letters_of_ink(s.drop_last());
        if !text::is_space(s.last()) {
            assert(ink(s).drop_last() =~= ink(s.drop_last()));
            assert(ink(s).last() == s.last());
        }
    }
}

/// Dropping a first character that is no letter loses none.
proof fn lemma_letters_skip(s: Seq<char>)
    requires
        s.len() > 0,
        text::is_space(s[0]) || s[0] == '#',
    ensures
        letters(s.skip(1)) == letters(s),
{
    assert(s =~= seq![s[0]] + s.skip(1));
    lemma_letters_concat(seq![s[0]], s.skip(1));
    lemma_letters_one(s[0]);
    assert(Seq::<char>::empty() + letters(s.skip(1)) =~= letters(s.skip(1)));
}

proof fn lemma_letters_trim_start(s: Seq<char>)
    ensures
        letters(text::trim_start(s)) == letters(s),
    decreases s.len(),
{
    if s.len() > 0 && text::is_space(s[0]) {
        lemma_letters_skip(s);
        assert(s.drop_first() =~= s.skip(1));
        lemma_letters_trim_start(s.drop_first());
    }
}

proof fn lemma_letters_trim_end(s: Seq<char>)
    ensures
        letters(text::trim_end(s)) == letters(s),
    decreases s.len(),
{
    if s.len() > 0 && text::is_space(s.last()) {
        lemma_letters_trim_end(s.drop_last());
    }
}

proof fn lemma_letters_strip_hashes(s: Seq<char>)
    ensures
        letters(document::strip_hashes(s)) == letters(s),
    decreases s.len(),
{
    if s.len() > 0 && s.last() == '#' {
        lemma_letters_strip_hashes(s.drop_last());
    }
}

proof fn lemma_letters_hashes(s: Seq<char>)
    ensures
        document::hashes(s) <= s.len(),
        letters(s.skip(document::hashes(s) as int)) == letters(s),
    decreases s.len(),
{
    if s.len() > 0 && s[0] == '#' {
        lemma_letters_skip(s);
        lemma_letters_hashes(s.skip(1));
        let n = document::hashes(s.skip(1)) as int;
        assert(s.skip(1).skip(n) =~= s.skip(n + 1));
    } else {
        assert(s.skip(0) =~= s);
    }
}

/// What a line shows has all its letters, in order.
pub proof fn law_headings_keep_letters(line: Seq<char>)
    ensures
        letters(document::heading(line).1) == letters(line),
{
    let trimmed = text::trim_start(line);
    let level = document::hashes(trimmed);
    lemma_letters_trim_start(line);
    lemma_letters_trim_end(line);
    lemma_letters_hashes(trimmed);
    let rest = trimmed.skip(level as int);
    lemma_letters_trim_start(rest);
    lemma_letters_trim_end(text::trim_start(rest));
    let title = text::trim(rest);
    if title.len() > 0 && title.last() == '#' {
        let a = title.drop_last();
        lemma_letters_trim_end(a);
        lemma_letters_strip_hashes(text::trim_end(a));
        lemma_letters_trim_end(document::strip_hashes(text::trim_end(a)));
    }
}

// ---------------------------------------------------------------------------
// Headings
// ---------------------------------------------------------------------------

/// So many hashes.
pub open spec fn hash_marks(n: nat) -> Seq<char> {
    Seq::new(n, |i: int| '#')
}

proof fn lemma_hash_marks(n: nat, rest: Seq<char>)
    requires
        rest.len() > 0 ==> rest[0] != '#',
    ensures
        document::hashes(hash_marks(n) + rest) == n,
        (hash_marks(n) + rest).skip(n as int) == rest,
    decreases n,
{
    let s = hash_marks(n) + rest;
    assert(s.skip(n as int) =~= rest);
    if n > 0 {
        lemma_hash_marks((n - 1) as nat, rest);
        assert(s.skip(1) =~= hash_marks((n - 1) as nat) + rest);
    } else {
        assert(s =~= rest);
    }
}

proof fn lemma_strip_marks(rest: Seq<char>, n: nat)
    requires
        rest.len() > 0 ==> rest.last() != '#',
    ensures
        document::strip_hashes(rest + hash_marks(n)) == rest,
    decreases n,
{
    let s = rest + hash_marks(n);
    if n > 0 {
        assert(s.drop_last() =~= rest + hash_marks((n - 1) as nat));
        assert(s.last() == '#');
        lemma_strip_marks(rest, (n - 1) as nat);
    } else {
        assert(s =~= rest);
    }
}

/// Whether a text can be the title of a heading as it stands: white space and
/// hashes are not at its ends.
pub open spec fn is_title(s: Seq<char>) -> bool {
    s.len() > 0 && !text::is_space(s[0]) && !text::is_space(s.last()) && s.last() != '#'
}

/// One to six hashes and a blank make a heading of that level, whatever white
/// space leads; more hashes, and hashes that no blank follows, do not.
pub proof fn law_heading_marks(lead: Seq<char>, n: nat, title: Seq<char>)
    requires
        text::blank(lead),
        n > 0,
        is_title(title),
    ensures
        n <= 6 ==> document::heading(lead + (hash_marks(n) + (seq![' '] + title))) == (n, title),
        n > 6 ==> document::heading(lead + (hash_marks(n) + (seq![' '] + title))).0 == 0,
        title[0] != '#' ==> document::heading(lead + (hash_marks(n) + title)).0 == 0,
{
    let rest = seq![' '] + title;
    let line = hash_marks(n) + rest;
    assert(line[0] == '#');
    text_laws::lemma_trim_lead(lead, line);
    lemma_hash_marks(n, rest);
    assert(line[n as int] == ' ');
    lemma_blank_one();
    text_laws::lemma_trim_lead(seq![' '], title);
    text_laws::lemma_trim_trail(title, Seq::empty());
    assert(title + Seq::<char>::empty() =~= title);
    if title[0] != '#' {
        let tag = hash_marks(n) + title;
        assert(tag[0] == '#');
        text_laws::lemma_trim_lead(lead, tag);
        lemma_hash_marks(n, title);
        assert(tag[n as int] == title[0]);
        assert(!text::is_space(title[0]));
        assert(text::is_space(' ') && text::is_space('\t'));
    }
}

proof fn lemma_blank_one()
    ensures
        text::blank(seq![' ']),
{
    assert forall|i: int| 0 <= i < seq![' '].len() implies text::is_space(
        #[trigger] seq![' '][i],
    ) by {}
}

/// Hashes that close a heading are not part of it.
pub proof fn law_closing_marks(n: nat, title: Seq<char>, m: nat)
    requires
        1 <= n <= 6,
        is_title(title),
        m > 0,
    ensures
        document::heading(hash_marks(n) + (seq![' '] + (title + (seq![' '] + hash_marks(m))))) == (
            n,
            title,
        ),
{
    let closed = title + (seq![' '] + hash_marks(m));
    let rest = seq![' '] + closed;
    let line = hash_marks(n) + rest;
    let empty = Seq::<char>::empty();
    assert(line[0] == '#');
    text_laws::lemma_trim_lead(empty, line);
    assert(empty + line =~= line);
    lemma_hash_marks(n, rest);
    assert(line[n as int] == ' ');
    lemma_blank_one();
    assert(closed[0] == title[0]);
    assert(closed.last() == '#');
    text_laws::lemma_trim_lead(seq![' '], closed);
    text_laws::lemma_trim_trail(closed, empty);
    assert(closed + empty =~= closed);
    let cut = closed.drop_last();
    let spaced = title + seq![' '];
    if m == 1 {
        assert(cut =~= spaced);
        text_laws::lemma_trim_trail(title, seq![' ']);
        lemma_strip_marks(title, 0);
        assert(title + hash_marks(0) =~= title);
        text_laws::lemma_trim_trail(title, empty);
        assert(title + empty =~= title);
    } else {
        assert(cut =~= spaced + hash_marks((m - 1) as nat));
        assert(cut.last() == '#');
        text_laws::lemma_trim_trail(cut, empty);
        assert(cut + empty =~= cut);
        lemma_strip_marks(spaced, (m - 1) as nat);
        text_laws::lemma_trim_trail(title, seq![' ']);
    }
}

/// A line that does not start with a hash is body text, and shows all of itself
/// but the white space at its end.
pub proof fn law_body_lines(line: Seq<char>, trail: Seq<char>)
    requires
        text::blank(trail),
        line.len() > 0 ==> !text::is_space(line.last()),
        !(text::trim_start(line + trail).len() > 0 && text::trim_start(line + trail)[0] == '#'),
    ensures
        document::heading(line + trail) == (0nat, line),
{
    text_laws::lemma_trim_trail(line, trail);
}

/// A heading is set as one, and body text is not.
pub proof fn law_headings_stand_out(raw: Seq<char>, i: int)
    requires
        0 <= i < document::logical_of(raw).len(),
        document::logical_of(raw)[i].0.len() > 0,
    ensures
        document::logical_of(raw)[i].1 <==> 1 <= document::heading(raw).0,
{
}

// ---------------------------------------------------------------------------
// How a page is set
// ---------------------------------------------------------------------------

/// Whether a text on a page stands in its font, with its line ended behind it,
/// and with one more line of air where it is a heading or a gap.
pub open spec fn is_set(ops: Seq<OpView>, j: int) -> bool {
    ops[j] matches OpView::Write(s, large) ==> {
        &&& 4 <= j < ops.len() - 1
        &&& ops[j - 1] == OpView::Font(large)
        &&& ops[j + 1] is Break
        &&& large || s.len() == 0 <==> j + 2 < ops.len() && ops[j + 2] is Break
    }
}

/// Whether a page starts at its upper left corner, and every text on it is set.
pub open spec fn is_page(ops: Seq<OpView>) -> bool {
    &&& ops.len() >= 3
    &&& ops[0] is Start
    &&& ops[1] is Home
    &&& ops[2] is LineHeight
    &&& forall|j: int| 0 <= j < ops.len() ==> #[trigger] is_set(ops, j)
}

proof fn lemma_add_op(ops: Seq<OpView>, op: OpView)
    requires
        is_page(ops),
        !(op is Break) && !(op is Write),
    ensures
        is_page(ops.push(op)),
{
    let now = ops.push(op);
    assert forall|j: int| 0 <= j < now.len() implies #[trigger] is_set(now, j) by {
        if j < ops.len() {
            assert(is_set(ops, j));
            assert(now[j] == ops[j]);
        }
    }
}

proof fn lemma_set_line(ops: Seq<OpView>, line: LogicalView)
    requires
        is_page(ops),
    ensures
        ({
            let short = ops.push(OpView::Font(line.1)).push(
                OpView::Write(document::sanitized(line.0), line.1),
            ).push(OpView::Break);
            is_page(
                if document::airy(line) {
                    short.push(OpView::Break)
                } else {
                    short
                },
            )
        }),
{
    let font = ops.push(OpView::Font(line.1));
    lemma_add_op(ops, OpView::Font(line.1));
    let short = font.push(OpView::Write(document::sanitized(line.0), line.1)).push(OpView::Break);
    let now = if document::airy(line) {
        short.push(OpView::Break)
    } else {
        short
    };
    assert forall|j: int| 0 <= j < now.len() implies #[trigger] is_set(now, j) by {
        if j < ops.len() {
            assert(is_set(font, j));
            assert(now[j] == font[j]);
            assert(now[ops.len() as int] == OpView::Font(line.1));
            assert(now[ops.len() as int + 1] is Write);
        }
    }
}

proof fn lemma_set_lines(lines: Seq<LogicalView>)
    ensures
        is_page(document::set_lines(lines).ops),
        forall|k: int|
            0 <= k < document::set_lines(lines).pages.len() ==> {
                let page = #[trigger] document::set_lines(lines).pages[k];
                is_page(page) && page.last() is End
            },
    decreases lines.len(),
{
    if lines.len() > 0 {
        let rest = lines.drop_last();
        lemma_set_lines(rest);
        let t = document::set_lines(rest);
        let u = document::turn_page(t);
        lemma_add_op(t.ops, OpView::End);
        assert(is_page(document::page_start()));
        lemma_set_line(u.ops, lines.last());
    }
}

/// Every page starts at its upper left corner and ends; every text on it is in
/// its font, on a line of its own, with air behind headings and gaps.
pub proof fn law_pages_are_set(lines: Seq<LogicalView>, i: int)
    requires
        0 <= i < document::pages_of(lines).len(),
    ensures
        is_page(document::pages_of(lines)[i]),
        document::pages_of(lines)[i].last() is End,
{
    lemma_set_lines(lines);
    let t = document::set_lines(lines);
    lemma_add_op(t.ops, OpView::End);
    if i < t.pages.len() {
        assert(document::pages_of(lines)[i] == t.pages[i]);
    }
}

/// No line on a page is longer than 73 characters, and a document has a page.
pub proof fn law_lines_fit_the_page(input: Seq<char>, s: Seq<char>, k: int)
    requires
        0 <= k < document_laws::all_texts(document::booklet(input, s).pages).len(),
    ensures
        document_laws::all_texts(document::booklet(input, s).pages)[k].0.len() <= 73,
        document::booklet(input, s).pages.len() >= 1,
{
    let lines = document::logical_text(document::strip_mark(s));
    document_laws::law_pages_keep_lines(lines);
    lemma_logical_fits(text::lines(document::strip_mark(s)));
}

proof fn lemma_logical_fits(lines: Seq<Seq<char>>)
    ensures
        forall|k: int|
            0 <= k < document::logical_lines(lines).len() ==> (#[trigger] document::logical_lines(
                lines,
            )[k]).0.len() <= 73,
    decreases lines.len(),
{
    if lines.len() > 0 {
        lemma_logical_fits(lines.drop_last());
        let before = document::logical_lines(lines.drop_last());
        let stripped = document::heading(lines.last()).1;
        document_laws::law_wrap_fits(stripped, document::LINE_CHARS as nat);
        let all = document::logical_lines(lines);
        assert forall|k: int| 0 <= k < all.len() implies (#[trigger] all[k]).0.len() <= 73 by {
            if k < before.len() {
                assert(all[k] == before[k]);
            } else if !text::blank(stripped) {
                let wrapped = document::wrap(stripped, document::LINE_CHARS as nat);
                assert(all[k].0 == wrapped[k - before.len()]);
            }
        }
    }
}

// ---------------------------------------------------------------------------
// Lines
// ---------------------------------------------------------------------------

proof fn lemma_ink_split(s: Seq<char>)
    ensures
        text::split(s, '\n').len() >= 1,
        ink_of(text::split(s, '\n')) == ink(s),
    decreases s.len(),
{
    let empty = Seq::<char>::empty();
    assert(ink(empty) =~= empty);
    assert(ink_of(Seq::<Seq<char>>::empty()) =~= empty);
    if s.len() == 0 {
        document_laws::lemma_ink_push(Seq::empty(), empty);
        assert(Seq::<Seq<char>>::empty().push(empty) =~= seq![empty]);
        assert(empty + empty =~= empty);
        assert(text::split(s, '\n') =~= seq![empty]);
    } else {
        let before = text::split(s.drop_last(), '\n');
        lemma_ink_split(s.drop_last());
        if s.last() == '\n' {
            document_laws::lemma_ink_push(before, empty);
            assert(ink_of(before) + empty =~= ink_of(before));
        } else {
            let head = before.drop_last();
            let piece = before.last();
            document_laws::lemma_ink_push(head, piece);
            assert(head.push(piece) =~= before);
            document_laws::lemma_ink_push(head, piece.push(s.last()));
            assert(piece.push(s.last()).drop_last() =~= piece);
            if !text::is_space(s.last()) {
                assert(ink_of(head) + ink(piece).push(s.last()) =~= (ink_of(head) + ink(piece)).push(
                    s.last(),
                ));
            }
        }
    }
}

proof fn lemma_ink_stripped(v: Seq<Seq<char>>)
    ensures
        ink_of(v.map_values(|l: Seq<char>| text::strip_cr(l))) == ink_of(v),
    decreases v.len(),
{
    let w = v.map_values(|l: Seq<char>| text::strip_cr(l));
    if v.len() > 0 {
        lemma_ink_stripped(v.drop_last());
        assert(w.drop_last() =~= v.drop_last().map_values(|l: Seq<char>| text::strip_cr(l)));
        assert(w.last() == text::strip_cr(v.last()));
    }
}

/// The lines of a text have all its visible characters, in order.
pub proof fn law_lines_keep_ink(s: Seq<char>)
    ensures
        ink_of(text::lines(s)) == ink(s),
{
    let pieces = text::split(s, '\n');
    lemma_ink_split(s);
    let head = pieces.drop_last();
    let ended = head.map_values(|l: Seq<char>| text::strip_cr(l));
    lemma_ink_stripped(head);
    document_laws::lemma_ink_push(head, pieces.last());
    assert(head.push(pieces.last()) =~= pieces);
    document_laws::lemma_ink_push(ended, pieces.last());
    if pieces.last().len() == 0 {
        assert(ink(pieces.last()) =~= Seq::<char>::empty());
        assert(ink_of(head) + Seq::<char>::empty() =~= ink_of(head));
    }
}

/// The letters of some lines, in order.
spec fn letters_of(lines: Seq<Seq<char>>) -> Seq<char>
    decreases lines.len(),
{
    if lines.len() == 0 {
        Seq::empty()
    } else {
        letters_of(lines.drop_last()) + letters(lines.last())
    }
}

proof fn lemma_letters_of_concat(a: Seq<Seq<char>>, b: Seq<Seq<char>>)
    ensures
        letters_of(a + b) == letters_of(a) + letters_of(b),
    decreases b.len(),
{
    if b.len() == 0 {
        assert(a + b =~= a);
        assert(letters_of(a) + letters_of(b) =~= letters_of(a));
    } else {
        lemma_letters_of_concat(a, b.drop_last());
        assert((a + b).drop_last() =~= a + b.drop_last());
        assert((a + b).last() == b.last());
        assert((letters_of(a) + letters_of(b.drop_last())) + letters(b.last()) =~= letters_of(a) + (
        letters_of(b.drop_last()) + letters(b.last())));
    }
}

proof fn lemma_letters_of_ink_of(lines: Seq<Seq<char>>)
    ensures
        letters_of(lines) == letters(ink_of(lines)),
    decreases lines.len(),
{
    if lines.len() > 0 {
        lemma_letters_of_ink_of(lines.drop_last());
        lemma_letters_concat(ink_of(lines.drop_last()), ink(lines.last()));
        lemma_letters_of_ink(lines.last());
    }
}

/// The texts of some lines to typeset.
spec fn said(lines: Seq<LogicalView>) -> Seq<Seq<char>> {
    lines.map_values(|l: LogicalView| l.0)
}

proof fn lemma_logical_of(raw: Seq<char>)
    ensures
        letters_of(said(document::logical_of(raw))) == letters(raw),
{
    let (level, stripped) = document::heading(raw);
    let lines = document::logical_of(raw);
    law_headings_keep_letters(raw);
    lemma_letters_of_ink_of(said(lines));
    if text::blank(stripped) {
        lemma_no_ink(stripped);
        lemma_letters_of_ink(stripped);
        assert(said(lines) =~= seq![Seq::<char>::empty()]);
        document_laws::lemma_ink_push(Seq::empty(), Seq::empty());
        assert(Seq::<Seq<char>>::empty().push(Seq::<char>::empty()) =~= said(lines));
        assert(ink_of(said(lines)) =~= Seq::<char>::empty());
    } else {
        let wrapped = document::wrap(stripped, document::LINE_CHARS as nat);
        assert(said(lines) =~= wrapped);
        document_laws::law_wrap_keeps_ink(stripped, document::LINE_CHARS as nat);
        lemma_letters_of_ink(stripped);
    }
}

proof fn lemma_no_ink(s: Seq<char>)
    requires
        text::blank(s),
    ensures
        ink(s) == Seq::<char>::empty(),
    decreases s.len(),
{
    if s.len() > 0 {
        assert(s[s.len() - 1] == s.last());
        assert forall|i: int| 0 <= i < s.drop_last().len() implies text::is_space(
            #[trigger] s.drop_last()[i],
        ) by {
            assert(s.drop_last()[i] == s[i]);
        }
        lemma_no_ink(s.drop_last());
    }
}

proof fn lemma_logical_lines(lines: Seq<Seq<char>>)
    ensures
        letters_of(said(document::logical_lines(lines))) == letters_of(lines),
    decreases lines.len(),
{
    if lines.len() > 0 {
        let before = document::logical_lines(lines.drop_last());
        let more = document::logical_of(lines.last());
        lemma_logical_lines(lines.drop_last());
        lemma_logical_of(lines.last());
        assert(said(before + more) =~= said(before) + said(more));
        lemma_letters_of_concat(said(before), said(more));
    } else {
        assert(said(document::logical_lines(lines)) =~= Seq::<Seq<char>>::empty());
    }
}

proof fn lemma_logical_text(s: Seq<char>)
    ensures
        letters_of(said(document::logical_text(s))) == letters(s),
{
    let all = document::logical_lines(text::lines(s));
    lemma_logical_lines(text::lines(s));
    lemma_letters_of_ink_of(text::lines(s));
    law_lines_keep_ink(s);
    lemma_letters_of_ink(s);
    if all.len() == 0 {
        let one = document::logical_text(s);
        assert(said(all) =~= Seq::<Seq<char>>::empty());
        assert(said(one).drop_last() =~= Seq::<Seq<char>>::empty());
        assert(said(one).last() =~= Seq::<char>::empty());
        assert(letters_of(said(one).drop_last()) + letters(said(one).last()) =~= Seq::<char>::empty());
    }
}

// ---------------------------------------------------------------------------
// Pages
// ---------------------------------------------------------------------------

/// A text whose only white space are plain blanks.
spec fn plainly_spaced(s: Seq<char>) -> bool {
    forall|i: int| 0 <= i < s.len() ==> (!text::is_space(#[trigger] s[i]) || s[i]
            == ' ')
}

proof fn lemma_letters_shown(s: Seq<char>)
    requires
        plainly_spaced(s),
    ensures
        letters(document::sanitized(s)) == as_shown(letters(s)),
    decreases s.len(),
{
    let t = document::sanitized(s);
    if s.len() == 0 {
        assert(letters(t) =~= as_shown(letters(s)));
    } else {
        let r = s.drop_last();
        assert forall|i: int| 0 <= i < r.len() implies (!text::is_space(#[trigger] r[i]) || r[i]
            == ' ') by {
            assert(r[i] == s[i]);
        }
        lemma_letters_shown(r);
        assert(t.drop_last() =~= document::sanitized(r));
        assert(s[s.len() - 1] == s.last());
        assert(t.last() == document::printable(s.last()));
        if !text::is_space(s.last()) && s.last() != '#' {
            assert(as_shown(letters(r).push(s.last())) =~= as_shown(letters(r)).push(t.last()));
        }
    }
}

proof fn lemma_word_chars(s: Seq<char>)
    ensures
        forall|i: int, j: int|
            0 <= i < text::words(s).len() && 0 <= j < text::words(s)[i].len() ==> !text::is_space(
                #[trigger] text::words(s)[i][j],
            ),
{
    lemma_split_chars(s);
    lemma_non_empty_chars(text::split_spaces(s));
}

spec fn no_spaces(v: Seq<Seq<char>>) -> bool {
    forall|i: int, j: int|
        0 <= i < v.len() && 0 <= j < v[i].len() ==> !text::is_space(#[trigger] v[i][j])
}

proof fn lemma_split_chars(s: Seq<char>)
    ensures
        text::split_spaces(s).len() >= 1,
        no_spaces(text::split_spaces(s)),
    decreases s.len(),
{
    let now = text::split_spaces(s);
    if s.len() > 0 {
        let before = text::split_spaces(s.drop_last());
        lemma_split_chars(s.drop_last());
        assert forall|i: int, j: int|
            0 <= i < now.len() && 0 <= j < now[i].len() implies !text::is_space(
            #[trigger] now[i][j],
        ) by {
            if text::is_space(s.last()) {
                assert(i < before.len());
                assert(now[i] == before[i]);
            } else if i < before.len() - 1 {
                assert(now[i] == before[i]);
            } else {
                assert(now[i] == before[before.len() - 1].push(s.last()));
                if j < before[before.len() - 1].len() {
                    assert(now[i][j] == before[before.len() - 1][j]);
                }
            }
        }
    }
}

proof fn lemma_non_empty_chars(v: Seq<Seq<char>>)
    requires
        no_spaces(v),
    ensures
        no_spaces(text::non_empty(v)),
    decreases v.len(),
{
    let now = text::non_empty(v);
    if v.len() > 0 {
        let r = v.drop_last();
        assert forall|i: int, j: int| 0 <= i < r.len() && 0 <= j < r[i].len() implies !text::is_space(
            #[trigger] r[i][j],
        ) by {
            assert(r[i] == v[i]);
            assert(v[i][j] == r[i][j]);
        }
        lemma_non_empty_chars(r);
        let before = text::non_empty(r);
        assert forall|i: int, j: int|
            0 <= i < now.len() && 0 <= j < now[i].len() implies !text::is_space(
            #[trigger] now[i][j],
        ) by {
            if i < before.len() {
                assert(now[i] == before[i]);
                assert(before[i][j] == now[i][j]);
            } else {
                assert(now[i] == v[v.len() - 1]);
                assert(v[v.len() - 1][j] == now[i][j]);
            }
        }
    }
}

spec fn all_plain(v: Seq<Seq<char>>) -> bool {
    forall|i: int| 0 <= i < v.len() ==> plainly_spaced(#[trigger] v[i])
}

proof fn lemma_piece_chars(word: Seq<char>, width: nat)
    requires
        plainly_spaced(word),
    ensures
        all_plain(document::full_pieces(word, width)),
        plainly_spaced(document::last_piece(word, width)),
    decreases word.len(),
{
    if width > 0 && word.len() > width {
        let head = word.take(width as int);
        let tail = word.skip(width as int);
        assert(plainly_spaced(tail)) by {
            assert forall|i: int| 0 <= i < tail.len() implies (!text::is_space(#[trigger] tail[i]) || tail[i]
            == ' ') by {
                assert(tail[i] == word[i + width]);
            }
        }
        assert(plainly_spaced(head)) by {
            assert forall|i: int| 0 <= i < head.len() implies (!text::is_space(#[trigger] head[i]) || head[i]
            == ' ') by {
                assert(head[i] == word[i]);
            }
        }
        lemma_piece_chars(tail, width);
        let more = document::full_pieces(tail, width);
        let all = document::full_pieces(word, width);
        assert forall|i: int| 0 <= i < all.len() implies plainly_spaced(#[trigger] all[i]) by {
            if i == 0 {
                assert(all[i] == head);
            } else {
                assert(all[i] == more[i - 1]);
            }
        }
    }
}

proof fn lemma_all_plain_push(v: Seq<Seq<char>>, l: Seq<char>)
    requires
        all_plain(v),
        plainly_spaced(l),
    ensures
        all_plain(v.push(l)),
{
    assert forall|i: int| 0 <= i < v.push(l).len() implies plainly_spaced(
        #[trigger] v.push(l)[i],
    ) by {
        if i < v.len() {
            assert(v.push(l)[i] == v[i]);
        }
    }
}

proof fn lemma_fill_chars(words: Seq<Seq<char>>, width: nat)
    requires
        all_plain(words),
    ensures
        all_plain(document::fill(words, width).done),
        plainly_spaced(document::fill(words, width).current),
    decreases words.len(),
{
    if words.len() > 0 {
        let word = words.last();
        let r = words.drop_last();
        assert(words[words.len() - 1] == word);
        assert forall|i: int| 0 <= i < r.len() implies plainly_spaced(#[trigger] r[i]) by {
            assert(r[i] == words[i]);
        }
        lemma_fill_chars(r, width);
        lemma_piece_chars(word, width);
        let w = document::fill(r, width);
        let v = document::split_word(w, word, width);
        let full = document::full_pieces(word, width);
        let rest = document::last_piece(word, width);
        assert(all_plain(v.done) && plainly_spaced(v.current)) by {
            if full.len() > 0 {
                lemma_all_plain_push(w.done, w.current);
                let head = if w.current.len() > 0 {
                    w.done.push(w.current)
                } else {
                    w.done
                };
                assert forall|i: int| 0 <= i < v.done.len() implies plainly_spaced(
                    #[trigger] v.done[i],
                ) by {
                    if i < head.len() {
                        assert(v.done[i] == head[i]);
                    } else {
                        assert(v.done[i] == full[i - head.len()]);
                    }
                }
            }
        }
        lemma_all_plain_push(v.done, v.current);
        let both = v.current.push(' ') + rest;
        assert forall|i: int| 0 <= i < both.len() implies (!text::is_space(#[trigger] both[i]) || both[i]
            == ' ') by {
            if i < v.current.len() {
                assert(both[i] == v.current[i]);
            } else if i > v.current.len() {
                assert(both[i] == rest[i - v.current.len() - 1]);
            }
        }
    }
}

proof fn lemma_wrap_chars(line: Seq<char>, width: nat)
    ensures
        all_plain(document::wrap(line, width)),
{
    let words = text::words(line);
    lemma_word_chars(line);
    assert forall|i: int| 0 <= i < words.len() implies plainly_spaced(#[trigger] words[i]) by {}
    lemma_fill_chars(words, width);
    let w = document::fill(words, width);
    lemma_all_plain_push(w.done, w.current);
}

proof fn lemma_logical_chars(lines: Seq<Seq<char>>)
    ensures
        all_plain(said(document::logical_lines(lines))),
    decreases lines.len(),
{
    if lines.len() > 0 {
        let before = document::logical_lines(lines.drop_last());
        let more = document::logical_of(lines.last());
        lemma_logical_chars(lines.drop_last());
        let (level, stripped) = document::heading(lines.last());
        lemma_wrap_chars(stripped, document::LINE_CHARS as nat);
        let all = said(before + more);
        assert forall|i: int| 0 <= i < all.len() implies plainly_spaced(#[trigger] all[i]) by {
            if i < before.len() {
                assert(all[i] == said(before)[i]);
            } else if text::blank(stripped) {
                assert(all[i] =~= Seq::<char>::empty());
            } else {
                assert(all[i] == document::wrap(stripped, document::LINE_CHARS as nat)[i
                    - before.len()]);
            }
        }
    }
}

proof fn lemma_page_text(ops: Seq<OpView>)
    ensures
        letters(page_text(ops)) == letters_of(said(document_laws::texts(ops))),
    decreases ops.len(),
{
    if ops.len() == 0 {
        assert(said(document_laws::texts(ops)) =~= Seq::<Seq<char>>::empty());
    } else {
        lemma_page_text(ops.drop_last());
        if let OpView::Write(s, h) = ops.last() {
            let before = document_laws::texts(ops.drop_last());
            lemma_letters_concat(page_text(ops.drop_last()), s);
            assert(said(before.push((s, h))).drop_last() =~= said(before));
        }
    }
}

proof fn lemma_written(pages: Seq<Seq<OpView>>)
    ensures
        letters(written(pages)) == letters_of(said(document_laws::all_texts(pages))),
    decreases pages.len(),
{
    if pages.len() == 0 {
        assert(said(document_laws::all_texts(pages)) =~= Seq::<Seq<char>>::empty());
    } else {
        let before = document_laws::all_texts(pages.drop_last());
        let more = document_laws::texts(pages.last());
        lemma_written(pages.drop_last());
        lemma_page_text(pages.last());
        lemma_letters_concat(written(pages.drop_last()), page_text(pages.last()));
        assert(said(before + more) =~= said(before) + said(more));
        lemma_letters_of_concat(said(before), said(more));
    }
}

proof fn lemma_letters_of_shown(lines: Seq<LogicalView>)
    requires
        all_plain(said(lines)),
    ensures
        letters_of(said(document_laws::as_written(lines))) == as_shown(letters_of(said(lines))),
    decreases lines.len(),
{
    let w = document_laws::as_written(lines);
    if lines.len() == 0 {
        assert(letters_of(said(w)) =~= as_shown(letters_of(said(lines))));
    } else {
        let r = lines.drop_last();
        assert forall|i: int| 0 <= i < said(r).len() implies plainly_spaced(
            #[trigger] said(r)[i],
        ) by {
            assert(said(r)[i] == said(lines)[i]);
        }
        lemma_letters_of_shown(r);
        assert(said(lines)[lines.len() - 1] == lines.last().0);
        lemma_letters_shown(lines.last().0);
        assert(said(w).drop_last() =~= said(document_laws::as_written(r)));
        assert(said(lines).drop_last() =~= said(r));
        assert(as_shown(letters_of(said(r)) + letters(lines.last().0)) =~= as_shown(
            letters_of(said(r)),
        ) + as_shown(letters(lines.last().0)));
    }
}

/// Nothing is lost between a text and its pages: apart from white space and
/// heading marks, the pages write all its characters, in order, with a `?` for
/// each that the fonts lack. A byte order mark makes no difference.
pub proof fn law_pages_show_the_text(input: Seq<char>, s: Seq<char>)
    requires
        s.len() > 0 ==> s[0] != '\u{FEFF}',
    ensures
        letters(written(document::booklet(input, s).pages)) == as_shown(letters(s)),
        document::booklet(input, seq!['\u{FEFF}'] + s).pages == document::booklet(input, s).pages,
{
    let lines = document::logical_text(s);
    let pages = document::pages_of(lines);
    assert((seq!['\u{FEFF}'] + s).skip(1) =~= s);
    assert(document::strip_mark(seq!['\u{FEFF}'] + s) == s);
    lemma_logical_text(s);
    lemma_logical_chars(text::lines(s));
    assert(all_plain(said(lines))) by {
        if document::logical_lines(text::lines(s)).len() == 0 {
            assert forall|i: int| 0 <= i < said(lines).len() implies plainly_spaced(
                #[trigger] said(lines)[i],
            ) by {
                assert(said(lines)[i] =~= Seq::<char>::empty());
            }
        }
    }
    document_laws::law_pages_keep_lines(lines);
    lemma_written(pages);
    lemma_letters_of_shown(lines);
}

/// A document is called like its file, without the extension, and one without
/// a file name is called a document.
pub proof fn law_documents_are_named_like_files(input: Seq<char>, stem: Seq<char>, s: Seq<char>)
    ensures
        paths::file_stem(input) == Some(stem) ==> document::booklet(input, s).title == stem,
        paths::file_stem(input) is None ==> document::booklet(input, s).title == "Document"@,
{
}

/// Words that fit on a line of 73 characters together stay on one line.
pub proof fn law_short_lines_stay_whole(v: Seq<Seq<char>>)
    requires
        v.len() > 0,
        forall|k: int| 0 <= k < v.len() ==> text_laws::is_word(#[trigger] v[k]),
        v[0][0] != '#',
        text::join(v, seq![' ']).len() <= 73,
    ensures
        document::logical_of(text::join(v, seq![' '])) == seq![(text::join(v, seq![' ']), false)],
{
    let line = text::join(v, seq![' ']);
    text_laws::law_white_space(' ');
    text_laws::law_words(v, ' ');
    lemma_join_ends(v);
    let none = Seq::<char>::empty();
    assert(line + none =~= line);
    assert(text::blank(none));
    assert(text::trim_start(line) == line) by {
        text_laws::lemma_trim_lead(none, line);
        assert(none + line =~= line);
    }
    law_body_lines(line, none);
    assert(!text::blank(line)) by {
        assert(!text::is_space(line[0]));
    }
    lemma_one_line(v, 73);
    assert(document::wrap(line, 73) =~= seq![line]);
    assert(document::logical_of(line) =~= seq![(line, false)]);
}

/// Joined words start and end with what their first and last word do.
proof fn lemma_join_ends(v: Seq<Seq<char>>)
    requires
        v.len() > 0,
        forall|k: int| 0 <= k < v.len() ==> text_laws::is_word(#[trigger] v[k]),
    ensures
        text::join(v, seq![' ']).len() > 0,
        text::join(v, seq![' '])[0] == v[0][0],
        !text::is_space(text::join(v, seq![' '])[0]),
        !text::is_space(text::join(v, seq![' ']).last()),
    decreases v.len(),
{
    assert(text_laws::is_word(v[0]));
    assert(text_laws::is_word(v[v.len() - 1]));
    if v.len() > 1 {
        let less = v.drop_last();
        assert forall|k: int| 0 <= k < less.len() implies text_laws::is_word(#[trigger] less[k]) by {
            assert(less[k] == v[k]);
        }
        lemma_join_ends(less);
        text_laws::law_join(less, seq![v.last()], seq![' ']);
        text_laws::law_join(seq![v.last()], seq![v.last()], seq![' ']);
        assert(less + seq![v.last()] =~= v);
        assert(seq![seq![v.last()][0]] =~= seq![v.last()]);
    } else {
        text_laws::law_join(v, v, seq![' ']);
        assert(seq![v[0]] =~= v);
    }
}

proof fn lemma_one_line(v: Seq<Seq<char>>, width: nat)
    requires
        v.len() > 0,
        forall|k: int| 0 <= k < v.len() ==> text_laws::is_word(#[trigger] v[k]),
        text::join(v, seq![' ']).len() <= width,
    ensures
        document::fill(v, width).done.len() == 0,
        document::fill(v, width).current == text::join(v, seq![' ']),
    decreases v.len(),
{
    let less = v.drop_last();
    assert(text_laws::is_word(v[v.len() - 1]));
    if v.len() > 1 {
        assert forall|k: int| 0 <= k < less.len() implies text_laws::is_word(#[trigger] less[k]) by {
            assert(less[k] == v[k]);
        }
        text_laws::law_join(less, seq![v.last()], seq![' ']);
        text_laws::law_join(seq![v.last()], seq![v.last()], seq![' ']);
        assert(less + seq![v.last()] =~= v);
        assert(seq![seq![v.last()][0]] =~= seq![v.last()]);
        lemma_one_line(less, width);
        lemma_join_ends(less);
        let before = text::join(less, seq![' ']);
        assert(before + seq![' '] + v.last() =~= before.push(' ') + v.last());
    } else {
        text_laws::law_join(v, v, seq![' ']);
        assert(seq![v[0]] =~= v);
        assert(less =~= Seq::<Seq<char>>::empty());
        assert(document::fill(less, width).current.len() == 0);
        assert(document::fill(less, width).done.len() == 0);
    }
    assert(document::full_pieces(v.last(), width).len() == 0);
    assert(document::last_piece(v.last(), width) == v.last());
}

} // verus!
