//! What a page made of a text gives back as text.
use vstd::prelude::*;

use crate::converters::document;
use crate::converters::document::{Body, Untagged};
use crate::converters::document_laws;
use crate::number;
use crate::paths;
use crate::text;

verus! {

/// Whether a text stands in another between two parts.
pub open spec fn stands_between(s: Seq<char>, a: Seq<char>, part: Seq<char>, b: Seq<char>) -> bool {
    s == a + part + b
}

/// Whether a text stands somewhere in another.
pub open spec fn holds_text(s: Seq<char>, part: Seq<char>) -> bool {
    exists|a: Seq<char>, b: Seq<char>| #[trigger] stands_between(s, a, part, b)
}

/// What holds a part of a text holds what that part holds.
proof fn lemma_holds_chain(s: Seq<char>, a: Seq<char>, p: Seq<char>, b: Seq<char>, part: Seq<char>)
    requires
        s == a + p + b,
        holds_text(p, part),
    ensures
        holds_text(s, part),
{
    let (c, d) = choose|c: Seq<char>, d: Seq<char>| #[trigger] stands_between(p, c, part, d);
    assert(s =~= (a + c) + part + (d + b));
    assert(stands_between(s, a + c, part, d + b));
}

// ---------------------------------------------------------------------------
// Lines
// ---------------------------------------------------------------------------

/// Whether a text holds no line feed.
pub open spec fn one_line(s: Seq<char>) -> bool {
    forall|i: int| 0 <= i < s.len() ==> s[i] != '\n'
}

/// Whether a text is visible from its first to its last character, on one line.
pub open spec fn is_shown(s: Seq<char>) -> bool {
    &&& s.len() > 0
    &&& one_line(s)
    &&& !text::is_space(s[0])
    &&& !text::is_space(s.last())
}

proof fn lemma_trim_start_line(s: Seq<char>)
    requires
        one_line(s),
    ensures
        one_line(text::trim_start(s)),
        text::trim_start(s).len() > 0 ==> !text::is_space(text::trim_start(s)[0]),
    decreases s.len(),
{
    if s.len() > 0 && text::is_space(s[0]) {
        lemma_trim_start_line(s.drop_first());
    }
}

proof fn lemma_trim_end_line(s: Seq<char>)
    requires
        one_line(s),
    ensures
        one_line(text::trim_end(s)),
        text::trim_end(s).len() > 0 ==> !text::is_space(text::trim_end(s).last())
            && text::trim_end(s)[0] == s[0],
    decreases s.len(),
{
    if s.len() > 0 && text::is_space(s.last()) {
        lemma_trim_end_line(s.drop_last());
    }
}

proof fn lemma_hashes_line(s: Seq<char>)
    requires
        one_line(s),
    ensures
        one_line(document::strip_hashes(s)),
    decreases s.len(),
{
    if s.len() > 0 && s.last() == '#' {
        lemma_hashes_line(s.drop_last());
    }
}

/// What is shown of a line.
pub open spec fn shown(line: Seq<char>) -> Seq<char> {
    text::trim(document::heading(line).1)
}

proof fn lemma_shown(line: Seq<char>)
    requires
        one_line(line),
        !text::blank(document::heading(line).1),
    ensures
        is_shown(shown(line)),
{
    let stripped = document::heading(line).1;
    let trimmed = text::trim_start(line);
    let level = document::hashes(trimmed);
    lemma_trim_start_line(line);
    lemma_trim_end_line(line);
    if document::heading(line).0 > 0 {
        let rest = trimmed.skip(level as int);
        lemma_trim_start_line(rest);
        lemma_trim_end_line(text::trim_start(rest));
        let title = text::trim(rest);
        assert(one_line(title));
        if title.len() > 0 && title.last() == '#' {
            let cut = title.drop_last();
            lemma_trim_end_line(cut);
            lemma_hashes_line(text::trim_end(cut));
            lemma_trim_end_line(document::strip_hashes(text::trim_end(cut)));
        }
    }
    assert(one_line(stripped));
    text::lemma_trim_blank(stripped);
    lemma_trim_start_line(stripped);
    lemma_trim_end_line(text::trim_start(stripped));
}

/// No line of a text holds a line feed.
proof fn lemma_lines_are_lines(s: Seq<char>)
    ensures
        forall|k: int| 0 <= k < text::lines(s).len() ==> one_line(#[trigger] text::lines(s)[k]),
{
    paths::lemma_split_pieces(s, '\n');
    text::lemma_split_len(s, '\n');
    let pieces = text::split(s, '\n');
    assert forall|k: int| 0 <= k < text::lines(s).len() implies one_line(
        #[trigger] text::lines(s)[k],
    ) by {
        let line = text::lines(s)[k];
        assert(!pieces[k].contains('\n'));
        assert forall|i: int| 0 <= i < line.len() implies line[i] != '\n' by {
            assert(pieces[k][i] == line[i]);
        }
    }
}

proof fn lemma_split_at(x: Seq<char>, y: Seq<char>)
    ensures
        text::split(x + seq!['\n'] + y, '\n') == text::split(x, '\n') + text::split(y, '\n'),
    decreases y.len(),
{
    let s = x + seq!['\n'] + y;
    text::lemma_split_len(x, '\n');
    text::lemma_split_len(y, '\n');
    if y.len() == 0 {
        assert(s.drop_last() =~= x);
        assert(s.last() == '\n');
        assert(text::split(x, '\n').push(Seq::empty()) =~= text::split(x, '\n') + text::split(
            y,
            '\n',
        ));
    } else {
        lemma_split_at(x, y.drop_last());
        text::lemma_split_len(y.drop_last(), '\n');
        assert(s.drop_last() =~= x + seq!['\n'] + y.drop_last());
        assert(s.last() == y.last());
        let a = text::split(x, '\n');
        let b = text::split(y.drop_last(), '\n');
        assert((a + b).last() == b.last());
        assert((a + b).drop_last() =~= a + b.drop_last());
        assert(text::split(s, '\n') =~= a + text::split(y, '\n'));
    }
}

/// A text between two line feeds is a line.
proof fn lemma_is_line(a: Seq<char>, p: Seq<char>, b: Seq<char>) -> (k: int)
    requires
        is_shown(p),
    ensures
        0 <= k < text::lines(a + seq!['\n'] + p + seq!['\n'] + b).len(),
        text::lines(a + seq!['\n'] + p + seq!['\n'] + b)[k] == p,
{
    let s = a + seq!['\n'] + p + seq!['\n'] + b;
    let empty = Seq::<char>::empty();
    lemma_split_at(a, p);
    lemma_split_at(a + seq!['\n'] + p, b);
    assert(!p.contains('\n'));
    paths::lemma_split_extend(empty, p, '\n');
    assert(empty + p =~= p);
    assert(text::split(empty, '\n') =~= seq![empty]);
    assert(seq![empty].drop_last() =~= Seq::<Seq<char>>::empty());
    assert(text::split(p, '\n') =~= seq![p]);
    text::lemma_split_len(b, '\n');
    let k = text::split(a, '\n').len() as int;
    let pieces = text::split(s, '\n');
    assert(pieces == text::split(a, '\n') + seq![p] + text::split(b, '\n'));
    assert(pieces[k] == p);
    assert(pieces.drop_last()[k] == p);
    assert(p.last() != '\r');
    assert(text::strip_cr(p) == p);
    k
}

/// A line that is not blank stays.
proof fn lemma_line_kept(lines: Seq<Seq<char>>, k: int) -> (r: (Seq<char>, Seq<char>))
    requires
        0 <= k < lines.len(),
        is_shown(lines[k]),
    ensures
        document::keep_lines(lines).text == r.0 + lines[k] + r.1,
    decreases lines.len(),
{
    let before = document::keep_lines(lines.drop_last()).text;
    let now = document::keep_lines(lines).text;
    if k == lines.len() - 1 {
        assert(!text::blank(lines[k]));
        assert(text::trim_end(lines[k]) == lines[k]);
        assert(now =~= before + lines[k] + seq!['\n']);
        (before, seq!['\n'])
    } else {
        let r = lemma_line_kept(lines.drop_last(), k);
        assert(lines.drop_last()[k] == lines[k]);
        let z = now.skip(before.len() as int);
        assert(now =~= before + z);
        assert(now =~= r.0 + lines[k] + (r.1 + z));
        (r.0, r.1 + z)
    }
}

/// What starts visibly survives trimming at the start.
proof fn lemma_trim_start_keeps(a: Seq<char>, p: Seq<char>, b: Seq<char>) -> (c: Seq<char>)
    requires
        p.len() > 0,
        !text::is_space(p[0]),
    ensures
        text::trim_start(a + p + b) == c + p + b,
    decreases a.len(),
{
    let s = a + p + b;
    if a.len() > 0 && text::is_space(a[0]) {
        assert(s[0] == a[0]);
        assert(s.drop_first() =~= a.drop_first() + p + b);
        lemma_trim_start_keeps(a.drop_first(), p, b)
    } else {
        if a.len() > 0 {
            assert(s[0] == a[0]);
        } else {
            assert(s[0] == p[0]);
        }
        a
    }
}

// ---------------------------------------------------------------------------
// Tags
// ---------------------------------------------------------------------------

/// Whether a text holds no bracket of a tag.
pub open spec fn no_tag(s: Seq<char>) -> bool {
    forall|i: int| 0 <= i < s.len() ==> s[i] != '<' && s[i] != '>'
}

/// What was read stays.
proof fn lemma_untag_grows(x: Seq<char>, y: Seq<char>) -> (z: Seq<char>)
    ensures
        document::untag(x + y).text == document::untag(x).text + z,
    decreases y.len(),
{
    if y.len() == 0 {
        assert(x + y =~= x);
        assert(document::untag(x).text + Seq::<char>::empty() =~= document::untag(x).text);
        Seq::empty()
    } else {
        let z = lemma_untag_grows(x, y.drop_last());
        assert((x + y).drop_last() =~= x + y.drop_last());
        let before = document::untag(x).text;
        let now = document::untag(x + y).text;
        let more = now.skip(before.len() as int);
        assert(now =~= before + more);
        more
    }
}

/// Outside a tag, plain text is taken over.
proof fn lemma_untag_text(x: Seq<char>, e: Seq<char>)
    requires
        !document::untag(x).in_tag,
        no_tag(e),
    ensures
        document::untag(x + e) == (Untagged { text: document::untag(x).text + e, in_tag: false }),
    decreases e.len(),
{
    if e.len() == 0 {
        assert(x + e =~= x);
        assert(document::untag(x).text + e =~= document::untag(x).text);
    } else {
        lemma_untag_text(x, e.drop_last());
        assert((x + e).drop_last() =~= x + e.drop_last());
        assert((x + e).last() == e[e.len() - 1]);
        assert((document::untag(x).text + e.drop_last()).push(e.last()) =~= document::untag(x).text
            + e);
    }
}

/// Inside a tag, nothing is taken over.
proof fn lemma_untag_inside(x: Seq<char>, w: Seq<char>)
    requires
        document::untag(x).in_tag,
        no_tag(w),
    ensures
        document::untag(x + w) == document::untag(x),
    decreases w.len(),
{
    if w.len() == 0 {
        assert(x + w =~= x);
    } else {
        lemma_untag_inside(x, w.drop_last());
        assert((x + w).drop_last() =~= x + w.drop_last());
        assert((x + w).last() == w[w.len() - 1]);
    }
}

/// A tag.
pub open spec fn tag(w: Seq<char>) -> Seq<char> {
    seq!['<'] + w + seq!['>']
}

/// A tag behind a text ends its line.
proof fn lemma_untag_tag(x: Seq<char>, w: Seq<char>)
    requires
        no_tag(w),
        document::untag(x).text.len() > 0,
        document::untag(x).text.last() != '\n',
    ensures
        document::untag(x + tag(w)).text == document::untag(x).text.push('\n'),
{
    let opened = x + seq!['<'];
    assert(opened.drop_last() =~= x);
    assert(document::untag(opened) == (Untagged { text: document::untag(x).text, in_tag: true }));
    lemma_untag_inside(opened, w);
    let closed = x + tag(w);
    assert(closed.drop_last() =~= opened + w);
    assert(closed.last() == '>');
}

/// A block of a page: behind a tag a text, escaped, and the closing tag.
pub open spec fn is_block(
    html: Seq<char>,
    x: Seq<char>,
    p: Seq<char>,
    w: Seq<char>,
    z: Seq<char>,
) -> bool {
    &&& html == x + document::escaped(p) + tag(w) + z
    &&& x.len() > 0
    &&& x.last() == '>'
    &&& no_tag(w)
    &&& is_shown(p)
}

/// Whether a page shows a text in one of its blocks.
pub open spec fn shows(html: Seq<char>, s: Seq<char>) -> bool {
    exists|x: Seq<char>, p: Seq<char>, w: Seq<char>, z: Seq<char>| #[trigger]
        is_block(html, x, p, w, z) && holds_text(p, s)
}

proof fn lemma_shows_within(a: Seq<char>, html: Seq<char>, b: Seq<char>, s: Seq<char>)
    requires
        shows(html, s),
    ensures
        shows(a + html + b, s),
{
    let (x, p, w, z) = choose|x: Seq<char>, p: Seq<char>, w: Seq<char>, z: Seq<char>| #[trigger]
        is_block(html, x, p, w, z) && holds_text(p, s);
    let all = a + html + b;
    assert((a + x).last() == x.last());
    assert(all =~= (a + x) + document::escaped(p) + tag(w) + (z + b));
    assert(is_block(all, a + x, p, w, z + b));
}

/// A block without its tags stands on a line of its own.
proof fn lemma_block_text(
    html: Seq<char>,
    x: Seq<char>,
    p: Seq<char>,
    w: Seq<char>,
    z: Seq<char>,
) -> (r: (Seq<char>, Seq<char>))
    requires
        is_block(html, x, p, w, z),
    ensures
        document::untag(html).text == r.0 + seq!['\n'] + document::escaped(p) + seq!['\n'] + r.1,
{
    let e = document::escaped(p);
    assert(no_tag(e)) by {
        assert forall|i: int| 0 <= i < e.len() implies e[i] != '<' && e[i] != '>' by {
            document_laws::law_escaped_is_inert(p, i);
        }
    }
    let start = document::untag(x).text;
    assert(start.last() == '\n' && !document::untag(x).in_tag);
    let a = start.drop_last();
    assert(start =~= a + seq!['\n']);
    lemma_untag_text(x, e);
    lemma_escaped_last(p);
    assert((start + e).last() == e.last());
    lemma_untag_tag(x + e, w);
    let b = lemma_untag_grows(x + e + tag(w), z);
    assert(html =~= x + e + tag(w) + z);
    assert(document::untag(html).text =~= a + seq!['\n'] + e + seq!['\n'] + b);
    (a, b)
}

/// An escaped text ends as visibly as the text.
proof fn lemma_escaped_last(p: Seq<char>)
    requires
        is_shown(p),
    ensures
        document::escaped(p).len() > 0,
        document::escaped(p).last() != '\n',
{
    document_laws::lemma_entities();
    let e = document::escaped_char(p.last());
    assert(document::escaped(p).last() == e.last());
    assert(p[p.len() - 1] != '\n');
}

// ---------------------------------------------------------------------------
// Escaped characters
// ---------------------------------------------------------------------------

/// Replacing goes on line by line.
proof fn lemma_replace_break(x: Seq<char>, y: Seq<char>, pat: Seq<char>, to: Seq<char>)
    requires
        pat.len() > 0,
        one_line(pat),
    ensures
        text::replace(x + seq!['\n'] + y, pat, to) == text::replace(x, pat, to) + seq!['\n']
            + text::replace(y, pat, to),
    decreases x.len(),
{
    let s = x + seq!['\n'] + y;
    let n = pat.len() as int;
    if s.len() < n {
    } else if x.len() == 0 {
        assert(s.take(n)[0] == '\n');
        assert(s.take(n) != pat);
        assert(s.skip(1) =~= y);
        assert(s[0] == '\n');
        assert(text::replace(x, pat, to) == x);
        assert(seq!['\n'] + text::replace(y, pat, to) =~= x + seq!['\n'] + text::replace(
            y,
            pat,
            to,
        ));
    } else if s.take(n) == pat {
        if n > x.len() {
            assert(s.take(n)[x.len() as int] == '\n');
            assert(pat[x.len() as int] == '\n');
        }
        assert(x.take(n) =~= s.take(n));
        assert(s.skip(n) =~= x.skip(n) + seq!['\n'] + y);
        lemma_replace_break(x.skip(n), y, pat, to);
        assert(text::replace(s, pat, to) =~= (to + text::replace(x.skip(n), pat, to)) + seq!['\n']
            + text::replace(y, pat, to));
    } else {
        assert(s[0] == x[0]);
        assert(s.skip(1) =~= x.skip(1) + seq!['\n'] + y);
        lemma_replace_break(x.skip(1), y, pat, to);
        if n <= x.len() {
            assert(x.take(n) =~= s.take(n));
        } else {
            assert(text::replace(x, pat, to) == x);
            assert(text::replace(x.skip(1), pat, to) == x.skip(1));
        }
        assert(seq![x[0]] + text::replace(x.skip(1), pat, to) =~= text::replace(x, pat, to));
        assert(text::replace(s, pat, to) =~= (seq![x[0]] + text::replace(x.skip(1), pat, to))
            + seq!['\n'] + text::replace(y, pat, to));
    }
}

proof fn lemma_unescaped_break(x: Seq<char>, y: Seq<char>)
    ensures
        document::unescaped(x + seq!['\n'] + y) == document::unescaped(x) + seq!['\n']
            + document::unescaped(y),
{
    document_laws::lemma_entities();
    let (x1, y1) = (text::replace(x, "&lt;"@, "<"@), text::replace(y, "&lt;"@, "<"@));
    let (x2, y2) = (text::replace(x1, "&gt;"@, ">"@), text::replace(y1, "&gt;"@, ">"@));
    let (x3, y3) = (text::replace(x2, "&quot;"@, "\""@), text::replace(y2, "&quot;"@, "\""@));
    lemma_replace_break(x, y, "&lt;"@, "<"@);
    lemma_replace_break(x1, y1, "&gt;"@, ">"@);
    lemma_replace_break(x2, y2, "&quot;"@, "\""@);
    lemma_replace_break(x3, y3, "&amp;"@, "&"@);
}

proof fn lemma_escaped_joined(a: Seq<char>, b: Seq<char>)
    ensures
        document::escaped(a + b) == document::escaped(a) + document::escaped(b),
    decreases b.len(),
{
    if b.len() == 0 {
        assert(a + b =~= a);
        assert(document::escaped(a) + document::escaped(b) =~= document::escaped(a));
    } else {
        lemma_escaped_joined(a, b.drop_last());
        assert((a + b).drop_last() =~= a + b.drop_last());
        assert((a + b).last() == b.last());
        assert(document::escaped(a + b) =~= document::escaped(a) + document::escaped(b));
    }
}

// ---------------------------------------------------------------------------
// Paragraphs
// ---------------------------------------------------------------------------

/// The texts of the paragraph that some lines leave open.
pub open spec fn pending(lines: Seq<Seq<char>>) -> Seq<Seq<char>>
    decreases lines.len(),
{
    if lines.len() == 0 {
        Seq::empty()
    } else {
        let (level, stripped) = document::heading(lines.last());
        if text::blank(stripped) || level > 0 {
            Seq::empty()
        } else {
            pending(lines.drop_last()).push(text::trim(stripped))
        }
    }
}

/// All texts, escaped.
pub open spec fn all_escaped(v: Seq<Seq<char>>) -> Seq<Seq<char>> {
    v.map_values(|s: Seq<char>| document::escaped(s))
}

proof fn lemma_pending(lines: Seq<Seq<char>>)
    requires
        forall|k: int| 0 <= k < lines.len() ==> one_line(#[trigger] lines[k]),
    ensures
        document::add_lines(lines).paragraph == all_escaped(pending(lines)),
        forall|k: int| 0 <= k < pending(lines).len() ==> is_shown(#[trigger] pending(lines)[k]),
    decreases lines.len(),
{
    if lines.len() > 0 {
        let front = lines.drop_last();
        assert forall|k: int| 0 <= k < front.len() implies one_line(#[trigger] front[k]) by {
            assert(front[k] == lines[k]);
        }
        lemma_pending(front);
        assert(one_line(lines[lines.len() - 1]));
        let (level, stripped) = document::heading(lines.last());
        if text::blank(stripped) || level > 0 {
            assert(document::add_lines(lines).paragraph =~= all_escaped(pending(lines)));
        } else {
            lemma_shown(lines.last());
            assert(document::add_lines(lines).paragraph =~= all_escaped(pending(lines)));
        }
    } else {
        assert(document::add_lines(lines).paragraph =~= all_escaped(pending(lines)));
    }
}

/// A paragraph is shown, and so is each of its texts.
proof fn lemma_paragraph(v: Seq<Seq<char>>)
    requires
        v.len() > 0,
        forall|k: int| 0 <= k < v.len() ==> is_shown(#[trigger] v[k]),
    ensures
        is_shown(text::join(v, " "@)),
        text::join(all_escaped(v), " "@) == document::escaped(text::join(v, " "@)),
        forall|k: int| 0 <= k < v.len() ==> holds_text(text::join(v, " "@), #[trigger] v[k]),
    decreases v.len(),
{
    reveal_strlit(" ");
    let sep = " "@;
    assert(sep =~= seq![' ']);
    let all = text::join(v, sep);
    let empty = Seq::<char>::empty();
    if v.len() == 1 {
        assert(is_shown(v[0]));
        assert(all_escaped(v)[0] == document::escaped(v[0]));
        assert(v[0] =~= empty + v[0] + empty);
        assert(stands_between(all, empty, v[0], empty));
    } else {
        let front = v.drop_last();
        let last = v.last();
        assert(is_shown(v[v.len() - 1]));
        assert forall|k: int| 0 <= k < front.len() implies is_shown(#[trigger] front[k]) by {
            assert(front[k] == v[k]);
        }
        lemma_paragraph(front);
        let before = text::join(front, sep);
        assert(all == before + sep + last);
        assert(all_escaped(v).drop_last() =~= all_escaped(front));
        assert(all_escaped(v).last() == document::escaped(last));
        lemma_escaped_joined(before + sep, last);
        lemma_escaped_joined(before, sep);
        assert(document::escaped(sep) =~= sep) by {
            assert(sep.drop_last() =~= empty);
            assert(document::escaped(sep.drop_last()) =~= empty);
            assert(document::escaped_char(' ') =~= seq![' ']);
            assert(sep.last() == ' ');
        }
        assert(all.last() == last.last());
        assert(all[0] == before[0]);
        assert(one_line(all)) by {
            assert forall|i: int| 0 <= i < all.len() implies all[i] != '\n' by {
                if i < before.len() {
                    assert(all[i] == before[i]);
                } else if i > before.len() {
                    assert(all[i] == last[i - before.len() - 1]);
                }
            }
        }
        assert forall|k: int| 0 <= k < v.len() implies holds_text(all, #[trigger] v[k]) by {
            if k < front.len() {
                assert(front[k] == v[k]);
                assert(all =~= empty + before + (sep + last));
                lemma_holds_chain(all, empty, before, sep + last, v[k]);
            } else {
                assert(all =~= (before + sep) + last + empty);
                assert(stands_between(all, before + sep, last, empty));
            }
        }
    }
}

/// Ending a paragraph shows its texts, and all that was shown.
proof fn lemma_end_shows(b: Body, v: Seq<Seq<char>>, s: Seq<char>)
    requires
        b.paragraph == all_escaped(v),
        forall|k: int| 0 <= k < v.len() ==> is_shown(#[trigger] v[k]),
        shows(b.html, s) || v.contains(s),
    ensures
        shows(document::end_paragraph(b).html, s),
{
    let empty = Seq::<char>::empty();
    let now = document::end_paragraph(b).html;
    if b.paragraph.len() > 0 {
        reveal_strlit("<p>");
        reveal_strlit("</p>\n");
        let p = text::join(v, " "@);
        lemma_paragraph(v);
        if v.contains(s) {
            let k = choose|k: int| 0 <= k < v.len() && v[k] == s;
            assert(holds_text(p, v[k]));
            let x = b.html + "<p>"@;
            let w = seq!['/', 'p'];
            let z = seq!['\n'];
            assert(x.last() == '>');
            assert("</p>\n"@ =~= tag(w) + z);
            assert(now =~= x + document::escaped(p) + tag(w) + z);
            assert(is_block(now, x, p, w, z));
        } else {
            let more = "<p>"@ + document::escaped(p) + "</p>\n"@;
            assert(now =~= empty + b.html + more);
            lemma_shows_within(empty, b.html, more, s);
        }
    }
}

/// A heading is shown.
proof fn lemma_heading_shows(html: Seq<char>, level: nat, title: Seq<char>)
    requires
        is_shown(title),
    ensures
        shows(html + document::heading_html(level, document::escaped(title)), title),
{
    reveal_strlit("<h");
    reveal_strlit(">");
    reveal_strlit("</h");
    reveal_strlit(">\n");
    let d = number::decimal(level);
    number::lemma_decimal_value(level);
    let now = html + document::heading_html(level, document::escaped(title));
    let x = html + "<h"@ + d + ">"@;
    let w = seq!['/', 'h'] + d;
    let z = seq!['\n'];
    assert(x.last() == '>');
    assert(no_tag(w)) by {
        assert forall|i: int| 0 <= i < w.len() implies w[i] != '<' && w[i] != '>' by {
            if i >= 2 {
                assert(number::is_digit(d[i - 2]));
            }
        }
    }
    assert("</h"@ + (d + ">\n"@) =~= tag(w) + z);
    assert(now =~= x + document::escaped(title) + tag(w) + z);
    assert(is_block(now, x, title, w, z));
    let empty = Seq::<char>::empty();
    assert(title =~= empty + title + empty);
    assert(stands_between(title, empty, title, empty));
}

/// What a line shows is shown, or still pending.
proof fn lemma_line_shows(lines: Seq<Seq<char>>, i: int)
    requires
        0 <= i < lines.len(),
        forall|k: int| 0 <= k < lines.len() ==> one_line(#[trigger] lines[k]),
        !text::blank(document::heading(lines[i]).1),
    ensures
        shows(document::add_lines(lines).html, shown(lines[i])) || pending(lines).contains(
            shown(lines[i]),
        ),
    decreases lines.len(),
{
    let s = shown(lines[i]);
    let front = lines.drop_last();
    let empty = Seq::<char>::empty();
    assert forall|k: int| 0 <= k < front.len() implies one_line(#[trigger] front[k]) by {
        assert(front[k] == lines[k]);
    }
    let before = document::add_lines(front);
    let now = document::add_lines(lines);
    let (level, stripped) = document::heading(lines.last());
    lemma_pending(front);
    if i == lines.len() - 1 {
        assert(one_line(lines[i]));
        lemma_shown(lines[i]);
        if level > 0 {
            lemma_heading_shows(document::end_paragraph(before).html, level, s);
        } else {
            assert(pending(lines).last() == s);
            assert(pending(lines)[pending(lines).len() - 1] == s);
        }
    } else {
        assert(front[i] == lines[i]);
        lemma_line_shows(front, i);
        if text::blank(stripped) || level > 0 {
            lemma_end_shows(before, pending(front), s);
            if !text::blank(stripped) {
                let more = document::heading_html(level, document::escaped(text::trim(stripped)));
                let ended = document::end_paragraph(before).html;
                assert(now.html =~= empty + ended + more);
                lemma_shows_within(empty, ended, more, s);
            }
        } else if !shows(before.html, s) {
            let k = choose|k: int| 0 <= k < pending(front).len() && pending(front)[k] == s;
            assert(pending(lines)[k] == s);
        }
    }
}

// ---------------------------------------------------------------------------
// The law
// ---------------------------------------------------------------------------

/// What a page shows stands in its text.
proof fn lemma_shown_text(html: Seq<char>, s: Seq<char>)
    requires
        shows(html, s),
    ensures
        holds_text(document::plain_text(html), s),
{
    let (x, p, w, z) = choose|x: Seq<char>, p: Seq<char>, w: Seq<char>, z: Seq<char>| #[trigger]
        is_block(html, x, p, w, z) && holds_text(p, s);
    let (a, b) = lemma_block_text(html, x, p, w, z);
    let e = document::escaped(p);
    let raw = document::untag(html).text;
    assert(raw =~= a + seq!['\n'] + (e + seq!['\n'] + b));
    lemma_unescaped_break(a, e + seq!['\n'] + b);
    lemma_unescaped_break(e, b);
    document_laws::law_escape_round_trip(p);
    let (ua, ub) = (document::unescaped(a), document::unescaped(b));
    let plain = document::unescaped(raw);
    assert(plain =~= ua + seq!['\n'] + p + seq!['\n'] + ub);
    let k = lemma_is_line(ua, p, ub);
    let lines = text::lines(plain);
    let (c, d) = lemma_line_kept(lines, k);
    let f = lemma_trim_start_keeps(c, p, d);
    assert(document::plain_text(html) =~= f + p + (d + "\n"@));
    lemma_holds_chain(document::plain_text(html), f, p, d + "\n"@, s);
}

/// A text that was made a page comes back from it: what every line of it shows,
/// without its heading marks and outer white space, stands in the text of the
/// page as it stood, with all its `<`, `>`, `&` and `"`.
pub proof fn law_page_gives_text_back(input: Seq<char>, s: Seq<char>, i: int)
    requires
        0 <= i < text::lines(document::strip_mark(s)).len(),
        !text::blank(document::heading(text::lines(document::strip_mark(s))[i]).1),
    ensures
        holds_text(
            document::plain_text(document::html_of(input, s)),
            text::trim(document::heading(text::lines(document::strip_mark(s))[i]).1),
        ),
{
    let lines = text::lines(document::strip_mark(s));
    let line = shown(lines[i]);
    lemma_lines_are_lines(document::strip_mark(s));
    lemma_line_shows(lines, i);
    lemma_pending(lines);
    lemma_end_shows(document::add_lines(lines), pending(lines), line);
    let html = document::end_paragraph(document::add_lines(lines)).html;
    assert(html.len() > 0) by {
        let (x, p, w, z) = choose|x: Seq<char>, p: Seq<char>, w: Seq<char>, z: Seq<char>|
            #[trigger] is_block(html, x, p, w, z) && holds_text(p, line);
        assert(html.len() >= x.len());
    }
    let a = document::PAGE_HEAD@ + document::escaped(document::title_of(input))
        + document::PAGE_STYLE@;
    let b = document::PAGE_TAIL@;
    assert(document::html_of(input, s) == a + html + b);
    lemma_shows_within(a, html, b, line);
    lemma_shown_text(document::html_of(input, s), line);
}

} // verus!
