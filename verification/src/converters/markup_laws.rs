//! How text becomes a page, and a page text.
use vstd::prelude::*;

use crate::converters::document;
use crate::converters::document::Body;
use crate::converters::page_laws;
use crate::converters::page_laws::{hash_marks, is_title};
use crate::converters::Failure;
use crate::number;
use crate::paths;
use crate::text;
use crate::text_laws;
use crate::text_laws::is_line;

verus! {

// ---------------------------------------------------------------------------
// Text to HTML
// ---------------------------------------------------------------------------

proof fn lemma_one_line(s: Seq<char>)
    requires
        s.len() > 0,
        is_line(s),
    ensures
        text::lines(s) == seq![s],
{
    let v = seq![s];
    assert(v[0] == s);
    text_laws::law_lines(v);
}

/// A heading becomes one of its level, its text escaped.
pub proof fn law_headings_are_tagged(n: nat, title: Seq<char>)
    requires
        1 <= n <= 6,
        is_title(title),
        !title.contains('\n'),
    ensures
        document::body_html(hash_marks(n) + (seq![' '] + title)) == "<h"@ + number::decimal(n) + ">"@
            + document::escaped(title) + "</h"@ + (number::decimal(n) + ">\n"@),
{
    let rest = seq![' '] + title;
    let s = hash_marks(n) + rest;
    let empty = Seq::<char>::empty();
    assert(s.last() == title.last());
    assert(text::is_space('\r'));
    assert(!s.contains('\n')) by {
        if s.contains('\n') {
            let i = choose|i: int| 0 <= i < s.len() && s[i] == '\n';
            if i < n {
                assert(s[i] == '#');
            } else if i == n {
                assert(s[i] == ' ');
            } else {
                assert(title[i - n - 1] == '\n');
            }
        }
    }
    lemma_one_line(s);
    page_laws::law_heading_marks(empty, n, title);
    assert(empty + s =~= s);
    text_laws::law_trim(empty, title, empty);
    assert(empty + title + empty =~= title);
    assert(!text::blank(title)) by {
        assert(!text::is_space(title[0]));
    }
    let lines = seq![s];
    let none = Seq::<Seq<char>>::empty();
    assert(lines.drop_last() =~= none);
    let before = document::add_lines(none);
    assert(before == (Body { html: empty, paragraph: none }));
    let tagged = document::heading_html(n, document::escaped(title));
    assert(document::add_lines(lines) == document::add_line(before, s));
    assert(empty + tagged =~= tagged);
    assert(tagged.len() > 0) by {
        reveal_strlit("<h");
    }
}

/// Whether a line is body text without white space at its ends.
pub open spec fn is_body(l: Seq<char>) -> bool {
    &&& is_line(l)
    &&& l.len() > 0
    &&& !text::is_space(l[0])
    &&& !text::is_space(l.last())
    &&& l[0] != '#'
}

proof fn lemma_body(l: Seq<char>)
    requires
        is_body(l),
    ensures
        document::heading(l) == (0nat, l),
        text::trim(l) == l,
        !text::blank(l),
{
    let empty = Seq::<char>::empty();
    assert(l + empty =~= l);
    assert(text::trim_start(l) == l);
    page_laws::law_body_lines(l, empty);
    text_laws::law_trim(empty, l, empty);
    assert(empty + l + empty =~= l);
    assert(!text::is_space(l[0]));
}

proof fn lemma_paragraph(v: Seq<Seq<char>>)
    requires
        forall|k: int| 0 <= k < v.len() ==> is_body(#[trigger] v[k]),
    ensures
        document::add_lines(v) == (Body {
            html: Seq::empty(),
            paragraph: v.map_values(|l: Seq<char>| document::escaped(l)),
        }),
    decreases v.len(),
{
    let all = v.map_values(|l: Seq<char>| document::escaped(l));
    if v.len() == 0 {
        assert(all =~= Seq::<Seq<char>>::empty());
    } else {
        let less = v.drop_last();
        assert forall|k: int| 0 <= k < less.len() implies is_body(#[trigger] less[k]) by {
            assert(less[k] == v[k]);
        }
        lemma_paragraph(less);
        assert(is_body(v[v.len() - 1]));
        lemma_body(v.last());
        assert(all =~= less.map_values(|l: Seq<char>| document::escaped(l)).push(
            document::escaped(v.last()),
        ));
    }
}

/// Lines of body text that follow each other are one paragraph, with a blank
/// where each ended.
pub proof fn law_lines_make_a_paragraph(v: Seq<Seq<char>>)
    requires
        v.len() > 0,
        forall|k: int| 0 <= k < v.len() ==> is_body(#[trigger] v[k]),
    ensures
        document::body_html(text::join(v, seq!['\n'])) == "<p>"@ + text::join(
            v.map_values(|l: Seq<char>| document::escaped(l)),
            " "@,
        ) + "</p>\n"@,
{
    assert forall|k: int| 0 <= k < v.len() implies is_line(#[trigger] v[k]) by {
        assert(is_body(v[k]));
    }
    assert(is_body(v[v.len() - 1]));
    text_laws::law_lines(v);
    lemma_paragraph(v);
    let joined = text::join(v.map_values(|l: Seq<char>| document::escaped(l)), " "@);
    let html = "<p>"@ + joined + "</p>\n"@;
    assert(Seq::<char>::empty() + "<p>"@ + joined + "</p>\n"@ =~= html);
    assert(html.len() > 0) by {
        reveal_strlit("<p>");
    }
}

proof fn lemma_after_gap(a: Seq<Seq<char>>, b: Seq<Seq<char>>)
    ensures
        document::add_lines(a.push(Seq::empty()) + b) == (Body {
            html: document::end_paragraph(document::add_lines(a)).html + document::add_lines(b).html,
            paragraph: document::add_lines(b).paragraph,
        }),
    decreases b.len(),
{
    let gap = Seq::<char>::empty();
    let head = a.push(gap);
    let first = document::end_paragraph(document::add_lines(a)).html;
    if b.len() == 0 {
        assert(head + b =~= head);
        assert(head.drop_last() =~= a);
        assert(text::blank(document::heading(gap).1)) by {
            assert(text::trim_end(gap) =~= gap);
        }
        assert(first + Seq::<char>::empty() =~= first);
        assert(document::end_paragraph(document::add_lines(a)).paragraph =~= Seq::empty());
    } else {
        lemma_after_gap(a, b.drop_last());
        assert((head + b).drop_last() =~= head + b.drop_last());
        assert((head + b).last() == b.last());
        let one = document::add_lines(b.drop_last());
        let two = document::add_lines(head + b.drop_last());
        assert(two.html == first + one.html);
        let line = b.last();
        let (level, stripped) = document::heading(line);
        let e = document::end_paragraph(one);
        let f = document::end_paragraph(two);
        assert(f.html =~= first + e.html) by {
            let p = text::join(one.paragraph, " "@);
            assert(first + one.html + "<p>"@ + p + "</p>\n"@ =~= first + (one.html + "<p>"@ + p
                + "</p>\n"@));
        }
        let tagged = document::heading_html(level, document::escaped(text::trim(stripped)));
        assert((first + e.html) + tagged =~= first + (e.html + tagged));
    }
}

/// An empty line parts paragraphs: what stands before it and what stands behind
/// it become HTML on their own.
pub proof fn law_gaps_part_paragraphs(a: Seq<Seq<char>>, b: Seq<Seq<char>>)
    ensures
        document::end_paragraph(document::add_lines(a.push(Seq::empty()) + b)).html
            == document::end_paragraph(document::add_lines(a)).html + document::end_paragraph(
            document::add_lines(b),
        ).html,
{
    lemma_after_gap(a, b);
    let first = document::end_paragraph(document::add_lines(a)).html;
    let more = document::add_lines(b);
    let p = text::join(more.paragraph, " "@);
    assert(first + more.html + "<p>"@ + p + "</p>\n"@ =~= first + (more.html + "<p>"@ + p
        + "</p>\n"@));
}

/// A page is called like its file, escaped, and has the text in its body; a text
/// without anything gives an empty paragraph.
pub proof fn law_pages_are_framed(input: Seq<char>, stem: Seq<char>, s: Seq<char>)
    requires
        s.len() > 0 ==> s[0] != '\u{FEFF}',
        paths::file_stem(input) == Some(stem),
    ensures
        document::html_of(input, s) == "<!DOCTYPE html>\n<html lang=\"en\">\n<head>\n<meta charset=\"utf-8\">\n<meta name=\"viewport\" content=\"width=device-width, initial-scale=1\">\n<title>"@
            + document::escaped(stem)
            + "</title>\n<style>body{max-width:45rem;margin:2rem auto;padding:0 1rem;font-family:system-ui,sans-serif;line-height:1.6}</style>\n</head>\n<body>\n"@
            + document::body_html(s) + "</body>\n</html>\n"@,
        document::html_of(input, seq!['\u{FEFF}'] + s) == document::html_of(input, s),
        document::body_html(Seq::empty()) == "<p></p>\n"@,
{
    let empty = Seq::<char>::empty();
    assert((seq!['\u{FEFF}'] + s).skip(1) =~= s);
    assert(text::split(empty, '\n') =~= seq![empty]);
    assert(text::lines(empty) =~= Seq::empty());
}

// ---------------------------------------------------------------------------
// HTML to text
// ---------------------------------------------------------------------------

/// Text between tags is kept as it is, and a tag is left out and ends the line.
pub proof fn law_tags_end_lines(html: Seq<char>, tag: Seq<char>, t: Seq<char>)
    requires
        !document::untag(html).in_tag,
        !tag.contains('<') && !tag.contains('>'),
        !t.contains('<') && !t.contains('>'),
    ensures
        document::untag(html + t).text == document::untag(html).text + t,
        !document::untag(html + t).in_tag,
        ({
            let kept = document::untag(html).text;
            let now = document::untag((html.push('<') + tag).push('>'));
            &&& !now.in_tag
            &&& now.text == (if kept.len() > 0 && kept.last() == '\n' {
                kept
            } else {
                kept.push('\n')
            })
        }),
        document::untag(Seq::empty()).text.len() == 0,
{
    lemma_plain(html, t);
    let open = html.push('<');
    assert(open.drop_last() =~= html);
    lemma_in_tag(open, tag);
    let whole = (open + tag).push('>');
    assert(whole.drop_last() =~= open + tag);
}

proof fn lemma_plain(html: Seq<char>, t: Seq<char>)
    requires
        !document::untag(html).in_tag,
        !t.contains('<') && !t.contains('>'),
    ensures
        document::untag(html + t).text == document::untag(html).text + t,
        !document::untag(html + t).in_tag,
    decreases t.len(),
{
    let kept = document::untag(html).text;
    if t.len() == 0 {
        assert(html + t =~= html);
        assert(kept + t =~= kept);
    } else {
        let less = t.drop_last();
        lemma_less(t);
        lemma_plain(html, less);
        assert((html + t).drop_last() =~= html + less);
        assert((html + t).last() == t.last());
        assert((kept + less).push(t.last()) =~= kept + t);
    }
}

proof fn lemma_less(t: Seq<char>)
    requires
        t.len() > 0,
        !t.contains('<') && !t.contains('>'),
    ensures
        !t.drop_last().contains('<') && !t.drop_last().contains('>'),
        t.last() != '<' && t.last() != '>',
{
    assert(t.contains(t.last()));
    assert forall|c: char| #[trigger] t.drop_last().contains(c) implies t.contains(c) by {
        let j = choose|j: int| 0 <= j < t.drop_last().len() && t.drop_last()[j] == c;
        assert(t[j] == c);
    }
}

proof fn lemma_in_tag(open: Seq<char>, tag: Seq<char>)
    requires
        document::untag(open).in_tag,
        !tag.contains('<') && !tag.contains('>'),
    ensures
        document::untag(open + tag) == document::untag(open),
    decreases tag.len(),
{
    if tag.len() == 0 {
        assert(open + tag =~= open);
    } else {
        lemma_less(tag);
        lemma_in_tag(open, tag.drop_last());
        assert((open + tag).drop_last() =~= open + tag.drop_last());
        assert((open + tag).last() == tag.last());
    }
}

/// So many blank lines.
pub open spec fn gaps(n: nat) -> Seq<Seq<char>> {
    Seq::new(n, |i: int| Seq::empty())
}

proof fn lemma_gaps(v: Seq<Seq<char>>, line: Seq<char>, n: nat)
    requires
        !text::blank(line),
    ensures
        document::keep_lines(v.push(line) + gaps(n)).blanks == n,
        n >= 2 ==> document::keep_lines(v.push(line) + gaps(n)).text == document::keep_lines(
            v.push(line),
        ).text.push('\n').push('\n'),
        n == 1 ==> document::keep_lines(v.push(line) + gaps(n)).text == document::keep_lines(
            v.push(line),
        ).text.push('\n'),
    decreases n,
{
    let head = v.push(line);
    assert(head.drop_last() =~= v);
    let all = head + gaps(n);
    if n == 0 {
        assert(all =~= head);
    } else {
        lemma_gaps(v, line, (n - 1) as nat);
        assert(all.drop_last() =~= head + gaps((n - 1) as nat));
        assert(all.last() =~= Seq::<char>::empty());
        if n == 1 {
            assert(head + gaps(0) =~= head);
        }
    }
}

/// A line that says something is kept, without the white space at its end; of
/// blank lines that follow it two are kept at most.
pub proof fn law_blank_lines_collapse(v: Seq<Seq<char>>, line: Seq<char>, n: nat)
    requires
        !text::blank(line),
        n >= 2,
    ensures
        document::keep_lines(v.push(line)).text == (document::keep_lines(v).text + text::trim_end(
            line,
        )).push('\n'),
        document::keep_lines(v.push(line) + gaps(n)).text == document::keep_lines(
            v.push(line),
        ).text.push('\n').push('\n'),
        document::keep_lines(v.push(line) + gaps(1)).text == document::keep_lines(
            v.push(line),
        ).text.push('\n'),
{
    assert(v.push(line).drop_last() =~= v);
    lemma_gaps(v, line, n);
    lemma_gaps(v, line, 1);
}

/// The text of a page does not start with white space, and its last line is
/// ended.
pub proof fn law_plain_text_ends(html: Seq<char>)
    ensures
        document::plain_text(html).len() > 0,
        document::plain_text(html).last() == '\n',
        document::plain_text(html).len() > 1 ==> !text::is_space(document::plain_text(html)[0]),
{
    reveal_strlit("\n");
    let kept = document::keep_lines(text::lines(document::unescaped(document::untag(html).text))).text;
    lemma_start(kept);
    let t = text::trim_start(kept);
    if t.len() > 0 {
        assert(document::plain_text(html)[0] == t[0]);
    }
}

proof fn lemma_start(s: Seq<char>)
    ensures
        text::trim_start(s).len() > 0 ==> !text::is_space(text::trim_start(s)[0]),
    decreases s.len(),
{
    if s.len() > 0 && text::is_space(s[0]) {
        lemma_start(s.drop_first());
    }
}

// ---------------------------------------------------------------------------
// PDF to text
// ---------------------------------------------------------------------------

/// The text of a PDF file is what is embedded in it, as it is; a file without
/// any, and one that cannot be read, is reported.
pub proof fn law_pdf_text(label: Seq<char>, s: Seq<char>, why: Seq<char>)
    ensures
        (exists|i: int| 0 <= i < s.len() && !text::is_space(#[trigger] s[i])) ==> document::pdf_outcome(
            label,
            Ok(s),
        ) == Ok::<_, Failure>(s),
        text::blank(s) ==> (document::pdf_outcome(label, Ok(s)) matches Err(
            Failure::MalformedData { path, format, .. },
        ) && path == label && format == "PDF"@),
        document::pdf_outcome(label, Err(why)) == Err::<Seq<char>, _>(
            Failure::MalformedData {
                path: label,
                format: "PDF"@,
                reason: "cannot extract text: "@ + why,
            },
        ),
{
}

} // verus!
