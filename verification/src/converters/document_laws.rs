//! What holds of the document engine for every text.
use vstd::prelude::*;

use crate::converters::document;
use crate::converters::document::LogicalView;
use crate::converters::document::OpView;
use crate::converters::document::Typeset;
use crate::converters::document::Wrapped;
use crate::text;

verus! {

// ---------------------------------------------------------------------------
// Escaping
// ---------------------------------------------------------------------------

/// A character escaped as far as asked for; `&` always is.
spec fn partly(c: char, lt: bool, gt: bool, quot: bool) -> Seq<char> {
    if c == '&' {
        "&amp;"@
    } else if c == '<' && lt {
        "&lt;"@
    } else if c == '>' && gt {
        "&gt;"@
    } else if c == '"' && quot {
        "&quot;"@
    } else {
        seq![c]
    }
}

/// A text escaped as far as asked for.
spec fn partly_escaped(s: Seq<char>, lt: bool, gt: bool, quot: bool) -> Seq<char>
    decreases s.len(),
{
    if s.len() == 0 {
        Seq::empty()
    } else {
        partly(s[0], lt, gt, quot) + partly_escaped(s.skip(1), lt, gt, quot)
    }
}

proof fn lemma_escaped_front(s: Seq<char>)
    requires
        s.len() > 0,
    ensures
        document::escaped(s) == document::escaped_char(s[0]) + document::escaped(s.skip(1)),
    decreases s.len(),
{
    if s.len() == 1 {
        assert(s.drop_last() =~= Seq::empty());
        assert(s.skip(1) =~= Seq::empty());
        assert(document::escaped(s.drop_last()) =~= Seq::empty());
        assert(document::escaped(s) =~= document::escaped_char(s[0]));
        assert(document::escaped_char(s[0]) + Seq::<char>::empty() =~= document::escaped_char(
            s[0],
        ));
    } else {
        let rest = s.drop_last();
        lemma_escaped_front(rest);
        assert(rest.skip(1) =~= s.skip(1).drop_last());
        assert(s.skip(1).last() == s.last());
        assert(rest[0] == s[0]);
        assert((document::escaped_char(s[0]) + document::escaped(rest.skip(1)))
            + document::escaped_char(s.last()) =~= document::escaped_char(s[0]) + (
        document::escaped(rest.skip(1)) + document::escaped_char(s.last())));
    }
}

proof fn lemma_escaped_partly(s: Seq<char>)
    ensures
        document::escaped(s) == partly_escaped(s, true, true, true),
    decreases s.len(),
{
    if s.len() > 0 {
        lemma_escaped_front(s);
        lemma_escaped_partly(s.skip(1));
    }
}

/// Replacing passes over what does not start the pattern.
proof fn lemma_replace_plain(t: Seq<char>, x: Seq<char>, pat: Seq<char>, to: Seq<char>)
    requires
        pat.len() >= 1,
        pat[0] == '&',
        forall|i: int| 0 <= i < t.len() ==> t[i] != '&',
    ensures
        text::replace(t + x, pat, to) == t + text::replace(x, pat, to),
    decreases t.len(),
{
    let s = t + x;
    if t.len() == 0 {
        assert(s =~= x);
        assert(t + text::replace(x, pat, to) =~= text::replace(x, pat, to));
    } else if s.len() < pat.len() {
        assert(text::replace(x, pat, to) == x);
    } else {
        assert(s[0] == t[0]);
        assert(s.take(pat.len() as int)[0] == s[0]);
        assert(s.skip(1) =~= t.skip(1) + x);
        lemma_replace_plain(t.skip(1), x, pat, to);
        assert(seq![s[0]] + (t.skip(1) + text::replace(x, pat, to)) =~= t + text::replace(
            x,
            pat,
            to,
        ));
    }
}

/// Replacing passes over another entity.
proof fn lemma_replace_other(u: Seq<char>, x: Seq<char>, pat: Seq<char>, to: Seq<char>)
    requires
        pat.len() >= 2,
        pat[0] == '&',
        u.len() >= 2,
        u[1] != pat[1],
        forall|i: int| 1 <= i < u.len() ==> u[i] != '&',
    ensures
        text::replace(u + x, pat, to) == u + text::replace(x, pat, to),
{
    let s = u + x;
    if s.len() < pat.len() {
        assert(text::replace(x, pat, to) == x);
    } else {
        assert(s.take(pat.len() as int)[1] == s[1]);
        assert(s.skip(1) =~= u.skip(1) + x);
        lemma_replace_plain(u.skip(1), x, pat, to);
        assert(seq![s[0]] + (u.skip(1) + text::replace(x, pat, to)) =~= u + text::replace(
            x,
            pat,
            to,
        ));
    }
}

/// Replacing replaces the pattern.
proof fn lemma_replace_hit(x: Seq<char>, pat: Seq<char>, to: Seq<char>)
    requires
        pat.len() >= 1,
    ensures
        text::replace(pat + x, pat, to) == to + text::replace(x, pat, to),
{
    let s = pat + x;
    assert(s.take(pat.len() as int) =~= pat);
    assert(s.skip(pat.len() as int) =~= x);
}

pub proof fn lemma_entities()
    ensures
        "&amp;"@ == seq!['&', 'a', 'm', 'p', ';'],
        "&lt;"@ == seq!['&', 'l', 't', ';'],
        "&gt;"@ == seq!['&', 'g', 't', ';'],
        "&quot;"@ == seq!['&', 'q', 'u', 'o', 't', ';'],
        "<"@ == seq!['<'],
        ">"@ == seq!['>'],
        "\""@ == seq!['"'],
        "&"@ == seq!['&'],
{
    reveal_strlit("&amp;");
    reveal_strlit("&lt;");
    reveal_strlit("&gt;");
    reveal_strlit("&quot;");
    reveal_strlit("<");
    reveal_strlit(">");
    reveal_strlit("\"");
    reveal_strlit("&");
    assert("&amp;"@ =~= seq!['&', 'a', 'm', 'p', ';']);
    assert("&lt;"@ =~= seq!['&', 'l', 't', ';']);
    assert("&gt;"@ =~= seq!['&', 'g', 't', ';']);
    assert("&quot;"@ =~= seq!['&', 'q', 'u', 'o', 't', ';']);
    assert("<"@ =~= seq!['<']);
    assert(">"@ =~= seq!['>']);
    assert("\""@ =~= seq!['"']);
    assert("&"@ =~= seq!['&']);
}

/// One replacement undoes the escaping of one character.
proof fn lemma_restore(s: Seq<char>, lt: bool, gt: bool, quot: bool)
    ensures
        lt ==> text::replace(partly_escaped(s, true, gt, quot), "&lt;"@, "<"@) == partly_escaped(
            s,
            false,
            gt,
            quot,
        ),
        gt ==> text::replace(partly_escaped(s, lt, true, quot), "&gt;"@, ">"@) == partly_escaped(
            s,
            lt,
            false,
            quot,
        ),
        quot ==> text::replace(partly_escaped(s, lt, gt, true), "&quot;"@, "\""@)
            == partly_escaped(s, lt, gt, false),
    decreases s.len(),
{
    lemma_entities();
    if s.len() > 0 {
        let rest = s.skip(1);
        lemma_restore(rest, lt, gt, quot);
        let u = partly(s[0], lt, gt, quot);
        let x = partly_escaped(rest, lt, gt, quot);
        if lt {
            if s[0] == '<' {
                lemma_replace_hit(x, "&lt;"@, "<"@);
            } else if u.len() == 1 {
                lemma_replace_plain(u, x, "&lt;"@, "<"@);
            } else {
                lemma_replace_other(u, x, "&lt;"@, "<"@);
            }
        }
        if gt {
            if s[0] == '>' {
                lemma_replace_hit(x, "&gt;"@, ">"@);
            } else if u.len() == 1 {
                lemma_replace_plain(u, x, "&gt;"@, ">"@);
            } else {
                lemma_replace_other(u, x, "&gt;"@, ">"@);
            }
        }
        if quot {
            if s[0] == '"' {
                lemma_replace_hit(x, "&quot;"@, "\""@);
            } else if u.len() == 1 {
                lemma_replace_plain(u, x, "&quot;"@, "\""@);
            } else {
                lemma_replace_other(u, x, "&quot;"@, "\""@);
            }
        }
    }
}

proof fn lemma_restore_and(s: Seq<char>)
    ensures
        text::replace(partly_escaped(s, false, false, false), "&amp;"@, "&"@) == s,
    decreases s.len(),
{
    lemma_entities();
    if s.len() > 0 {
        let rest = s.skip(1);
        lemma_restore_and(rest);
        let x = partly_escaped(rest, false, false, false);
        if s[0] == '&' {
            lemma_replace_hit(x, "&amp;"@, "&"@);
        } else {
            lemma_replace_plain(seq![s[0]], x, "&amp;"@, "&"@);
        }
        assert(seq![s[0]] + rest =~= s);
    } else {
        assert(s =~= Seq::empty());
    }
}

/// Restoring the escaped characters gives every text back.
pub proof fn law_escape_round_trip(s: Seq<char>)
    ensures
        document::unescaped(document::escaped(s)) == s,
{
    lemma_escaped_partly(s);
    lemma_restore(s, true, true, true);
    lemma_restore(s, false, true, true);
    lemma_restore(s, false, false, true);
    lemma_restore_and(s);
}

/// An escaped text holds no character that starts or ends a tag or a quoted
/// attribute.
pub proof fn law_escaped_is_inert(s: Seq<char>, i: int)
    requires
        0 <= i < document::escaped(s).len(),
    ensures
        document::escaped(s)[i] != '<',
        document::escaped(s)[i] != '>',
        document::escaped(s)[i] != '"',
    decreases s.len(),
{
    lemma_entities();
    if s.len() > 0 {
        let before = document::escaped(s.drop_last());
        if i < before.len() {
            law_escaped_is_inert(s.drop_last(), i);
            assert(document::escaped(s)[i] == before[i]);
        } else {
            assert(document::escaped(s)[i] == document::escaped_char(s.last())[i - before.len()]);
        }
    }
}

/// An escaped text passes through the stripping of tags unchanged.
pub proof fn law_escaped_is_no_tag(s: Seq<char>)
    ensures
        document::untag(document::escaped(s)).text == document::escaped(s),
{
    let e = document::escaped(s);
    assert forall|i: int| 0 <= i < e.len() implies e[i] != '<' && e[i] != '>' by {
        law_escaped_is_inert(s, i);
    }
    lemma_untag_plain(e);
}

proof fn lemma_untag_plain(t: Seq<char>)
    requires
        forall|i: int| 0 <= i < t.len() ==> t[i] != '<' && t[i] != '>',
    ensures
        document::untag(t).text == t,
        !document::untag(t).in_tag,
    decreases t.len(),
{
    if t.len() > 0 {
        lemma_untag_plain(t.drop_last());
        assert(t.last() == t[t.len() - 1]);
        assert(t.drop_last().push(t.last()) =~= t);
    } else {
        assert(t =~= Seq::empty());
    }
}

// ---------------------------------------------------------------------------
// Word wrap
// ---------------------------------------------------------------------------

/// Whether no line is longer than a width.
pub open spec fn within(lines: Seq<Seq<char>>, width: nat) -> bool {
    forall|i: int| 0 <= i < lines.len() ==> (#[trigger] lines[i]).len() <= width
}

proof fn lemma_pieces_within(word: Seq<char>, width: nat)
    requires
        width > 0,
    ensures
        within(document::full_pieces(word, width), width),
        document::last_piece(word, width).len() <= width,
    decreases word.len(),
{
    if word.len() > width {
        lemma_pieces_within(word.skip(width as int), width);
        let more = document::full_pieces(word.skip(width as int), width);
        let all = document::full_pieces(word, width);
        assert forall|i: int| 0 <= i < all.len() implies (#[trigger] all[i]).len() <= width by {
            if i > 0 {
                assert(all[i] == more[i - 1]);
            }
        }
    }
}

proof fn lemma_fill_within(words: Seq<Seq<char>>, width: nat)
    requires
        width > 0,
    ensures
        within(document::fill(words, width).done, width),
        document::fill(words, width).current.len() <= width,
    decreases words.len(),
{
    if words.len() > 0 {
        lemma_fill_within(words.drop_last(), width);
        lemma_pieces_within(words.last(), width);
        let w = document::fill(words.drop_last(), width);
        let v = document::split_word(w, words.last(), width);
        let full = document::full_pieces(words.last(), width);
        if full.len() > 0 {
            let head = if w.current.len() > 0 {
                w.done.push(w.current)
            } else {
                w.done
            };
            assert forall|i: int| 0 <= i < v.done.len() implies (#[trigger] v.done[i]).len()
                <= width by {
                if i < w.done.len() {
                    assert(v.done[i] == w.done[i]);
                } else if i >= head.len() {
                    assert(v.done[i] == full[i - head.len()]);
                }
            }
        }
    }
}

/// No wrapped line is longer than the width.
pub proof fn law_wrap_fits(line: Seq<char>, width: nat)
    requires
        width > 0,
    ensures
        within(document::wrap(line, width), width),
        document::wrap(line, width).len() > 0,
{
    lemma_fill_within(text::words(line), width);
}

/// The visible characters of a text.
pub open spec fn ink(s: Seq<char>) -> Seq<char>
    decreases s.len(),
{
    if s.len() == 0 {
        Seq::empty()
    } else if text::is_space(s.last()) {
        ink(s.drop_last())
    } else {
        ink(s.drop_last()).push(s.last())
    }
}

/// The visible characters of some lines, one line after the other.
pub open spec fn ink_of(lines: Seq<Seq<char>>) -> Seq<char>
    decreases lines.len(),
{
    if lines.len() == 0 {
        Seq::empty()
    } else {
        ink_of(lines.drop_last()) + ink(lines.last())
    }
}

proof fn lemma_ink_concat(a: Seq<char>, b: Seq<char>)
    ensures
        ink(a + b) == ink(a) + ink(b),
    decreases b.len(),
{
    if b.len() == 0 {
        assert(a + b =~= a);
        assert(ink(a) + ink(b) =~= ink(a));
    } else {
        lemma_ink_concat(a, b.drop_last());
        assert((a + b).drop_last() =~= a + b.drop_last());
        assert((a + b).last() == b.last());
        if !text::is_space(b.last()) {
            assert((ink(a) + ink(b.drop_last())).push(b.last()) =~= ink(a) + ink(
                b.drop_last(),
            ).push(b.last()));
        }
    }
}

proof fn lemma_ink_lines(a: Seq<Seq<char>>, b: Seq<Seq<char>>)
    ensures
        ink_of(a + b) == ink_of(a) + ink_of(b),
    decreases b.len(),
{
    if b.len() == 0 {
        assert(a + b =~= a);
        assert(ink_of(a) + ink_of(b) =~= ink_of(a));
    } else {
        lemma_ink_lines(a, b.drop_last());
        assert((a + b).drop_last() =~= a + b.drop_last());
        assert((a + b).last() == b.last());
        assert((ink_of(a) + ink_of(b.drop_last())) + ink(b.last()) =~= ink_of(a) + (ink_of(
            b.drop_last(),
        ) + ink(b.last())));
    }
}

proof fn lemma_ink_one(l: Seq<char>)
    ensures
        ink_of(seq![l]) == ink(l),
{
    assert(seq![l].drop_last() =~= Seq::empty());
    assert(ink_of(seq![l].drop_last()) =~= Seq::empty());
    assert(Seq::<char>::empty() + ink(l) =~= ink(l));
}

/// One more line adds its visible characters.
pub proof fn lemma_ink_push(a: Seq<Seq<char>>, l: Seq<char>)
    ensures
        ink_of(a.push(l)) == ink_of(a) + ink(l),
{
    assert(a.push(l).drop_last() =~= a);
}

proof fn lemma_ink_pieces(word: Seq<char>, width: nat)
    ensures
        ink_of(document::full_pieces(word, width)) + ink(document::last_piece(word, width)) == ink(
            word,
        ),
    decreases word.len(),
{
    if width == 0 || word.len() <= width {
        assert(ink_of(Seq::<Seq<char>>::empty()) + ink(word) =~= ink(word));
    } else {
        let head = word.take(width as int);
        let tail = word.skip(width as int);
        lemma_ink_pieces(tail, width);
        lemma_ink_concat(head, tail);
        assert(head + tail =~= word);
        lemma_ink_lines(seq![head], document::full_pieces(tail, width));
        lemma_ink_one(head);
        assert((ink(head) + ink_of(document::full_pieces(tail, width))) + ink(
            document::last_piece(tail, width),
        ) =~= ink(head) + (ink_of(document::full_pieces(tail, width)) + ink(
            document::last_piece(tail, width),
        )));
    }
}

/// The visible characters of a wrapped text so far.
spec fn ink_wrapped(w: Wrapped) -> Seq<char> {
    ink_of(w.done) + ink(w.current)
}

proof fn lemma_ink_fill(words: Seq<Seq<char>>, width: nat)
    ensures
        ink_wrapped(document::fill(words, width)) == ink_of(words),
    decreases words.len(),
{
    if words.len() == 0 {
        assert(ink_wrapped(document::fill(words, width)) =~= Seq::empty());
    } else {
        let word = words.last();
        let w = document::fill(words.drop_last(), width);
        let v = document::split_word(w, word, width);
        let full = document::full_pieces(word, width);
        let rest = document::last_piece(word, width);
        lemma_ink_fill(words.drop_last(), width);
        lemma_ink_pieces(word, width);
        if full.len() > 0 {
            lemma_ink_push(w.done, w.current);
            let head = if w.current.len() > 0 {
                w.done.push(w.current)
            } else {
                w.done
            };
            lemma_ink_lines(head, full);
            if w.current.len() == 0 {
                assert(ink_of(w.done) + ink(w.current) =~= ink_of(w.done));
            }
            assert(ink_wrapped(v) =~= ink_wrapped(w) + ink_of(full));
        } else {
            assert(full =~= Seq::empty());
            assert(ink_wrapped(w) + ink_of(full) =~= ink_wrapped(w));
        }
        let n = document::add_word(w, word, width);
        assert(ink_wrapped(n) == ink_wrapped(v) + ink(rest)) by {
            if v.current.len() == 0 {
                assert(ink_of(v.done) + ink(v.current) =~= ink_of(v.done));
            } else if v.current.len() + 1 + rest.len() <= width {
                lemma_ink_concat(v.current.push(' '), rest);
                lemma_ink_concat(v.current, seq![' ']);
                assert(v.current.push(' ') =~= v.current + seq![' ']);
                assert(seq![' '].drop_last() =~= Seq::empty());
                assert(seq![' '].last() == ' ');
                assert(text::is_space(' '));
                assert(ink(seq![' ']) == ink(seq![' '].drop_last()));
                assert(ink(seq![' ']) =~= Seq::empty());
                assert(ink(v.current) + ink(seq![' ']) =~= ink(v.current));
                assert(ink_of(v.done) + (ink(v.current) + ink(rest)) =~= (ink_of(v.done) + ink(
                    v.current,
                )) + ink(rest));
            } else {
                lemma_ink_push(v.done, v.current);
            }
        }
        assert((ink_wrapped(w) + ink_of(full)) + ink(rest) =~= ink_wrapped(w) + (ink_of(full)
            + ink(rest)));
    }
}

proof fn lemma_ink_words(s: Seq<char>)
    ensures
        text::split_spaces(s).len() >= 1,
        ink_of(text::split_spaces(s)) == ink(s),
        forall|i: int| 0 <= i < text::split_spaces(s).len() ==> ink(
            #[trigger] text::split_spaces(s)[i],
        ) == text::split_spaces(s)[i],
    decreases s.len(),
{
    if s.len() == 0 {
        lemma_ink_one(Seq::empty());
        assert(ink(Seq::<char>::empty()) =~= Seq::empty());
    } else {
        let before = text::split_spaces(s.drop_last());
        lemma_ink_words(s.drop_last());
        let now = text::split_spaces(s);
        if text::is_space(s.last()) {
            lemma_ink_push(before, Seq::empty());
            assert(ink_of(before) + ink(Seq::<char>::empty()) =~= ink_of(before));
            assert forall|i: int| 0 <= i < now.len() implies ink(#[trigger] now[i]) == now[i] by {
                if i < before.len() {
                    assert(now[i] == before[i]);
                } else {
                    assert(now[i] =~= Seq::empty());
                    assert(ink(now[i]) =~= Seq::empty());
                }
            }
        } else {
            let tail = before.last().push(s.last());
            lemma_ink_push(before.drop_last(), before.last());
            assert(before.drop_last().push(before.last()) =~= before);
            lemma_ink_push(before.drop_last(), tail);
            assert(tail.drop_last() =~= before.last());
            assert(ink(tail) == ink(before.last()).push(s.last()));
            assert(ink_of(before.drop_last()) + ink(before.last()).push(s.last()) =~= (ink_of(
                before.drop_last(),
            ) + ink(before.last())).push(s.last()));
            assert forall|i: int| 0 <= i < now.len() implies ink(#[trigger] now[i]) == now[i] by {
                if i < before.len() - 1 {
                    assert(now[i] == before[i]);
                } else {
                    assert(before[before.len() - 1] == before.last());
                    assert(now[i] == tail);
                }
            }
        }
    }
}

proof fn lemma_ink_non_empty(v: Seq<Seq<char>>)
    ensures
        ink_of(text::non_empty(v)) == ink_of(v),
    decreases v.len(),
{
    if v.len() > 0 {
        lemma_ink_non_empty(v.drop_last());
        if v.last().len() == 0 {
            assert(v.last() =~= Seq::empty());
            assert(ink(v.last()) =~= Seq::empty());
            assert(ink_of(v.drop_last()) + ink(v.last()) =~= ink_of(v.drop_last()));
        } else {
            lemma_ink_push(text::non_empty(v.drop_last()), v.last());
        }
    }
}

/// Wrapping loses no visible character and keeps their order.
pub proof fn law_wrap_keeps_ink(line: Seq<char>, width: nat)
    ensures
        ink_of(document::wrap(line, width)) == ink(line),
{
    let words = text::words(line);
    let w = document::fill(words, width);
    lemma_ink_fill(words, width);
    lemma_ink_non_empty(text::split_spaces(line));
    lemma_ink_words(line);
    lemma_ink_push(w.done, w.current);
    if w.current.len() == 0 {
        assert(w.current =~= Seq::empty());
        assert(ink(w.current) =~= Seq::empty());
        assert(ink_of(w.done) + ink(w.current) =~= ink_of(w.done));
    }
    let all = if w.current.len() > 0 {
        w.done.push(w.current)
    } else {
        w.done
    };
    if all.len() == 0 {
        lemma_ink_one(Seq::empty());
        assert(ink_of(all) =~= Seq::empty());
        assert(ink(Seq::<char>::empty()) =~= Seq::empty());
    }
}

// ---------------------------------------------------------------------------
// Pages
// ---------------------------------------------------------------------------

/// How many lines a page ends.
pub open spec fn breaks(ops: Seq<OpView>) -> nat
    decreases ops.len(),
{
    if ops.len() == 0 {
        0
    } else {
        breaks(ops.drop_last()) + if ops.last() is Break {
            1nat
        } else {
            0nat
        }
    }
}

/// The texts that a page writes.
pub open spec fn texts(ops: Seq<OpView>) -> Seq<LogicalView>
    decreases ops.len(),
{
    if ops.len() == 0 {
        Seq::empty()
    } else {
        match ops.last() {
            OpView::Write(s, is_heading) => texts(ops.drop_last()).push((s, is_heading)),
            _ => texts(ops.drop_last()),
        }
    }
}

/// The texts that some pages write, in order.
pub open spec fn all_texts(pages: Seq<Seq<OpView>>) -> Seq<LogicalView>
    decreases pages.len(),
{
    if pages.len() == 0 {
        Seq::empty()
    } else {
        all_texts(pages.drop_last()) + texts(pages.last())
    }
}

proof fn lemma_op(ops: Seq<OpView>, op: OpView)
    ensures
        breaks(ops.push(op)) == breaks(ops) + if op is Break {
            1nat
        } else {
            0nat
        },
        texts(ops.push(op)) == (match op {
            OpView::Write(s, is_heading) => texts(ops).push((s, is_heading)),
            _ => texts(ops),
        }),
{
    assert(ops.push(op).drop_last() =~= ops);
}

proof fn lemma_page_start()
    ensures
        breaks(document::page_start()) == 0,
        texts(document::page_start()) == Seq::<LogicalView>::empty(),
{
    let a = Seq::<OpView>::empty();
    lemma_op(a, OpView::Start);
    lemma_op(a.push(OpView::Start), OpView::Home);
    lemma_op(a.push(OpView::Start).push(OpView::Home), OpView::LineHeight);
    assert(document::page_start() =~= a.push(OpView::Start).push(OpView::Home).push(
        OpView::LineHeight,
    ));
}

/// Lines as they are written.
pub open spec fn as_written(lines: Seq<LogicalView>) -> Seq<LogicalView> {
    lines.map_values(|l: LogicalView| (document::sanitized(l.0), l.1))
}

/// Whether every finished page ends a number of lines that fits.
spec fn sound(t: Typeset) -> bool {
    &&& forall|i: int|
        0 <= i < t.pages.len() ==> document::PAGE_LINES <= breaks(#[trigger] t.pages[i])
            <= document::PAGE_LINES + 1
    &&& breaks(t.ops) == t.used
    &&& t.used <= document::PAGE_LINES + 1
}

proof fn lemma_typeset(lines: Seq<LogicalView>)
    ensures
        sound(document::set_lines(lines)),
        all_texts(document::set_lines(lines).pages) + texts(document::set_lines(lines).ops)
            == as_written(lines),
    decreases lines.len(),
{
    lemma_page_start();
    if lines.len() == 0 {
        assert(all_texts(document::set_lines(lines).pages) + texts(document::set_lines(lines).ops)
            =~= as_written(lines));
    } else {
        let rest = lines.drop_last();
        let line = lines.last();
        lemma_typeset(rest);
        let t = document::set_lines(rest);
        let u = document::turn_page(t);
        let full = t.ops.push(OpView::End);
        lemma_op(t.ops, OpView::End);
        assert(sound(u) && u.used < document::PAGE_LINES && all_texts(u.pages) + texts(u.ops)
            == as_written(rest)) by {
            if t.used >= document::PAGE_LINES {
                assert(u.pages.drop_last() =~= t.pages);
                assert(u.pages.last() == full);
                assert(all_texts(u.pages) + texts(u.ops) =~= all_texts(t.pages) + texts(t.ops));
                assert forall|i: int|
                    0 <= i < u.pages.len() implies document::PAGE_LINES <= breaks(
                    #[trigger] u.pages[i],
                ) <= document::PAGE_LINES + 1 by {
                    if i < t.pages.len() {
                        assert(u.pages[i] == t.pages[i]);
                    }
                }
            }
        }
        let a = u.ops.push(OpView::Font(line.1));
        let b = a.push(OpView::Write(document::sanitized(line.0), line.1));
        let c = b.push(OpView::Break);
        lemma_op(u.ops, OpView::Font(line.1));
        lemma_op(a, OpView::Write(document::sanitized(line.0), line.1));
        lemma_op(b, OpView::Break);
        lemma_op(c, OpView::Break);
        let n = document::set_lines(lines);
        assert(all_texts(n.pages) + texts(n.ops) =~= (all_texts(u.pages) + texts(u.ops)).push(
            (document::sanitized(line.0), line.1),
        ));
        assert(as_written(lines) =~= as_written(rest).push((document::sanitized(line.0), line.1)));
    }
}

/// No page ends more lines than fit on it, an extra one for air at most.
pub proof fn law_pages_fit(lines: Seq<LogicalView>, i: int)
    requires
        0 <= i < document::pages_of(lines).len(),
    ensures
        breaks(document::pages_of(lines)[i]) <= document::PAGE_LINES + 1,
{
    lemma_typeset(lines);
    let t = document::set_lines(lines);
    lemma_op(t.ops, OpView::End);
    if i < t.pages.len() {
        assert(document::pages_of(lines)[i] == t.pages[i]);
    }
}

/// A page is full before the next one starts: all but the last end 42 lines, or
/// one more for air.
pub proof fn law_pages_are_filled(lines: Seq<LogicalView>, i: int)
    requires
        0 <= i < document::pages_of(lines).len(),
    ensures
        breaks(document::pages_of(lines)[i]) <= 43,
        i < document::pages_of(lines).len() - 1 ==> breaks(document::pages_of(lines)[i]) >= 42,
{
    lemma_typeset(lines);
    let t = document::set_lines(lines);
    lemma_op(t.ops, OpView::End);
    if i < t.pages.len() {
        assert(document::pages_of(lines)[i] == t.pages[i]);
    }
}

/// The pages write every line once, in order.
pub proof fn law_pages_keep_lines(lines: Seq<LogicalView>)
    ensures
        all_texts(document::pages_of(lines)) == as_written(lines),
{
    lemma_typeset(lines);
    let t = document::set_lines(lines);
    lemma_op(t.ops, OpView::End);
    let pages = document::pages_of(lines);
    assert(pages.drop_last() =~= t.pages);
}

/// What is written fits the built-in fonts.
pub proof fn law_sanitized(s: Seq<char>, i: int)
    requires
        0 <= i < s.len(),
    ensures
        (document::sanitized(s)[i] as u32) <= 255,
        (document::sanitized(s)[i] as u32) >= 32 || document::sanitized(s)[i] == '\t',
{
}

} // verus!
