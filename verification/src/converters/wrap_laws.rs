//! What word wrap promises of words and lines.
use vstd::prelude::*;

use crate::converters::document;
use crate::converters::document_laws;
use crate::converters::document_laws::{ink, ink_of};
use crate::text;

verus! {

/// The words of some lines, in order.
pub open spec fn flat(groups: Seq<Seq<Seq<char>>>) -> Seq<Seq<char>>
    decreases groups.len(),
{
    if groups.len() == 0 {
        Seq::empty()
    } else {
        flat(groups.drop_last()) + groups.last()
    }
}

/// Whether lines are words laid out in order: each line some of them, with one
/// blank between two, and no line ended where the next word still fitted.
pub open spec fn lays_out(
    groups: Seq<Seq<Seq<char>>>,
    words: Seq<Seq<char>>,
    lines: Seq<Seq<char>>,
    width: nat,
) -> bool {
    &&& flat(groups) == words
    &&& lines.len() == groups.len()
    &&& forall|k: int|
        0 <= k < groups.len() ==> (#[trigger] groups[k]).len() > 0 && lines[k] == text::join(
            groups[k],
            " "@,
        )
    &&& forall|k: int|
        0 <= k < groups.len() - 1 ==> (#[trigger] lines[k]).len() + 1 + groups[k + 1][0].len()
            > width
}

proof fn lemma_join_push(v: Seq<Seq<char>>, x: Seq<char>)
    requires
        v.len() > 0,
    ensures
        text::join(v.push(x), " "@) == text::join(v, " "@).push(' ') + x,
{
    reveal_strlit(" ");
    assert(v.push(x).drop_last() =~= v);
    assert(text::join(v, " "@) + " "@ =~= text::join(v, " "@).push(' '));
}

proof fn lemma_flat_push(groups: Seq<Seq<Seq<char>>>, g: Seq<Seq<char>>)
    ensures
        flat(groups.push(g)) == flat(groups) + g,
{
    assert(groups.push(g).drop_last() =~= groups);
}

/// The lines so far.
spec fn so_far(w: document::Wrapped) -> Seq<Seq<char>> {
    if w.current.len() > 0 {
        w.done.push(w.current)
    } else {
        w.done
    }
}

spec fn fits(words: Seq<Seq<char>>, width: nat) -> bool {
    forall|k: int| 0 <= k < words.len() ==> 0 < (#[trigger] words[k]).len() <= width
}

proof fn lemma_fill(words: Seq<Seq<char>>, width: nat) -> (groups: Seq<Seq<Seq<char>>>)
    requires
        fits(words, width),
    ensures
        words.len() > 0 ==> document::fill(words, width).current.len() > 0,
        words.len() == 0 ==> document::fill(words, width).done.len() == 0,
        lays_out(groups, words, so_far(document::fill(words, width)), width),
    decreases words.len(),
{
    let now = document::fill(words, width);
    if words.len() == 0 {
        assert(flat(Seq::empty()) =~= words);
        assert(so_far(now) =~= Seq::empty());
        Seq::empty()
    } else {
        let rest = words.drop_last();
        let word = words.last();
        assert(words[words.len() - 1] == word);
        assert forall|k: int| 0 <= k < rest.len() implies 0 < (#[trigger] rest[k]).len()
            <= width by {
            assert(rest[k] == words[k]);
        }
        let groups = lemma_fill(rest, width);
        let w = document::fill(rest, width);
        let lines = so_far(w);
        assert(document::full_pieces(word, width) =~= Seq::empty());
        assert(document::last_piece(word, width) == word);
        assert(rest.push(word) =~= words);
        let one = seq![word];
        assert(text::join(one, " "@) == word);
        if w.current.len() > 0 && w.current.len() + 1 + word.len() <= width {
            let last = groups.last();
            let longer = groups.drop_last().push(last.push(word));
            lemma_join_push(last, word);
            lemma_flat_push(groups.drop_last(), last);
            assert(groups.drop_last().push(last) =~= groups);
            lemma_flat_push(groups.drop_last(), last.push(word));
            assert(flat(longer) =~= words);
            assert(groups[groups.len() - 1] == last);
            assert(lines[lines.len() - 1] == w.current);
            let next = so_far(now);
            assert forall|k: int| 0 <= k < longer.len() implies (#[trigger] longer[k]).len() > 0
                && next[k] == text::join(longer[k], " "@) by {
                if k < groups.len() - 1 {
                    assert(longer[k] == groups[k]);
                    assert(next[k] == lines[k]);
                }
            }
            assert forall|k: int| 0 <= k < longer.len() - 1 implies (#[trigger] next[k]).len() + 1
                + longer[k + 1][0].len() > width by {
                assert(next[k] == lines[k]);
                assert(longer[k + 1][0] == groups[k + 1][0]);
            }
            longer
        } else {
            let more = groups.push(one);
            lemma_flat_push(groups, one);
            assert(flat(more) =~= words);
            let next = so_far(now);
            assert(next =~= lines.push(word));
            assert forall|k: int| 0 <= k < more.len() implies (#[trigger] more[k]).len() > 0
                && next[k] == text::join(more[k], " "@) by {
                if k < groups.len() {
                    assert(more[k] == groups[k]);
                }
            }
            assert forall|k: int| 0 <= k < more.len() - 1 implies (#[trigger] next[k]).len() + 1
                + more[k + 1][0].len() > width by {
                assert(next[k] == lines[k]);
                if k < groups.len() - 1 {
                    assert(more[k + 1] == groups[k + 1]);
                } else {
                    assert(lines[k] == w.current);
                }
            }
            more
        }
    }
}

proof fn lemma_words_not_empty(v: Seq<Seq<char>>)
    ensures
        forall|k: int|
            0 <= k < text::non_empty(v).len() ==> (#[trigger] text::non_empty(v)[k]).len() > 0,
    decreases v.len(),
{
    if v.len() > 0 {
        lemma_words_not_empty(v.drop_last());
        let before = text::non_empty(v.drop_last());
        let now = text::non_empty(v);
        assert forall|k: int| 0 <= k < now.len() implies (#[trigger] now[k]).len() > 0 by {
            if k < before.len() {
                assert(now[k] == before[k]);
            }
        }
    }
}

/// Where every word fits on a line, the lines are the words in order, one blank
/// between two, and as many on each line as fit.
pub proof fn law_wrap_is_greedy(line: Seq<char>, width: nat)
    requires
        text::words(line).len() > 0,
        forall|k: int|
            0 <= k < text::words(line).len() ==> (#[trigger] text::words(line)[k]).len() <= width,
    ensures
        exists|groups: Seq<Seq<Seq<char>>>| #[trigger]
            lays_out(groups, text::words(line), document::wrap(line, width), width),
{
    lemma_words_not_empty(text::split_spaces(line));
    let groups = lemma_fill(text::words(line), width);
    assert(lays_out(groups, text::words(line), document::wrap(line, width), width));
}

proof fn lemma_full_pieces(word: Seq<char>, width: nat)
    requires
        width > 0,
    ensures
        forall|k: int|
            0 <= k < document::full_pieces(word, width).len() ==> (#[trigger] document::full_pieces(
                word,
                width,
            )[k]).len() == width,
        word.len() > 0 ==> document::last_piece(word, width).len() > 0,
    decreases word.len(),
{
    if word.len() > width {
        let tail = word.skip(width as int);
        lemma_full_pieces(tail, width);
        let more = document::full_pieces(tail, width);
        let all = document::full_pieces(word, width);
        assert forall|k: int| 0 <= k < all.len() implies (#[trigger] all[k]).len() == width by {
            if k > 0 {
                assert(all[k] == more[k - 1]);
            }
        }
    }
}

proof fn lemma_one_word(word: Seq<char>)
    requires
        forall|i: int| 0 <= i < word.len() ==> !text::is_space(#[trigger] word[i]),
    ensures
        text::split_spaces(word) == seq![word],
        ink(word) == word,
    decreases word.len(),
{
    if word.len() > 0 {
        let rest = word.drop_last();
        assert forall|i: int| 0 <= i < rest.len() implies !text::is_space(#[trigger] rest[i]) by {
            assert(rest[i] == word[i]);
        }
        lemma_one_word(rest);
        assert(word[word.len() - 1] == word.last());
        assert(rest.push(word.last()) =~= word);
        assert(seq![rest].drop_last().push(seq![rest].last().push(word.last())) =~= seq![word]);
    } else {
        assert(word =~= Seq::empty());
        assert(ink(word) =~= word);
    }
}

/// A word that does not fit on a line is cut into full lines and a rest, and
/// nothing of it is lost.
pub proof fn law_overlong_words_are_cut(word: Seq<char>, width: nat, k: int)
    requires
        width > 0,
        word.len() > 0,
        forall|i: int| 0 <= i < word.len() ==> !text::is_space(#[trigger] word[i]),
        0 <= k < document::wrap(word, width).len() - 1,
    ensures
        document::wrap(word, width)[k].len() == width,
        ink_of(document::wrap(word, width)) == word,
{
    lemma_one_word(word);
    document_laws::law_wrap_keeps_ink(word, width);
    lemma_full_pieces(word, width);
    let none = Seq::<Seq<char>>::empty();
    assert(seq![word].drop_last() =~= none);
    assert(text::non_empty(none) =~= none);
    assert(text::words(word) =~= seq![word]);
    let empty = document::fill(none, width);
    assert(document::fill(seq![word], width) == document::add_word(empty, word, width));
    let v = document::split_word(empty, word, width);
    assert(v.done =~= document::full_pieces(word, width));
}

} // verus!
