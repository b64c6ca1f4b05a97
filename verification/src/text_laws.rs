//! What holds of texts, whatever they say.
use vstd::prelude::*;

use crate::paths;
use crate::text;

verus! {

// ---------------------------------------------------------------------------
// Characters
// ---------------------------------------------------------------------------

/// Blanks, tabs and line ends are white space, and no other character of plain
/// English text is; nor are the letters of Europe and Asia.
pub proof fn law_white_space(c: char)
    ensures
        (c as u32) < 0x80 ==> (text::is_space(c) <==> c == ' ' || c == '\t' || c == '\n' || c
            == '\r' || c as u32 == 11 || c as u32 == 12),
        0x80 <= (c as u32) < 0x1680 ==> (text::is_space(c) <==> c as u32 == 0x85 || c as u32
            == 0xA0),
        0x1681 <= (c as u32) < 0x2000 ==> !text::is_space(c),
        c == '\u{3000}' ==> text::is_space(c),
        c > '\u{3000}' ==> !text::is_space(c),
{
}

/// Lower case changes capitals and nothing else, each to the small letter of the
/// same name, and leaves none.
pub proof fn law_lower_case(s: Seq<char>, i: int)
    requires
        0 <= i < s.len(),
    ensures
        text::lower(s).len() == s.len(),
        'A' <= s[i] && s[i] <= 'Z' ==> text::lower(s)[i] as int - 'a' as int == s[i] as int
            - 'A' as int,
        !('A' <= s[i] && s[i] <= 'Z') ==> text::lower(s)[i] == s[i],
        text::lower(text::lower(s)) == text::lower(s),
        text::lower(text::upper(s)) == text::lower(s),
{
    assert(text::lower(text::lower(s)) =~= text::lower(s));
    assert(text::lower(text::upper(s)) =~= text::lower(s));
}

/// Upper case changes small letters and nothing else, each to the capital of the
/// same name.
pub proof fn law_upper_case(s: Seq<char>, i: int)
    requires
        0 <= i < s.len(),
    ensures
        text::upper(s).len() == s.len(),
        'a' <= s[i] && s[i] <= 'z' ==> text::upper(s)[i] as int - 'A' as int == s[i] as int
            - 'a' as int,
        !('a' <= s[i] && s[i] <= 'z') ==> text::upper(s)[i] == s[i],
{
}

// ---------------------------------------------------------------------------
// Trimming
// ---------------------------------------------------------------------------

/// Trimming takes white space off the ends, all of it and nothing else.
pub proof fn law_trim(lead: Seq<char>, s: Seq<char>, trail: Seq<char>)
    requires
        text::blank(lead),
        text::blank(trail),
        s.len() > 0 ==> !text::is_space(s[0]) && !text::is_space(s.last()),
    ensures
        text::trim(lead + s + trail) == s,
        s.len() > 0 ==> text::trim_start(lead + s + trail) == s + trail,
        text::trim_end(lead + s) == (if s.len() > 0 {
            lead + s
        } else {
            Seq::empty()
        }),
{
    if s.len() > 0 {
        assert(lead + s + trail =~= lead + (s + trail));
        lemma_trim_lead(lead, s + trail);
        lemma_trim_trail(s, trail);
        lemma_trim_trail(lead + s, Seq::empty());
        assert((lead + s) + Seq::<char>::empty() =~= lead + s);
    } else {
        let all = lead + trail;
        assert(lead + s + trail =~= all);
        assert forall|i: int| 0 <= i < all.len() implies text::is_space(#[trigger] all[i]) by {
            if i < lead.len() {
                assert(all[i] == lead[i]);
            } else {
                assert(all[i] == trail[i - lead.len()]);
            }
        }
        let empty = Seq::<char>::empty();
        lemma_trim_lead(all, empty);
        assert(all + empty =~= all);
        lemma_trim_trail(empty, lead);
        assert(lead + s =~= empty + lead);
        assert(s =~= empty);
    }
}

/// White space in front is taken off.
pub proof fn lemma_trim_lead(lead: Seq<char>, rest: Seq<char>)
    requires
        text::blank(lead),
        rest.len() > 0 ==> !text::is_space(rest[0]),
    ensures
        text::trim_start(lead + rest) == rest,
    decreases lead.len(),
{
    let s = lead + rest;
    if lead.len() > 0 {
        let less = lead.drop_first();
        assert(lead[0] == s[0]);
        assert forall|i: int| 0 <= i < less.len() implies text::is_space(#[trigger] less[i]) by {
            assert(less[i] == lead[i + 1]);
        }
        assert(s.drop_first() =~= less + rest);
        lemma_trim_lead(less, rest);
    } else {
        assert(s =~= rest);
    }
}

/// White space at the end is taken off.
pub proof fn lemma_trim_trail(rest: Seq<char>, trail: Seq<char>)
    requires
        text::blank(trail),
        rest.len() > 0 ==> !text::is_space(rest.last()),
    ensures
        text::trim_end(rest + trail) == rest,
    decreases trail.len(),
{
    let s = rest + trail;
    if trail.len() > 0 {
        let less = trail.drop_last();
        assert(trail[trail.len() - 1] == s.last());
        assert forall|i: int| 0 <= i < less.len() implies text::is_space(#[trigger] less[i]) by {
            assert(less[i] == trail[i]);
        }
        assert(s.drop_last() =~= rest + less);
        lemma_trim_trail(rest, less);
    } else {
        assert(s =~= rest);
    }
}

// ---------------------------------------------------------------------------
// Splitting and joining
// ---------------------------------------------------------------------------

/// Joining puts the separator between the parts and nowhere else.
pub proof fn law_join(a: Seq<Seq<char>>, b: Seq<Seq<char>>, sep: Seq<char>)
    requires
        a.len() > 0,
        b.len() > 0,
    ensures
        text::join(a + b, sep) == text::join(a, sep) + sep + text::join(b, sep),
        text::join(seq![a[0]], sep) == a[0],
    decreases b.len(),
{
    if b.len() == 1 {
        assert((a + b).drop_last() =~= a);
        assert((a + b).last() == b[0]);
    } else {
        let less = b.drop_last();
        law_join(a, less, sep);
        assert((a + b).drop_last() =~= a + less);
        assert((a + b).last() == b.last());
        assert((text::join(a, sep) + sep + text::join(less, sep)) + sep + b.last() =~= text::join(
            a,
            sep,
        ) + sep + (text::join(less, sep) + sep + b.last()));
    }
}

/// The pieces of a split give the text back, and none holds the separator.
pub proof fn law_split_joins_back(s: Seq<char>, c: char)
    ensures
        text::join(text::split(s, c), seq![c]) == s,
        forall|k: int|
            0 <= k < text::split(s, c).len() ==> !(#[trigger] text::split(s, c)[k]).contains(c),
    decreases s.len(),
{
    paths::lemma_split_pieces(s, c);
    let now = text::split(s, c);
    let empty = Seq::<char>::empty();
    if s.len() == 0 {
        assert(now =~= seq![empty]);
        assert(s =~= empty);
    } else {
        let before = text::split(s.drop_last(), c);
        text::lemma_split_len(s.drop_last(), c);
        law_split_joins_back(s.drop_last(), c);
        assert(s.drop_last().push(s.last()) =~= s);
        if s.last() == c {
            assert(now.drop_last() =~= before);
            assert(now.last() == empty);
            assert(s.drop_last() + seq![c] + empty =~= s);
        } else {
            let head = before.drop_last();
            let piece = before.last();
            let longer = piece.push(s.last());
            if head.len() == 0 {
                assert(before =~= seq![piece]);
                assert(now =~= seq![longer]);
            } else {
                assert(now.drop_last() =~= head);
                assert(now.last() == longer);
                assert(text::join(head, seq![c]) + seq![c] + longer =~= (text::join(head, seq![c])
                    + seq![c] + piece).push(s.last()));
            }
        }
    }
}

/// What stands behind a separator is one more piece.
pub proof fn lemma_split_more(s: Seq<char>, c: char, t: Seq<char>)
    requires
        !t.contains(c),
    ensures
        text::split(s.push(c) + t, c) == text::split(s, c).push(t),
{
    paths::lemma_split_extend(s.push(c), t, c);
    assert(s.push(c).drop_last() =~= s);
    let before = text::split(s, c);
    assert(text::split(s.push(c), c) == before.push(Seq::empty()));
    assert(before.push(Seq::<char>::empty()).drop_last() =~= before);
    assert(Seq::<char>::empty() + t =~= t);
}

/// Joined parts come apart where they were joined.
pub proof fn law_joined_splits_back(v: Seq<Seq<char>>, c: char)
    requires
        v.len() > 0,
        forall|k: int| 0 <= k < v.len() ==> !(#[trigger] v[k]).contains(c),
    ensures
        text::split(text::join(v, seq![c]), c) == v,
    decreases v.len(),
{
    let empty = Seq::<char>::empty();
    if v.len() == 1 {
        paths::lemma_split_extend(empty, v[0], c);
        assert(empty + v[0] =~= v[0]);
        assert(text::split(empty, c) =~= seq![empty]);
        assert(seq![empty].drop_last().push(empty + v[0]) =~= v);
        assert(seq![empty].last() == empty);
    } else {
        let less = v.drop_last();
        assert forall|k: int| 0 <= k < less.len() implies !(#[trigger] less[k]).contains(c) by {
            assert(less[k] == v[k]);
        }
        law_joined_splits_back(less, c);
        assert(v[v.len() - 1] == v.last());
        lemma_split_more(text::join(less, seq![c]), c, v.last());
        assert(text::join(less, seq![c]) + seq![c] + v.last() =~= text::join(less, seq![c]).push(c)
            + v.last());
        assert(less.push(v.last()) =~= v);
    }
}

/// Whether a text is a line: without a line end in it or behind it.
pub open spec fn is_line(l: Seq<char>) -> bool {
    !l.contains('\n') && (l.len() > 0 ==> l.last() != '\r')
}

/// A text has the lines that it was put together from, however they were ended,
/// and whether the last one was.
pub proof fn law_lines(v: Seq<Seq<char>>)
    requires
        v.len() > 0,
        forall|k: int| 0 <= k < v.len() ==> is_line(#[trigger] v[k]),
    ensures
        text::lines(text::join(v, seq!['\n']).push('\n')) == v,
        text::lines(text::join(v, seq!['\r', '\n']) + seq!['\r', '\n']) == v,
        v.last().len() > 0 ==> text::lines(text::join(v, seq!['\n'])) == v,
{
    let empty = Seq::<char>::empty();
    let plain = text::join(v, seq!['\n']);
    law_joined_splits_back(v, '\n');
    assert(plain.push('\n') =~= plain.push('\n') + empty);
    lemma_split_more(plain, '\n', empty);
    let all = v.push(empty);
    let stripped = |l: Seq<char>| text::strip_cr(l);
    assert(all.drop_last() =~= v);
    assert(v.map_values(stripped) =~= v) by {
        assert forall|k: int| 0 <= k < v.len() implies v.map_values(stripped)[k] == v[k] by {
            assert(is_line(v[k]));
        }
    }
    let less = v.drop_last();
    assert(less.map_values(stripped) =~= less) by {
        assert forall|k: int| 0 <= k < less.len() implies less.map_values(stripped)[k]
            == less[k] by {
            assert(is_line(v[k]));
        }
    }
    assert(less.push(v.last()) =~= v);
    let w = v.map_values(|l: Seq<char>| l.push('\r'));
    assert forall|k: int| 0 <= k < w.len() implies !(#[trigger] w[k]).contains('\n') by {
        assert(is_line(v[k]));
        if w[k].contains('\n') {
            let j = choose|j: int| 0 <= j < w[k].len() && w[k][j] == '\n';
            assert(v[k][j] == '\n');
        }
    }
    law_joined_splits_back(w, '\n');
    lemma_join_returns(v);
    let text_w = text::join(w, seq!['\n']);
    assert(text_w.push('\n') =~= text_w.push('\n') + empty);
    lemma_split_more(text_w, '\n', empty);
    assert(w.push(empty).drop_last() =~= w);
    assert(w.map_values(stripped) =~= v) by {
        assert forall|k: int| 0 <= k < v.len() implies w.map_values(stripped)[k] == v[k] by {
            assert(w[k].drop_last() =~= v[k]);
        }
    }
    assert(text::join(v, seq!['\r', '\n']) + seq!['\r', '\n'] =~= text_w.push('\n'));
}

/// Lines that end in both are lines that end in a return, ended once more.
proof fn lemma_join_returns(v: Seq<Seq<char>>)
    requires
        v.len() > 0,
    ensures
        text::join(v.map_values(|l: Seq<char>| l.push('\r')), seq!['\n']) == text::join(
            v,
            seq!['\r', '\n'],
        ).push('\r'),
    decreases v.len(),
{
    let w = v.map_values(|l: Seq<char>| l.push('\r'));
    if v.len() > 1 {
        let less = v.drop_last();
        lemma_join_returns(less);
        assert(w.drop_last() =~= less.map_values(|l: Seq<char>| l.push('\r')));
        let x = text::join(less, seq!['\r', '\n']);
        assert(x.push('\r') + seq!['\n'] + v.last().push('\r') =~= (x + seq!['\r', '\n']
            + v.last()).push('\r'));
    }
}

/// Whether a text is a word: some characters, none of them white space.
pub open spec fn is_word(w: Seq<char>) -> bool {
    w.len() > 0 && forall|i: int| 0 <= i < w.len() ==> !text::is_space(#[trigger] w[i])
}

proof fn lemma_spaces_extend(s: Seq<char>, w: Seq<char>)
    requires
        forall|i: int| 0 <= i < w.len() ==> !text::is_space(#[trigger] w[i]),
    ensures
        text::split_spaces(s).len() >= 1,
        text::split_spaces(s + w) == text::split_spaces(s).drop_last().push(
            text::split_spaces(s).last() + w,
        ),
    decreases w.len(), s.len(),
{
    let before = text::split_spaces(s);
    assert(before.len() >= 1) by {
        lemma_spaces_some(s);
    }
    if w.len() == 0 {
        assert(s + w =~= s);
        assert(before.last() + w =~= before.last());
        assert(before.drop_last().push(before.last()) =~= before);
    } else {
        let less = w.drop_last();
        assert forall|i: int| 0 <= i < less.len() implies !text::is_space(#[trigger] less[i]) by {
            assert(less[i] == w[i]);
        }
        lemma_spaces_extend(s, less);
        assert((s + w).drop_last() =~= s + less);
        assert(w[w.len() - 1] == (s + w).last());
        let mid = text::split_spaces(s + less);
        assert(mid.drop_last() =~= before.drop_last());
        assert((before.last() + less).push(w.last()) =~= before.last() + w);
    }
}

proof fn lemma_spaces_some(s: Seq<char>)
    ensures
        text::split_spaces(s).len() >= 1,
    decreases s.len(),
{
    if s.len() > 0 {
        lemma_spaces_some(s.drop_last());
    }
}

proof fn lemma_words_push(s: Seq<char>, gap: char, w: Seq<char>)
    requires
        text::is_space(gap),
        is_word(w),
    ensures
        text::words(s.push(gap) + w) == text::words(s).push(w),
{
    lemma_spaces_extend(s.push(gap), w);
    assert(s.push(gap).drop_last() =~= s);
    let before = text::split_spaces(s);
    let mid = before.push(Seq::<char>::empty());
    assert(text::split_spaces(s.push(gap)) == mid);
    assert(mid.drop_last() =~= before);
    assert(Seq::<char>::empty() + w =~= w);
    assert(before.push(w).drop_last() =~= before);
}

/// A line has the words that it was put together from.
pub proof fn law_words(v: Seq<Seq<char>>, gap: char)
    requires
        v.len() > 0,
        text::is_space(gap),
        forall|k: int| 0 <= k < v.len() ==> is_word(#[trigger] v[k]),
    ensures
        text::words(text::join(v, seq![gap])) == v,
    decreases v.len(),
{
    let empty = Seq::<char>::empty();
    let none = Seq::<Seq<char>>::empty();
    if v.len() == 1 {
        assert(is_word(v[0]));
        lemma_spaces_extend(empty, v[0]);
        assert(empty + v[0] =~= v[0]);
        assert(text::split_spaces(empty) =~= seq![empty]);
        assert(text::split_spaces(v[0]) =~= seq![v[0]]);
        assert(seq![v[0]].drop_last() =~= none);
        assert(text::non_empty(none) =~= none);
        assert(none.push(v[0]) =~= v);
    } else {
        let less = v.drop_last();
        assert forall|k: int| 0 <= k < less.len() implies is_word(#[trigger] less[k]) by {
            assert(less[k] == v[k]);
        }
        law_words(less, gap);
        assert(is_word(v[v.len() - 1]));
        let x = text::join(less, seq![gap]);
        lemma_words_push(x, gap, v.last());
        assert(x + seq![gap] + v.last() =~= x.push(gap) + v.last());
        assert(less.push(v.last()) =~= v);
    }
}

// ---------------------------------------------------------------------------
// Searching and replacing
// ---------------------------------------------------------------------------

/// Leaving out a text takes out every item equal to it and keeps the order of
/// the others.
pub proof fn law_left_out(a: Seq<Seq<char>>, b: Seq<Seq<char>>, x: Seq<char>)
    ensures
        text::without(a + b, x) == text::without(a, x) + text::without(b, x),
        text::without(seq![x], x) == Seq::<Seq<char>>::empty(),
        forall|y: Seq<char>| y != x ==> #[trigger] text::without(seq![y], x) == seq![y],
    decreases b.len(),
{
    let none = Seq::<Seq<char>>::empty();
    assert(text::without(none, x) =~= none);
    assert(seq![x].drop_last() =~= none);
    assert forall|y: Seq<char>| y != x implies #[trigger] text::without(seq![y], x) == seq![y] by {
        assert(seq![y].drop_last() =~= none);
        assert(none.push(y) =~= seq![y]);
    }
    if b.len() == 0 {
        assert(a + b =~= a);
        assert(text::without(a, x) + none =~= text::without(a, x));
    } else {
        law_left_out(a, b.drop_last(), x);
        assert((a + b).drop_last() =~= a + b.drop_last());
        assert((a + b).last() == b.last());
        assert((text::without(a, x) + text::without(b.drop_last(), x)).push(b.last())
            =~= text::without(a, x) + text::without(b.drop_last(), x).push(b.last()));
    }
}

/// The place of a text is the first where it stands.
pub proof fn law_first_place(v: Seq<Seq<char>>, x: Seq<char>, k: int)
    requires
        0 <= k < v.len() <= usize::MAX,
        v[k] == x,
        forall|j: int| 0 <= j < k ==> v[j] != x,
    ensures
        text::position(v, x) == Some(k as usize),
    decreases v.len(),
{
    if k < v.len() - 1 {
        assert(v.drop_last()[k] == x);
        assert forall|j: int| 0 <= j < k implies v.drop_last()[j] != x by {
            assert(v.drop_last()[j] == v[j]);
        }
        law_first_place(v.drop_last(), x, k);
    } else {
        text::lemma_position(v.drop_last(), x);
        if v.drop_last().contains(x) {
            let j = choose|j: int| 0 <= j < v.drop_last().len() && v.drop_last()[j] == x;
            assert(v[j] == x);
        }
    }
}

/// Replacing puts the new text where the old one stood and changes nothing else.
pub proof fn law_replace(s: Seq<char>, from: Seq<char>, to: Seq<char>)
    requires
        from.len() > 0,
    ensures
        text::replace(from + s, from, to) == to + text::replace(s, from, to),
        s.len() > 0 && !from.is_prefix_of(s) ==> text::replace(s, from, to) == seq![s[0]]
            + text::replace(s.skip(1), from, to),
        s.len() < from.len() ==> text::replace(s, from, to) == s,
{
    let whole = from + s;
    assert(whole.take(from.len() as int) =~= from);
    assert(whole.skip(from.len() as int) =~= s);
    if s.len() > 0 && s.len() < from.len() {
        assert(s =~= seq![s[0]] + s.skip(1));
    }
}

} // verus!
