//! Strings as sequences of characters.
//!
//! Every text rule of the converter is stated over `Seq<char>`. The
//! executable functions here walk a string character by character.
use vstd::prelude::*;

verus! {

/// `String::push` appends one character.
pub assume_specification[ String::push ](s: &mut String, c: char)
    ensures
        final(s)@ == old(s)@.push(c),
;

// ---------------------------------------------------------------------------
// Characters
// ---------------------------------------------------------------------------

/// The Unicode `White_Space` characters.
pub open spec fn is_space(c: char) -> bool {
    let u = c as u32;
    ||| 0x09 <= u <= 0x0D
    ||| u == 0x20
    ||| u == 0x85
    ||| u == 0xA0
    ||| u == 0x1680
    ||| 0x2000 <= u <= 0x200A
    ||| u == 0x2028
    ||| u == 0x2029
    ||| u == 0x202F
    ||| u == 0x205F
    ||| u == 0x3000
}

/// Whether a character is Unicode white space.
pub fn space(c: char) -> (r: bool)
    ensures
        r == is_space(c),
{
    let u: u32 = c as u32;
    (0x09 <= u && u <= 0x0D) || u == 0x20 || u == 0x85 || u == 0xA0 || u == 0x1680 || (0x2000 <= u
        && u <= 0x200A) || u == 0x2028 || u == 0x2029 || u == 0x202F || u == 0x205F || u == 0x3000
}

/// ASCII upper-case letters mapped to lower case, everything else kept.
pub open spec fn lower_char(c: char) -> char {
    if 'A' <= c && c <= 'Z' {
        (c as u32 + 32) as char
    } else {
        c
    }
}

/// The ASCII lower-case form of a character.
pub fn lower_one(c: char) -> (r: char)
    ensures
        r == lower_char(c),
{
    if 'A' <= c && c <= 'Z' {
        ((c as u8) + 32) as char
    } else {
        c
    }
}

// ---------------------------------------------------------------------------
// Conversion and comparison
// ---------------------------------------------------------------------------

/// The characters of a string.
pub fn chars_of(s: &str) -> (r: Vec<char>)
    ensures
        r@ == s@,
{
    let mut out: Vec<char> = Vec::new();
    for c in it: s.chars()
        invariant
            it.seq() == s@,
            out@ == s@.take(it.index() as int),
    {
        out.push(c);
    }
    out
}

/// Whether two strings hold the same characters.
pub fn same(a: &str, b: &str) -> (r: bool)
    ensures
        r == (a@ == b@),
{
    a.to_owned() == b.to_owned()
}

/// Two strings, one after the other.
pub fn cat(a: &str, b: &str) -> (r: String)
    ensures
        r@ == a@ + b@,
{
    let mut out = a.to_owned();
    out.append(b);
    out
}

/// Three strings, one after the other.
pub fn cat3(a: &str, b: &str, c: &str) -> (r: String)
    ensures
        r@ == a@ + b@ + c@,
{
    let mut out = cat(a, b);
    out.append(c);
    out
}

/// Four strings, one after the other.
pub fn cat4(a: &str, b: &str, c: &str, d: &str) -> (r: String)
    ensures
        r@ == a@ + b@ + c@ + d@,
{
    let mut out = cat3(a, b, c);
    out.append(d);
    out
}

/// Five strings, one after the other.
pub fn cat5(a: &str, b: &str, c: &str, d: &str, e: &str) -> (r: String)
    ensures
        r@ == a@ + b@ + c@ + d@ + e@,
{
    let mut out = cat4(a, b, c, d);
    out.append(e);
    out
}

/// A copy of a list of strings.
pub fn copy_list(v: &Vec<String>) -> (r: Vec<String>)
    ensures
        r.deep_view() == v.deep_view(),
{
    let mut out: Vec<String> = Vec::new();
    for i in 0..v.len()
        invariant
            out@.len() == i,
            forall|j: int| 0 <= j < i ==> out@[j]@ == v@[j]@,
    {
        out.push(v[i].clone());
    }
    assert(out.deep_view() =~= v.deep_view());
    out
}

/// Whether a list holds a string.
pub fn holds(v: &Vec<String>, s: &str) -> (r: bool)
    ensures
        r == v.deep_view().contains(s@),
{
    for i in 0..v.len()
        invariant
            forall|j: int| 0 <= j < i ==> v.deep_view()[j] != s@,
    {
        if same(v[i].as_str(), s) {
            assert(v.deep_view()[i as int] == s@);
            return true;
        }
    }
    false
}

/// Where a text first stands in a list.
pub open spec fn position(v: Seq<Seq<char>>, x: Seq<char>) -> Option<usize>
    decreases v.len(),
{
    if v.len() == 0 {
        None
    } else {
        match position(v.drop_last(), x) {
            Some(i) => Some(i),
            None => if v.last() == x {
                Some((v.len() - 1) as usize)
            } else {
                None
            },
        }
    }
}

/// Where a text first stands in a list.
pub fn position_of(v: &Vec<String>, x: &str) -> (r: Option<usize>)
    ensures
        r == position(v.deep_view(), x@),
        r matches Some(i) ==> i < v@.len() && v.deep_view()[i as int] == x@,
{
    let ghost all = v.deep_view();
    let mut found: Option<usize> = None;
    for i in 0..v.len()
        invariant
            all == v.deep_view(),
            found == position(all.take(i as int), x@),
            found matches Some(k) ==> k < i && all[k as int] == x@,
    {
        assert(all.take(i + 1).drop_last() =~= all.take(i as int));
        assert(all[i as int] == v@[i as int]@);
        if found.is_none() && same(v[i].as_str(), x) {
            found = Some(i);
        }
    }
    assert(all.take(all.len() as int) =~= all);
    found
}

/// A position holds what was looked for; where there is none, it is nowhere.
pub proof fn lemma_position(v: Seq<Seq<char>>, x: Seq<char>)
    requires
        v.len() <= usize::MAX,
    ensures
        position(v, x) matches Some(i) ==> i < v.len() && v[i as int] == x,
        position(v, x) is Some <==> v.contains(x),
    decreases v.len(),
{
    if v.len() > 0 {
        lemma_position(v.drop_last(), x);
        if v.contains(x) {
            let k = choose|k: int| 0 <= k < v.len() && v[k] == x;
            if k < v.len() - 1 {
                assert(v.drop_last()[k] == x);
            }
        }
        if position(v.drop_last(), x) is Some {
            let k = choose|k: int| 0 <= k < v.drop_last().len() && v.drop_last()[k] == x;
            assert(v[k] == x);
        } else if v.last() == x {
            assert(v[v.len() - 1] == x);
        }
    }
}

/// The members of a list that differ from `x`.
pub open spec fn without(v: Seq<Seq<char>>, x: Seq<char>) -> Seq<Seq<char>>
    decreases v.len(),
{
    if v.len() == 0 {
        Seq::empty()
    } else if v.last() == x {
        without(v.drop_last(), x)
    } else {
        without(v.drop_last(), x).push(v.last())
    }
}

/// Leaves out of a list what equals `x`.
pub fn leave_out(v: Vec<String>, x: &str) -> (r: Vec<String>)
    ensures
        r.deep_view() == without(v.deep_view(), x@),
{
    let mut out: Vec<String> = Vec::new();
    let ghost all = v.deep_view();
    assert(out.deep_view() =~= without(all.take(0), x@));
    for i in 0..v.len()
        invariant
            all == v.deep_view(),
            out.deep_view() == without(all.take(i as int), x@),
    {
        let ghost before = out.deep_view();
        assert(all.take(i + 1).drop_last() =~= all.take(i as int));
        assert(all[i as int] == v@[i as int]@);
        if !same(v[i].as_str(), x) {
            out.push(v[i].clone());
            assert(out.deep_view() =~= before.push(all[i as int]));
        }
    }
    assert(all.take(all.len() as int) =~= all);
    out
}

/// What stays is what was there and differs; order and uniqueness stay.
pub proof fn lemma_without(v: Seq<Seq<char>>, x: Seq<char>)
    ensures
        forall|t: Seq<char>| #[trigger] without(v, x).contains(t) <==> v.contains(t) && t != x,
        v.no_duplicates() ==> without(v, x).no_duplicates(),
    decreases v.len(),
{
    if v.len() > 0 {
        let rest = v.drop_last();
        lemma_without(rest, x);
        assert forall|t: Seq<char>| #[trigger] without(v, x).contains(t) <==> v.contains(t) && t
            != x by {
            let w = without(v, x);
            if w.contains(t) {
                let j = choose|j: int| 0 <= j < w.len() && w[j] == t;
                if v.last() != x && j == w.len() - 1 {
                    assert(v[v.len() - 1] == t);
                } else {
                    assert(without(rest, x)[j] == t);
                    assert(without(rest, x).contains(t));
                    let k = choose|k: int| 0 <= k < rest.len() && rest[k] == t;
                    assert(v[k] == t);
                }
            }
            if v.contains(t) && t != x {
                let k = choose|k: int| 0 <= k < v.len() && v[k] == t;
                if k < v.len() - 1 {
                    assert(rest[k] == t);
                    assert(without(rest, x).contains(t));
                    let j = choose|j: int| 0 <= j < without(rest, x).len() && without(rest, x)[j] == t;
                    assert(w[j] == t);
                } else {
                    assert(w[w.len() - 1] == t);
                }
            }
        }
        if v.no_duplicates() {
            assert(rest.no_duplicates());
            if v.last() != x {
                let w0 = without(rest, x);
                if w0.contains(v.last()) {
                    let k = choose|k: int| 0 <= k < rest.len() && rest[k] == v.last();
                    assert(v[k] == v[v.len() - 1]);
                }
                let w = without(v, x);
                assert forall|i: int, j: int| 0 <= i < w.len() && 0 <= j < w.len() && i
                    != j implies w[i] != w[j] by {
                    if i == w.len() - 1 {
                        assert(w0[j] == w[j]);
                        assert(w0.contains(w[j]));
                    } else if j == w.len() - 1 {
                        assert(w0[i] == w[i]);
                        assert(w0.contains(w[i]));
                    } else {
                        assert(w[i] == w0[i] && w[j] == w0[j]);
                    }
                }
            }
        }
    }
}

/// The ASCII lower-case form of a text.
pub open spec fn lower(s: Seq<char>) -> Seq<char> {
    s.map_values(|c: char| lower_char(c))
}

/// ASCII lower-cases a string.
pub fn to_lower(s: &str) -> (r: String)
    ensures
        r@ == lower(s@),
{
    let cs = chars_of(s);
    let mut out = String::new();
    for i in 0..cs.len()
        invariant
            cs@ == s@,
            out@ == lower(s@).take(i as int),
    {
        out.push(lower_one(cs[i]));
    }
    out
}

/// The ASCII upper-case form of a character.
pub open spec fn upper_char(c: char) -> char {
    if 'a' <= c && c <= 'z' {
        (c as u32 - 32) as char
    } else {
        c
    }
}

/// The ASCII upper-case form of a text.
pub open spec fn upper(s: Seq<char>) -> Seq<char> {
    s.map_values(|c: char| upper_char(c))
}

/// ASCII upper-cases a string.
pub fn to_upper(s: &str) -> (r: String)
    ensures
        r@ == upper(s@),
{
    let cs = chars_of(s);
    let mut out = String::new();
    for i in 0..cs.len()
        invariant
            cs@ == s@,
            out@ == upper(s@).take(i as int),
    {
        let c = cs[i];
        out.push(
            if 'a' <= c && c <= 'z' {
                ((c as u8) - 32) as char
            } else {
                c
            },
        );
    }
    out
}

/// Whether a text ends with another.
pub open spec fn ends_with(s: Seq<char>, end: Seq<char>) -> bool {
    end.len() <= s.len() && s.skip(s.len() - end.len()) == end
}

/// Whether a string ends with another.
pub fn has_end(s: &str, end: &str) -> (r: bool)
    ensures
        r == ends_with(s@, end@),
{
    let n = s.unicode_len();
    let k = end.unicode_len();
    if k > n {
        return false;
    }
    let tail = s.substring_char(n - k, n);
    assert(tail@ =~= s@.skip(s@.len() - end@.len()));
    same(tail, end)
}

/// Whether a string holds a character.
pub fn has_char(s: &str, c: char) -> (r: bool)
    ensures
        r == s@.contains(c),
{
    let cs = chars_of(s);
    for i in 0..cs.len()
        invariant
            cs@ == s@,
            forall|j: int| 0 <= j < i ==> s@[j] != c,
    {
        if cs[i] == c {
            assert(s@[i as int] == c);
            return true;
        }
    }
    false
}

// ---------------------------------------------------------------------------
// Trimming
// ---------------------------------------------------------------------------

/// Whether a text is empty or white space only.
pub open spec fn blank(s: Seq<char>) -> bool {
    forall|i: int| 0 <= i < s.len() ==> is_space(#[trigger] s[i])
}

/// A text without its leading white space.
pub open spec fn trim_start(s: Seq<char>) -> Seq<char>
    decreases s.len(),
{
    if s.len() > 0 && is_space(s[0]) {
        trim_start(s.drop_first())
    } else {
        s
    }
}

/// A text without its trailing white space.
pub open spec fn trim_end(s: Seq<char>) -> Seq<char>
    decreases s.len(),
{
    if s.len() > 0 && is_space(s.last()) {
        trim_end(s.drop_last())
    } else {
        s
    }
}

/// A text without leading and trailing white space.
pub open spec fn trim(s: Seq<char>) -> Seq<char> {
    trim_end(trim_start(s))
}

/// Whether a string is empty or white space only.
pub fn is_blank(s: &str) -> (r: bool)
    ensures
        r == blank(s@),
{
    let cs = chars_of(s);
    for i in 0..cs.len()
        invariant
            cs@ == s@,
            forall|j: int| 0 <= j < i ==> is_space(#[trigger] s@[j]),
    {
        if !space(cs[i]) {
            assert(!is_space(s@[i as int]));
            return false;
        }
    }
    true
}

/// The string without its leading white space.
pub fn without_lead(s: &str) -> (r: &str)
    ensures
        r@ == trim_start(s@),
{
    let cs = chars_of(s);
    let n = cs.len();
    let mut i: usize = 0;
    proof {
        assert(s@.skip(0) =~= s@);
    }
    while i < n && space(cs[i])
        invariant
            cs@ == s@,
            n == s@.len(),
            i <= n,
            trim_start(s@) == trim_start(s@.skip(i as int)),
        decreases n - i,
    {
        proof {
            assert(s@.skip(i as int).drop_first() =~= s@.skip(i + 1));
        }
        i += 1;
    }
    let r = s.substring_char(i, n);
    assert(r@ =~= s@.skip(i as int));
    r
}

/// The string without its trailing white space.
pub fn without_tail(s: &str) -> (r: &str)
    ensures
        r@ == trim_end(s@),
{
    let cs = chars_of(s);
    let mut i: usize = cs.len();
    proof {
        assert(s@.take(i as int) =~= s@);
    }
    while i > 0 && space(cs[i - 1])
        invariant
            cs@ == s@,
            i <= s@.len(),
            trim_end(s@) == trim_end(s@.take(i as int)),
        decreases i,
    {
        proof {
            assert(s@.take(i as int).drop_last() =~= s@.take(i - 1));
        }
        i -= 1;
    }
    let r = s.substring_char(0, i);
    assert(r@ =~= s@.take(i as int));
    r
}

/// The string without leading and trailing white space.
pub fn trimmed(s: &str) -> (r: &str)
    ensures
        r@ == trim(s@),
{
    without_tail(without_lead(s))
}

/// Trimming leaves nothing exactly of a blank text.
pub proof fn lemma_trim_blank(s: Seq<char>)
    ensures
        trim(s).len() == 0 <==> blank(s),
    decreases s.len(),
{
    if s.len() > 0 && is_space(s[0]) {
        lemma_trim_blank(s.drop_first());
        if blank(s.drop_first()) {
            assert forall|i: int| 0 <= i < s.len() implies is_space(#[trigger] s[i]) by {
                if i > 0 {
                    assert(s.drop_first()[i - 1] == s[i]);
                }
            }
        } else {
            let j = choose|j: int| 0 <= j < s.drop_first().len() && !is_space(#[trigger] s.drop_first()[j]);
            assert(s[j + 1] == s.drop_first()[j]);
        }
    } else if s.len() > 0 {
        lemma_trim_end_keeps(s, 0);
    }
}

/// What stands before a visible character survives trimming at the end.
proof fn lemma_trim_end_keeps(s: Seq<char>, k: int)
    requires
        0 <= k < s.len(),
        !is_space(s[k]),
    ensures
        trim_end(s).len() > k,
    decreases s.len(),
{
    if is_space(s.last()) {
        assert(s.drop_last()[k] == s[k]);
        lemma_trim_end_keeps(s.drop_last(), k);
    }
}

// ---------------------------------------------------------------------------
// Splitting and joining
// ---------------------------------------------------------------------------

/// The pieces between the occurrences of a character: always one more than
/// there are occurrences.
pub open spec fn split(s: Seq<char>, c: char) -> Seq<Seq<char>>
    decreases s.len(),
{
    if s.len() == 0 {
        seq![Seq::empty()]
    } else {
        let before = split(s.drop_last(), c);
        if s.last() == c {
            before.push(Seq::empty())
        } else {
            before.drop_last().push(before.last().push(s.last()))
        }
    }
}

/// The maximal runs of visible characters, with an empty piece wherever two
/// white-space characters touch.
pub open spec fn split_spaces(s: Seq<char>) -> Seq<Seq<char>>
    decreases s.len(),
{
    if s.len() == 0 {
        seq![Seq::empty()]
    } else {
        let before = split_spaces(s.drop_last());
        if is_space(s.last()) {
            before.push(Seq::empty())
        } else {
            before.drop_last().push(before.last().push(s.last()))
        }
    }
}

/// The members of a list that are not empty.
pub open spec fn non_empty(v: Seq<Seq<char>>) -> Seq<Seq<char>>
    decreases v.len(),
{
    if v.len() == 0 {
        Seq::empty()
    } else if v.last().len() == 0 {
        non_empty(v.drop_last())
    } else {
        non_empty(v.drop_last()).push(v.last())
    }
}

/// The white-space separated words of a text.
pub open spec fn words(s: Seq<char>) -> Seq<Seq<char>> {
    non_empty(split_spaces(s))
}

/// A text without one carriage return at its end.
pub open spec fn strip_cr(s: Seq<char>) -> Seq<char> {
    if s.len() > 0 && s.last() == '\r' {
        s.drop_last()
    } else {
        s
    }
}

/// The lines of a text: each ends at a line feed or at a carriage return and
/// line feed; what follows the last line feed is a line if it is not empty.
pub open spec fn lines(s: Seq<char>) -> Seq<Seq<char>> {
    let pieces = split(s, '\n');
    let ended = pieces.drop_last().map_values(|l: Seq<char>| strip_cr(l));
    if pieces.last().len() == 0 {
        ended
    } else {
        ended.push(pieces.last())
    }
}

/// The members of a list with a separator between neighbours.
pub open spec fn join(v: Seq<Seq<char>>, sep: Seq<char>) -> Seq<char>
    decreases v.len(),
{
    if v.len() == 0 {
        Seq::empty()
    } else if v.len() == 1 {
        v[0]
    } else {
        join(v.drop_last(), sep) + sep + v.last()
    }
}

/// A split has at least one piece.
pub proof fn lemma_split_len(s: Seq<char>, c: char)
    ensures
        split(s, c).len() >= 1,
    decreases s.len(),
{
    if s.len() > 0 {
        lemma_split_len(s.drop_last(), c);
    }
}

proof fn lemma_split_spaces_len(s: Seq<char>)
    ensures
        split_spaces(s).len() >= 1,
    decreases s.len(),
{
    if s.len() > 0 {
        lemma_split_spaces_len(s.drop_last());
    }
}

/// The pieces of a string between the occurrences of a character.
pub fn split_at_char(s: &str, c: char) -> (r: Vec<String>)
    ensures
        r.deep_view() == split(s@, c),
        r@.len() >= 1,
{
    let cs = chars_of(s);
    let mut out: Vec<String> = Vec::new();
    let mut cur = String::new();
    proof {
        assert(s@.take(0).len() == 0);
        assert(out.deep_view().push(cur@) =~= split(s@.take(0), c));
    }
    for i in 0..cs.len()
        invariant
            cs@ == s@,
            split(s@.take(i as int), c) == out.deep_view().push(cur@),
    {
        proof {
            assert(s@.take(i + 1).drop_last() =~= s@.take(i as int));
        }
        let ghost before = out.deep_view();
        if cs[i] == c {
            out.push(cur);
            assert(out.deep_view() =~= before.push(cur@));
            cur = String::new();
        } else {
            let ghost old_cur = cur@;
            cur.push(cs[i]);
            assert(before.push(old_cur).drop_last() =~= before);
        }
    }
    let ghost before = out.deep_view();
    out.push(cur);
    assert(out.deep_view() =~= before.push(cur@));
    assert(s@.take(s@.len() as int) =~= s@);
    out
}

/// The words of a string.
pub fn words_of(s: &str) -> (r: Vec<String>)
    ensures
        r.deep_view() == words(s@),
{
    let cs = chars_of(s);
    let mut out: Vec<String> = Vec::new();
    let mut cur = String::new();
    proof {
        assert(s@.take(0).len() == 0);
        assert(split_spaces(s@.take(0)).drop_last() =~= Seq::empty());
        assert(out.deep_view() =~= Seq::empty());
        assert(cur@ =~= Seq::empty());
    }
    for i in 0..cs.len()
        invariant
            cs@ == s@,
            split_spaces(s@.take(i as int)).len() >= 1,
            split_spaces(s@.take(i as int)).last() == cur@,
            out.deep_view() == non_empty(split_spaces(s@.take(i as int)).drop_last()),
    {
        let ghost before = split_spaces(s@.take(i as int));
        let ghost after = split_spaces(s@.take(i + 1));
        proof {
            assert(s@.take(i + 1).drop_last() =~= s@.take(i as int));
            lemma_split_spaces_len(s@.take(i + 1));
        }
        if space(cs[i]) {
            let ghost list = out.deep_view();
            assert(after.drop_last() =~= before);
            if cur.as_str().is_empty() {
                cur = String::new();
            } else {
                out.push(cur);
                assert(out.deep_view() =~= list.push(before.last()));
                cur = String::new();
            }
            assert(cur@ =~= Seq::empty());
        } else {
            cur.push(cs[i]);
            assert(after.drop_last() =~= before.drop_last());
        }
    }
    proof {
        assert(s@.take(s@.len() as int) =~= s@);
    }
    if !cur.as_str().is_empty() {
        let ghost list = out.deep_view();
        out.push(cur);
        assert(out.deep_view() =~= list.push(split_spaces(s@).last()));
    }
    out
}

/// The string without one carriage return at its end.
fn without_cr(s: String) -> (r: String)
    ensures
        r@ == strip_cr(s@),
{
    let n = s.as_str().unicode_len();
    if n > 0 && s.as_str().get_char(n - 1) == '\r' {
        let r = s.as_str().substring_char(0, n - 1);
        assert(r@ =~= s@.drop_last());
        r.to_owned()
    } else {
        s
    }
}

/// The lines of a string.
pub fn lines_of(s: &str) -> (r: Vec<String>)
    ensures
        r.deep_view() == lines(s@),
{
    let pieces = split_at_char(s, '\n');
    let n = pieces.len();
    let mut out: Vec<String> = Vec::new();
    for i in 0..n - 1
        invariant
            n == pieces@.len(),
            n >= 1,
            out@.len() == i,
            forall|j: int| 0 <= j < i ==> out@[j]@ == strip_cr(pieces@[j]@),
    {
        out.push(without_cr(pieces[i].clone()));
    }
    let ghost cut = split(s@, '\n');
    assert(out.deep_view() =~= cut.drop_last().map_values(|l: Seq<char>| strip_cr(l)));
    if !pieces[n - 1].as_str().is_empty() {
        let ghost list = out.deep_view();
        out.push(pieces[n - 1].clone());
        assert(out.deep_view() =~= list.push(cut.last()));
    }
    out
}

/// The members of a list with a separator between neighbours.
pub fn joined(v: &Vec<String>, sep: &str) -> (r: String)
    ensures
        r@ == join(v.deep_view(), sep@),
{
    let mut out = String::new();
    for i in 0..v.len()
        invariant
            out@ == join(v.deep_view().take(i as int), sep@),
    {
        proof {
            assert(v.deep_view().take(i + 1).drop_last() =~= v.deep_view().take(i as int));
        }
        if i > 0 {
            out.append(sep);
            out.append(v[i].as_str());
        } else {
            out = v[i].clone();
        }
    }
    assert(v.deep_view().take(v@.len() as int) =~= v.deep_view());
    out
}

// ---------------------------------------------------------------------------
// Replacing
// ---------------------------------------------------------------------------

/// A text with every occurrence of `from`, taken left to right without
/// overlap, replaced by `to`.
pub open spec fn replace(s: Seq<char>, from: Seq<char>, to: Seq<char>) -> Seq<char>
    decreases s.len(),
{
    if from.len() == 0 || s.len() < from.len() {
        s
    } else if s.take(from.len() as int) == from {
        to + replace(s.skip(from.len() as int), from, to)
    } else {
        seq![s[0]] + replace(s.skip(1), from, to)
    }
}

/// Whether the characters at `i` read `pat`.
fn reads_at(s: &Vec<char>, i: usize, pat: &Vec<char>) -> (r: bool)
    requires
        i + pat@.len() <= s@.len(),
    ensures
        r == (s@.subrange(i as int, i + pat@.len()) == pat@),
{
    let n = s.len();
    for k in 0..pat.len()
        invariant
            n == s@.len(),
            i + pat@.len() <= n,
            forall|j: int| 0 <= j < k ==> s@[i + j] == pat@[j],
    {
        if s[i + k] != pat[k] {
            assert(s@.subrange(i as int, i + pat@.len())[k as int] != pat@[k as int]);
            return false;
        }
    }
    assert(s@.subrange(i as int, i + pat@.len()) =~= pat@);
    true
}

/// The string with every occurrence of `from` replaced by `to`.
pub fn replaced(s: &str, from: &str, to: &str) -> (r: String)
    requires
        from@.len() > 0,
    ensures
        r@ == replace(s@, from@, to@),
{
    let cs = chars_of(s);
    let pat = chars_of(from);
    let n = cs.len();
    let m = pat.len();
    let mut out = String::new();
    let mut i: usize = 0;
    proof {
        assert(s@.skip(0) =~= s@);
        assert(out@ + replace(s@, from@, to@) =~= replace(s@, from@, to@));
    }
    while m <= n - i
        invariant
            cs@ == s@,
            pat@ == from@,
            n == s@.len(),
            m == from@.len(),
            m > 0,
            i <= n,
            out@ + replace(s@.skip(i as int), from@, to@) == replace(s@, from@, to@),
        decreases n - i,
    {
        let ghost rest = s@.skip(i as int);
        let ghost done = out@;
        proof {
            assert(rest.take(m as int) =~= s@.subrange(i as int, i + m));
        }
        if reads_at(&cs, i, &pat) {
            out.append(to);
            proof {
                assert(rest.skip(m as int) =~= s@.skip(i + m));
                assert(done + (to@ + replace(s@.skip(i + m), from@, to@)) =~= (done + to@) + replace(
                    s@.skip(i + m),
                    from@,
                    to@,
                ));
            }
            i += m;
        } else {
            out.push(cs[i]);
            proof {
                assert(rest.skip(1) =~= s@.skip(i + 1));
                assert(done + (seq![rest[0]] + replace(s@.skip(i + 1), from@, to@)) =~= done.push(
                    rest[0],
                ) + replace(s@.skip(i + 1), from@, to@));
            }
            i += 1;
        }
    }
    let tail = s.substring_char(i, n);
    assert(tail@ =~= s@.skip(i as int));
    out.append(tail);
    out
}

} // verus!
