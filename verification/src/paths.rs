//! Slash-separated paths.
//!
//! A path is a text; its meaning is its list of components. Repeated slashes
//! and inner `.` segments do not count, a leading `.` does.
use vstd::prelude::*;

use crate::text;

verus! {

/// One component of a path.
pub enum Component {
    Root,
    CurDir,
    ParentDir,
    Normal(String),
}

/// What a component stands for.
pub enum Step {
    Root,
    CurDir,
    ParentDir,
    Normal(Seq<char>),
}

impl DeepView for Component {
    type V = Step;

    open spec fn deep_view(&self) -> Step {
        match self {
            Component::Root => Step::Root,
            Component::CurDir => Step::CurDir,
            Component::ParentDir => Step::ParentDir,
            Component::Normal(name) => Step::Normal(name@),
        }
    }
}

/// Whether a path starts at the root.
pub open spec fn is_absolute(p: Seq<char>) -> bool {
    p.len() > 0 && p[0] == '/'
}

/// The component that the segment at place `k` gives, if any.
pub open spec fn step_at(k: int, segment: Seq<char>) -> Seq<Step> {
    if segment.len() == 0 {
        Seq::empty()
    } else if segment == seq!['.'] {
        if k == 0 {
            seq![Step::CurDir]
        } else {
            Seq::empty()
        }
    } else if segment == seq!['.', '.'] {
        seq![Step::ParentDir]
    } else {
        seq![Step::Normal(segment)]
    }
}

/// The components that a list of segments gives.
pub open spec fn steps(segments: Seq<Seq<char>>) -> Seq<Step>
    decreases segments.len(),
{
    if segments.len() == 0 {
        Seq::empty()
    } else {
        steps(segments.drop_last()) + step_at(segments.len() - 1, segments.last())
    }
}

/// The components of a path.
pub open spec fn components(p: Seq<char>) -> Seq<Step> {
    let inner = steps(text::split(p, '/'));
    if is_absolute(p) {
        seq![Step::Root] + inner
    } else {
        inner
    }
}

/// The last component, where it is a name.
pub open spec fn file_name(p: Seq<char>) -> Option<Seq<char>> {
    let c = components(p);
    if c.len() > 0 {
        match c.last() {
            Step::Normal(name) => Some(name),
            _ => None,
        }
    } else {
        None
    }
}

/// The place of the last dot of a name, or -1.
pub open spec fn last_dot(name: Seq<char>) -> int
    decreases name.len(),
{
    if name.len() == 0 {
        -1
    } else if name.last() == '.' {
        name.len() - 1
    } else {
        last_dot(name.drop_last())
    }
}

/// What follows the last dot of the file name; a dot at its start does not
/// count.
pub open spec fn extension(p: Seq<char>) -> Option<Seq<char>> {
    match file_name(p) {
        Some(name) => if last_dot(name) > 0 {
            Some(name.skip(last_dot(name) + 1))
        } else {
            None
        },
        None => None,
    }
}

/// The file name without the last dot and what follows it.
pub open spec fn file_stem(p: Seq<char>) -> Option<Seq<char>> {
    match file_name(p) {
        Some(name) => if last_dot(name) > 0 {
            Some(name.take(last_dot(name)))
        } else {
            Some(name)
        },
        None => None,
    }
}

/// A path below a directory; an absolute one stands for itself.
pub open spec fn join(dir: Seq<char>, rest: Seq<char>) -> Seq<char> {
    if is_absolute(rest) {
        rest
    } else if dir.len() == 0 || dir.last() == '/' {
        dir + rest
    } else {
        dir.push('/') + rest
    }
}

/// A path without trailing slashes and `.` segments; the root slash and a
/// leading `.` stay.
pub open spec fn trim_tail(p: Seq<char>) -> Seq<char>
    decreases p.len(),
{
    if p.len() > 1 && p.last() == '/' {
        trim_tail(p.drop_last())
    } else if p.len() > 1 && p.last() == '.' && p[p.len() - 2] == '/' {
        trim_tail(p.drop_last())
    } else {
        p
    }
}

/// A path up to and with its last slash.
pub open spec fn up_to_slash(p: Seq<char>) -> Seq<char>
    decreases p.len(),
{
    if p.len() == 0 || p.last() == '/' {
        p
    } else {
        up_to_slash(p.drop_last())
    }
}

/// The path without its last component; the root and the empty path have none.
pub open spec fn parent(p: Seq<char>) -> Option<Seq<char>> {
    let q = trim_tail(p);
    if q.len() == 0 || q == seq!['/'] {
        None
    } else {
        Some(trim_tail(up_to_slash(q)))
    }
}

// ---------------------------------------------------------------------------
// Executable forms
// ---------------------------------------------------------------------------

/// Whether a path starts at the root.
pub fn absolute(p: &str) -> (r: bool)
    ensures
        r == is_absolute(p@),
{
    !p.is_empty() && p.get_char(0) == '/'
}

fn push_step(out: &mut Vec<Component>, k: usize, segment: &String)
    ensures
        final(out).deep_view() == old(out).deep_view() + step_at(k as int, segment@),
{
    let ghost before = out.deep_view();
    proof {
        reveal_strlit(".");
        reveal_strlit("..");
        assert("."@ =~= seq!['.']);
        assert(".."@ =~= seq!['.', '.']);
    }
    if segment.as_str().is_empty() {
    } else if text::same(segment.as_str(), ".") {
        if k == 0 {
            out.push(Component::CurDir);
            assert(out.deep_view() =~= before.push(Step::CurDir));
        }
    } else if text::same(segment.as_str(), "..") {
        out.push(Component::ParentDir);
        assert(out.deep_view() =~= before.push(Step::ParentDir));
    } else {
        out.push(Component::Normal(segment.clone()));
        assert(out.deep_view() =~= before.push(Step::Normal(segment@)));
    }
    assert(out.deep_view() =~= before + step_at(k as int, segment@));
}

/// The components of a path.
pub fn components_of(p: &str) -> (r: Vec<Component>)
    ensures
        r.deep_view() == components(p@),
{
    let segments = text::split_at_char(p, '/');
    let mut out: Vec<Component> = Vec::new();
    if absolute(p) {
        out.push(Component::Root);
    }
    let ghost head = out.deep_view();
    let ghost cut = text::split(p@, '/');
    assert(head + steps(cut.take(0)) =~= head);
    for i in 0..segments.len()
        invariant
            segments.deep_view() == cut,
            out.deep_view() == head + steps(cut.take(i as int)),
    {
        push_step(&mut out, i, &segments[i]);
        proof {
            assert(cut.take(i + 1).drop_last() =~= cut.take(i as int));
            assert(cut[i as int] == segments@[i as int]@);
            assert(out.deep_view() =~= head + (steps(cut.take(i as int)) + step_at(
                i as int,
                cut[i as int],
            )));
        }
    }
    assert(cut.take(cut.len() as int) =~= cut);
    assert(out.deep_view() =~= components(p@));
    out
}

/// Whether two components are the same.
pub fn same_step(a: &Component, b: &Component) -> (r: bool)
    ensures
        r == (a.deep_view() == b.deep_view()),
{
    match (a, b) {
        (Component::Root, Component::Root) => true,
        (Component::CurDir, Component::CurDir) => true,
        (Component::ParentDir, Component::ParentDir) => true,
        (Component::Normal(x), Component::Normal(y)) => text::same(x.as_str(), y.as_str()),
        _ => false,
    }
}

/// Whether two paths have the same components.
pub fn same_path(a: &str, b: &str) -> (r: bool)
    ensures
        r == (components(a@) == components(b@)),
{
    let x = components_of(a);
    let y = components_of(b);
    if x.len() != y.len() {
        assert(x.deep_view().len() != y.deep_view().len());
        return false;
    }
    for i in 0..x.len()
        invariant
            x@.len() == y@.len(),
            x.deep_view() == components(a@),
            y.deep_view() == components(b@),
            forall|j: int| 0 <= j < i ==> x@[j].deep_view() == y@[j].deep_view(),
    {
        if !same_step(&x[i], &y[i]) {
            assert(x.deep_view()[i as int] != y.deep_view()[i as int]);
            return false;
        }
    }
    assert(x.deep_view() =~= y.deep_view());
    true
}

/// The last component of a path, where it is a name.
pub fn file_name_of(p: &str) -> (r: Option<String>)
    ensures
        r.deep_view() == file_name(p@),
{
    let mut c = components_of(p);
    let ghost all = c.deep_view();
    match c.pop() {
        Some(last) => {
            assert(all.last() == last.deep_view());
            match last {
                Component::Normal(name) => Some(name),
                _ => None,
            }
        },
        None => None,
    }
}

/// The place of the last dot.
pub fn dot_of(name: &str) -> (r: Option<usize>)
    ensures
        match r {
            Some(k) => last_dot(name@) == k && k < name@.len(),
            None => last_dot(name@) == -1,
        },
{
    let cs = text::chars_of(name);
    let mut i: usize = cs.len();
    assert(name@.take(i as int) =~= name@);
    while i > 0
        invariant
            cs@ == name@,
            i <= name@.len(),
            last_dot(name@) == last_dot(name@.take(i as int)),
        decreases i,
    {
        if cs[i - 1] == '.' {
            return Some(i - 1);
        }
        assert(name@.take(i as int).drop_last() =~= name@.take(i - 1));
        i -= 1;
    }
    None
}

/// What follows the last dot of the file name.
pub fn extension_of(p: &str) -> (r: Option<String>)
    ensures
        r.deep_view() == extension(p@),
{
    match file_name_of(p) {
        Some(name) => {
            match dot_of(name.as_str()) {
                Some(k) => if k > 0 {
                    let n = name.as_str().unicode_len();
                    let e = name.as_str().substring_char(k + 1, n);
                    assert(e@ =~= name@.skip(k + 1));
                    Some(e.to_owned())
                } else {
                    None
                },
                None => None,
            }
        },
        None => None,
    }
}

/// The file name without the last dot and what follows it.
pub fn file_stem_of(p: &str) -> (r: Option<String>)
    ensures
        r.deep_view() == file_stem(p@),
{
    match file_name_of(p) {
        Some(name) => {
            match dot_of(name.as_str()) {
                Some(k) => if k > 0 {
                    let e = name.as_str().substring_char(0, k);
                    assert(e@ =~= name@.take(k as int));
                    Some(e.to_owned())
                } else {
                    Some(name)
                },
                None => Some(name),
            }
        },
        None => None,
    }
}

/// A path below a directory.
pub fn joined(dir: &str, rest: &str) -> (r: String)
    ensures
        r@ == join(dir@, rest@),
{
    if absolute(rest) {
        return rest.to_owned();
    }
    let n = dir.unicode_len();
    let mut out = dir.to_owned();
    if n > 0 && dir.get_char(n - 1) != '/' {
        out.push('/');
    }
    out.append(rest);
    out
}

/// The length of a path without its trailing slashes and `.` segments.
fn trimmed_len(cs: &Vec<char>, n: usize) -> (r: usize)
    requires
        n <= cs@.len(),
    ensures
        r <= n,
        cs@.take(r as int) == trim_tail(cs@.take(n as int)),
{
    let mut i: usize = n;
    while i > 1 && (cs[i - 1] == '/' || (cs[i - 1] == '.' && cs[i - 2] == '/'))
        invariant
            i <= n <= cs@.len(),
            trim_tail(cs@.take(n as int)) == trim_tail(cs@.take(i as int)),
        decreases i,
    {
        assert(cs@.take(i as int).drop_last() =~= cs@.take(i - 1));
        i -= 1;
    }
    i
}

/// The path without its last component.
pub fn parent_of(p: &str) -> (r: Option<String>)
    ensures
        r.deep_view() == parent(p@),
{
    let cs = text::chars_of(p);
    let n = cs.len();
    assert(cs@.take(n as int) =~= cs@);
    let q = trimmed_len(&cs, n);
    if q == 0 {
        return None;
    }
    if q == 1 && cs[0] == '/' {
        assert(cs@.take(q as int) =~= seq!['/']);
        return None;
    }
    assert(q == 1 ==> cs@.take(1)[0] != '/');
    let mut i: usize = q;
    while i > 0 && cs[i - 1] != '/'
        invariant
            i <= q <= cs@.len(),
            up_to_slash(cs@.take(q as int)) == up_to_slash(cs@.take(i as int)),
        decreases i,
    {
        assert(cs@.take(i as int).drop_last() =~= cs@.take(i - 1));
        i -= 1;
    }
    let k = trimmed_len(&cs, i);
    let r = p.substring_char(0, k);
    assert(r@ =~= cs@.take(k as int));
    Some(r.to_owned())
}

// ---------------------------------------------------------------------------
// Laws
// ---------------------------------------------------------------------------

/// Whether a text can stand as one name: not empty, no slash, neither `.`
/// nor `..`.
pub open spec fn is_name(name: Seq<char>) -> bool {
    &&& name.len() > 0
    &&& !name.contains('/')
    &&& name != seq!['.']
    &&& name != seq!['.', '.']
}

/// Every piece of a split is free of the separator.
pub proof fn lemma_split_pieces(s: Seq<char>, c: char)
    ensures
        forall|k: int|
            0 <= k < text::split(s, c).len() ==> !(#[trigger] text::split(s, c)[k]).contains(c),
    decreases s.len(),
{
    if s.len() > 0 {
        lemma_split_pieces(s.drop_last(), c);
        text::lemma_split_len(s.drop_last(), c);
        let before = text::split(s.drop_last(), c);
        let after = text::split(s, c);
        assert forall|k: int| 0 <= k < after.len() implies !(#[trigger] after[k]).contains(c) by {
            if k < before.len() - 1 {
                assert(after[k] == before[k]);
            } else if s.last() == c {
                if k < before.len() {
                    assert(after[k] == before[k]);
                }
            } else {
                assert(!before[before.len() - 1].contains(c));
                assert(after[k] == before.last().push(s.last()));
                if after[k].contains(c) {
                    let j = choose|j: int| 0 <= j < after[k].len() && after[k][j] == c;
                    assert(j < before.last().len());
                    assert(before.last()[j] == c);
                }
            }
        }
    }
}

/// Appending text without the separator extends the last piece.
pub proof fn lemma_split_extend(s: Seq<char>, t: Seq<char>, c: char)
    requires
        !t.contains(c),
    ensures
        text::split(s + t, c) == text::split(s, c).drop_last().push(text::split(s, c).last() + t),
    decreases t.len(),
{
    text::lemma_split_len(s, c);
    let before = text::split(s, c);
    if t.len() == 0 {
        assert(s + t =~= s);
        assert(before.last() + t =~= before.last());
        assert(before.drop_last().push(before.last()) =~= before);
    } else {
        assert((s + t).drop_last() =~= s + t.drop_last());
        assert(t.contains(t.last()));
        assert forall|x: char| #[trigger] t.drop_last().contains(x) implies t.contains(x) by {
            let j = choose|j: int| 0 <= j < t.drop_last().len() && t.drop_last()[j] == x;
            assert(t[j] == x);
        }
        lemma_split_extend(s, t.drop_last(), c);
        let mid = text::split(s + t.drop_last(), c);
        assert(mid.drop_last() =~= before.drop_last());
        assert(mid.last() == before.last() + t.drop_last());
        assert((before.last() + t.drop_last()).push(t.last()) =~= before.last() + t);
    }
}

/// A name joined to a directory adds exactly that name to its components.
pub proof fn lemma_join_name(dir: Seq<char>, name: Seq<char>)
    requires
        is_name(name),
    ensures
        components(join(dir, name)) == components(dir).push(Step::Normal(name)),
{
    assert(name.contains(name[0]));
    text::lemma_split_len(dir, '/');
    let cut = text::split(dir, '/');
    let empty = Seq::<char>::empty();
    assert(empty + name =~= name);
    if dir.len() == 0 {
        lemma_split_extend(dir, name, '/');
        assert(dir =~= empty);
        assert(text::split(dir + name, '/') =~= seq![name]);
        assert(seq![name].drop_last() =~= Seq::<Seq<char>>::empty());
        assert(cut.drop_last() =~= Seq::<Seq<char>>::empty());
        assert(seq![name].last() == name);
        assert(steps(Seq::<Seq<char>>::empty()) =~= Seq::<Step>::empty());
        assert(step_at(0, name) =~= seq![Step::Normal(name)]);
        assert(steps(seq![name]) =~= seq![Step::Normal(name)]);
        assert(steps(cut) =~= Seq::<Step>::empty());
        assert(components(join(dir, name)) =~= components(dir).push(Step::Normal(name)));
    } else if dir.last() == '/' {
        lemma_split_extend(dir, name, '/');
        assert(cut.last() =~= empty);
        assert(text::split(dir + name, '/') =~= cut.drop_last().push(name));
        assert(cut.drop_last().push(name).drop_last() =~= cut.drop_last());
        assert(steps(cut) =~= steps(cut.drop_last()));
        assert(components(join(dir, name)) =~= components(dir).push(Step::Normal(name)));
    } else {
        let slashed = dir.push('/');
        assert(slashed.drop_last() =~= dir);
        lemma_split_extend(slashed, name, '/');
        assert(text::split(slashed, '/') =~= cut.push(empty));
        assert(cut.push(empty).drop_last() =~= cut);
        assert(text::split(slashed + name, '/') =~= cut.push(name));
        assert(cut.push(name).drop_last() =~= cut);
        assert(components(join(dir, name)) =~= components(dir).push(Step::Normal(name)));
    }
}

/// The names among the components of a path can stand as one name each.
pub proof fn lemma_component_names(p: Seq<char>)
    ensures
        forall|k: int|
            0 <= k < components(p).len() ==> ((#[trigger] components(p)[k]) matches Step::Normal(n)
                ==> is_name(n)),
{
    lemma_split_pieces(p, '/');
    lemma_step_names(text::split(p, '/'));
    let inner = steps(text::split(p, '/'));
    assert forall|k: int| 0 <= k < components(p).len() implies ((
    #[trigger] components(p)[k]) matches Step::Normal(n) ==> is_name(n)) by {
        if is_absolute(p) && k > 0 {
            assert(components(p)[k] == inner[k - 1]);
        } else if !is_absolute(p) {
            assert(components(p)[k] == inner[k]);
        }
    }
}

proof fn lemma_step_names(segments: Seq<Seq<char>>)
    requires
        forall|k: int| 0 <= k < segments.len() ==> !(#[trigger] segments[k]).contains('/'),
    ensures
        forall|k: int|
            0 <= k < steps(segments).len() ==> ((#[trigger] steps(segments)[k]) matches Step::Normal(n)
                ==> is_name(n)),
    decreases segments.len(),
{
    if segments.len() > 0 {
        let rest = segments.drop_last();
        assert forall|k: int| 0 <= k < rest.len() implies !(#[trigger] rest[k]).contains('/') by {
            assert(rest[k] == segments[k]);
        }
        lemma_step_names(rest);
        assert forall|k: int| 0 <= k < steps(segments).len() implies ((
        #[trigger] steps(segments)[k]) matches Step::Normal(n) ==> is_name(n)) by {
            if k < steps(rest).len() {
                assert(steps(segments)[k] == steps(rest)[k]);
            }
        }
    }
}

/// Only an absolute path has a root among its components.
pub proof fn lemma_no_root(p: Seq<char>)
    requires
        !is_absolute(p),
    ensures
        forall|k: int| 0 <= k < components(p).len() ==> (#[trigger] components(p)[k]) != Step::Root,
{
    lemma_steps_no_root(text::split(p, '/'));
}

proof fn lemma_steps_no_root(segments: Seq<Seq<char>>)
    ensures
        forall|k: int| 0 <= k < steps(segments).len() ==> (#[trigger] steps(segments)[k])
            != Step::Root,
    decreases segments.len(),
{
    if segments.len() > 0 {
        lemma_steps_no_root(segments.drop_last());
        let before = steps(segments.drop_last());
        assert forall|k: int| 0 <= k < steps(segments).len() implies (#[trigger] steps(segments)[k])
            != Step::Root by {
            if k < before.len() {
                assert(steps(segments)[k] == before[k]);
            }
        }
    }
}

/// A slash at the end of a path does not count.
pub proof fn lemma_end_slash(p: Seq<char>)
    requires
        p.len() > 0,
    ensures
        components(p.push('/')) == components(p),
{
    let cut = text::split(p, '/');
    let empty = Seq::<char>::empty();
    assert(p.push('/').drop_last() =~= p);
    assert(text::split(p.push('/'), '/') =~= cut.push(empty));
    assert(cut.push(empty).drop_last() =~= cut);
    assert(steps(cut.push(empty)) =~= steps(cut));
    assert(p.push('/')[0] == p[0]);
}

/// Trailing slashes and `.` segments do not count.
pub proof fn lemma_trim_tail(p: Seq<char>)
    ensures
        components(trim_tail(p)) == components(p),
    decreases p.len(),
{
    if p.len() > 1 && p.last() == '/' {
        lemma_trim_tail(p.drop_last());
        assert(p.drop_last().push('/') =~= p);
        lemma_end_slash(p.drop_last());
    } else if p.len() > 1 && p.last() == '.' && p[p.len() - 2] == '/' {
        let q = p.drop_last();
        let r = q.drop_last();
        lemma_trim_tail(q);
        text::lemma_split_len(r, '/');
        let cut = text::split(r, '/');
        let empty = Seq::<char>::empty();
        let before = text::split(q, '/');
        assert(before =~= cut.push(empty));
        assert(before.last() =~= empty);
        assert(before.drop_last() =~= cut);
        assert(empty.push('.') =~= seq!['.']);
        assert(text::split(p, '/') =~= cut.push(seq!['.']));
        assert(cut.push(seq!['.']).drop_last() =~= cut);
        assert(steps(cut.push(seq!['.'])) =~= steps(cut));
        assert(steps(before) =~= steps(cut));
        assert(p[0] == q[0]);
    }
}

proof fn lemma_up_to_slash(dir: Seq<char>, name: Seq<char>)
    requires
        dir.len() == 0 || dir.last() == '/',
        !name.contains('/'),
    ensures
        up_to_slash(dir + name) == dir,
    decreases name.len(),
{
    if name.len() == 0 {
        assert(dir + name =~= dir);
    } else {
        assert(name.contains(name.last()));
        assert((dir + name).drop_last() =~= dir + name.drop_last());
        assert forall|x: char| #[trigger] name.drop_last().contains(x) implies name.contains(x) by {
            let j = choose|j: int| 0 <= j < name.drop_last().len() && name.drop_last()[j] == x;
            assert(name[j] == x);
        }
        lemma_up_to_slash(dir, name.drop_last());
    }
}

/// The parent of a name in a directory is that directory.
pub proof fn lemma_parent_of_join(dir: Seq<char>, name: Seq<char>)
    requires
        is_name(name),
    ensures
        parent(join(dir, name)) matches Some(f) && components(f) == components(dir),
{
    let p = join(dir, name);
    let head = if dir.len() == 0 || dir.last() == '/' {
        dir
    } else {
        dir.push('/')
    };
    assert(name.contains(name[0]));
    assert(name.contains(name.last()));
    assert(p == head + name);
    assert(p.last() == name.last());
    if name.len() > 1 {
        assert(p[p.len() - 2] == name[name.len() - 2]);
        assert(name.contains(name[name.len() - 2]));
    } else {
        assert(name =~= seq![name.last()]);
    }
    assert(trim_tail(p) == p);
    assert(p != seq!['/']) by {
        if p == seq!['/'] {
            assert(p.last() == '/');
        }
    }
    lemma_up_to_slash(head, name);
    lemma_trim_tail(head);
    if head != dir {
        lemma_end_slash(dir);
    }
}

} // verus!
