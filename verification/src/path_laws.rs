//! What holds of paths and their parts.
use vstd::prelude::*;

use crate::paths;
use crate::paths::Step;
use crate::text;
use crate::text_laws;

verus! {

/// A name joined to a folder is the last step of the path, and the folder is
/// what is left without it.
pub proof fn law_names_in_folders(dir: Seq<char>, name: Seq<char>)
    requires
        name.len() > 0,
        !name.contains('/'),
        name != seq!['.'],
        name != seq!['.', '.'],
    ensures
        paths::components(paths::join(dir, name)) == paths::components(dir).push(
            Step::Normal(name),
        ),
        paths::file_name(paths::join(dir, name)) == Some(name),
        paths::parent(paths::join(dir, name)) matches Some(f) && paths::components(f)
            == paths::components(dir),
{
    paths::lemma_join_name(dir, name);
    paths::lemma_parent_of_join(dir, name);
}

/// A slash parts a folder from what is in it; an absolute path stands alone.
pub proof fn law_joined_paths(dir: Seq<char>, rest: Seq<char>)
    ensures
        rest.len() > 0 && rest[0] == '/' ==> paths::join(dir, rest) == rest,
        !(rest.len() > 0 && rest[0] == '/') && dir.len() > 0 && dir.last() != '/' ==> paths::join(
            dir,
            rest,
        ) == dir.push('/') + rest,
        !(rest.len() > 0 && rest[0] == '/') && (dir.len() == 0 || dir.last() == '/')
            ==> paths::join(dir, rest) == dir + rest,
{
}

/// A slash at the end changes nothing, and two points are a step up.
pub proof fn law_steps(p: Seq<char>)
    requires
        p.len() > 0,
    ensures
        paths::components(p.push('/')) == paths::components(p),
        paths::components(p.push('/') + seq!['.', '.']) == paths::components(p).push(
            Step::ParentDir,
        ),
        paths::components(p.push('/') + seq!['.']) == paths::components(p),
        p[0] == '/' <==> paths::components(p).len() > 0 && paths::components(p)[0] == Step::Root,
{
    paths::lemma_end_slash(p);
    let up = seq!['.', '.'];
    let here = seq!['.'];
    assert(!up.contains('/') && !here.contains('/'));
    text_laws::lemma_split_more(p, '/', up);
    text_laws::lemma_split_more(p, '/', here);
    let cut = text::split(p, '/');
    text::lemma_split_len(p, '/');
    assert(cut.push(up).drop_last() =~= cut);
    assert(cut.push(here).drop_last() =~= cut);
    assert((p.push('/') + up)[0] == p[0]);
    assert((p.push('/') + here)[0] == p[0]);
    assert(here != up) by {
        assert(here.len() != up.len());
    }
    let inner = paths::steps(cut);
    assert(inner + seq![Step::ParentDir] =~= inner.push(Step::ParentDir));
    assert(seq![Step::Root] + inner.push(Step::ParentDir) =~= (seq![Step::Root] + inner).push(
        Step::ParentDir,
    ));
    assert(inner + Seq::<Step>::empty() =~= inner);
    if p[0] != '/' {
        paths::lemma_no_root(p);
    }
}

/// The last point of a name is the one that no other follows.
pub proof fn lemma_last_dot(stem: Seq<char>, e: Seq<char>)
    requires
        !e.contains('.'),
    ensures
        paths::last_dot(stem.push('.') + e) == stem.len(),
    decreases e.len(),
{
    let name = stem.push('.') + e;
    if e.len() == 0 {
        assert(name =~= stem.push('.'));
    } else {
        let less = e.drop_last();
        assert(e.contains(e.last()));
        assert forall|c: char| #[trigger] less.contains(c) implies e.contains(c) by {
            let j = choose|j: int| 0 <= j < less.len() && less[j] == c;
            assert(e[j] == c);
        }
        lemma_last_dot(stem, less);
        assert(name.drop_last() =~= stem.push('.') + less);
        assert(name.last() == e.last());
    }
}

proof fn lemma_no_dot(name: Seq<char>)
    requires
        forall|i: int| 1 <= i < name.len() ==> name[i] != '.',
    ensures
        paths::last_dot(name) <= 0,
    decreases name.len(),
{
    if name.len() > 1 {
        assert(name[name.len() - 1] == name.last());
        assert forall|i: int| 1 <= i < name.drop_last().len() implies name.drop_last()[i]
            != '.' by {
            assert(name.drop_last()[i] == name[i]);
        }
        lemma_no_dot(name.drop_last());
    } else if name.len() == 1 {
        assert(name.drop_last() =~= Seq::<char>::empty());
        assert(paths::last_dot(name.drop_last()) == -1);
    }
}

/// The extension of a file is what stands behind the last point of its name, and
/// its stem what stands before it.
pub proof fn law_extensions(dir: Seq<char>, stem: Seq<char>, e: Seq<char>)
    requires
        stem.len() > 0,
        !e.contains('.'),
        !e.contains('/'),
        !stem.contains('/'),
        stem.push('.') + e != seq!['.', '.'],
    ensures
        paths::extension(paths::join(dir, stem.push('.') + e)) == Some(e),
        paths::file_stem(paths::join(dir, stem.push('.') + e)) == Some(stem),
        paths::file_name(paths::join(dir, stem.push('.') + e)) == Some(stem.push('.') + e),
{
    let name = stem.push('.') + e;
    assert(name.len() >= 2);
    assert(!name.contains('/')) by {
        if name.contains('/') {
            let i = choose|i: int| 0 <= i < name.len() && name[i] == '/';
            if i < stem.len() {
                assert(stem[i] == '/');
            } else if i > stem.len() {
                assert(e[i - stem.len() - 1] == '/');
            }
        }
    }
    assert(name != seq!['.']);
    law_names_in_folders(dir, name);
    lemma_last_dot(stem, e);
    assert(name.skip(stem.len() as int + 1) =~= e);
    assert(name.take(stem.len() as int) =~= stem);
}

/// A name without a point, or with one only in front, has no extension: all of
/// it is the stem.
pub proof fn law_plain_names(dir: Seq<char>, name: Seq<char>)
    requires
        name.len() > 0,
        !name.contains('/'),
        name != seq!['.'],
        forall|i: int| 1 <= i < name.len() ==> name[i] != '.',
    ensures
        paths::extension(paths::join(dir, name)) is None,
        paths::file_stem(paths::join(dir, name)) == Some(name),
{
    if name == seq!['.', '.'] {
        assert(name[1] == '.');
    }
    law_names_in_folders(dir, name);
    lemma_no_dot(name);
}

} // verus!
