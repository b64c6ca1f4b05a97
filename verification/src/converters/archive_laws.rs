//! What packing and unpacking promise together.
use vstd::prelude::*;

use crate::converters;
use crate::converters::archive;
use crate::converters::names;
use crate::converters::packing;
use crate::converters::packing::WalkedView;
use crate::converters::unpacking;
use crate::converters::unpacking::{Plan, UnpackView};
use crate::converters::{DeliveryView, Failure, SourceView};
use crate::outside::tars;
use crate::outside::tars::EntryView;
use crate::outside::zips;
use crate::outside::zips::ItemView;
use crate::path_laws;
use crate::paths;
use crate::paths::Step;
use crate::text;

verus! {

/// The path that a step writes to.
pub open spec fn step_path(step: UnpackView) -> Seq<char> {
    match step {
        UnpackView::Folder(path) => path,
        UnpackView::File { path, .. } => path,
        UnpackView::Entry { path, .. } => path,
    }
}

/// Whether a step touches nothing outside `dest`; the folder made for a file
/// counts too, unless the file would stand in for `dest` itself.
pub open spec fn stays_inside(dest: Seq<char>, step: UnpackView) -> bool {
    &&& archive::lies_within(dest, step_path(step))
    &&& step matches UnpackView::File { folder: Some(f), path, .. } ==> path == dest
        || archive::lies_within(dest, f)
}

/// A path from the destination is the destination or a name in a folder there.
proof fn lemma_inside_last(dest: Seq<char>, steps: Seq<Step>) -> (q: (Seq<char>, Seq<char>))
    requires
        forall|k: int|
            0 <= k < steps.len() ==> ((#[trigger] steps[k]) matches Step::Normal(n)
                ==> paths::is_name(n)),
    ensures
        archive::inside(dest, steps) matches Some(p) ==> p == dest || (p == paths::join(q.0, q.1)
            && paths::is_name(q.1) && archive::lies_within(dest, q.0)),
    decreases steps.len(),
{
    if steps.len() == 0 {
        (dest, dest)
    } else {
        let rest = steps.drop_last();
        assert forall|k: int| 0 <= k < rest.len() implies ((
        #[trigger] rest[k]) matches Step::Normal(n) ==> paths::is_name(n)) by {
            assert(rest[k] == steps[k]);
        }
        match (archive::inside(dest, rest), steps.last()) {
            (Some(p), Step::Normal(name)) => {
                assert(steps[steps.len() - 1] == Step::Normal(name));
                archive::lemma_inside(dest, rest);
                (p, name)
            },
            _ => lemma_inside_last(dest, rest),
        }
    }
}

proof fn lemma_safe_folder(dest: Seq<char>, entry: Seq<char>)
    ensures
        archive::safe_path(dest, entry) matches Some(p) ==> archive::lies_within(dest, p) && (p
            == dest || (paths::parent(p) matches Some(f) ==> archive::lies_within(dest, f))),
{
    archive::law_entries_stay_inside(dest, entry);
    paths::lemma_component_names(entry);
    let q = lemma_inside_last(dest, paths::components(entry));
    if archive::safe_path(dest, entry) is Some && paths::is_name(q.1) {
        paths::lemma_parent_of_join(q.0, q.1);
    }
}

proof fn lemma_zip_plan_inside(
    input: Seq<char>,
    dest: Seq<char>,
    items: Seq<Result<ItemView, Seq<char>>>,
)
    ensures
        forall|k: int|
            0 <= k < unpacking::zip_plan(input, dest, items).steps.len() ==> stays_inside(
                dest,
                #[trigger] unpacking::zip_plan(input, dest, items).steps[k],
            ),
    decreases items.len(),
{
    if items.len() > 0 {
        lemma_zip_plan_inside(input, dest, items.drop_last());
        let before = unpacking::zip_plan(input, dest, items.drop_last());
        let after = unpacking::zip_plan(input, dest, items);
        if let Ok(i) = items.last() {
            lemma_safe_folder(dest, i.name);
        }
        assert forall|k: int| 0 <= k < after.steps.len() implies stays_inside(
            dest,
            #[trigger] after.steps[k],
        ) by {
            if k < before.steps.len() {
                assert(after.steps[k] == before.steps[k]);
            }
        }
    }
}

proof fn lemma_tar_plan_inside(
    input: Seq<char>,
    dest: Seq<char>,
    entries: Seq<Result<EntryView, Seq<char>>>,
)
    ensures
        forall|k: int|
            0 <= k < unpacking::tar_plan(input, dest, entries).steps.len() ==> stays_inside(
                dest,
                #[trigger] unpacking::tar_plan(input, dest, entries).steps[k],
            ),
    decreases entries.len(),
{
    if entries.len() > 0 {
        lemma_tar_plan_inside(input, dest, entries.drop_last());
        let before = unpacking::tar_plan(input, dest, entries.drop_last());
        let after = unpacking::tar_plan(input, dest, entries);
        if let Ok(e) = entries.last() {
            lemma_safe_folder(dest, e.name);
        }
        assert forall|k: int| 0 <= k < after.steps.len() implies stays_inside(
            dest,
            #[trigger] after.steps[k],
        ) by {
            if k < before.steps.len() {
                assert(after.steps[k] == before.steps[k]);
            }
        }
    }
}

/// Unpacking never writes outside the destination, whatever the archive holds.
pub proof fn law_unpacking_stays_inside(
    input: Seq<char>,
    content: Result<Seq<u8>, Seq<char>>,
    dest: Seq<char>,
)
    ensures
        forall|k: int|
            0 <= k < unpacking::unpacking(input, content, dest).plan.steps.len() ==> stays_inside(
                dest,
                #[trigger] unpacking::unpacking(input, content, dest).plan.steps[k],
            ),
{
    if let Ok(bytes) = content {
        if let Ok(items) = zips::opened_zip(bytes) {
            lemma_zip_plan_inside(input, dest, items);
        }
        if let Ok(entries) = tars::tar_entries(bytes) {
            lemma_tar_plan_inside(input, dest, entries);
        }
        if let Ok(entries) = tars::gz_tar_entries(bytes) {
            lemma_tar_plan_inside(input, dest, entries);
        }
    }
}

proof fn lemma_no_step_crosses(
    input: Seq<char>,
    dest: Seq<char>,
    entries: Seq<Result<EntryView, Seq<char>>>,
    j: int,
    k: int,
)
    requires
        0 <= j < k < unpacking::tar_plan(input, dest, entries).steps.len(),
    ensures
        unpacking::tar_plan(input, dest, entries).steps[j] matches UnpackView::Entry {
            path,
            link: true,
            ..
        } ==> !unpacking::leads_through(
            step_path(unpacking::tar_plan(input, dest, entries).steps[k]),
            path,
        ),
    decreases entries.len(),
{
    let before = unpacking::tar_plan(input, dest, entries.drop_last());
    let after = unpacking::tar_plan(input, dest, entries);
    if k < before.steps.len() {
        lemma_no_step_crosses(input, dest, entries.drop_last(), j, k);
        assert(after.steps[j] == before.steps[j] && after.steps[k] == before.steps[k]);
    } else {
        assert(after.steps[j] == before.steps[j]);
    }
}

/// No entry is unpacked through a link: where a step of a plan makes one, no
/// later step goes there or below.
pub proof fn law_links_are_not_followed(
    input: Seq<char>,
    content: Result<Seq<u8>, Seq<char>>,
    dest: Seq<char>,
    j: int,
    k: int,
)
    requires
        0 <= j < k < unpacking::unpacking(input, content, dest).plan.steps.len(),
    ensures
        unpacking::unpacking(input, content, dest).plan.steps[j] matches UnpackView::Entry {
            path,
            link: true,
            ..
        } ==> !unpacking::leads_through(
            step_path(unpacking::unpacking(input, content, dest).plan.steps[k]),
            path,
        ),
{
    if let Ok(bytes) = content {
        if unpacking::is_zip_name(input) {
            if let Ok(items) = zips::opened_zip(bytes) {
                lemma_zip_has_no_entries(input, dest, items);
            }
        } else {
            let listed = if unpacking::is_gz_name(input) {
                tars::gz_tar_entries(bytes)
            } else {
                tars::tar_entries(bytes)
            };
            if let Ok(entries) = listed {
                lemma_no_step_crosses(input, dest, entries, j, k);
            }
        }
    }
}

/// A ZIP file makes no links.
proof fn lemma_zip_has_no_entries(
    input: Seq<char>,
    dest: Seq<char>,
    items: Seq<Result<ItemView, Seq<char>>>,
)
    ensures
        forall|k: int|
            0 <= k < unpacking::zip_plan(input, dest, items).steps.len() ==> !((
            #[trigger] unpacking::zip_plan(input, dest, items).steps[k]) is Entry),
    decreases items.len(),
{
    if items.len() > 0 {
        lemma_zip_has_no_entries(input, dest, items.drop_last());
        let before = unpacking::zip_plan(input, dest, items.drop_last());
        let after = unpacking::zip_plan(input, dest, items);
        assert forall|k: int| 0 <= k < after.steps.len() implies !((
        #[trigger] after.steps[k]) is Entry) by {
            if k < before.steps.len() {
                assert(after.steps[k] == before.steps[k]);
            }
        }
    }
}

/// A path below a folder, one name after the other.
pub open spec fn below(dest: Seq<char>, trail: Seq<Seq<char>>) -> Seq<char>
    decreases trail.len(),
{
    if trail.len() == 0 {
        dest
    } else {
        paths::join(below(dest, trail.drop_last()), trail.last())
    }
}

/// Whether a trail is one or more plain names.
pub open spec fn is_trail(trail: Seq<Seq<char>>) -> bool {
    trail.len() > 0 && forall|k: int|
        0 <= k < trail.len() ==> paths::is_name(#[trigger] trail[k])
}

/// What a trail makes of a path.
pub open spec fn trail_holds(dest: Seq<char>, trail: Seq<Seq<char>>) -> bool {
    let p = text::join(trail, "/"@);
    &&& p.len() > 0
    &&& p.last() == trail.last().last()
    &&& !paths::is_absolute(p)
    &&& paths::components(p) == trail.map_values(|n: Seq<char>| Step::Normal(n))
    &&& archive::inside(dest, paths::components(p)) == Some(below(dest, trail))
}

proof fn lemma_no_components()
    ensures
        paths::components(Seq::<char>::empty()) == Seq::<Step>::empty(),
{
    let empty = Seq::<char>::empty();
    assert(text::split(empty, '/') =~= seq![empty]);
    assert(seq![empty].drop_last() =~= Seq::<Seq<char>>::empty());
    assert(seq![empty].last() == empty);
    assert(paths::steps(Seq::<Seq<char>>::empty()) =~= Seq::<Step>::empty());
    assert(paths::steps(seq![empty]) =~= Seq::<Step>::empty());
}

proof fn lemma_single_name(dest: Seq<char>, trail: Seq<Seq<char>>)
    requires
        trail.len() == 1,
        paths::is_name(trail[0]),
    ensures
        trail_holds(dest, trail),
{
    let name = trail[0];
    let empty = Seq::<char>::empty();
    let steps = trail.map_values(|n: Seq<char>| Step::Normal(n));
    let p = text::join(trail, "/"@);
    assert(p =~= name);
    assert(name.contains(name[0]));
    lemma_no_components();
    paths::lemma_join_name(empty, name);
    assert(empty + name =~= name);
    assert(paths::components(p) =~= steps);
    assert(steps.drop_last() =~= Seq::<Step>::empty());
    assert(trail.drop_last() =~= Seq::<Seq<char>>::empty());
    assert(archive::inside(dest, steps.drop_last()) == Some(dest));
    assert(below(dest, trail.drop_last()) == dest);
}

/// The path of a trail is that of its front and the last name.
proof fn lemma_trail_path(trail: Seq<Seq<char>>)
    requires
        trail.len() > 1,
        is_trail(trail),
        text::join(trail.drop_last(), "/"@).len() > 0,
        text::join(trail.drop_last(), "/"@).last() == trail.drop_last().last().last(),
    ensures
        text::join(trail, "/"@) == paths::join(text::join(trail.drop_last(), "/"@), trail.last()),
{
    let front = trail.drop_last();
    let name = trail.last();
    let q = text::join(front, "/"@);
    assert(paths::is_name(trail[trail.len() - 1]));
    assert(paths::is_name(trail[front.len() - 1]));
    assert(front.last() == trail[front.len() - 1]);
    assert(name.contains(name[0]));
    assert(front.last().contains(front.last().last()));
    reveal_strlit("/");
    assert("/"@ =~= seq!['/']);
    assert(q + "/"@ =~= q.push('/'));
}

proof fn lemma_longer_trail(dest: Seq<char>, trail: Seq<Seq<char>>)
    requires
        trail.len() > 1,
        is_trail(trail),
        trail_holds(dest, trail.drop_last()),
    ensures
        trail_holds(dest, trail),
{
    let front = trail.drop_last();
    let name = trail.last();
    let q = text::join(front, "/"@);
    let p = text::join(trail, "/"@);
    assert(paths::is_name(trail[trail.len() - 1]));
    lemma_trail_path(trail);
    assert(p[0] == q[0] && p.last() == name.last() && p.len() > 0) by {
        assert(name.contains(name[0]));
    }
    let steps = trail.map_values(|n: Seq<char>| Step::Normal(n));
    let start = front.map_values(|n: Seq<char>| Step::Normal(n));
    paths::lemma_join_name(q, name);
    assert(paths::components(p) == steps) by {
        assert(start.push(Step::Normal(name)) =~= steps);
    }
    assert(steps.drop_last() =~= start);
}

/// The components of the path that a trail makes are its names.
proof fn lemma_trail(dest: Seq<char>, trail: Seq<Seq<char>>)
    requires
        is_trail(trail),
    ensures
        trail_holds(dest, trail),
    decreases trail.len(),
{
    if trail.len() == 1 {
        assert(paths::is_name(trail[0]));
        lemma_single_name(dest, trail);
    } else {
        let front = trail.drop_last();
        assert forall|k: int| 0 <= k < front.len() implies paths::is_name(#[trigger] front[k]) by {
            assert(front[k] == trail[k]);
        }
        lemma_trail(dest, front);
        lemma_longer_trail(dest, trail);
    }
}

/// A file is packed under a plain name, and goes there in the destination.
proof fn lemma_packed_name(input: Seq<char>, dest: Seq<char>)
    ensures
        paths::is_name(packing::packed_name(input)),
        archive::safe_path(dest, packing::packed_name(input)) == Some(
            paths::join(dest, packing::packed_name(input)),
        ),
{
    let name = packing::packed_name(input);
    assert(paths::is_name(name)) by {
        paths::lemma_component_names(input);
        reveal_strlit("file");
        if paths::file_name(input) is None {
            assert(name.len() == 4);
            assert(name[0] == 'f' && name[1] == 'i' && name[2] == 'l' && name[3] == 'e');
        } else {
            let c = paths::components(input);
            assert(c[c.len() - 1] == Step::Normal(name));
        }
    }
    lemma_trail(dest, seq![name]);
    assert(text::join(seq![name], "/"@) =~= name);
    assert(seq![name].drop_last() =~= Seq::<Seq<char>>::empty());
    assert(below(dest, seq![name].drop_last()) == dest);
}

/// What packing one file and unpacking the ZIP file gives back: the file, under
/// its name in the destination.
pub proof fn law_file_round_trip(
    input: Seq<char>,
    source: SourceView,
    output: Seq<char>,
    archive_path: Seq<char>,
    dest: Seq<char>,
)
    requires
        !source.is_dir,
        !zips::is_folder_name(packing::packed_name(input)),
    ensures
        packing::packed_items(input, source, output) matches Ok(items) ==> source.content is Ok
            && unpacking::zip_outcome(
            archive_path,
            dest,
            Ok(zips::all_read(items)),
        ) == (Plan {
            steps: seq![
                UnpackView::File {
                    folder: paths::parent(paths::join(dest, packing::packed_name(input))),
                    path: paths::join(dest, packing::packed_name(input)),
                    data: source.content->Ok_0,
                },
            ],
            failure: None,
        }),
{
    let name = packing::packed_name(input);
    lemma_packed_name(input, dest);
    if let Ok(items) = packing::packed_items(input, source, output) {
        let read = zips::all_read(items);
        assert(items =~= seq![zips::whole_item(name, source.content->Ok_0)]);
        assert(read.drop_last() =~= Seq::<Result<ItemView, Seq<char>>>::empty());
        let before = unpacking::zip_plan(archive_path, dest, read.drop_last());
        let after = unpacking::zip_plan(archive_path, dest, read);
        assert(after.steps =~= before.steps.push(after.steps.last()));
        assert(after.steps =~= seq![after.steps.last()]);
    }
}

/// What packing one file and unpacking the TAR file gives back: the file, under
/// its name in the destination.
pub proof fn law_tar_round_trip(
    input: Seq<char>,
    data: Seq<u8>,
    archive_path: Seq<char>,
    dest: Seq<char>,
)
    ensures
        unpacking::tar_outcome(
            archive_path,
            dest,
            tars::single_file(packing::packed_name(input), data),
        ) == (Plan {
            steps: seq![
                UnpackView::Entry {
                    path: paths::join(dest, packing::packed_name(input)),
                    link: false,
                    data,
                },
            ],
            failure: None,
        }),
{
    let name = packing::packed_name(input);
    lemma_packed_name(input, dest);
    let entries = tars::single_file(name, data)->Ok_0;
    assert(entries.drop_last() =~= Seq::<Result<EntryView, Seq<char>>>::empty());
    let before = unpacking::tar_plan(archive_path, dest, entries.drop_last());
    assert(before == (Plan { steps: Seq::<UnpackView>::empty(), failure: None }));
    assert(!unpacking::crosses_link(before.steps, paths::join(dest, name)));
    let after = unpacking::tar_plan(archive_path, dest, entries);
    assert(entries.last() == Ok::<_, Seq<char>>(
        EntryView { name, flag: tars::REGULAR, data, fault: None },
    ));
    assert(after.steps =~= seq![
        UnpackView::Entry { path: paths::join(dest, name), link: false, data },
    ]);
}

/// Nothing behind the last dot of a name is a dot.
proof fn lemma_behind_dot(name: Seq<char>)
    ensures
        -1 <= paths::last_dot(name) < name.len(),
        paths::last_dot(name) >= 0 ==> name[paths::last_dot(name)] == '.',
        forall|i: int| paths::last_dot(name) < i < name.len() ==> name[i] != '.',
    decreases name.len(),
{
    if name.len() > 0 && name.last() != '.' {
        lemma_behind_dot(name.drop_last());
        assert forall|i: int| paths::last_dot(name) < i < name.len() implies name[i] != '.' by {
            if i < name.len() - 1 {
                assert(name.drop_last()[i] == name[i]);
            }
        }
    }
}

/// A file name ends in a dot and its extension.
proof fn lemma_name_end(path: Seq<char>)
    ensures
        converters::ext(path).len() > 0 ==> (paths::file_name(path) matches Some(name)
            && text::lower(name).len() > converters::ext(path).len() && text::lower(name).skip(
            text::lower(name).len() - converters::ext(path).len() - 1,
        ) == seq!['.'] + converters::ext(path)),
        !converters::ext(path).contains('.'),
{
    if let Some(name) = paths::file_name(path) {
        lemma_behind_dot(name);
        let d = paths::last_dot(name);
        if d > 0 {
            let e = name.skip(d + 1);
            assert(text::lower(name).skip(d) =~= seq!['.'] + text::lower(e));
            assert forall|i: int| 0 <= i < text::lower(e).len() implies text::lower(e)[i]
                != '.' by {
                assert(e[i] == name[d + 1 + i]);
            }
        }
    }
}

/// The file name of an archive tells how it is read.
proof fn lemma_archive_name(path: Seq<char>)
    requires
        converters::is_packable(converters::compound_ext(path)),
    ensures
        archive::is_unpacked(path),
        unpacking::is_zip_name(path) <==> converters::compound_ext(path) == "zip"@,
        converters::compound_ext(path) != "zip"@ ==> (unpacking::is_gz_name(path)
            <==> converters::compound_ext(path) != "tar"@),
{
    let to = converters::compound_ext(path);
    names::lemma_names();
    reveal_strlit("zip");
    reveal_strlit("tar");
    reveal_strlit("tgz");
    reveal_strlit("tar.gz");
    reveal_strlit(".zip");
    reveal_strlit(".gz");
    reveal_strlit(".tgz");
    reveal_strlit(".tar.gz");
    reveal_strlit("");
    lemma_name_end(path);
    if let Some(file) = paths::file_name(path) {
        let name = text::lower(file);
        let n = name.len();
        if converters::named_tar_gz(path) {
            if text::ends_with(name, ".tar.gz"@) {
                let end = name.skip(n - 7);
                assert(end == ".tar.gz"@);
                assert(name.skip(n - 3) =~= end.skip(4));
                assert(".gz"@ =~= ".tar.gz"@.skip(4));
                assert(name[n - 1] == end[6]);
            } else {
                let end = name.skip(n - 4);
                assert(name[n - 1] == end[3]);
            }
            assert(name[n - 1] == 'z');
            if text::ends_with(name, ".zip"@) {
                assert(name.skip(n - 4)[3] == name[n - 1]);
            }
        } else {
            let e = converters::ext(path);
            assert(to == e);
            if e == "tar.gz"@ {
                assert(e[3] == '.');
                assert(e.contains('.'));
            }
            if e == "tgz"@ {
                assert(name.skip(n - 4) =~= ".tgz"@);
            }
            if e == "zip"@ {
                assert(name.skip(n - 4) =~= ".zip"@);
            }
            if e == "tar"@ {
                assert(name.skip(n - 4)[3] == 'r');
                assert(name[n - 1] == 'r');
                if text::ends_with(name, ".zip"@) {
                    assert(name.skip(n - 4)[3] == 'p');
                }
                if text::ends_with(name, ".gz"@) {
                    assert(name.skip(n - 3)[2] == name[n - 1]);
                }
                if text::ends_with(name, ".tgz"@) {
                    assert(name.skip(n - 4)[3] == 'z');
                }
            }
        }
    }
}

/// Whether a plan does one thing: write a file.
pub open spec fn writes_one_file(plan: Plan, path: Seq<char>, data: Seq<u8>) -> bool {
    &&& plan.failure is None
    &&& plan.steps.len() == 1
    &&& plan.steps[0] matches UnpackView::File { path: p, data: d, .. } ==> p == path && d == data
    &&& plan.steps[0] matches UnpackView::Entry { path: p, link, data: d } ==> p == path && !link
        && d == data
    &&& !(plan.steps[0] is Folder)
}

/// Whether a file can be packed under its name and found again: in a ZIP file the
/// name does not read as that of a folder, in a TAR file it is a plain one on
/// every machine.
pub open spec fn keeps_its_name(input: Seq<char>, archive_path: Seq<char>) -> bool {
    if converters::compound_ext(archive_path) == "zip"@ {
        !zips::is_folder_name(packing::packed_name(input))
    } else {
        tars::is_plain_name(packing::packed_name(input))
    }
}

/// A file that is packed into an archive of any format comes back as it was
/// where the archive is unpacked, under its name in the destination.
pub proof fn law_archive_round_trip(
    input: Seq<char>,
    source: SourceView,
    archive_path: Seq<char>,
    bytes: Seq<u8>,
    packed: SourceView,
    output: Seq<char>,
    r: Result<DeliveryView, Failure>,
)
    requires
        source.exists && !source.is_dir,
        !archive::is_unpacked(input),
        keeps_its_name(input, archive_path),
        converters::is_packable(converters::compound_ext(archive_path)),
        archive::archive_allows(input, source, archive_path, Ok(DeliveryView::Bytes(bytes))),
        packed.exists,
        packed.content == Ok::<_, Seq<char>>(bytes),
        archive::archive_allows(archive_path, packed, output, r),
    ensures
        source.content is Ok,
        r matches Ok(DeliveryView::Unpack(u)) && u.dest == archive::unpack_dir(output)
            && writes_one_file(
            u.plan,
            paths::join(archive::unpack_dir(output), packing::packed_name(input)),
            source.content->Ok_0,
        ),
{
    let dest = archive::unpack_dir(output);
    names::lemma_names();
    lemma_archive_name(archive_path);
    if converters::compound_ext(archive_path) == "zip"@ {
        law_file_round_trip(input, source, archive_path, archive_path, dest);
    } else {
        law_tar_round_trip(input, source.content->Ok_0, archive_path, dest);
    }
}

/// The step that gives back what a walk through a folder came upon.
pub open spec fn given_back(dest: Seq<char>, found: WalkedView) -> UnpackView {
    match found {
        WalkedView::Folder { trail } => UnpackView::Folder(below(dest, trail)),
        WalkedView::File { trail, content } => UnpackView::File {
            folder: paths::parent(below(dest, trail)),
            path: below(dest, trail),
            data: content->Ok_0,
        },
        WalkedView::Unlisted(_) => arbitrary(),
    }
}

/// Whether what was found lies on a trail of names, and a file has a name that
/// does not read as that of a folder.
pub open spec fn has_trail(found: WalkedView) -> bool {
    match found {
        WalkedView::Folder { trail } => is_trail(trail),
        WalkedView::File { trail, .. } => is_trail(trail) && trail.last().last() != '\\',
        WalkedView::Unlisted(_) => true,
    }
}

/// What packing a folder and unpacking the ZIP file gives back: every folder
/// and file of it, in order, below the destination.
pub proof fn law_folder_round_trip(
    base: Seq<char>,
    found: Seq<WalkedView>,
    archive_path: Seq<char>,
    dest: Seq<char>,
)
    requires
        forall|k: int| 0 <= k < found.len() ==> has_trail(#[trigger] found[k]),
    ensures
        packing::folder_items(base, found) matches Ok(items) ==> unpacking::zip_outcome(
            archive_path,
            dest,
            Ok(zips::all_read(items)),
        ) == (Plan {
            steps: found.map_values(|w: WalkedView| given_back(dest, w)),
            failure: None,
        }),
    decreases found.len(),
{
    let steps = found.map_values(|w: WalkedView| given_back(dest, w));
    if found.len() == 0 {
        assert(steps =~= Seq::<UnpackView>::empty());
        assert(zips::all_read(Seq::<ItemView>::empty()) =~= Seq::empty());
    } else {
        let rest = found.drop_last();
        assert forall|k: int| 0 <= k < rest.len() implies has_trail(#[trigger] rest[k]) by {
            assert(rest[k] == found[k]);
        }
        law_folder_round_trip(base, rest, archive_path, dest);
        assert(has_trail(found[found.len() - 1]));
        if let Ok(items) = packing::folder_items(base, found) {
            let before = packing::folder_items(base, rest)->Ok_0;
            let read = zips::all_read(items);
            assert(read.drop_last() =~= zips::all_read(before));
            let trail = match found.last() {
                WalkedView::Folder { trail } => trail,
                WalkedView::File { trail, .. } => trail,
                WalkedView::Unlisted(_) => Seq::empty(),
            };
            lemma_trail(dest, trail);
            let name = text::join(trail, "/"@);
            let last = items.last();
            assert(read.last() == Ok::<ItemView, Seq<char>>(last));
            if found.last() is Folder {
                if !zips::is_folder_name(name) {
                    paths::lemma_end_slash(name);
                    assert(name.push('/')[0] == name[0]);
                }
            } else {
                assert(trail.last().contains(trail.last().last()));
                assert(paths::is_name(trail[trail.len() - 1]));
            }
            assert(archive::safe_path(dest, last.name) == Some(below(dest, trail)));
            let plan = unpacking::zip_plan(archive_path, dest, read);
            assert(plan.steps =~= steps);
        }
    }
}

// ---------------------------------------------------------------------------
// Entries
// ---------------------------------------------------------------------------

/// An entry whose name is a trail of plain names goes there, below the
/// destination, name by name.
pub proof fn law_entries_go_below(dest: Seq<char>, trail: Seq<Seq<char>>)
    requires
        is_trail(trail),
    ensures
        archive::safe_path(dest, text::join(trail, "/"@)) == Some(below(dest, trail)),
        below(dest, trail) == paths::join(below(dest, trail.drop_last()), trail.last()),
        below(dest, Seq::empty()) == dest,
{
    lemma_trail(dest, trail);
}

/// Each item of a ZIP file adds its step to the plan: a folder is made, and a
/// file is written with its data. What was planned before stays, and an item
/// that is cut short is reported.
pub proof fn law_zip_items(
    plan: Plan,
    input: Seq<char>,
    dest: Seq<char>,
    trail: Seq<Seq<char>>,
    item: ItemView,
)
    requires
        is_trail(trail),
        item.name == text::join(trail, "/"@),
    ensures
        ({
            let now = unpacking::with_item(plan, input, dest, Ok(item));
            &&& now.steps.drop_last() == plan.steps
            &&& now.steps.len() == plan.steps.len() + 1
            &&& item.is_dir ==> now.steps.last() == UnpackView::Folder(below(dest, trail))
                && now.failure is None
            &&& !item.is_dir ==> (now.steps.last() matches UnpackView::File { path, data, folder }
                && path == below(dest, trail) && data == item.data && folder == paths::parent(path))
                && (now.failure is None <==> item.fault is None)
        }),
{
    law_entries_go_below(dest, trail);
    let now = unpacking::with_item(plan, input, dest, Ok(item));
    assert(now.steps.drop_last() =~= plan.steps);
}

/// Each entry of a TAR file adds its step to the plan, unless it leads through a
/// link that was made before; links are told from files.
pub proof fn law_tar_entries(
    plan: Plan,
    input: Seq<char>,
    dest: Seq<char>,
    trail: Seq<Seq<char>>,
    entry: EntryView,
)
    requires
        is_trail(trail),
        entry.name == text::join(trail, "/"@),
        forall|k: int|
            0 <= k < plan.steps.len() ==> !((#[trigger] plan.steps[k]) matches UnpackView::Entry {
                link: true,
                ..
            }),
    ensures
        ({
            let now = unpacking::with_entry(plan, input, dest, Ok(entry));
            &&& now.steps.drop_last() == plan.steps
            &&& now.steps.len() == plan.steps.len() + 1
            &&& now.steps.last() matches UnpackView::Entry { path, link, data } && path == below(
                dest,
                trail,
            ) && data == entry.data && (link <==> entry.flag == 0x31 || entry.flag == 0x32)
            &&& now.failure is None <==> entry.fault is None
        }),
{
    law_entries_go_below(dest, trail);
    let now = unpacking::with_entry(plan, input, dest, Ok(entry));
    assert(now.steps.drop_last() =~= plan.steps);
}

/// An entry that would leave the destination, and one that cannot be read, ends
/// the unpacking with an error that names the archive; what was planned before
/// stays, and nothing is added.
pub proof fn law_bad_entries_end_it(
    plan: Plan,
    input: Seq<char>,
    dest: Seq<char>,
    item: ItemView,
    entry: EntryView,
    why: Seq<char>,
)
    requires
        item.name == entry.name,
        item.name.len() > 0 && item.name[0] == '/' || paths::components(item.name).contains(
            Step::ParentDir,
        ),
    ensures
        ({
            let a = unpacking::with_item(plan, input, dest, Ok(item));
            let b = unpacking::with_entry(plan, input, dest, Ok(entry));
            let c = unpacking::with_item(plan, input, dest, Err(why));
            let d = unpacking::with_entry(plan, input, dest, Err(why));
            &&& a.steps == plan.steps && b.steps == plan.steps
            &&& c.steps == plan.steps && d.steps == plan.steps
            &&& a.failure matches Some(Failure::MalformedData { path, .. }) && path == input
            &&& b.failure matches Some(Failure::MalformedData { path, .. }) && path == input
            &&& c.failure matches Some(Failure::MalformedData { path, reason, .. }) && path == input
                && reason == why
            &&& d.failure matches Some(Failure::MalformedData { path, reason, .. }) && path == input
                && reason == why
        }),
{
    archive::law_refused_entries(dest, item.name);
}

/// The items of a ZIP file are taken in order, up to the first that fails.
pub proof fn law_items_in_order(
    input: Seq<char>,
    dest: Seq<char>,
    items: Seq<Result<ItemView, Seq<char>>>,
    item: Result<ItemView, Seq<char>>,
    entries: Seq<Result<EntryView, Seq<char>>>,
    entry: Result<EntryView, Seq<char>>,
)
    ensures
        ({
            let before = unpacking::zip_outcome(input, dest, Ok(items));
            let now = unpacking::zip_outcome(input, dest, Ok(items.push(item)));
            &&& before.failure is Some ==> now == before
            &&& before.failure is None ==> now == unpacking::with_item(before, input, dest, item)
        }),
        ({
            let before = unpacking::tar_outcome(input, dest, Ok(entries));
            let now = unpacking::tar_outcome(input, dest, Ok(entries.push(entry)));
            &&& before.failure is Some ==> now == before
            &&& before.failure is None ==> now == unpacking::with_entry(before, input, dest, entry)
        }),
        unpacking::zip_outcome(input, dest, Ok(Seq::empty())).failure is None,
        unpacking::tar_outcome(input, dest, Ok(Seq::empty())).failure is None,
{
    assert(items.push(item).drop_last() =~= items);
    assert(entries.push(entry).drop_last() =~= entries);
}

/// An archive is read by what its name says: as a ZIP file, as a TAR file, or as
/// one that is compressed; one that cannot be read at all is reported, and
/// nothing is unpacked.
pub proof fn law_archives_are_read(
    dir: Seq<char>,
    stem: Seq<char>,
    bytes: Seq<u8>,
    dest: Seq<char>,
    why: Seq<char>,
)
    requires
        !stem.contains('/'),
        stem.len() > 0,
    ensures
        ({
            let zip = paths::join(dir, stem + ".zip"@);
            let tar = paths::join(dir, stem + ".tar"@);
            let gz = paths::join(dir, stem + ".tar.gz"@);
            &&& unpacking::unpacking(zip, Ok(bytes), dest) == (unpacking::UnpackingView {
                dest,
                compressed: false,
                plan: unpacking::zip_outcome(zip, dest, zips::opened_zip(bytes)),
            })
            &&& unpacking::unpacking(tar, Ok(bytes), dest) == (unpacking::UnpackingView {
                dest,
                compressed: false,
                plan: unpacking::tar_outcome(tar, dest, tars::tar_entries(bytes)),
            })
            &&& unpacking::unpacking(gz, Ok(bytes), dest) == (unpacking::UnpackingView {
                dest,
                compressed: true,
                plan: unpacking::tar_outcome(gz, dest, tars::gz_tar_entries(bytes)),
            })
        }),
        unpacking::unpacking(stem, Err(why), dest).plan.steps.len() == 0,
        unpacking::unpacking(stem, Err(why), dest).plan.failure == Some(
            Failure::UnreadableInput { path: stem, reason: why },
        ),
{
    reveal_strlit(".zip");
    reveal_strlit(".tar");
    reveal_strlit(".tar.gz");
    reveal_strlit(".gz");
    reveal_strlit(".tgz");
    assert(".zip"@ =~= seq!['.', 'z', 'i', 'p']);
    assert(".tar"@ =~= seq!['.', 't', 'a', 'r']);
    assert(".tar.gz"@ =~= seq!['.', 't', 'a', 'r', '.', 'g', 'z']);
    lemma_named(dir, stem, ".zip"@);
    lemma_named(dir, stem, ".tar"@);
    lemma_named(dir, stem, ".tar.gz"@);
    let t = text::lower(stem + ".tar"@);
    let n = t.len();
    assert(t[n - 1] == 'r');
    assert(!text::ends_with(t, ".zip"@)) by {
        if text::ends_with(t, ".zip"@) {
            assert(t.skip(n - 4)[3] == 'p');
        }
    }
    assert(!text::ends_with(t, ".gz"@)) by {
        if text::ends_with(t, ".gz"@) {
            assert(t.skip(n - 3)[2] == 'z');
        }
    }
    assert(!text::ends_with(t, ".tgz"@)) by {
        if text::ends_with(t, ".tgz"@) {
            assert(t.skip(n - 4)[3] == 'z');
        }
    }
    let z = text::lower(stem + ".zip"@);
    assert(z.skip(z.len() - 4) =~= ".zip"@);
    let g = text::lower(stem + ".tar.gz"@);
    let m = g.len();
    assert(g.skip(m - 3) =~= ".gz"@);
    assert(g[m - 1] == 'z');
    assert(!text::ends_with(g, ".zip"@)) by {
        if text::ends_with(g, ".zip"@) {
            assert(g.skip(m - 4)[3] == 'p');
        }
    }
}

proof fn lemma_named(dir: Seq<char>, stem: Seq<char>, end: Seq<char>)
    requires
        !stem.contains('/'),
        stem.len() > 0,
        end.len() >= 2,
        !end.contains('/'),
    ensures
        paths::file_name(paths::join(dir, stem + end)) == Some(stem + end),
{
    let name = stem + end;
    assert(!name.contains('/')) by {
        if name.contains('/') {
            let i = choose|i: int| 0 <= i < name.len() && name[i] == '/';
            if i < stem.len() {
                assert(stem[i] == '/');
            } else {
                assert(end[i - stem.len()] == '/');
            }
        }
    }
    paths::lemma_join_name(dir, name);
}

/// An archive is unpacked into the folder that was asked for; where a file was
/// asked for, into the folder beside it that has its name without the extension.
pub proof fn law_unpacked_into(dir: Seq<char>, stem: Seq<char>, e: Seq<char>)
    requires
        stem.len() > 0,
        !e.contains('.'),
        !e.contains('/'),
        !stem.contains('/'),
        stem.push('.') + e != seq!['.', '.'],
    ensures
        ({
            let output = paths::join(dir, stem.push('.') + e);
            &&& converters::kind_of(text::lower(e)) == converters::FileKind::Unknown
                ==> archive::unpack_dir(output) == output
            &&& converters::kind_of(text::lower(e)) != converters::FileKind::Unknown && paths::is_name(
                stem,
            ) ==> paths::components(archive::unpack_dir(output)) == paths::components(dir).push(
                Step::Normal(stem),
            )
        }),
{
    path_laws::law_extensions(dir, stem, e);
    let name = stem.push('.') + e;
    assert(paths::is_name(name)) by {
        assert(name.len() >= 2);
        if name.contains('/') {
            let i = choose|i: int| 0 <= i < name.len() && name[i] == '/';
            if i < stem.len() {
                assert(stem[i] == '/');
            } else if i > stem.len() {
                assert(e[i - stem.len() - 1] == '/');
            }
        }
    }
    let output = paths::join(dir, name);
    paths::lemma_parent_of_join(dir, name);
    if paths::is_name(stem) {
        paths::lemma_join_name(paths::parent(output)->Some_0, stem);
    }
}

// ---------------------------------------------------------------------------
// What is refused
// ---------------------------------------------------------------------------

/// What is not there cannot be packed or unpacked; a folder goes into a TAR
/// file under its own name, compressed unless a bare TAR file is asked for;
/// and what is neither packed nor unpacked is not supported.
pub proof fn law_archive_answers(
    input: Seq<char>,
    source: SourceView,
    output: Seq<char>,
    r: Result<DeliveryView, Failure>,
)
    requires
        archive::archive_allows(input, source, output, r),
    ensures
        ({
            let to = converters::compound_ext(output);
            let unpacked = converters::is_archive(converters::ext(input)) || converters::is_archive(
                converters::compound_ext(input),
            );
            &&& !source.exists ==> r == Err::<DeliveryView, _>(
                Failure::UnreadableInput { path: input, reason: "file does not exist"@ },
            )
            &&& source.exists && unpacked ==> (r matches Ok(DeliveryView::Unpack(u)) && u.dest
                == archive::unpack_dir(output))
            &&& source.exists && !unpacked && source.is_dir && (to == "tar.gz"@ || to == "tgz"@
                || to == "tar"@) ==> (r matches Ok(DeliveryView::Tar { name, compressed }) && name
                == packing::packed_name(input) && (compressed <==> to != "tar"@))
            &&& source.exists && !unpacked && to != "zip"@ && to != "tar.gz"@ && to != "tgz"@ && to
                != "tar"@ ==> r == Err::<DeliveryView, _>(
                Failure::UnsupportedConversion { from: converters::compound_ext(input), to },
            )
        }),
{
    names::lemma_archive_names();
    reveal_strlit("zip");
    reveal_strlit("tar");
    reveal_strlit("tgz");
    reveal_strlit("tar.gz");
    assert("zip"@[0] != "tar"@[0] && "zip"@[0] != "tgz"@[0]);
    assert("zip"@.len() != "tar.gz"@.len());
}

/// A file that cannot be read is reported under its own path, and an archive
/// that takes no more under that of the archive or of the folder packed.
pub proof fn law_packing_failures(
    input: Seq<char>,
    source: SourceView,
    output: Seq<char>,
    items: Seq<ItemView>,
    trail: Seq<Seq<char>>,
    why: Seq<char>,
)
    requires
        source.content == Err::<Seq<u8>, _>(why),
        !source.is_dir,
    ensures
        zips::start_refused(Seq::empty(), packing::packed_name(input)) is None
            ==> packing::packed_items(input, source, output) == Err::<Seq<ItemView>, _>(
            Failure::UnreadableInput { path: input, reason: why },
        ),
        zips::start_refused(Seq::empty(), packing::packed_name(input)) matches Some(full)
            ==> packing::packed_items(input, source, output) == Err::<Seq<ItemView>, _>(
            Failure::UnwritableOutput { path: output, reason: full },
        ),
        zips::start_refused(items, text::join(trail, "/"@)) is None ==> packing::with_walked(
            items,
            input,
            WalkedView::File { trail, content: Err(why) },
        ) == Err::<Seq<ItemView>, _>(
            Failure::UnreadableInput {
                path: paths::join(input, text::join(trail, "/"@)),
                reason: why,
            },
        ),
        zips::start_refused(items, text::join(trail, "/"@)) matches Some(full)
            ==> packing::with_walked(
            items,
            input,
            WalkedView::File { trail, content: Err(why) },
        ) == Err::<Seq<ItemView>, _>(Failure::UnwritableOutput { path: input, reason: full }),
        packing::with_walked(items, input, WalkedView::Unlisted(why)) == Err::<Seq<ItemView>, _>(
            Failure::Io(why),
        ),
{
}

/// Archives that cannot be read are reported by the format they were read as,
/// and entries that point out of the folder by their name.
pub proof fn law_unpacking_failures(
    plan: Plan,
    input: Seq<char>,
    dest: Seq<char>,
    item: ItemView,
    entry: EntryView,
    why: Seq<char>,
)
    requires
        archive::safe_path(dest, item.name) is None,
        archive::safe_path(dest, entry.name) is None,
    ensures
        unpacking::with_item(plan, input, dest, Err(why)).failure == Some(
            Failure::MalformedData { path: input, format: "ZIP"@, reason: why },
        ),
        unpacking::with_entry(plan, input, dest, Err(why)).failure == Some(
            Failure::MalformedData { path: input, format: "TAR"@, reason: why },
        ),
        unpacking::with_item(plan, input, dest, Ok(item)).failure == Some(
            Failure::MalformedData {
                path: input,
                format: "ZIP"@,
                reason: "unsafe entry path rejected: '"@ + item.name + "'"@,
            },
        ),
        unpacking::with_entry(plan, input, dest, Ok(entry)).failure == Some(
            Failure::MalformedData {
                path: input,
                format: "TAR"@,
                reason: "unsafe entry path rejected: '"@ + entry.name + "'"@,
            },
        ),
        unpacking::zip_outcome(input, dest, Err(why)) == (Plan {
            steps: Seq::empty(),
            failure: Some(Failure::MalformedData { path: input, format: "ZIP"@, reason: why }),
        }),
        unpacking::tar_outcome(input, dest, Err(why)) == (Plan {
            steps: Seq::empty(),
            failure: Some(Failure::MalformedData { path: input, format: "TAR"@, reason: why }),
        }),
        unpacking::unpacking(input, Err(why), dest).plan == (Plan {
            steps: Seq::empty(),
            failure: Some(Failure::UnreadableInput { path: input, reason: why }),
        }),
{
}

/// Hard and symbolic links are links, and nothing else is; a path leads through
/// a link where it is that link or stands below it.
pub proof fn law_links(flag: u8, p: Seq<char>, name: Seq<char>)
    requires
        name.len() > 0,
        !name.contains('/'),
        name != seq!['.'],
        name != seq!['.', '.'],
    ensures
        unpacking::is_link(flag) <==> flag as char == '1' || flag as char == '2',
        unpacking::leads_through(p, p),
        unpacking::leads_through(paths::join(p, name), p),
        !unpacking::leads_through(p, paths::join(p, name)),
{
    path_laws::law_names_in_folders(p, name);
    let c = paths::components(p);
    assert(c.is_prefix_of(c.push(Step::Normal(name))));
}

} // verus!
