//! Laws of a batch: the options it takes, where it writes, which files it
//! converts, and what it tells.
use vstd::prelude::*;

use crate::app::batch;
use crate::app::batch::JobView;
use crate::app::history;
use crate::app::queue;
use crate::app::ActionView;
use crate::app::FileStatus;
use crate::app::FileView;
use crate::app::ModelView;
use crate::converters;
use crate::converters::FileKind;
use crate::number;
use crate::number_laws;
use crate::path_laws;
use crate::paths;
use crate::paths::Step;
use crate::text;
use crate::text_laws;

verus! {

// ---------------------------------------------------------------------------
// Options
// ---------------------------------------------------------------------------

/// The bitrates on offer are 128, 192 and 320, from low to high; each is
/// labelled with its number and found again by it.
pub proof fn law_bitrates(i: usize, b: u32)
    ensures
        batch::bitrate_at(i) == Some(b) <==> batch::bitrate_index(b) == Some(i),
        batch::bitrate_index(b) is Some <==> b == 128 || b == 192 || b == 320,
        batch::bitrate_at(i) is Some <==> i < batch::bitrate_labels().len(),
        batch::bitrate_at(i) == Some(b) ==> batch::bitrate_labels()[i as int] == number::decimal(
            b as nat,
        ) + " kbps"@,
        forall|j: usize|
            j < i && batch::bitrate_at(i) == Some(b) ==> (#[trigger] batch::bitrate_at(j)) is Some
                && batch::bitrate_at(j)->0 < b,
{
}

/// A number with white space around it.
pub open spec fn typed(field: Seq<char>, n: nat) -> bool {
    exists|lead: Seq<char>, trail: Seq<char>|
        text::blank(lead) && text::blank(trail) && field == #[trigger] (lead + number::decimal(n)
            + trail)
}

pub proof fn lemma_typed(field: Seq<char>, n: nat)
    requires
        typed(field, n),
    ensures
        text::trim(field) == number::decimal(n),
{
    let (lead, trail) = choose|lead: Seq<char>, trail: Seq<char>|
        text::blank(lead) && text::blank(trail) && field == #[trigger] (lead + number::decimal(n)
            + trail);
    let d = number::decimal(n);
    number_laws::law_decimal(n);
    text_laws::law_white_space(d[0]);
    text_laws::law_white_space(d.last());
    assert('0' <= d[0] && d[0] <= '9');
    assert('0' <= d[d.len() - 1] && d[d.len() - 1] <= '9');
    text_laws::law_trim(lead, d, trail);
}

/// The quality typed is the quality used, kept between one and a hundred;
/// a number past a byte, or none, stands for ninety.
pub proof fn law_quality(field: Seq<char>, n: nat)
    ensures
        1 <= batch::quality_of(field) <= 100,
        typed(field, n) && 1 <= n <= 100 ==> batch::quality_of(field) == n,
        typed(field, n) && n == 0 ==> batch::quality_of(field) == 1,
        typed(field, n) && 100 < n <= 255 ==> batch::quality_of(field) == 100,
        typed(field, n) && n > 255 ==> batch::quality_of(field) == 90,
        text::blank(field) ==> batch::quality_of(field) == 90,
{
    if typed(field, n) {
        lemma_typed(field, n);
        number_laws::law_numbers_read_back(n, 255);
    }
    text::lemma_trim_blank(field);
    number_laws::law_no_number(Seq::empty(), 255, 0);
    if text::blank(field) {
        assert(text::trim(field) =~= Seq::<char>::empty());
    }
}

/// The size typed is the size used; zero, an empty field and a number past
/// 32 bits keep the size of the picture.
pub proof fn law_typed_sizes(field: Seq<char>, n: nat)
    ensures
        typed(field, n) && 0 < n <= u32::MAX ==> batch::size_of_field(field) == Some(n as u32),
        typed(field, n) && (n == 0 || n > u32::MAX) ==> batch::size_of_field(field) is None,
        text::blank(field) ==> batch::size_of_field(field) is None,
        batch::size_of_field(field) != Some(0u32),
{
    if typed(field, n) {
        lemma_typed(field, n);
        number_laws::law_numbers_read_back(n, u32::MAX as nat);
    }
    text::lemma_trim_blank(field);
    number_laws::law_no_number(Seq::empty(), u32::MAX as nat, 0);
    if text::blank(field) {
        assert(text::trim(field) =~= Seq::<char>::empty());
    }
}

/// A batch takes its quality, width and height each from its own field, and
/// the bitrate picked; without a pick it takes the preference, kept between
/// 64 and 320, and 192 where there is none.
pub proof fn law_options(m: ModelView, q: nat, w: nat, h: nat)
    requires
        typed(m.quality_text, q) && 1 <= q <= 100,
        typed(m.resize_w_text, w) && 0 < w <= u32::MAX,
        typed(m.resize_h_text, h) && 0 < h <= u32::MAX,
    ensures
        ({
            let o = batch::options_of(m);
            let kept = m.config.audio_bitrate_kbps;
            &&& o.jpeg_quality == q
            &&& o.resize_width == Some(w as u32)
            &&& o.resize_height == Some(h as u32)
            &&& o.csv_delimiter is None
            &&& o.webp_quality == 90
            &&& m.audio_bitrate_idx == Some(0usize) ==> o.audio_bitrate_kbps == 128
            &&& m.audio_bitrate_idx == Some(1usize) ==> o.audio_bitrate_kbps == 192
            &&& m.audio_bitrate_idx == Some(2usize) ==> o.audio_bitrate_kbps == 320
            &&& m.audio_bitrate_idx is None && kept == 0 ==> o.audio_bitrate_kbps == 192
            &&& m.audio_bitrate_idx is None && 64 <= kept <= 320 ==> o.audio_bitrate_kbps == kept
            &&& m.audio_bitrate_idx is None && 0 < kept < 64 ==> o.audio_bitrate_kbps == 64
            &&& m.audio_bitrate_idx is None && kept > 320 ==> o.audio_bitrate_kbps == 320
        }),
{
    law_quality(m.quality_text, q);
    law_typed_sizes(m.resize_w_text, w);
    law_typed_sizes(m.resize_h_text, h);
}

// ---------------------------------------------------------------------------
// Folders and names
// ---------------------------------------------------------------------------

/// Every kind of file has a folder name of its own, and each is a plain name.
pub proof fn law_kind_folders(a: FileKind, b: FileKind)
    ensures
        batch::kind_dir(a) == batch::kind_dir(b) <==> a == b,
        batch::kind_dir(FileKind::Image) == "images"@,
        batch::kind_dir(FileKind::Tabular) == "data"@,
        batch::kind_dir(FileKind::Audio) == "audio"@,
        batch::kind_dir(FileKind::Video) == "video"@,
        batch::kind_dir(FileKind::Document) == "documents"@,
        batch::kind_dir(FileKind::Archive) == "archives"@,
        batch::kind_dir(FileKind::Unknown) == "files"@,
        batch::kind_dir(a).len() > 2,
        !batch::kind_dir(a).contains('/'),
{
    reveal_strlit("images");
    reveal_strlit("data");
    reveal_strlit("audio");
    reveal_strlit("video");
    reveal_strlit("documents");
    reveal_strlit("archives");
    reveal_strlit("files");
    let (x, y) = (batch::kind_dir(a), batch::kind_dir(b));
    assert(x.len() == y.len() ==> x[0] == y[0] ==> x[1] == y[1] ==> a == b);
}

/// Grouped, a file of a kind goes into the folder of that kind below the
/// output folder; otherwise every file goes into the output folder.
pub proof fn law_grouping(m: ModelView, kind: FileKind)
    ensures
        !m.config.group_by_kind ==> batch::folder_for(m, kind) == m.output_dir,
        m.config.group_by_kind ==> paths::components(batch::folder_for(m, kind))
            == paths::components(m.output_dir).push(Step::Normal(batch::kind_dir(kind))),
{
    law_kind_folders(kind, kind);
    let name = batch::kind_dir(kind);
    assert(name != seq!['.']);
    assert(name != seq!['.', '.']);
    path_laws::law_names_in_folders(m.output_dir, name);
}

/// The output of a file is named like the file, with the target for its
/// extension, and stands in the folder for its kind.
pub proof fn law_output(
    m: ModelView,
    f: FileView,
    from: Seq<char>,
    stem: Seq<char>,
    e: Seq<char>,
    target: Seq<char>,
)
    requires
        stem.len() > 0,
        !e.contains('.'),
        !e.contains('/'),
        !stem.contains('/'),
        stem.push('.') + e != seq!['.', '.'],
        !text::ends_with(stem, ".tar"@),
        f.path == paths::join(from, stem.push('.') + e),
        target.len() > 0,
        text::lower(target) == target,
        !target.contains('/'),
        target != "unzip"@ && target != "extract"@ && target != "tgz"@,
    ensures
        paths::components(batch::base_path(m, f, target)) == paths::components(
            batch::folder_for(m, f.kind),
        ).push(Step::Normal(stem.push('.') + target)),
{
    let dir = batch::folder_for(m, f.kind);
    converters::registry_laws::law_outputs_are_named_like_inputs(from, stem, e, target, dir);
    let name = stem.push('.') + target;
    assert(!name.contains('/'));
    assert(name.len() >= 3);
    path_laws::law_names_in_folders(dir, name);
}

/// A taken name gets its number before its extension, in the same folder.
pub proof fn law_numbered_names(dir: Seq<char>, stem: Seq<char>, e: Seq<char>, n: nat)
    requires
        n > 0,
        stem.len() > 0,
        !stem.contains('/'),
        !e.contains('/'),
        !e.contains('.'),
        stem.push('.') + e != seq!['.', '.'],
        !text::ends_with(text::lower(stem.push('.') + e), ".tar.gz"@),
    ensures
        paths::components(batch::candidate(paths::join(dir, stem.push('.') + e), n))
            == paths::components(dir).push(
            Step::Normal(stem + "_"@ + number::decimal(n) + (seq!['.'] + e)),
        ),
        batch::candidate(paths::join(dir, stem.push('.') + e), 0) == paths::join(
            dir,
            stem.push('.') + e,
        ),
{
    let name = stem.push('.') + e;
    assert(!name.contains('/'));
    assert(name.len() >= 2);
    path_laws::law_names_in_folders(dir, name);
    path_laws::lemma_last_dot(stem, e);
    assert(name.take(stem.len() as int) =~= stem);
    assert(name.skip(stem.len() as int) =~= seq!['.'] + e);
    lemma_numbered(dir, name, stem, seq!['.'] + e, n);
}

/// Both extensions of a packed archive stay together at the end.
pub proof fn law_numbered_archives(dir: Seq<char>, stem: Seq<char>, n: nat)
    requires
        n > 0,
        stem.len() > 0,
        !stem.contains('/'),
    ensures
        paths::components(batch::candidate(paths::join(dir, stem + ".tar.gz"@), n))
            == paths::components(dir).push(
            Step::Normal(stem + "_"@ + number::decimal(n) + ".tar.gz"@),
        ),
{
    reveal_strlit(".tar.gz");
    let name = stem + ".tar.gz"@;
    assert(!name.contains('/')) by {
        if name.contains('/') {
            let k = choose|k: int| 0 <= k < name.len() && name[k] == '/';
            if k < stem.len() {
                assert(stem[k] == '/');
            } else {
                assert(".tar.gz"@[k - stem.len()] == '/');
            }
        }
    }
    path_laws::law_names_in_folders(dir, name);
    assert(text::lower(name).skip(text::lower(name).len() - 7) =~= ".tar.gz"@);
    assert(name.take(name.len() - 7) =~= stem);
    lemma_numbered(dir, name, stem, ".tar.gz"@, n);
}

/// A name without an extension gets its number at the end.
pub proof fn law_numbered_folders(dir: Seq<char>, name: Seq<char>, n: nat)
    requires
        n > 0,
        name.len() > 0,
        !name.contains('/'),
        !name.contains('.'),
    ensures
        paths::components(batch::candidate(paths::join(dir, name), n)) == paths::components(
            dir,
        ).push(Step::Normal(name + "_"@ + number::decimal(n))),
{
    assert(name != seq!['.']) by {
        assert(seq!['.'][0] == '.');
    }
    assert(name != seq!['.', '.']) by {
        assert(seq!['.', '.'][0] == '.');
    }
    path_laws::law_names_in_folders(dir, name);
    lemma_no_dot(name);
    reveal_strlit(".tar.gz");
    assert(!text::ends_with(text::lower(name), ".tar.gz"@)) by {
        if text::ends_with(text::lower(name), ".tar.gz"@) {
            let k = name.len() - 7;
            assert(text::lower(name).skip(k)[0] == '.');
            assert(text::lower(name)[k] == '.');
            text_laws::law_lower_case(name, k);
            assert(name[k] == '.');
        }
    }
    lemma_numbered(dir, name, name, Seq::empty(), n);
    assert(name + "_"@ + number::decimal(n) + Seq::<char>::empty() =~= name + "_"@
        + number::decimal(n));
}

proof fn lemma_no_dot(name: Seq<char>)
    requires
        !name.contains('.'),
    ensures
        paths::last_dot(name) < 0,
    decreases name.len(),
{
    if name.len() > 0 {
        assert(name[name.len() - 1] == name.last());
        assert forall|k: int| 0 <= k < name.len() - 1 implies name.drop_last()[k] != '.' by {
            assert(name[k] != '.');
        }
        lemma_no_dot(name.drop_last());
    }
}

proof fn lemma_numbered(dir: Seq<char>, name: Seq<char>, stem: Seq<char>, end: Seq<char>, n: nat)
    requires
        n > 0,
        stem.len() > 0,
        !stem.contains('/'),
        !end.contains('/'),
        batch::name_parts(name) == (stem, end),
        paths::file_name(paths::join(dir, name)) == Some(name),
        paths::parent(paths::join(dir, name)) is Some,
        paths::components(paths::parent(paths::join(dir, name))->0) == paths::components(dir),
    ensures
        paths::components(batch::candidate(paths::join(dir, name), n)) == paths::components(
            dir,
        ).push(Step::Normal(stem + "_"@ + number::decimal(n) + end)),
{
    reveal_strlit("_");
    number_laws::law_decimal(n);
    let base = paths::join(dir, name);
    let p = paths::parent(base)->0;
    let renamed = stem + "_"@ + number::decimal(n) + end;
    assert(!renamed.contains('/')) by {
        if renamed.contains('/') {
            let k = choose|k: int| 0 <= k < renamed.len() && renamed[k] == '/';
            let d = number::decimal(n);
            if k < stem.len() {
                assert(stem[k] == '/');
            } else if k == stem.len() {
            } else if k < stem.len() + 1 + d.len() {
                assert(d[k - stem.len() - 1] == '/');
            } else {
                assert(end[k - stem.len() - 1 - d.len()] == '/');
            }
        }
    }
    assert(renamed.len() >= 3);
    path_laws::law_names_in_folders(p, renamed);
    assert(batch::candidate(base, n) == paths::join(p, renamed));
}

/// Different numbers make different names.
pub proof fn law_names_differ(stem: Seq<char>, end: Seq<char>, a: nat, b: nat)
    requires
        stem + "_"@ + number::decimal(a) + end == stem + "_"@ + number::decimal(b) + end,
    ensures
        a == b,
{
    number_laws::law_decimal(a);
    number_laws::law_decimal(b);
    let (x, y) = (number::decimal(a), number::decimal(b));
    let s = stem + "_"@ + x + end;
    let t = stem + "_"@ + y + end;
    let k = (stem + "_"@).len() as int;
    assert(s.subrange(k, k + x.len()) =~= x);
    assert(t.subrange(k, k + y.len()) =~= y);
    assert(s.len() == k + x.len() + end.len());
    assert(t.len() == k + y.len() + end.len());
}

// ---------------------------------------------------------------------------
// Which files are converted
// ---------------------------------------------------------------------------

/// Whether a batch concerns a file: it is ready or has failed, and it is
/// selected where only the selected files are converted.
pub open spec fn concerned(f: FileView, selected_only: bool) -> bool {
    (f.status == FileStatus::Pending || f.status == FileStatus::Failed) && (selected_only
        ==> f.selected)
}

/// Whether a file can go to a target: the conversion is supported, and a
/// folder is only ever packed.
pub open spec fn convertible(f: FileView, folder: bool, t: Seq<char>) -> bool {
    converters::supported(f.source_ext, t) && (folder ==> t == "zip"@ || t == "tar.gz"@)
}

/// When a batch starts, a file that it does not concern is left as it is; one
/// that can go to its target is being converted to it; one that cannot, or
/// has no target, fails with the reason. Its name, target and place stay.
pub proof fn law_batch_files(
    m: ModelView,
    selected_only: bool,
    folders: Seq<bool>,
    now: u64,
    i: int,
)
    requires
        !m.is_converting,
        0 <= i < m.files.len() == folders.len(),
    ensures
        ({
            let n = batch::batch_started(m, selected_only, None, folders, now);
            let (f, g) = (m.files[i], n.files[i]);
            let target = queue::target_of(f);
            &&& n.files.len() == m.files.len()
            &&& !concerned(f, selected_only) ==> g == f
            &&& concerned(f, selected_only) && target is Some && convertible(
                f,
                folders[i],
                target->0,
            ) ==> g == (FileView {
                status: FileStatus::Converting,
                progress: 50,
                error: None,
                start_time: Some(now),
                end_time: None,
                output_path: g.output_path,
                ..f
            }) && g.output_path == Some(batch::base_path(m, f, target->0))
            &&& concerned(f, selected_only) && !(target is Some && convertible(
                f,
                folders[i],
                target->0,
            )) ==> g.error is Some && g == (FileView {
                status: FileStatus::Failed,
                error: g.error,
                ..f
            })
            &&& concerned(f, selected_only) && target is None ==> g.error == Some(
                "Pick a target format first"@,
            )
            &&& concerned(f, selected_only) && target is Some && !converters::supported(
                f.source_ext,
                target->0,
            ) ==> g.error == Some("Unsupported conversion: ."@ + f.source_ext + " → ."@ + target->0)
            &&& concerned(f, selected_only) && target is Some && converters::supported(
                f.source_ext,
                target->0,
            ) && !convertible(f, folders[i], target->0) ==> g.error == Some(
                "Folders can only be packed into .zip / .tar.gz"@,
            )
        }),
{
}

/// The queue of a batch in two parts: the second part alone, with what is
/// known of its files.
pub open spec fn rest_of(m: ModelView, k: int) -> ModelView {
    ModelView { files: m.files.skip(k), ..m }
}

/// The jobs of a queue are the jobs of its parts, in order, and refusals add
/// up over them.
pub proof fn law_jobs_in_order(
    m: ModelView,
    selected_only: bool,
    folders: Seq<bool>,
    k: nat,
    n: nat,
)
    requires
        k + n <= m.files.len() == folders.len(),
    ensures
        batch::jobs(m, selected_only, folders, k + n) == batch::jobs(m, selected_only, folders, k)
            + batch::jobs(rest_of(m, k as int), selected_only, folders.skip(k as int), n),
        batch::refused(m, selected_only, folders, k + n) == batch::refused(
            m,
            selected_only,
            folders,
            k,
        ) + batch::refused(rest_of(m, k as int), selected_only, folders.skip(k as int), n),
    decreases n,
{
    let r = rest_of(m, k as int);
    let rf = folders.skip(k as int);
    if n == 0 {
        assert(batch::jobs(r, selected_only, rf, 0) =~= Seq::<JobView>::empty());
        assert(batch::jobs(m, selected_only, folders, k) + Seq::<JobView>::empty()
            =~= batch::jobs(m, selected_only, folders, k));
    } else {
        law_jobs_in_order(m, selected_only, folders, k, (n - 1) as nat);
        assert(r.files[n - 1] == m.files[k + n - 1]);
        assert(rf[n - 1] == folders[k + n - 1]);
        assert(batch::verdict_at(r, selected_only, rf, n - 1) == batch::verdict_at(
            m,
            selected_only,
            folders,
            k + n - 1,
        ));
        assert(batch::jobs(m, selected_only, folders, k + n) =~= batch::jobs(
            m,
            selected_only,
            folders,
            k,
        ) + batch::jobs(r, selected_only, rf, n));
    }
}

/// A file makes one job where it is converted and none otherwise. The job
/// reads the file, writes where the file is to go, makes the folder of the
/// kind where outputs are grouped, and looks for a free name unless existing
/// files may be overwritten.
pub proof fn law_one_job(m: ModelView, selected_only: bool, folder: bool)
    requires
        m.files.len() == 1,
    ensures
        ({
            let f = m.files[0];
            let v = batch::jobs(m, selected_only, seq![folder], 1);
            let target = queue::target_of(f);
            let done = concerned(f, selected_only) && target is Some && convertible(
                f,
                folder,
                target->0,
            );
            &&& v.len() == (if done {
                1nat
            } else {
                0nat
            })
            &&& batch::refused(m, selected_only, seq![folder], 1) == (if concerned(
                f,
                selected_only,
            ) && !done {
                1nat
            } else {
                0nat
            })
            &&& done ==> {
                &&& v[0].id == f.id
                &&& v[0].input == f.path
                &&& v[0].base == batch::base_path(m, f, target->0)
                &&& v[0].make_dir is Some <==> m.config.group_by_kind
                &&& v[0].make_dir is Some ==> v[0].make_dir == Some(batch::folder_for(m, f.kind))
                &&& v[0].rename <==> !m.config.overwrite_existing
                &&& v[0].opts == batch::options_of(m)
            }
        }),
{
    assert(batch::jobs(m, selected_only, seq![folder], 0) =~= Seq::<JobView>::empty());
    assert(batch::refused(m, selected_only, seq![folder], 0) == 0);
}

/// A batch runs exactly where there are jobs, and nothing else of the model
/// changes; while one runs, another does nothing; and where the output folder
/// cannot be used, only the banner changes.
pub proof fn law_batch_runs(
    m: ModelView,
    selected_only: bool,
    folder_error: Option<Seq<char>>,
    folders: Seq<bool>,
    now: u64,
)
    ensures
        ({
            let n = batch::batch_started(m, selected_only, folder_error, folders, now);
            let v = batch::batch_jobs(m, selected_only, folder_error, folders);
            let all = batch::jobs(m, selected_only, folders, m.files.len());
            &&& n == (ModelView {
                files: n.files,
                is_converting: n.is_converting,
                warning: n.warning,
                ..m
            })
            &&& m.is_converting ==> n == m && v.len() == 0
            &&& !m.is_converting && folder_error is Some ==> v.len() == 0 && n.files == m.files
                && !n.is_converting && n.warning == Some(
                "Cannot use output folder "@ + m.output_dir + ": "@ + folder_error->0,
            )
            &&& !m.is_converting && folder_error is None ==> v == all && (n.is_converting
                <==> v.len() > 0)
        }),
{
}

/// The banner says nothing where every file is converted; it says how many
/// were refused; and where nothing is converted it says what to do.
pub proof fn law_batch_warning(selected_only: bool, count: nat, skipped: nat)
    ensures
        batch::batch_warning(selected_only, count, skipped) is None <==> count > 0 && skipped == 0,
        count > 0 && skipped > 0 ==> batch::batch_warning(selected_only, count, skipped) == Some(
            number::decimal(skipped) + " file(s) skipped (invalid target)."@,
        ),
        count == 0 && skipped > 0 ==> batch::batch_warning(selected_only, count, skipped) == Some(
            "Nothing to convert — "@ + number::decimal(skipped)
                + " file(s) need a valid target format."@,
        ),
        batch::batch_warning(true, 0, 0) == Some("Nothing to convert — select files first."@),
        batch::batch_warning(false, 0, 0) == Some("Nothing to convert — add files first."@),
{
}

// ---------------------------------------------------------------------------
// The end of a batch
// ---------------------------------------------------------------------------

/// The end of a batch tells how many files are done and, where any failed,
/// how many did; the output folder is opened where that is wanted and
/// something was converted.
pub proof fn law_announcement(m: ModelView)
    ensures
        ({
            let done = queue::count_status(m.files, FileStatus::Done);
            let failed = queue::count_status(m.files, FileStatus::Failed);
            match batch::announcement(m) {
                ActionView::Announce(told, opened) => {
                    &&& failed == 0 ==> told == "Converted "@ + number::decimal(done)
                        + " file(s) to "@ + m.output_dir
                    &&& failed > 0 ==> told == "Finished: "@ + number::decimal(done)
                        + " converted, "@ + number::decimal(failed)
                        + " failed — see the queue for details"@
                    &&& opened is Some <==> m.config.auto_open_output && done > 0
                    &&& opened is Some ==> opened == Some(m.output_dir)
                },
                _ => false,
            }
        }),
{
}

/// Of the history the newest hundred entries are kept, in order.
pub proof fn law_recent<T>(h: Seq<T>)
    ensures
        history::recent(h).len() == (if h.len() < 100 {
            h.len()
        } else {
            100
        }),
        forall|k: int|
            0 <= k < history::recent(h).len() ==> #[trigger] history::recent(h)[k] == h[h.len()
                - history::recent(h).len() + k],
{
}

/// A record names the file, its format, its target, when it finished and,
/// where it was converted, where its output is; it is no favorite yet.
pub proof fn law_records(f: FileView, output: Option<Seq<char>>, secs: u64)
    ensures
        ({
            let e = history::record_of(f, output, secs);
            &&& e.input_name == f.file_name
            &&& e.source_ext == f.source_ext
            &&& queue::target_of(f) is Some ==> e.target == queue::target_of(f)->0
            &&& queue::target_of(f) is None ==> e.target.len() == 0
            &&& e.success <==> output is Some
            &&& output is Some ==> e.output_display == output->0
            &&& output is None ==> e.output_display.len() == 0
            &&& e.finished_at == secs
            &&& !e.favorite
        }),
{
}

} // verus!
