//! Laws of the queue: where files stand, how they are counted, what is
//! offered for them, and how paths join the queue.
use vstd::prelude::*;

use crate::app::queue;
use crate::app::queue::FoundView;
use crate::app::FileStatus;
use crate::app::FileView;
use crate::app::ModelView;
use crate::converters;
use crate::converters::names;
use crate::converters::FileKind;
use crate::number;
use crate::outside::encoding;
use crate::paths;
use crate::text;
use crate::text_laws;

verus! {

/// A file is found at the first place in the queue that has its id, and an
/// id that no file has is not found.
pub proof fn law_place(files: Seq<FileView>, id: u64, i: int)
    ensures
        queue::place(files, id) == Some(i) <==> 0 <= i < files.len() && files[i].id == id
            && forall|j: int| 0 <= j < i ==> (#[trigger] files[j]).id != id,
        queue::place(files, id) is None <==> forall|j: int|
            0 <= j < files.len() ==> (#[trigger] files[j]).id != id,
    decreases files.len(),
{
    if files.len() > 0 {
        let front = files.drop_last();
        law_place(front, id, i);
        assert forall|j: int| 0 <= j < front.len() implies front[j] == files[j] by {}
        if queue::place(front, id) is Some {
            let k = queue::place(front, id)->0;
            law_place(front, id, k);
            assert(front[k].id == id);
        }
    }
}

/// Files of a status, and selected files, add up over the parts of a queue.
pub proof fn law_counts_add_up(a: Seq<FileView>, b: Seq<FileView>, status: FileStatus)
    ensures
        queue::count_status(a + b, status) == queue::count_status(a, status)
            + queue::count_status(b, status),
        queue::count_selected(a + b) == queue::count_selected(a) + queue::count_selected(b),
        queue::idle_exts(a + b) == queue::idle_exts(a) + queue::idle_exts(b),
    decreases b.len(),
{
    if b.len() == 0 {
        assert(a + b =~= a);
        assert(queue::idle_exts(b) =~= Seq::<Seq<char>>::empty());
    } else {
        assert((a + b).drop_last() =~= a + b.drop_last());
        assert((a + b).last() == b.last());
        law_counts_add_up(a, b.drop_last(), status);
        assert(queue::idle_exts(a + b) =~= queue::idle_exts(a) + queue::idle_exts(b));
    }
}

/// One file counts as one of its own status and of no other, is selected or
/// not, and has its source format considered unless it is being converted.
pub proof fn law_one_file_counts(f: FileView, status: FileStatus)
    ensures
        queue::count_status(seq![f], status) == 1 <==> f.status == status,
        queue::count_status(seq![f], status) == 0 <==> f.status != status,
        queue::count_selected(seq![f]) == 1 <==> f.selected,
        queue::count_selected(seq![f]) == 0 <==> !f.selected,
        f.status == FileStatus::Converting ==> queue::idle_exts(seq![f]) == Seq::<
            Seq<char>,
        >::empty(),
        f.status != FileStatus::Converting ==> queue::idle_exts(seq![f]) == seq![f.source_ext],
{
    let v = seq![f];
    assert(v.drop_last() =~= Seq::<FileView>::empty());
    assert(queue::count_status(v.drop_last(), status) == 0);
    assert(queue::count_selected(v.drop_last()) == 0);
    assert(queue::idle_exts(v.drop_last()) =~= Seq::<Seq<char>>::empty());
    assert(v.last() == f);
}

/// Every file has exactly one status, so the counts of the four statuses make
/// up the queue.
pub proof fn law_statuses_make_up_the_queue(files: Seq<FileView>)
    ensures
        queue::count_status(files, FileStatus::Pending) + queue::count_status(
            files,
            FileStatus::Converting,
        ) + queue::count_status(files, FileStatus::Done) + queue::count_status(
            files,
            FileStatus::Failed,
        ) == files.len(),
        queue::count_selected(files) <= files.len(),
    decreases files.len(),
{
    if files.len() > 0 {
        law_statuses_make_up_the_queue(files.drop_last());
    }
}

/// The whole queue is offered what at least one of its idle files is offered,
/// and nothing twice.
pub proof fn law_offered(files: Seq<FileView>, t: Seq<char>)
    ensures
        queue::offered(files).no_duplicates(),
        queue::offered(files).contains(t) <==> exists|i: int|
            0 <= i < files.len() && (#[trigger] files[i]).status != FileStatus::Converting
                && converters::targets(files[i].source_ext).contains(t),
{
    let exts = queue::idle_exts(files);
    converters::laws::law_batch_targets(exts);
    lemma_idle(files);
    if queue::offered(files).contains(t) {
        assert(converters::batch_targets(exts).contains(t));
        let k = choose|k: int|
            0 <= k < exts.len() && (#[trigger] converters::targets(exts[k])).contains(t);
        assert(exts.contains(exts[k]));
        let i = choose|i: int|
            0 <= i < files.len() && (#[trigger] files[i]).status != FileStatus::Converting
                && files[i].source_ext == exts[k];
        assert(converters::targets(files[i].source_ext).contains(t));
    }
    if exists|i: int|
        0 <= i < files.len() && (#[trigger] files[i]).status != FileStatus::Converting
            && converters::targets(files[i].source_ext).contains(t) {
        let i = choose|i: int|
            0 <= i < files.len() && (#[trigger] files[i]).status != FileStatus::Converting
                && converters::targets(files[i].source_ext).contains(t);
        assert(exts.contains(files[i].source_ext));
        let k = choose|k: int| 0 <= k < exts.len() && exts[k] == files[i].source_ext;
        assert(converters::targets(exts[k]).contains(t));
        assert(converters::batch_targets(exts).contains(t));
    }
}

/// The formats of the idle files are all there and nothing else is.
proof fn lemma_idle(files: Seq<FileView>)
    ensures
        forall|e: Seq<char>| #[trigger]
            queue::idle_exts(files).contains(e) <==> exists|i: int|
                0 <= i < files.len() && (#[trigger] files[i]).status != FileStatus::Converting
                    && files[i].source_ext == e,
    decreases files.len(),
{
    if files.len() > 0 {
        let front = files.drop_last();
        lemma_idle(front);
        let before = queue::idle_exts(front);
        assert forall|e: Seq<char>| #[trigger]
            queue::idle_exts(files).contains(e) <==> exists|i: int|
                0 <= i < files.len() && (#[trigger] files[i]).status != FileStatus::Converting
                    && files[i].source_ext == e by {
            assert(before.contains(e) <==> exists|i: int|
                0 <= i < front.len() && (#[trigger] front[i]).status != FileStatus::Converting
                    && front[i].source_ext == e);
            if before.contains(e) {
                let i = choose|i: int|
                    0 <= i < front.len() && (#[trigger] front[i]).status
                        != FileStatus::Converting && front[i].source_ext == e;
                assert(files[i] == front[i]);
                let k = choose|k: int| 0 <= k < before.len() && before[k] == e;
                assert(queue::idle_exts(files)[k] == e);
            }
            if files.last().status != FileStatus::Converting {
                assert(queue::idle_exts(files)[before.len() as int] == files.last().source_ext);
                assert(files[files.len() - 1] == files.last());
            }
            if queue::idle_exts(files).contains(e) && !before.contains(e) {
                let k = choose|k: int|
                    0 <= k < queue::idle_exts(files).len() && queue::idle_exts(files)[k] == e;
                assert(k == before.len()) by {
                    if k < before.len() {
                        assert(before[k] == e);
                    }
                }
                assert(files[files.len() - 1].source_ext == e);
            }
            if exists|i: int|
                0 <= i < files.len() && (#[trigger] files[i]).status != FileStatus::Converting
                    && files[i].source_ext == e {
                let i = choose|i: int|
                    0 <= i < files.len() && (#[trigger] files[i]).status
                        != FileStatus::Converting && files[i].source_ext == e;
                if i < front.len() {
                    assert(front[i] == files[i]);
                    assert(before.contains(e));
                }
            }
        }
    } else {
        assert(queue::idle_exts(files) =~= Seq::<Seq<char>>::empty());
    }
}

/// A file's target is the one that it points at among those on offer to it.
pub proof fn law_target(f: FileView, t: Seq<char>)
    ensures
        queue::target_of(f) == Some(t) <==> f.target_idx is Some && f.target_idx->0
            < f.targets.len() && f.targets[f.target_idx->0 as int] == t,
        queue::target_of(f) is Some ==> f.targets.contains(queue::target_of(f)->0),
        queue::complaint(f) is Some ==> queue::target_of(f) is Some && !converters::supported(
            f.source_ext,
            queue::target_of(f)->0,
        ),
        queue::target_of(f) == Some(t) && !converters::supported(f.source_ext, t)
            ==> queue::complaint(f) == Some("Cannot convert ."@ + f.source_ext + " to ."@ + t),
{
}

/// A batch target that is no longer on offer is dropped; one that is stays,
/// and nothing else changes.
pub proof fn law_settling(m: ModelView)
    ensures
        queue::settle(m).global_target_idx is Some <==> m.global_target_idx is Some
            && m.global_target_idx->0 < queue::offered(m.files).len(),
        queue::settle(m).global_target_idx is Some ==> queue::settle(m) == m,
        (ModelView { global_target_idx: m.global_target_idx, ..queue::settle(m) }) == m,
{
}

// ---------------------------------------------------------------------------
// Previews
// ---------------------------------------------------------------------------

/// Byte order marks go from the start of a line, however many there are, and
/// nothing else goes.
pub proof fn law_marks_go(n: nat, rest: Seq<char>)
    requires
        rest.len() > 0 ==> rest[0] != '\u{FEFF}',
    ensures
        queue::strip_marks(Seq::new(n, |i: int| '\u{FEFF}') + rest) == rest,
    decreases n,
{
    let marks = Seq::new(n, |i: int| '\u{FEFF}');
    if n > 0 {
        law_marks_go((n - 1) as nat, rest);
        assert((marks + rest).skip(1) =~= Seq::new((n - 1) as nat, |i: int| '\u{FEFF}') + rest);
        assert((marks + rest)[0] == '\u{FEFF}');
    } else {
        assert(marks + rest =~= rest);
    }
}

/// A preview line of up to ninety characters is shown whole; of a longer one
/// the first ninety are shown, with an ellipsis after them.
pub proof fn law_long_lines_are_cut(s: Seq<char>)
    ensures
        s.len() <= 90 ==> queue::cut_line(s) == s,
        s.len() > 90 ==> queue::cut_line(s).len() == 91 && queue::cut_line(s).last() == '…'
            && queue::cut_line(s).drop_last().is_prefix_of(s),
{
    if s.len() > 90 {
        assert(queue::cut_line(s).drop_last() =~= s.take(90));
        assert(s.take(90).is_prefix_of(s));
    }
}

/// The first line of which anything is left is previewed: later lines do not
/// matter after it, and lines of which nothing is left do not count.
pub proof fn law_first_line(a: Seq<Seq<char>>, b: Seq<Seq<char>>, line: Seq<char>)
    ensures
        queue::first_line(a).len() > 0 ==> queue::first_line(a + b) == queue::first_line(a),
        queue::first_line(a).len() == 0 ==> queue::first_line(a + b) == queue::first_line(b),
        text::blank(line) ==> queue::first_line(seq![line]).len() == 0,
        line.len() > 0 && !text::is_space(line[0]) && !text::is_space(line.last()) && line[0]
            != '\u{FEFF}' && line.len() <= 90 ==> queue::first_line(seq![line]) == line,
    decreases b.len(),
{
    if b.len() == 0 {
        assert(a + b =~= a);
        assert(queue::first_line(b) =~= Seq::<char>::empty());
        assert(queue::first_line(a).len() == 0 ==> queue::first_line(a) =~= Seq::<char>::empty());
    } else {
        assert((a + b).drop_last() =~= a + b.drop_last());
        assert((a + b).last() == b.last());
        law_first_line(a, b.drop_last(), line);
    }
    let v = seq![line];
    assert(v.drop_last() =~= Seq::<Seq<char>>::empty());
    assert(queue::first_line(v.drop_last()).len() == 0);
    assert(v.last() == line);
    text::lemma_trim_blank(line);
    if line.len() > 0 && !text::is_space(line[0]) && !text::is_space(line.last()) {
        let none = Seq::<char>::empty();
        text_laws::law_trim(none, line, none);
        assert(none + line + none =~= line);
    }
}

/// Pictures are previewed by their size in pixels, where it is known.
pub proof fn law_picture_preview(ext: Seq<char>, found: FoundView)
    ensures
        found.dimensions matches Some((w, h)) ==> queue::preview(FileKind::Image, ext, found)
            == number::decimal(w as nat) + " × "@ + number::decimal(h as nat) + " px"@,
        found.dimensions is None ==> queue::preview(FileKind::Image, ext, found).len() == 0,
{
}

/// Texts, tables in text form and pages are previewed by the first line of
/// the first four kilobytes; no other document or table is, and nothing but
/// pictures, documents and tables.
pub proof fn law_text_preview(kind: FileKind, ext: Seq<char>, found: FoundView)
    requires
        kind != FileKind::Image,
    ensures
        found.head.len() == 0 ==> queue::preview(kind, ext, found).len() == 0,
        kind != FileKind::Document && kind != FileKind::Tabular ==> queue::preview(
            kind,
            ext,
            found,
        ).len() == 0,
        !(ext == "txt"@ || ext == "md"@ || ext == "markdown"@ || ext == "csv"@ || ext == "tsv"@
            || ext == "json"@ || ext == "html"@) ==> queue::preview(kind, ext, found).len() == 0,
        (kind == FileKind::Document || kind == FileKind::Tabular) && (ext == "txt"@ || ext
            == "md"@ || ext == "markdown"@ || ext == "csv"@ || ext == "tsv"@ || ext == "json"@
            || ext == "html"@) && 0 < found.head.len() <= 4096 ==> queue::preview(kind, ext, found)
            == queue::first_line(text::lines(encoding::lossy(found.head))),
        (kind == FileKind::Document || kind == FileKind::Tabular) && (ext == "txt"@ || ext
            == "md"@ || ext == "markdown"@ || ext == "csv"@ || ext == "tsv"@ || ext == "json"@
            || ext == "html"@) && found.head.len() > 4096 ==> queue::preview(kind, ext, found)
            == queue::first_line(text::lines(encoding::lossy(found.head.take(4096)))),
{
}

// ---------------------------------------------------------------------------
// Default targets
// ---------------------------------------------------------------------------

/// Whether `wish` is the format that a file is first set to go to.
pub open spec fn goes_to(ext: Seq<char>, targets: Seq<Seq<char>>, wish: Seq<char>) -> bool {
    queue::default_index(ext, targets) matches Some(i) && i < targets.len() && targets[i as int]
        == wish
}

proof fn lemma_wish(ext: Seq<char>, targets: Seq<Seq<char>>, wish: Seq<char>)
    requires
        targets.len() <= usize::MAX,
        targets.contains(wish),
        queue::preferred(ext).len() > 0,
        queue::preferred(ext)[0] == wish,
    ensures
        goes_to(ext, targets, wish),
{
    text::lemma_position(targets, wish);
    lemma_first_wish(queue::preferred(ext), targets);
}

proof fn lemma_first_wish(wishes: Seq<Seq<char>>, targets: Seq<Seq<char>>)
    requires
        wishes.len() > 0,
        text::position(targets, wishes[0]) is Some,
    ensures
        queue::first_of(wishes, targets) == text::position(targets, wishes[0]),
    decreases wishes.len(),
{
    if wishes.len() == 1 {
        assert(queue::first_of(wishes.drop_last(), targets) is None);
    } else {
        assert(wishes.drop_last()[0] == wishes[0]);
        lemma_first_wish(wishes.drop_last(), targets);
    }
}

/// Where it is on offer, a text table goes to a workbook, a workbook or JSON
/// to CSV, a lossless picture to JPEG, a JPEG or WebP to PNG, sound and video
/// to MP3, a text to PDF, a page or PDF to text, and an archive is unpacked;
/// anything else is zipped.
pub proof fn law_default_targets(ext: Seq<char>, targets: Seq<Seq<char>>)
    requires
        targets.len() <= usize::MAX,
    ensures
        (ext == "csv"@ || ext == "tsv"@) && targets.contains("xlsx"@) ==> goes_to(
            ext,
            targets,
            "xlsx"@,
        ),
        (ext == "xlsx"@ || ext == "xls"@ || ext == "xlsm"@ || ext == "xlsb"@ || ext == "ods"@
            || ext == "json"@) && targets.contains("csv"@) ==> goes_to(ext, targets, "csv"@),
        (ext == "png"@ || ext == "bmp"@ || ext == "tiff"@ || ext == "tif"@ || ext == "gif"@)
            && targets.contains("jpg"@) ==> goes_to(ext, targets, "jpg"@),
        (ext == "jpg"@ || ext == "jpeg"@ || ext == "webp"@) && targets.contains("png"@) ==> goes_to(
            ext,
            targets,
            "png"@,
        ),
        (ext == "mp3"@ || ext == "wav"@ || ext == "ogg"@ || ext == "flac"@ || ext == "aac"@ || ext
            == "mp4"@ || ext == "mkv"@ || ext == "webm"@ || ext == "avi"@ || ext == "mov"@)
            && targets.contains("mp3"@) ==> goes_to(ext, targets, "mp3"@),
        (ext == "mp3"@ || ext == "wav"@ || ext == "ogg"@ || ext == "flac"@ || ext == "aac"@)
            && !targets.contains("mp3"@) && targets.contains("wav"@) ==> goes_to(
            ext,
            targets,
            "wav"@,
        ),
        (ext == "txt"@ || ext == "md"@ || ext == "markdown"@) && targets.contains("pdf"@)
            ==> goes_to(ext, targets, "pdf"@),
        (ext == "txt"@ || ext == "md"@ || ext == "markdown"@) && !targets.contains("pdf"@)
            && targets.contains("html"@) ==> goes_to(ext, targets, "html"@),
        (ext == "html"@ || ext == "pdf"@) && targets.contains("txt"@) ==> goes_to(
            ext,
            targets,
            "txt"@,
        ),
        (ext == "zip"@ || ext == "tar"@ || ext == "gz"@) && targets.contains("extract"@)
            ==> goes_to(ext, targets, "extract"@),
        converters::kind_of(ext) == FileKind::Unknown && targets.contains("zip"@) ==> goes_to(
            ext,
            targets,
            "zip"@,
        ),
{
    names::lemma_names();
    let p = queue::preferred(ext);
    if targets.contains(p[0]) {
        lemma_wish(ext, targets, p[0]);
    } else if p.len() == 2 {
        text::lemma_position(targets, p[0]);
        text::lemma_position(targets, p[1]);
        assert(p.drop_last().drop_last() =~= Seq::<Seq<char>>::empty());
        assert(p.drop_last().last() == p[0]);
        assert(queue::first_of(p.drop_last().drop_last(), targets) is None);
        assert(queue::first_of(p.drop_last(), targets) is None);
        assert(queue::first_of(p, targets) == text::position(targets, p[1]));
    }
}

/// Where none of what a format wishes for is on offer, the first target is
/// taken, and none where there is none.
pub proof fn law_first_target_else(ext: Seq<char>, targets: Seq<Seq<char>>)
    requires
        targets.len() <= usize::MAX,
    ensures
        queue::default_index(ext, targets) is None <==> targets.len() == 0,
        queue::default_index(ext, targets) matches Some(i) ==> i < targets.len(),
        !targets.contains("xlsx"@) && !targets.contains("csv"@) && !targets.contains("jpg"@)
            && !targets.contains("png"@) && !targets.contains("mp3"@) && !targets.contains("wav"@)
            && !targets.contains("pdf"@) && !targets.contains("html"@) && !targets.contains("txt"@)
            && !targets.contains("extract"@) && !targets.contains("zip"@) && targets.len() > 0
            ==> queue::default_index(ext, targets) == Some(0usize),
{
    let p = queue::preferred(ext);
    lemma_first_of(p, targets);
}

proof fn lemma_first_of(wishes: Seq<Seq<char>>, targets: Seq<Seq<char>>)
    requires
        targets.len() <= usize::MAX,
    ensures
        queue::first_of(wishes, targets) matches Some(i) ==> i < targets.len() && wishes.contains(
            targets[i as int],
        ),
    decreases wishes.len(),
{
    if wishes.len() > 0 {
        lemma_first_of(wishes.drop_last(), targets);
        text::lemma_position(targets, wishes.last());
        if queue::first_of(wishes.drop_last(), targets) is Some {
            let x = targets[queue::first_of(wishes.drop_last(), targets)->0 as int];
            let k = choose|k: int| 0 <= k < wishes.drop_last().len() && wishes.drop_last()[k] == x;
            assert(wishes[k] == x);
        } else {
            assert(wishes[wishes.len() - 1] == wishes.last());
        }
    }
}

// ---------------------------------------------------------------------------
// Joining the queue
// ---------------------------------------------------------------------------

/// A file joins under the id it is given, with the path, size, name and
/// format it was found with; it is ready, not selected, and nothing has
/// happened to it yet.
pub proof fn law_new_entry(id: u64, found: FoundView, dir: Seq<char>, name: Seq<char>)
    requires
        name.len() > 0,
        !name.contains('/'),
        name != seq!['.'],
        name != seq!['.', '.'],
        found.path == paths::join(dir, name),
    ensures
        ({
            let f = queue::new_entry(id, found);
            &&& f.id == id
            &&& f.path == found.path
            &&& f.file_name == name
            &&& f.size == found.size
            &&& f.source_ext == converters::ext(found.path)
            &&& f.kind == converters::path_kind(found.path)
            &&& f.targets == converters::targets(f.source_ext)
            &&& f.target_idx == queue::default_index(f.source_ext, f.targets)
            &&& f.status == FileStatus::Pending
            &&& f.progress == 0
            &&& !f.selected
            &&& f.output_path is None
            &&& f.start_time is None
            &&& f.end_time is None
            &&& f.preview == queue::preview(f.kind, f.source_ext, found)
        }),
{
    crate::path_laws::law_names_in_folders(dir, name);
}

/// A path that has no name of its own is shown as unknown.
pub proof fn law_nameless(path: Seq<char>)
    requires
        paths::file_name(path) is None,
    ensures
        queue::shown_name(path) == "unknown"@,
{
}

/// What comes of one path: one that stands for a queued file is noted, one
/// that is neither file nor folder is skipped, and any other joins at the end.
pub proof fn law_one_path(m: ModelView, found: FoundView)
    requires
        m.next_id < u64::MAX,
    ensures
        ({
            let s = queue::intake(m, seq![found]);
            let known = exists|i: int|
                0 <= i < m.files.len() && paths::components((#[trigger] m.files[i]).path)
                    == paths::components(found.path);
            let there = found.is_file || found.is_dir;
            &&& known || !there ==> s.files == m.files && s.next_id == m.next_id && s.added == 0
            &&& known ==> s.notes == seq![queue::shown_name(found.path) + " (already in queue)"@]
                && s.rejected.len() == 0
            &&& !known && !there ==> s.rejected == seq![
                queue::shown_name(found.path) + " (not found or unreadable)"@,
            ] && s.notes.len() == 0
            &&& !known && there ==> s.files == m.files.push(queue::new_entry(m.next_id, found))
                && s.next_id == m.next_id + 1 && s.added == 1 && s.notes.len() == 0
                && s.rejected.len() == 0
        }),
{
    assert(seq![found].drop_last() =~= Seq::<FoundView>::empty());
    assert(seq![found].last() == found);
    let none = Seq::<FoundView>::empty();
    assert(queue::intake(m, none).files == m.files);
    assert(queue::intake(m, seq![found]) == queue::take_in(queue::intake(m, none), found));
}

/// Taking in two lists of paths is taking in the first and then the second.
pub proof fn law_intake_goes_on(m: ModelView, a: Seq<FoundView>, b: Seq<FoundView>)
    ensures
        ({
            let first = queue::intake(m, a);
            let second = queue::intake(
                ModelView { files: first.files, next_id: first.next_id, ..m },
                b,
            );
            let both = queue::intake(m, a + b);
            &&& both.files == second.files
            &&& both.next_id == second.next_id
            &&& both.added == first.added + second.added
            &&& both.rejected == first.rejected + second.rejected
            &&& both.notes == first.notes + second.notes
        }),
    decreases b.len(),
{
    let first = queue::intake(m, a);
    let n = ModelView { files: first.files, next_id: first.next_id, ..m };
    if b.len() == 0 {
        assert(a + b =~= a);
        let second = queue::intake(n, b);
        assert(second.rejected =~= Seq::<Seq<char>>::empty());
        assert(second.notes =~= Seq::<Seq<char>>::empty());
        assert(first.rejected + second.rejected =~= first.rejected);
        assert(first.notes + second.notes =~= first.notes);
    } else {
        assert((a + b).drop_last() =~= a + b.drop_last());
        assert((a + b).last() == b.last());
        law_intake_goes_on(m, a, b.drop_last());
        let both = queue::intake(m, a + b);
        let second = queue::intake(n, b);
        assert(both.rejected =~= first.rejected + second.rejected);
        assert(both.notes =~= first.notes + second.notes);
    }
}

/// The queue only grows: what stood in it stays in front, and every path is
/// added, skipped or noted, once.
pub proof fn law_intake_adds(m: ModelView, found: Seq<FoundView>)
    requires
        m.next_id + found.len() <= u64::MAX,
    ensures
        m.files.is_prefix_of(queue::intake(m, found).files),
        queue::intake(m, found).files.len() == m.files.len() + queue::intake(m, found).added,
        queue::intake(m, found).next_id == m.next_id + queue::intake(m, found).added,
        queue::intake(m, found).added + queue::intake(m, found).rejected.len() + queue::intake(
            m,
            found,
        ).notes.len() == found.len(),
        forall|k: int|
            0 <= k < found.len() && ((#[trigger] found[k]).is_file || found[k].is_dir)
                ==> queue::queued(queue::intake(m, found).files, found[k].path),
    decreases found.len(),
{
    if found.len() > 0 {
        let front = found.drop_last();
        law_intake_adds(m, front);
        let before = queue::intake(m, front);
        let after = queue::intake(m, found);
        assert(before.files.is_prefix_of(after.files));
        assert forall|k: int|
            0 <= k < found.len() && ((#[trigger] found[k]).is_file
                || found[k].is_dir) implies queue::queued(after.files, found[k].path) by {
            if k < front.len() {
                assert(front[k] == found[k]);
                let i = choose|i: int|
                    0 <= i < before.files.len() && paths::components(
                        (#[trigger] before.files[i]).path,
                    ) == paths::components(found[k].path);
                assert(after.files[i] == before.files[i]);
            } else if queue::queued(before.files, found[k].path) {
            } else {
                assert(after.files[before.files.len() as int].path == found[k].path);
            }
        }
    } else {
        assert(queue::intake(m, found).files == m.files);
    }
}

/// Nothing happens without paths. Otherwise the banner tells how many files
/// were added, which were skipped and which were queued already, each only
/// where there is something to tell.
pub proof fn law_intake_is_told(m: ModelView, found: Seq<FoundView>)
    requires
        found.len() > 0,
    ensures
        queue::with_paths(m, Seq::empty()) == m,
        ({
            let s = queue::intake(m, found);
            let n = queue::with_paths(m, found);
            let added = "Added "@ + number::decimal(s.added) + " file(s)"@;
            let skipped = "Skipped: "@ + text::join(s.rejected, ", "@);
            let noted = "Notes: "@ + text::join(s.notes, ", "@);
            let (a, r, k) = (s.added > 0, s.rejected.len() > 0, s.notes.len() > 0);
            &&& n.files == s.files
            &&& n.next_id == s.next_id
            &&& n.is_converting == m.is_converting
            &&& n.config == m.config
            &&& n.history == m.history
            &&& a && !r && !k ==> n.warning == Some(added)
            &&& !a && r && !k ==> n.warning == Some(skipped)
            &&& !a && !r && k ==> n.warning == Some(noted)
            &&& a && r && !k ==> n.warning == Some(added + ". "@ + skipped)
            &&& a && !r && k ==> n.warning == Some(added + ". "@ + noted)
            &&& !a && r && k ==> n.warning == Some(skipped + ". "@ + noted)
            &&& a && r && k ==> n.warning == Some(added + ". "@ + skipped + ". "@ + noted)
            &&& !a && !r && !k ==> n.warning is None
        }),
{
    let s = queue::intake(m, found);
    let parts = queue::intake_parts(s);
    let added = "Added "@ + number::decimal(s.added) + " file(s)"@;
    let skipped = "Skipped: "@ + text::join(s.rejected, ", "@);
    let noted = "Notes: "@ + text::join(s.notes, ", "@);
    let sep = ". "@;
    lemma_join_few(added, skipped, noted, sep);
    lemma_join_few(skipped, noted, added, sep);
    lemma_join_few(noted, added, skipped, sep);
    lemma_join_few(added, noted, skipped, sep);
    if parts.len() == 1 {
        assert(parts =~= seq![parts[0]]);
    } else if parts.len() == 2 {
        assert(parts =~= seq![parts[0], parts[1]]);
    } else if parts.len() == 3 {
        assert(parts =~= seq![added, skipped, noted]);
    }
}

proof fn lemma_join_few(a: Seq<char>, b: Seq<char>, c: Seq<char>, sep: Seq<char>)
    ensures
        text::join(seq![a], sep) == a,
        text::join(seq![a, b], sep) == a + sep + b,
        text::join(seq![a, b, c], sep) == a + sep + b + sep + c,
{
    text_laws::law_join(seq![a], seq![b], sep);
    text_laws::law_join(seq![b], seq![a], sep);
    text_laws::law_join(seq![c], seq![a], sep);
    text_laws::law_join(seq![a, b], seq![c], sep);
    assert(seq![a] + seq![b] =~= seq![a, b]);
    assert(seq![a, b] + seq![c] =~= seq![a, b, c]);
    assert(seq![seq![a][0]] =~= seq![a]);
    assert(seq![seq![b][0]] =~= seq![b]);
    assert(seq![seq![c][0]] =~= seq![c]);
}

} // verus!
