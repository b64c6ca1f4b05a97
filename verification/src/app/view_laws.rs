//! Laws of the windows: what is shown of the model, and how what is shown
//! follows what is done.
use vstd::prelude::*;

use crate::app::batch;
use crate::app::batch_laws;
use crate::app::event_laws;
use crate::app::input;
use crate::app::input::InputEvent;
use crate::app::input::Key;
use crate::app::input::Modifiers;
use crate::app::input::Picked;
use crate::app::input::Picker;
use crate::app::laws;
use crate::app::queue;
use crate::app::queue_laws;
use crate::app::start;
use crate::app::update;
use crate::app::views;
use crate::app::views::BatchBar;
use crate::app::views::BatchButton;
use crate::app::views::ControlView;
use crate::app::views::HistoryPage;
use crate::app::views::MenuItemView;
use crate::app::views::QueuePage;
use crate::app::Clock;
use crate::app::ContextPage;
use crate::app::EntryView;
use crate::app::Event;
use crate::app::FileStatus;
use crate::app::FileView;
use crate::app::MenuAction;
use crate::app::ModelView;
use crate::app::Page;
use crate::converters::FileKind;
use crate::number;
use crate::number_laws;
use crate::path_laws;
use crate::paths;
use crate::text;
use crate::text_laws;
use crate::ui::components;

verus! {

// ---------------------------------------------------------------------------
// Names and pages
// ---------------------------------------------------------------------------

/// Every kind, every status and every page is shown under words of its own.
pub proof fn law_words(a: FileKind, b: FileKind, s: FileStatus, t: FileStatus, p: Page, q: Page)
    ensures
        views::name_of_kind(a) == views::name_of_kind(b) <==> a == b,
        components::kind_icon(a) == components::kind_icon(b) <==> a == b,
        components::label_of(s) == components::label_of(t) <==> s == t,
        start::label(p) == start::label(q) <==> p == q,
        start::icon(p) == start::icon(q) <==> p == q,
        views::empty_hint(p) == views::empty_hint(q) <==> p == q,
{
    lemma_kind_words(a, b);
    lemma_page_words(p, q);
    reveal_strlit("Ready");
    reveal_strlit("Converting…");
    reveal_strlit("Done");
    reveal_strlit("Failed");
    let (x, y) = (components::label_of(s), components::label_of(t));
    assert(x.len() == y.len() ==> x[0] == y[0] ==> s == t);
}

proof fn lemma_kind_words(a: FileKind, b: FileKind)
    ensures
        views::name_of_kind(a) == views::name_of_kind(b) <==> a == b,
        components::kind_icon(a) == components::kind_icon(b) <==> a == b,
{
    reveal_strlit("data files");
    reveal_strlit("images");
    reveal_strlit("audio files");
    reveal_strlit("videos");
    reveal_strlit("documents");
    reveal_strlit("archives");
    reveal_strlit("files");
    let (x, y) = (views::name_of_kind(a), views::name_of_kind(b));
    assert(x.len() == y.len() ==> x[0] == y[0] ==> a == b);
    reveal_strlit("x-office-spreadsheet-symbolic");
    reveal_strlit("image-x-generic-symbolic");
    reveal_strlit("audio-x-generic-symbolic");
    reveal_strlit("video-x-generic-symbolic");
    reveal_strlit("x-office-document-symbolic");
    reveal_strlit("package-x-generic-symbolic");
    reveal_strlit("text-x-generic-symbolic");
    let (x, y) = (components::kind_icon(a), components::kind_icon(b));
    assert(x.len() == y.len() ==> x[0] == y[0] ==> x[2] == y[2] ==> a == b);
}

proof fn lemma_page_words(p: Page, q: Page)
    ensures
        start::label(p) == start::label(q) <==> p == q,
        start::icon(p) == start::icon(q) <==> p == q,
        views::empty_hint(p) == views::empty_hint(q) <==> p == q,
{
    reveal_strlit("All files");
    reveal_strlit("Data");
    reveal_strlit("Images");
    reveal_strlit("Media");
    reveal_strlit("Documents");
    reveal_strlit("History");
    let (x, y) = (start::label(p), start::label(q));
    assert(x.len() == y.len() ==> x[0] == y[0] ==> p == q);
    reveal_strlit("folder-open-symbolic");
    reveal_strlit("x-office-spreadsheet-symbolic");
    reveal_strlit("image-x-generic-symbolic");
    reveal_strlit("audio-x-generic-symbolic");
    reveal_strlit("x-office-document-symbolic");
    reveal_strlit("document-open-recent-symbolic");
    let (x, y) = (start::icon(p), start::icon(q));
    assert(x.len() == y.len() ==> x[0] == y[0] ==> p == q);
    reveal_strlit("No data files here yet. Add CSV, XLSX or JSON — or check All files.");
    reveal_strlit("No images here yet. Add PNG, JPG, WebP or GIF — or check All files.");
    reveal_strlit("No audio/video here yet. Add MP3, WAV, MP4 or MKV (needs ffmpeg).");
    reveal_strlit("No documents here yet. Add TXT, MD, PDF or HTML.");
    reveal_strlit(
        "No files yet. Drop files above or use Add files — conversions run in the background.",
    );
    reveal_strlit("No history.");
    let (x, y) = (views::empty_hint(p), views::empty_hint(q));
    assert(x.len() == y.len() ==> x[3] == y[3] ==> p == q);
}

/// Every file is on the page of all files and on exactly one of the pages for
/// data, images, media and documents; the history page lists none.
pub proof fn law_pages(kind: FileKind)
    ensures
        start::lists(Page::All, kind),
        !start::lists(Page::History, kind),
        start::lists(Page::Data, kind) <==> kind == FileKind::Tabular,
        start::lists(Page::Images, kind) <==> kind == FileKind::Image,
        start::lists(Page::Media, kind) <==> kind == FileKind::Audio || kind == FileKind::Video,
        start::lists(Page::Documents, kind) <==> !start::lists(Page::Data, kind) && !start::lists(
            Page::Images,
            kind,
        ) && !start::lists(Page::Media, kind),
{
}

// ---------------------------------------------------------------------------
// The drop zone
// ---------------------------------------------------------------------------

/// Files of a kind add up over the parts of a queue; kinds are named in the
/// order in which they first occur.
pub proof fn law_kinds_add_up(a: Seq<FileView>, b: Seq<FileView>, kind: FileKind)
    ensures
        views::count_kind(a + b, kind) == views::count_kind(a, kind) + views::count_kind(b, kind),
        views::kinds_seen(a).is_prefix_of(views::kinds_seen(a + b)),
    decreases b.len(),
{
    if b.len() == 0 {
        assert(a + b =~= a);
    } else {
        assert((a + b).drop_last() =~= a + b.drop_last());
        assert((a + b).last() == b.last());
        law_kinds_add_up(a, b.drop_last(), kind);
    }
}

/// One file counts for its own kind and for no other.
pub proof fn law_one_kind(f: FileView, kind: FileKind)
    ensures
        views::count_kind(seq![f], kind) == (if f.kind == kind {
            1nat
        } else {
            0nat
        }),
{
    assert(seq![f].drop_last() =~= Seq::<FileView>::empty());
    assert(views::count_kind(seq![f].drop_last(), kind) == 0);
    assert(seq![f].last() == f);
}

/// A kind is named exactly where there are files of it, and once.
pub proof fn law_kinds_named(files: Seq<FileView>, kind: FileKind)
    ensures
        views::kinds_seen(files).no_duplicates(),
        views::kinds_seen(files).contains(kind) <==> views::count_kind(files, kind) > 0,
    decreases files.len(),
{
    if files.len() > 0 {
        let front = files.drop_last();
        law_kinds_named(front, kind);
        let before = views::kinds_seen(front);
        let k = files.last().kind;
        if !before.contains(k) {
            let after = before.push(k);
            assert(after[before.len() as int] == k);
            if before.contains(kind) {
                let j = choose|j: int| 0 <= j < before.len() && before[j] == kind;
                assert(after[j] == kind);
            }
        }
    }
}

/// The line under the drop zone is empty without files; otherwise it tells,
/// for each kind there is, how many files are of it.
pub proof fn law_stats(files: Seq<FileView>, i: int)
    ensures
        files.len() == 0 ==> views::stats(files).len() == 0,
        files.len() > 0 ==> views::stats(files) == "Queue: "@ + text::join(
            views::kind_counts(files),
            ", "@,
        ),
        views::kind_counts(files).len() == views::kinds_seen(files).len(),
        0 <= i < views::kinds_seen(files).len() ==> views::kind_counts(files)[i] == number::decimal(
            views::count_kind(files, views::kinds_seen(files)[i]),
        ) + " "@ + views::name_of_kind(views::kinds_seen(files)[i]),
{
}

// ---------------------------------------------------------------------------
// Cards
// ---------------------------------------------------------------------------

/// A card shows its file: what it is called, what it is, whether it is
/// selected, and what it can go to; progress unless it is being converted; a
/// retry where it failed, its output where it is done; and it can be removed
/// unless it is being converted.
pub proof fn law_card(files: Seq<FileView>, f: FileView)
    ensures
        ({
            let c = views::card_of(files, f);
            &&& c.id == f.id
            &&& c.name == f.file_name
            &&& c.selected == f.selected
            &&& c.targets == f.targets
            &&& c.icon == components::kind_icon(f.kind)
            &&& text::lower(c.badge) == text::lower(f.source_ext)
            &&& c.badge.len() == f.source_ext.len()
            &&& c.target_idx is Some ==> c.target_idx == f.target_idx
            &&& c.target_idx is Some <==> f.target_idx is Some && f.target_idx->0
                < f.targets.len()
            &&& c.preview is None <==> f.preview.len() == 0
            &&& f.preview.len() > 0 ==> c.preview == Some("◷ "@ + f.preview)
            &&& c.progress is None <==> f.status == FileStatus::Converting
            &&& c.progress is Some ==> c.progress == Some(f.progress)
            &&& c.can_retry <==> f.status == FileStatus::Failed
            &&& c.can_remove <==> f.status != FileStatus::Converting
            &&& f.status == FileStatus::Done ==> c.open == f.output_path
            &&& f.status != FileStatus::Done ==> c.open is None
            &&& f.error is Some ==> c.note == Some("⚠ "@ + f.error->0)
            &&& f.error is None && f.status == FileStatus::Done && f.output_path is Some ==> c.note
                == Some("Saved to "@ + f.output_path->0)
            &&& f.error is None && f.status != FileStatus::Done ==> c.note is None
            &&& f.error is None && f.output_path is None ==> c.note is None
        }),
{
    if f.source_ext.len() > 0 {
        text_laws::law_lower_case(f.source_ext, 0);
        text_laws::law_upper_case(f.source_ext, 0);
    }
    assert(text::lower(text::upper(f.source_ext)) =~= text::lower(f.source_ext));
}

/// A card offers to move its file exactly where moving it does something.
pub proof fn law_cards_move(m: ModelView, i: int, clock: Clock)
    requires
        laws::well_formed(m),
        0 <= i < m.files.len(),
    ensures
        ({
            let c = views::card_of(m.files, m.files[i]);
            &&& c.can_move_up <==> i > 0
            &&& c.can_move_down <==> i < m.files.len() - 1
            &&& c.can_move_up <==> update::next(m, Event::MoveFileUp(c.id), clock) != m
            &&& c.can_move_down <==> update::next(m, Event::MoveFileDown(c.id), clock) != m
        }),
{
    let id = m.files[i].id;
    queue_laws::law_place(m.files, id, i);
    assert forall|j: int| 0 <= j < i implies (#[trigger] m.files[j]).id != id by {
        assert(laws::apart(m.files[j], m.files[i]));
    }
    event_laws::law_moving(m, i, i, clock);
    if i > 0 {
        assert(laws::apart(m.files[i - 1], m.files[i]));
    }
    if i < m.files.len() - 1 {
        assert(laws::apart(m.files[i], m.files[i + 1]));
    }
}

/// The size, the type, where it is known, the status and how long a
/// conversion took stand under the name, parted by dots.
pub proof fn law_meta(f: FileView)
    ensures
        f.mime.len() > 0 ==> views::meta_of(f) == components::readable(f.size as nat) + " · "@
            + f.mime + " · "@ + components::label_of(f.status) + views::duration(
            f.start_time,
            f.end_time,
        ),
        f.mime.len() == 0 ==> views::meta_of(f) == components::readable(f.size as nat) + " · "@
            + "—"@ + " · "@ + components::label_of(f.status) + views::duration(
            f.start_time,
            f.end_time,
        ),
        f.start_time is None || f.end_time is None ==> views::duration(
            f.start_time,
            f.end_time,
        ).len() == 0,
{
}

/// Three digits read back as the number, whatever zeros lead it.
pub proof fn law_three_digits(n: nat)
    requires
        n < 1000,
    ensures
        views::three_digits(n).len() == 3,
        number::digits_value(views::three_digits(n)) == n,
{
    reveal_strlit("0");
    reveal_strlit("00");
    reveal_with_fuel(number::decimal, 4);
    reveal_with_fuel(number::digits_value, 5);
    let d = number::decimal(n);
    number_laws::law_decimal(n);
    if n < 10 {
        let s = "00"@ + d;
        assert(d.len() == 1);
        assert(s =~= seq!['0', '0', d[0]]);
        assert(s.drop_last() =~= seq!['0', '0']);
        assert(s.drop_last().drop_last() =~= seq!['0']);
        assert(s.drop_last().drop_last().drop_last() =~= Seq::<char>::empty());
        assert(d.drop_last() =~= Seq::<char>::empty());
    } else if n < 100 {
        let s = "0"@ + d;
        assert(d.len() == 2);
        assert(s.drop_last() =~= "0"@ + d.drop_last());
        assert(s.drop_last().drop_last() =~= "0"@);
        assert(s.drop_last().drop_last().drop_last() =~= Seq::<char>::empty());
        assert(d.drop_last().drop_last() =~= Seq::<char>::empty());
    } else {
        assert(d.len() == 3);
    }
}

/// A conversion that took less than a second is shown in milliseconds, a
/// longer one in seconds with three decimals; a clock that went back counts
/// as no time.
pub proof fn law_durations(from: u64, took: u64)
    requires
        from + took <= u64::MAX,
    ensures
        took < 1000 ==> views::duration(Some(from), Some((from + took) as u64)) == "· "@
            + number::decimal(took as nat) + "ms"@,
        took >= 1000 ==> views::duration(Some(from), Some((from + took) as u64)) == "· "@
            + number::decimal(took as nat / 1000) + "."@ + views::three_digits(
            took as nat % 1000,
        ) + "s"@,
        views::duration(Some((from + took) as u64), Some(from)) == "· "@ + number::decimal(0)
            + "ms"@,
{
}

// ---------------------------------------------------------------------------
// The pages
// ---------------------------------------------------------------------------

/// The files of a page have one card each, in the order of the queue, and no
/// other file has one.
pub proof fn law_cards(page: Page, files: Seq<FileView>, n: nat)
    requires
        n <= files.len(),
    ensures
        forall|k: int|
            0 <= k < n && start::lists(page, (#[trigger] files[k]).kind) ==> views::cards(
                page,
                files,
                n,
            ).contains(views::card_of(files, files[k])),
        forall|i: int|
            0 <= i < views::cards(page, files, n).len() ==> exists|k: int|
                i <= k < n && start::lists(page, (#[trigger] files[k]).kind)
                    && #[trigger] views::cards(page, files, n)[i] == views::card_of(
                    files,
                    files[k],
                ),
        page == Page::All ==> views::cards(page, files, n).len() == n && forall|i: int|
            0 <= i < n ==> #[trigger] views::cards(page, files, n)[i] == views::card_of(
                files,
                files[i],
            ),
        page == Page::History ==> views::cards(page, files, n).len() == 0,
    decreases n,
{
    if n > 0 {
        let p = (n - 1) as nat;
        law_cards(page, files, p);
        let before = views::cards(page, files, p);
        let after = views::cards(page, files, n);
        let last = views::card_of(files, files[n - 1]);
        assert forall|k: int|
            0 <= k < n && start::lists(page, (#[trigger] files[k]).kind) implies after.contains(
            views::card_of(files, files[k]),
        ) by {
            if k < p {
                let c = views::card_of(files, files[k]);
                assert(before.contains(c));
                let j = choose|j: int| 0 <= j < before.len() && before[j] == c;
                assert(after[j] == c);
            } else {
                assert(after[before.len() as int] == last);
            }
        }
        assert forall|i: int| 0 <= i < after.len() implies exists|k: int|
            i <= k < n && start::lists(page, (#[trigger] files[k]).kind)
                && #[trigger] after[i] == views::card_of(files, files[k]) by {
            if i < before.len() {
                assert(after[i] == before[i]);
                let k = choose|k: int|
                    i <= k < p && start::lists(page, (#[trigger] files[k]).kind) && before[i]
                        == views::card_of(files, files[k]);
                assert(start::lists(page, files[k].kind));
            } else {
                assert(before.len() <= p) by {
                    if before.len() > 0 {
                        let k = choose|k: int|
                            before.len() - 1 <= k < p && start::lists(
                                page,
                                (#[trigger] files[k]).kind,
                            ) && before[before.len() - 1] == views::card_of(files, files[k]);
                        assert(k < p);
                    }
                }
                assert(start::lists(page, files[n - 1].kind));
            }
        }
    }
}

/// A page of the queue counts its cards, tells how many files are selected,
/// offers to clear what is done where something is and everything where there
/// is anything, and says what to do where it is empty.
pub proof fn law_queue_page(p: QueuePage, m: ModelView)
    requires
        p.shows(m),
    ensures
        ({
            let n = p.cards@.len();
            let selected = queue::count_selected(m.files);
            &&& n == 1 ==> p.title@ == "Queue ("@ + number::decimal(1) + " file"@ + ""@ + ")"@
            &&& n != 1 ==> p.title@ == "Queue ("@ + number::decimal(n) + " file"@ + "s"@ + ")"@
            &&& selected == 0 ==> p.selection@.len() == 0
            &&& selected > 0 ==> p.selection@ == number::decimal(selected) + " selected"@
            &&& p.can_clear_finished <==> exists|i: int|
                0 <= i < m.files.len() && (#[trigger] m.files[i]).status == FileStatus::Done
            &&& p.can_clear_all <==> m.files.len() > 0
            &&& p.hint is Some <==> n == 0
            &&& m.page == Page::All ==> n == m.files.len()
        }),
{
    law_cards(m.page, m.files, m.files.len());
    laws::lemma_count_none(m.files, FileStatus::Done);
    assert(p.cards.deep_view().len() == p.cards@.len());
}

/// The history is shown newest first: the mark tells whether a conversion
/// worked, the star whether it is a favorite, and a result can be opened where
/// there is one.
pub proof fn law_history_page(p: HistoryPage, h: Seq<EntryView>, k: int)
    requires
        p.shows(h),
        0 <= k < h.len(),
        h.len() <= usize::MAX,
    ensures
        ({
            let e = h[h.len() - 1 - k];
            let r = p.rows@[k].deep_view();
            &&& p.rows@.len() == h.len()
            &&& p.can_clear
            &&& p.hint is None
            &&& r.index == h.len() - 1 - k
            &&& h[r.index as int] == e
            &&& r.mark == "✓"@ <==> e.success
            &&& r.mark == "✗"@ <==> !e.success
            &&& r.star == "★"@ <==> e.favorite
            &&& r.star == "☆"@ <==> !e.favorite
            &&& r.star_icon == "starred-symbolic"@ <==> e.favorite
            &&& r.star_icon == "non-starred-symbolic"@ <==> !e.favorite
            &&& r.star_hint == "Unfavorite"@ <==> e.favorite
            &&& r.star_hint == "Favorite"@ <==> !e.favorite
            &&& e.success ==> r.detail == e.output_display
            &&& !e.success ==> r.detail == "failed — see queue for details"@
            &&& r.open is Some <==> e.success && e.output_display.len() > 0
            &&& r.open is Some ==> r.open == Some(e.output_display)
            &&& e.target.len() > 0 ==> r.title == e.input_name + " "@ + ("."@ + e.source_ext
                + " → ."@ + e.target)
            &&& e.target.len() == 0 ==> r.title == e.input_name + " "@
        }),
{
    reveal_strlit("✓");
    reveal_strlit("✗");
    reveal_strlit("★");
    reveal_strlit("☆");
    reveal_strlit("starred-symbolic");
    reveal_strlit("non-starred-symbolic");
    reveal_strlit("Unfavorite");
    reveal_strlit("Favorite");
    let e = h[h.len() - 1 - k];
    let r = p.rows@[k].deep_view();
    assert("✓"@[0] != "✗"@[0]);
    assert("★"@[0] != "☆"@[0]);
    assert("starred-symbolic"@.len() != "non-starred-symbolic"@.len());
    assert("Unfavorite"@.len() != "Favorite"@.len());
    if e.target.len() == 0 {
        assert(e.input_name + " "@ + Seq::<char>::empty() =~= e.input_name + " "@);
    }
}

/// The history counts its entries, and an empty one says so.
pub proof fn law_history_title(p: HistoryPage, h: Seq<EntryView>)
    requires
        p.shows(h),
    ensures
        h.len() == 1 ==> p.title@ == "History ("@ + number::decimal(1) + " "@ + "entry"@ + ")"@,
        h.len() != 1 ==> p.title@ == "History ("@ + number::decimal(h.len()) + " "@ + "entries"@
            + ")"@,
        p.hint is Some <==> h.len() == 0,
        p.can_clear <==> h.len() > 0,
{
}

/// The bar under the queue: a running batch can be stopped; otherwise the
/// selected files can be converted, or all where none is selected and some
/// are ready or failed.
pub proof fn law_batch_bar(b: BatchBar, m: ModelView)
    requires
        b.shows(m),
    ensures
        ({
            let selected = queue::count_selected(m.files);
            let waiting = exists|i: int|
                0 <= i < m.files.len() && ((#[trigger] m.files[i]).status == FileStatus::Pending
                    || m.files[i].status == FileStatus::Failed);
            &&& b.button is Stop <==> m.is_converting
            &&& b.button is ConvertSelected <==> !m.is_converting && selected > 0
            &&& b.button matches BatchButton::ConvertSelected(label) ==> label@ == "Convert "@
                + number::decimal(selected) + " selected"@
            &&& b.button is ConvertAll <==> !m.is_converting && selected == 0 && waiting
            &&& b.button is Idle <==> !m.is_converting && selected == 0 && !waiting
            &&& b.targets.deep_view() == queue::offered(m.files)
            &&& b.target_idx is Some ==> b.target_idx == m.global_target_idx && b.target_idx->0
                < b.targets@.len()
        }),
{
    laws::lemma_count_none(m.files, FileStatus::Pending);
    laws::lemma_count_none(m.files, FileStatus::Failed);
    assert(b.targets.deep_view().len() == b.targets@.len());
}

/// The output folder is shown by its own name, where it has one.
pub proof fn law_output_label(dir: Seq<char>, name: Seq<char>)
    requires
        name.len() > 0,
        !name.contains('/'),
        name != seq!['.'],
        name != seq!['.', '.'],
    ensures
        views::output_label(paths::join(dir, name)) == "Output: …/"@ + name,
        paths::file_name(dir) is None ==> views::output_label(dir) == "Output: "@ + dir,
{
    path_laws::law_names_in_folders(dir, name);
}

// ---------------------------------------------------------------------------
// Settings
// ---------------------------------------------------------------------------

/// Every setting has its control.
proof fn lemma_settings(m: ModelView)
    ensures
        views::settings(m).len() == 11,
        views::settings(m)[0].control == ControlView::Folder(m.output_dir),
        views::settings(m)[1].control == ControlView::Overwrite(m.config.overwrite_existing),
        views::settings(m)[2].control == ControlView::GroupByKind(m.config.group_by_kind),
        views::settings(m)[3].control == ControlView::AutoOpen(m.config.auto_open_output),
        views::settings(m)[4].control == ControlView::Quality(m.quality_text),
        views::settings(m)[5].control == ControlView::Width(m.resize_w_text),
        views::settings(m)[6].control == ControlView::Height(m.resize_h_text),
        views::settings(m)[7].control == ControlView::Bitrate(
            batch::bitrate_labels(),
            m.audio_bitrate_idx,
        ),
        views::settings(m)[8].control is Presets,
        views::settings(m)[9].control == ControlView::Backend(m.ffmpeg_info),
        views::settings(m)[10].control is Shortcuts,
{
}

/// What is set is what the settings show next.
pub proof fn law_settings_follow(
    m: ModelView,
    on: bool,
    typed: Seq<char>,
    p: Seq<char>,
    idx: usize,
    clock: Clock,
)
    requires
        idx < 3,
    ensures
        views::settings(m).len() == 11,
        views::settings(update::next(m, Event::OutputDirChosen(p), clock))[0].control
            == ControlView::Folder(p),
        views::settings(update::next(m, Event::ToggleOverwrite(on), clock))[1].control
            == ControlView::Overwrite(on),
        views::settings(update::next(m, Event::ToggleGroupByKind(on), clock))[2].control
            == ControlView::GroupByKind(on),
        views::settings(update::next(m, Event::ToggleAutoOpen(on), clock))[3].control
            == ControlView::AutoOpen(on),
        views::settings(update::next(m, Event::QualityInput(typed), clock))[4].control
            == ControlView::Quality(typed),
        views::settings(update::next(m, Event::ResizeWInput(typed), clock))[5].control
            == ControlView::Width(typed),
        views::settings(update::next(m, Event::ResizeHInput(typed), clock))[6].control
            == ControlView::Height(typed),
        views::settings(update::next(m, Event::SetAudioBitrate(idx), clock))[7].control
            == ControlView::Bitrate(batch::bitrate_labels(), Some(idx)),
        views::settings(m)[8].control is Presets,
        views::settings(m)[9].control == ControlView::Backend(m.ffmpeg_info),
        views::settings(m)[10].control is Shortcuts,
{
    event_laws::law_folder_chosen(m, p, clock);
    event_laws::law_switches(m, on, clock);
    event_laws::law_quality_typed(m, typed, 0, clock);
    event_laws::law_sizes_typed(m, typed, 0, clock);
    event_laws::law_bitrate_picked(m, idx, clock);
    lemma_settings(m);
    lemma_settings(update::next(m, Event::OutputDirChosen(p), clock));
    lemma_settings(update::next(m, Event::ToggleOverwrite(on), clock));
    lemma_settings(update::next(m, Event::ToggleGroupByKind(on), clock));
    lemma_settings(update::next(m, Event::ToggleAutoOpen(on), clock));
    lemma_settings(update::next(m, Event::QualityInput(typed), clock));
    lemma_settings(update::next(m, Event::ResizeWInput(typed), clock));
    lemma_settings(update::next(m, Event::ResizeHInput(typed), clock));
    lemma_settings(update::next(m, Event::SetAudioBitrate(idx), clock));
}

/// Each preset is a quality that the quality field takes as it is.
pub proof fn law_presets(i: int)
    requires
        0 <= i < views::presets().len(),
    ensures
        views::presets().len() == 3,
        batch::quality_of(views::presets()[i].1) == (if i == 0 {
            80
        } else if i == 1 {
            95
        } else {
            100int
        }),
{
    reveal_strlit("80");
    reveal_strlit("95");
    reveal_strlit("100");
    reveal_with_fuel(number::decimal, 4);
    let n: nat = if i == 0 {
        80
    } else if i == 1 {
        95
    } else {
        100
    };
    let d = views::presets()[i].1;
    assert(d =~= number::decimal(n));
    let none = Seq::<char>::empty();
    assert(none + d + none =~= d);
    assert(text::blank(none));
    assert(batch_laws::typed(d, n));
    batch_laws::law_quality(d, n);
}

// ---------------------------------------------------------------------------
// Menus, keys and pickers
// ---------------------------------------------------------------------------

/// Every menu action is in one menu, under its words.
pub proof fn law_menus(action: MenuAction)
    ensures
        ({
            let words = match action {
                MenuAction::OpenFiles => "Add files…"@,
                MenuAction::RetryFailed => "Retry failed"@,
                MenuAction::Settings => "Settings"@,
                MenuAction::About => "About"@,
                MenuAction::SelectAll => "Select all"@,
                MenuAction::DeselectAll => "Deselect all"@,
            };
            (views::file_menu() + views::edit_menu()).contains(MenuItemView::Entry(words, action))
        }),
{
    let all = views::file_menu() + views::edit_menu();
    assert(all.len() == 7);
    assert(all[0] == MenuItemView::Entry("Add files…"@, MenuAction::OpenFiles));
    assert(all[1] == MenuItemView::Entry("Retry failed"@, MenuAction::RetryFailed));
    assert(all[3] == MenuItemView::Entry("Settings"@, MenuAction::Settings));
    assert(all[4] == MenuItemView::Entry("About"@, MenuAction::About));
    assert(all[5] == MenuItemView::Entry("Select all"@, MenuAction::SelectAll));
    assert(all[6] == MenuItemView::Entry("Deselect all"@, MenuAction::DeselectAll));
}

/// Each menu action is the message of its name; the two pages of the drawer
/// open the drawer on themselves.
pub proof fn law_menu_messages(a: MenuAction, b: MenuAction)
    ensures
        input::menu_event(a) == input::menu_event(b) <==> a == b,
        input::menu_event(MenuAction::OpenFiles) is OpenFiles,
        input::menu_event(MenuAction::RetryFailed) is RetryFailed,
        input::menu_event(MenuAction::SelectAll) is SelectAllFiles,
        input::menu_event(MenuAction::DeselectAll) is DeselectAllFiles,
        input::menu_event(MenuAction::Settings) == Event::ToggleContextPage(ContextPage::Settings),
        input::menu_event(MenuAction::About) == Event::ToggleContextPage(ContextPage::About),
{
}

/// A key does nothing where another part of the window took it, nor does
/// anything but a key.
pub proof fn law_taken_keys(event: InputEvent, ignored: bool)
    requires
        !ignored || !(event is KeyPressed),
    ensures
        input::shortcut(event, ignored) is None,
{
}

/// With the control key alone, A selects, D deselects, O opens and R retries,
/// in either case, and no other letter does anything.
pub proof fn law_control_keys(key: Key, c: Seq<char>)
    requires
        key matches Key::Character(s) && s@ == c,
    ensures
        ({
            let held = Modifiers { control: true, logo: false, alt: false, shift: false };
            let r = input::shortcut(InputEvent::KeyPressed(key, held), true);
            &&& r is Some && r->0 is SelectAllFiles <==> c == seq!['a'] || c == seq!['A']
            &&& r is Some && r->0 is DeselectAllFiles <==> c == seq!['d'] || c == seq!['D']
            &&& r is Some && r->0 is OpenFiles <==> c == seq!['o'] || c == seq!['O']
            &&& r is Some && r->0 is RetryFailed <==> c == seq!['r'] || c == seq!['R']
            &&& r is Some ==> c.len() == 1
        }),
{
    reveal_strlit("a");
    reveal_strlit("d");
    reveal_strlit("o");
    reveal_strlit("r");
    let low = text::lower(c);
    if c.len() == 1 {
        text_laws::law_lower_case(c, 0);
        assert(c =~= seq![c[0]]);
        assert(low =~= seq![low[0]]);
        assert("a"@ =~= seq!['a']);
        assert("d"@ =~= seq!['d']);
        assert("o"@ =~= seq!['o']);
        assert("r"@ =~= seq!['r']);
        assert(seq!['a'][0] != seq!['d'][0]);
        lemma_letter(c, 'a', 'A');
        lemma_letter(c, 'd', 'D');
        lemma_letter(c, 'o', 'O');
        lemma_letter(c, 'r', 'R');
    } else {
        assert(low.len() == c.len());
        assert(seq!['a'].len() == 1);
    }
}

proof fn lemma_letter(c: Seq<char>, low: char, high: char)
    requires
        c.len() == 1,
        'a' <= low && low <= 'z',
        high as int - 'A' as int == low as int - 'a' as int,
    ensures
        text::lower(c) == seq![low] <==> c == seq![low] || c == seq![high],
{
    text_laws::law_lower_case(c, 0);
    let l = text::lower(c);
    assert(c =~= seq![c[0]]);
    assert(l =~= seq![l[0]]);
    if c == seq![low] {
        assert(c[0] == low);
    }
    if c == seq![high] {
        assert(c[0] == high);
    }
    if l == seq![low] {
        assert(l[0] == low);
    }
}

/// Without a modifier, Delete and Backspace remove the selection and Escape
/// drops it; with any modifier but control alone no key does anything.
pub proof fn law_plain_keys(key: Key, held: Modifiers)
    ensures
        ({
            let r = input::shortcut(InputEvent::KeyPressed(key, held), true);
            let plain = !held.control && !held.logo && !held.alt && !held.shift;
            &&& plain ==> (r is Some && r->0 is RemoveSelectedFiles <==> key is Delete
                || key is Backspace)
            &&& plain ==> (r is Some && r->0 is DeselectAllFiles <==> key is Escape)
            &&& plain && (key is Character || key is Other) ==> r is None
            &&& held.logo || held.alt || held.shift ==> r is None
            &&& held.control && !(key is Character) ==> r is None
        }),
{
}

/// Files dropped, hovering and leaving are told as such, and no key is.
pub proof fn law_drops(event: InputEvent)
    ensures
        event matches InputEvent::FilesDropped(v) ==> input::dropped(event) == Some(
            Event::FilesDropped(v.deep_view()),
        ),
        event is FileHovered ==> input::dropped(event) == Some(Event::FilesHovered),
        event is FilesHoveredLeft ==> input::dropped(event) == Some(Event::FilesHoverLeft),
        event is KeyPressed || event is Other ==> input::dropped(event) is None,
{
}

/// Chosen files and folders join the queue, a chosen output folder is used, a
/// cancelled picker clears the banner, and one that fails says why.
pub proof fn law_pickers(picker: Picker, answer: Picked)
    ensures
        answer is Cancelled ==> input::picked(picker, answer) is DismissWarning,
        answer matches Picked::Chosen(v) ==> {
            &&& !(picker is OutputDir) ==> input::picked(picker, answer) == Event::FilesChosen(
                v.deep_view(),
            )
            &&& picker is OutputDir && v@.len() > 0 ==> input::picked(picker, answer)
                == Event::OutputDirChosen(v@[0]@)
            &&& picker is OutputDir && v@.len() == 0 ==> input::picked(picker, answer)
                == Event::DialogError("The chosen folder is not a local path."@)
        },
        answer matches Picked::Failed(why) ==> {
            &&& picker is Files ==> input::picked(picker, answer) == Event::DialogError(
                "Could not open file picker: "@ + why@,
            )
            &&& !(picker is Files) ==> input::picked(picker, answer) == Event::DialogError(
                "Could not open folder picker: "@ + why@,
            )
        },
{
}

/// Every setting stands under its title.
pub proof fn law_setting_titles(m: ModelView, i: int)
    requires
        0 <= i < 11,
    ensures
        views::settings(m)[i].title == (match views::settings(m)[i].control {
            ControlView::Folder(_) => "Output folder"@,
            ControlView::Overwrite(_) => "Overwrite existing"@,
            ControlView::GroupByKind(_) => "Group by type"@,
            ControlView::AutoOpen(_) => "Auto-open output"@,
            ControlView::Quality(_) => "JPEG quality (1–100)"@,
            ControlView::Width(_) => "Image width px"@,
            ControlView::Height(_) => "Image height px"@,
            ControlView::Bitrate(_, _) => "Audio bitrate"@,
            ControlView::Presets(_) => "Quick presets"@,
            ControlView::Backend(_) => "Media backend"@,
            ControlView::Shortcuts(_) => "Keyboard shortcuts"@,
        }),
{
    assert(i == 0 || i == 1 || i == 2 || i == 3 || i == 4 || i == 5 || i == 6 || i == 7 || i == 8
        || i == 9 || i == 10);
}

} // verus!
