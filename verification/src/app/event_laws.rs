//! Laws of the messages: what each does to the queue, the settings and the
//! history, what it leaves alone, and what the program is asked to do.
use vstd::prelude::*;

use crate::app::batch;
use crate::app::batch_laws;
use crate::app::laws;
use crate::app::queue;
use crate::app::queue_laws;
use crate::app::start;
use crate::app::update;
use crate::app::ActionView;
use crate::app::Clock;
use crate::app::ContextPage;
use crate::app::EntryView;
use crate::app::Event;
use crate::app::FileStatus;
use crate::app::FileView;
use crate::app::ModelView;
use crate::config::ConfigView;
use crate::converters;
use crate::number;
use crate::number_laws;
use crate::text;

verus! {

// ---------------------------------------------------------------------------
// What is stored and asked for
// ---------------------------------------------------------------------------

/// Whatever changes the settings stores them, unless they came from the store
/// in the first place; whatever changes the history stores it.
pub proof fn law_changes_are_stored(m: ModelView, e: Event, clock: Clock)
    ensures
        ({
            let n = update::next(m, e, clock);
            let did = update::effects_of(m, e, clock);
            &&& n.config != m.config ==> did.save_config || e is UpdateConfig
            &&& n.history != m.history ==> did.save_history
        }),
{
    reveal(update::next);
    reveal(update::effects_of);
}

/// The settings are stored by exactly the messages that set one: the output
/// folder, a quality from one to a hundred, a size, a switch, or a bitrate on
/// offer.
pub proof fn law_settings_stored(m: ModelView, e: Event, clock: Clock)
    ensures
        update::effects_of(m, e, clock).save_config <==> match e {
            Event::OutputDirChosen(_) => true,
            Event::QualityInput(s) => update::is_quality(s),
            Event::ResizeWInput(_) => true,
            Event::ResizeHInput(_) => true,
            Event::ToggleOverwrite(_) => true,
            Event::ToggleGroupByKind(_) => true,
            Event::ToggleAutoOpen(_) => true,
            Event::SetAudioBitrate(idx) => idx < 3,
            _ => false,
        },
        update::effects_of(m, e, clock).save_history <==> match e {
            Event::ConversionFinished(id, _) => exists|i: int|
                0 <= i < m.files.len() && (#[trigger] m.files[i]).id == id,
            Event::ClearHistory => true,
            Event::ToggleHistoryFavorite(idx) => idx < m.history.len(),
            _ => false,
        },
{
    reveal(update::next);
    reveal(update::effects_of);
    match e {
        Event::ConversionFinished(id, _) => {
            queue_laws::law_place(m.files, id, 0);
        },
        _ => {},
    }
}

/// Pickers, addresses, paths, batches and folders are each asked for by their
/// own message; a batch is not asked for while one runs; and the end of a
/// batch is announced when its last file finishes.
pub proof fn law_requests(m: ModelView, e: Event, clock: Clock)
    ensures
        ({
            let a = update::effects_of(m, e, clock).action;
            let n = update::next(m, e, clock);
            &&& a is PickFiles <==> e is OpenFiles
            &&& a is PickFolder <==> e is OpenFolderAsInput
            &&& a is PickOutputDir <==> e is ChooseOutputDir
            &&& forall|url: Seq<char>| a == ActionView::OpenUrl(url) <==> e == Event::LaunchUrl(url)
            &&& forall|p: Seq<char>| a == ActionView::OpenPath(p) <==> e == Event::OpenPath(p)
            &&& forall|v: Seq<Seq<char>>|
                a == ActionView::AddPaths(v) <==> (e == Event::FilesChosen(v) || e
                    == Event::FilesDropped(v))
            &&& a == ActionView::StartBatch(false) <==> e is ConvertAll && !m.is_converting
            &&& a == ActionView::StartBatch(true) <==> e is ConvertSelected && !m.is_converting
            &&& e is OpenOutputDir ==> a == ActionView::OpenOutputDir(m.output_dir)
            &&& a is OpenOutputDir ==> e is OpenOutputDir
            &&& a is Announce <==> e is ConversionFinished && forall|i: int|
                0 <= i < n.files.len() ==> (#[trigger] n.files[i]).status
                    != FileStatus::Converting
        }),
{
    reveal(update::next);
    reveal(update::effects_of);
    let n = update::next(m, e, clock);
    laws::lemma_count_none(n.files, FileStatus::Converting);
}

// ---------------------------------------------------------------------------
// Settings
// ---------------------------------------------------------------------------

/// The drawer opens on a page that it does not show, and closes and opens
/// again on the page that it shows; nothing else changes.
pub proof fn law_drawer(m: ModelView, p: ContextPage, clock: Clock)
    ensures
        ({
            let e = Event::ToggleContextPage(p);
            let n = update::next(m, e, clock);
            &&& n.context_page == p
            &&& n.show_context <==> !(m.show_context && m.context_page == p)
            &&& (ModelView {
                context_page: m.context_page,
                show_context: m.show_context,
                ..n
            }) == m
        }),
{
    reveal(update::next);
}

/// A switch takes the value it is given and leaves every other setting.
pub proof fn law_switches(m: ModelView, b: bool, clock: Clock)
    ensures
        update::next(m, Event::ToggleOverwrite(b), clock) == (ModelView {
            config: ConfigView { overwrite_existing: b, ..m.config },
            ..m
        }),
        update::next(m, Event::ToggleGroupByKind(b), clock) == (ModelView {
            config: ConfigView { group_by_kind: b, ..m.config },
            ..m
        }),
        update::next(m, Event::ToggleAutoOpen(b), clock) == (ModelView {
            config: ConfigView { auto_open_output: b, ..m.config },
            ..m
        }),
{
    reveal(update::next);
}

/// A quality from one to a hundred is set; anything else typed leaves the
/// setting alone. The field shows what was typed either way.
pub proof fn law_quality_typed(m: ModelView, field: Seq<char>, n: nat, clock: Clock)
    ensures
        ({
            let after = update::next(m, Event::QualityInput(field), clock);
            &&& after.quality_text == field
            &&& after == (ModelView { quality_text: field, config: after.config, ..m })
            &&& batch_laws::typed(field, n) && 1 <= n <= 100 ==> after.config == (ConfigView {
                jpeg_quality: n as u32,
                ..m.config
            })
            &&& batch_laws::typed(field, n) && !(1 <= n <= 100) ==> after.config == m.config
            &&& text::blank(field) ==> after.config == m.config
            &&& batch_laws::typed(field, n) ==> (update::effects_of(
                m,
                Event::QualityInput(field),
                clock,
            ).save_config <==> 1 <= n <= 100)
        }),
{
    reveal(update::next);
    reveal(update::effects_of);
    if batch_laws::typed(field, n) {
        batch_laws::lemma_typed(field, n);
        number_laws::law_numbers_read_back(n, u32::MAX as nat);
    }
    text::lemma_trim_blank(field);
    number_laws::law_no_number(Seq::empty(), u32::MAX as nat, 0);
    if text::blank(field) {
        assert(text::trim(field) =~= Seq::<char>::empty());
    }
}

/// A width or height that is typed is set, each by its own field; what is no
/// number of 32 bits sets none.
pub proof fn law_sizes_typed(m: ModelView, field: Seq<char>, n: nat, clock: Clock)
    ensures
        ({
            let w = update::next(m, Event::ResizeWInput(field), clock);
            let h = update::next(m, Event::ResizeHInput(field), clock);
            &&& w == (ModelView {
                resize_w_text: field,
                config: ConfigView { resize_width: w.config.resize_width, ..m.config },
                ..m
            })
            &&& h == (ModelView {
                resize_h_text: field,
                config: ConfigView { resize_height: h.config.resize_height, ..m.config },
                ..m
            })
            &&& batch_laws::typed(field, n) && n <= u32::MAX ==> w.config.resize_width == n
                && h.config.resize_height == n
            &&& batch_laws::typed(field, n) && n > u32::MAX ==> w.config.resize_width == 0
                && h.config.resize_height == 0
            &&& text::blank(field) ==> w.config.resize_width == 0 && h.config.resize_height == 0
        }),
{
    reveal(update::next);
    if batch_laws::typed(field, n) {
        batch_laws::lemma_typed(field, n);
        number_laws::law_numbers_read_back(n, u32::MAX as nat);
    }
    text::lemma_trim_blank(field);
    number_laws::law_no_number(Seq::empty(), u32::MAX as nat, 0);
    if text::blank(field) {
        assert(text::trim(field) =~= Seq::<char>::empty());
    }
}

/// A bitrate on offer is set and shown as picked; no other place in the list
/// does anything.
pub proof fn law_bitrate_picked(m: ModelView, idx: usize, clock: Clock)
    ensures
        ({
            let n = update::next(m, Event::SetAudioBitrate(idx), clock);
            &&& idx >= 3 ==> n == m
            &&& idx < 3 ==> n == (ModelView {
                audio_bitrate_idx: Some(idx),
                config: ConfigView { audio_bitrate_kbps: batch::options_of(
                    n,
                ).audio_bitrate_kbps, ..m.config },
                ..m
            })
            &&& idx == 0 ==> n.config.audio_bitrate_kbps == 128
            &&& idx == 1 ==> n.config.audio_bitrate_kbps == 192
            &&& idx == 2 ==> n.config.audio_bitrate_kbps == 320
        }),
{
    reveal(update::next);
}

/// A chosen folder is used at once, and kept in the settings.
pub proof fn law_folder_chosen(m: ModelView, p: Seq<char>, clock: Clock)
    ensures
        update::next(m, Event::OutputDirChosen(p), clock) == (ModelView {
            output_dir: p,
            config: ConfigView { output_dir: p, ..m.config },
            warning: None,
            ..m
        }),
{
    reveal(update::next);
}

/// What is set in one run is there in the next: a model started from the
/// stored settings shows the folder, the fields and the bitrate as they were.
pub proof fn law_settings_last(
    m: ModelView,
    p: Seq<char>,
    q: nat,
    size: nat,
    idx: usize,
    default_dir: Seq<char>,
    backend: Seq<char>,
    entries: Seq<EntryView>,
    clock: Clock,
)
    requires
        p.len() > 0,
        1 <= q <= 100,
        0 < size <= u32::MAX,
        idx < 3,
    ensures
        start::first_model(
            update::next(m, Event::OutputDirChosen(p), clock).config,
            default_dir,
            backend,
            entries,
        ).output_dir == p,
        start::first_model(
            update::next(m, Event::QualityInput(number::decimal(q)), clock).config,
            default_dir,
            backend,
            entries,
        ).quality_text == number::decimal(q),
        start::first_model(
            update::next(m, Event::ResizeWInput(number::decimal(size)), clock).config,
            default_dir,
            backend,
            entries,
        ).resize_w_text == number::decimal(size),
        start::first_model(
            update::next(m, Event::ResizeHInput(number::decimal(size)), clock).config,
            default_dir,
            backend,
            entries,
        ).resize_h_text == number::decimal(size),
        start::first_model(
            update::next(m, Event::SetAudioBitrate(idx), clock).config,
            default_dir,
            backend,
            entries,
        ).audio_bitrate_idx == Some(idx),
{
    reveal(update::next);
    let none = Seq::<char>::empty();
    assert(none + number::decimal(q) + none =~= number::decimal(q));
    assert(none + number::decimal(size) + none =~= number::decimal(size));
    assert(text::blank(none));
    assert(batch_laws::typed(number::decimal(q), q));
    assert(batch_laws::typed(number::decimal(size), size));
    law_quality_typed(m, number::decimal(q), q, clock);
    law_sizes_typed(m, number::decimal(size), size, clock);
}

/// A first start: an empty queue on the page of all files, the drawer closed,
/// nothing running, the history as it was stored, and the folder of the
/// settings or, without one, the default. Empty fields stand for sizes that
/// are not set; the quality is never shown above a hundred, and ninety stands
/// for none.
pub proof fn law_start(
    config: ConfigView,
    default_dir: Seq<char>,
    backend: Seq<char>,
    entries: Seq<EntryView>,
)
    ensures
        ({
            let m = start::first_model(config, default_dir, backend, entries);
            &&& m.files.len() == 0
            &&& m.page == crate::app::Page::All
            &&& !m.show_context
            &&& !m.is_converting
            &&& !m.drag_hovered
            &&& m.warning is None
            &&& m.global_target_idx is None
            &&& m.config == config
            &&& m.history == entries
            &&& m.ffmpeg_info == backend
            &&& config.output_dir.len() == 0 ==> m.output_dir == default_dir
            &&& config.output_dir.len() > 0 ==> m.output_dir == config.output_dir
            &&& config.resize_width == 0 <==> m.resize_w_text.len() == 0
            &&& config.resize_height == 0 <==> m.resize_h_text.len() == 0
            &&& config.resize_width > 0 ==> m.resize_w_text == number::decimal(
                config.resize_width as nat,
            )
            &&& config.resize_height > 0 ==> m.resize_h_text == number::decimal(
                config.resize_height as nat,
            )
            &&& config.jpeg_quality == 0 ==> m.quality_text == "90"@
            &&& config.jpeg_quality > 100 ==> m.quality_text == number::decimal(100)
            &&& 0 < config.jpeg_quality <= 100 ==> m.quality_text == number::decimal(
                config.jpeg_quality as nat,
            )
            &&& config.audio_bitrate_kbps == 0 ==> m.audio_bitrate_idx == Some(1usize)
            &&& config.audio_bitrate_kbps > 0 ==> (m.audio_bitrate_idx is Some
                <==> config.audio_bitrate_kbps == 128 || config.audio_bitrate_kbps == 192
                || config.audio_bitrate_kbps == 320)
            &&& config.audio_bitrate_kbps > 0 && m.audio_bitrate_idx is Some ==> batch::bitrate_at(
                m.audio_bitrate_idx->0,
            ) == Some(config.audio_bitrate_kbps)
        }),
{
    reveal(update::next);
    number_laws::law_decimal(config.resize_width as nat);
    number_laws::law_decimal(config.resize_height as nat);
}

/// Settings from the store replace those in use, with the bitrate picked to
/// match; nothing else changes.
pub proof fn law_settings_loaded(m: ModelView, c: ConfigView, clock: Clock)
    ensures
        ({
            let n = update::next(m, Event::UpdateConfig(c), clock);
            &&& n == (ModelView { config: c, audio_bitrate_idx: n.audio_bitrate_idx, ..m })
            &&& n.audio_bitrate_idx == start::first_model(
                c,
                m.output_dir,
                m.ffmpeg_info,
                m.history,
            ).audio_bitrate_idx
        }),
{
    reveal(update::next);
}

/// Settings of a first run: quality ninety, sizes kept, nothing overwritten,
/// grouped or opened, and 192 kbps.
pub proof fn law_first_settings()
    ensures
        ({
            let c = crate::config::first_config();
            &&& c.output_dir.len() == 0
            &&& c.jpeg_quality == 90
            &&& c.resize_width == 0 && c.resize_height == 0
            &&& !c.overwrite_existing && !c.group_by_kind && !c.auto_open_output
            &&& c.audio_bitrate_kbps == 192
        }),
{
}

// ---------------------------------------------------------------------------
// The queue
// ---------------------------------------------------------------------------

/// What stays of a queue is what stays of its parts, in order.
pub proof fn law_kept_in_order(rule: update::Keep, a: Seq<FileView>, b: Seq<FileView>)
    ensures
        update::kept(rule, a + b) == update::kept(rule, a) + update::kept(rule, b),
    decreases b.len(),
{
    if b.len() == 0 {
        assert(a + b =~= a);
        assert(update::kept(rule, b) =~= Seq::<FileView>::empty());
    } else {
        assert((a + b).drop_last() =~= a + b.drop_last());
        assert((a + b).last() == b.last());
        law_kept_in_order(rule, a, b.drop_last());
        assert(update::kept(rule, a + b) =~= update::kept(rule, a) + update::kept(rule, b));
    }
}

/// A removed file is gone, and the files before and after it stay as they
/// were, in order.
pub proof fn law_file_removed(m: ModelView, i: int, clock: Clock)
    requires
        laws::well_formed(m),
        0 <= i < m.files.len(),
    ensures
        ({
            let n = update::next(m, Event::RemoveFile(m.files[i].id), clock);
            &&& n.files == m.files.take(i) + m.files.skip(i + 1)
            &&& n == (ModelView {
                files: n.files,
                global_target_idx: n.global_target_idx,
                ..m
            })
        }),
{
    reveal(update::next);
    let id = m.files[i].id;
    let rule = update::Keep::OtherThan(id);
    let (a, f, b) = (m.files.take(i), m.files[i], m.files.skip(i + 1));
    assert(m.files =~= a + (seq![f] + b));
    law_kept_in_order(rule, a, seq![f] + b);
    law_kept_in_order(rule, seq![f], b);
    assert forall|k: int| 0 <= k < a.len() implies (#[trigger] a[k]).id != id by {
        assert(a[k] == m.files[k]);
        assert(laws::apart(m.files[k], m.files[i]));
    }
    assert forall|k: int| 0 <= k < b.len() implies (#[trigger] b[k]).id != id by {
        assert(b[k] == m.files[i + 1 + k]);
        assert(laws::apart(m.files[i], m.files[i + 1 + k]));
    }
    lemma_all_stay(rule, a);
    lemma_all_stay(rule, b);
    assert(seq![f].drop_last() =~= Seq::<FileView>::empty());
    assert(update::kept(rule, seq![f].drop_last()) =~= Seq::<FileView>::empty());
    assert(update::kept(rule, seq![f]) =~= Seq::<FileView>::empty());
    assert(Seq::<FileView>::empty() + b =~= b);
}

proof fn lemma_all_stay(rule: update::Keep, files: Seq<FileView>)
    requires
        forall|k: int| 0 <= k < files.len() ==> update::stays(rule, #[trigger] files[k]),
    ensures
        update::kept(rule, files) == files,
    decreases files.len(),
{
    if files.len() > 0 {
        let front = files.drop_last();
        assert forall|k: int| 0 <= k < front.len() implies update::stays(
            rule,
            #[trigger] front[k],
        ) by {
            assert(front[k] == files[k]);
        }
        lemma_all_stay(rule, front);
        assert(files[files.len() - 1] == files.last());
        assert(front.push(files.last()) =~= files);
    } else {
        assert(update::kept(rule, files) =~= files);
    }
}

/// Clearing empties the queue, except that files being converted stay while a
/// batch runs; the batch target is dropped.
pub proof fn law_queue_cleared(m: ModelView, clock: Clock, k: int)
    ensures
        ({
            let n = update::next(m, Event::ClearQueue, clock);
            &&& !m.is_converting ==> n == (ModelView {
                files: Seq::empty(),
                global_target_idx: None,
                ..m
            })
            &&& m.is_converting ==> n == (ModelView {
                files: n.files,
                global_target_idx: None,
                warning: n.warning,
                ..m
            }) && n.warning == Some(
                "Conversions are still running — remaining files were kept until they finish."@,
            )
            &&& 0 <= k < n.files.len() ==> n.files[k].status == FileStatus::Converting
                && m.files.contains(n.files[k])
            &&& m.is_converting && 0 <= k < m.files.len() && m.files[k].status
                == FileStatus::Converting ==> n.files.contains(m.files[k])
        }),
{
    reveal(update::next);
    laws::lemma_kept(update::Keep::Converting, m.files);
}

/// Removing the selection leaves the files that are not selected, and those
/// being converted while a batch runs; nothing is selected after it.
pub proof fn law_selection_removed(m: ModelView, clock: Clock, k: int)
    ensures
        ({
            let n = update::next(m, Event::RemoveSelectedFiles, clock);
            &&& 0 <= k < n.files.len() ==> !n.files[k].selected
            &&& 0 <= k < m.files.len() && !m.files[k].selected ==> n.files.contains(m.files[k])
            &&& !m.is_converting && 0 <= k < n.files.len() ==> m.files.contains(n.files[k])
            &&& m.is_converting && 0 <= k < n.files.len() && n.files[k].status
                != FileStatus::Converting ==> m.files.contains(n.files[k])
            &&& !m.is_converting ==> n.warning == m.warning
            &&& m.is_converting ==> n.warning == Some(
                "Converting files were kept; other selected files were removed."@,
            )
            &&& n.history == m.history && n.config == m.config && n.is_converting
                == m.is_converting
        }),
{
    reveal(update::next);
    let rule = if m.is_converting {
        update::Keep::UnselectedOrConverting
    } else {
        update::Keep::Unselected
    };
    let left = update::kept(rule, m.files);
    let n = update::next(m, Event::RemoveSelectedFiles, clock);
    laws::lemma_kept(rule, m.files);
    assert(n.files =~= left.map_values(
        |f: FileView| update::changed(update::Change::Deselect, f),
    ));
    if 0 <= k < n.files.len() {
        let j = choose|j: int|
            k <= j < m.files.len() && m.files[j] == left[k] && update::stays(rule, m.files[j]);
        assert(n.files[k] == (FileView { selected: false, ..left[k] }));
        if !left[k].selected {
            assert(n.files[k] == m.files[j]);
        }
    }
    if 0 <= k < m.files.len() && !m.files[k].selected {
        assert(left.contains(m.files[k]));
        let j = choose|j: int| 0 <= j < left.len() && left[j] == m.files[k];
        assert(n.files[j] == left[j]);
    }
}

/// Selecting and deselecting concern every file and change nothing else of
/// it; toggling concerns one file.
pub proof fn law_selecting(m: ModelView, i: int, id: u64, clock: Clock)
    requires
        0 <= i < m.files.len(),
        laws::well_formed(m),
    ensures
        ({
            let all = update::next(m, Event::SelectAllFiles, clock);
            let none = update::next(m, Event::DeselectAllFiles, clock);
            let one = update::next(m, Event::ToggleFileSelection(id), clock);
            &&& all == (ModelView { files: all.files, ..m })
            &&& none == (ModelView { files: none.files, ..m })
            &&& one == (ModelView { files: one.files, ..m })
            &&& all.files.len() == none.files.len() == one.files.len() == m.files.len()
            &&& all.files[i] == (FileView { selected: true, ..m.files[i] })
            &&& none.files[i] == (FileView { selected: false, ..m.files[i] })
            &&& one.files[i] == (if m.files[i].id == id {
                FileView { selected: !m.files[i].selected, ..m.files[i] }
            } else {
                m.files[i]
            })
        }),
{
    reveal(update::next);
    lemma_place_of(m, i, id);
}

/// A file with the id at its place; no file where no place has the id.
proof fn lemma_place_of(m: ModelView, i: int, id: u64)
    requires
        laws::well_formed(m),
        0 <= i < m.files.len(),
    ensures
        m.files[i].id == id ==> queue::place(m.files, id) == Some(i),
        m.files[i].id != id ==> queue::place(m.files, id) != Some(i),
        queue::place(m.files, id) matches Some(k) ==> 0 <= k < m.files.len(),
{
    queue_laws::law_place(m.files, id, i);
    if m.files[i].id == id {
        assert forall|j: int| 0 <= j < i implies (#[trigger] m.files[j]).id != id by {
            assert(laws::apart(m.files[j], m.files[i]));
        }
    }
    if queue::place(m.files, id) is Some {
        queue_laws::law_place(m.files, id, queue::place(m.files, id)->0);
    }
}

/// A target that is picked for a file becomes its target: a complaint goes,
/// a failed file is ready again, and no other file changes. A place past the
/// list does nothing.
pub proof fn law_target_picked(m: ModelView, i: int, j: int, idx: usize, clock: Clock)
    requires
        laws::well_formed(m),
        0 <= i < m.files.len(),
        0 <= j < m.files.len(),
    ensures
        ({
            let f = m.files[i];
            let n = update::next(m, Event::SetFileTarget(f.id, idx), clock);
            let g = n.files[i];
            &&& n == (ModelView { files: n.files, ..m })
            &&& n.files.len() == m.files.len()
            &&& j != i ==> n.files[j] == m.files[j]
            &&& idx >= f.targets.len() ==> n == m
            &&& idx < f.targets.len() ==> {
                &&& queue::target_of(g) == Some(f.targets[idx as int])
                &&& g.error == queue::complaint(g)
                &&& f.status != FileStatus::Failed ==> g.status == f.status && g.progress
                    == f.progress
                &&& f.status == FileStatus::Failed ==> g.status == FileStatus::Pending
                    && g.progress == 0
                &&& g == (FileView {
                    target_idx: Some(idx),
                    error: g.error,
                    status: g.status,
                    progress: g.progress,
                    ..f
                })
            }
        }),
{
    reveal(update::next);
    lemma_place_of(m, i, m.files[i].id);
    let n = update::next(m, Event::SetFileTarget(m.files[i].id, idx), clock);
    if idx >= m.files[i].targets.len() {
        assert(n == m);
    }
}

/// The batch target is the one picked, as long as it is on offer.
pub proof fn law_batch_target_picked(m: ModelView, idx: usize, clock: Clock)
    ensures
        ({
            let n = update::next(m, Event::SetGlobalTarget(idx), clock);
            &&& n == (ModelView { global_target_idx: Some(idx), ..m })
            &&& idx < queue::offered(m.files).len() ==> update::batch_target(n) == Some(
                queue::offered(m.files)[idx as int],
            )
            &&& idx >= queue::offered(m.files).len() ==> update::batch_target(n) is None
        }),
{
    reveal(update::next);
}

/// Applying the batch target gives it to every idle file that it is on offer
/// to and that can go to it; such a file has no complaint and is ready where
/// it had failed. All others stay as they are.
pub proof fn law_batch_target_applied(m: ModelView, i: int, clock: Clock)
    requires
        laws::well_formed(m),
        0 <= i < m.files.len(),
    ensures
        ({
            let n = update::next(m, Event::ApplyGlobalTarget, clock);
            let (f, g) = (m.files[i], n.files[i]);
            &&& n == (ModelView { files: n.files, warning: n.warning, ..m })
            &&& n.files.len() == m.files.len()
            &&& update::batch_target(m) is None ==> n == m
            &&& update::batch_target(m) matches Some(t) ==> {
                let taken = f.status != FileStatus::Converting && f.targets.contains(t)
                    && converters::supported(f.source_ext, t);
                &&& !taken ==> g == f
                &&& taken ==> {
                    &&& queue::target_of(g) == Some(t)
                    &&& g.error is None
                    &&& f.status == FileStatus::Failed ==> g.status == FileStatus::Pending
                        && g.progress == 0
                    &&& f.status != FileStatus::Failed ==> g.status == f.status && g.progress
                        == f.progress
                    &&& g == (FileView {
                        target_idx: g.target_idx,
                        error: None,
                        status: g.status,
                        progress: g.progress,
                        ..f
                    })
                }
            }
        }),
{
    reveal(update::next);
    let n = update::next(m, Event::ApplyGlobalTarget, clock);
    let f = m.files[i];
    laws::lemma_few_targets(f.source_ext);
    match update::batch_target(m) {
        Some(t) => {
            text::lemma_position(f.targets, t);
            assert(n.files[i] == update::overridden(f, t));
        },
        None => {
            assert(n == m);
        },
    }
}

/// Files that take a target and files that do not add up over the parts of a
/// queue; files being converted count for neither.
pub proof fn law_takers_add_up(a: Seq<FileView>, b: Seq<FileView>, t: Seq<char>)
    ensures
        update::accepted_count(a + b, t) == update::accepted_count(a, t) + update::accepted_count(
            b,
            t,
        ),
        update::declined_count(a + b, t) == update::declined_count(a, t) + update::declined_count(
            b,
            t,
        ),
        update::accepted_count(a, t) + update::declined_count(a, t) + queue::count_status(
            a,
            FileStatus::Converting,
        ) == a.len(),
    decreases a.len() + b.len(),
{
    if b.len() > 0 {
        assert((a + b).drop_last() =~= a + b.drop_last());
        assert((a + b).last() == b.last());
        law_takers_add_up(a, b.drop_last(), t);
    } else {
        assert(a + b =~= a);
        if a.len() > 0 {
            law_takers_add_up(a.drop_last(), b, t);
        }
    }
}

/// A file takes a target where it is idle, is offered it and can go to it,
/// and counts as one.
pub proof fn law_one_taker(f: FileView, t: Seq<char>)
    requires
        f.targets.len() <= usize::MAX,
    ensures
        update::accepted_count(seq![f], t) == (if f.status != FileStatus::Converting
            && f.targets.contains(t) && converters::supported(f.source_ext, t) {
            1nat
        } else {
            0nat
        }),
{
    text::lemma_position(f.targets, t);
    assert(seq![f].drop_last() =~= Seq::<FileView>::empty());
    assert(update::accepted_count(seq![f].drop_last(), t) == 0);
    assert(seq![f].last() == f);
}

/// The banner tells how many files took the target and how many did not,
/// where any did not.
pub proof fn law_takers_are_told(m: ModelView, clock: Clock)
    requires
        update::batch_target(m) is Some,
    ensures
        ({
            let t = update::batch_target(m)->0;
            let n = update::next(m, Event::ApplyGlobalTarget, clock);
            let (took, not) = (
                update::accepted_count(m.files, t),
                update::declined_count(m.files, t),
            );
            &&& n.warning is None <==> not == 0
            &&& not > 0 ==> n.warning == Some(
                "Applied “."@ + t + "” to "@ + number::decimal(took) + " file(s); "@ + (
                number::decimal(not)
                    + " file(s) do not support that target and were left unchanged."@),
            )
        }),
{
    reveal(update::next);
}

/// Retrying makes a failed file as good as new, with its target kept, and
/// leaves any other file alone; where nothing failed, the banner says so.
pub proof fn law_retrying(m: ModelView, i: int, clock: Clock)
    requires
        laws::well_formed(m),
        0 <= i < m.files.len(),
    ensures
        ({
            let f = m.files[i];
            let one = update::next(m, Event::RetryFile(f.id), clock);
            let all = update::next(m, Event::RetryFailed, clock);
            let ready = FileView {
                status: FileStatus::Pending,
                progress: 0,
                error: None,
                start_time: None,
                end_time: None,
                ..f
            };
            &&& one == (ModelView { files: one.files, ..m })
            &&& all == (ModelView { files: all.files, warning: all.warning, ..m })
            &&& all.files.len() == one.files.len() == m.files.len()
            &&& f.status == FileStatus::Failed ==> one.files[i] == ready && all.files[i] == ready
                && all.warning is None
            &&& f.status != FileStatus::Failed ==> one.files == m.files && all.files[i] == f
            &&& forall|j: int|
                0 <= j < m.files.len() && j != i ==> #[trigger] one.files[j] == m.files[j]
            &&& all.warning is None || all.warning == Some(
                "Nothing to retry — no failed conversions."@,
            )
            &&& all.warning is Some <==> forall|j: int|
                0 <= j < m.files.len() ==> (#[trigger] m.files[j]).status != FileStatus::Failed
        }),
{
    reveal(update::next);
    let f = m.files[i];
    lemma_place_of(m, i, f.id);
    laws::lemma_count_none(m.files, FileStatus::Failed);
    let one = update::next(m, Event::RetryFile(f.id), clock);
    if f.status != FileStatus::Failed {
        assert(one.files =~= m.files);
    }
}

/// Moving up exchanges a file with the one before it and moving down with the
/// one after it; at the ends nothing happens, nor to any other file.
pub proof fn law_moving(m: ModelView, i: int, j: int, clock: Clock)
    requires
        laws::well_formed(m),
        0 <= i < m.files.len(),
        0 <= j < m.files.len(),
    ensures
        ({
            let up = update::next(m, Event::MoveFileUp(m.files[i].id), clock);
            let down = update::next(m, Event::MoveFileDown(m.files[i].id), clock);
            &&& up == (ModelView { files: up.files, ..m })
            &&& down == (ModelView { files: down.files, ..m })
            &&& up.files.len() == down.files.len() == m.files.len()
            &&& i == 0 ==> up == m
            &&& i == m.files.len() - 1 ==> down == m
            &&& i > 0 ==> up.files[i - 1] == m.files[i] && up.files[i] == m.files[i - 1]
            &&& i < m.files.len() - 1 ==> down.files[i + 1] == m.files[i] && down.files[i]
                == m.files[i + 1]
            &&& j != i && j != i - 1 ==> up.files[j] == m.files[j]
            &&& j != i && j != i + 1 ==> down.files[j] == m.files[j]
        }),
{
    reveal(update::next);
    lemma_place_of(m, i, m.files[i].id);
}

// ---------------------------------------------------------------------------
// Conversions
// ---------------------------------------------------------------------------

/// Stopping a batch fails the files being converted, at that time, and leaves
/// the others; without a batch nothing happens.
pub proof fn law_stopping(m: ModelView, i: int, clock: Clock)
    requires
        0 <= i < m.files.len(),
    ensures
        ({
            let n = update::next(m, Event::StopConversion, clock);
            let (f, g) = (m.files[i], n.files[i]);
            &&& !m.is_converting ==> n == m
            &&& m.is_converting ==> n == (ModelView {
                files: n.files,
                is_converting: false,
                warning: Some("Conversion stopped by user"@),
                ..m
            }) && n.files.len() == m.files.len()
            &&& m.is_converting && f.status == FileStatus::Converting ==> g == (FileView {
                status: FileStatus::Failed,
                progress: 0,
                error: Some("Conversion cancelled by user"@),
                end_time: Some(clock.millis),
                ..f
            })
            &&& f.status != FileStatus::Converting ==> g == f
        }),
{
    reveal(update::next);
}

/// A finished conversion makes its file done, with its output, or failed,
/// with the reason; no other file changes. It is recorded as the newest entry
/// of the history; the batch ends when no file is being converted any more.
pub proof fn law_finishing(
    m: ModelView,
    i: int,
    j: int,
    result: Result<Seq<char>, Seq<char>>,
    clock: Clock,
)
    requires
        laws::well_formed(m),
        0 <= i < m.files.len(),
        0 <= j < m.files.len(),
    ensures
        ({
            let f = m.files[i];
            let n = update::next(m, Event::ConversionFinished(f.id, result), clock);
            let g = n.files[i];
            let entry = n.history.last();
            let over = forall|k: int|
                0 <= k < n.files.len() ==> (#[trigger] n.files[k]).status
                    != FileStatus::Converting;
            &&& n == (ModelView {
                files: n.files,
                history: n.history,
                is_converting: n.is_converting,
                ..m
            })
            &&& n.files.len() == m.files.len()
            &&& j != i ==> n.files[j] == m.files[j]
            &&& g.end_time == Some(clock.millis)
            &&& result matches Ok(path) ==> g == (FileView {
                end_time: g.end_time,
                status: FileStatus::Done,
                progress: 100,
                error: None,
                output_path: Some(path),
                ..f
            })
            &&& result matches Err(why) ==> g == (FileView {
                end_time: g.end_time,
                status: FileStatus::Failed,
                progress: 0,
                error: Some(why),
                ..f
            })
            &&& n.history.len() > 0
            &&& entry.input_name == f.file_name
            &&& entry.source_ext == f.source_ext
            &&& queue::target_of(f) matches Some(t) ==> entry.target == t
            &&& entry.success <==> result is Ok
            &&& result matches Ok(path) ==> entry.output_display == path
            &&& entry.finished_at == clock.secs
            &&& !entry.favorite
            &&& over ==> !n.is_converting
            &&& !over ==> n.is_converting == m.is_converting
            &&& m.history.len() < 100 ==> n.history.drop_last() == m.history
            &&& m.history.len() == 100 ==> n.history.drop_last() == m.history.skip(1)
        }),
{
    reveal(update::next);
    lemma_place_of(m, i, m.files[i].id);
    let n = update::next(m, Event::ConversionFinished(m.files[i].id, result), clock);
    laws::lemma_count_none(n.files, FileStatus::Converting);
    if m.history.len() < 100 {
        assert(n.history.drop_last() =~= m.history);
    }
    if m.history.len() == 100 {
        assert(n.history.drop_last() =~= m.history.skip(1));
    }
}

/// A report on a file that is no longer queued leaves the files and the
/// history.
pub proof fn law_late_reports(
    m: ModelView,
    id: u64,
    result: Result<Seq<char>, Seq<char>>,
    clock: Clock,
)
    requires
        forall|k: int| 0 <= k < m.files.len() ==> (#[trigger] m.files[k]).id != id,
    ensures
        ({
            let n = update::next(m, Event::ConversionFinished(id, result), clock);
            n == (ModelView { is_converting: n.is_converting, ..m })
        }),
{
    reveal(update::next);
    queue_laws::law_place(m.files, id, 0);
}

// ---------------------------------------------------------------------------
// History, banner and drop zone
// ---------------------------------------------------------------------------

/// Clearing forgets the whole history; a star changes one entry and nothing
/// else of it.
pub proof fn law_history_changes(m: ModelView, idx: usize, j: int, clock: Clock)
    requires
        0 <= j < m.history.len(),
    ensures
        update::next(m, Event::ClearHistory, clock) == (ModelView { history: Seq::empty(), ..m }),
        ({
            let n = update::next(m, Event::ToggleHistoryFavorite(idx), clock);
            &&& n == (ModelView { history: n.history, ..m })
            &&& n.history.len() == m.history.len()
            &&& j != idx ==> n.history[j] == m.history[j]
            &&& j == idx ==> n.history[j] == (EntryView {
                favorite: !m.history[j].favorite,
                ..m.history[j]
            })
        }),
{
    reveal(update::next);
}

/// The banner shows what went wrong until it is dismissed; opening the output
/// folder clears it where that works.
pub proof fn law_banner(m: ModelView, p: Seq<char>, why: Seq<char>, clock: Clock)
    ensures
        update::next(m, Event::DismissWarning, clock) == (ModelView { warning: None, ..m }),
        update::next(m, Event::DialogError(why), clock) == (ModelView { warning: Some(why), ..m }),
        update::next(m, Event::PathNotOpened(p, why), clock) == (ModelView {
            warning: Some("Could not open "@ + p + ": "@ + why),
            ..m
        }),
        update::next(m, Event::OutputDirOpened(Some(why)), clock) == (ModelView {
            warning: Some("Could not open output folder: "@ + why),
            ..m
        }),
        update::next(m, Event::OutputDirOpened(None), clock) == (ModelView { warning: None, ..m }),
{
    reveal(update::next);
}

/// The drop zone is lit while files hover over it, and not after they are
/// dropped or leave.
pub proof fn law_hovering(m: ModelView, v: Seq<Seq<char>>, clock: Clock)
    ensures
        update::next(m, Event::FilesHovered, clock) == (ModelView { drag_hovered: true, ..m }),
        update::next(m, Event::FilesHoverLeft, clock) == (ModelView { drag_hovered: false, ..m }),
        update::next(m, Event::FilesDropped(v), clock) == (ModelView { drag_hovered: false, ..m }),
{
    reveal(update::next);
}

/// Messages that only ask for something change nothing.
pub proof fn law_asking_changes_nothing(m: ModelView, e: Event, clock: Clock)
    requires
        e is LaunchUrl || e is OpenFiles || e is OpenFolderAsInput || e is FilesChosen
            || e is ChooseOutputDir || e is ConvertAll || e is ConvertSelected || e is OpenPath
            || e is OpenOutputDir,
    ensures
        update::next(m, e, clock) == m,
{
    reveal(update::next);
}

} // verus!
