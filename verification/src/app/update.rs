//! What each message does to the model, and what it leaves to do.
use vstd::prelude::*;

use crate::app::batch;
use crate::app::history;
use crate::app::queue;
use crate::app::Action;
use crate::app::ActionView;
use crate::app::AppModel;
use crate::app::Clock;
use crate::app::ContextPage;
use crate::app::Effects;
use crate::app::EffectsView;
use crate::app::EntryView;
use crate::app::Event;
use crate::app::FileStatus;
use crate::app::FileView;
use crate::app::HistoryEntry;
use crate::app::Message;
use crate::app::ModelView;
use crate::app::QueuedFile;
use crate::config::Config;
use crate::config::ConfigView;
use crate::converters;
use crate::number;
use crate::text;

verus! {

// ---------------------------------------------------------------------------
// Keeping some files
// ---------------------------------------------------------------------------

/// Which files stay in the queue.
#[derive(Debug, Clone, Copy)]
pub enum Keep {
    /// All but those with this id.
    OtherThan(u64),
    /// Those being converted.
    Converting,
    /// Those that are not done.
    NotDone,
    /// Those that are not selected.
    Unselected,
    /// Those that are not selected, and those being converted.
    UnselectedOrConverting,
}

/// Whether a file stays.
pub open spec fn stays(rule: Keep, f: FileView) -> bool {
    match rule {
        Keep::OtherThan(id) => f.id != id,
        Keep::Converting => f.status == FileStatus::Converting,
        Keep::NotDone => f.status != FileStatus::Done,
        Keep::Unselected => !f.selected,
        Keep::UnselectedOrConverting => !(f.selected && f.status != FileStatus::Converting),
    }
}

/// The files that stay, in order.
pub open spec fn kept(rule: Keep, files: Seq<FileView>) -> Seq<FileView>
    decreases files.len(),
{
    if files.len() == 0 {
        Seq::empty()
    } else if stays(rule, files.last()) {
        kept(rule, files.drop_last()).push(files.last())
    } else {
        kept(rule, files.drop_last())
    }
}

fn does_stay(rule: Keep, f: &QueuedFile) -> (r: bool)
    ensures
        r == stays(rule, f.deep_view()),
{
    match rule {
        Keep::OtherThan(id) => f.id != id,
        Keep::Converting => f.status == FileStatus::Converting,
        Keep::NotDone => f.status != FileStatus::Done,
        Keep::Unselected => !f.selected,
        Keep::UnselectedOrConverting => !(f.selected && f.status != FileStatus::Converting),
    }
}

/// Removes the files that do not stay.
fn retain(files: &mut Vec<QueuedFile>, rule: Keep)
    ensures
        final(files).deep_view() == kept(rule, old(files).deep_view()),
{
    let ghost all = files.deep_view();
    let mut old_files: Vec<QueuedFile> = Vec::new();
    let mut left: Vec<QueuedFile> = Vec::new();
    old_files.append(files);
    assert(old_files.deep_view() =~= all);
    assert(left.deep_view() =~= kept(rule, all.take(0)));
    for f in it: old_files
        invariant
            it.seq() == old_files@,
            all == old_files.deep_view(),
            left.deep_view() == kept(rule, all.take(it.index() as int)),
    {
        let ghost k = it.index() as int;
        let ghost before = left.deep_view();
        proof {
            assert(all.take(k + 1).drop_last() =~= all.take(k));
            assert(all[k] == f.deep_view());
        }
        if does_stay(rule, &f) {
            left.push(f);
            assert(left.deep_view() =~= before.push(all[k]));
        }
    }
    assert(all.take(all.len() as int) =~= all);
    files.append(&mut left);
    assert(files.deep_view() =~= kept(rule, all));
}

// ---------------------------------------------------------------------------
// Changing files
// ---------------------------------------------------------------------------

/// A change made to a file wherever it applies.
#[derive(Debug, Clone, Copy)]
pub enum Change {
    Select,
    Deselect,
    FlipSelection,
    /// A failed file is ready again.
    Retry,
    /// A file being converted fails as cancelled, at this time.
    Cancel(u64),
}

/// A file that is ready again after a failure.
pub open spec fn retried(f: FileView) -> FileView {
    if f.status == FileStatus::Failed {
        FileView {
            status: FileStatus::Pending,
            progress: 0,
            error: None,
            start_time: None,
            end_time: None,
            ..f
        }
    } else {
        f
    }
}

/// A file after a change.
pub open spec fn changed(c: Change, f: FileView) -> FileView {
    match c {
        Change::Select => FileView { selected: true, ..f },
        Change::Deselect => FileView { selected: false, ..f },
        Change::FlipSelection => FileView { selected: !f.selected, ..f },
        Change::Retry => retried(f),
        Change::Cancel(now) => if f.status == FileStatus::Converting {
            FileView {
                status: FileStatus::Failed,
                progress: 0,
                error: Some("Conversion cancelled by user"@),
                end_time: Some(now),
                ..f
            }
        } else {
            f
        },
    }
}

/// All files after a change.
pub open spec fn all_changed(c: Change, files: Seq<FileView>) -> Seq<FileView> {
    files.map_values(|f: FileView| changed(c, f))
}

/// The files after a change of the one with an id.
pub open spec fn one_changed(c: Change, files: Seq<FileView>, id: u64) -> Seq<FileView> {
    match queue::place(files, id) {
        Some(i) => files.update(i, changed(c, files[i])),
        None => files,
    }
}

fn change(file: &mut QueuedFile, c: Change)
    ensures
        final(file).deep_view() == changed(c, old(file).deep_view()),
{
    match c {
        Change::Select => {
            file.selected = true;
        },
        Change::Deselect => {
            file.selected = false;
        },
        Change::FlipSelection => {
            file.selected = !file.selected;
        },
        Change::Retry => {
            if file.status == FileStatus::Failed {
                file.status = FileStatus::Pending;
                file.progress = 0;
                file.error = None;
                file.start_time = None;
                file.end_time = None;
            }
        },
        Change::Cancel(now) => {
            if file.status == FileStatus::Converting {
                file.status = FileStatus::Failed;
                file.progress = 0;
                file.error = Some("Conversion cancelled by user".to_owned());
                file.end_time = Some(now);
            }
        },
    }
}

fn change_all(files: &mut Vec<QueuedFile>, c: Change)
    ensures
        final(files).deep_view() == all_changed(c, old(files).deep_view()),
{
    let ghost all = files.deep_view();
    let n = files.len();
    let mut i: usize = 0;
    while i < n
        invariant
            i <= n,
            n == all.len(),
            files@.len() == n,
            forall|j: int| 0 <= j < i ==> (#[trigger] files@[j]).deep_view() == changed(c, all[j]),
            forall|j: int| i <= j < n ==> (#[trigger] files@[j]).deep_view() == all[j],
        decreases n - i,
    {
        change(&mut files[i], c);
        i = i + 1;
    }
    assert(files.deep_view() =~= all_changed(c, all));
}

// ---------------------------------------------------------------------------
// Targets
// ---------------------------------------------------------------------------

/// A failed file made ready by a new target.
pub open spec fn readied(f: FileView) -> FileView {
    if f.status == FileStatus::Failed {
        FileView { status: FileStatus::Pending, progress: 0, ..f }
    } else {
        f
    }
}

/// A file with a target picked, checked at once.
pub open spec fn retargeted(f: FileView, idx: usize) -> FileView {
    let picked = FileView { target_idx: Some(idx), error: None, ..f };
    readied(FileView { error: queue::complaint(picked), ..picked })
}

/// The model with a target picked for one file.
pub open spec fn with_target(m: ModelView, id: u64, idx: usize) -> ModelView {
    match queue::place(m.files, id) {
        Some(i) => if idx < m.files[i].targets.len() {
            ModelView { files: m.files.update(i, retargeted(m.files[i], idx)), ..m }
        } else {
            m
        },
        None => m,
    }
}

/// Whether a batch target is taken over by a file.
pub open spec fn accepts(f: FileView, target: Seq<char>) -> bool {
    f.status != FileStatus::Converting && converters::supported(f.source_ext, target)
        && text::position(f.targets, target) is Some
}

/// A file after a batch target was applied.
pub open spec fn overridden(f: FileView, target: Seq<char>) -> FileView {
    if accepts(f, target) {
        readied(FileView { target_idx: text::position(f.targets, target), error: None, ..f })
    } else {
        f
    }
}

/// How many files take a batch target over.
pub open spec fn accepted_count(files: Seq<FileView>, target: Seq<char>) -> nat
    decreases files.len(),
{
    if files.len() == 0 {
        0
    } else {
        accepted_count(files.drop_last(), target) + if accepts(files.last(), target) {
            1nat
        } else {
            0nat
        }
    }
}

/// How many files that are not being converted do not take it over.
pub open spec fn declined_count(files: Seq<FileView>, target: Seq<char>) -> nat
    decreases files.len(),
{
    if files.len() == 0 {
        0
    } else {
        declined_count(files.drop_last(), target) + if files.last().status
            != FileStatus::Converting && !accepts(files.last(), target) {
            1nat
        } else {
            0nat
        }
    }
}

/// The batch target picked, where it is still on offer.
pub open spec fn batch_target(m: ModelView) -> Option<Seq<char>> {
    match m.global_target_idx {
        Some(i) => if i < queue::offered(m.files).len() {
            Some(queue::offered(m.files)[i as int])
        } else {
            None
        },
        None => None,
    }
}

/// The model with the batch target applied to every file that takes it.
pub open spec fn with_batch_target(m: ModelView) -> ModelView {
    match batch_target(m) {
        Some(target) => {
            let applied = accepted_count(m.files, target);
            let skipped = declined_count(m.files, target);
            ModelView {
                files: m.files.map_values(|f: FileView| overridden(f, target)),
                warning: if skipped > 0 {
                    Some(
                        "Applied “."@ + target + "” to "@ + number::decimal(applied)
                            + " file(s); "@ + (number::decimal(skipped)
                            + " file(s) do not support that target and were left unchanged."@),
                    )
                } else {
                    None
                },
                ..m
            }
        },
        None => m,
    }
}

// ---------------------------------------------------------------------------
// A finished conversion
// ---------------------------------------------------------------------------

/// A file after its worker reported.
pub open spec fn concluded(
    f: FileView,
    result: Result<Seq<char>, Seq<char>>,
    now: u64,
) -> FileView {
    match result {
        Ok(path) => FileView {
            end_time: Some(now),
            status: FileStatus::Done,
            progress: 100,
            error: None,
            output_path: Some(path),
            ..f
        },
        Err(why) => FileView {
            end_time: Some(now),
            status: FileStatus::Failed,
            progress: 0,
            error: Some(why),
            ..f
        },
    }
}

/// The model after a worker reported, before the end of the batch is noticed.
pub open spec fn reported(
    m: ModelView,
    id: u64,
    result: Result<Seq<char>, Seq<char>>,
    clock: Clock,
) -> ModelView {
    match queue::place(m.files, id) {
        Some(i) => {
            let f = concluded(m.files[i], result, clock.millis);
            ModelView {
                files: m.files.update(i, f),
                history: history::recent(
                    m.history.push(history::record_of(f, result.ok(), clock.secs)),
                ),
                ..m
            }
        },
        None => m,
    }
}

/// Whether no file is being converted.
pub open spec fn all_settled(files: Seq<FileView>) -> bool {
    queue::count_status(files, FileStatus::Converting) == 0
}

// ---------------------------------------------------------------------------
// The whole
// ---------------------------------------------------------------------------

/// The position of the bitrate of some preferences.
pub open spec fn config_bitrate(kbps: u32) -> Option<usize> {
    batch::bitrate_index(
        if kbps == 0 {
            192
        } else {
            kbps
        },
    )
}

/// The number in a text field, 0 where there is none.
pub open spec fn field_number(field: Seq<char>) -> u32 {
    match number::unsigned_value(text::trim(field), u32::MAX as nat) {
        Some(n) => n as u32,
        None => 0,
    }
}

/// Whether a text field holds a JPEG quality.
pub open spec fn is_quality(field: Seq<char>) -> bool {
    match number::unsigned_value(text::trim(field), u32::MAX as nat) {
        Some(q) => 1 <= q <= 100,
        None => false,
    }
}

/// The model after a message.
#[verifier::opaque]
pub open spec fn next(m: ModelView, e: Event, clock: Clock) -> ModelView {
    match e {
        Event::ToggleContextPage(p) => if m.context_page == p {
            ModelView { show_context: !m.show_context, ..m }
        } else {
            ModelView { context_page: p, show_context: true, ..m }
        },
        Event::UpdateConfig(c) => ModelView {
            audio_bitrate_idx: config_bitrate(c.audio_bitrate_kbps),
            config: c,
            ..m
        },
        Event::OutputDirChosen(p) => ModelView {
            output_dir: p,
            config: ConfigView { output_dir: p, ..m.config },
            warning: None,
            ..m
        },
        Event::RemoveFile(id) => queue::settle(
            ModelView { files: kept(Keep::OtherThan(id), m.files), ..m },
        ),
        Event::ClearQueue => if m.is_converting {
            ModelView {
                files: kept(Keep::Converting, m.files),
                warning: Some(
                    "Conversions are still running — remaining files were kept until they finish."@,
                ),
                global_target_idx: None,
                ..m
            }
        } else {
            ModelView { files: Seq::empty(), global_target_idx: None, ..m }
        },
        Event::ClearFinished => ModelView { files: kept(Keep::NotDone, m.files), ..m },
        Event::SetFileTarget(id, idx) => with_target(m, id, idx),
        Event::SetGlobalTarget(idx) => ModelView { global_target_idx: Some(idx), ..m },
        Event::ApplyGlobalTarget => with_batch_target(m),
        Event::ToggleFileSelection(id) => ModelView {
            files: one_changed(Change::FlipSelection, m.files, id),
            ..m
        },
        Event::SelectAllFiles => ModelView { files: all_changed(Change::Select, m.files), ..m },
        Event::DeselectAllFiles => ModelView { files: all_changed(Change::Deselect, m.files), ..m },
        Event::RemoveSelectedFiles => queue::settle(
            if m.is_converting {
                ModelView {
                    files: all_changed(
                        Change::Deselect,
                        kept(Keep::UnselectedOrConverting, m.files),
                    ),
                    warning: Some(
                        "Converting files were kept; other selected files were removed."@,
                    ),
                    ..m
                }
            } else {
                ModelView {
                    files: all_changed(Change::Deselect, kept(Keep::Unselected, m.files)),
                    ..m
                }
            },
        ),
        Event::RetryFile(id) => ModelView {
            files: one_changed(Change::Retry, m.files, id),
            ..m
        },
        Event::RetryFailed => ModelView {
            files: all_changed(Change::Retry, m.files),
            warning: if queue::count_status(m.files, FileStatus::Failed) == 0 {
                Some("Nothing to retry — no failed conversions."@)
            } else {
                None
            },
            ..m
        },
        Event::MoveFileUp(id) => match queue::place(m.files, id) {
            Some(i) => if i > 0 {
                ModelView {
                    files: m.files.update(i, m.files[i - 1]).update(i - 1, m.files[i]),
                    ..m
                }
            } else {
                m
            },
            None => m,
        },
        Event::MoveFileDown(id) => match queue::place(m.files, id) {
            Some(i) => if i < m.files.len() - 1 {
                ModelView {
                    files: m.files.update(i, m.files[i + 1]).update(i + 1, m.files[i]),
                    ..m
                }
            } else {
                m
            },
            None => m,
        },
        Event::StopConversion => if m.is_converting {
            ModelView {
                is_converting: false,
                files: all_changed(Change::Cancel(clock.millis), m.files),
                warning: Some("Conversion stopped by user"@),
                ..m
            }
        } else {
            m
        },
        Event::ConversionFinished(id, result) => {
            let after = reported(m, id, result, clock);
            if all_settled(after.files) {
                ModelView { is_converting: false, ..after }
            } else {
                after
            }
        },
        Event::ClearHistory => ModelView { history: Seq::empty(), ..m },
        Event::ToggleHistoryFavorite(idx) => if idx < m.history.len() {
            ModelView {
                history: m.history.update(
                    idx as int,
                    EntryView {
                        favorite: !m.history[idx as int].favorite,
                        ..m.history[idx as int]
                    },
                ),
                ..m
            }
        } else {
            m
        },
        Event::QualityInput(s) => if is_quality(s) {
            ModelView {
                quality_text: s,
                config: ConfigView { jpeg_quality: field_number(s), ..m.config },
                ..m
            }
        } else {
            ModelView { quality_text: s, ..m }
        },
        Event::ResizeWInput(s) => ModelView {
            resize_w_text: s,
            config: ConfigView { resize_width: field_number(s), ..m.config },
            ..m
        },
        Event::ResizeHInput(s) => ModelView {
            resize_h_text: s,
            config: ConfigView { resize_height: field_number(s), ..m.config },
            ..m
        },
        Event::ToggleOverwrite(b) => ModelView {
            config: ConfigView { overwrite_existing: b, ..m.config },
            ..m
        },
        Event::ToggleGroupByKind(b) => ModelView {
            config: ConfigView { group_by_kind: b, ..m.config },
            ..m
        },
        Event::ToggleAutoOpen(b) => ModelView {
            config: ConfigView { auto_open_output: b, ..m.config },
            ..m
        },
        Event::SetAudioBitrate(idx) => match batch::bitrate_at(idx) {
            Some(b) => ModelView {
                audio_bitrate_idx: Some(idx),
                config: ConfigView { audio_bitrate_kbps: b, ..m.config },
                ..m
            },
            None => m,
        },
        Event::FilesHovered => ModelView { drag_hovered: true, ..m },
        Event::FilesHoverLeft => ModelView { drag_hovered: false, ..m },
        Event::FilesDropped(_) => ModelView { drag_hovered: false, ..m },
        Event::DismissWarning => ModelView { warning: None, ..m },
        Event::DialogError(s) => ModelView { warning: Some(s), ..m },
        Event::PathNotOpened(p, why) => ModelView {
            warning: Some("Could not open "@ + p + ": "@ + why),
            ..m
        },
        Event::OutputDirOpened(why) => ModelView {
            warning: match why {
                Some(s) => Some("Could not open output folder: "@ + s),
                None => None,
            },
            ..m
        },
        _ => m,
    }
}

/// The action that a message leaves to do.
pub open spec fn action_of(m: ModelView, e: Event, clock: Clock) -> ActionView {
    match e {
        Event::LaunchUrl(url) => ActionView::OpenUrl(url),
        Event::OpenFiles => ActionView::PickFiles,
        Event::OpenFolderAsInput => ActionView::PickFolder,
        Event::ChooseOutputDir => ActionView::PickOutputDir,
        Event::FilesChosen(v) => ActionView::AddPaths(v),
        Event::FilesDropped(v) => ActionView::AddPaths(v),
        Event::ConvertAll => if m.is_converting {
            ActionView::Nothing
        } else {
            ActionView::StartBatch(false)
        },
        Event::ConvertSelected => if m.is_converting {
            ActionView::Nothing
        } else {
            ActionView::StartBatch(true)
        },
        Event::ConversionFinished(id, result) => {
            let after = reported(m, id, result, clock);
            if all_settled(after.files) {
                batch::announcement(after)
            } else {
                ActionView::Nothing
            }
        },
        Event::OpenPath(p) => ActionView::OpenPath(p),
        Event::OpenOutputDir => ActionView::OpenOutputDir(m.output_dir),
        _ => ActionView::Nothing,
    }
}

/// Whether a message changes the preferences for good.
pub open spec fn saves_config(e: Event) -> bool {
    match e {
        Event::OutputDirChosen(_) => true,
        Event::QualityInput(s) => is_quality(s),
        Event::ResizeWInput(_) => true,
        Event::ResizeHInput(_) => true,
        Event::ToggleOverwrite(_) => true,
        Event::ToggleGroupByKind(_) => true,
        Event::ToggleAutoOpen(_) => true,
        Event::SetAudioBitrate(idx) => batch::bitrate_at(idx) is Some,
        _ => false,
    }
}

/// Whether a message changes the stored history.
pub open spec fn saves_history(m: ModelView, e: Event) -> bool {
    match e {
        Event::ConversionFinished(id, _) => queue::place(m.files, id) is Some,
        Event::ClearHistory => true,
        Event::ToggleHistoryFavorite(idx) => idx < m.history.len(),
        _ => false,
    }
}

/// What a message leaves to do.
#[verifier::opaque]
pub open spec fn effects_of(m: ModelView, e: Event, clock: Clock) -> EffectsView {
    EffectsView {
        save_config: saves_config(e),
        save_history: saves_history(m, e),
        action: action_of(m, e, clock),
    }
}

// ---------------------------------------------------------------------------
// Executable forms
// ---------------------------------------------------------------------------

fn nothing() -> (r: Effects)
    ensures
        r.deep_view() == (EffectsView {
            save_config: false,
            save_history: false,
            action: ActionView::Nothing,
        }),
{
    Effects { save_config: false, save_history: false, action: Action::Nothing }
}

fn act(action: Action) -> (r: Effects)
    ensures
        r.deep_view() == (EffectsView {
            save_config: false,
            save_history: false,
            action: action.deep_view(),
        }),
{
    Effects { save_config: false, save_history: false, action }
}

fn storing_config(save: bool) -> (r: Effects)
    ensures
        r.deep_view() == (EffectsView {
            save_config: save,
            save_history: false,
            action: ActionView::Nothing,
        }),
{
    Effects { save_config: save, save_history: false, action: Action::Nothing }
}

fn storing_history(save: bool) -> (r: Effects)
    ensures
        r.deep_view() == (EffectsView {
            save_config: false,
            save_history: save,
            action: ActionView::Nothing,
        }),
{
    Effects { save_config: false, save_history: save, action: Action::Nothing }
}

fn read_field(field: &str) -> (r: Option<u32>)
    ensures
        r is Some ==> field_number(field@) == r->0,
        r is None ==> field_number(field@) == 0,
        r is Some && 1 <= r->0 <= 100 <==> is_quality(field@),
{
    number::read_unsigned(text::trimmed(field), u32::MAX)
}

impl AppModel {
    fn change_one(&mut self, id: u64, c: Change)
        ensures
            final(self).deep_view() == (ModelView {
                files: one_changed(c, old(self).deep_view().files, id),
                ..old(self).deep_view()
            }),
    {
        let ghost m = self.deep_view();
        if let Some(i) = self.find_file(id) {
            change(&mut self.files[i], c);
            assert(self.files.deep_view() =~= m.files.update(
                i as int,
                changed(c, m.files[i as int]),
            ));
        }
    }

    fn set_file_target(&mut self, id: u64, idx: usize)
        ensures
            final(self).deep_view() == with_target(old(self).deep_view(), id, idx),
    {
        let ghost m = self.deep_view();
        if let Some(i) = self.find_file(id) {
            assert(m.files[i as int] == self.files@[i as int].deep_view());
            if idx < self.files[i].targets.len() {
                let file = &mut self.files[i];
                file.target_idx = Some(idx);
                file.error = None;
                let why = file.validation_error();
                file.error = why;
                if file.status == FileStatus::Failed {
                    file.status = FileStatus::Pending;
                    file.progress = 0;
                }
                assert(self.files.deep_view() =~= m.files.update(
                    i as int,
                    retargeted(m.files[i as int], idx),
                ));
            }
        }
    }

    fn apply_global_target(&mut self)
        ensures
            final(self).deep_view() == with_batch_target(old(self).deep_view()),
    {
        let ghost m = self.deep_view();
        let idx = match self.global_target_idx {
            Some(i) => i,
            None => {
                return;
            },
        };
        let on_offer = self.batch_targets();
        if idx >= on_offer.len() {
            return;
        }
        let target = on_offer[idx].clone();
        assert(on_offer.deep_view()[idx as int] == target@);
        let n = self.files.len();
        let mut applied: usize = 0;
        let mut skipped: usize = 0;
        let mut i: usize = 0;
        while i < n
            invariant
                i <= n,
                n == m.files.len(),
                self.files@.len() == n,
                self.deep_view() == (ModelView { files: self.files.deep_view(), ..m }),
                forall|j: int|
                    0 <= j < i ==> (#[trigger] self.files@[j]).deep_view() == overridden(
                        m.files[j],
                        target@,
                    ),
                forall|j: int|
                    i <= j < n ==> (#[trigger] self.files@[j]).deep_view() == m.files[j],
                applied + skipped <= i,
                applied == accepted_count(m.files.take(i as int), target@),
                skipped == declined_count(m.files.take(i as int), target@),
            decreases n - i,
        {
            proof {
                assert(m.files.take(i + 1).drop_last() =~= m.files.take(i as int));
                assert(self.files@[i as int].deep_view() == m.files[i as int]);
            }
            if self.files[i].status != FileStatus::Converting {
                let place = if converters::is_supported(
                    self.files[i].source_ext.as_str(),
                    target.as_str(),
                ) {
                    text::position_of(&self.files[i].targets, target.as_str())
                } else {
                    None
                };
                if place.is_some() {
                    let file = &mut self.files[i];
                    file.target_idx = place;
                    file.error = None;
                    if file.status == FileStatus::Failed {
                        file.status = FileStatus::Pending;
                        file.progress = 0;
                    }
                    applied = applied + 1;
                } else {
                    skipped = skipped + 1;
                }
            }
            i = i + 1;
        }
        assert(m.files.take(n as int) =~= m.files);
        assert(self.files.deep_view() =~= m.files.map_values(
            |f: FileView| overridden(f, target@),
        ));
        if skipped > 0 {
            let tail = text::cat(
                number::decimal_of(skipped as u64).as_str(),
                " file(s) do not support that target and were left unchanged.",
            );
            let mut head = text::cat5(
                "Applied “.",
                target.as_str(),
                "” to ",
                number::decimal_of(applied as u64).as_str(),
                " file(s); ",
            );
            head.append(tail.as_str());
            self.warning = Some(head);
        } else {
            self.warning = None;
        }
    }

    fn on_launch_url(&mut self, url: String, clock: Clock) -> (r: Effects)
        ensures
            final(self).deep_view() == next(old(self).deep_view(), Event::LaunchUrl(url@), clock),
            r.deep_view() == effects_of(old(self).deep_view(), Event::LaunchUrl(url@), clock),
    {
        proof {
            reveal(next);
            reveal(effects_of);
        }
        act(Action::OpenUrl(url))
    }

    fn on_toggle_context_page(&mut self, p: ContextPage, clock: Clock) -> (r: Effects)
        ensures
            final(self).deep_view() == next(
                old(self).deep_view(),
                Event::ToggleContextPage(p),
                clock,
            ),
            r.deep_view() == effects_of(old(self).deep_view(), Event::ToggleContextPage(p), clock),
    {
        proof {
            reveal(next);
            reveal(effects_of);
        }
        if self.context_page == p {
            self.show_context = !self.show_context;
        } else {
            self.context_page = p;
            self.show_context = true;
        }
        nothing()
    }

    fn on_update_config(&mut self, config: Config, clock: Clock) -> (r: Effects)
        ensures
            final(self).deep_view() == next(
                old(self).deep_view(),
                Event::UpdateConfig(config.deep_view()),
                clock,
            ),
            r.deep_view() == effects_of(
                old(self).deep_view(),
                Event::UpdateConfig(config.deep_view()),
                clock,
            ),
    {
        proof {
            reveal(next);
            reveal(effects_of);
        }
        let kbps = config.audio_bitrate_kbps;
        self.audio_bitrate_idx = batch::audio_bitrate_index(
            if kbps == 0 {
                192
            } else {
                kbps
            },
        );
        self.config = config;
        nothing()
    }

    fn on_open_files(&mut self, clock: Clock) -> (r: Effects)
        ensures
            final(self).deep_view() == next(old(self).deep_view(), Event::OpenFiles, clock),
            r.deep_view() == effects_of(old(self).deep_view(), Event::OpenFiles, clock),
    {
        proof {
            reveal(next);
            reveal(effects_of);
        }
        act(Action::PickFiles)
    }

    fn on_open_folder_as_input(&mut self, clock: Clock) -> (r: Effects)
        ensures
            final(self).deep_view() == next(old(self).deep_view(), Event::OpenFolderAsInput, clock),
            r.deep_view() == effects_of(old(self).deep_view(), Event::OpenFolderAsInput, clock),
    {
        proof {
            reveal(next);
            reveal(effects_of);
        }
        act(Action::PickFolder)
    }

    fn on_files_chosen(&mut self, paths: Vec<String>, clock: Clock) -> (r: Effects)
        ensures
            final(self).deep_view() == next(
                old(self).deep_view(),
                Event::FilesChosen(paths.deep_view()),
                clock,
            ),
            r.deep_view() == effects_of(
                old(self).deep_view(),
                Event::FilesChosen(paths.deep_view()),
                clock,
            ),
    {
        proof {
            reveal(next);
            reveal(effects_of);
        }
        act(Action::AddPaths(paths))
    }

    fn on_choose_output_dir(&mut self, clock: Clock) -> (r: Effects)
        ensures
            final(self).deep_view() == next(old(self).deep_view(), Event::ChooseOutputDir, clock),
            r.deep_view() == effects_of(old(self).deep_view(), Event::ChooseOutputDir, clock),
    {
        proof {
            reveal(next);
            reveal(effects_of);
        }
        act(Action::PickOutputDir)
    }

    fn on_output_dir_chosen(&mut self, path: String, clock: Clock) -> (r: Effects)
        ensures
            final(self).deep_view() == next(
                old(self).deep_view(),
                Event::OutputDirChosen(path@),
                clock,
            ),
            r.deep_view() == effects_of(
                old(self).deep_view(),
                Event::OutputDirChosen(path@),
                clock,
            ),
    {
        proof {
            reveal(next);
            reveal(effects_of);
        }
        self.output_dir = path.clone();
        self.config.output_dir = path;
        self.warning = None;
        storing_config(true)
    }

    fn on_remove_file(&mut self, id: u64, clock: Clock) -> (r: Effects)
        ensures
            final(self).deep_view() == next(old(self).deep_view(), Event::RemoveFile(id), clock),
            r.deep_view() == effects_of(old(self).deep_view(), Event::RemoveFile(id), clock),
    {
        proof {
            reveal(next);
            reveal(effects_of);
        }
        retain(&mut self.files, Keep::OtherThan(id));
        self.settle_target();
        nothing()
    }

    fn on_clear_queue(&mut self, clock: Clock) -> (r: Effects)
        ensures
            final(self).deep_view() == next(old(self).deep_view(), Event::ClearQueue, clock),
            r.deep_view() == effects_of(old(self).deep_view(), Event::ClearQueue, clock),
    {
        proof {
            reveal(next);
            reveal(effects_of);
        }
        if self.is_converting {
            retain(&mut self.files, Keep::Converting);
            self.warning = Some(
                "Conversions are still running — remaining files were kept until they finish.".to_owned(),
            );
        } else {
            self.files = Vec::new();
            assert(self.files.deep_view() =~= Seq::empty());
        }
        self.global_target_idx = None;
        nothing()
    }

    fn on_clear_finished(&mut self, clock: Clock) -> (r: Effects)
        ensures
            final(self).deep_view() == next(old(self).deep_view(), Event::ClearFinished, clock),
            r.deep_view() == effects_of(old(self).deep_view(), Event::ClearFinished, clock),
    {
        proof {
            reveal(next);
            reveal(effects_of);
        }
        retain(&mut self.files, Keep::NotDone);
        nothing()
    }

    fn on_set_file_target(&mut self, id: u64, idx: usize, clock: Clock) -> (r: Effects)
        ensures
            final(self).deep_view() == next(
                old(self).deep_view(),
                Event::SetFileTarget(id, idx),
                clock,
            ),
            r.deep_view() == effects_of(
                old(self).deep_view(),
                Event::SetFileTarget(id, idx),
                clock,
            ),
    {
        proof {
            reveal(next);
            reveal(effects_of);
        }
        self.set_file_target(id, idx);
        nothing()
    }

    fn on_set_global_target(&mut self, idx: usize, clock: Clock) -> (r: Effects)
        ensures
            final(self).deep_view() == next(
                old(self).deep_view(),
                Event::SetGlobalTarget(idx),
                clock,
            ),
            r.deep_view() == effects_of(old(self).deep_view(), Event::SetGlobalTarget(idx), clock),
    {
        proof {
            reveal(next);
            reveal(effects_of);
        }
        self.global_target_idx = Some(idx);
        nothing()
    }

    fn on_apply_global_target(&mut self, clock: Clock) -> (r: Effects)
        ensures
            final(self).deep_view() == next(old(self).deep_view(), Event::ApplyGlobalTarget, clock),
            r.deep_view() == effects_of(old(self).deep_view(), Event::ApplyGlobalTarget, clock),
    {
        proof {
            reveal(next);
            reveal(effects_of);
        }
        self.apply_global_target();
        nothing()
    }

    fn on_toggle_file_selection(&mut self, id: u64, clock: Clock) -> (r: Effects)
        ensures
            final(self).deep_view() == next(
                old(self).deep_view(),
                Event::ToggleFileSelection(id),
                clock,
            ),
            r.deep_view() == effects_of(
                old(self).deep_view(),
                Event::ToggleFileSelection(id),
                clock,
            ),
    {
        proof {
            reveal(next);
            reveal(effects_of);
        }
        self.change_one(id, Change::FlipSelection);
        nothing()
    }

    fn on_select_all_files(&mut self, clock: Clock) -> (r: Effects)
        ensures
            final(self).deep_view() == next(old(self).deep_view(), Event::SelectAllFiles, clock),
            r.deep_view() == effects_of(old(self).deep_view(), Event::SelectAllFiles, clock),
    {
        proof {
            reveal(next);
            reveal(effects_of);
        }
        change_all(&mut self.files, Change::Select);
        nothing()
    }

    fn on_deselect_all_files(&mut self, clock: Clock) -> (r: Effects)
        ensures
            final(self).deep_view() == next(old(self).deep_view(), Event::DeselectAllFiles, clock),
            r.deep_view() == effects_of(old(self).deep_view(), Event::DeselectAllFiles, clock),
    {
        proof {
            reveal(next);
            reveal(effects_of);
        }
        change_all(&mut self.files, Change::Deselect);
        nothing()
    }

    fn on_remove_selected_files(&mut self, clock: Clock) -> (r: Effects)
        ensures
            final(self).deep_view() == next(
                old(self).deep_view(),
                Event::RemoveSelectedFiles,
                clock,
            ),
            r.deep_view() == effects_of(old(self).deep_view(), Event::RemoveSelectedFiles, clock),
    {
        proof {
            reveal(next);
            reveal(effects_of);
        }
        if self.is_converting {
            retain(&mut self.files, Keep::UnselectedOrConverting);
            self.warning = Some(
                "Converting files were kept; other selected files were removed.".to_owned(),
            );
        } else {
            retain(&mut self.files, Keep::Unselected);
        }
        change_all(&mut self.files, Change::Deselect);
        self.settle_target();
        nothing()
    }

    fn on_retry_file(&mut self, id: u64, clock: Clock) -> (r: Effects)
        ensures
            final(self).deep_view() == next(old(self).deep_view(), Event::RetryFile(id), clock),
            r.deep_view() == effects_of(old(self).deep_view(), Event::RetryFile(id), clock),
    {
        proof {
            reveal(next);
            reveal(effects_of);
        }
        self.change_one(id, Change::Retry);
        nothing()
    }

    fn on_retry_failed(&mut self, clock: Clock) -> (r: Effects)
        ensures
            final(self).deep_view() == next(old(self).deep_view(), Event::RetryFailed, clock),
            r.deep_view() == effects_of(old(self).deep_view(), Event::RetryFailed, clock),
    {
        proof {
            reveal(next);
            reveal(effects_of);
        }
        let failed = self.count_of(FileStatus::Failed);
        change_all(&mut self.files, Change::Retry);
        if failed == 0 {
            self.warning = Some("Nothing to retry — no failed conversions.".to_owned());
        } else {
            self.warning = None;
        }
        nothing()
    }

    fn on_move_file_up(&mut self, id: u64, clock: Clock) -> (r: Effects)
        ensures
            final(self).deep_view() == next(old(self).deep_view(), Event::MoveFileUp(id), clock),
            r.deep_view() == effects_of(old(self).deep_view(), Event::MoveFileUp(id), clock),
    {
        proof {
            reveal(next);
            reveal(effects_of);
        }
        let ghost m = self.deep_view();
        if let Some(i) = self.find_file(id) {
            if i > 0 {
                let file = self.files.remove(i);
                self.files.insert(i - 1, file);
                assert(self.files.deep_view() =~= m.files.update(i as int, m.files[i - 1]).update(
                    i - 1,
                    m.files[i as int],
                ));
            }
        }
        nothing()
    }

    fn on_move_file_down(&mut self, id: u64, clock: Clock) -> (r: Effects)
        ensures
            final(self).deep_view() == next(old(self).deep_view(), Event::MoveFileDown(id), clock),
            r.deep_view() == effects_of(old(self).deep_view(), Event::MoveFileDown(id), clock),
    {
        proof {
            reveal(next);
            reveal(effects_of);
        }
        let ghost m = self.deep_view();
        if let Some(i) = self.find_file(id) {
            if i < self.files.len() - 1 {
                let file = self.files.remove(i);
                self.files.insert(i + 1, file);
                assert(self.files.deep_view() =~= m.files.update(i as int, m.files[i + 1]).update(
                    i + 1,
                    m.files[i as int],
                ));
            }
        }
        nothing()
    }

    fn on_convert_all(&mut self, clock: Clock) -> (r: Effects)
        ensures
            final(self).deep_view() == next(old(self).deep_view(), Event::ConvertAll, clock),
            r.deep_view() == effects_of(old(self).deep_view(), Event::ConvertAll, clock),
    {
        proof {
            reveal(next);
            reveal(effects_of);
        }
        if self.is_converting {
            nothing()
        } else {
            act(Action::StartBatch(false))
        }
    }

    fn on_convert_selected(&mut self, clock: Clock) -> (r: Effects)
        ensures
            final(self).deep_view() == next(old(self).deep_view(), Event::ConvertSelected, clock),
            r.deep_view() == effects_of(old(self).deep_view(), Event::ConvertSelected, clock),
    {
        proof {
            reveal(next);
            reveal(effects_of);
        }
        if self.is_converting {
            nothing()
        } else {
            act(Action::StartBatch(true))
        }
    }

    fn on_stop_conversion(&mut self, clock: Clock) -> (r: Effects)
        ensures
            final(self).deep_view() == next(old(self).deep_view(), Event::StopConversion, clock),
            r.deep_view() == effects_of(old(self).deep_view(), Event::StopConversion, clock),
    {
        proof {
            reveal(next);
            reveal(effects_of);
        }
        if self.is_converting {
            self.is_converting = false;
            change_all(&mut self.files, Change::Cancel(clock.millis));
            self.warning = Some("Conversion stopped by user".to_owned());
        }
        nothing()
    }

    fn on_conversion_finished(
        &mut self,
        id: u64,
        result: Result<String, String>,
        clock: Clock,
    ) -> (r: Effects)
        ensures
            final(self).deep_view() == next(
                old(self).deep_view(),
                Event::ConversionFinished(id, crate::app::reported(result)),
                clock,
            ),
            r.deep_view() == effects_of(
                old(self).deep_view(),
                Event::ConversionFinished(id, crate::app::reported(result)),
                clock,
            ),
    {
        proof {
            reveal(next);
            reveal(effects_of);
        }
        let ghost m = self.deep_view();
        let ghost res = crate::app::reported(result);
        let mut save = false;
        if let Some(i) = self.find_file(id) {
            assert(m.files[i as int] == self.files@[i as int].deep_view());
            let ghost done = concluded(m.files[i as int], res, clock.millis);
            let file = &mut self.files[i];
            file.end_time = Some(clock.millis);
            let entry = match result {
                Ok(path) => {
                    file.status = FileStatus::Done;
                    file.progress = 100;
                    file.error = None;
                    let entry_path = path.clone();
                    file.output_path = Some(path);
                    HistoryEntry::of(file, Some(entry_path.as_str()), clock.secs)
                },
                Err(err) => {
                    file.status = FileStatus::Failed;
                    file.progress = 0;
                    file.error = Some(err);
                    HistoryEntry::of(file, None, clock.secs)
                },
            };
            assert(self.files.deep_view() =~= m.files.update(i as int, done));
            assert(entry.deep_view() == history::record_of(done, res.ok(), clock.secs));
            self.record(entry);
            save = true;
        }
        assert(self.deep_view() == reported(m, id, res, clock));
        let action = if self.count_of(FileStatus::Converting) == 0 {
            let action = self.finish_batch();
            self.is_converting = false;
            action
        } else {
            Action::Nothing
        };
        Effects { save_config: false, save_history: save, action }
    }

    fn on_clear_history(&mut self, clock: Clock) -> (r: Effects)
        ensures
            final(self).deep_view() == next(old(self).deep_view(), Event::ClearHistory, clock),
            r.deep_view() == effects_of(old(self).deep_view(), Event::ClearHistory, clock),
    {
        proof {
            reveal(next);
            reveal(effects_of);
        }
        self.history = Vec::new();
        assert(self.history.deep_view() =~= Seq::empty());
        storing_history(true)
    }

    fn on_toggle_history_favorite(&mut self, idx: usize, clock: Clock) -> (r: Effects)
        ensures
            final(self).deep_view() == next(
                old(self).deep_view(),
                Event::ToggleHistoryFavorite(idx),
                clock,
            ),
            r.deep_view() == effects_of(
                old(self).deep_view(),
                Event::ToggleHistoryFavorite(idx),
                clock,
            ),
    {
        proof {
            reveal(next);
            reveal(effects_of);
        }
        let ghost m = self.deep_view();
        if idx < self.history.len() {
            assert(m.history[idx as int] == self.history@[idx as int].deep_view());
            let entry = &mut self.history[idx];
            entry.favorite = !entry.favorite;
            assert(self.history.deep_view() =~= m.history.update(
                idx as int,
                EntryView {
                    favorite: !m.history[idx as int].favorite,
                    ..m.history[idx as int]
                },
            ));
            storing_history(true)
        } else {
            storing_history(false)
        }
    }

    fn on_open_path(&mut self, path: String, clock: Clock) -> (r: Effects)
        ensures
            final(self).deep_view() == next(old(self).deep_view(), Event::OpenPath(path@), clock),
            r.deep_view() == effects_of(old(self).deep_view(), Event::OpenPath(path@), clock),
    {
        proof {
            reveal(next);
            reveal(effects_of);
        }
        act(Action::OpenPath(path))
    }

    fn on_quality_input(&mut self, value: String, clock: Clock) -> (r: Effects)
        ensures
            final(self).deep_view() == next(
                old(self).deep_view(),
                Event::QualityInput(value@),
                clock,
            ),
            r.deep_view() == effects_of(old(self).deep_view(), Event::QualityInput(value@), clock),
    {
        proof {
            reveal(next);
            reveal(effects_of);
        }
        let read = read_field(value.as_str());
        self.quality_text = value;
        match read {
            Some(q) => if 1 <= q && q <= 100 {
                self.config.jpeg_quality = q;
                storing_config(true)
            } else {
                storing_config(false)
            },
            None => storing_config(false),
        }
    }

    fn on_resize_w_input(&mut self, value: String, clock: Clock) -> (r: Effects)
        ensures
            final(self).deep_view() == next(
                old(self).deep_view(),
                Event::ResizeWInput(value@),
                clock,
            ),
            r.deep_view() == effects_of(old(self).deep_view(), Event::ResizeWInput(value@), clock),
    {
        proof {
            reveal(next);
            reveal(effects_of);
        }
        self.config.resize_width = match read_field(value.as_str()) {
            Some(n) => n,
            None => 0,
        };
        self.resize_w_text = value;
        storing_config(true)
    }

    fn on_resize_h_input(&mut self, value: String, clock: Clock) -> (r: Effects)
        ensures
            final(self).deep_view() == next(
                old(self).deep_view(),
                Event::ResizeHInput(value@),
                clock,
            ),
            r.deep_view() == effects_of(old(self).deep_view(), Event::ResizeHInput(value@), clock),
    {
        proof {
            reveal(next);
            reveal(effects_of);
        }
        self.config.resize_height = match read_field(value.as_str()) {
            Some(n) => n,
            None => 0,
        };
        self.resize_h_text = value;
        storing_config(true)
    }

    fn on_toggle_overwrite(&mut self, enabled: bool, clock: Clock) -> (r: Effects)
        ensures
            final(self).deep_view() == next(
                old(self).deep_view(),
                Event::ToggleOverwrite(enabled),
                clock,
            ),
            r.deep_view() == effects_of(
                old(self).deep_view(),
                Event::ToggleOverwrite(enabled),
                clock,
            ),
    {
        proof {
            reveal(next);
            reveal(effects_of);
        }
        self.config.overwrite_existing = enabled;
        storing_config(true)
    }

    fn on_toggle_group_by_kind(&mut self, enabled: bool, clock: Clock) -> (r: Effects)
        ensures
            final(self).deep_view() == next(
                old(self).deep_view(),
                Event::ToggleGroupByKind(enabled),
                clock,
            ),
            r.deep_view() == effects_of(
                old(self).deep_view(),
                Event::ToggleGroupByKind(enabled),
                clock,
            ),
    {
        proof {
            reveal(next);
            reveal(effects_of);
        }
        self.config.group_by_kind = enabled;
        storing_config(true)
    }

    fn on_toggle_auto_open(&mut self, enabled: bool, clock: Clock) -> (r: Effects)
        ensures
            final(self).deep_view() == next(
                old(self).deep_view(),
                Event::ToggleAutoOpen(enabled),
                clock,
            ),
            r.deep_view() == effects_of(
                old(self).deep_view(),
                Event::ToggleAutoOpen(enabled),
                clock,
            ),
    {
        proof {
            reveal(next);
            reveal(effects_of);
        }
        self.config.auto_open_output = enabled;
        storing_config(true)
    }

    fn on_set_audio_bitrate(&mut self, idx: usize, clock: Clock) -> (r: Effects)
        ensures
            final(self).deep_view() == next(
                old(self).deep_view(),
                Event::SetAudioBitrate(idx),
                clock,
            ),
            r.deep_view() == effects_of(old(self).deep_view(), Event::SetAudioBitrate(idx), clock),
    {
        proof {
            reveal(next);
            reveal(effects_of);
        }
        match batch::audio_bitrate(idx) {
            Some(bitrate) => {
                self.audio_bitrate_idx = Some(idx);
                self.config.audio_bitrate_kbps = bitrate;
                storing_config(true)
            },
            None => storing_config(false),
        }
    }

    fn on_files_hovered(&mut self, clock: Clock) -> (r: Effects)
        ensures
            final(self).deep_view() == next(old(self).deep_view(), Event::FilesHovered, clock),
            r.deep_view() == effects_of(old(self).deep_view(), Event::FilesHovered, clock),
    {
        proof {
            reveal(next);
            reveal(effects_of);
        }
        self.drag_hovered = true;
        nothing()
    }

    fn on_files_hover_left(&mut self, clock: Clock) -> (r: Effects)
        ensures
            final(self).deep_view() == next(old(self).deep_view(), Event::FilesHoverLeft, clock),
            r.deep_view() == effects_of(old(self).deep_view(), Event::FilesHoverLeft, clock),
    {
        proof {
            reveal(next);
            reveal(effects_of);
        }
        self.drag_hovered = false;
        nothing()
    }

    fn on_files_dropped(&mut self, paths: Vec<String>, clock: Clock) -> (r: Effects)
        ensures
            final(self).deep_view() == next(
                old(self).deep_view(),
                Event::FilesDropped(paths.deep_view()),
                clock,
            ),
            r.deep_view() == effects_of(
                old(self).deep_view(),
                Event::FilesDropped(paths.deep_view()),
                clock,
            ),
    {
        proof {
            reveal(next);
            reveal(effects_of);
        }
        self.drag_hovered = false;
        act(Action::AddPaths(paths))
    }

    fn on_dismiss_warning(&mut self, clock: Clock) -> (r: Effects)
        ensures
            final(self).deep_view() == next(old(self).deep_view(), Event::DismissWarning, clock),
            r.deep_view() == effects_of(old(self).deep_view(), Event::DismissWarning, clock),
    {
        proof {
            reveal(next);
            reveal(effects_of);
        }
        self.warning = None;
        nothing()
    }

    fn on_open_output_dir(&mut self, clock: Clock) -> (r: Effects)
        ensures
            final(self).deep_view() == next(old(self).deep_view(), Event::OpenOutputDir, clock),
            r.deep_view() == effects_of(old(self).deep_view(), Event::OpenOutputDir, clock),
    {
        proof {
            reveal(next);
            reveal(effects_of);
        }
        act(Action::OpenOutputDir(self.output_dir.clone()))
    }

    fn on_dialog_error(&mut self, why: String, clock: Clock) -> (r: Effects)
        ensures
            final(self).deep_view() == next(old(self).deep_view(), Event::DialogError(why@), clock),
            r.deep_view() == effects_of(old(self).deep_view(), Event::DialogError(why@), clock),
    {
        proof {
            reveal(next);
            reveal(effects_of);
        }
        self.warning = Some(why);
        nothing()
    }

    fn on_path_not_opened(&mut self, path: String, why: String, clock: Clock) -> (r: Effects)
        ensures
            final(self).deep_view() == next(
                old(self).deep_view(),
                Event::PathNotOpened(path@, why@),
                clock,
            ),
            r.deep_view() == effects_of(
                old(self).deep_view(),
                Event::PathNotOpened(path@, why@),
                clock,
            ),
    {
        proof {
            reveal(next);
            reveal(effects_of);
        }
        self.warning = Some(
            text::cat4("Could not open ", path.as_str(), ": ", why.as_str()),
        );
        nothing()
    }

    fn on_output_dir_opened(&mut self, why: Option<String>, clock: Clock) -> (r: Effects)
        ensures
            final(self).deep_view() == next(
                old(self).deep_view(),
                Event::OutputDirOpened(why.deep_view()),
                clock,
            ),
            r.deep_view() == effects_of(
                old(self).deep_view(),
                Event::OutputDirOpened(why.deep_view()),
                clock,
            ),
    {
        proof {
            reveal(next);
            reveal(effects_of);
        }
        self.warning = match why {
            Some(s) => Some(text::cat("Could not open output folder: ", s.as_str())),
            None => None,
        };
        nothing()
    }

    /// Handles a message: changes the model, and says what is left to do.
    pub fn update(&mut self, message: Message, clock: Clock) -> (r: Effects)
        ensures
            final(self).deep_view() == next(old(self).deep_view(), message.deep_view(), clock),
            r.deep_view() == effects_of(old(self).deep_view(), message.deep_view(), clock),
    {
        match message {
            Message::LaunchUrl(url) => self.on_launch_url(url, clock),
            Message::ToggleContextPage(p) => self.on_toggle_context_page(p, clock),
            Message::UpdateConfig(config) => self.on_update_config(config, clock),
            Message::OpenFiles => self.on_open_files(clock),
            Message::OpenFolderAsInput => self.on_open_folder_as_input(clock),
            Message::FilesChosen(paths) => self.on_files_chosen(paths, clock),
            Message::ChooseOutputDir => self.on_choose_output_dir(clock),
            Message::OutputDirChosen(path) => self.on_output_dir_chosen(path, clock),
            Message::RemoveFile(id) => self.on_remove_file(id, clock),
            Message::ClearQueue => self.on_clear_queue(clock),
            Message::ClearFinished => self.on_clear_finished(clock),
            Message::SetFileTarget(id, idx) => self.on_set_file_target(id, idx, clock),
            Message::SetGlobalTarget(idx) => self.on_set_global_target(idx, clock),
            Message::ApplyGlobalTarget => self.on_apply_global_target(clock),
            Message::ToggleFileSelection(id) => self.on_toggle_file_selection(id, clock),
            Message::SelectAllFiles => self.on_select_all_files(clock),
            Message::DeselectAllFiles => self.on_deselect_all_files(clock),
            Message::RemoveSelectedFiles => self.on_remove_selected_files(clock),
            Message::RetryFile(id) => self.on_retry_file(id, clock),
            Message::RetryFailed => self.on_retry_failed(clock),
            Message::MoveFileUp(id) => self.on_move_file_up(id, clock),
            Message::MoveFileDown(id) => self.on_move_file_down(id, clock),
            Message::ConvertAll => self.on_convert_all(clock),
            Message::ConvertSelected => self.on_convert_selected(clock),
            Message::StopConversion => self.on_stop_conversion(clock),
            Message::ConversionFinished(id, result) => self.on_conversion_finished(id, result, clock),
            Message::ClearHistory => self.on_clear_history(clock),
            Message::ToggleHistoryFavorite(idx) => self.on_toggle_history_favorite(idx, clock),
            Message::OpenPath(path) => self.on_open_path(path, clock),
            Message::QualityInput(value) => self.on_quality_input(value, clock),
            Message::ResizeWInput(value) => self.on_resize_w_input(value, clock),
            Message::ResizeHInput(value) => self.on_resize_h_input(value, clock),
            Message::ToggleOverwrite(enabled) => self.on_toggle_overwrite(enabled, clock),
            Message::ToggleGroupByKind(enabled) => self.on_toggle_group_by_kind(enabled, clock),
            Message::ToggleAutoOpen(enabled) => self.on_toggle_auto_open(enabled, clock),
            Message::SetAudioBitrate(idx) => self.on_set_audio_bitrate(idx, clock),
            Message::FilesHovered => self.on_files_hovered(clock),
            Message::FilesHoverLeft => self.on_files_hover_left(clock),
            Message::FilesDropped(paths) => self.on_files_dropped(paths, clock),
            Message::DismissWarning => self.on_dismiss_warning(clock),
            Message::OpenOutputDir => self.on_open_output_dir(clock),
            Message::DialogError(why) => self.on_dialog_error(why, clock),
            Message::PathNotOpened(path, why) => self.on_path_not_opened(path, why, clock),
            Message::OutputDirOpened(why) => self.on_output_dir_opened(why, clock),
        }
    }
}

} // verus!
