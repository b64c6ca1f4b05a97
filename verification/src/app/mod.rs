//! The application model: the queue, the settings fields, the history, and
//! what each message does to them.
//!
//! - [`AppModel`] holds all the state; [`update`] says how a [`Message`]
//!   changes it and what the surrounding program is to do.
//! - [`queue`] fills the queue, [`batch`] runs it, [`history`] records it.
//! - [`views`] says what the windows show.
use vstd::prelude::*;

use crate::config::Config;
use crate::config::ConfigView;
use crate::converters::FileKind;

pub mod batch;
pub mod batch_laws;
pub mod event_laws;
pub mod history;
pub mod input;
pub mod laws;
pub mod queue;
pub mod queue_laws;
pub mod start;
pub mod update;
pub mod view_laws;
pub mod views;

verus! {

// ---------------------------------------------------------------------------
// Queue model
// ---------------------------------------------------------------------------

/// Per-file conversion status shown in queue cards.
#[derive(Debug, Clone, Copy, PartialEq, Eq, Structural)]
pub enum FileStatus {
    Pending,
    Converting,
    Done,
    Failed,
}

impl Default for FileStatus {
    fn default() -> (r: Self)
        ensures
            r == FileStatus::Pending,
    {
        FileStatus::Pending
    }
}

/// One file in the processing queue.
#[derive(Debug)]
pub struct QueuedFile {
    /// Stable row id, never reused within a session.
    pub id: u64,
    pub path: String,
    pub file_name: String,
    pub size: u64,
    pub source_ext: String,
    pub mime: String,
    pub kind: FileKind,
    /// Valid target extensions for this source, in display order.
    pub targets: Vec<String>,
    /// Index into `targets`, if one was picked.
    pub target_idx: Option<usize>,
    pub status: FileStatus,
    /// In percent: 0 pending, 50 converting, 100 done.
    pub progress: u8,
    pub error: Option<String>,
    pub output_path: Option<String>,
    /// Whether this file is selected for batch operations.
    pub selected: bool,
    /// When its conversion started, in milliseconds.
    pub start_time: Option<u64>,
    /// When its conversion finished, in milliseconds.
    pub end_time: Option<u64>,
    /// One-line preview; empty when unavailable.
    pub preview: String,
}

/// What a [`QueuedFile`] holds.
#[verifier::ext_equal]
pub struct FileView {
    pub id: u64,
    pub path: Seq<char>,
    pub file_name: Seq<char>,
    pub size: u64,
    pub source_ext: Seq<char>,
    pub mime: Seq<char>,
    pub kind: FileKind,
    pub targets: Seq<Seq<char>>,
    pub target_idx: Option<usize>,
    pub status: FileStatus,
    pub progress: u8,
    pub error: Option<Seq<char>>,
    pub output_path: Option<Seq<char>>,
    pub selected: bool,
    pub start_time: Option<u64>,
    pub end_time: Option<u64>,
    pub preview: Seq<char>,
}

impl DeepView for QueuedFile {
    type V = FileView;

    open spec fn deep_view(&self) -> FileView {
        FileView {
            id: self.id,
            path: self.path@,
            file_name: self.file_name@,
            size: self.size,
            source_ext: self.source_ext@,
            mime: self.mime@,
            kind: self.kind,
            targets: self.targets.deep_view(),
            target_idx: self.target_idx,
            status: self.status,
            progress: self.progress,
            error: self.error.deep_view(),
            output_path: self.output_path.deep_view(),
            selected: self.selected,
            start_time: self.start_time,
            end_time: self.end_time,
            preview: self.preview@,
        }
    }
}

/// One finished conversion, kept for the History tab.
#[derive(Debug)]
pub struct HistoryEntry {
    pub input_name: String,
    pub source_ext: String,
    pub target: String,
    pub output_display: String,
    pub success: bool,
    /// Unix seconds, for display only.
    pub finished_at: u64,
    pub favorite: bool,
}

/// What a [`HistoryEntry`] holds.
#[verifier::ext_equal]
pub struct EntryView {
    pub input_name: Seq<char>,
    pub source_ext: Seq<char>,
    pub target: Seq<char>,
    pub output_display: Seq<char>,
    pub success: bool,
    pub finished_at: u64,
    pub favorite: bool,
}

impl DeepView for HistoryEntry {
    type V = EntryView;

    open spec fn deep_view(&self) -> EntryView {
        EntryView {
            input_name: self.input_name@,
            source_ext: self.source_ext@,
            target: self.target@,
            output_display: self.output_display@,
            success: self.success,
            finished_at: self.finished_at,
            favorite: self.favorite,
        }
    }
}

// ---------------------------------------------------------------------------
// Application model
// ---------------------------------------------------------------------------

/// The page to display in the application.
#[derive(Debug, Clone, Copy, PartialEq, Eq, Structural)]
pub enum Page {
    All,
    Data,
    Images,
    Media,
    Documents,
    History,
}

/// The context page to display in the context drawer.
#[derive(Debug, Clone, Copy, PartialEq, Eq, Structural)]
pub enum ContextPage {
    About,
    Settings,
}

impl Default for ContextPage {
    fn default() -> (r: Self)
        ensures
            r == ContextPage::About,
    {
        ContextPage::About
    }
}

/// Entries of the menu bar.
#[derive(Debug, Clone, Copy, PartialEq, Eq, Structural)]
pub enum MenuAction {
    About,
    Settings,
    OpenFiles,
    SelectAll,
    DeselectAll,
    RetryFailed,
}

/// All the state that describes the interface and drives its logic.
#[derive(Debug)]
pub struct AppModel {
    /// The page that the context drawer shows.
    pub context_page: ContextPage,
    /// Whether the context drawer is open.
    pub show_context: bool,
    /// The active tab.
    pub page: Page,
    /// Preferences that persist between runs.
    pub config: Config,
    /// All queued files; the active tab only filters this list.
    pub files: Vec<QueuedFile>,
    /// Monotonic id source for queue rows.
    pub next_id: u64,
    /// Destination folder for converted files.
    pub output_dir: String,
    /// Batch target picked in the footer (`None` = no override).
    pub global_target_idx: Option<usize>,
    /// Whether a batch conversion is running.
    pub is_converting: bool,
    /// JPEG quality text field.
    pub quality_text: String,
    /// Resize text fields (empty = keep original).
    pub resize_w_text: String,
    pub resize_h_text: String,
    /// Non-modal warning banner.
    pub warning: Option<String>,
    /// Drag-hover highlight for the drop zone.
    pub drag_hovered: bool,
    /// First line of the media backend's version, or the install hint.
    pub ffmpeg_info: String,
    /// Finished conversions, newest last.
    pub history: Vec<HistoryEntry>,
    /// Audio bitrate selection (`None` = use the preference).
    pub audio_bitrate_idx: Option<usize>,
}

/// What an [`AppModel`] holds.
#[verifier::ext_equal]
pub struct ModelView {
    pub context_page: ContextPage,
    pub show_context: bool,
    pub page: Page,
    pub config: ConfigView,
    pub files: Seq<FileView>,
    pub next_id: u64,
    pub output_dir: Seq<char>,
    pub global_target_idx: Option<usize>,
    pub is_converting: bool,
    pub quality_text: Seq<char>,
    pub resize_w_text: Seq<char>,
    pub resize_h_text: Seq<char>,
    pub warning: Option<Seq<char>>,
    pub drag_hovered: bool,
    pub ffmpeg_info: Seq<char>,
    pub history: Seq<EntryView>,
    pub audio_bitrate_idx: Option<usize>,
}

impl DeepView for AppModel {
    type V = ModelView;

    open spec fn deep_view(&self) -> ModelView {
        ModelView {
            context_page: self.context_page,
            show_context: self.show_context,
            page: self.page,
            config: self.config.deep_view(),
            files: self.files.deep_view(),
            next_id: self.next_id,
            output_dir: self.output_dir@,
            global_target_idx: self.global_target_idx,
            is_converting: self.is_converting,
            quality_text: self.quality_text@,
            resize_w_text: self.resize_w_text@,
            resize_h_text: self.resize_h_text@,
            warning: self.warning.deep_view(),
            drag_hovered: self.drag_hovered,
            ffmpeg_info: self.ffmpeg_info@,
            history: self.history.deep_view(),
            audio_bitrate_idx: self.audio_bitrate_idx,
        }
    }
}

// ---------------------------------------------------------------------------
// Messages and what follows from them
// ---------------------------------------------------------------------------

/// Messages emitted by the application and its widgets.
#[derive(Debug)]
pub enum Message {
    LaunchUrl(String),
    ToggleContextPage(ContextPage),
    UpdateConfig(Config),
    // Queue management
    OpenFiles,
    OpenFolderAsInput,
    FilesChosen(Vec<String>),
    ChooseOutputDir,
    OutputDirChosen(String),
    RemoveFile(u64),
    ClearQueue,
    ClearFinished,
    SetFileTarget(u64, usize),
    SetGlobalTarget(usize),
    ApplyGlobalTarget,
    ToggleFileSelection(u64),
    SelectAllFiles,
    DeselectAllFiles,
    RemoveSelectedFiles,
    RetryFile(u64),
    RetryFailed,
    MoveFileUp(u64),
    MoveFileDown(u64),
    // Conversion
    ConvertAll,
    ConvertSelected,
    StopConversion,
    ConversionFinished(u64, Result<String, String>),
    // History
    ClearHistory,
    ToggleHistoryFavorite(usize),
    OpenPath(String),
    // Settings fields
    QualityInput(String),
    ResizeWInput(String),
    ResizeHInput(String),
    ToggleOverwrite(bool),
    ToggleGroupByKind(bool),
    ToggleAutoOpen(bool),
    SetAudioBitrate(usize),
    // Drag & drop
    FilesHovered,
    FilesHoverLeft,
    FilesDropped(Vec<String>),
    // Misc
    DismissWarning,
    OpenOutputDir,
    DialogError(String),
    /// A path could not be opened: the path, and why.
    PathNotOpened(String, String),
    /// The output folder was opened, or why it was not.
    OutputDirOpened(Option<String>),
}

/// What a [`Message`] says.
#[verifier::ext_equal]
pub enum Event {
    LaunchUrl(Seq<char>),
    ToggleContextPage(ContextPage),
    UpdateConfig(ConfigView),
    OpenFiles,
    OpenFolderAsInput,
    FilesChosen(Seq<Seq<char>>),
    ChooseOutputDir,
    OutputDirChosen(Seq<char>),
    RemoveFile(u64),
    ClearQueue,
    ClearFinished,
    SetFileTarget(u64, usize),
    SetGlobalTarget(usize),
    ApplyGlobalTarget,
    ToggleFileSelection(u64),
    SelectAllFiles,
    DeselectAllFiles,
    RemoveSelectedFiles,
    RetryFile(u64),
    RetryFailed,
    MoveFileUp(u64),
    MoveFileDown(u64),
    ConvertAll,
    ConvertSelected,
    StopConversion,
    ConversionFinished(u64, Result<Seq<char>, Seq<char>>),
    ClearHistory,
    ToggleHistoryFavorite(usize),
    OpenPath(Seq<char>),
    QualityInput(Seq<char>),
    ResizeWInput(Seq<char>),
    ResizeHInput(Seq<char>),
    ToggleOverwrite(bool),
    ToggleGroupByKind(bool),
    ToggleAutoOpen(bool),
    SetAudioBitrate(usize),
    FilesHovered,
    FilesHoverLeft,
    FilesDropped(Seq<Seq<char>>),
    DismissWarning,
    OpenOutputDir,
    DialogError(Seq<char>),
    PathNotOpened(Seq<char>, Seq<char>),
    OutputDirOpened(Option<Seq<char>>),
}

/// What a finished worker reports.
pub open spec fn reported(r: Result<String, String>) -> Result<Seq<char>, Seq<char>> {
    match r {
        Ok(path) => Ok(path@),
        Err(why) => Err(why@),
    }
}

impl DeepView for Message {
    type V = Event;

    open spec fn deep_view(&self) -> Event {
        match self {
            Message::LaunchUrl(url) => Event::LaunchUrl(url@),
            Message::ToggleContextPage(p) => Event::ToggleContextPage(*p),
            Message::UpdateConfig(c) => Event::UpdateConfig(c.deep_view()),
            Message::OpenFiles => Event::OpenFiles,
            Message::OpenFolderAsInput => Event::OpenFolderAsInput,
            Message::FilesChosen(v) => Event::FilesChosen(v.deep_view()),
            Message::ChooseOutputDir => Event::ChooseOutputDir,
            Message::OutputDirChosen(p) => Event::OutputDirChosen(p@),
            Message::RemoveFile(id) => Event::RemoveFile(*id),
            Message::ClearQueue => Event::ClearQueue,
            Message::ClearFinished => Event::ClearFinished,
            Message::SetFileTarget(id, idx) => Event::SetFileTarget(*id, *idx),
            Message::SetGlobalTarget(idx) => Event::SetGlobalTarget(*idx),
            Message::ApplyGlobalTarget => Event::ApplyGlobalTarget,
            Message::ToggleFileSelection(id) => Event::ToggleFileSelection(*id),
            Message::SelectAllFiles => Event::SelectAllFiles,
            Message::DeselectAllFiles => Event::DeselectAllFiles,
            Message::RemoveSelectedFiles => Event::RemoveSelectedFiles,
            Message::RetryFile(id) => Event::RetryFile(*id),
            Message::RetryFailed => Event::RetryFailed,
            Message::MoveFileUp(id) => Event::MoveFileUp(*id),
            Message::MoveFileDown(id) => Event::MoveFileDown(*id),
            Message::ConvertAll => Event::ConvertAll,
            Message::ConvertSelected => Event::ConvertSelected,
            Message::StopConversion => Event::StopConversion,
            Message::ConversionFinished(id, r) => Event::ConversionFinished(*id, reported(*r)),
            Message::ClearHistory => Event::ClearHistory,
            Message::ToggleHistoryFavorite(idx) => Event::ToggleHistoryFavorite(*idx),
            Message::OpenPath(p) => Event::OpenPath(p@),
            Message::QualityInput(s) => Event::QualityInput(s@),
            Message::ResizeWInput(s) => Event::ResizeWInput(s@),
            Message::ResizeHInput(s) => Event::ResizeHInput(s@),
            Message::ToggleOverwrite(b) => Event::ToggleOverwrite(*b),
            Message::ToggleGroupByKind(b) => Event::ToggleGroupByKind(*b),
            Message::ToggleAutoOpen(b) => Event::ToggleAutoOpen(*b),
            Message::SetAudioBitrate(idx) => Event::SetAudioBitrate(*idx),
            Message::FilesHovered => Event::FilesHovered,
            Message::FilesHoverLeft => Event::FilesHoverLeft,
            Message::FilesDropped(v) => Event::FilesDropped(v.deep_view()),
            Message::DismissWarning => Event::DismissWarning,
            Message::OpenOutputDir => Event::OpenOutputDir,
            Message::DialogError(s) => Event::DialogError(s@),
            Message::PathNotOpened(p, why) => Event::PathNotOpened(p@, why@),
            Message::OutputDirOpened(why) => Event::OutputDirOpened(why.deep_view()),
        }
    }
}

/// Work that a message leaves to the surrounding program.
#[derive(Debug)]
pub enum Action {
    Nothing,
    /// Open an address in the browser.
    OpenUrl(String),
    /// Show the picker for input files.
    PickFiles,
    /// Show the picker for an input folder.
    PickFolder,
    /// Show the picker for the output folder.
    PickOutputDir,
    /// Look at these paths and add them to the queue.
    AddPaths(Vec<String>),
    /// Make the output folder and start a batch, of the selected files only
    /// or of all.
    StartBatch(bool),
    /// Open a path with its program.
    OpenPath(String),
    /// Make this folder and open it.
    OpenOutputDir(String),
    /// Announce the end of a batch; open this folder if there is one.
    Announce(String, Option<String>),
}

/// What an [`Action`] says.
#[verifier::ext_equal]
pub enum ActionView {
    Nothing,
    OpenUrl(Seq<char>),
    PickFiles,
    PickFolder,
    PickOutputDir,
    AddPaths(Seq<Seq<char>>),
    StartBatch(bool),
    OpenPath(Seq<char>),
    OpenOutputDir(Seq<char>),
    Announce(Seq<char>, Option<Seq<char>>),
}

impl DeepView for Action {
    type V = ActionView;

    open spec fn deep_view(&self) -> ActionView {
        match self {
            Action::Nothing => ActionView::Nothing,
            Action::OpenUrl(url) => ActionView::OpenUrl(url@),
            Action::PickFiles => ActionView::PickFiles,
            Action::PickFolder => ActionView::PickFolder,
            Action::PickOutputDir => ActionView::PickOutputDir,
            Action::AddPaths(v) => ActionView::AddPaths(v.deep_view()),
            Action::StartBatch(selected) => ActionView::StartBatch(*selected),
            Action::OpenPath(p) => ActionView::OpenPath(p@),
            Action::OpenOutputDir(p) => ActionView::OpenOutputDir(p@),
            Action::Announce(s, dir) => ActionView::Announce(s@, dir.deep_view()),
        }
    }
}

/// What a message leaves to do: what to store, and one action.
#[derive(Debug)]
pub struct Effects {
    pub save_config: bool,
    pub save_history: bool,
    pub action: Action,
}

/// What an [`Effects`] says.
#[verifier::ext_equal]
pub struct EffectsView {
    pub save_config: bool,
    pub save_history: bool,
    pub action: ActionView,
}

impl DeepView for Effects {
    type V = EffectsView;

    open spec fn deep_view(&self) -> EffectsView {
        EffectsView {
            save_config: self.save_config,
            save_history: self.save_history,
            action: self.action.deep_view(),
        }
    }
}

/// The clock at the time of a message.
#[derive(Debug, Clone, Copy)]
pub struct Clock {
    /// Milliseconds of a clock that never goes back.
    pub millis: u64,
    /// Unix seconds.
    pub secs: u64,
}

} // verus!
