//! What the windows show: texts, and which buttons can be pressed.
use vstd::prelude::*;

use crate::app::batch;
use crate::app::queue;
use crate::app::start;
use crate::app::AppModel;
use crate::app::ContextPage;
use crate::app::EntryView;
use crate::app::FileStatus;
use crate::app::FileView;
use crate::app::HistoryEntry;
use crate::app::MenuAction;
use crate::app::ModelView;
use crate::app::Page;
use crate::converters::FileKind;
use crate::number;
use crate::paths;
use crate::text;
use crate::ui::components;

verus! {

// ---------------------------------------------------------------------------
// Header and drawer
// ---------------------------------------------------------------------------

/// One line of a menu.
#[derive(Debug, Clone, Copy)]
pub enum MenuItem {
    /// A label, and what it does.
    Entry(&'static str, MenuAction),
    Divider,
}

/// What a [`MenuItem`] shows.
#[verifier::ext_equal]
pub enum MenuItemView {
    Entry(Seq<char>, MenuAction),
    Divider,
}

impl DeepView for MenuItem {
    type V = MenuItemView;

    open spec fn deep_view(&self) -> MenuItemView {
        match self {
            MenuItem::Entry(label, action) => MenuItemView::Entry(label@, *action),
            MenuItem::Divider => MenuItemView::Divider,
        }
    }
}

/// A menu of the menu bar.
#[derive(Debug)]
pub struct Menu {
    pub title: &'static str,
    pub items: Vec<MenuItem>,
}

/// What the *File* menu shows.
pub open spec fn file_menu() -> Seq<MenuItemView> {
    seq![
        MenuItemView::Entry("Add files…"@, MenuAction::OpenFiles),
        MenuItemView::Entry("Retry failed"@, MenuAction::RetryFailed),
        MenuItemView::Divider,
        MenuItemView::Entry("Settings"@, MenuAction::Settings),
        MenuItemView::Entry("About"@, MenuAction::About),
    ]
}

/// What the *Edit* menu shows.
pub open spec fn edit_menu() -> Seq<MenuItemView> {
    seq![
        MenuItemView::Entry("Select all"@, MenuAction::SelectAll),
        MenuItemView::Entry("Deselect all"@, MenuAction::DeselectAll),
    ]
}

/// The menu bar.
pub fn header_start() -> (r: Vec<Menu>)
    ensures
        r@.len() == 2,
        r@[0].title@ == "File"@,
        r@[0].items.deep_view() == file_menu(),
        r@[1].title@ == "Edit"@,
        r@[1].items.deep_view() == edit_menu(),
{
    let file = vec![
        MenuItem::Entry("Add files…", MenuAction::OpenFiles),
        MenuItem::Entry("Retry failed", MenuAction::RetryFailed),
        MenuItem::Divider,
        MenuItem::Entry("Settings", MenuAction::Settings),
        MenuItem::Entry("About", MenuAction::About),
    ];
    let edit = vec![
        MenuItem::Entry("Select all", MenuAction::SelectAll),
        MenuItem::Entry("Deselect all", MenuAction::DeselectAll),
    ];
    assert(file.deep_view() =~= file_menu());
    assert(edit.deep_view() =~= edit_menu());
    vec![Menu { title: "File", items: file }, Menu { title: "Edit", items: edit }]
}

/// A banner with two buttons.
#[derive(Debug, Clone, Copy)]
pub struct Banner<'a> {
    pub title: &'static str,
    pub text: &'a str,
    pub dismiss: &'static str,
    pub open_output: &'static str,
}

/// Which buttons of the header can be pressed.
#[derive(Debug, Clone, Copy, PartialEq, Eq, Structural)]
pub struct HeaderButtons {
    pub select_all: bool,
    pub deselect_all: bool,
    pub remove_selected: bool,
}

impl AppModel {
    /// Which selection buttons of the header can be pressed.
    pub fn header_end(&self) -> (r: HeaderButtons)
        ensures
            r.select_all == (self.files@.len() > 0),
            r.deselect_all == (queue::count_selected(self.deep_view().files) > 0),
            r.remove_selected == (queue::count_selected(self.deep_view().files) > 0),
    {
        let selected = self.selected_count() > 0;
        HeaderButtons {
            select_all: self.files.len() > 0,
            deselect_all: selected,
            remove_selected: selected,
        }
    }

    /// The banner that shows the warning, if there is one.
    pub fn dialog(&self) -> (r: Option<Banner<'_>>)
        ensures
            match r {
                Some(b) => self.deep_view().warning == Some(b.text@) && b.title@ == "Heads up"@
                    && b.dismiss@ == "Dismiss"@ && b.open_output@ == "Open output folder"@,
                None => self.deep_view().warning is None,
            },
    {
        match &self.warning {
            Some(warning) => Some(
                Banner {
                    title: "Heads up",
                    text: warning.as_str(),
                    dismiss: "Dismiss",
                    open_output: "Open output folder",
                },
            ),
            None => None,
        }
    }

    /// The page of the context drawer, if it is open.
    pub fn context_drawer(&self) -> (r: Option<ContextPage>)
        ensures
            r == (if self.show_context {
                Some(self.context_page)
            } else {
                None
            }),
    {
        if self.show_context {
            Some(self.context_page)
        } else {
            None
        }
    }
}

// ---------------------------------------------------------------------------
// Drop zone
// ---------------------------------------------------------------------------

/// Human-readable name of a file kind.
pub open spec fn name_of_kind(kind: FileKind) -> Seq<char> {
    match kind {
        FileKind::Tabular => "data files"@,
        FileKind::Image => "images"@,
        FileKind::Audio => "audio files"@,
        FileKind::Video => "videos"@,
        FileKind::Document => "documents"@,
        FileKind::Archive => "archives"@,
        FileKind::Unknown => "files"@,
    }
}

/// Human-readable name of a file kind.
pub fn kind_name(kind: FileKind) -> (r: &'static str)
    ensures
        r@ == name_of_kind(kind),
{
    match kind {
        FileKind::Tabular => "data files",
        FileKind::Image => "images",
        FileKind::Audio => "audio files",
        FileKind::Video => "videos",
        FileKind::Document => "documents",
        FileKind::Archive => "archives",
        FileKind::Unknown => "files",
    }
}

/// How many files are of a kind.
pub open spec fn count_kind(files: Seq<FileView>, kind: FileKind) -> nat
    decreases files.len(),
{
    if files.len() == 0 {
        0
    } else {
        count_kind(files.drop_last(), kind) + if files.last().kind == kind {
            1nat
        } else {
            0nat
        }
    }
}

/// The kinds of some files, each where it first occurs.
pub open spec fn kinds_seen(files: Seq<FileView>) -> Seq<FileKind>
    decreases files.len(),
{
    if files.len() == 0 {
        Seq::empty()
    } else {
        let before = kinds_seen(files.drop_last());
        if before.contains(files.last().kind) {
            before
        } else {
            before.push(files.last().kind)
        }
    }
}

/// How many files there are of each kind, in words.
pub open spec fn kind_counts(files: Seq<FileView>) -> Seq<Seq<char>> {
    kinds_seen(files).map_values(
        |k: FileKind| number::decimal(count_kind(files, k)) + " "@ + name_of_kind(k),
    )
}

/// The caption of the drop zone: what the queue holds, if anything.
pub open spec fn stats(files: Seq<FileView>) -> Seq<char> {
    if files.len() == 0 {
        Seq::empty()
    } else {
        "Queue: "@ + text::join(kind_counts(files), ", "@)
    }
}

impl AppModel {
    /// How many files are of a kind.
    pub fn count_of_kind(&self, kind: FileKind) -> (r: usize)
        ensures
            r == count_kind(self.deep_view().files, kind),
    {
        let ghost all = self.deep_view().files;
        let mut n: usize = 0;
        for i in 0..self.files.len()
            invariant
                all == self.deep_view().files,
                n <= i,
                n == count_kind(all.take(i as int), kind),
        {
            assert(all.take(i + 1).drop_last() =~= all.take(i as int));
            assert(all[i as int] == self.files@[i as int].deep_view());
            if self.files[i].kind == kind {
                n = n + 1;
            }
        }
        assert(all.take(all.len() as int) =~= all);
        n
    }

    fn kinds(&self) -> (r: Vec<FileKind>)
        ensures
            r@ == kinds_seen(self.deep_view().files),
    {
        let ghost all = self.deep_view().files;
        let mut seen: Vec<FileKind> = Vec::new();
        assert(seen@ =~= kinds_seen(all.take(0)));
        for i in 0..self.files.len()
            invariant
                all == self.deep_view().files,
                seen@ == kinds_seen(all.take(i as int)),
        {
            assert(all.take(i + 1).drop_last() =~= all.take(i as int));
            assert(all[i as int] == self.files@[i as int].deep_view());
            let kind = self.files[i].kind;
            let mut known = false;
            for j in 0..seen.len()
                invariant
                    known == seen@.take(j as int).contains(kind),
            {
                assert(seen@.take(j + 1) =~= seen@.take(j as int).push(seen@[j as int]));
                if seen[j] == kind {
                    assert(seen@.take(j + 1)[j as int] == kind);
                    known = true;
                } else if known {
                    let ghost k = choose|k: int|
                        0 <= k < j && seen@.take(j as int)[k] == kind;
                    assert(seen@.take(j + 1)[k] == kind);
                }
            }
            assert(seen@.take(seen@.len() as int) =~= seen@);
            if !known {
                seen.push(kind);
            }
        }
        assert(all.take(all.len() as int) =~= all);
        seen
    }

    /// The caption of the drop zone.
    pub fn drop_zone(&self) -> (r: String)
        ensures
            r@ == stats(self.deep_view().files),
    {
        if self.files.len() == 0 {
            return String::new();
        }
        let ghost files = self.deep_view().files;
        let kinds = self.kinds();
        let mut parts: Vec<String> = Vec::new();
        for i in 0..kinds.len()
            invariant
                files == self.deep_view().files,
                kinds@ == kinds_seen(files),
                parts@.len() == i,
                forall|j: int| 0 <= j < i ==> (#[trigger] parts@[j])@ == kind_counts(files)[j],
        {
            let count = self.count_of_kind(kinds[i]);
            parts.push(
                text::cat3(
                    number::decimal_of(count as u64).as_str(),
                    " ",
                    kind_name(kinds[i]),
                ),
            );
        }
        assert(parts.deep_view() =~= kind_counts(files));
        text::cat("Queue: ", text::joined(&parts, ", ").as_str())
    }
}

// ---------------------------------------------------------------------------
// Queue cards
// ---------------------------------------------------------------------------

/// One queue card.
#[derive(Debug)]
pub struct Card {
    pub id: u64,
    pub icon: &'static str,
    pub badge: String,
    pub name: String,
    pub meta: String,
    pub preview: Option<String>,
    /// Targets to pick from; none are shown where this is empty.
    pub targets: Vec<String>,
    pub target_idx: Option<usize>,
    /// Progress in percent; `None` while it is not known.
    pub progress: Option<u8>,
    /// What went wrong, or where the result is.
    pub note: Option<String>,
    pub selected: bool,
    pub can_retry: bool,
    /// The result to open, once there is one.
    pub open: Option<String>,
    pub can_move_up: bool,
    pub can_move_down: bool,
    pub can_remove: bool,
}

/// What a [`Card`] shows.
#[verifier::ext_equal]
pub struct CardView {
    pub id: u64,
    pub icon: Seq<char>,
    pub badge: Seq<char>,
    pub name: Seq<char>,
    pub meta: Seq<char>,
    pub preview: Option<Seq<char>>,
    pub targets: Seq<Seq<char>>,
    pub target_idx: Option<usize>,
    pub progress: Option<u8>,
    pub note: Option<Seq<char>>,
    pub selected: bool,
    pub can_retry: bool,
    pub open: Option<Seq<char>>,
    pub can_move_up: bool,
    pub can_move_down: bool,
    pub can_remove: bool,
}

impl DeepView for Card {
    type V = CardView;

    open spec fn deep_view(&self) -> CardView {
        CardView {
            id: self.id,
            icon: self.icon@,
            badge: self.badge@,
            name: self.name@,
            meta: self.meta@,
            preview: self.preview.deep_view(),
            targets: self.targets.deep_view(),
            target_idx: self.target_idx,
            progress: self.progress,
            note: self.note.deep_view(),
            selected: self.selected,
            can_retry: self.can_retry,
            open: self.open.deep_view(),
            can_move_up: self.can_move_up,
            can_move_down: self.can_move_down,
            can_remove: self.can_remove,
        }
    }
}

/// A number below 1000 with three digits.
pub open spec fn three_digits(n: nat) -> Seq<char> {
    if n < 10 {
        "00"@ + number::decimal(n)
    } else if n < 100 {
        "0"@ + number::decimal(n)
    } else {
        number::decimal(n)
    }
}

fn padded(n: u64) -> (r: String)
    ensures
        r@ == three_digits(n as nat),
{
    let digits = number::decimal_of(n);
    if n < 10 {
        text::cat("00", digits.as_str())
    } else if n < 100 {
        text::cat("0", digits.as_str())
    } else {
        digits
    }
}

/// How long a conversion took, once it is over.
pub open spec fn duration(start: Option<u64>, end: Option<u64>) -> Seq<char> {
    match (start, end) {
        (Some(from), Some(to)) => {
            let millis: nat = if to > from {
                (to - from) as nat
            } else {
                0
            };
            if millis / 1000 > 0 {
                "· "@ + number::decimal(millis / 1000) + "."@ + three_digits(millis % 1000) + "s"@
            } else {
                "· "@ + number::decimal(millis % 1000) + "ms"@
            }
        },
        _ => Seq::empty(),
    }
}

fn duration_text(start: Option<u64>, end: Option<u64>) -> (r: String)
    ensures
        r@ == duration(start, end),
{
    match (start, end) {
        (Some(from), Some(to)) => {
            let millis: u64 = if to > from {
                to - from
            } else {
                0
            };
            if millis / 1000 > 0 {
                text::cat5(
                    "· ",
                    number::decimal_of(millis / 1000).as_str(),
                    ".",
                    padded(millis % 1000).as_str(),
                    "s",
                )
            } else {
                text::cat3("· ", number::decimal_of(millis % 1000).as_str(), "ms")
            }
        },
        _ => String::new(),
    }
}

/// Size, type, state and duration of a file.
pub open spec fn meta_of(f: FileView) -> Seq<char> {
    components::readable(f.size as nat) + " · "@ + (if f.mime.len() == 0 {
        "—"@
    } else {
        f.mime
    }) + " · "@ + components::label_of(f.status) + duration(f.start_time, f.end_time)
}

/// What went wrong with a file, or where its result is.
pub open spec fn note_of(f: FileView) -> Option<Seq<char>> {
    match f.error {
        Some(why) => Some("⚠ "@ + why),
        None => match f.output_path {
            Some(path) => if f.status == FileStatus::Done {
                Some("Saved to "@ + path)
            } else {
                None
            },
            None => None,
        },
    }
}

/// The card of a file.
pub open spec fn card_of(files: Seq<FileView>, f: FileView) -> CardView {
    let pos = match queue::place(files, f.id) {
        Some(i) => i,
        None => 0,
    };
    CardView {
        id: f.id,
        icon: components::kind_icon(f.kind),
        badge: text::upper(f.source_ext),
        name: f.file_name,
        meta: meta_of(f),
        preview: if f.preview.len() == 0 {
            None
        } else {
            Some("◷ "@ + f.preview)
        },
        targets: f.targets,
        target_idx: if queue::target_of(f) is Some {
            f.target_idx
        } else {
            None
        },
        progress: if f.status == FileStatus::Converting {
            None
        } else {
            Some(f.progress)
        },
        note: note_of(f),
        selected: f.selected,
        can_retry: f.status == FileStatus::Failed,
        open: if f.status == FileStatus::Done {
            f.output_path
        } else {
            None
        },
        can_move_up: pos > 0,
        can_move_down: pos < files.len() - 1,
        can_remove: f.status != FileStatus::Converting,
    }
}

/// The cards of the first `n` files that a tab lists.
pub open spec fn cards(page: Page, files: Seq<FileView>, n: nat) -> Seq<CardView>
    decreases n,
{
    if n == 0 {
        Seq::empty()
    } else {
        let before = cards(page, files, (n - 1) as nat);
        if start::lists(page, files[n - 1].kind) {
            before.push(card_of(files, files[n - 1]))
        } else {
            before
        }
    }
}

impl AppModel {
    /// The card of the file at a place of the queue.
    pub fn file_card(&self, i: usize) -> (r: Card)
        requires
            i < self.files@.len(),
        ensures
            r.deep_view() == card_of(self.deep_view().files, self.deep_view().files[i as int]),
    {
        let file = &self.files[i];
        assert(self.deep_view().files[i as int] == file.deep_view());
        let size = components::human_size(file.size);
        let mime = if file.mime.as_str().is_empty() {
            "—".to_owned()
        } else {
            file.mime.clone()
        };
        let mut meta = text::cat5(
            size.as_str(),
            " · ",
            mime.as_str(),
            " · ",
            components::status_label(&file.status),
        );
        meta.append(duration_text(file.start_time, file.end_time).as_str());
        let preview = if file.preview.as_str().is_empty() {
            None
        } else {
            Some(text::cat("◷ ", file.preview.as_str()))
        };
        let note = match &file.error {
            Some(why) => Some(text::cat("⚠ ", why.as_str())),
            None => match &file.output_path {
                Some(path) => if file.status == FileStatus::Done {
                    Some(text::cat("Saved to ", path.as_str()))
                } else {
                    None
                },
                None => None,
            },
        };
        let open = if file.status == FileStatus::Done {
            match &file.output_path {
                Some(path) => Some(path.clone()),
                None => None,
            }
        } else {
            None
        };
        let progress = if file.status == FileStatus::Converting {
            None
        } else {
            Some(file.progress)
        };
        let pos: usize = match self.find_file(file.id) {
            Some(p) => p,
            None => 0,
        };
        Card {
            id: file.id,
            icon: components::file_icon(file.kind).name,
            badge: components::source_badge(file.source_ext.as_str()),
            name: file.file_name.clone(),
            meta,
            preview,
            targets: text::copy_list(&file.targets),
            target_idx: file.selected_index(),
            progress,
            note,
            selected: file.selected,
            can_retry: file.status == FileStatus::Failed,
            open,
            can_move_up: pos > 0,
            can_move_down: pos < self.files.len() - 1,
            can_remove: file.status != FileStatus::Converting,
        }
    }

    /// Queue entries visible under the active tab.
    pub fn visible_files(&self) -> (r: Vec<Card>)
        ensures
            r.deep_view() == cards(self.page, self.deep_view().files, self.files@.len()),
    {
        let ghost files = self.deep_view().files;
        let mut out: Vec<Card> = Vec::new();
        assert(out.deep_view() =~= Seq::empty());
        for i in 0..self.files.len()
            invariant
                files == self.deep_view().files,
                out.deep_view() == cards(self.page, files, i as nat),
        {
            let ghost before = out.deep_view();
            assert(files[i as int] == self.files@[i as int].deep_view());
            if self.page.matches(self.files[i].kind) {
                out.push(self.file_card(i));
                assert(out.deep_view() =~= before.push(card_of(files, files[i as int])));
            }
        }
        out
    }
}

// ---------------------------------------------------------------------------
// Main view
// ---------------------------------------------------------------------------

/// What the main window shows below the drop zone.
#[derive(Debug)]
pub enum MainView {
    History(HistoryPage),
    Queue(QueuePage),
}

/// The queue page.
#[derive(Debug)]
pub struct QueuePage {
    pub title: String,
    /// How many files are selected; empty where none is.
    pub selection: String,
    pub can_clear_finished: bool,
    pub can_clear_all: bool,
    pub cards: Vec<Card>,
    /// What to say where there are no cards.
    pub hint: Option<&'static str>,
}

/// The title of the queue page.
pub open spec fn queue_title(count: nat) -> Seq<char> {
    "Queue ("@ + number::decimal(count) + " file"@ + (if count == 1 {
        ""@
    } else {
        "s"@
    }) + ")"@
}

/// How many files are selected, if any.
pub open spec fn selection_text(count: nat) -> Seq<char> {
    if count > 0 {
        number::decimal(count) + " selected"@
    } else {
        Seq::empty()
    }
}

/// What an empty tab says.
pub open spec fn empty_hint(page: Page) -> Seq<char> {
    match page {
        Page::Data => "No data files here yet. Add CSV, XLSX or JSON — or check All files."@,
        Page::Images => "No images here yet. Add PNG, JPG, WebP or GIF — or check All files."@,
        Page::Media => "No audio/video here yet. Add MP3, WAV, MP4 or MKV (needs ffmpeg)."@,
        Page::Documents => "No documents here yet. Add TXT, MD, PDF or HTML."@,
        Page::All => "No files yet. Drop files above or use Add files — conversions run in the background."@,
        Page::History => "No history."@,
    }
}

fn hint_for(page: Page) -> (r: &'static str)
    ensures
        r@ == empty_hint(page),
{
    match page {
        Page::Data => "No data files here yet. Add CSV, XLSX or JSON — or check All files.",
        Page::Images => "No images here yet. Add PNG, JPG, WebP or GIF — or check All files.",
        Page::Media => "No audio/video here yet. Add MP3, WAV, MP4 or MKV (needs ffmpeg).",
        Page::Documents => "No documents here yet. Add TXT, MD, PDF or HTML.",
        Page::All => "No files yet. Drop files above or use Add files — conversions run in the background.",
        Page::History => "No history.",
    }
}

impl QueuePage {
    /// Whether the page shows a model.
    pub open spec fn shows(&self, m: ModelView) -> bool {
        let listed = cards(m.page, m.files, m.files.len());
        &&& self.cards.deep_view() == listed
        &&& self.title@ == queue_title(listed.len())
        &&& self.selection@ == selection_text(queue::count_selected(m.files))
        &&& self.can_clear_finished == (queue::count_status(m.files, FileStatus::Done) > 0)
        &&& self.can_clear_all == (m.files.len() > 0)
        &&& self.hint is Some <==> listed.len() == 0
        &&& self.hint matches Some(h) ==> h@ == empty_hint(m.page)
    }
}

impl AppModel {
    /// The queue page under the active tab.
    pub fn queue_page(&self) -> (r: QueuePage)
        ensures
            r.shows(self.deep_view()),
    {
        let cards = self.visible_files();
        let count = cards.len();
        assert(cards.deep_view().len() == count);
        let selected = self.selected_count();
        let title = text::cat5(
            "Queue (",
            number::decimal_of(count as u64).as_str(),
            " file",
            if count == 1 {
                ""
            } else {
                "s"
            },
            ")",
        );
        let selection = if selected > 0 {
            text::cat(number::decimal_of(selected as u64).as_str(), " selected")
        } else {
            String::new()
        };
        let hint = if count == 0 {
            Some(hint_for(self.page))
        } else {
            None
        };
        QueuePage {
            title,
            selection,
            can_clear_finished: self.count_of(FileStatus::Done) > 0,
            can_clear_all: self.files.len() > 0,
            cards,
            hint,
        }
    }

    /// What the main window shows below the drop zone: the history under its
    /// tab, else the queue.
    pub fn view(&self) -> (r: MainView)
        ensures
            match r {
                MainView::History(page) => self.page == Page::History && page.shows(
                    self.deep_view().history,
                ),
                MainView::Queue(page) => self.page != Page::History && page.shows(
                    self.deep_view(),
                ),
            },
    {
        if self.page == Page::History {
            MainView::History(self.history_view())
        } else {
            MainView::Queue(self.queue_page())
        }
    }
}

// ---------------------------------------------------------------------------
// History
// ---------------------------------------------------------------------------

/// One line of the history.
#[derive(Debug)]
pub struct HistoryRow {
    /// Where the entry stands in the history.
    pub index: usize,
    pub mark: &'static str,
    pub title: String,
    pub detail: String,
    pub star: &'static str,
    pub star_icon: &'static str,
    pub star_hint: &'static str,
    /// The result to open, if there is one.
    pub open: Option<String>,
}

/// What a [`HistoryRow`] shows.
#[verifier::ext_equal]
pub struct RowView {
    pub index: usize,
    pub mark: Seq<char>,
    pub title: Seq<char>,
    pub detail: Seq<char>,
    pub star: Seq<char>,
    pub star_icon: Seq<char>,
    pub star_hint: Seq<char>,
    pub open: Option<Seq<char>>,
}

impl DeepView for HistoryRow {
    type V = RowView;

    open spec fn deep_view(&self) -> RowView {
        RowView {
            index: self.index,
            mark: self.mark@,
            title: self.title@,
            detail: self.detail@,
            star: self.star@,
            star_icon: self.star_icon@,
            star_hint: self.star_hint@,
            open: self.open.deep_view(),
        }
    }
}

/// The history page.
#[derive(Debug)]
pub struct HistoryPage {
    pub title: String,
    pub can_clear: bool,
    /// What to say where there is no history.
    pub hint: Option<&'static str>,
    /// The entries, newest first.
    pub rows: Vec<HistoryRow>,
}

/// The line of a history entry.
pub open spec fn row_of(e: EntryView, index: usize) -> RowView {
    let saved = e.success && e.output_display.len() > 0;
    RowView {
        index,
        mark: if e.success {
            "✓"@
        } else {
            "✗"@
        },
        title: e.input_name + " "@ + (if e.target.len() == 0 {
            Seq::empty()
        } else {
            "."@ + e.source_ext + " → ."@ + e.target
        }),
        detail: if e.success {
            e.output_display
        } else {
            "failed — see queue for details"@
        },
        star: if e.favorite {
            "★"@
        } else {
            "☆"@
        },
        star_icon: if e.favorite {
            "starred-symbolic"@
        } else {
            "non-starred-symbolic"@
        },
        star_hint: if e.favorite {
            "Unfavorite"@
        } else {
            "Favorite"@
        },
        open: if saved {
            Some(e.output_display)
        } else {
            None
        },
    }
}

/// The title of the history page.
pub open spec fn history_title(count: nat) -> Seq<char> {
    "History ("@ + number::decimal(count) + " "@ + (if count == 1 {
        "entry"@
    } else {
        "entries"@
    }) + ")"@
}

impl HistoryPage {
    /// Whether the page shows a history: newest first.
    pub open spec fn shows(&self, history: Seq<EntryView>) -> bool {
        &&& self.title@ == history_title(history.len())
        &&& self.can_clear == (history.len() > 0)
        &&& self.hint is Some <==> history.len() == 0
        &&& self.hint matches Some(h) ==> h@
            == "No conversions yet. Converted files will appear here with ★ favorites, even after restart."@
        &&& self.rows@.len() == history.len()
        &&& forall|k: int|
            0 <= k < history.len() ==> (#[trigger] self.rows@[k]).deep_view() == row_of(
                history[history.len() - 1 - k],
                (history.len() - 1 - k) as usize,
            )
    }
}

fn history_row(entry: &HistoryEntry, index: usize) -> (r: HistoryRow)
    ensures
        r.deep_view() == row_of(entry.deep_view(), index),
{
    let target = if entry.target.as_str().is_empty() {
        String::new()
    } else {
        text::cat4(".", entry.source_ext.as_str(), " → .", entry.target.as_str())
    };
    let saved = entry.success && !entry.output_display.as_str().is_empty();
    let detail = if saved {
        entry.output_display.clone()
    } else if entry.success {
        String::new()
    } else {
        "failed — see queue for details".to_owned()
    };
    let open = if saved {
        Some(entry.output_display.clone())
    } else {
        None
    };
    let r = HistoryRow {
        index,
        mark: if entry.success {
            "✓"
        } else {
            "✗"
        },
        title: text::cat3(entry.input_name.as_str(), " ", target.as_str()),
        detail,
        star: if entry.favorite {
            "★"
        } else {
            "☆"
        },
        star_icon: if entry.favorite {
            "starred-symbolic"
        } else {
            "non-starred-symbolic"
        },
        star_hint: if entry.favorite {
            "Unfavorite"
        } else {
            "Favorite"
        },
        open,
    };
    assert(r.detail@ =~= row_of(entry.deep_view(), index).detail);
    r
}

impl AppModel {
    /// History tab: past conversions with favourites, newest first.
    pub fn history_view(&self) -> (r: HistoryPage)
        ensures
            r.shows(self.deep_view().history),
    {
        let ghost all = self.deep_view().history;
        let n = self.history.len();
        let title = text::cat5(
            "History (",
            number::decimal_of(n as u64).as_str(),
            " ",
            if n == 1 {
                "entry"
            } else {
                "entries"
            },
            ")",
        );
        let hint = if n == 0 {
            Some(
                "No conversions yet. Converted files will appear here with ★ favorites, even after restart.",
            )
        } else {
            None
        };
        let mut rows: Vec<HistoryRow> = Vec::new();
        for k in 0..n
            invariant
                n == self.history@.len(),
                all == self.deep_view().history,
                rows@.len() == k,
                forall|j: int|
                    0 <= j < k ==> (#[trigger] rows@[j]).deep_view() == row_of(
                        all[n - 1 - j],
                        (n - 1 - j) as usize,
                    ),
        {
            let index = n - 1 - k;
            assert(all[index as int] == self.history@[index as int].deep_view());
            rows.push(history_row(&self.history[index], index));
        }
        HistoryPage { title, can_clear: n > 0, hint, rows }
    }
}

// ---------------------------------------------------------------------------
// Batch bar
// ---------------------------------------------------------------------------

/// The button that starts or stops a batch.
#[derive(Debug)]
pub enum BatchButton {
    Stop,
    /// Convert the selected files; the label says how many.
    ConvertSelected(String),
    ConvertAll,
    /// Nothing to convert.
    Idle,
}

/// Footer: batch target, output folder, and the batch button.
#[derive(Debug)]
pub struct BatchBar {
    /// Targets to pick from; empty where there is nothing to pick.
    pub targets: Vec<String>,
    pub target_idx: Option<usize>,
    pub output_label: String,
    pub button: BatchButton,
}

/// The label of the output folder.
pub open spec fn output_label(dir: Seq<char>) -> Seq<char> {
    match paths::file_name(dir) {
        Some(name) => "Output: …/"@ + name,
        None => "Output: "@ + dir,
    }
}

impl BatchBar {
    /// Whether the bar shows a model.
    pub open spec fn shows(&self, m: ModelView) -> bool {
        let selected = queue::count_selected(m.files);
        let pending = queue::count_status(m.files, FileStatus::Pending) + queue::count_status(
            m.files,
            FileStatus::Failed,
        );
        &&& self.targets.deep_view() == queue::offered(m.files)
        &&& self.target_idx == queue::settle(m).global_target_idx
        &&& self.output_label@ == output_label(m.output_dir)
        &&& match self.button {
            BatchButton::Stop => m.is_converting,
            BatchButton::ConvertSelected(label) => !m.is_converting && selected > 0 && label@
                == "Convert "@ + number::decimal(selected) + " selected"@,
            BatchButton::ConvertAll => !m.is_converting && selected == 0 && pending > 0,
            BatchButton::Idle => !m.is_converting && selected == 0 && pending == 0,
        }
    }
}

impl AppModel {
    /// Footer batch bar: batch target, output folder, convert or stop.
    pub fn batch_bar(&self) -> (r: BatchBar)
        ensures
            r.shows(self.deep_view()),
    {
        let targets = self.batch_targets();
        assert(targets.deep_view().len() == targets@.len());
        let target_idx = match self.global_target_idx {
            Some(i) => if i < targets.len() {
                Some(i)
            } else {
                None
            },
            None => None,
        };
        let output_label = match paths::file_name_of(self.output_dir.as_str()) {
            Some(name) => text::cat("Output: …/", name.as_str()),
            None => text::cat("Output: ", self.output_dir.as_str()),
        };
        let selected = self.selected_count();
        let button = if self.is_converting {
            BatchButton::Stop
        } else if selected > 0 {
            BatchButton::ConvertSelected(
                text::cat3("Convert ", number::decimal_of(selected as u64).as_str(), " selected"),
            )
        } else if self.count_of(FileStatus::Pending) > 0 || self.count_of(FileStatus::Failed) > 0 {
            BatchButton::ConvertAll
        } else {
            BatchButton::Idle
        };
        BatchBar { targets, target_idx, output_label, button }
    }
}

// ---------------------------------------------------------------------------
// Settings
// ---------------------------------------------------------------------------

/// One control of the settings drawer.
#[derive(Debug)]
pub enum Control {
    /// A button with a text, which picks the output folder.
    Folder(String),
    Overwrite(bool),
    GroupByKind(bool),
    AutoOpen(bool),
    Quality(String),
    Width(String),
    Height(String),
    /// The bitrates on offer, and the one picked.
    Bitrate(Vec<String>, Option<usize>),
    /// Labels, and the quality that each stands for.
    Presets(Vec<(&'static str, &'static str)>),
    Backend(String),
    Shortcuts(Vec<&'static str>),
}

/// What a [`Control`] shows.
#[verifier::ext_equal]
pub enum ControlView {
    Folder(Seq<char>),
    Overwrite(bool),
    GroupByKind(bool),
    AutoOpen(bool),
    Quality(Seq<char>),
    Width(Seq<char>),
    Height(Seq<char>),
    Bitrate(Seq<Seq<char>>, Option<usize>),
    Presets(Seq<(Seq<char>, Seq<char>)>),
    Backend(Seq<char>),
    Shortcuts(Seq<Seq<char>>),
}

impl DeepView for Control {
    type V = ControlView;

    open spec fn deep_view(&self) -> ControlView {
        match self {
            Control::Folder(s) => ControlView::Folder(s@),
            Control::Overwrite(b) => ControlView::Overwrite(*b),
            Control::GroupByKind(b) => ControlView::GroupByKind(*b),
            Control::AutoOpen(b) => ControlView::AutoOpen(*b),
            Control::Quality(s) => ControlView::Quality(s@),
            Control::Width(s) => ControlView::Width(s@),
            Control::Height(s) => ControlView::Height(s@),
            Control::Bitrate(labels, idx) => ControlView::Bitrate(labels.deep_view(), *idx),
            Control::Presets(v) => ControlView::Presets(
                v@.map_values(|p: (&'static str, &'static str)| (p.0@, p.1@)),
            ),
            Control::Backend(s) => ControlView::Backend(s@),
            Control::Shortcuts(v) => ControlView::Shortcuts(
                v@.map_values(|s: &'static str| s@),
            ),
        }
    }
}

/// One line of the settings drawer.
#[derive(Debug)]
pub struct Setting {
    pub title: &'static str,
    pub description: &'static str,
    pub control: Control,
}

/// What a [`Setting`] shows.
#[verifier::ext_equal]
pub struct SettingView {
    pub title: Seq<char>,
    pub description: Seq<char>,
    pub control: ControlView,
}

impl DeepView for Setting {
    type V = SettingView;

    open spec fn deep_view(&self) -> SettingView {
        SettingView {
            title: self.title@,
            description: self.description@,
            control: self.control.deep_view(),
        }
    }
}

/// The quality presets.
pub open spec fn presets() -> Seq<(Seq<char>, Seq<char>)> {
    seq![("Web (80%)"@, "80"@), ("Print (95%)"@, "95"@), ("Max (100%)"@, "100"@)]
}

/// The shortcuts, in words.
pub open spec fn shortcut_lines() -> Seq<Seq<char>> {
    seq![
        "Ctrl+O — Add files"@,
        "Ctrl+A — Select all files"@,
        "Ctrl+D or Esc — Deselect all"@,
        "Delete / Backspace — Remove selected"@,
        "Ctrl+R — Retry failed conversions"@,
    ]
}

/// A line of the settings drawer.
pub open spec fn setting(
    title: Seq<char>,
    description: Seq<char>,
    control: ControlView,
) -> SettingView {
    SettingView { title, description, control }
}

/// The settings drawer.
pub open spec fn settings(m: ModelView) -> Seq<SettingView> {
    seq![
        setting(
            "Output folder"@,
            "Where converted files will be saved"@,
            ControlView::Folder(m.output_dir),
        ),
        setting(
            "Overwrite existing"@,
            "Off = auto-rename to file_1.ext"@,
            ControlView::Overwrite(m.config.overwrite_existing),
        ),
        setting(
            "Group by type"@,
            "Save into images/, data/, … subfolders"@,
            ControlView::GroupByKind(m.config.group_by_kind),
        ),
        setting(
            "Auto-open output"@,
            "Open the folder when a batch finishes"@,
            ControlView::AutoOpen(m.config.auto_open_output),
        ),
        setting(
            "JPEG quality (1–100)"@,
            "Higher quality = larger file size"@,
            ControlView::Quality(m.quality_text),
        ),
        setting(
            "Image width px"@,
            "Empty = keep original width"@,
            ControlView::Width(m.resize_w_text),
        ),
        setting(
            "Image height px"@,
            "Empty = keep original height"@,
            ControlView::Height(m.resize_h_text),
        ),
        setting(
            "Audio bitrate"@,
            "Quality for MP3/AAC/OGG targets"@,
            ControlView::Bitrate(batch::bitrate_labels(), m.audio_bitrate_idx),
        ),
        setting(
            "Quick presets"@,
            "Common quality/size combinations"@,
            ControlView::Presets(presets()),
        ),
        setting(
            "Media backend"@,
            "FFmpeg for audio/video conversion"@,
            ControlView::Backend(m.ffmpeg_info),
        ),
        setting(
            "Keyboard shortcuts"@,
            "Quick actions — disabled while typing in text fields"@,
            ControlView::Shortcuts(shortcut_lines()),
        ),
    ]
}

fn line(title: &'static str, description: &'static str, control: Control) -> (r: Setting)
    ensures
        r.deep_view() == setting(title@, description@, control.deep_view()),
{
    Setting { title, description, control }
}

fn preset_control() -> (r: Control)
    ensures
        r.deep_view() == ControlView::Presets(presets()),
{
    let v = vec![("Web (80%)", "80"), ("Print (95%)", "95"), ("Max (100%)", "100")];
    assert(v@.map_values(|p: (&'static str, &'static str)| (p.0@, p.1@)) =~= presets());
    Control::Presets(v)
}

fn shortcut_control() -> (r: Control)
    ensures
        r.deep_view() == ControlView::Shortcuts(shortcut_lines()),
{
    let v = vec![
        "Ctrl+O — Add files",
        "Ctrl+A — Select all files",
        "Ctrl+D or Esc — Deselect all",
        "Delete / Backspace — Remove selected",
        "Ctrl+R — Retry failed conversions",
    ];
    assert(v@.map_values(|s: &'static str| s@) =~= shortcut_lines());
    Control::Shortcuts(v)
}

impl AppModel {
    /// Settings drawer: output folder, image and audio settings, shortcuts.
    pub fn settings_view(&self) -> (r: Vec<Setting>)
        ensures
            r.deep_view() == settings(self.deep_view()),
    {
        let ghost m = self.deep_view();
        let r = vec![
            line(
                "Output folder",
                "Where converted files will be saved",
                Control::Folder(self.output_dir.clone()),
            ),
            line(
                "Overwrite existing",
                "Off = auto-rename to file_1.ext",
                Control::Overwrite(self.config.overwrite_existing),
            ),
            line(
                "Group by type",
                "Save into images/, data/, … subfolders",
                Control::GroupByKind(self.config.group_by_kind),
            ),
            line(
                "Auto-open output",
                "Open the folder when a batch finishes",
                Control::AutoOpen(self.config.auto_open_output),
            ),
            line(
                "JPEG quality (1–100)",
                "Higher quality = larger file size",
                Control::Quality(self.quality_text.clone()),
            ),
            line(
                "Image width px",
                "Empty = keep original width",
                Control::Width(self.resize_w_text.clone()),
            ),
            line(
                "Image height px",
                "Empty = keep original height",
                Control::Height(self.resize_h_text.clone()),
            ),
            line(
                "Audio bitrate",
                "Quality for MP3/AAC/OGG targets",
                Control::Bitrate(batch::audio_bitrate_labels(), self.audio_bitrate_idx),
            ),
            line("Quick presets", "Common quality/size combinations", preset_control()),
            line(
                "Media backend",
                "FFmpeg for audio/video conversion",
                Control::Backend(self.ffmpeg_info.clone()),
            ),
            line(
                "Keyboard shortcuts",
                "Quick actions — disabled while typing in text fields",
                shortcut_control(),
            ),
        ];
        assert(r.deep_view() =~= settings(m));
        r
    }
}

} // verus!
