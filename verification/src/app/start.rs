//! The model at start, its tabs and its title.
use vstd::prelude::*;

use crate::app::batch;
use crate::app::AppModel;
use crate::app::ContextPage;
use crate::app::EntryView;
use crate::app::HistoryEntry;
use crate::app::ModelView;
use crate::app::Page;
use crate::app::update;
use crate::config::Config;
use crate::config::ConfigView;
use crate::converters;
use crate::converters::ConversionError;
use crate::converters::FileKind;
use crate::number;
use crate::text;

verus! {

/// A number in a text field, which is empty for 0.
pub open spec fn field_text(n: u32) -> Seq<char> {
    if n == 0 {
        Seq::empty()
    } else {
        number::decimal(n as nat)
    }
}

/// The text of the quality field: the preference up to 100, or 90.
pub open spec fn quality_text(quality: u32) -> Seq<char> {
    if quality == 0 {
        "90"@
    } else if quality > 100 {
        number::decimal(100)
    } else {
        number::decimal(quality as nat)
    }
}

/// What is shown of the media backend.
pub open spec fn backend_text(status: Result<String, ConversionError>) -> Seq<char> {
    match status {
        Ok(line) => line@,
        Err(e) => converters::failure_text(e.deep_view()),
    }
}

/// The model at start.
pub open spec fn first_model(
    config: ConfigView,
    default_dir: Seq<char>,
    backend: Seq<char>,
    history: Seq<EntryView>,
) -> ModelView {
    ModelView {
        context_page: ContextPage::About,
        show_context: false,
        page: Page::All,
        config,
        files: Seq::empty(),
        next_id: 1,
        output_dir: if config.output_dir.len() == 0 {
            default_dir
        } else {
            config.output_dir
        },
        global_target_idx: None,
        is_converting: false,
        quality_text: quality_text(config.jpeg_quality),
        resize_w_text: field_text(config.resize_width),
        resize_h_text: field_text(config.resize_height),
        warning: None,
        drag_hovered: false,
        ffmpeg_info: backend,
        history,
        audio_bitrate_idx: update::config_bitrate(config.audio_bitrate_kbps),
    }
}

fn field_of(n: u32) -> (r: String)
    ensures
        r@ == field_text(n),
{
    if n == 0 {
        String::new()
    } else {
        number::decimal_of(n as u64)
    }
}

impl AppModel {
    /// The model for some preferences, the system's output folder, the state
    /// of the media backend and the stored history.
    pub fn init(
        config: Config,
        default_dir: String,
        ffmpeg: Result<String, ConversionError>,
        history: Vec<HistoryEntry>,
    ) -> (r: Self)
        ensures
            r.deep_view() == first_model(
                config.deep_view(),
                default_dir@,
                backend_text(ffmpeg),
                history.deep_view(),
            ),
    {
        let output_dir = if config.output_dir.as_str().is_empty() {
            default_dir
        } else {
            config.output_dir.clone()
        };
        let quality_text = if config.jpeg_quality == 0 {
            "90".to_owned()
        } else if config.jpeg_quality > 100 {
            number::decimal_of(100)
        } else {
            number::decimal_of(config.jpeg_quality as u64)
        };
        let resize_w_text = field_of(config.resize_width);
        let resize_h_text = field_of(config.resize_height);
        let ffmpeg_info = match ffmpeg {
            Ok(line) => line,
            Err(e) => e.message(),
        };
        let kbps = config.audio_bitrate_kbps;
        let audio_bitrate_idx = batch::audio_bitrate_index(
            if kbps == 0 {
                192
            } else {
                kbps
            },
        );
        let files = Vec::new();
        let r = AppModel {
            context_page: ContextPage::About,
            show_context: false,
            page: Page::All,
            config,
            files,
            next_id: 1,
            output_dir,
            global_target_idx: None,
            is_converting: false,
            quality_text,
            resize_w_text,
            resize_h_text,
            warning: None,
            drag_hovered: false,
            ffmpeg_info,
            history,
            audio_bitrate_idx,
        };
        assert(r.files.deep_view() =~= Seq::empty());
        r
    }
}

// ---------------------------------------------------------------------------
// Tabs
// ---------------------------------------------------------------------------

/// The label of a tab.
pub open spec fn label(page: Page) -> Seq<char> {
    match page {
        Page::All => "All files"@,
        Page::Data => "Data"@,
        Page::Images => "Images"@,
        Page::Media => "Media"@,
        Page::Documents => "Documents"@,
        Page::History => "History"@,
    }
}

/// The icon of a tab.
pub open spec fn icon(page: Page) -> Seq<char> {
    match page {
        Page::All => "folder-open-symbolic"@,
        Page::Data => "x-office-spreadsheet-symbolic"@,
        Page::Images => "image-x-generic-symbolic"@,
        Page::Media => "audio-x-generic-symbolic"@,
        Page::Documents => "x-office-document-symbolic"@,
        Page::History => "document-open-recent-symbolic"@,
    }
}

/// Whether files of a kind are listed under a tab: archives and unknown files
/// under the documents, nothing under the history.
pub open spec fn lists(page: Page, kind: FileKind) -> bool {
    match page {
        Page::All => true,
        Page::Data => kind == FileKind::Tabular,
        Page::Images => kind == FileKind::Image,
        Page::Media => kind == FileKind::Audio || kind == FileKind::Video,
        Page::Documents => kind == FileKind::Document || kind == FileKind::Archive || kind
            == FileKind::Unknown,
        Page::History => false,
    }
}

impl Page {
    /// The tabs, in order.
    pub fn tabs() -> (r: Vec<Page>)
        ensures
            r@ == seq![
                Page::All,
                Page::Data,
                Page::Images,
                Page::Media,
                Page::Documents,
                Page::History,
            ],
    {
        vec![Page::All, Page::Data, Page::Images, Page::Media, Page::Documents, Page::History]
    }

    /// The label of the tab.
    pub fn label(self) -> (r: &'static str)
        ensures
            r@ == label(self),
    {
        match self {
            Page::All => "All files",
            Page::Data => "Data",
            Page::Images => "Images",
            Page::Media => "Media",
            Page::Documents => "Documents",
            Page::History => "History",
        }
    }

    /// The icon of the tab.
    pub fn icon(self) -> (r: &'static str)
        ensures
            r@ == icon(self),
    {
        match self {
            Page::All => "folder-open-symbolic",
            Page::Data => "x-office-spreadsheet-symbolic",
            Page::Images => "image-x-generic-symbolic",
            Page::Media => "audio-x-generic-symbolic",
            Page::Documents => "x-office-document-symbolic",
            Page::History => "document-open-recent-symbolic",
        }
    }

    /// Whether a file kind belongs under this tab.
    pub fn matches(self, kind: FileKind) -> (r: bool)
        ensures
            r == lists(self, kind),
    {
        match self {
            Page::All => true,
            Page::Data => kind == FileKind::Tabular,
            Page::Images => kind == FileKind::Image,
            Page::Media => kind == FileKind::Audio || kind == FileKind::Video,
            Page::Documents => kind == FileKind::Document || kind == FileKind::Archive || kind
                == FileKind::Unknown,
            Page::History => false,
        }
    }
}

impl AppModel {
    /// The active tab.
    pub fn active_page(&self) -> (r: Page)
        ensures
            r == self.page,
    {
        self.page
    }

    /// Activates a tab; returns the new window title.
    pub fn on_nav_select(&mut self, page: Page, app_title: &str) -> (r: String)
        ensures
            final(self).deep_view() == (ModelView { page, ..old(self).deep_view() }),
            r@ == app_title@ + " — "@ + label(page),
    {
        self.page = page;
        self.update_title(app_title)
    }

    /// The window title: the application's, and the active tab.
    pub fn update_title(&self, app_title: &str) -> (r: String)
        ensures
            r@ == app_title@ + " — "@ + label(self.page),
    {
        text::cat3(app_title, " — ", self.page.label())
    }
}

} // verus!
