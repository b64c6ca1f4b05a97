//! Persisted user preferences.
use vstd::prelude::*;

verus! {

/// Preferences that survive restarts.
#[derive(Debug, Clone, PartialEq, Eq)]
pub struct Config {
    /// Last-used output directory (empty = system default).
    pub output_dir: String,
    /// JPEG quality, 1 to 100.
    pub jpeg_quality: u32,
    /// Default resize width in px (`0` = keep original).
    pub resize_width: u32,
    /// Default resize height in px (`0` = keep original).
    pub resize_height: u32,
    /// Overwrite existing output files instead of renaming (`file_1.ext`).
    pub overwrite_existing: bool,
    /// Group outputs into subfolders per file kind (`images/`, `data/`, …).
    pub group_by_kind: bool,
    /// Open the output folder when a batch finishes.
    pub auto_open_output: bool,
    /// Audio bitrate in kbps for lossy audio targets.
    pub audio_bitrate_kbps: u32,
}

/// What a [`Config`] holds.
#[verifier::ext_equal]
pub struct ConfigView {
    pub output_dir: Seq<char>,
    pub jpeg_quality: u32,
    pub resize_width: u32,
    pub resize_height: u32,
    pub overwrite_existing: bool,
    pub group_by_kind: bool,
    pub auto_open_output: bool,
    pub audio_bitrate_kbps: u32,
}

impl DeepView for Config {
    type V = ConfigView;

    open spec fn deep_view(&self) -> ConfigView {
        ConfigView {
            output_dir: self.output_dir@,
            jpeg_quality: self.jpeg_quality,
            resize_width: self.resize_width,
            resize_height: self.resize_height,
            overwrite_existing: self.overwrite_existing,
            group_by_kind: self.group_by_kind,
            auto_open_output: self.auto_open_output,
            audio_bitrate_kbps: self.audio_bitrate_kbps,
        }
    }
}

/// The preferences of a first start.
pub open spec fn first_config() -> ConfigView {
    ConfigView {
        output_dir: Seq::empty(),
        jpeg_quality: 90,
        resize_width: 0,
        resize_height: 0,
        overwrite_existing: false,
        group_by_kind: false,
        auto_open_output: false,
        audio_bitrate_kbps: 192,
    }
}

impl Default for Config {
    fn default() -> (r: Self)
        ensures
            r.deep_view() == first_config(),
    {
        Config {
            output_dir: String::new(),
            jpeg_quality: 90,
            resize_width: 0,
            resize_height: 0,
            overwrite_existing: false,
            group_by_kind: false,
            auto_open_output: false,
            audio_bitrate_kbps: 192,
        }
    }
}

} // verus!
