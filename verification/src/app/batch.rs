//! Running the queue: options, output paths, the start of a batch and its end.
use vstd::prelude::*;

use crate::app::queue;
use crate::app::Action;
use crate::app::ActionView;
use crate::app::AppModel;
use crate::app::FileStatus;
use crate::app::FileView;
use crate::app::ModelView;
use crate::app::QueuedFile;
use crate::converters;
use crate::converters::ConvertOptions;
use crate::converters::FileKind;
use crate::number;
use crate::paths;
use crate::text;

verus! {

// ---------------------------------------------------------------------------
// Options
// ---------------------------------------------------------------------------

/// The audio bitrates on offer, in kbps.
pub open spec fn bitrate_at(idx: usize) -> Option<u32> {
    if idx == 0 {
        Some(128)
    } else if idx == 1 {
        Some(192)
    } else if idx == 2 {
        Some(320)
    } else {
        None
    }
}

/// Where a bitrate stands among those on offer.
pub open spec fn bitrate_index(bitrate: u32) -> Option<usize> {
    if bitrate == 128 {
        Some(0)
    } else if bitrate == 192 {
        Some(1)
    } else if bitrate == 320 {
        Some(2)
    } else {
        None
    }
}

/// The audio bitrate at a place of the list on offer.
pub fn audio_bitrate(idx: usize) -> (r: Option<u32>)
    ensures
        r == bitrate_at(idx),
{
    match idx {
        0 => Some(128),
        1 => Some(192),
        2 => Some(320),
        _ => None,
    }
}

/// Where a bitrate stands among those on offer.
pub fn audio_bitrate_index(bitrate: u32) -> (r: Option<usize>)
    ensures
        r == bitrate_index(bitrate),
        r matches Some(i) ==> bitrate_at(i) == Some(bitrate),
{
    match bitrate {
        128 => Some(0),
        192 => Some(1),
        320 => Some(2),
        _ => None,
    }
}

/// The labels of the bitrates on offer.
pub open spec fn bitrate_labels() -> Seq<Seq<char>> {
    seq![
        number::decimal(128) + " kbps"@,
        number::decimal(192) + " kbps"@,
        number::decimal(320) + " kbps"@,
    ]
}

/// The labels of the bitrates on offer.
pub fn audio_bitrate_labels() -> (r: Vec<String>)
    ensures
        r.deep_view() == bitrate_labels(),
{
    let mut r: Vec<String> = Vec::new();
    let a = number::decimal_of(128);
    let b = number::decimal_of(192);
    let c = number::decimal_of(320);
    r.push(text::cat(a.as_str(), " kbps"));
    r.push(text::cat(b.as_str(), " kbps"));
    r.push(text::cat(c.as_str(), " kbps"));
    assert(r.deep_view() =~= bitrate_labels());
    r
}

/// A number moved into a range.
pub open spec fn clamped(n: int, low: int, high: int) -> int {
    if n < low {
        low
    } else if n > high {
        high
    } else {
        n
    }
}

/// The JPEG quality that a text field asks for; 90 where it holds no byte.
pub open spec fn quality_of(field: Seq<char>) -> u8 {
    match number::unsigned_value(text::trim(field), 255) {
        Some(q) => clamped(q as int, 1, 100) as u8,
        None => 90,
    }
}

/// The size that a text field asks for; none where it holds no positive number.
pub open spec fn size_of_field(field: Seq<char>) -> Option<u32> {
    match number::unsigned_value(text::trim(field), u32::MAX as nat) {
        Some(n) => if n > 0 {
            Some(n as u32)
        } else {
            None
        },
        None => None,
    }
}

/// The bitrate in force: the one picked, else the preference within its
/// bounds.
pub open spec fn bitrate_of(m: ModelView) -> u32 {
    let preference = if m.config.audio_bitrate_kbps == 0 {
        192u32
    } else {
        clamped(m.config.audio_bitrate_kbps as int, 64, 320) as u32
    };
    match m.audio_bitrate_idx {
        Some(i) => match bitrate_at(i) {
            Some(b) => b,
            None => preference,
        },
        None => preference,
    }
}

/// The options that the settings fields ask for.
pub open spec fn options_of(m: ModelView) -> ConvertOptions {
    ConvertOptions {
        jpeg_quality: quality_of(m.quality_text),
        webp_quality: 90,
        resize_width: size_of_field(m.resize_w_text),
        resize_height: size_of_field(m.resize_h_text),
        csv_delimiter: None,
        audio_bitrate_kbps: bitrate_of(m),
    }
}

fn read_size(field: &str) -> (r: Option<u32>)
    ensures
        r == size_of_field(field@),
{
    match number::read_unsigned(text::trimmed(field), u32::MAX) {
        Some(n) => if n > 0 {
            Some(n)
        } else {
            None
        },
        None => None,
    }
}

impl AppModel {
    /// Build [`ConvertOptions`] from the settings fields.
    pub fn convert_options(&self) -> (r: ConvertOptions)
        ensures
            r == options_of(self.deep_view()),
    {
        let preference: u32 = {
            let cfg = self.config.audio_bitrate_kbps;
            if cfg == 0 {
                192
            } else if cfg < 64 {
                64
            } else if cfg > 320 {
                320
            } else {
                cfg
            }
        };
        let bitrate = match self.audio_bitrate_idx {
            Some(i) => match audio_bitrate(i) {
                Some(b) => b,
                None => preference,
            },
            None => preference,
        };
        let quality: u8 = match number::read_unsigned(
            text::trimmed(self.quality_text.as_str()),
            255,
        ) {
            Some(q) => if q < 1 {
                1
            } else if q > 100 {
                100
            } else {
                q as u8
            },
            None => 90,
        };
        ConvertOptions {
            jpeg_quality: quality,
            webp_quality: 90,
            resize_width: read_size(self.resize_w_text.as_str()),
            resize_height: read_size(self.resize_h_text.as_str()),
            csv_delimiter: None,
            audio_bitrate_kbps: bitrate,
        }
    }
}

// ---------------------------------------------------------------------------
// Output paths
// ---------------------------------------------------------------------------

/// Subfolder name for grouped outputs.
pub open spec fn kind_dir(kind: FileKind) -> Seq<char> {
    match kind {
        FileKind::Tabular => "data"@,
        FileKind::Image => "images"@,
        FileKind::Audio => "audio"@,
        FileKind::Video => "video"@,
        FileKind::Document => "documents"@,
        FileKind::Archive => "archives"@,
        FileKind::Unknown => "files"@,
    }
}

/// Subfolder name for grouped outputs.
pub fn kind_dir_name(kind: FileKind) -> (r: &'static str)
    ensures
        r@ == kind_dir(kind),
{
    match kind {
        FileKind::Tabular => "data",
        FileKind::Image => "images",
        FileKind::Audio => "audio",
        FileKind::Video => "video",
        FileKind::Document => "documents",
        FileKind::Archive => "archives",
        FileKind::Unknown => "files",
    }
}

/// The folder that results of a kind go to.
pub open spec fn folder_for(m: ModelView, kind: FileKind) -> Seq<char> {
    if m.config.group_by_kind {
        paths::join(m.output_dir, kind_dir(kind))
    } else {
        m.output_dir
    }
}

/// The output path of a file before any renaming.
pub open spec fn base_path(m: ModelView, f: FileView, target: Seq<char>) -> Seq<char> {
    converters::output_path(f.path, target, folder_for(m, f.kind))
}

/// A file name cut before its extension; `.tar.gz` counts as one extension.
pub open spec fn name_parts(name: Seq<char>) -> (Seq<char>, Seq<char>) {
    if text::ends_with(text::lower(name), ".tar.gz"@) {
        (name.take(name.len() - 7), ".tar.gz"@)
    } else if paths::last_dot(name) >= 0 {
        (name.take(paths::last_dot(name)), name.skip(paths::last_dot(name)))
    } else {
        (name, Seq::empty())
    }
}

/// The `n`-th name tried for an output: `base` itself, then `base` with `_1`,
/// `_2`, … before its extension.
pub open spec fn candidate(base: Seq<char>, n: nat) -> Seq<char> {
    if n == 0 {
        base
    } else {
        let name = match paths::file_name(base) {
            Some(s) => s,
            None => "output"@,
        };
        let (stem, ext) = name_parts(name);
        let renamed = stem + "_"@ + number::decimal(n) + ext;
        match paths::parent(base) {
            Some(p) => paths::join(p, renamed),
            None => renamed,
        }
    }
}

/// How many names are tried.
pub const NAMES_TRIED: u32 = 1000;

/// What to do with a name that was tried.
#[derive(Debug)]
pub enum Rename {
    /// Use this path.
    Use(String),
    /// Try the name with this number.
    Try(u32),
}

/// The path that a search for a free name ends with, from the `n`-th name on:
/// the first free one, and `base` where all are taken.
pub open spec fn free_path(base: Seq<char>, taken: spec_fn(Seq<char>) -> bool, n: nat) -> Seq<char>
    decreases NAMES_TRIED - n,
{
    if n >= NAMES_TRIED {
        base
    } else if taken(candidate(base, n)) {
        free_path(base, taken, n + 1)
    } else {
        candidate(base, n)
    }
}

/// The `n`-th name tried for an output.
pub fn candidate_path(base: &str, n: u32) -> (r: String)
    ensures
        r@ == candidate(base@, n as nat),
{
    if n == 0 {
        return base.to_owned();
    }
    let name = match paths::file_name_of(base) {
        Some(s) => s,
        None => "output".to_owned(),
    };
    let low = text::to_lower(name.as_str());
    let len = name.as_str().unicode_len();
    proof {
        reveal_strlit(".tar.gz");
    }
    let (stem, ext) = if text::has_end(low.as_str(), ".tar.gz") {
        let stem = name.as_str().substring_char(0, len - 7);
        assert(stem@ =~= name@.take(name@.len() - 7));
        (stem.to_owned(), ".tar.gz".to_owned())
    } else {
        match paths::dot_of(name.as_str()) {
            Some(dot) => {
                let stem = name.as_str().substring_char(0, dot);
                let ext = name.as_str().substring_char(dot, len);
                assert(stem@ =~= name@.take(dot as int));
                assert(ext@ =~= name@.skip(dot as int));
                (stem.to_owned(), ext.to_owned())
            },
            None => (name, String::new()),
        }
    };
    assert((stem@, ext@) == name_parts(
        match paths::file_name(base@) {
            Some(s) => s,
            None => "output"@,
        },
    ));
    let renamed = text::cat4(
        stem.as_str(),
        "_",
        number::decimal_of(n as u64).as_str(),
        ext.as_str(),
    );
    match paths::parent_of(base) {
        Some(p) => paths::joined(p.as_str(), renamed.as_str()),
        None => renamed,
    }
}

/// One step of the search for a free output name: whether the `n`-th name is
/// used, or which is tried next.
pub fn unique_output_path(base: &str, n: u32, exists: bool) -> (r: Rename)
    requires
        n < NAMES_TRIED,
    ensures
        match r {
            Rename::Use(path) => if exists {
                n + 1 == NAMES_TRIED && path@ == base@
            } else {
                path@ == candidate(base@, n as nat)
            },
            Rename::Try(k) => exists && k == n + 1 && k < NAMES_TRIED,
        },
{
    if !exists {
        Rename::Use(candidate_path(base, n))
    } else if n + 1 < NAMES_TRIED {
        Rename::Try(n + 1)
    } else {
        Rename::Use(base.to_owned())
    }
}

impl AppModel {
    /// The folder that results of a kind go to.
    pub fn output_folder(&self, kind: FileKind) -> (r: String)
        ensures
            r@ == folder_for(self.deep_view(), kind),
    {
        if self.config.group_by_kind {
            paths::joined(self.output_dir.as_str(), kind_dir_name(kind))
        } else {
            self.output_dir.clone()
        }
    }

    /// Destination path honouring the grouping preference, before renaming.
    pub fn output_path_for(&self, file: &QueuedFile, target: &str) -> (r: String)
        ensures
            r@ == base_path(self.deep_view(), file.deep_view(), target@),
    {
        let dir = self.output_folder(file.kind);
        converters::resolve_output_path(file.path.as_str(), target, dir.as_str())
    }
}

// ---------------------------------------------------------------------------
// Starting a batch
// ---------------------------------------------------------------------------

/// What was found out before a batch starts.
#[derive(Debug)]
pub struct BatchFacts {
    /// Why the output folder cannot be used, if it cannot.
    pub folder_error: Option<String>,
    /// Which of the queued files are folders, in queue order.
    pub folders: Vec<bool>,
    /// The time, in milliseconds.
    pub now: u64,
}

/// One conversion to run.
#[derive(Debug)]
pub struct Job {
    pub id: u64,
    pub input: String,
    /// Folder to make first, where outputs are grouped.
    pub make_dir: Option<String>,
    /// Output path before renaming.
    pub base: String,
    /// Whether a taken output name is replaced by a free one.
    pub rename: bool,
    /// The options of the batch.
    pub opts: ConvertOptions,
}

/// What a [`Job`] says.
#[verifier::ext_equal]
pub struct JobView {
    pub id: u64,
    pub input: Seq<char>,
    pub make_dir: Option<Seq<char>>,
    pub base: Seq<char>,
    pub rename: bool,
    pub opts: ConvertOptions,
}

impl DeepView for Job {
    type V = JobView;

    open spec fn deep_view(&self) -> JobView {
        JobView {
            id: self.id,
            input: self.input@,
            make_dir: self.make_dir.deep_view(),
            base: self.base@,
            rename: self.rename,
            opts: self.opts,
        }
    }
}

/// What a batch does with a file.
pub enum Verdict {
    /// Leaves it alone.
    Pass,
    /// Marks it as failed, for this reason.
    Refuse(Seq<char>),
    /// Converts it to this target.
    Convert(Seq<char>),
}

/// What a batch does with a file.
pub open spec fn verdict(f: FileView, selected_only: bool, folder: bool) -> Verdict {
    if selected_only && !f.selected {
        Verdict::Pass
    } else if f.status == FileStatus::Converting || f.status == FileStatus::Done {
        Verdict::Pass
    } else {
        match queue::target_of(f) {
            None => Verdict::Refuse("Pick a target format first"@),
            Some(target) => if !converters::supported(f.source_ext, target) {
                Verdict::Refuse("Unsupported conversion: ."@ + f.source_ext + " → ."@ + target)
            } else if folder && target != "zip"@ && target != "tar.gz"@ {
                Verdict::Refuse("Folders can only be packed into .zip / .tar.gz"@)
            } else {
                Verdict::Convert(target)
            },
        }
    }
}

/// A file after the start of a batch.
pub open spec fn started(m: ModelView, f: FileView, v: Verdict, now: u64) -> FileView {
    match v {
        Verdict::Pass => f,
        Verdict::Refuse(why) => FileView { error: Some(why), status: FileStatus::Failed, ..f },
        Verdict::Convert(target) => FileView {
            status: FileStatus::Converting,
            progress: 50,
            error: None,
            start_time: Some(now),
            end_time: None,
            output_path: Some(base_path(m, f, target)),
            ..f
        },
    }
}

/// The job of a file that is converted.
pub open spec fn job_of(m: ModelView, f: FileView, target: Seq<char>) -> JobView {
    JobView {
        id: f.id,
        input: f.path,
        make_dir: if m.config.group_by_kind {
            Some(folder_for(m, f.kind))
        } else {
            None
        },
        base: base_path(m, f, target),
        rename: !m.config.overwrite_existing,
        opts: options_of(m),
    }
}

/// Whether the file at a place is a folder.
pub open spec fn folder_at(folders: Seq<bool>, i: int) -> bool {
    0 <= i < folders.len() && folders[i]
}

/// The verdict on the file at a place.
pub open spec fn verdict_at(m: ModelView, selected_only: bool, folders: Seq<bool>, i: int) -> Verdict {
    verdict(m.files[i], selected_only, folder_at(folders, i))
}

/// The jobs of the first `n` files, in queue order.
pub open spec fn jobs(m: ModelView, selected_only: bool, folders: Seq<bool>, n: nat) -> Seq<JobView>
    decreases n,
{
    if n == 0 {
        Seq::empty()
    } else {
        let before = jobs(m, selected_only, folders, (n - 1) as nat);
        match verdict_at(m, selected_only, folders, n - 1) {
            Verdict::Convert(target) => before.push(job_of(m, m.files[n - 1], target)),
            _ => before,
        }
    }
}

/// How many of the first `n` files are refused.
pub open spec fn refused(m: ModelView, selected_only: bool, folders: Seq<bool>, n: nat) -> nat
    decreases n,
{
    if n == 0 {
        0
    } else {
        refused(m, selected_only, folders, (n - 1) as nat) + match verdict_at(
            m,
            selected_only,
            folders,
            n - 1,
        ) {
            Verdict::Refuse(_) => 1nat,
            _ => 0nat,
        }
    }
}

/// The queue after the start of a batch.
pub open spec fn started_files(
    m: ModelView,
    selected_only: bool,
    folders: Seq<bool>,
    now: u64,
) -> Seq<FileView> {
    Seq::new(
        m.files.len(),
        |i: int| started(m, m.files[i], verdict_at(m, selected_only, folders, i), now),
    )
}

/// The banner after the start of a batch.
pub open spec fn batch_warning(selected_only: bool, count: nat, skipped: nat) -> Option<Seq<char>> {
    if count == 0 {
        if skipped > 0 {
            Some(
                "Nothing to convert — "@ + number::decimal(skipped)
                    + " file(s) need a valid target format."@,
            )
        } else if selected_only {
            Some("Nothing to convert — select files first."@)
        } else {
            Some("Nothing to convert — add files first."@)
        }
    } else if skipped > 0 {
        Some(number::decimal(skipped) + " file(s) skipped (invalid target)."@)
    } else {
        None
    }
}

/// The model after the start of a batch.
pub open spec fn batch_started(
    m: ModelView,
    selected_only: bool,
    folder_error: Option<Seq<char>>,
    folders: Seq<bool>,
    now: u64,
) -> ModelView {
    if m.is_converting {
        m
    } else {
        match folder_error {
            Some(why) => ModelView {
                warning: Some("Cannot use output folder "@ + m.output_dir + ": "@ + why),
                ..m
            },
            None => {
                let count = jobs(m, selected_only, folders, m.files.len()).len();
                ModelView {
                    files: started_files(m, selected_only, folders, now),
                    is_converting: count > 0,
                    warning: batch_warning(
                        selected_only,
                        count,
                        refused(m, selected_only, folders, m.files.len()),
                    ),
                    ..m
                }
            },
        }
    }
}

/// The jobs of a batch.
pub open spec fn batch_jobs(
    m: ModelView,
    selected_only: bool,
    folder_error: Option<Seq<char>>,
    folders: Seq<bool>,
) -> Seq<JobView> {
    if m.is_converting || folder_error is Some {
        Seq::empty()
    } else {
        jobs(m, selected_only, folders, m.files.len())
    }
}

/// What a batch does with a file.
enum Choice {
    Pass,
    Refuse(String),
    Convert(String),
}

impl DeepView for Choice {
    type V = Verdict;

    closed spec fn deep_view(&self) -> Verdict {
        match self {
            Choice::Pass => Verdict::Pass,
            Choice::Refuse(why) => Verdict::Refuse(why@),
            Choice::Convert(target) => Verdict::Convert(target@),
        }
    }
}

fn choose_for(file: &QueuedFile, selected_only: bool, folder: bool) -> (r: Choice)
    ensures
        r.deep_view() == verdict(file.deep_view(), selected_only, folder),
{
    if selected_only && !file.selected {
        return Choice::Pass;
    }
    if file.status == FileStatus::Converting || file.status == FileStatus::Done {
        return Choice::Pass;
    }
    match file.selected_target() {
        None => Choice::Refuse("Pick a target format first".to_owned()),
        Some(target) => {
            if !converters::is_supported(file.source_ext.as_str(), target) {
                return Choice::Refuse(
                    text::cat4(
                        "Unsupported conversion: .",
                        file.source_ext.as_str(),
                        " → .",
                        target,
                    ),
                );
            }
            if folder && !text::same(target, "zip") && !text::same(target, "tar.gz") {
                return Choice::Refuse(
                    "Folders can only be packed into .zip / .tar.gz".to_owned(),
                );
            }
            Choice::Convert(target.to_owned())
        },
    }
}

impl AppModel {
    /// Kick off a batch conversion of all files, or of the selected ones only;
    /// returns the conversions to run, with the options as they are now.
    pub fn start_batch(&mut self, selected_only: bool, facts: &BatchFacts) -> (r: Vec<Job>)
        ensures
            final(self).deep_view() == batch_started(
                old(self).deep_view(),
                selected_only,
                facts.folder_error.deep_view(),
                facts.folders@,
                facts.now,
            ),
            r.deep_view() == batch_jobs(
                old(self).deep_view(),
                selected_only,
                facts.folder_error.deep_view(),
                facts.folders@,
            ),
    {
        let ghost m = self.deep_view();
        let mut list: Vec<Job> = Vec::new();
        assert(list.deep_view() =~= Seq::empty());
        if self.is_converting {
            return list;
        }
        if let Some(err) = &facts.folder_error {
            self.warning = Some(
                text::cat4(
                    "Cannot use output folder ",
                    self.output_dir.as_str(),
                    ": ",
                    err.as_str(),
                ),
            );
            return list;
        }
        let opts = self.convert_options();
        let mut skipped: usize = 0;
        let n = self.files.len();
        let mut i: usize = 0;
        while i < n
            invariant
                i <= n,
                n == m.files.len(),
                opts == options_of(m),
                self.files@.len() == n,
                self.deep_view() == (ModelView { files: self.files.deep_view(), ..m }),
                forall|j: int|
                    0 <= j < i ==> (#[trigger] self.files@[j]).deep_view() == started(
                        m,
                        m.files[j],
                        verdict_at(m, selected_only, facts.folders@, j),
                        facts.now,
                    ),
                forall|j: int|
                    i <= j < n ==> (#[trigger] self.files@[j]).deep_view() == m.files[j],
                list.deep_view() == jobs(m, selected_only, facts.folders@, i as nat),
                skipped <= i,
                skipped == refused(m, selected_only, facts.folders@, i as nat),
            decreases n - i,
        {
            let folder = i < facts.folders.len() && facts.folders[i];
            let ghost v = verdict_at(m, selected_only, facts.folders@, i as int);
            let ghost before = self.files@;
            assert(self.files@[i as int].deep_view() == m.files[i as int]);
            match choose_for(&self.files[i], selected_only, folder) {
                Choice::Pass => {},
                Choice::Refuse(why) => {
                    let file = &mut self.files[i];
                    file.error = Some(why);
                    file.status = FileStatus::Failed;
                    skipped = skipped + 1;
                },
                Choice::Convert(target) => {
                    let kind = self.files[i].kind;
                    let base = self.output_path_for(&self.files[i], target.as_str());
                    let make_dir = if self.config.group_by_kind {
                        Some(self.output_folder(kind))
                    } else {
                        None
                    };
                    let job = Job {
                        id: self.files[i].id,
                        input: self.files[i].path.clone(),
                        make_dir,
                        base: base.clone(),
                        rename: !self.config.overwrite_existing,
                        opts,
                    };
                    assert(job.deep_view() == job_of(m, m.files[i as int], target@));
                    let ghost so_far = list.deep_view();
                    list.push(job);
                    assert(list.deep_view() =~= so_far.push(job_of(m, m.files[i as int], target@)));
                    let file = &mut self.files[i];
                    file.status = FileStatus::Converting;
                    file.progress = 50;
                    file.error = None;
                    file.start_time = Some(facts.now);
                    file.end_time = None;
                    file.output_path = Some(base);
                },
            }
            assert(self.files@[i as int].deep_view() == started(m, m.files[i as int], v, facts.now));
            i = i + 1;
        }
        assert(self.files.deep_view() =~= started_files(
            m,
            selected_only,
            facts.folders@,
            facts.now,
        ));
        if list.len() == 0 {
            self.warning = Some(
                if skipped > 0 {
                    text::cat3(
                        "Nothing to convert — ",
                        number::decimal_of(skipped as u64).as_str(),
                        " file(s) need a valid target format.",
                    )
                } else if selected_only {
                    "Nothing to convert — select files first.".to_owned()
                } else {
                    "Nothing to convert — add files first.".to_owned()
                },
            );
            return list;
        }
        self.is_converting = true;
        if skipped > 0 {
            self.warning = Some(
                text::cat(
                    number::decimal_of(skipped as u64).as_str(),
                    " file(s) skipped (invalid target).",
                ),
            );
        } else {
            self.warning = None;
        }
        list
    }

    /// Notes the output path that a running conversion writes to.
    pub fn set_output(&mut self, id: u64, path: String)
        ensures
            final(self).deep_view() == (match queue::place(old(self).deep_view().files, id) {
                Some(i) => ModelView {
                    files: old(self).deep_view().files.update(
                        i,
                        FileView {
                            output_path: Some(path@),
                            ..old(self).deep_view().files[i]
                        },
                    ),
                    ..old(self).deep_view()
                },
                None => old(self).deep_view(),
            }),
    {
        let ghost m = self.deep_view();
        if let Some(i) = self.find_file(id) {
            let ghost f = FileView { output_path: Some(path@), ..m.files[i as int] };
            let file = &mut self.files[i];
            file.output_path = Some(path);
            assert(self.files.deep_view() =~= m.files.update(i as int, f));
        }
    }
}

// ---------------------------------------------------------------------------
// The end of a batch
// ---------------------------------------------------------------------------

/// The summary of a finished batch.
pub open spec fn summary(m: ModelView) -> Seq<char> {
    let done = queue::count_status(m.files, FileStatus::Done);
    let failed = queue::count_status(m.files, FileStatus::Failed);
    if failed == 0 {
        "Converted "@ + number::decimal(done) + " file(s) to "@ + m.output_dir
    } else {
        "Finished: "@ + number::decimal(done) + " converted, "@ + number::decimal(failed)
            + " failed — see the queue for details"@
    }
}

/// What is announced when a batch is over, and the folder that is opened.
pub open spec fn announcement(m: ModelView) -> ActionView {
    ActionView::Announce(
        summary(m),
        if m.config.auto_open_output && queue::count_status(m.files, FileStatus::Done) > 0 {
            Some(m.output_dir)
        } else {
            None
        },
    )
}

impl AppModel {
    /// Summarise a finished batch.
    pub fn finish_batch(&self) -> (r: Action)
        ensures
            r.deep_view() == announcement(self.deep_view()),
    {
        let done = self.count_of(FileStatus::Done);
        let failed = self.count_of(FileStatus::Failed);
        let summary = if failed == 0 {
            text::cat4(
                "Converted ",
                number::decimal_of(done as u64).as_str(),
                " file(s) to ",
                self.output_dir.as_str(),
            )
        } else {
            text::cat5(
                "Finished: ",
                number::decimal_of(done as u64).as_str(),
                " converted, ",
                number::decimal_of(failed as u64).as_str(),
                " failed — see the queue for details",
            )
        };
        let open = if self.config.auto_open_output && done > 0 {
            Some(self.output_dir.clone())
        } else {
            None
        };
        Action::Announce(summary, open)
    }
}

} // verus!
