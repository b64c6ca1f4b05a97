//! Filling the queue: what a found path becomes, and which are taken.
use vstd::prelude::*;

use crate::app::AppModel;
use crate::app::FileStatus;
use crate::app::FileView;
use crate::app::ModelView;
use crate::app::QueuedFile;
use crate::converters;
use crate::converters::FileKind;
use crate::number;
use crate::outside::encoding;
use crate::outside::mime;
use crate::paths;
use crate::text;

verus! {

/// A path as it was found on disk.
#[derive(Debug)]
pub struct FoundPath {
    pub path: String,
    pub is_file: bool,
    pub is_dir: bool,
    /// Size in bytes, 0 where it is not known.
    pub size: u64,
    /// Width and height, where the file is a readable image.
    pub dimensions: Option<(u32, u32)>,
    /// The first bytes of the file, empty where it cannot be read.
    pub head: Vec<u8>,
}

/// What a [`FoundPath`] says.
pub struct FoundView {
    pub path: Seq<char>,
    pub is_file: bool,
    pub is_dir: bool,
    pub size: u64,
    pub dimensions: Option<(u32, u32)>,
    pub head: Seq<u8>,
}

impl DeepView for FoundPath {
    type V = FoundView;

    open spec fn deep_view(&self) -> FoundView {
        FoundView {
            path: self.path@,
            is_file: self.is_file,
            is_dir: self.is_dir,
            size: self.size,
            dimensions: self.dimensions,
            head: self.head@,
        }
    }
}

// ---------------------------------------------------------------------------
// Previews
// ---------------------------------------------------------------------------

/// How many bytes of a text file are looked at.
pub const PREVIEW_BYTES: usize = 4096;

/// How many characters of a line are shown.
pub const PREVIEW_CHARS: usize = 90;

/// Formats whose first line is shown.
pub open spec fn is_plain_text(e: Seq<char>) -> bool {
    ||| e == "txt"@
    ||| e == "md"@
    ||| e == "markdown"@
    ||| e == "csv"@
    ||| e == "tsv"@
    ||| e == "json"@
    ||| e == "html"@
}

/// A text without the byte order marks it starts with.
pub open spec fn strip_marks(s: Seq<char>) -> Seq<char>
    decreases s.len(),
{
    if s.len() > 0 && s[0] == '\u{FEFF}' {
        strip_marks(s.skip(1))
    } else {
        s
    }
}

/// A line cut to what is shown of it.
pub open spec fn cut_line(s: Seq<char>) -> Seq<char> {
    if s.len() > PREVIEW_CHARS {
        s.take(PREVIEW_CHARS as int).push('…')
    } else {
        s
    }
}

/// The first line that shows anything, cut.
pub open spec fn first_line(lines: Seq<Seq<char>>) -> Seq<char>
    decreases lines.len(),
{
    if lines.len() == 0 {
        Seq::empty()
    } else {
        let before = first_line(lines.drop_last());
        if before.len() > 0 {
            before
        } else {
            cut_line(strip_marks(text::trim(lines.last())))
        }
    }
}

/// The start of a file's bytes.
pub open spec fn start_of(bytes: Seq<u8>) -> Seq<u8> {
    if bytes.len() > PREVIEW_BYTES {
        bytes.take(PREVIEW_BYTES as int)
    } else {
        bytes
    }
}

/// The one-line preview of a file: the size of an image, the first line of a
/// text, nothing else.
pub open spec fn preview(kind: FileKind, ext: Seq<char>, found: FoundView) -> Seq<char> {
    if kind == FileKind::Image {
        match found.dimensions {
            Some((w, h)) => number::decimal(w as nat) + " × "@ + number::decimal(h as nat)
                + " px"@,
            None => Seq::empty(),
        }
    } else if (kind == FileKind::Document || kind == FileKind::Tabular) && is_plain_text(ext) {
        if found.head.len() == 0 {
            Seq::empty()
        } else {
            first_line(text::lines(encoding::lossy(start_of(found.head))))
        }
    } else {
        Seq::empty()
    }
}

/// The string without the byte order marks it starts with.
fn without_marks(s: &str) -> (r: &str)
    ensures
        r@ == strip_marks(s@),
{
    let n = s.unicode_len();
    let mut i: usize = 0;
    assert(s@.skip(0) =~= s@);
    while i < n && s.get_char(i) == '\u{FEFF}'
        invariant
            n == s@.len(),
            i <= n,
            strip_marks(s@.skip(i as int)) == strip_marks(s@),
        decreases n - i,
    {
        assert(s@.skip(i as int).skip(1) =~= s@.skip(i + 1));
        i = i + 1;
    }
    let r = s.substring_char(i, n);
    assert(r@ =~= s@.skip(i as int));
    r
}

/// The first line that shows anything, cut.
pub fn first_line_of(lines: &Vec<String>) -> (r: String)
    ensures
        r@ == first_line(lines.deep_view()),
{
    let ghost all = lines.deep_view();
    for i in 0..lines.len()
        invariant
            all == lines.deep_view(),
            first_line(all.take(i as int)).len() == 0,
    {
        proof {
            assert(all.take(i + 1).drop_last() =~= all.take(i as int));
            assert(all[i as int] == lines@[i as int]@);
        }
        let shown = without_marks(text::trimmed(lines[i].as_str()));
        if !shown.is_empty() {
            let n = shown.unicode_len();
            let r = if n > PREVIEW_CHARS {
                let mut cut = shown.substring_char(0, PREVIEW_CHARS).to_owned();
                assert(cut@ =~= shown@.take(PREVIEW_CHARS as int));
                cut.push('…');
                cut
            } else {
                shown.to_owned()
            };
            proof {
                assert(r@ == first_line(all.take(i + 1)));
                lemma_first_line_stays(all, i + 1);
            }
            return r;
        }
    }
    assert(all.take(all.len() as int) =~= all);
    assert(first_line(all) =~= Seq::empty());
    String::new()
}

/// Once a line shows something, later lines do not matter.
proof fn lemma_first_line_stays(lines: Seq<Seq<char>>, k: int)
    requires
        0 <= k <= lines.len(),
        first_line(lines.take(k)).len() > 0,
    ensures
        first_line(lines) == first_line(lines.take(k)),
    decreases lines.len(),
{
    if k == lines.len() {
        assert(lines.take(k) =~= lines);
    } else {
        assert(lines.drop_last().take(k) =~= lines.take(k));
        lemma_first_line_stays(lines.drop_last(), k);
    }
}

/// One-line preview for queue cards.
pub fn file_preview(kind: FileKind, ext: &str, found: &FoundPath) -> (r: String)
    ensures
        r@ == preview(kind, ext@, found.deep_view()),
{
    match kind {
        FileKind::Image => match found.dimensions {
            Some((w, h)) => text::cat4(
                number::decimal_of(w as u64).as_str(),
                " × ",
                number::decimal_of(h as u64).as_str(),
                " px",
            ),
            None => String::new(),
        },
        FileKind::Document | FileKind::Tabular => {
            let shown = text::same(ext, "txt") || text::same(ext, "md") || text::same(
                ext,
                "markdown",
            ) || text::same(ext, "csv") || text::same(ext, "tsv") || text::same(ext, "json")
                || text::same(ext, "html");
            if !shown || found.head.len() == 0 {
                return String::new();
            }
            let head = if found.head.len() > PREVIEW_BYTES {
                vstd::slice::slice_subrange(found.head.as_slice(), 0, PREVIEW_BYTES)
            } else {
                found.head.as_slice()
            };
            assert(head@ =~= start_of(found.head@));
            let all = encoding::lossy_text(head);
            first_line_of(&text::lines_of(all.as_str()))
        },
        _ => String::new(),
    }
}

// ---------------------------------------------------------------------------
// Queue entries
// ---------------------------------------------------------------------------

/// The targets that suit a source best, best first.
pub open spec fn preferred(ext: Seq<char>) -> Seq<Seq<char>> {
    if ext == "csv"@ || ext == "tsv"@ {
        seq!["xlsx"@]
    } else if converters::is_workbook(ext) || ext == "json"@ {
        seq!["csv"@]
    } else if ext == "png"@ || ext == "bmp"@ || ext == "tiff"@ || ext == "tif"@ || ext == "gif"@ {
        seq!["jpg"@]
    } else if ext == "jpg"@ || ext == "jpeg"@ || ext == "webp"@ {
        seq!["png"@]
    } else if ext == "mp3"@ || ext == "wav"@ || ext == "ogg"@ || ext == "flac"@ || ext == "aac"@ {
        seq!["mp3"@, "wav"@]
    } else if ext == "mp4"@ || ext == "mkv"@ || ext == "webm"@ || ext == "avi"@ || ext == "mov"@ {
        seq!["mp3"@]
    } else if ext == "txt"@ || ext == "md"@ || ext == "markdown"@ {
        seq!["pdf"@, "html"@]
    } else if ext == "html"@ || ext == "pdf"@ {
        seq!["txt"@]
    } else if ext == "zip"@ || ext == "tar"@ || ext == "gz"@ {
        seq!["extract"@]
    } else {
        seq!["zip"@]
    }
}

/// Where the first of some wishes stands that a list holds at all.
pub open spec fn first_of(wishes: Seq<Seq<char>>, targets: Seq<Seq<char>>) -> Option<usize>
    decreases wishes.len(),
{
    if wishes.len() == 0 {
        None
    } else {
        match first_of(wishes.drop_last(), targets) {
            Some(i) => Some(i),
            None => text::position(targets, wishes.last()),
        }
    }
}

/// The target picked at first: the best that is on offer, else the first.
pub open spec fn default_index(ext: Seq<char>, targets: Seq<Seq<char>>) -> Option<usize> {
    match first_of(preferred(ext), targets) {
        Some(i) => Some(i),
        None => if targets.len() == 0 {
            None
        } else {
            Some(0)
        },
    }
}

fn one(a: &str) -> (r: Vec<String>)
    ensures
        r.deep_view() == seq![a@],
{
    let r = vec![a.to_owned()];
    assert(r.deep_view() =~= seq![a@]);
    r
}

fn two(a: &str, b: &str) -> (r: Vec<String>)
    ensures
        r.deep_view() == seq![a@, b@],
{
    let r = vec![a.to_owned(), b.to_owned()];
    assert(r.deep_view() =~= seq![a@, b@]);
    r
}

fn preferred_targets(ext: &str) -> (r: Vec<String>)
    ensures
        r.deep_view() == preferred(ext@),
{
    if text::same(ext, "csv") || text::same(ext, "tsv") {
        one("xlsx")
    } else if converters::workbook_ext(ext) || text::same(ext, "json") {
        one("csv")
    } else if text::same(ext, "png") || text::same(ext, "bmp") || text::same(ext, "tiff")
        || text::same(ext, "tif") || text::same(ext, "gif") {
        one("jpg")
    } else if text::same(ext, "jpg") || text::same(ext, "jpeg") || text::same(ext, "webp") {
        one("png")
    } else if text::same(ext, "mp3") || text::same(ext, "wav") || text::same(ext, "ogg")
        || text::same(ext, "flac") || text::same(ext, "aac") {
        two("mp3", "wav")
    } else if text::same(ext, "mp4") || text::same(ext, "mkv") || text::same(ext, "webm")
        || text::same(ext, "avi") || text::same(ext, "mov") {
        one("mp3")
    } else if text::same(ext, "txt") || text::same(ext, "md") || text::same(ext, "markdown") {
        two("pdf", "html")
    } else if text::same(ext, "html") || text::same(ext, "pdf") {
        one("txt")
    } else if text::same(ext, "zip") || text::same(ext, "tar") || text::same(ext, "gz") {
        one("extract")
    } else {
        one("zip")
    }
}

/// Sensible default target per source extension (first match wins).
pub fn default_target_index(source_ext: &str, targets: &Vec<String>) -> (r: Option<usize>)
    ensures
        r == default_index(source_ext@, targets.deep_view()),
        r matches Some(i) ==> i < targets@.len(),
{
    let wishes = preferred_targets(source_ext);
    let ghost all = wishes.deep_view();
    let mut found: Option<usize> = None;
    for i in 0..wishes.len()
        invariant
            all == wishes.deep_view(),
            found == first_of(all.take(i as int), targets.deep_view()),
            found matches Some(k) ==> k < targets@.len(),
    {
        assert(all.take(i + 1).drop_last() =~= all.take(i as int));
        assert(all[i as int] == wishes@[i as int]@);
        if found.is_none() {
            found = text::position_of(targets, wishes[i].as_str());
        }
    }
    assert(all.take(all.len() as int) =~= all);
    if found.is_some() {
        found
    } else if targets.len() == 0 {
        None
    } else {
        Some(0)
    }
}

/// The name shown for a path.
pub open spec fn shown_name(path: Seq<char>) -> Seq<char> {
    match paths::file_name(path) {
        Some(name) => name,
        None => "unknown"@,
    }
}

fn shown_name_of(path: &str) -> (r: String)
    ensures
        r@ == shown_name(path@),
{
    match paths::file_name_of(path) {
        Some(name) => name,
        None => "unknown".to_owned(),
    }
}

/// The queue entry of a found path.
pub open spec fn entry(id: u64, found: FoundView) -> FileView {
    let ext = converters::ext(found.path);
    let kind = converters::path_kind(found.path);
    let targets = converters::targets(ext);
    FileView {
        id,
        path: found.path,
        file_name: shown_name(found.path),
        size: found.size,
        source_ext: ext,
        mime: mime::guessed_mime(found.path),
        kind,
        targets,
        target_idx: default_index(ext, targets),
        status: FileStatus::Pending,
        progress: 0,
        error: None,
        output_path: None,
        selected: false,
        start_time: None,
        end_time: None,
        preview: preview(kind, ext, found),
    }
}

/// The picked target of a file.
pub open spec fn target_of(f: FileView) -> Option<Seq<char>> {
    match f.target_idx {
        Some(i) => if i < f.targets.len() {
            Some(f.targets[i as int])
        } else {
            None
        },
        None => None,
    }
}

/// Why the picked target cannot be reached, if it cannot.
pub open spec fn complaint(f: FileView) -> Option<Seq<char>> {
    match target_of(f) {
        Some(target) => if converters::supported(f.source_ext, target) {
            None
        } else {
            Some("Cannot convert ."@ + f.source_ext + " to ."@ + target)
        },
        None => None,
    }
}

impl QueuedFile {
    /// Build a queue entry from a found path.
    pub fn from_path(id: u64, found: FoundPath) -> (r: Self)
        ensures
            r.deep_view() == entry(id, found.deep_view()),
    {
        let file_name = shown_name_of(found.path.as_str());
        let source_ext = converters::extension_of(found.path.as_str());
        let kind = converters::kind_of_path(found.path.as_str());
        let targets = converters::targets_for(source_ext.as_str());
        let target_idx = default_target_index(source_ext.as_str(), &targets);
        let preview = file_preview(kind, source_ext.as_str(), &found);
        QueuedFile {
            id,
            path: found.path,
            file_name,
            size: found.size,
            source_ext,
            mime: String::new(),
            kind,
            targets,
            target_idx,
            status: FileStatus::Pending,
            progress: 0,
            error: None,
            output_path: None,
            selected: false,
            start_time: None,
            end_time: None,
            preview,
        }.with_mime()
    }

    /// The entry with its MIME type filled in.
    pub fn with_mime(self) -> (r: Self)
        ensures
            r.deep_view() == (FileView {
                mime: mime::guessed_mime(self.path@),
                ..self.deep_view()
            }),
    {
        let mime = converters::mime_of(self.path.as_str());
        QueuedFile { mime, ..self }
    }

    /// Currently selected target extension, if any.
    pub fn selected_target(&self) -> (r: Option<&str>)
        ensures
            r.is_some() == target_of(self.deep_view()).is_some(),
            r matches Some(t) ==> target_of(self.deep_view()) == Some(t@),
    {
        match self.target_idx {
            Some(i) => if i < self.targets.len() {
                assert(self.targets.deep_view()[i as int] == self.targets@[i as int]@);
                Some(self.targets[i].as_str())
            } else {
                None
            },
            None => None,
        }
    }

    /// Index of the selected target for the dropdown widget.
    pub fn selected_index(&self) -> (r: Option<usize>)
        ensures
            r == (if target_of(self.deep_view()) is Some {
                self.target_idx
            } else {
                None
            }),
    {
        match self.target_idx {
            Some(i) => if i < self.targets.len() {
                Some(i)
            } else {
                None
            },
            None => None,
        }
    }

    /// Validation message when the current pair cannot convert, else `None`.
    pub fn validation_error(&self) -> (r: Option<String>)
        ensures
            r.deep_view() == complaint(self.deep_view()),
    {
        match self.selected_target() {
            Some(target) => if converters::is_supported(self.source_ext.as_str(), target) {
                None
            } else {
                Some(text::cat4("Cannot convert .", self.source_ext.as_str(), " to .", target))
            },
            None => None,
        }
    }
}

// ---------------------------------------------------------------------------
// Looking files up
// ---------------------------------------------------------------------------

/// Where the first file with an id stands.
pub open spec fn place(files: Seq<FileView>, id: u64) -> Option<int>
    decreases files.len(),
{
    if files.len() == 0 {
        None
    } else {
        match place(files.drop_last(), id) {
            Some(i) => Some(i),
            None => if files.last().id == id {
                Some(files.len() - 1)
            } else {
                None
            },
        }
    }
}

/// How many files have a status.
pub open spec fn count_status(files: Seq<FileView>, status: FileStatus) -> nat
    decreases files.len(),
{
    if files.len() == 0 {
        0
    } else {
        count_status(files.drop_last(), status) + if files.last().status == status {
            1nat
        } else {
            0nat
        }
    }
}

/// How many files are selected.
pub open spec fn count_selected(files: Seq<FileView>) -> nat
    decreases files.len(),
{
    if files.len() == 0 {
        0
    } else {
        count_selected(files.drop_last()) + if files.last().selected {
            1nat
        } else {
            0nat
        }
    }
}

/// A place is in the list and holds the id; where there is none, nothing has
/// the id.
pub proof fn lemma_place(files: Seq<FileView>, id: u64)
    ensures
        place(files, id) matches Some(i) ==> 0 <= i < files.len() && files[i].id == id,
        place(files, id) is None ==> forall|j: int|
            0 <= j < files.len() ==> (#[trigger] files[j]).id != id,
    decreases files.len(),
{
    if files.len() > 0 {
        lemma_place(files.drop_last(), id);
        if place(files, id) is None {
            assert forall|j: int| 0 <= j < files.len() implies (#[trigger] files[j]).id != id by {
                if j < files.len() - 1 {
                    assert(files.drop_last()[j] == files[j]);
                }
            }
        }
    }
}

impl AppModel {
    /// Where the first file with an id stands.
    pub fn find_file(&self, id: u64) -> (r: Option<usize>)
        ensures
            match r {
                Some(i) => i < self.files@.len() && place(self.deep_view().files, id) == Some(
                    i as int,
                ),
                None => place(self.deep_view().files, id) is None,
            },
    {
        let ghost all = self.deep_view().files;
        let mut found: Option<usize> = None;
        for i in 0..self.files.len()
            invariant
                all == self.deep_view().files,
                match found {
                    Some(k) => k < i && place(all.take(i as int), id) == Some(k as int),
                    None => place(all.take(i as int), id) is None,
                },
        {
            assert(all.take(i + 1).drop_last() =~= all.take(i as int));
            assert(all[i as int] == self.files@[i as int].deep_view());
            if found.is_none() && self.files[i].id == id {
                found = Some(i);
            }
        }
        assert(all.take(all.len() as int) =~= all);
        found
    }

    /// How many files have a status.
    pub fn count_of(&self, status: FileStatus) -> (r: usize)
        ensures
            r == count_status(self.deep_view().files, status),
    {
        let ghost all = self.deep_view().files;
        let mut n: usize = 0;
        for i in 0..self.files.len()
            invariant
                all == self.deep_view().files,
                n <= i,
                n == count_status(all.take(i as int), status),
        {
            assert(all.take(i + 1).drop_last() =~= all.take(i as int));
            assert(all[i as int] == self.files@[i as int].deep_view());
            if self.files[i].status == status {
                n = n + 1;
            }
        }
        assert(all.take(all.len() as int) =~= all);
        n
    }

    /// How many files are selected.
    pub fn selected_count(&self) -> (r: usize)
        ensures
            r == count_selected(self.deep_view().files),
    {
        let ghost all = self.deep_view().files;
        let mut n: usize = 0;
        for i in 0..self.files.len()
            invariant
                all == self.deep_view().files,
                n <= i,
                n == count_selected(all.take(i as int)),
        {
            assert(all.take(i + 1).drop_last() =~= all.take(i as int));
            assert(all[i as int] == self.files@[i as int].deep_view());
            if self.files[i].selected {
                n = n + 1;
            }
        }
        assert(all.take(all.len() as int) =~= all);
        n
    }
}

// ---------------------------------------------------------------------------
// Batch targets
// ---------------------------------------------------------------------------

/// The source extensions of the files that are not being converted.
pub open spec fn idle_exts(files: Seq<FileView>) -> Seq<Seq<char>>
    decreases files.len(),
{
    if files.len() == 0 {
        Seq::empty()
    } else if files.last().status == FileStatus::Converting {
        idle_exts(files.drop_last())
    } else {
        idle_exts(files.drop_last()).push(files.last().source_ext)
    }
}

/// The targets that the batch dropdown offers for a queue.
pub open spec fn offered(files: Seq<FileView>) -> Seq<Seq<char>> {
    converters::batch_targets(idle_exts(files))
}

/// The model with a batch target that is no longer on offer let go.
pub open spec fn settle(m: ModelView) -> ModelView {
    match m.global_target_idx {
        Some(i) => if i < offered(m.files).len() {
            m
        } else {
            ModelView { global_target_idx: None, ..m }
        },
        None => m,
    }
}

// ---------------------------------------------------------------------------
// Adding paths
// ---------------------------------------------------------------------------

/// What adding paths has come to so far.
#[verifier::ext_equal]
pub struct Intake {
    pub files: Seq<FileView>,
    pub next_id: u64,
    pub added: nat,
    pub rejected: Seq<Seq<char>>,
    pub notes: Seq<Seq<char>>,
}

/// Whether a path is in a queue already.
pub open spec fn queued(files: Seq<FileView>, path: Seq<char>) -> bool {
    exists|i: int|
        0 <= i < files.len() && paths::components((#[trigger] files[i]).path) == paths::components(
            path,
        )
}

/// A new entry, with what speaks against it.
pub open spec fn new_entry(id: u64, found: FoundView) -> FileView {
    let e = entry(id, found);
    if e.targets.len() == 0 {
        FileView { error: Some("Unsupported file type"@), ..e }
    } else {
        match complaint(e) {
            Some(why) => FileView { error: Some(why), ..e },
            None => e,
        }
    }
}

/// One more path: a repetition is noted, what is not there is rejected,
/// anything else joins the queue under the next id.
pub open spec fn take_in(s: Intake, found: FoundView) -> Intake {
    if queued(s.files, found.path) {
        Intake { notes: s.notes.push(shown_name(found.path) + " (already in queue)"@), ..s }
    } else if !found.is_file && !found.is_dir {
        Intake {
            rejected: s.rejected.push(shown_name(found.path) + " (not found or unreadable)"@),
            ..s
        }
    } else {
        Intake {
            files: s.files.push(new_entry(s.next_id, found)),
            next_id: (s.next_id + 1) as u64,
            added: s.added + 1,
            ..s
        }
    }
}

/// Adding a list of paths, in order.
pub open spec fn intake(m: ModelView, found: Seq<FoundView>) -> Intake
    decreases found.len(),
{
    if found.len() == 0 {
        Intake {
            files: m.files,
            next_id: m.next_id,
            added: 0,
            rejected: Seq::empty(),
            notes: Seq::empty(),
        }
    } else {
        take_in(intake(m, found.drop_last()), found.last())
    }
}

/// The parts of the banner after adding paths.
pub open spec fn intake_parts(s: Intake) -> Seq<Seq<char>> {
    let added = if s.added > 0 {
        seq!["Added "@ + number::decimal(s.added) + " file(s)"@]
    } else {
        Seq::empty()
    };
    let rejected = if s.rejected.len() > 0 {
        added.push("Skipped: "@ + text::join(s.rejected, ", "@))
    } else {
        added
    };
    if s.notes.len() > 0 {
        rejected.push("Notes: "@ + text::join(s.notes, ", "@))
    } else {
        rejected
    }
}

/// The model after adding paths.
pub open spec fn with_paths(m: ModelView, found: Seq<FoundView>) -> ModelView {
    if found.len() == 0 {
        m
    } else {
        let s = intake(m, found);
        let parts = intake_parts(s);
        settle(
            ModelView {
                files: s.files,
                next_id: s.next_id,
                warning: if parts.len() > 0 {
                    Some(text::join(parts, ". "@))
                } else {
                    None
                },
                ..m
            },
        )
    }
}

/// Ids grow by one at most with each path.
pub proof fn lemma_intake_ids(m: ModelView, found: Seq<FoundView>)
    requires
        m.next_id + found.len() <= u64::MAX,
    ensures
        m.next_id <= intake(m, found).next_id <= m.next_id + found.len(),
        intake(m, found).added <= found.len(),
    decreases found.len(),
{
    if found.len() > 0 {
        lemma_intake_ids(m, found.drop_last());
    }
}

impl AppModel {
    /// Whether a path is in the queue already.
    pub fn is_queued(&self, path: &str) -> (r: bool)
        ensures
            r == queued(self.deep_view().files, path@),
    {
        let ghost all = self.deep_view().files;
        for i in 0..self.files.len()
            invariant
                all == self.deep_view().files,
                forall|j: int|
                    0 <= j < i ==> paths::components((#[trigger] all[j]).path)
                        != paths::components(path@),
        {
            assert(all[i as int] == self.files@[i as int].deep_view());
            if paths::same_path(self.files[i].path.as_str(), path) {
                return true;
            }
        }
        false
    }

    /// Batch dropdown options for the current queue contents.
    pub fn batch_targets(&self) -> (r: Vec<String>)
        ensures
            r.deep_view() == offered(self.deep_view().files),
    {
        let ghost all = self.deep_view().files;
        let mut exts: Vec<String> = Vec::new();
        assert(exts.deep_view() =~= idle_exts(all.take(0)));
        for i in 0..self.files.len()
            invariant
                all == self.deep_view().files,
                exts.deep_view() == idle_exts(all.take(i as int)),
        {
            assert(all.take(i + 1).drop_last() =~= all.take(i as int));
            assert(all[i as int] == self.files@[i as int].deep_view());
            let ghost before = exts.deep_view();
            if self.files[i].status != FileStatus::Converting {
                exts.push(self.files[i].source_ext.clone());
                assert(exts.deep_view() =~= before.push(all[i as int].source_ext));
            }
        }
        assert(all.take(all.len() as int) =~= all);
        converters::batch_targets_for(&exts)
    }

    /// Lets a batch target go that is no longer on offer.
    pub fn settle_target(&mut self)
        ensures
            final(self).deep_view() == settle(old(self).deep_view()),
    {
        if let Some(i) = self.global_target_idx {
            let on_offer = self.batch_targets();
            if i >= on_offer.len() {
                self.global_target_idx = None;
            }
        }
    }

    /// Add dropped or picked paths to the queue, each once.
    pub fn add_paths(&mut self, found: Vec<FoundPath>)
        requires
            old(self).next_id + found@.len() <= u64::MAX,
        ensures
            final(self).deep_view() == with_paths(old(self).deep_view(), found.deep_view()),
    {
        if found.len() == 0 {
            return;
        }
        let ghost m = self.deep_view();
        let ghost all = found.deep_view();
        let mut added: u64 = 0;
        let mut rejected: Vec<String> = Vec::new();
        let mut notes: Vec<String> = Vec::new();
        assert(rejected.deep_view() =~= Seq::empty());
        assert(notes.deep_view() =~= Seq::empty());
        for path in it: found
            invariant
                it.seq() == found@,
                all == found.deep_view(),
                m.next_id + found@.len() <= u64::MAX,
                ({
                    let s = intake(m, all.take(it.index() as int));
                    &&& self.deep_view() == (ModelView { files: s.files, next_id: s.next_id, ..m })
                    &&& added == s.added
                    &&& rejected.deep_view() == s.rejected
                    &&& notes.deep_view() == s.notes
                }),
        {
            let ghost k = it.index() as int;
            let ghost s = intake(m, all.take(k));
            proof {
                lemma_intake_ids(m, all.take(k));
                assert(all.take(k + 1).drop_last() =~= all.take(k));
                assert(all[k] == path.deep_view());
                assert(intake(m, all.take(k + 1)) == take_in(s, path.deep_view()));
            }
            if self.is_queued(path.path.as_str()) {
                let name = shown_name_of(path.path.as_str());
                notes.push(text::cat(name.as_str(), " (already in queue)"));
                assert(notes.deep_view() =~= s.notes.push(
                    shown_name(path.path@) + " (already in queue)"@,
                ));
            } else if !path.is_file && !path.is_dir {
                let name = shown_name_of(path.path.as_str());
                rejected.push(text::cat(name.as_str(), " (not found or unreadable)"));
                assert(rejected.deep_view() =~= s.rejected.push(
                    shown_name(path.path@) + " (not found or unreadable)"@,
                ));
            } else {
                let ghost seen = path.deep_view();
                let mut entry = QueuedFile::from_path(self.next_id, path);
                self.next_id = self.next_id + 1;
                if entry.targets.len() == 0 {
                    entry.error = Some("Unsupported file type".to_owned());
                } else if let Some(err) = entry.validation_error() {
                    entry.error = Some(err);
                }
                assert(entry.deep_view() == new_entry(s.next_id, seen));
                self.files.push(entry);
                assert(self.files.deep_view() =~= s.files.push(new_entry(s.next_id, seen)));
                added = added + 1;
            }
        }
        let ghost s = intake(m, all);
        assert(all.take(all.len() as int) =~= all);
        let mut parts: Vec<String> = Vec::new();
        assert(parts.deep_view() =~= Seq::empty());
        if added > 0 {
            parts.push(text::cat3("Added ", number::decimal_of(added).as_str(), " file(s)"));
            assert(parts.deep_view() =~= seq!["Added "@ + number::decimal(s.added) + " file(s)"@]);
        }
        if rejected.len() > 0 {
            let ghost before = parts.deep_view();
            parts.push(text::cat("Skipped: ", text::joined(&rejected, ", ").as_str()));
            assert(parts.deep_view() =~= before.push("Skipped: "@ + text::join(s.rejected, ", "@)));
        }
        if notes.len() > 0 {
            let ghost before = parts.deep_view();
            parts.push(text::cat("Notes: ", text::joined(&notes, ", ").as_str()));
            assert(parts.deep_view() =~= before.push("Notes: "@ + text::join(s.notes, ", "@)));
        }
        assert(parts.deep_view() == intake_parts(s));
        if parts.len() > 0 {
            self.warning = Some(text::joined(&parts, ". "));
        } else {
            self.warning = None;
        }
        self.settle_target();
    }
}

} // verus!
