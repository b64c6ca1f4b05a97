//! Conversion registry: file kinds, the supported conversion matrix, output
//! paths and the dispatcher.
//!
//! Engines:
//! - [`tabular`]: CSV / XLSX / JSON
//! - [`images`]: PNG / JPEG / WebP / BMP / TIFF / GIF
//! - [`media`]: audio and video through `ffmpeg`
//! - [`document`]: TXT / MD / HTML / PDF
//! - [`archive`]: ZIP / TAR / TAR.GZ
use vstd::prelude::*;

use crate::outside::mime;
use crate::outside::picture;
use crate::outside::picture::Picture;
use crate::outside::tars::Stamp;
use crate::paths;
use crate::text;

pub mod archive;
pub mod archive_laws;
pub mod csv_laws;
pub mod document;
pub mod document_laws;
pub mod html_laws;
pub mod image_laws;
pub mod images;
pub mod json_laws;
pub mod json_table;
pub mod laws;
pub mod markup_laws;
pub mod media;
pub mod media_laws;
pub mod names;
pub mod packing;
pub mod page_laws;
pub mod registry_laws;
pub mod table;
pub mod table_laws;
pub mod tabular;
pub mod unpacking;
pub mod workbook_laws;
pub mod workbook_table;
pub mod wrap_laws;
pub mod xlsx;
pub mod xlsx_laws;

verus! {

// ---------------------------------------------------------------------------
// Errors
// ---------------------------------------------------------------------------

/// Every failure a converter can report. The messages are shown to the user.
#[derive(Debug)]
pub enum ConversionError {
    /// The input file could not be read.
    UnreadableInput { path: String, reason: String },
    /// The output file could not be written.
    UnwritableOutput { path: String, reason: String },
    /// The input content is malformed for its claimed format.
    MalformedData { path: String, format: String, reason: String },
    /// The requested conversion pair is not supported.
    UnsupportedConversion { from: String, to: String },
    /// An external helper is missing or failed.
    ExternalTool(String),
    /// Underlying I/O error.
    Io(String),
}

/// What a [`ConversionError`] says.
#[verifier::ext_equal]
pub enum Failure {
    UnreadableInput { path: Seq<char>, reason: Seq<char> },
    UnwritableOutput { path: Seq<char>, reason: Seq<char> },
    MalformedData { path: Seq<char>, format: Seq<char>, reason: Seq<char> },
    UnsupportedConversion { from: Seq<char>, to: Seq<char> },
    ExternalTool(Seq<char>),
    Io(Seq<char>),
}

impl DeepView for ConversionError {
    type V = Failure;

    open spec fn deep_view(&self) -> Failure {
        match self {
            ConversionError::UnreadableInput { path, reason } => Failure::UnreadableInput {
                path: path@,
                reason: reason@,
            },
            ConversionError::UnwritableOutput { path, reason } => Failure::UnwritableOutput {
                path: path@,
                reason: reason@,
            },
            ConversionError::MalformedData { path, format, reason } => Failure::MalformedData {
                path: path@,
                format: format@,
                reason: reason@,
            },
            ConversionError::UnsupportedConversion { from, to } => Failure::UnsupportedConversion {
                from: from@,
                to: to@,
            },
            ConversionError::ExternalTool(detail) => Failure::ExternalTool(detail@),
            ConversionError::Io(detail) => Failure::Io(detail@),
        }
    }
}

/// The text shown for a failure.
pub open spec fn failure_text(f: Failure) -> Seq<char> {
    match f {
        Failure::UnreadableInput { path, reason } => "cannot read input file '"@ + path + "': "@
            + reason,
        Failure::UnwritableOutput { path, reason } => "cannot write output file '"@ + path
            + "': "@ + reason,
        Failure::MalformedData { path, format, reason } => "malformed "@ + format + " data in '"@
            + path + "': "@ + reason,
        Failure::UnsupportedConversion { from, to } => "unsupported conversion: "@ + from + " → "@
            + to,
        Failure::ExternalTool(detail) => "external tool failed: "@ + detail,
        Failure::Io(detail) => "I/O error: "@ + detail,
    }
}

impl ConversionError {
    /// The text shown to the user.
    pub fn message(&self) -> (r: String)
        ensures
            r@ == failure_text(self.deep_view()),
    {
        match self {
            ConversionError::UnreadableInput { path, reason } => text::cat4(
                "cannot read input file '",
                path.as_str(),
                "': ",
                reason.as_str(),
            ),
            ConversionError::UnwritableOutput { path, reason } => text::cat4(
                "cannot write output file '",
                path.as_str(),
                "': ",
                reason.as_str(),
            ),
            ConversionError::MalformedData { path, format, reason } => {
                let mut out = text::cat5(
                    "malformed ",
                    format.as_str(),
                    " data in '",
                    path.as_str(),
                    "': ",
                );
                out.append(reason.as_str());
                out
            },
            ConversionError::UnsupportedConversion { from, to } => text::cat4(
                "unsupported conversion: ",
                from.as_str(),
                " → ",
                to.as_str(),
            ),
            ConversionError::ExternalTool(detail) => text::cat(
                "external tool failed: ",
                detail.as_str(),
            ),
            ConversionError::Io(detail) => text::cat("I/O error: ", detail.as_str()),
        }
    }
}

/// What a bytes result says.
pub open spec fn bytes_result(r: Result<Vec<u8>, ConversionError>) -> Result<Seq<u8>, Failure> {
    match r {
        Ok(b) => Ok(b@),
        Err(e) => Err(e.deep_view()),
    }
}

/// What a text result says.
pub open spec fn text_result(r: Result<String, ConversionError>) -> Result<Seq<char>, Failure> {
    match r {
        Ok(s) => Ok(s@),
        Err(e) => Err(e.deep_view()),
    }
}

// ---------------------------------------------------------------------------
// Sources
// ---------------------------------------------------------------------------

/// What was found where the input should be.
#[derive(Debug)]
pub struct Source {
    pub exists: bool,
    pub is_file: bool,
    pub is_dir: bool,
    /// The bytes of the file, or why they cannot be read.
    pub content: Result<Vec<u8>, String>,
    /// The image in the file, or why there is none.
    pub picture: Result<image::DynamicImage, String>,
    /// The sheets of the workbook in the file, or why there are none.
    pub workbook: Result<Vec<workbook_table::SheetCells>, String>,
    /// The owner, the rights and the time of the file.
    pub stamp: Stamp,
    /// What a walk through the folder came upon.
    pub found: Vec<packing::Walked>,
}

/// What a [`Source`] holds.
#[verifier::ext_equal]
pub struct SourceView {
    pub exists: bool,
    pub is_file: bool,
    pub is_dir: bool,
    pub content: Result<Seq<u8>, Seq<char>>,
    pub picture: Result<Picture, Seq<char>>,
    pub workbook: workbook_table::Book,
    pub stamp: Stamp,
    pub found: Seq<packing::WalkedView>,
}

/// What decoding an image came to.
pub open spec fn picture_view(r: Result<image::DynamicImage, String>) -> Result<
    Picture,
    Seq<char>,
> {
    match r {
        Ok(img) => Ok(picture::picture_held(img)),
        Err(reason) => Err(reason@),
    }
}

/// What a read came to.
pub open spec fn content_view(r: Result<Vec<u8>, String>) -> Result<Seq<u8>, Seq<char>> {
    match r {
        Ok(bytes) => Ok(bytes@),
        Err(reason) => Err(reason@),
    }
}

impl DeepView for Source {
    type V = SourceView;

    open spec fn deep_view(&self) -> SourceView {
        SourceView {
            exists: self.exists,
            is_file: self.is_file,
            is_dir: self.is_dir,
            content: content_view(self.content),
            picture: picture_view(self.picture),
            workbook: workbook_table::book_view(self.workbook),
            stamp: self.stamp,
            found: self.found.deep_view(),
        }
    }
}

impl Source {
    /// A source of which nothing was read yet.
    pub fn unread(exists: bool, is_file: bool, is_dir: bool) -> (r: Source)
        ensures
            r.exists == exists && r.is_file == is_file && r.is_dir == is_dir,
            r.deep_view().content == Err::<Seq<u8>, _>("not read"@),
            r.deep_view().picture == Err::<Picture, _>("not read"@),
            r.deep_view().workbook == Err::<Seq<workbook_table::SheetView>, _>("not read"@),
            r.stamp == (Stamp { mode: 0, uid: 0, gid: 0, mtime: 0 }),
            r.deep_view().found == Seq::<packing::WalkedView>::empty(),
    {
        let found: Vec<packing::Walked> = Vec::new();
        assert(found.deep_view() =~= Seq::<packing::WalkedView>::empty());
        Source {
            exists,
            is_file,
            is_dir,
            content: Err("not read".to_owned()),
            picture: Err("not read".to_owned()),
            workbook: Err("not read".to_owned()),
            stamp: Stamp { mode: 0, uid: 0, gid: 0, mtime: 0 },
            found,
        }
    }
}

// ---------------------------------------------------------------------------
// Deliveries
// ---------------------------------------------------------------------------

/// What is left to do once a conversion was worked out.
#[derive(Debug)]
pub enum Delivery {
    /// Write the bytes to the output.
    Bytes(Vec<u8>),
    /// Write the text to the output.
    Text(String),
    /// Copy the input to the output as it is.
    Copy,
    /// Draw the pages into a PDF file.
    Pages(document::Booklet),
    /// Extract the text of a PDF file, and write it.
    ExtractPdf(Vec<u8>),
    /// Write the sheet into a workbook.
    Sheet(xlsx::Sheet),
    /// Run `ffmpeg` with the first arguments, and with the next ones as long as
    /// it fails.
    Media(Vec<Vec<String>>),
    /// Carry out the plan.
    Unpack(unpacking::Unpacking),
    /// Put the folder under a name into a TAR file, compressed or not.
    Tar { name: String, compressed: bool },
}

/// What a [`Delivery`] says.
#[verifier::ext_equal]
pub enum DeliveryView {
    Bytes(Seq<u8>),
    Text(Seq<char>),
    Copy,
    Pages(document::BookletView),
    ExtractPdf(Seq<u8>),
    Sheet(xlsx::SheetView),
    Media(Seq<Seq<Seq<char>>>),
    Unpack(unpacking::UnpackingView),
    Tar { name: Seq<char>, compressed: bool },
}

impl DeepView for Delivery {
    type V = DeliveryView;

    open spec fn deep_view(&self) -> DeliveryView {
        match self {
            Delivery::Bytes(bytes) => DeliveryView::Bytes(bytes@),
            Delivery::Text(s) => DeliveryView::Text(s@),
            Delivery::Copy => DeliveryView::Copy,
            Delivery::Pages(book) => DeliveryView::Pages(book.deep_view()),
            Delivery::ExtractPdf(bytes) => DeliveryView::ExtractPdf(bytes@),
            Delivery::Sheet(sheet) => DeliveryView::Sheet(sheet.deep_view()),
            Delivery::Media(runs) => DeliveryView::Media(runs.deep_view()),
            Delivery::Unpack(plan) => DeliveryView::Unpack(plan.deep_view()),
            Delivery::Tar { name, compressed } => DeliveryView::Tar {
                name: name@,
                compressed: *compressed,
            },
        }
    }
}

/// What a delivery result says.
pub open spec fn delivery_result(r: Result<Delivery, ConversionError>) -> Result<
    DeliveryView,
    Failure,
> {
    match r {
        Ok(d) => Ok(d.deep_view()),
        Err(e) => Err(e.deep_view()),
    }
}

/// Works out conversions; implemented by every engine. Nothing here panics on
/// malformed input: all failures come back as [`ConversionError`].
pub trait Converter: Send + Sync {
    /// Whether a result is right for an input and an output.
    spec fn allows(
        &self,
        input: Seq<char>,
        source: SourceView,
        output: Seq<char>,
        opts: ConvertOptions,
        r: Result<DeliveryView, Failure>,
    ) -> bool;

    /// Works out the conversion of `input` into `output`.
    fn convert(&self, input: &str, source: Source, output: &str, opts: &ConvertOptions) -> (r:
        Result<Delivery, ConversionError>)
        ensures
            self.allows(input@, source.deep_view(), output@, *opts, delivery_result(r)),
    ;
}

// ---------------------------------------------------------------------------
// File kinds
// ---------------------------------------------------------------------------

/// Broad domain a file extension belongs to.
#[derive(Debug, Clone, Copy, PartialEq, Eq, Hash, Structural)]
pub enum FileKind {
    Tabular,
    Image,
    Audio,
    Video,
    Document,
    Archive,
    Unknown,
}

/// Global conversion options shared by all engines.
#[derive(Debug, Clone, Copy)]
pub struct ConvertOptions {
    /// JPEG quality, 1 to 100.
    pub jpeg_quality: u8,
    /// Reserved for a lossy WebP encoder.
    pub webp_quality: u8,
    /// Resize width in pixels; `None` keeps the source width.
    pub resize_width: Option<u32>,
    /// Resize height in pixels; `None` keeps the source height.
    pub resize_height: Option<u32>,
    /// CSV delimiter; `None` detects it.
    pub csv_delimiter: Option<u8>,
    /// Audio bitrate in kbps for lossy audio targets.
    pub audio_bitrate_kbps: u32,
}

/// The options in force when nothing was chosen.
pub open spec fn default_options() -> ConvertOptions {
    ConvertOptions {
        jpeg_quality: 90,
        webp_quality: 90,
        resize_width: None,
        resize_height: None,
        csv_delimiter: None,
        audio_bitrate_kbps: 192,
    }
}

impl Default for ConvertOptions {
    fn default() -> (r: Self)
        ensures
            r == default_options(),
    {
        ConvertOptions {
            jpeg_quality: 90,
            webp_quality: 90,
            resize_width: None,
            resize_height: None,
            csv_delimiter: None,
            audio_bitrate_kbps: 192,
        }
    }
}

/// The lower-case extension of a path, empty where there is none.
pub open spec fn ext(path: Seq<char>) -> Seq<char> {
    match paths::extension(path) {
        Some(e) => text::lower(e),
        None => Seq::empty(),
    }
}

/// Lowercase extension without the leading dot, e.g. `"xlsx"`.
pub fn extension_of(path: &str) -> (r: String)
    ensures
        r@ == ext(path@),
{
    match paths::extension_of(path) {
        Some(e) => text::to_lower(e.as_str()),
        None => String::new(),
    }
}

pub open spec fn is_tabular(e: Seq<char>) -> bool {
    ||| e == "csv"@
    ||| e == "tsv"@
    ||| is_workbook(e)
    ||| e == "json"@
}

/// Spreadsheet formats.
pub open spec fn is_workbook(e: Seq<char>) -> bool {
    ||| e == "xlsx"@
    ||| e == "xls"@
    ||| e == "xlsm"@
    ||| e == "xlsb"@
    ||| e == "ods"@
}

pub open spec fn is_image(e: Seq<char>) -> bool {
    ||| e == "png"@
    ||| e == "jpg"@
    ||| e == "jpeg"@
    ||| e == "webp"@
    ||| e == "bmp"@
    ||| e == "tiff"@
    ||| e == "tif"@
    ||| e == "gif"@
}

pub open spec fn is_audio(e: Seq<char>) -> bool {
    ||| e == "mp3"@
    ||| e == "wav"@
    ||| e == "ogg"@
    ||| e == "oga"@
    ||| e == "flac"@
    ||| e == "aac"@
    ||| e == "m4a"@
    ||| e == "opus"@
    ||| e == "wma"@
}

pub open spec fn is_video(e: Seq<char>) -> bool {
    ||| e == "mp4"@
    ||| e == "mkv"@
    ||| e == "webm"@
    ||| e == "avi"@
    ||| e == "mov"@
    ||| e == "m4v"@
    ||| e == "flv"@
    ||| e == "ogv"@
}

pub open spec fn is_document(e: Seq<char>) -> bool {
    ||| e == "pdf"@
    ||| e == "txt"@
    ||| e == "md"@
    ||| e == "markdown"@
    ||| e == "html"@
}

pub open spec fn is_archive(e: Seq<char>) -> bool {
    ||| e == "zip"@
    ||| e == "tar"@
    ||| e == "tgz"@
    ||| e == "tar.gz"@
    ||| e == "gz"@
}

/// The kind of a lower-case extension.
pub open spec fn kind_of(e: Seq<char>) -> FileKind {
    if is_tabular(e) {
        FileKind::Tabular
    } else if is_image(e) {
        FileKind::Image
    } else if is_audio(e) {
        FileKind::Audio
    } else if is_video(e) {
        FileKind::Video
    } else if is_document(e) {
        FileKind::Document
    } else if is_archive(e) {
        FileKind::Archive
    } else {
        FileKind::Unknown
    }
}

/// Whether `e` is a spreadsheet format.
pub fn workbook_ext(e: &str) -> (r: bool)
    ensures
        r == is_workbook(e@),
{
    text::same(e, "xlsx") || text::same(e, "xls") || text::same(e, "xlsm") || text::same(e, "xlsb")
        || text::same(e, "ods")
}

/// Whether `e` is an image format.
pub fn image_ext(e: &str) -> (r: bool)
    ensures
        r == is_image(e@),
{
    text::same(e, "png") || text::same(e, "jpg") || text::same(e, "jpeg") || text::same(e, "webp")
        || text::same(e, "bmp") || text::same(e, "tiff") || text::same(e, "tif") || text::same(
        e,
        "gif",
    )
}

/// Whether `e` is an audio format.
pub fn audio_ext(e: &str) -> (r: bool)
    ensures
        r == is_audio(e@),
{
    text::same(e, "mp3") || text::same(e, "wav") || text::same(e, "ogg") || text::same(e, "oga")
        || text::same(e, "flac") || text::same(e, "aac") || text::same(e, "m4a") || text::same(
        e,
        "opus",
    ) || text::same(e, "wma")
}

/// Whether `e` is a video format.
pub fn video_ext(e: &str) -> (r: bool)
    ensures
        r == is_video(e@),
{
    text::same(e, "mp4") || text::same(e, "mkv") || text::same(e, "webm") || text::same(e, "avi")
        || text::same(e, "mov") || text::same(e, "m4v") || text::same(e, "flv") || text::same(
        e,
        "ogv",
    )
}

/// Whether `e` is an archive format.
pub fn archive_ext(e: &str) -> (r: bool)
    ensures
        r == is_archive(e@),
{
    text::same(e, "zip") || text::same(e, "tar") || text::same(e, "tgz") || text::same(e, "tar.gz")
        || text::same(e, "gz")
}

/// Classify an extension into a [`FileKind`].
pub fn kind_of_extension(ext: &str) -> (r: FileKind)
    ensures
        r == kind_of(ext@),
{
    if text::same(ext, "csv") || text::same(ext, "tsv") || workbook_ext(ext) || text::same(
        ext,
        "json",
    ) {
        FileKind::Tabular
    } else if image_ext(ext) {
        FileKind::Image
    } else if audio_ext(ext) {
        FileKind::Audio
    } else if video_ext(ext) {
        FileKind::Video
    } else if text::same(ext, "pdf") || text::same(ext, "txt") || text::same(ext, "md")
        || text::same(ext, "markdown") || text::same(ext, "html") {
        FileKind::Document
    } else if archive_ext(ext) {
        FileKind::Archive
    } else {
        FileKind::Unknown
    }
}

/// Whether the file name ends like a compressed tar archive.
pub open spec fn named_tar_gz(path: Seq<char>) -> bool {
    match paths::file_name(path) {
        Some(name) => text::ends_with(text::lower(name), ".tar.gz"@) || text::ends_with(
            text::lower(name),
            ".tgz"@,
        ),
        None => false,
    }
}

fn is_named_tar_gz(path: &str) -> (r: bool)
    ensures
        r == named_tar_gz(path@),
{
    match paths::file_name_of(path) {
        Some(name) => {
            let low = text::to_lower(name.as_str());
            text::has_end(low.as_str(), ".tar.gz") || text::has_end(low.as_str(), ".tgz")
        },
        None => false,
    }
}

/// The kind of a path: a compressed tar archive by its name, anything else by
/// its extension.
pub open spec fn path_kind(path: Seq<char>) -> FileKind {
    if named_tar_gz(path) {
        FileKind::Archive
    } else {
        kind_of(ext(path))
    }
}

/// Classify a full path.
pub fn kind_of_path(path: &str) -> (r: FileKind)
    ensures
        r == path_kind(path@),
{
    if is_named_tar_gz(path) {
        return FileKind::Archive;
    }
    kind_of_extension(extension_of(path).as_str())
}

/// MIME guess for display purposes.
pub fn mime_of(path: &str) -> (r: String)
    ensures
        r@ == mime::guessed_mime(path@),
{
    mime::guess_mime(path)
}

// ---------------------------------------------------------------------------
// Supported conversion matrix
// ---------------------------------------------------------------------------

/// Archive formats that files are packed into.
pub open spec fn is_packable(e: Seq<char>) -> bool {
    ||| e == "zip"@
    ||| e == "tar.gz"@
    ||| e == "tgz"@
    ||| e == "tar"@
}

/// Whether a pair of lower-case extensions is a conversion that can be performed.
pub open spec fn pair_supported(from: Seq<char>, to: Seq<char>) -> bool {
    from != to && match (kind_of(from), kind_of(to)) {
        (FileKind::Tabular, FileKind::Tabular) => tabular::handles(from, to),
        (FileKind::Image, FileKind::Image) => images::handles(from, to),
        (FileKind::Audio, FileKind::Audio) => media::handles_audio(from, to),
        (FileKind::Video, FileKind::Audio) => media::handles_extraction(from, to),
        (FileKind::Video, FileKind::Video) => media::handles_remux(from, to),
        (FileKind::Document, FileKind::Document) => document::handles(from, to),
        (_, FileKind::Archive) => is_packable(to),
        (FileKind::Archive, _) => is_archive(from),
        _ => false,
    }
}

/// Whether a pair of extensions, in any case, is a conversion that can be
/// performed.
pub open spec fn supported(from: Seq<char>, to: Seq<char>) -> bool {
    pair_supported(text::lower(from), text::lower(to))
}

/// Returns `true` when `from_ext → to_ext` is a conversion we can perform.
///
/// The queue calls this for instant validation: unsupported pairs (such as
/// audio → xlsx) are flagged inline instead of failing after "Convert".
pub fn is_supported(from_ext: &str, to_ext: &str) -> (r: bool)
    ensures
        r == supported(from_ext@, to_ext@),
{
    let from = text::to_lower(from_ext);
    let to = text::to_lower(to_ext);
    let (f, t) = (from.as_str(), to.as_str());
    if text::same(f, t) {
        return false;
    }
    match (kind_of_extension(f), kind_of_extension(t)) {
        (FileKind::Tabular, FileKind::Tabular) => tabular::supports(f, t),
        (FileKind::Image, FileKind::Image) => images::supports(f, t),
        (FileKind::Audio, FileKind::Audio) => media::supports_audio(f, t),
        (FileKind::Video, FileKind::Audio) => media::supports_video_to_audio(f, t),
        (FileKind::Video, FileKind::Video) => media::supports_video_remux(f, t),
        (FileKind::Document, FileKind::Document) => document::supports(f, t),
        (_, FileKind::Archive) => archive::supports_pack(t),
        (FileKind::Archive, _) => archive::supports_unpack(f),
        _ => false,
    }
}

/// The target formats offered for a source extension, in display order.
pub open spec fn targets(from_ext: Seq<char>) -> Seq<Seq<char>> {
    let from = text::lower(from_ext);
    match kind_of(from) {
        FileKind::Tabular => tabular::targets(from),
        FileKind::Image => images::targets(from),
        FileKind::Audio => media::audio_targets(from),
        FileKind::Video => media::video_targets(from),
        FileKind::Document => document::targets(from),
        FileKind::Archive => seq!["extract"@],
        FileKind::Unknown => seq!["zip"@, "tar.gz"@],
    }
}

/// Target formats offered for a given source extension, in display order.
pub fn targets_for(from_ext: &str) -> (r: Vec<String>)
    ensures
        r.deep_view() == targets(from_ext@),
{
    let from = text::to_lower(from_ext);
    let f = from.as_str();
    match kind_of_extension(f) {
        FileKind::Tabular => tabular::targets_for(f),
        FileKind::Image => images::targets_for(f),
        FileKind::Audio => media::audio_targets_for(f),
        FileKind::Video => media::video_targets_for(f),
        FileKind::Document => document::targets_for(f),
        FileKind::Archive => archive::unpack_targets_for(f),
        FileKind::Unknown => {
            let r = vec!["zip".to_owned(), "tar.gz".to_owned()];
            assert(r.deep_view() =~= seq!["zip"@, "tar.gz"@]);
            r
        },
    }
}

/// A list without its repetitions: each member where it first stands.
pub open spec fn first_seen(v: Seq<Seq<char>>) -> Seq<Seq<char>>
    decreases v.len(),
{
    if v.len() == 0 {
        Seq::empty()
    } else {
        let before = first_seen(v.drop_last());
        if before.contains(v.last()) {
            before
        } else {
            before.push(v.last())
        }
    }
}

/// The target lists of several sources, one after the other.
pub open spec fn all_targets(exts: Seq<Seq<char>>) -> Seq<Seq<char>>
    decreases exts.len(),
{
    if exts.len() == 0 {
        Seq::empty()
    } else {
        all_targets(exts.drop_last()) + targets(exts.last())
    }
}

/// The target formats on offer for a mixed queue: those of any queued file,
/// each once, in the order in which they first occur.
pub open spec fn batch_targets(exts: Seq<Seq<char>>) -> Seq<Seq<char>> {
    first_seen(all_targets(exts))
}

/// Adds to `out` what is new in a list.
fn add_new(out: &mut Vec<String>, more: &Vec<String>, Ghost(seen): Ghost<Seq<Seq<char>>>)
    requires
        old(out).deep_view() == first_seen(seen),
    ensures
        final(out).deep_view() == first_seen(seen + more.deep_view()),
{
    assert(seen + more.deep_view().take(0) =~= seen);
    for i in 0..more.len()
        invariant
            out.deep_view() == first_seen(seen + more.deep_view().take(i as int)),
    {
        let ghost before = out.deep_view();
        let ghost t = more@[i as int]@;
        proof {
            let now = seen + more.deep_view().take(i + 1);
            assert(now.drop_last() =~= seen + more.deep_view().take(i as int));
            assert(now.last() == t);
        }
        if !text::holds(out, more[i].as_str()) {
            out.push(more[i].clone());
            assert(out.deep_view() =~= before.push(t));
        }
    }
    assert(more.deep_view().take(more@.len() as int) =~= more.deep_view());
}

/// All target formats the batch dropdown may offer for a mixed queue.
pub fn batch_targets_for(exts: &Vec<String>) -> (r: Vec<String>)
    ensures
        r.deep_view() == batch_targets(exts.deep_view()),
{
    let mut ordered: Vec<String> = Vec::new();
    let ghost all = exts.deep_view();
    assert(ordered.deep_view() =~= first_seen(all_targets(all.take(0))));
    for i in 0..exts.len()
        invariant
            all == exts.deep_view(),
            ordered.deep_view() == first_seen(all_targets(all.take(i as int))),
    {
        let more = targets_for(exts[i].as_str());
        proof {
            assert(all.take(i + 1).drop_last() =~= all.take(i as int));
        }
        add_new(&mut ordered, &more, Ghost(all_targets(all.take(i as int))));
    }
    assert(all.take(all.len() as int) =~= all);
    ordered
}

// ---------------------------------------------------------------------------
// Output paths
// ---------------------------------------------------------------------------

/// The extension of an output path; a compressed tar archive counts as
/// `tar.gz`.
pub open spec fn compound_ext(path: Seq<char>) -> Seq<char> {
    if named_tar_gz(path) {
        "tar.gz"@
    } else {
        ext(path)
    }
}

/// Output extension aware of compound `.tar.gz` names.
pub fn compound_extension_of(path: &str) -> (r: String)
    ensures
        r@ == compound_ext(path@),
{
    if is_named_tar_gz(path) {
        return "tar.gz".to_owned();
    }
    extension_of(path)
}

/// The name without extension under which the result of a conversion is
/// saved; a second `.tar` is taken off too.
pub open spec fn output_stem(input: Seq<char>) -> Seq<char> {
    let stem = match paths::file_stem(input) {
        Some(s) => s,
        None => "converted"@,
    };
    if text::ends_with(stem, ".tar"@) {
        stem.take(stem.len() - 4)
    } else {
        stem
    }
}

/// The file or directory name of the result of a conversion.
pub open spec fn output_name(input: Seq<char>, target_ext: Seq<char>) -> Seq<char> {
    let target = text::lower(target_ext);
    if target.len() == 0 || target == "unzip"@ || target == "extract"@ {
        output_stem(input)
    } else if target == "tgz"@ {
        output_stem(input) + ".tar.gz"@
    } else {
        output_stem(input) + "."@ + target
    }
}

/// The default output path for an input and a target inside `dir`.
pub open spec fn output_path(input: Seq<char>, target_ext: Seq<char>, dir: Seq<char>) -> Seq<char> {
    paths::join(dir, output_name(input, target_ext))
}

/// Build the default output path for `input` and `target_ext` inside `dir`.
///
/// `/a/report.csv` and `xlsx` give `<dir>/report.xlsx`; extraction gives a
/// directory: `/a/files.zip` gives `<dir>/files`.
pub fn resolve_output_path(input: &str, target_ext: &str, dir: &str) -> (r: String)
    ensures
        r@ == output_path(input@, target_ext@, dir@),
{
    let full = match paths::file_stem_of(input) {
        Some(s) => s,
        None => "converted".to_owned(),
    };
    proof {
        reveal_strlit(".tar");
    }
    let stem = if text::has_end(full.as_str(), ".tar") {
        let n = full.as_str().unicode_len();
        let s = full.as_str().substring_char(0, n - 4);
        assert(s@ =~= full@.take(full@.len() - 4));
        s.to_owned()
    } else {
        full
    };
    let target = text::to_lower(target_ext);
    let t = target.as_str();
    if t.is_empty() || text::same(t, "unzip") || text::same(t, "extract") {
        return paths::joined(dir, stem.as_str());
    }
    if text::same(t, "tgz") {
        return paths::joined(dir, text::cat(stem.as_str(), ".tar.gz").as_str());
    }
    paths::joined(dir, text::cat3(stem.as_str(), ".", t).as_str())
}

// ---------------------------------------------------------------------------
// Dispatcher
// ---------------------------------------------------------------------------

/// The engines.
#[derive(Debug, Clone, Copy, PartialEq, Eq, Structural)]
pub enum Engine {
    Tabular,
    Image,
    Media,
    Document,
    Archive,
}

/// The engine for a pair of extensions.
pub open spec fn engine_for(from: Seq<char>, to: Seq<char>) -> Option<Engine> {
    match (kind_of(from), kind_of(to)) {
        (FileKind::Tabular, FileKind::Tabular) => Some(Engine::Tabular),
        (FileKind::Image, FileKind::Image) => Some(Engine::Image),
        (FileKind::Audio, FileKind::Audio) => Some(Engine::Media),
        (FileKind::Video, FileKind::Audio) => Some(Engine::Media),
        (FileKind::Video, FileKind::Video) => Some(Engine::Media),
        (FileKind::Document, FileKind::Document) => Some(Engine::Document),
        (_, FileKind::Archive) => Some(Engine::Archive),
        (FileKind::Archive, _) => Some(Engine::Archive),
        _ => None,
    }
}

/// Which engine converts an input into an output, or why none does.
pub open spec fn route(input: Seq<char>, is_file: bool, output: Seq<char>) -> Result<
    Engine,
    Failure,
> {
    let from = ext(input);
    let to = compound_ext(output);
    if from.len() == 0 {
        Err(Failure::UnsupportedConversion { from: "(no extension)"@, to })
    } else if !supported(from, to) {
        Err(Failure::UnsupportedConversion { from, to })
    } else if !is_file {
        Err(
            Failure::UnreadableInput {
                path: input,
                reason: "file does not exist or is not a regular file"@,
            },
        )
    } else {
        match engine_for(from, to) {
            Some(engine) => Ok(engine),
            None => Err(Failure::UnsupportedConversion { from, to }),
        }
    }
}

/// Finds the engine that converts an input into an output.
pub fn route_of(input: &str, is_file: bool, output: &str) -> (r: Result<Engine, ConversionError>)
    ensures
        match r {
            Ok(engine) => route(input@, is_file, output@) == Ok::<_, Failure>(engine),
            Err(e) => route(input@, is_file, output@) == Err::<Engine, _>(e.deep_view()),
        },
{
    let from = extension_of(input);
    let to = compound_extension_of(output);
    if from.as_str().is_empty() {
        return Err(
            ConversionError::UnsupportedConversion { from: "(no extension)".to_owned(), to },
        );
    }
    if !is_supported(from.as_str(), to.as_str()) {
        return Err(ConversionError::UnsupportedConversion { from, to });
    }
    if !is_file {
        return Err(
            ConversionError::UnreadableInput {
                path: input.to_owned(),
                reason: "file does not exist or is not a regular file".to_owned(),
            },
        );
    }
    match (kind_of_extension(from.as_str()), kind_of_extension(to.as_str())) {
        (FileKind::Tabular, FileKind::Tabular) => Ok(Engine::Tabular),
        (FileKind::Image, FileKind::Image) => Ok(Engine::Image),
        (FileKind::Audio, FileKind::Audio) => Ok(Engine::Media),
        (FileKind::Video, FileKind::Audio) => Ok(Engine::Media),
        (FileKind::Video, FileKind::Video) => Ok(Engine::Media),
        (FileKind::Document, FileKind::Document) => Ok(Engine::Document),
        (_, FileKind::Archive) => Ok(Engine::Archive),
        (FileKind::Archive, _) => Ok(Engine::Archive),
        _ => Err(ConversionError::UnsupportedConversion { from, to }),
    }
}

/// Whether a result is right for a file and an output.
pub open spec fn file_allows(
    input: Seq<char>,
    source: SourceView,
    output: Seq<char>,
    opts: ConvertOptions,
    r: Result<DeliveryView, Failure>,
) -> bool {
    match route(input, source.is_file, output) {
        Err(f) => r == Err::<DeliveryView, _>(f),
        Ok(Engine::Tabular) => tabular::TabularConverter.allows(input, source, output, opts, r),
        Ok(Engine::Image) => images::ImageConverter.allows(input, source, output, opts, r),
        Ok(Engine::Media) => media::MediaConverter.allows(input, source, output, opts, r),
        Ok(Engine::Document) => document::DocumentConverter.allows(
            input,
            source,
            output,
            opts,
            r,
        ),
        Ok(Engine::Archive) => archive::ArchiveConverter.allows(input, source, output, opts, r),
    }
}

/// Works out the conversion of one file, by the engine for its pair of
/// extensions. `output` is the final destination: a folder where an archive is
/// unpacked.
pub fn convert_file(input: &str, source: Source, output: &str, opts: &ConvertOptions) -> (r: Result<
    Delivery,
    ConversionError,
>)
    ensures
        file_allows(input@, source.deep_view(), output@, *opts, delivery_result(r)),
{
    match route_of(input, source.is_file, output) {
        Err(e) => Err(e),
        Ok(Engine::Tabular) => tabular::TabularConverter.convert(input, source, output, opts),
        Ok(Engine::Image) => images::ImageConverter.convert(input, source, output, opts),
        Ok(Engine::Media) => media::MediaConverter.convert(input, source, output, opts),
        Ok(Engine::Document) => document::DocumentConverter.convert(input, source, output, opts),
        Ok(Engine::Archive) => archive::ArchiveConverter.convert(input, source, output, opts),
    }
}

/// The directory that must exist before a path is written.
pub open spec fn parent_dir(path: Seq<char>) -> Option<Seq<char>> {
    match paths::parent(path) {
        Some(dir) => if dir.len() > 0 {
            Some(dir)
        } else {
            None
        },
        None => None,
    }
}

/// The directory that must be made before `path` is written, if there is one.
pub fn ensure_parent_dir(path: &str) -> (r: Option<String>)
    ensures
        r.deep_view() == parent_dir(path@),
{
    match paths::parent_of(path) {
        Some(dir) => {
            if dir.as_str().is_empty() {
                None
            } else {
                Some(dir)
            }
        },
        None => None,
    }
}

/// What is read of an input.
#[derive(Debug, Clone, Copy, PartialEq, Eq, Structural)]
pub enum Reading {
    Nothing,
    Bytes,
    Picture,
    Workbook,
}

/// What a conversion needs before it can be worked out.
#[derive(Debug)]
pub struct Needs {
    /// The directory to make.
    pub folder: Option<String>,
    /// What is read of the input.
    pub reading: Reading,
}

/// What is read of the input: nothing where it is copied or handed to `ffmpeg`.
pub open spec fn reading_of(engine: Engine, input: Seq<char>, output: Seq<char>) -> Reading {
    match engine {
        Engine::Tabular => if is_workbook(ext(input)) {
            Reading::Workbook
        } else {
            Reading::Bytes
        },
        Engine::Image => Reading::Picture,
        Engine::Media => Reading::Nothing,
        Engine::Document => if document::is_copied(ext(input), ext(output)) {
            Reading::Nothing
        } else {
            Reading::Bytes
        },
        Engine::Archive => Reading::Bytes,
    }
}

/// What an engine needs before it can work out a conversion.
pub fn needs_of(engine: Engine, input: &str, output: &str) -> (r: Needs)
    ensures
        r.folder.deep_view() == (if engine == Engine::Archive && archive::is_unpacked(input@) {
            None
        } else {
            parent_dir(output@)
        }),
        r.reading == reading_of(engine, input@, output@),
{
    match engine {
        Engine::Tabular => {
            let reading = if workbook_ext(extension_of(input).as_str()) {
                Reading::Workbook
            } else {
                Reading::Bytes
            };
            Needs { folder: ensure_parent_dir(output), reading }
        },
        Engine::Image => Needs { folder: ensure_parent_dir(output), reading: Reading::Picture },
        Engine::Media => Needs { folder: ensure_parent_dir(output), reading: Reading::Nothing },
        Engine::Document => {
            let from = extension_of(input);
            let to = extension_of(output);
            let reading = if document::copies(from.as_str(), to.as_str()) {
                Reading::Nothing
            } else {
                Reading::Bytes
            };
            Needs { folder: ensure_parent_dir(output), reading }
        },
        Engine::Archive => {
            if archive::unpacks(input) {
                return Needs { folder: None, reading: Reading::Bytes };
            }
            Needs { folder: ensure_parent_dir(output), reading: Reading::Bytes }
        },
    }
}

/// The default output directory: the downloads of the user where there are
/// any, else the directory for temporary files.
pub fn default_output_dir(downloads: Option<String>, temporary: String) -> (r: String)
    ensures
        r@ == (match downloads {
            Some(dir) => dir@,
            None => temporary@,
        }),
{
    match downloads {
        Some(dir) => dir,
        None => temporary,
    }
}

} // verus!
