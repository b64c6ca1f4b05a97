//! What the registry promises of formats, outputs and engines.
use vstd::prelude::*;

use crate::converters;
use crate::converters::document;
use crate::converters::images;
use crate::converters::laws;
use crate::converters::media;
use crate::converters::names;
use crate::converters::tabular;
use crate::converters::workbook_table;
use crate::converters::{
    ConvertOptions, Converter, DeliveryView, Engine, Failure, FileKind, Reading, SourceView,
};
use crate::outside::encoding;
use crate::path_laws;
use crate::paths;
use crate::text;
use crate::text_laws;

verus! {

// ---------------------------------------------------------------------------
// Kinds
// ---------------------------------------------------------------------------

/// Extensions are of the kind that their files are of.
pub proof fn law_kinds(e: Seq<char>)
    ensures
        converters::kind_of(e) == FileKind::Tabular <==> e == "csv"@ || e == "tsv"@ || e == "xlsx"@
            || e == "xls"@ || e == "xlsm"@ || e == "xlsb"@ || e == "ods"@ || e == "json"@,
        converters::kind_of(e) == FileKind::Image <==> e == "png"@ || e == "jpg"@ || e == "jpeg"@
            || e == "webp"@ || e == "bmp"@ || e == "tiff"@ || e == "tif"@ || e == "gif"@,
        converters::kind_of(e) == FileKind::Audio <==> e == "mp3"@ || e == "wav"@ || e == "ogg"@
            || e == "oga"@ || e == "flac"@ || e == "aac"@ || e == "m4a"@ || e == "opus"@ || e
            == "wma"@,
        converters::kind_of(e) == FileKind::Video <==> e == "mp4"@ || e == "mkv"@ || e == "webm"@
            || e == "avi"@ || e == "mov"@ || e == "m4v"@ || e == "flv"@ || e == "ogv"@,
        converters::kind_of(e) == FileKind::Document <==> e == "pdf"@ || e == "txt"@ || e == "md"@
            || e == "markdown"@ || e == "html"@,
        converters::kind_of(e) == FileKind::Archive <==> e == "zip"@ || e == "tar"@ || e == "tgz"@
            || e == "tar.gz"@ || e == "gz"@,
{
    names::lemma_names();
}

/// The extension of a path is that of its file, in small letters.
pub proof fn law_ext(dir: Seq<char>, stem: Seq<char>, e: Seq<char>)
    requires
        stem.len() > 0,
        !e.contains('.'),
        !e.contains('/'),
        !stem.contains('/'),
        stem.push('.') + e != seq!['.', '.'],
    ensures
        converters::ext(paths::join(dir, stem.push('.') + e)) == text::lower(e),
{
    path_laws::law_extensions(dir, stem, e);
}

/// A compressed TAR file is told by both parts of its name, in any case.
pub proof fn law_compound_extensions(dir: Seq<char>, name: Seq<char>)
    requires
        name.len() > 0,
        !name.contains('/'),
        name != seq!['.'],
        name != seq!['.', '.'],
    ensures
        text::ends_with(text::lower(name), ".tar.gz"@) || text::ends_with(
            text::lower(name),
            ".tgz"@,
        ) ==> converters::compound_ext(paths::join(dir, name)) == "tar.gz"@
            && converters::path_kind(paths::join(dir, name)) == FileKind::Archive,
        !text::ends_with(text::lower(name), ".tar.gz"@) && !text::ends_with(
            text::lower(name),
            ".tgz"@,
        ) ==> converters::compound_ext(paths::join(dir, name)) == converters::ext(
            paths::join(dir, name),
        ) && converters::path_kind(paths::join(dir, name)) == converters::kind_of(
            converters::ext(paths::join(dir, name)),
        ),
{
    path_laws::law_names_in_folders(dir, name);
}

// ---------------------------------------------------------------------------
// Pairs
// ---------------------------------------------------------------------------

/// Whether a document of one format can be made one of another.
pub open spec fn is_document_pair(f: Seq<char>, t: Seq<char>) -> bool {
    ||| (f == "txt"@ || f == "md"@ || f == "markdown"@) && (t == "pdf"@ || t == "html"@)
    ||| (f == "pdf"@ || f == "html"@) && (t == "txt"@ || t == "md"@)
    ||| f == "txt"@ && (t == "md"@ || t == "markdown"@)
    ||| (f == "md"@ || f == "markdown"@) && t == "txt"@
}

/// Whether a table of one format can be written in another.
pub open spec fn is_table_pair(f: Seq<char>, t: Seq<char>) -> bool {
    &&& converters::kind_of(f) == FileKind::Tabular
    &&& t == "csv"@ || t == "tsv"@ || t == "json"@ || (t == "xlsx"@ && (f == "csv"@ || f == "tsv"@
        || f == "json"@))
}

/// What can be converted: tables to tables, images to images of another format,
/// sound to sound, video to sound and to video, documents as they can be made of
/// each other, everything into an archive, and an archive into what it holds;
/// nothing into itself.
pub proof fn law_supported_pairs(from: Seq<char>, to: Seq<char>)
    ensures
        ({
            let f = text::lower(from);
            let t = text::lower(to);
            let (a, b) = (converters::kind_of(f), converters::kind_of(t));
            converters::supported(from, to) <==> f != t && {
                ||| is_table_pair(f, t)
                ||| images::format_of(f) is Some && images::format_of(t) is Some
                    && images::format_of(f) != images::format_of(t)
                ||| a == FileKind::Audio && b == FileKind::Audio
                ||| a == FileKind::Video && (b == FileKind::Audio || b == FileKind::Video)
                ||| is_document_pair(f, t)
                ||| t == "zip"@ || t == "tar"@ || t == "tgz"@ || t == "tar.gz"@
                ||| a == FileKind::Archive && b != FileKind::Archive
            }
        }),
{
    let f = text::lower(from);
    let t = text::lower(to);
    names::lemma_names();
    laws::lemma_lower_twice(from);
    laws::lemma_lower_twice(to);
    law_kinds(f);
    law_kinds(t);
    converters::image_laws::law_formats_by_name(f);
    converters::image_laws::law_formats_by_name(t);
    converters::image_laws::law_image_pairs(f, t);
}

/// What is on offer for a file: for tables, sound and video every format that
/// they can be converted to, with the usual ones of sound for video, and for
/// documents those that can be made of them.
pub proof fn law_offered_targets(from: Seq<char>, t: Seq<char>)
    ensures
        ({
            let f = text::lower(from);
            let offered = converters::targets(from).contains(t);
            match converters::kind_of(f) {
                FileKind::Tabular => offered <==> is_table_pair(f, t) && f != t,
                FileKind::Audio => offered <==> converters::kind_of(t) == FileKind::Audio && f != t,
                FileKind::Video => offered <==> t == "mp3"@ || t == "wav"@ || t == "ogg"@ || (
                converters::kind_of(t) == FileKind::Video && f != t),
                FileKind::Document => offered <==> is_document_pair(f, t) && t != "markdown"@,
                FileKind::Archive => offered <==> t == "extract"@,
                FileKind::Unknown => offered <==> t == "zip"@ || t == "tar.gz"@,
                FileKind::Image => true,
            }
        }),
{
    let f = text::lower(from);
    names::lemma_names();
    laws::lemma_lower_twice(from);
    law_kinds(f);
    law_kinds(t);
    match converters::kind_of(f) {
        FileKind::Tabular => {
            lemma_four("xlsx"@, "json"@, "csv"@, "tsv"@, t);
            lemma_three("csv"@, "tsv"@, "json"@, t);
            lemma_three("csv"@, "tsv"@, "xlsx"@, t);
            text::lemma_without(seq!["xlsx"@, "json"@, "csv"@, "tsv"@], f);
            text::lemma_without(seq!["csv"@, "tsv"@, "json"@], f);
            text::lemma_without(seq!["csv"@, "tsv"@, "xlsx"@], f);
        },
        FileKind::Audio => {
            text::lemma_without(media::audio_formats(), f);
            lemma_audio(t);
        },
        FileKind::Video => {
            let more = text::without(media::video_formats(), f);
            text::lemma_without(media::video_formats(), f);
            lemma_video(t);
            lemma_three("mp3"@, "wav"@, "ogg"@, t);
            lemma_either(seq!["mp3"@, "wav"@, "ogg"@], more, t);
        },
        FileKind::Document => {
            lemma_two("txt"@, "md"@, t);
            lemma_three("pdf"@, "html"@, "md"@, t);
            lemma_three("pdf"@, "html"@, "txt"@, t);
        },
        FileKind::Archive => {
            let one = seq!["extract"@];
            assert(one[0] == "extract"@);
        },
        FileKind::Unknown => {
            lemma_two("zip"@, "tar.gz"@, t);
        },
        FileKind::Image => {},
    }
}

proof fn lemma_two(a: Seq<char>, b: Seq<char>, t: Seq<char>)
    ensures
        seq![a, b].contains(t) <==> t == a || t == b,
{
    let v = seq![a, b];
    assert(v[0] == a && v[1] == b);
}

proof fn lemma_three(a: Seq<char>, b: Seq<char>, c: Seq<char>, t: Seq<char>)
    ensures
        seq![a, b, c].contains(t) <==> t == a || t == b || t == c,
{
    let v = seq![a, b, c];
    assert(v[0] == a && v[1] == b && v[2] == c);
}

proof fn lemma_four(a: Seq<char>, b: Seq<char>, c: Seq<char>, d: Seq<char>, t: Seq<char>)
    ensures
        seq![a, b, c, d].contains(t) <==> t == a || t == b || t == c || t == d,
{
    let v = seq![a, b, c, d];
    assert(v[0] == a && v[1] == b && v[2] == c && v[3] == d);
}

proof fn lemma_either(a: Seq<Seq<char>>, b: Seq<Seq<char>>, t: Seq<char>)
    ensures
        (a + b).contains(t) <==> a.contains(t) || b.contains(t),
{
    let v = a + b;
    if a.contains(t) {
        let i = choose|i: int| 0 <= i < a.len() && a[i] == t;
        assert(v[i] == t);
    }
    if b.contains(t) {
        let i = choose|i: int| 0 <= i < b.len() && b[i] == t;
        assert(v[a.len() + i] == t);
    }
    if v.contains(t) {
        let i = choose|i: int| 0 <= i < v.len() && v[i] == t;
        if i >= a.len() {
            assert(b[i - a.len()] == t);
        } else {
            assert(a[i] == t);
        }
    }
}

proof fn lemma_audio(t: Seq<char>)
    ensures
        media::audio_formats().contains(t) <==> converters::is_audio(t),
{
    let v = media::audio_formats();
    assert(v[0] == "mp3"@ && v[1] == "wav"@ && v[2] == "ogg"@ && v[3] == "oga"@ && v[4] == "flac"@
        && v[5] == "aac"@ && v[6] == "m4a"@ && v[7] == "opus"@ && v[8] == "wma"@);
}

proof fn lemma_video(t: Seq<char>)
    ensures
        media::video_formats().contains(t) <==> converters::is_video(t),
{
    let v = media::video_formats();
    assert(v[0] == "mp4"@ && v[1] == "mkv"@ && v[2] == "webm"@ && v[3] == "avi"@ && v[4] == "mov"@
        && v[5] == "m4v"@ && v[6] == "flv"@ && v[7] == "ogv"@);
}

// ---------------------------------------------------------------------------
// Outputs
// ---------------------------------------------------------------------------

/// An output is called like the input, with the new extension for the old one,
/// and lies in the folder that was asked for; what is unpacked gets a folder of
/// that name without an extension.
pub proof fn law_outputs_are_named_like_inputs(
    from: Seq<char>,
    stem: Seq<char>,
    e: Seq<char>,
    target: Seq<char>,
    dir: Seq<char>,
)
    requires
        stem.len() > 0,
        !e.contains('.'),
        !e.contains('/'),
        !stem.contains('/'),
        stem.push('.') + e != seq!['.', '.'],
        !text::ends_with(stem, ".tar"@),
    ensures
        ({
            let input = paths::join(from, stem.push('.') + e);
            let t = text::lower(target);
            &&& t.len() > 0 && t != "unzip"@ && t != "extract"@ && t != "tgz"@
                ==> converters::output_path(input, target, dir) == paths::join(
                dir,
                stem.push('.') + t,
            )
            &&& t == "tgz"@ ==> converters::output_path(input, target, dir) == paths::join(
                dir,
                stem + ".tar.gz"@,
            )
            &&& t.len() == 0 || t == "unzip"@ || t == "extract"@ ==> converters::output_path(
                input,
                target,
                dir,
            ) == paths::join(dir, stem)
        }),
{
    path_laws::law_extensions(from, stem, e);
    names::lemma_archive_names();
    reveal_strlit(".");
    let t = text::lower(target);
    assert(stem + "."@ + t =~= stem.push('.') + t);
}

/// Of a compressed TAR file both extensions are left out.
pub proof fn law_both_extensions_go(
    from: Seq<char>,
    stem: Seq<char>,
    target: Seq<char>,
    dir: Seq<char>,
)
    requires
        stem.len() > 0,
        !stem.contains('/'),
        text::lower(target) == "extract"@,
    ensures
        converters::output_path(
            paths::join(from, (stem + ".tar"@).push('.') + "gz"@),
            target,
            dir,
        ) == paths::join(dir, stem),
{
    reveal_strlit(".tar");
    reveal_strlit("gz");
    let whole = stem + ".tar"@;
    assert(".tar"@ =~= seq!['.', 't', 'a', 'r']);
    assert("gz"@ =~= seq!['g', 'z']);
    assert(!whole.contains('/')) by {
        if whole.contains('/') {
            let i = choose|i: int| 0 <= i < whole.len() && whole[i] == '/';
            if i < stem.len() {
                assert(stem[i] == '/');
            } else {
                assert(".tar"@[i - stem.len()] == '/');
            }
        }
    }
    assert(whole.push('.') + "gz"@ != seq!['.', '.']) by {
        assert((whole.push('.') + "gz"@).len() > 2);
    }
    path_laws::law_extensions(from, whole, "gz"@);
    assert(whole.skip(whole.len() - 4) =~= ".tar"@);
    assert(whole.take(whole.len() - 4) =~= stem);
}

// ---------------------------------------------------------------------------
// Engines
// ---------------------------------------------------------------------------

/// A conversion goes to the engine of its kinds; without an extension, for a
/// pair that is not supported and for what is no file there is none.
pub proof fn law_routes(input: Seq<char>, is_file: bool, output: Seq<char>)
    ensures
        ({
            let f = converters::ext(input);
            let t = converters::compound_ext(output);
            let (a, b) = (converters::kind_of(f), converters::kind_of(t));
            match converters::route(input, is_file, output) {
                Ok(engine) => {
                    &&& f.len() > 0 && is_file && converters::supported(f, t)
                    &&& engine == Engine::Tabular <==> a == FileKind::Tabular && b
                        == FileKind::Tabular
                    &&& engine == Engine::Image <==> a == FileKind::Image && b == FileKind::Image
                    &&& engine == Engine::Document <==> a == FileKind::Document && b
                        == FileKind::Document
                    &&& engine == Engine::Media <==> (a == FileKind::Audio || a == FileKind::Video)
                        && (b == FileKind::Audio || b == FileKind::Video)
                    &&& engine == Engine::Archive <==> a == FileKind::Archive || b
                        == FileKind::Archive
                },
                Err(Failure::UnsupportedConversion { to, .. }) => to == t && (f.len() == 0
                    || !converters::supported(f, t)),
                Err(Failure::UnreadableInput { path, .. }) => path == input && f.len() > 0
                    && !is_file && converters::supported(f, t),
                Err(_) => false,
            }
        }),
{
    let f = converters::ext(input);
    let t = converters::compound_ext(output);
    names::lemma_names();
    laws::lemma_ext_is_lower(input);
    laws::lemma_ext_is_lower(output);
    law_kinds(f);
    law_kinds(t);
    assert(text::lower(t) == t);
}

/// What is read of a file is what its engine works on.
pub proof fn law_readings(input: Seq<char>, output: Seq<char>)
    ensures
        converters::reading_of(Engine::Image, input, output) == Reading::Picture,
        converters::reading_of(Engine::Media, input, output) == Reading::Nothing,
        converters::reading_of(Engine::Archive, input, output) == Reading::Bytes,
        ({
            let e = converters::ext(input);
            converters::reading_of(Engine::Tabular, input, output) == (if e == "xlsx"@ || e
                == "xls"@ || e == "xlsm"@ || e == "xlsb"@ || e == "ods"@ {
                Reading::Workbook
            } else {
                Reading::Bytes
            })
        }),
        converters::ext(output) == "pdf"@ || converters::ext(output) == "html"@
            ==> converters::reading_of(Engine::Document, input, output) == Reading::Bytes,
{
    names::lemma_names();
}

/// What a conversion leaves to be done is what its target asks for: a table of
/// bytes, a sheet or a text, pages for a PDF file, text for an HTML page, runs of
/// the media program, a plan to unpack.
pub proof fn law_deliveries(
    input: Seq<char>,
    source: SourceView,
    output: Seq<char>,
    opts: ConvertOptions,
    d: DeliveryView,
)
    requires
        converters::file_allows(input, source, output, opts, Ok(d)),
    ensures
        ({
            let (f, t) = (converters::ext(input), converters::ext(output));
            let a = converters::kind_of(f);
            &&& a == FileKind::Tabular && (t == "csv"@ || t == "tsv"@) ==> d is Bytes
            &&& a == FileKind::Tabular && t == "json"@ ==> d is Text
            &&& a == FileKind::Tabular && t == "xlsx"@ ==> d is Sheet
            &&& a == FileKind::Image && converters::kind_of(t) == FileKind::Image ==> d is Bytes
            &&& a == FileKind::Document && t == "pdf"@ ==> d is Pages
            &&& a == FileKind::Document && t == "html"@ ==> d is Text
            &&& f == "html"@ && (t == "txt"@ || t == "md"@) ==> d is Text
            &&& f == "pdf"@ && (t == "txt"@ || t == "md"@) ==> (d matches DeliveryView::ExtractPdf(
                bytes,
            ) && source.content == Ok::<_, Seq<char>>(bytes))
            &&& (f == "txt"@ || f == "md"@ || f == "markdown"@) && (t == "txt"@ || t == "md"@ || t
                == "markdown"@) ==> d is Copy
            &&& a == FileKind::Audio && converters::kind_of(t) == FileKind::Audio ==> d is Media
            &&& a == FileKind::Video && (converters::kind_of(t) == FileKind::Audio
                || converters::kind_of(t) == FileKind::Video) ==> d is Media
            &&& a == FileKind::Archive && source.exists ==> d is Unpack
        }),
{
    let f = converters::ext(input);
    let t = converters::ext(output);
    names::lemma_names();
    laws::lemma_ext_is_lower(input);
    laws::lemma_ext_is_lower(output);
    law_kinds(f);
    law_kinds(t);
    law_routes(input, source.is_file, output);
    lemma_compound(output);
}

/// The whole extension of a path is its last one, unless it is a compressed TAR
/// file.
proof fn lemma_compound(path: Seq<char>)
    ensures
        converters::compound_ext(path) == converters::ext(path) || (converters::compound_ext(path)
            == "tar.gz"@ && (converters::ext(path) == "gz"@ || converters::ext(path) == "tgz"@
            || converters::ext(path).len() == 0)),
{
    if converters::named_tar_gz(path) {
        let name = paths::file_name(path)->Some_0;
        let low = text::lower(name);
        let n = name.len();
        reveal_strlit(".tar.gz");
        reveal_strlit(".tgz");
        reveal_strlit("gz");
        reveal_strlit("tgz");
        if text::ends_with(low, ".tar.gz"@) {
            let end = low.skip(n - 7);
            assert(end == ".tar.gz"@);
            assert(low[n - 3] == end[4] && low[n - 2] == end[5] && low[n - 1] == end[6]);
            lemma_dot_at(name, n - 3);
            assert(text::lower(name.skip(n - 2)) =~= "gz"@);
        } else {
            let end = low.skip(n - 4);
            assert(end == ".tgz"@);
            assert(low[n - 4] == end[0] && low[n - 3] == end[1] && low[n - 2] == end[2] && low[n
                - 1] == end[3]);
            lemma_dot_at(name, n - 4);
            assert(text::lower(name.skip(n - 3)) =~= "tgz"@);
        }
    }
}

proof fn lemma_dot_at(name: Seq<char>, k: int)
    requires
        0 <= k < name.len(),
        text::lower(name)[k] == '.',
        forall|i: int| k < i < name.len() ==> text::lower(name)[i] != '.',
    ensures
        paths::last_dot(name) == k,
{
    let e = name.skip(k + 1);
    assert(name[k] == '.');
    assert(!e.contains('.')) by {
        if e.contains('.') {
            let i = choose|i: int| 0 <= i < e.len() && e[i] == '.';
            assert(text::lower(name)[k + 1 + i] == text::lower_char(name[k + 1 + i]));
        }
    }
    assert(name =~= name.take(k).push('.') + e);
    path_laws::lemma_last_dot(name.take(k), e);
}

// ---------------------------------------------------------------------------
// Messages
// ---------------------------------------------------------------------------

/// What is told of a failure names what it is about and ends in the reason.
pub proof fn law_messages_tell(f: Failure)
    ensures
        f matches Failure::UnreadableInput { path, reason } ==> converters::failure_text(f)
            == "cannot read input file '"@ + path + "': "@ + reason,
        f matches Failure::UnwritableOutput { path, reason } ==> converters::failure_text(f)
            == "cannot write output file '"@ + path + "': "@ + reason,
        f matches Failure::MalformedData { path, format, reason } ==> converters::failure_text(f)
            == "malformed "@ + format + " data in '"@ + path + "': "@ + reason,
        f matches Failure::UnsupportedConversion { from, to } ==> converters::failure_text(f)
            == "unsupported conversion: "@ + from + " → "@ + to,
        f matches Failure::ExternalTool(why) ==> converters::failure_text(f)
            == "external tool failed: "@ + why,
        f matches Failure::Io(why) ==> converters::failure_text(f) == "I/O error: "@ + why,
{
}

// ---------------------------------------------------------------------------
// Defaults and orders
// ---------------------------------------------------------------------------

/// Without a choice, pictures keep their size and are written with quality
/// ninety, sound with 192 kbps, and the delimiter of a table is found out.
pub proof fn law_default_options()
    ensures
        ({
            let o = converters::default_options();
            &&& o.jpeg_quality == 90 && o.webp_quality == 90
            &&& o.resize_width is None && o.resize_height is None
            &&& o.csv_delimiter is None
            &&& o.audio_bitrate_kbps == 192
        }),
{
}

/// Whether `a` is listed before `b`.
pub open spec fn before(v: Seq<Seq<char>>, a: Seq<char>, b: Seq<char>) -> bool {
    exists|i: int, j: int| 0 <= i < j < v.len() && #[trigger] v[i] == a && #[trigger] v[j] == b
}

/// Tables are offered workbooks first and JSON next, workbooks and JSON are
/// offered CSV first and TSV next, texts PDF first and pages next, and what
/// has no kind a ZIP first.
pub proof fn law_targets_in_order(f: Seq<char>)
    requires
        text::lower(f) == f,
    ensures
        f == "csv"@ ==> before(converters::targets(f), "xlsx"@, "json"@) && before(
            converters::targets(f),
            "json"@,
            "tsv"@,
        ),
        f == "tsv"@ ==> before(converters::targets(f), "xlsx"@, "json"@) && before(
            converters::targets(f),
            "json"@,
            "csv"@,
        ),
        f == "json"@ ==> before(converters::targets(f), "csv"@, "tsv"@) && before(
            converters::targets(f),
            "tsv"@,
            "xlsx"@,
        ),
        f == "xlsx"@ || f == "ods"@ || f == "xls"@ || f == "xlsm"@ || f == "xlsb"@ ==> before(
            converters::targets(f),
            "csv"@,
            "tsv"@,
        ) && before(converters::targets(f), "tsv"@, "json"@),
        f == "txt"@ ==> converters::targets(f) == seq!["pdf"@, "html"@, "md"@],
        f == "md"@ || f == "markdown"@ ==> converters::targets(f) == seq![
            "pdf"@,
            "html"@,
            "txt"@,
        ],
        f == "pdf"@ || f == "html"@ ==> converters::targets(f) == seq!["txt"@, "md"@],
        converters::kind_of(f) == FileKind::Unknown ==> converters::targets(f) == seq![
            "zip"@,
            "tar.gz"@,
        ],
{
    names::lemma_names();
    let v = converters::targets(f);
    if f == "csv"@ || f == "tsv"@ {
        let list = seq!["xlsx"@, "json"@, "csv"@, "tsv"@];
        text_laws::law_left_out(seq!["xlsx"@, "json"@, "csv"@], seq!["tsv"@], f);
        text_laws::law_left_out(seq!["xlsx"@, "json"@], seq!["csv"@], f);
        text_laws::law_left_out(seq!["xlsx"@], seq!["json"@], f);
        assert(list =~= seq!["xlsx"@, "json"@, "csv"@] + seq!["tsv"@]);
        assert(seq!["xlsx"@, "json"@, "csv"@] =~= seq!["xlsx"@, "json"@] + seq!["csv"@]);
        assert(seq!["xlsx"@, "json"@] =~= seq!["xlsx"@] + seq!["json"@]);
        let other = if f == "csv"@ {
            "tsv"@
        } else {
            "csv"@
        };
        assert(v =~= seq!["xlsx"@, "json"@, other]);
        assert(v[0] == "xlsx"@ && v[1] == "json"@ && v[2] == other);
    } else if converters::is_workbook(f) {
        let list = seq!["csv"@, "tsv"@, "json"@];
        text_laws::law_left_out(seq!["csv"@, "tsv"@], seq!["json"@], f);
        text_laws::law_left_out(seq!["csv"@], seq!["tsv"@], f);
        assert(list =~= seq!["csv"@, "tsv"@] + seq!["json"@]);
        assert(seq!["csv"@, "tsv"@] =~= seq!["csv"@] + seq!["tsv"@]);
        assert(v =~= list);
        assert(v[0] == "csv"@ && v[1] == "tsv"@ && v[2] == "json"@);
    } else if f == "json"@ {
        let list = seq!["csv"@, "tsv"@, "xlsx"@];
        text_laws::law_left_out(seq!["csv"@, "tsv"@], seq!["xlsx"@], f);
        text_laws::law_left_out(seq!["csv"@], seq!["tsv"@], f);
        assert(list =~= seq!["csv"@, "tsv"@] + seq!["xlsx"@]);
        assert(seq!["csv"@, "tsv"@] =~= seq!["csv"@] + seq!["tsv"@]);
        assert(v =~= list);
        assert(v[0] == "csv"@ && v[1] == "tsv"@ && v[2] == "xlsx"@);
    }
}

/// A workbook is read by the format that its extension is the name of, and
/// one without such a name by what its bytes show.
pub proof fn law_book_formats(dir: Seq<char>, stem: Seq<char>, e: Seq<char>)
    requires
        stem.len() > 0,
        !e.contains('.'),
        !e.contains('/'),
        !stem.contains('/'),
        stem.push('.') + e != seq!['.', '.'],
    ensures
        ({
            let r = workbook_table::format_of(paths::join(dir, stem.push('.') + e));
            &&& r is Xls <==> e == "xls"@ || e == "xla"@
            &&& r is Xlsx <==> e == "xlsx"@ || e == "xlsm"@ || e == "xlam"@
            &&& r is Xlsb <==> e == "xlsb"@
            &&& r is Ods <==> e == "ods"@
            &&& r is Detect <==> !(e == "xls"@ || e == "xla"@ || e == "xlsx"@ || e == "xlsm"@ || e
                == "xlam"@ || e == "xlsb"@ || e == "ods"@)
        }),
{
    path_laws::law_extensions(dir, stem, e);
    reveal_strlit("xls");
    reveal_strlit("xla");
    reveal_strlit("xlsx");
    reveal_strlit("xlsm");
    reveal_strlit("xlam");
    reveal_strlit("xlsb");
    reveal_strlit("ods");
    assert("xls"@[2] != "xla"@[2]);
    assert("xlsx"@[3] != "xlsm"@[3] && "xlsx"@[3] != "xlsb"@[3] && "xlsm"@[3] != "xlsb"@[3]);
    assert("xlam"@[2] != "xlsx"@[2] && "xlam"@[2] != "xlsb"@[2] && "xlam"@[2] != "xlsm"@[2]);
    assert("xls"@[0] != "ods"@[0] && "xla"@[0] != "ods"@[0]);
}

/// What has no name of its own is converted to a file that is called so.
pub proof fn law_nameless_inputs(input: Seq<char>, target: Seq<char>, dir: Seq<char>)
    requires
        paths::file_stem(input) is None,
        text::lower(target) == target,
        target.len() > 0,
        target != "unzip"@ && target != "extract"@ && target != "tgz"@,
    ensures
        converters::output_path(input, target, dir) == paths::join(
            dir,
            "converted"@ + "."@ + target,
        ),
{
    reveal_strlit("converted");
    reveal_strlit(".tar");
    assert("converted"@.skip(5)[0] == 'r');
    assert(".tar"@[0] == '.');
}

/// What is refused is refused for its first fault: no extension, then a pair
/// that is not supported, then an input that is no file.
pub proof fn law_refusals(input: Seq<char>, is_file: bool, output: Seq<char>)
    ensures
        ({
            let (f, t) = (converters::ext(input), converters::compound_ext(output));
            let r = converters::route(input, is_file, output);
            &&& f.len() == 0 ==> r == Err::<Engine, _>(
                Failure::UnsupportedConversion { from: "(no extension)"@, to: t },
            )
            &&& f.len() > 0 && !converters::supported(f, t) ==> r == Err::<Engine, _>(
                Failure::UnsupportedConversion { from: f, to: t },
            )
            &&& f.len() > 0 && converters::supported(f, t) && !is_file ==> r == Err::<Engine, _>(
                Failure::UnreadableInput {
                    path: input,
                    reason: "file does not exist or is not a regular file"@,
                },
            )
        }),
{
}

/// The folder that an output stands in is made first, where it names one.
pub proof fn law_output_folders(dir: Seq<char>, name: Seq<char>)
    requires
        name.len() > 0,
        !name.contains('/'),
        name != seq!['.'],
        name != seq!['.', '.'],
    ensures
        paths::components(dir).len() > 0 ==> converters::parent_dir(paths::join(dir, name)) is Some
            && paths::components(converters::parent_dir(paths::join(dir, name))->0)
            == paths::components(dir),
        converters::parent_dir(name) is None,
{
    path_laws::law_names_in_folders(dir, name);
    let none = Seq::<char>::empty();
    assert(paths::components(none) =~= Seq::<paths::Step>::empty()) by {
        let parts = text::split(none, '/');
        reveal_with_fuel(paths::steps, 3);
        assert(parts.len() == 1 && parts[0].len() == 0);
        assert(parts.drop_last().len() == 0);
        assert(paths::steps(parts) =~= Seq::<paths::Step>::empty());
    }
    let f = paths::parent(paths::join(dir, name))->0;
    if f.len() == 0 {
        assert(f =~= none);
    }
    lemma_no_slash(name);
    assert(name.contains(name.last())) by {
        assert(name[name.len() - 1] == name.last());
    }
    if name.len() > 1 {
        assert(name.contains(name[name.len() - 2]));
    }
    assert(paths::trim_tail(name) == name);
    assert(name != seq!['/']) by {
        assert(seq!['/'][0] == '/');
    }
    assert(paths::trim_tail(none) == none);
}

proof fn lemma_no_slash(name: Seq<char>)
    requires
        !name.contains('/'),
    ensures
        paths::up_to_slash(name) == Seq::<char>::empty(),
    decreases name.len(),
{
    if name.len() > 0 {
        assert(name[name.len() - 1] == name.last());
        assert forall|k: int| 0 <= k < name.len() - 1 implies name.drop_last()[k] != '/' by {
            assert(name[k] != '/');
        }
        lemma_no_slash(name.drop_last());
    } else {
        assert(name =~= Seq::<char>::empty());
    }
}

/// A text becomes pages or a page, and a page becomes a text, of what its bytes
/// say; a PDF file hands its bytes on; and a document that cannot be read is
/// reported.
pub proof fn law_document_deliveries(
    input: Seq<char>,
    source: SourceView,
    output: Seq<char>,
    opts: ConvertOptions,
    bytes: Seq<u8>,
    why: Seq<char>,
    r: Result<DeliveryView, Failure>,
)
    requires
        document::DocumentConverter.allows(input, source, output, opts, r),
    ensures
        ({
            let (f, t) = (converters::ext(input), converters::ext(output));
            let s = encoding::lossy(bytes);
            let plain = f == "txt"@ || f == "md"@ || f == "markdown"@;
            let read = source.content == Ok::<_, Seq<char>>(bytes);
            let lost = source.content == Err::<Seq<u8>, _>(why);
            let unread = Err::<DeliveryView, _>(
                Failure::UnreadableInput { path: input, reason: why },
            );
            &&& plain && t == "pdf"@ && read ==> r == Ok::<_, Failure>(
                DeliveryView::Pages(document::booklet(input, s)),
            )
            &&& plain && t == "html"@ && read ==> r == Ok::<_, Failure>(
                DeliveryView::Text(document::html_of(input, s)),
            )
            &&& f == "html"@ && (t == "txt"@ || t == "md"@) && read ==> r == Ok::<_, Failure>(
                DeliveryView::Text(document::plain_text(s)),
            )
            &&& f == "pdf"@ && (t == "txt"@ || t == "md"@) && read ==> r == Ok::<_, Failure>(
                DeliveryView::ExtractPdf(bytes),
            )
            &&& plain && (t == "pdf"@ || t == "html"@) && lost ==> r == unread
            &&& (f == "html"@ || f == "pdf"@) && (t == "txt"@ || t == "md"@) && lost ==> r == unread
        }),
{
    names::lemma_document_names();
}

/// Sound and video are handed on as the runs of the program for them, with the
/// bitrate of the options; tables as what is read of the source.
pub proof fn law_other_deliveries(
    input: Seq<char>,
    source: SourceView,
    output: Seq<char>,
    opts: ConvertOptions,
    r: Result<DeliveryView, Failure>,
)
    requires
        converters::file_allows(input, source, output, opts, r),
    ensures
        converters::route(input, source.is_file, output) == Ok::<_, Failure>(Engine::Media) ==> r
            == Ok::<_, Failure>(
            DeliveryView::Media(media::runs(input, output, opts.audio_bitrate_kbps)),
        ),
        converters::route(input, source.is_file, output) == Ok::<_, Failure>(Engine::Tabular)
            && tabular::converts(converters::ext(input), converters::ext(output)) ==> r
            == tabular::table_outcome(
            input,
            tabular::source_table(input, source, opts.csv_delimiter),
            output,
        ),
{
}

} // verus!
