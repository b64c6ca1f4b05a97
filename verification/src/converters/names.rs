//! The format names, told apart: each has its own length and leading letters.
use vstd::prelude::*;

use crate::text;

verus! {

/// The letter at a place, a blank beyond the end.
pub open spec fn letter(s: Seq<char>, i: int) -> char {
    if 0 <= i < s.len() {
        s[i]
    } else {
        ' '
    }
}

/// Length and first four letters, which tell the format names apart.
pub open spec fn key(s: Seq<char>) -> (nat, char, char, char, char) {
    (s.len(), letter(s, 0), letter(s, 1), letter(s, 2), letter(s, 3))
}

/// A name in lower case with a given key.
pub open spec fn named(s: Seq<char>, k: (nat, char, char, char, char)) -> bool {
    key(s) == k && text::lower(s) == s
}

/// The tabular format names.
pub proof fn lemma_tabular_names()
    ensures
        named("csv"@, (3nat, 'c', 's', 'v', ' ')),
        named("tsv"@, (3nat, 't', 's', 'v', ' ')),
        named("xlsx"@, (4nat, 'x', 'l', 's', 'x')),
        named("xls"@, (3nat, 'x', 'l', 's', ' ')),
        named("xlsm"@, (4nat, 'x', 'l', 's', 'm')),
        named("xlsb"@, (4nat, 'x', 'l', 's', 'b')),
        named("ods"@, (3nat, 'o', 'd', 's', ' ')),
        named("json"@, (4nat, 'j', 's', 'o', 'n')),
{
    reveal_strlit("csv");
    assert(text::lower("csv"@) =~= "csv"@);
    reveal_strlit("tsv");
    assert(text::lower("tsv"@) =~= "tsv"@);
    reveal_strlit("xlsx");
    assert(text::lower("xlsx"@) =~= "xlsx"@);
    reveal_strlit("xls");
    assert(text::lower("xls"@) =~= "xls"@);
    reveal_strlit("xlsm");
    assert(text::lower("xlsm"@) =~= "xlsm"@);
    reveal_strlit("xlsb");
    assert(text::lower("xlsb"@) =~= "xlsb"@);
    reveal_strlit("ods");
    assert(text::lower("ods"@) =~= "ods"@);
    reveal_strlit("json");
    assert(text::lower("json"@) =~= "json"@);
}

/// The image format names.
pub proof fn lemma_image_names()
    ensures
        named("png"@, (3nat, 'p', 'n', 'g', ' ')),
        named("jpg"@, (3nat, 'j', 'p', 'g', ' ')),
        named("jpeg"@, (4nat, 'j', 'p', 'e', 'g')),
        named("webp"@, (4nat, 'w', 'e', 'b', 'p')),
        named("bmp"@, (3nat, 'b', 'm', 'p', ' ')),
        named("tiff"@, (4nat, 't', 'i', 'f', 'f')),
        named("tif"@, (3nat, 't', 'i', 'f', ' ')),
        named("gif"@, (3nat, 'g', 'i', 'f', ' ')),
{
    reveal_strlit("png");
    assert(text::lower("png"@) =~= "png"@);
    reveal_strlit("jpg");
    assert(text::lower("jpg"@) =~= "jpg"@);
    reveal_strlit("jpeg");
    assert(text::lower("jpeg"@) =~= "jpeg"@);
    reveal_strlit("webp");
    assert(text::lower("webp"@) =~= "webp"@);
    reveal_strlit("bmp");
    assert(text::lower("bmp"@) =~= "bmp"@);
    reveal_strlit("tiff");
    assert(text::lower("tiff"@) =~= "tiff"@);
    reveal_strlit("tif");
    assert(text::lower("tif"@) =~= "tif"@);
    reveal_strlit("gif");
    assert(text::lower("gif"@) =~= "gif"@);
}

/// The audio format names.
pub proof fn lemma_audio_names()
    ensures
        named("mp3"@, (3nat, 'm', 'p', '3', ' ')),
        named("wav"@, (3nat, 'w', 'a', 'v', ' ')),
        named("ogg"@, (3nat, 'o', 'g', 'g', ' ')),
        named("oga"@, (3nat, 'o', 'g', 'a', ' ')),
        named("flac"@, (4nat, 'f', 'l', 'a', 'c')),
        named("aac"@, (3nat, 'a', 'a', 'c', ' ')),
        named("m4a"@, (3nat, 'm', '4', 'a', ' ')),
        named("opus"@, (4nat, 'o', 'p', 'u', 's')),
        named("wma"@, (3nat, 'w', 'm', 'a', ' ')),
{
    reveal_strlit("mp3");
    assert(text::lower("mp3"@) =~= "mp3"@);
    reveal_strlit("wav");
    assert(text::lower("wav"@) =~= "wav"@);
    reveal_strlit("ogg");
    assert(text::lower("ogg"@) =~= "ogg"@);
    reveal_strlit("oga");
    assert(text::lower("oga"@) =~= "oga"@);
    reveal_strlit("flac");
    assert(text::lower("flac"@) =~= "flac"@);
    reveal_strlit("aac");
    assert(text::lower("aac"@) =~= "aac"@);
    reveal_strlit("m4a");
    assert(text::lower("m4a"@) =~= "m4a"@);
    reveal_strlit("opus");
    assert(text::lower("opus"@) =~= "opus"@);
    reveal_strlit("wma");
    assert(text::lower("wma"@) =~= "wma"@);
}

/// The video format names.
pub proof fn lemma_video_names()
    ensures
        named("mp4"@, (3nat, 'm', 'p', '4', ' ')),
        named("mkv"@, (3nat, 'm', 'k', 'v', ' ')),
        named("webm"@, (4nat, 'w', 'e', 'b', 'm')),
        named("avi"@, (3nat, 'a', 'v', 'i', ' ')),
        named("mov"@, (3nat, 'm', 'o', 'v', ' ')),
        named("m4v"@, (3nat, 'm', '4', 'v', ' ')),
        named("flv"@, (3nat, 'f', 'l', 'v', ' ')),
        named("ogv"@, (3nat, 'o', 'g', 'v', ' ')),
{
    reveal_strlit("mp4");
    assert(text::lower("mp4"@) =~= "mp4"@);
    reveal_strlit("mkv");
    assert(text::lower("mkv"@) =~= "mkv"@);
    reveal_strlit("webm");
    assert(text::lower("webm"@) =~= "webm"@);
    reveal_strlit("avi");
    assert(text::lower("avi"@) =~= "avi"@);
    reveal_strlit("mov");
    assert(text::lower("mov"@) =~= "mov"@);
    reveal_strlit("m4v");
    assert(text::lower("m4v"@) =~= "m4v"@);
    reveal_strlit("flv");
    assert(text::lower("flv"@) =~= "flv"@);
    reveal_strlit("ogv");
    assert(text::lower("ogv"@) =~= "ogv"@);
}

/// The document format names.
pub proof fn lemma_document_names()
    ensures
        named("pdf"@, (3nat, 'p', 'd', 'f', ' ')),
        named("txt"@, (3nat, 't', 'x', 't', ' ')),
        named("md"@, (2nat, 'm', 'd', ' ', ' ')),
        named("markdown"@, (8nat, 'm', 'a', 'r', 'k')),
        named("html"@, (4nat, 'h', 't', 'm', 'l')),
{
    reveal_strlit("pdf");
    assert(text::lower("pdf"@) =~= "pdf"@);
    reveal_strlit("txt");
    assert(text::lower("txt"@) =~= "txt"@);
    reveal_strlit("md");
    assert(text::lower("md"@) =~= "md"@);
    reveal_strlit("markdown");
    assert(text::lower("markdown"@) =~= "markdown"@);
    reveal_strlit("html");
    assert(text::lower("html"@) =~= "html"@);
}

/// The archive format names.
pub proof fn lemma_archive_names()
    ensures
        named("zip"@, (3nat, 'z', 'i', 'p', ' ')),
        named("tar"@, (3nat, 't', 'a', 'r', ' ')),
        named("tgz"@, (3nat, 't', 'g', 'z', ' ')),
        named("tar.gz"@, (6nat, 't', 'a', 'r', '.')),
        named("gz"@, (2nat, 'g', 'z', ' ', ' ')),
        named("extract"@, (7nat, 'e', 'x', 't', 'r')),
        named("unzip"@, (5nat, 'u', 'n', 'z', 'i')),
{
    reveal_strlit("zip");
    assert(text::lower("zip"@) =~= "zip"@);
    reveal_strlit("tar");
    assert(text::lower("tar"@) =~= "tar"@);
    reveal_strlit("tgz");
    assert(text::lower("tgz"@) =~= "tgz"@);
    reveal_strlit("tar.gz");
    assert(text::lower("tar.gz"@) =~= "tar.gz"@);
    reveal_strlit("gz");
    assert(text::lower("gz"@) =~= "gz"@);
    reveal_strlit("extract");
    assert(text::lower("extract"@) =~= "extract"@);
    reveal_strlit("unzip");
    assert(text::lower("unzip"@) =~= "unzip"@);
}

/// All the format names.
pub proof fn lemma_names()
    ensures
        named("csv"@, (3nat, 'c', 's', 'v', ' ')),
        named("tsv"@, (3nat, 't', 's', 'v', ' ')),
        named("xlsx"@, (4nat, 'x', 'l', 's', 'x')),
        named("xls"@, (3nat, 'x', 'l', 's', ' ')),
        named("xlsm"@, (4nat, 'x', 'l', 's', 'm')),
        named("xlsb"@, (4nat, 'x', 'l', 's', 'b')),
        named("ods"@, (3nat, 'o', 'd', 's', ' ')),
        named("json"@, (4nat, 'j', 's', 'o', 'n')),
        named("png"@, (3nat, 'p', 'n', 'g', ' ')),
        named("jpg"@, (3nat, 'j', 'p', 'g', ' ')),
        named("jpeg"@, (4nat, 'j', 'p', 'e', 'g')),
        named("webp"@, (4nat, 'w', 'e', 'b', 'p')),
        named("bmp"@, (3nat, 'b', 'm', 'p', ' ')),
        named("tiff"@, (4nat, 't', 'i', 'f', 'f')),
        named("tif"@, (3nat, 't', 'i', 'f', ' ')),
        named("gif"@, (3nat, 'g', 'i', 'f', ' ')),
        named("mp3"@, (3nat, 'm', 'p', '3', ' ')),
        named("wav"@, (3nat, 'w', 'a', 'v', ' ')),
        named("ogg"@, (3nat, 'o', 'g', 'g', ' ')),
        named("oga"@, (3nat, 'o', 'g', 'a', ' ')),
        named("flac"@, (4nat, 'f', 'l', 'a', 'c')),
        named("aac"@, (3nat, 'a', 'a', 'c', ' ')),
        named("m4a"@, (3nat, 'm', '4', 'a', ' ')),
        named("opus"@, (4nat, 'o', 'p', 'u', 's')),
        named("wma"@, (3nat, 'w', 'm', 'a', ' ')),
        named("mp4"@, (3nat, 'm', 'p', '4', ' ')),
        named("mkv"@, (3nat, 'm', 'k', 'v', ' ')),
        named("webm"@, (4nat, 'w', 'e', 'b', 'm')),
        named("avi"@, (3nat, 'a', 'v', 'i', ' ')),
        named("mov"@, (3nat, 'm', 'o', 'v', ' ')),
        named("m4v"@, (3nat, 'm', '4', 'v', ' ')),
        named("flv"@, (3nat, 'f', 'l', 'v', ' ')),
        named("ogv"@, (3nat, 'o', 'g', 'v', ' ')),
        named("pdf"@, (3nat, 'p', 'd', 'f', ' ')),
        named("txt"@, (3nat, 't', 'x', 't', ' ')),
        named("md"@, (2nat, 'm', 'd', ' ', ' ')),
        named("markdown"@, (8nat, 'm', 'a', 'r', 'k')),
        named("html"@, (4nat, 'h', 't', 'm', 'l')),
        named("zip"@, (3nat, 'z', 'i', 'p', ' ')),
        named("tar"@, (3nat, 't', 'a', 'r', ' ')),
        named("tgz"@, (3nat, 't', 'g', 'z', ' ')),
        named("tar.gz"@, (6nat, 't', 'a', 'r', '.')),
        named("gz"@, (2nat, 'g', 'z', ' ', ' ')),
        named("extract"@, (7nat, 'e', 'x', 't', 'r')),
        named("unzip"@, (5nat, 'u', 'n', 'z', 'i')),
{
    lemma_tabular_names();
    lemma_image_names();
    lemma_audio_names();
    lemma_video_names();
    lemma_document_names();
    lemma_archive_names();
}

} // verus!
