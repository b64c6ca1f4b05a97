//! What holds of the conversion matrix as a whole.
use vstd::prelude::*;

use crate::converters;
use crate::converters::document;
use crate::converters::images;
use crate::converters::media;
use crate::converters::names;
use crate::converters::tabular;
use crate::converters::workbook_table;
use crate::converters::{ConvertOptions, DeliveryView, Failure, SourceView};
use crate::paths;
use crate::text;

verus! {

/// Lower case twice is lower case once.
pub proof fn lemma_lower_twice(s: Seq<char>)
    ensures
        text::lower(text::lower(s)) == text::lower(s),
{
    assert(text::lower(text::lower(s)) =~= text::lower(s));
}

/// Every target on offer for a source that is no archive can be converted to.
pub proof fn law_targets_are_supported(from: Seq<char>, t: Seq<char>)
    requires
        converters::kind_of(text::lower(from)) != converters::FileKind::Archive,
        converters::targets(from).contains(t),
    ensures
        converters::supported(from, t),
        text::lower(from) != t,
{
    let f = text::lower(from);
    lemma_lower_twice(from);
    names::lemma_names();
    match converters::kind_of(f) {
        converters::FileKind::Tabular => {
            text::lemma_without(seq!["xlsx"@, "json"@, "csv"@, "tsv"@], f);
            text::lemma_without(seq!["csv"@, "tsv"@, "json"@], f);
            text::lemma_without(seq!["csv"@, "tsv"@, "xlsx"@], f);
            assert(tabular::targets(f).contains(t));
        },
        converters::FileKind::Image => {
            text::lemma_without(
                seq!["png"@, "jpg"@, "webp"@, "bmp"@, "tiff"@, "gif"@],
                images::canonical(f),
            );
            assert(images::targets(f).contains(t));
        },
        converters::FileKind::Audio => {
            text::lemma_without(media::audio_formats(), f);
            assert(media::audio_targets(f).contains(t));
        },
        converters::FileKind::Video => {
            text::lemma_without(media::video_formats(), f);
            let heads = seq!["mp3"@, "wav"@, "ogg"@];
            let tail = text::without(media::video_formats(), f);
            assert((heads + tail).contains(t));
            let i = choose|i: int| 0 <= i < (heads + tail).len() && (heads + tail)[i] == t;
            if i >= heads.len() {
                assert(tail[i - heads.len()] == t);
                assert(tail.contains(t));
            }
        },
        converters::FileKind::Document => {
            assert(document::targets(f).contains(t));
        },
        _ => {},
    }
}

/// An archive offers one thing: to be unpacked. Any target that is no archive
/// counts as a supported pair then.
pub proof fn law_archives_unpack(from: Seq<char>)
    requires
        converters::is_archive(text::lower(from)),
    ensures
        converters::targets(from) == seq!["extract"@],
        converters::supported(from, "extract"@),
{
    names::lemma_names();
    lemma_lower_twice(from);
}

/// Nothing is offered twice.
pub proof fn law_targets_distinct(from: Seq<char>)
    ensures
        converters::targets(from).no_duplicates(),
{
    let f = text::lower(from);
    names::lemma_names();
    match converters::kind_of(f) {
        converters::FileKind::Tabular => {
            text::lemma_without(seq!["xlsx"@, "json"@, "csv"@, "tsv"@], f);
            text::lemma_without(seq!["csv"@, "tsv"@, "json"@], f);
            text::lemma_without(seq!["csv"@, "tsv"@, "xlsx"@], f);
        },
        converters::FileKind::Image => {
            text::lemma_without(
                seq!["png"@, "jpg"@, "webp"@, "bmp"@, "tiff"@, "gif"@],
                images::canonical(f),
            );
        },
        converters::FileKind::Audio => {
            text::lemma_without(media::audio_formats(), text::lower(f));
        },
        converters::FileKind::Video => {
            text::lemma_without(media::video_formats(), text::lower(f));
            let heads = seq!["mp3"@, "wav"@, "ogg"@];
            let tail = text::without(media::video_formats(), text::lower(f));
            assert forall|i: int, j: int| 0 <= i < j < (heads + tail).len() implies (heads + tail)[i]
                != (heads + tail)[j] by {
                if j >= heads.len() {
                    assert(tail.contains(tail[j - heads.len()]));
                    if i >= heads.len() {
                        assert(tail[i - heads.len()] != tail[j - heads.len()]);
                    }
                }
            }
        },
        _ => {},
    }
}

/// A batch offers what any of its files offers, and each thing once.
pub proof fn law_batch_targets(exts: Seq<Seq<char>>)
    ensures
        converters::batch_targets(exts).no_duplicates(),
        forall|t: Seq<char>| #[trigger]
            converters::batch_targets(exts).contains(t) <==> exists|i: int|
                0 <= i < exts.len() && (#[trigger] converters::targets(exts[i])).contains(t),
{
    lemma_first_seen(converters::all_targets(exts));
    assert forall|t: Seq<char>| #[trigger]
        converters::batch_targets(exts).contains(t) <==> exists|i: int|
            0 <= i < exts.len() && (#[trigger] converters::targets(exts[i])).contains(t) by {
        lemma_all_targets(exts, t);
    }
}

/// Taking first occurrences keeps the members and drops the repetitions.
pub proof fn lemma_first_seen(v: Seq<Seq<char>>)
    ensures
        converters::first_seen(v).no_duplicates(),
        forall|t: Seq<char>| #[trigger] converters::first_seen(v).contains(t) <==> v.contains(t),
    decreases v.len(),
{
    if v.len() > 0 {
        let rest = v.drop_last();
        let before = converters::first_seen(rest);
        lemma_first_seen(rest);
        let now = converters::first_seen(v);
        assert forall|t: Seq<char>| #[trigger] now.contains(t) <==> v.contains(t) by {
            if v.contains(t) {
                let k = choose|k: int| 0 <= k < v.len() && v[k] == t;
                if k < rest.len() {
                    assert(rest[k] == t);
                    assert(before.contains(t));
                    let j = choose|j: int| 0 <= j < before.len() && before[j] == t;
                    assert(now[j] == t);
                } else if !before.contains(t) {
                    assert(now[now.len() - 1] == t);
                }
            }
            if now.contains(t) {
                let j = choose|j: int| 0 <= j < now.len() && now[j] == t;
                if j < before.len() {
                    assert(before[j] == t);
                    assert(before.contains(t));
                    let k = choose|k: int| 0 <= k < rest.len() && rest[k] == t;
                    assert(v[k] == t);
                } else {
                    assert(v[v.len() - 1] == t);
                }
            }
        }
        if !before.contains(v.last()) {
            assert forall|i: int, j: int| 0 <= i < j < now.len() implies now[i] != now[j] by {
                if j == before.len() {
                    assert(before[i] == now[i]);
                }
            }
        }
    }
}

proof fn lemma_all_targets(exts: Seq<Seq<char>>, t: Seq<char>)
    ensures
        converters::all_targets(exts).contains(t) <==> exists|i: int|
            0 <= i < exts.len() && (#[trigger] converters::targets(exts[i])).contains(t),
    decreases exts.len(),
{
    if exts.len() > 0 {
        let rest = exts.drop_last();
        lemma_all_targets(rest, t);
        let a = converters::all_targets(rest);
        let b = converters::targets(exts.last());
        if (a + b).contains(t) {
            let k = choose|k: int| 0 <= k < (a + b).len() && (a + b)[k] == t;
            if k < a.len() {
                assert(a[k] == t);
                assert(a.contains(t));
                let i = choose|i: int|
                    0 <= i < rest.len() && (#[trigger] converters::targets(rest[i])).contains(t);
                assert(converters::targets(exts[i]).contains(t));
            } else {
                assert(b[k - a.len()] == t);
                assert(converters::targets(exts[exts.len() - 1]).contains(t));
            }
        }
        if exists|i: int|
            0 <= i < exts.len() && (#[trigger] converters::targets(exts[i])).contains(t) {
            let i = choose|i: int|
                0 <= i < exts.len() && (#[trigger] converters::targets(exts[i])).contains(t);
            if i < rest.len() {
                assert(converters::targets(rest[i]).contains(t));
                assert(a.contains(t));
                let k = choose|k: int| 0 <= k < a.len() && a[k] == t;
                assert((a + b)[k] == t);
            } else {
                let k = choose|k: int| 0 <= k < b.len() && b[k] == t;
                assert((a + b)[a.len() + k] == t);
            }
        }
    }
}

/// An extension is in small letters.
pub proof fn lemma_ext_is_lower(path: Seq<char>)
    ensures
        text::lower(converters::ext(path)) == converters::ext(path),
{
    if let Some(e) = paths::extension(path) {
        lemma_lower_twice(e);
    }
    assert(text::lower(Seq::empty()) =~= Seq::empty());
}

proof fn lemma_first_table_failure(
    label: Seq<char>,
    sheets: Seq<workbook_table::SheetView>,
    k: nat,
)
    ensures
        workbook_table::first_table(label, sheets, k) matches Err(f) ==> f is MalformedData,
    decreases sheets.len() - k,
{
    if k < sheets.len() {
        lemma_first_table_failure(label, sheets, k + 1);
    }
}

/// A supported pair is never turned down as unsupported, whatever the engine
/// makes of the content.
pub proof fn law_supported_pairs_convert(
    input: Seq<char>,
    source: SourceView,
    output: Seq<char>,
    opts: ConvertOptions,
    r: Result<DeliveryView, Failure>,
)
    requires
        converters::ext(input).len() > 0,
        converters::supported(converters::ext(input), converters::compound_ext(output)),
        source.is_file && source.exists && !source.is_dir,
        converters::file_allows(input, source, output, opts, r),
    ensures
        !(r matches Err(Failure::UnsupportedConversion { .. })),
{
    let from = converters::ext(input);
    let to = converters::compound_ext(output);
    names::lemma_names();
    lemma_ext_is_lower(input);
    lemma_ext_is_lower(output);
    if let Ok(sheets) = source.workbook {
        lemma_first_table_failure(input, sheets, 0);
    }
    assert(text::lower(to) == to);
    if converters::kind_of(to) != converters::FileKind::Archive {
        assert(to == converters::ext(output));
    }
}

/// What is offered for a file that is no archive is also done: the conversion
/// to a target on offer is never turned down as unsupported. Only a file
/// without an extension is offered more than that.
pub proof fn law_offered_targets_convert(
    input: Seq<char>,
    source: SourceView,
    output: Seq<char>,
    opts: ConvertOptions,
    r: Result<DeliveryView, Failure>,
)
    requires
        converters::ext(input).len() > 0,
        converters::kind_of(converters::ext(input)) != converters::FileKind::Archive,
        converters::targets(converters::ext(input)).contains(converters::compound_ext(output)),
        source.is_file && source.exists && !source.is_dir,
        converters::file_allows(input, source, output, opts, r),
    ensures
        !(r matches Err(Failure::UnsupportedConversion { .. })),
{
    let f = converters::ext(input);
    let t = converters::compound_ext(output);
    lemma_ext_is_lower(input);
    law_targets_are_supported(f, t);
    law_supported_pairs_convert(input, source, output, opts, r);
}

} // verus!
