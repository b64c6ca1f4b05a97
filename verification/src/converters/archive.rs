//! Archives: packing into ZIP, TAR and TAR.GZ, and unpacking.
//!
//! Unpacking is planned here and carried out by the caller: the plan names
//! every folder to make and every file to write. Zip-slip paths (`../evil`) and
//! paths through links are rejected, so that extraction never writes outside the
//! destination.
use vstd::prelude::*;

use crate::converters;
use crate::converters::packing;
use crate::converters::unpacking;
use crate::converters::{
    ConversionError, ConvertOptions, Converter, Delivery, DeliveryView, Failure, Source, SourceView,
};
use crate::outside::zips;
use crate::paths;
use crate::paths::{Component, Step};
use crate::text;

verus! {

/// Pack targets offered for any packable input.
pub fn supports_pack(to: &str) -> (r: bool)
    ensures
        r == converters::is_packable(to@),
{
    text::same(to, "zip") || text::same(to, "tar.gz") || text::same(to, "tgz") || text::same(
        to,
        "tar",
    )
}

/// Whether `from` is an archive that can be unpacked.
pub fn supports_unpack(from: &str) -> (r: bool)
    ensures
        r == converters::is_archive(from@),
{
    converters::archive_ext(from)
}

/// Targets shown for an archive source: extraction only.
pub fn unpack_targets_for(_from: &str) -> (r: Vec<String>)
    ensures
        r.deep_view() == seq!["extract"@],
{
    let r = vec!["extract".to_owned()];
    assert(r.deep_view() =~= seq!["extract"@]);
    r
}

// ---------------------------------------------------------------------------
// Paths inside the destination
// ---------------------------------------------------------------------------

/// The path that a list of components leads to from `dest`, unless one of them
/// leads up or to the root.
pub open spec fn inside(dest: Seq<char>, steps: Seq<Step>) -> Option<Seq<char>>
    decreases steps.len(),
{
    if steps.len() == 0 {
        Some(dest)
    } else {
        match inside(dest, steps.drop_last()) {
            None => None,
            Some(p) => match steps.last() {
                Step::Normal(name) => Some(paths::join(p, name)),
                Step::CurDir => Some(p),
                _ => None,
            },
        }
    }
}

/// Where an entry of an archive goes below `dest`, unless it would leave it.
pub open spec fn safe_path(dest: Seq<char>, entry: Seq<char>) -> Option<Seq<char>> {
    if paths::is_absolute(entry) {
        None
    } else {
        inside(dest, paths::components(entry))
    }
}

/// Joins the name of an entry onto `dest`; `None` where the result would
/// escape it.
pub fn safe_join(dest: &str, entry: &str) -> (r: Option<String>)
    ensures
        match r {
            Some(p) => safe_path(dest@, entry@) == Some(p@),
            None => safe_path(dest@, entry@) is None,
        },
{
    if paths::absolute(entry) {
        return None;
    }
    let list = paths::components_of(entry);
    let ghost steps = paths::components(entry@);
    let mut joined = dest.to_owned();
    for i in 0..list.len()
        invariant
            list.deep_view() == steps,
            steps == paths::components(entry@),
            !paths::is_absolute(entry@),
            inside(dest@, steps.take(i as int)) == Some(joined@),
    {
        proof {
            assert(steps.take(i + 1).drop_last() =~= steps.take(i as int));
            assert(steps[i as int] == list@[i as int].deep_view());
        }
        match &list[i] {
            Component::Normal(name) => {
                joined = paths::joined(joined.as_str(), name.as_str());
            },
            Component::CurDir => {},
            _ => {
                proof {
                    lemma_inside_stops(dest@, steps, i + 1);
                }
                return None;
            },
        }
    }
    assert(steps.take(steps.len() as int) =~= steps);
    Some(joined)
}

proof fn lemma_inside_stops(dest: Seq<char>, steps: Seq<Step>, k: int)
    requires
        0 <= k <= steps.len(),
        inside(dest, steps.take(k)) is None,
    ensures
        inside(dest, steps) is None,
    decreases steps.len(),
{
    if k == steps.len() {
        assert(steps.take(k) =~= steps);
    } else {
        assert(steps.drop_last().take(k) =~= steps.take(k));
        lemma_inside_stops(dest, steps.drop_last(), k);
    }
}

/// Whether a path is `dest` or lies below it by names alone.
pub open spec fn lies_within(dest: Seq<char>, p: Seq<char>) -> bool {
    let d = paths::components(dest);
    let c = paths::components(p);
    &&& d.len() <= c.len()
    &&& c.take(d.len() as int) == d
    &&& forall|k: int|
        d.len() <= k < c.len() ==> ((#[trigger] c[k]) matches Step::Normal(n) && paths::is_name(n))
}

pub proof fn lemma_inside(dest: Seq<char>, steps: Seq<Step>)
    requires
        forall|k: int|
            0 <= k < steps.len() ==> ((#[trigger] steps[k]) matches Step::Normal(n)
                ==> paths::is_name(n)),
    ensures
        inside(dest, steps) matches Some(p) ==> lies_within(dest, p),
        inside(dest, steps) is None <==> exists|k: int|
            0 <= k < steps.len() && (#[trigger] steps[k] == Step::ParentDir || steps[k]
                == Step::Root),
    decreases steps.len(),
{
    let d = paths::components(dest);
    if steps.len() == 0 {
        assert(d.take(d.len() as int) =~= d);
    } else {
        let rest = steps.drop_last();
        assert forall|k: int| 0 <= k < rest.len() implies ((
        #[trigger] rest[k]) matches Step::Normal(n) ==> paths::is_name(n)) by {
            assert(rest[k] == steps[k]);
        }
        lemma_inside(dest, rest);
        match inside(dest, rest) {
            Some(p) => {
                match steps.last() {
                    Step::Normal(name) => {
                        assert(steps[steps.len() - 1] == Step::Normal(name));
                        paths::lemma_join_name(p, name);
                        let c = paths::components(paths::join(p, name));
                        let before = paths::components(p);
                        assert(c.take(d.len() as int) =~= before.take(d.len() as int));
                        assert forall|k: int| d.len() <= k < c.len() implies ((
                        #[trigger] c[k]) matches Step::Normal(n) && paths::is_name(n)) by {
                            if k < before.len() {
                                assert(c[k] == before[k]);
                            }
                        }
                    },
                    _ => {},
                }
                assert forall|k: int|
                    0 <= k < steps.len() && (#[trigger] steps[k] == Step::ParentDir || steps[k]
                        == Step::Root) implies k == steps.len() - 1 by {
                    if k < steps.len() - 1 {
                        assert(rest[k] == steps[k]);
                    }
                }
                assert(steps.last() == steps[steps.len() - 1]);
            },
            None => {
                let k = choose|k: int|
                    0 <= k < rest.len() && (#[trigger] rest[k] == Step::ParentDir || rest[k]
                        == Step::Root);
                assert(steps[k] == rest[k]);
            },
        }
    }
}

/// What an archive names is written below the destination or refused: the way
/// down from it is made of plain names.
pub proof fn law_entries_stay_inside(dest: Seq<char>, entry: Seq<char>)
    ensures
        safe_path(dest, entry) matches Some(p) ==> lies_within(dest, p),
{
    paths::lemma_component_names(entry);
    lemma_inside(dest, paths::components(entry));
}

/// Exactly the absolute paths and those with a step up are refused.
pub proof fn law_refused_entries(dest: Seq<char>, entry: Seq<char>)
    ensures
        safe_path(dest, entry) is None <==> paths::is_absolute(entry) || paths::components(
            entry,
        ).contains(Step::ParentDir),
{
    let c = paths::components(entry);
    paths::lemma_component_names(entry);
    lemma_inside(dest, c);
    if !paths::is_absolute(entry) {
        paths::lemma_no_root(entry);
        if c.contains(Step::ParentDir) {
            let k = choose|k: int| 0 <= k < c.len() && c[k] == Step::ParentDir;
            assert(c[k] == Step::ParentDir);
        }
    }
}

// ---------------------------------------------------------------------------
// Conversion
// ---------------------------------------------------------------------------

/// Whether a path is that of a file rather than a folder to unpack into: it has
/// the extension of a known format.
pub open spec fn is_file_target(path: Seq<char>) -> bool {
    match paths::extension(path) {
        Some(e) => converters::kind_of(text::lower(e)) != converters::FileKind::Unknown,
        None => false,
    }
}

/// Heuristic: a path with a known archive/file extension is a file target;
/// extensionless or `extract`-style paths are directories.
pub fn looks_like_file_target(path: &str) -> (r: bool)
    ensures
        r == is_file_target(path@),
{
    match paths::extension_of(path) {
        Some(e) => match converters::kind_of_extension(text::to_lower(e.as_str()).as_str()) {
            converters::FileKind::Unknown => false,
            _ => true,
        },
        None => false,
    }
}

/// The folder to unpack into: for the path of a file, one of its name without
/// the extension.
pub open spec fn unpack_dir(output: Seq<char>) -> Seq<char> {
    if is_file_target(output) {
        let dir = match paths::parent(output) {
            Some(d) => d,
            None => "."@,
        };
        let stem = match paths::file_stem(output) {
            Some(s) => s,
            None => "extracted"@,
        };
        paths::join(dir, stem)
    } else {
        output
    }
}

/// The folder to unpack into.
pub fn unpack_dir_of(output: &str) -> (r: String)
    ensures
        r@ == unpack_dir(output@),
{
    if !looks_like_file_target(output) {
        return output.to_owned();
    }
    let dir = match paths::parent_of(output) {
        Some(d) => d,
        None => ".".to_owned(),
    };
    let stem = match paths::file_stem_of(output) {
        Some(s) => s,
        None => "extracted".to_owned(),
    };
    paths::joined(dir.as_str(), stem.as_str())
}

/// Whether an input is an archive to unpack.
pub open spec fn is_unpacked(input: Seq<char>) -> bool {
    converters::is_archive(converters::ext(input)) || converters::is_archive(
        converters::compound_ext(input),
    )
}

/// Whether an input is an archive to unpack.
pub fn unpacks(input: &str) -> (r: bool)
    ensures
        r == is_unpacked(input@),
{
    supports_unpack(converters::extension_of(input).as_str()) || supports_unpack(
        converters::compound_extension_of(input).as_str(),
    )
}

/// Whether bytes are the TAR file of a file, compressed or not, or a failure is
/// why there is none.
pub open spec fn tar_allows(
    input: Seq<char>,
    source: SourceView,
    output: Seq<char>,
    compressed: bool,
    r: Result<Seq<u8>, Failure>,
) -> bool {
    if compressed {
        ||| r is Err && packing::is_packed_tar(input, source, r)
        ||| exists|tar: Seq<u8>| #[trigger]
            packing::is_packed_tar(input, source, Ok(tar)) && packing::is_compressed(tar, output, r)
    } else {
        packing::is_packed_tar(input, source, r)
    }
}

/// Whether a result is right for an input and an output: an archive is
/// unpacked, anything else is packed in the format of the output. What a ZIP
/// or a compressed file holds is fixed, not its bytes.
pub open spec fn archive_allows(
    input: Seq<char>,
    source: SourceView,
    output: Seq<char>,
    r: Result<DeliveryView, Failure>,
) -> bool {
    let to = converters::compound_ext(output);
    if !source.exists {
        r == Err::<DeliveryView, _>(
            Failure::UnreadableInput { path: input, reason: "file does not exist"@ },
        )
    } else if is_unpacked(input) {
        r == Ok::<_, Failure>(
            DeliveryView::Unpack(
                unpacking::unpacking(input, source.content, unpack_dir(output)),
            ),
        )
    } else if to == "zip"@ {
        match packing::packed_items(input, source, output) {
            Err(f) => r == Err::<DeliveryView, _>(f),
            Ok(items) => r matches Ok(DeliveryView::Bytes(bytes)) && zips::opened_zip(bytes)
                == Ok::<_, Seq<char>>(zips::all_read(items)),
        }
    } else if to == "tar.gz"@ || to == "tgz"@ || to == "tar"@ {
        if source.is_dir {
            r == Ok::<_, Failure>(
                DeliveryView::Tar { name: packing::packed_name(input), compressed: to != "tar"@ },
            )
        } else {
            match r {
                Ok(DeliveryView::Bytes(bytes)) => tar_allows(
                    input,
                    source,
                    output,
                    to != "tar"@,
                    Ok(bytes),
                ),
                Ok(_) => false,
                Err(f) => tar_allows(input, source, output, to != "tar"@, Err(f)),
            }
        }
    } else {
        r == Err::<DeliveryView, _>(
            Failure::UnsupportedConversion { from: converters::compound_ext(input), to },
        )
    }
}

/// Works out the packing or unpacking of an input.
pub fn convert_archive(input: &str, source: Source, output: &str) -> (r: Result<
    Delivery,
    ConversionError,
>)
    ensures
        archive_allows(input@, source.deep_view(), output@, converters::delivery_result(r)),
{
    if !source.exists {
        return Err(
            ConversionError::UnreadableInput {
                path: input.to_owned(),
                reason: "file does not exist".to_owned(),
            },
        );
    }
    if unpacks(input) {
        let dest = unpack_dir_of(output);
        return Ok(
            Delivery::Unpack(unpacking::extract_archive(input, source.content, dest.as_str())),
        );
    }
    let to = converters::compound_extension_of(output);
    if text::same(to.as_str(), "zip") {
        return match packing::pack_zip(input, &source, output) {
            Ok(bytes) => Ok(Delivery::Bytes(bytes)),
            Err(e) => Err(e),
        };
    }
    let plain = text::same(to.as_str(), "tar");
    if plain || text::same(to.as_str(), "tar.gz") || text::same(to.as_str(), "tgz") {
        if source.is_dir {
            let name = packing::packed_name_of(input);
            return Ok(Delivery::Tar { name, compressed: !plain });
        }
        let tar = match packing::pack_tar(input, &source) {
            Ok(tar) => tar,
            Err(e) => return Err(e),
        };
        if plain {
            return Ok(Delivery::Bytes(tar));
        }
        assert(packing::is_packed_tar(input@, source.deep_view(), Ok(tar@)));
        return match packing::pack_tar_gz(tar.as_slice(), output) {
            Ok(bytes) => Ok(Delivery::Bytes(bytes)),
            Err(e) => Err(e),
        };
    }
    let from = converters::compound_extension_of(input);
    Err(ConversionError::UnsupportedConversion { from, to })
}

/// The engine for archives.
pub struct ArchiveConverter;

impl Converter for ArchiveConverter {
    open spec fn allows(
        &self,
        input: Seq<char>,
        source: SourceView,
        output: Seq<char>,
        opts: ConvertOptions,
        r: Result<DeliveryView, Failure>,
    ) -> bool {
        archive_allows(input, source, output, r)
    }

    fn convert(&self, input: &str, source: Source, output: &str, _opts: &ConvertOptions) -> (r:
        Result<Delivery, ConversionError>) {
        convert_archive(input, source, output)
    }
}

} // verus!
