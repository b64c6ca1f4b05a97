//! Packing a file or a folder into a ZIP file, and a file into a TAR file.
use vstd::prelude::*;

use crate::converters;
use crate::converters::{ConversionError, Failure, SourceView, Source};
use crate::outside::{tars, zips};
use crate::outside::zips::{ItemView, ZipFile};
use crate::paths;
use crate::text;

verus! {

/// What a walk through a folder came upon, in the order of the walk. A trail
/// is the list of names that leads there from the folder.
#[derive(Debug)]
pub enum Walked {
    Folder { trail: Vec<String> },
    File { trail: Vec<String>, content: Result<Vec<u8>, String> },
    /// The folder or one of its entries could not be listed.
    Unlisted(String),
}

/// What a [`Walked`] says.
#[verifier::ext_equal]
pub enum WalkedView {
    Folder { trail: Seq<Seq<char>> },
    File { trail: Seq<Seq<char>>, content: Result<Seq<u8>, Seq<char>> },
    Unlisted(Seq<char>),
}

impl DeepView for Walked {
    type V = WalkedView;

    open spec fn deep_view(&self) -> WalkedView {
        match self {
            Walked::Folder { trail } => WalkedView::Folder { trail: trail.deep_view() },
            Walked::File { trail, content } => WalkedView::File {
                trail: trail.deep_view(),
                content: converters::content_view(*content),
            },
            Walked::Unlisted(reason) => WalkedView::Unlisted(reason@),
        }
    }
}

/// The name under which an input is packed.
pub open spec fn packed_name(input: Seq<char>) -> Seq<char> {
    match paths::file_name(input) {
        Some(name) => name,
        None => "file"@,
    }
}

/// The name under which an input is packed.
pub fn packed_name_of(input: &str) -> (r: String)
    ensures
        r@ == packed_name(input@),
{
    match paths::file_name_of(input) {
        Some(name) => name,
        None => "file".to_owned(),
    }
}

/// The entries with one more file, if the writer takes it: `labels` are the
/// path named when it refuses the name, and the path of the file.
pub open spec fn with_file(
    items: Seq<ItemView>,
    labels: (Seq<char>, Seq<char>),
    name: Seq<char>,
    content: Result<Seq<u8>, Seq<char>>,
) -> Result<Seq<ItemView>, Failure> {
    let started = items.push(zips::whole_item(name, Seq::empty()));
    match zips::start_refused(items, name) {
        Some(reason) => Err(Failure::UnwritableOutput { path: labels.0, reason }),
        None => match content {
            Err(reason) => Err(Failure::UnreadableInput { path: labels.1, reason }),
            Ok(data) => match zips::data_refused(started, data) {
                Some(reason) => Err(Failure::UnreadableInput { path: labels.1, reason }),
                None => Ok(items.push(zips::whole_item(name, data))),
            },
        },
    }
}

/// Puts a file into a ZIP file.
fn put_file(
    zip: &mut ZipFile,
    owner: &str,
    path: &str,
    name: &str,
    content: &Result<Vec<u8>, String>,
) -> (r: Result<(), ConversionError>)
    ensures
        match r {
            Ok(_) => with_file(
                zips::items_put(*old(zip)),
                (owner@, path@),
                name@,
                converters::content_view(*content),
            ) == Ok::<_, Failure>(zips::items_put(*final(zip))),
            Err(e) => with_file(
                zips::items_put(*old(zip)),
                (owner@, path@),
                name@,
                converters::content_view(*content),
            ) == Err::<Seq<ItemView>, _>(e.deep_view()),
        },
{
    let ghost items = zips::items_put(*zip);
    match zips::start_file(zip, name) {
        Ok(_) => {},
        Err(reason) => {
            return Err(ConversionError::UnwritableOutput { path: owner.to_owned(), reason });
        },
    }
    let ghost started = items.push(zips::whole_item(name@, Seq::empty()));
    match content {
        Err(reason) => Err(
            ConversionError::UnreadableInput { path: path.to_owned(), reason: reason.clone() },
        ),
        Ok(data) => match zips::put_data(zip, data.as_slice()) {
            Err(reason) => Err(ConversionError::UnreadableInput { path: path.to_owned(), reason }),
            Ok(_) => {
                proof {
                    assert(started.drop_last() =~= items);
                    assert(Seq::<u8>::empty() + data@ =~= data@);
                }
                Ok(())
            },
        },
    }
}

/// The entries with one more thing found in a folder.
pub open spec fn with_walked(
    items: Seq<ItemView>,
    base: Seq<char>,
    found: WalkedView,
) -> Result<Seq<ItemView>, Failure> {
    match found {
        WalkedView::Unlisted(reason) => Err(Failure::Io(reason)),
        WalkedView::Folder { trail } => {
            let name = text::join(trail, "/"@);
            match zips::folder_refused(items, name) {
                Some(reason) => Err(Failure::UnwritableOutput { path: base, reason }),
                None => Ok(
                    items.push(zips::whole_item(zips::folder_name(name), Seq::empty())),
                ),
            }
        },
        WalkedView::File { trail, content } => {
            let name = text::join(trail, "/"@);
            with_file(items, (base, paths::join(base, name)), name, content)
        },
    }
}

/// The entries of a folder: each folder and file under its path from the base.
pub open spec fn folder_items(base: Seq<char>, found: Seq<WalkedView>) -> Result<
    Seq<ItemView>,
    Failure,
>
    decreases found.len(),
{
    if found.len() == 0 {
        Ok(Seq::empty())
    } else {
        match folder_items(base, found.drop_last()) {
            Err(f) => Err(f),
            Ok(items) => with_walked(items, base, found.last()),
        }
    }
}

proof fn lemma_folder_stops(base: Seq<char>, found: Seq<WalkedView>, k: int)
    requires
        0 <= k <= found.len(),
        folder_items(base, found.take(k)) is Err,
    ensures
        folder_items(base, found) == folder_items(base, found.take(k)),
    decreases found.len(),
{
    if k == found.len() {
        assert(found.take(k) =~= found);
    } else {
        assert(found.drop_last().take(k) =~= found.take(k));
        lemma_folder_stops(base, found.drop_last(), k);
    }
}

/// Puts one thing found in a folder into a ZIP file.
fn put_walked(zip: &mut ZipFile, base: &str, found: &Walked) -> (r: Result<(), ConversionError>)
    ensures
        match r {
            Ok(_) => with_walked(zips::items_put(*old(zip)), base@, found.deep_view()) == Ok::<
                _,
                Failure,
            >(zips::items_put(*final(zip))),
            Err(e) => with_walked(zips::items_put(*old(zip)), base@, found.deep_view()) == Err::<
                Seq<ItemView>,
                _,
            >(e.deep_view()),
        },
{
    match found {
        Walked::Unlisted(reason) => Err(ConversionError::Io(reason.clone())),
        Walked::Folder { trail } => {
            let name = text::joined(trail, "/");
            match zips::add_folder(zip, name.as_str()) {
                Ok(_) => Ok(()),
                Err(reason) => Err(
                    ConversionError::UnwritableOutput { path: base.to_owned(), reason },
                ),
            }
        },
        Walked::File { trail, content } => {
            let name = text::joined(trail, "/");
            let path = paths::joined(base, name.as_str());
            put_file(zip, base, path.as_str(), name.as_str(), content)
        },
    }
}

/// Puts a folder into a ZIP file.
fn pack_dir_as_zip(zip: &mut ZipFile, base: &str, found: &Vec<Walked>) -> (r: Result<
    (),
    ConversionError,
>)
    requires
        zips::items_put(*old(zip)) == Seq::<ItemView>::empty(),
    ensures
        match r {
            Ok(_) => folder_items(base@, found.deep_view()) == Ok::<_, Failure>(
                zips::items_put(*final(zip)),
            ),
            Err(e) => folder_items(base@, found.deep_view()) == Err::<Seq<ItemView>, _>(
                e.deep_view(),
            ),
        },
{
    let ghost all = found.deep_view();
    for i in 0..found.len()
        invariant
            all == found.deep_view(),
            folder_items(base@, all.take(i as int)) == Ok::<_, Failure>(zips::items_put(*zip)),
    {
        proof {
            assert(all.take(i + 1).drop_last() =~= all.take(i as int));
            assert(all[i as int] == found@[i as int].deep_view());
        }
        match put_walked(zip, base, &found[i]) {
            Ok(_) => {},
            Err(e) => {
                proof {
                    lemma_folder_stops(base@, all, i + 1);
                }
                return Err(e);
            },
        }
    }
    assert(all.take(all.len() as int) =~= all);
    Ok(())
}

/// The entries of the ZIP file that an input is packed into.
pub open spec fn packed_items(input: Seq<char>, source: SourceView, output: Seq<char>) -> Result<
    Seq<ItemView>,
    Failure,
> {
    let put = if source.is_dir {
        folder_items(input, source.found)
    } else {
        with_file(Seq::empty(), (output, input), packed_name(input), source.content)
    };
    match put {
        Err(f) => Err(f),
        Ok(items) => match zips::finish_refused(items) {
            Some(reason) => Err(Failure::UnwritableOutput { path: output, reason }),
            None => Ok(items),
        },
    }
}

/// Packs a file or a folder into a ZIP file, which reads as the packed entries.
pub fn pack_zip(input: &str, source: &Source, output: &str) -> (r: Result<
    Vec<u8>,
    ConversionError,
>)
    ensures
        match r {
            Ok(bytes) => packed_items(input@, source.deep_view(), output@) matches Ok(items)
                && zips::opened_zip(bytes@) == Ok::<_, Seq<char>>(zips::all_read(items)),
            Err(e) => packed_items(input@, source.deep_view(), output@) == Err::<
                Seq<ItemView>,
                _,
            >(e.deep_view()),
        },
{
    let mut zip = zips::new_zip();
    if source.is_dir {
        match pack_dir_as_zip(&mut zip, input, &source.found) {
            Ok(_) => {},
            Err(e) => return Err(e),
        }
    } else {
        let name = packed_name_of(input);
        match put_file(&mut zip, output, input, name.as_str(), &source.content) {
            Ok(_) => {},
            Err(e) => return Err(e),
        }
    }
    match zips::finish_zip(zip) {
        Ok(bytes) => Ok(bytes),
        Err(reason) => Err(ConversionError::UnwritableOutput { path: output.to_owned(), reason }),
    }
}

/// Whether bytes are the TAR file that a file is packed into, or a failure is why
/// there is none. Under a plain name there is one, which reads as that file.
pub open spec fn is_packed_tar(
    input: Seq<char>,
    source: SourceView,
    r: Result<Seq<u8>, Failure>,
) -> bool {
    let name = packed_name(input);
    match source.content {
        Err(reason) => r == Err::<Seq<u8>, _>(Failure::UnreadableInput { path: input, reason }),
        Ok(data) => match r {
            Ok(bytes) => tars::is_tar_of(name, data, source.stamp, Ok(bytes)) && (
            tars::is_plain_name(name) ==> tars::tar_entries(bytes) == tars::single_file(
                name,
                data,
            )),
            Err(Failure::UnreadableInput { path, reason }) => path == input
                && !tars::is_plain_name(name) && tars::is_tar_of(
                name,
                data,
                source.stamp,
                Err(reason),
            ),
            Err(_) => false,
        },
    }
}

/// Packs a file into a TAR file, which reads as that file.
pub fn pack_tar(input: &str, source: &Source) -> (r: Result<Vec<u8>, ConversionError>)
    ensures
        is_packed_tar(input@, source.deep_view(), converters::bytes_result(r)),
{
    match &source.content {
        Err(reason) => Err(
            ConversionError::UnreadableInput { path: input.to_owned(), reason: reason.clone() },
        ),
        Ok(data) => {
            let name = packed_name_of(input);
            match tars::tar_of(name.as_str(), data.as_slice(), &source.stamp) {
                Ok(bytes) => Ok(bytes),
                Err(reason) => Err(
                    ConversionError::UnreadableInput { path: input.to_owned(), reason },
                ),
            }
        },
    }
}

/// Whether bytes are the compressed form of a TAR file, or the failure to
/// compress it.
pub open spec fn is_compressed(
    tar: Seq<u8>,
    output: Seq<char>,
    r: Result<Seq<u8>, Failure>,
) -> bool {
    match tars::compress_refused(tar) {
        Some(reason) => r == Err::<Seq<u8>, _>(Failure::UnwritableOutput { path: output, reason }),
        None => r matches Ok(bytes) && tars::gz_tar_entries(bytes) == tars::tar_entries(tar),
    }
}

/// Compresses a TAR file: the entries stay the same.
pub fn pack_tar_gz(tar: &[u8], output: &str) -> (r: Result<Vec<u8>, ConversionError>)
    ensures
        is_compressed(tar@, output@, converters::bytes_result(r)),
{
    match tars::compress(tar) {
        Ok(bytes) => Ok(bytes),
        Err(reason) => Err(ConversionError::UnwritableOutput { path: output.to_owned(), reason }),
    }
}

} // verus!
