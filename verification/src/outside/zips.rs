//! ZIP files, written and read by the `zip` crate.
use std::io::{Cursor, Read, Write};

use vstd::prelude::*;

verus! {

/// One entry of a ZIP file, as far as it could be read.
#[derive(Debug)]
pub struct Item {
    pub name: String,
    pub is_dir: bool,
    pub data: Vec<u8>,
    /// Why the data ends early, if it does.
    pub fault: Option<String>,
}

/// What an [`Item`] holds.
#[verifier::ext_equal]
pub struct ItemView {
    pub name: Seq<char>,
    pub is_dir: bool,
    pub data: Seq<u8>,
    pub fault: Option<Seq<char>>,
}

impl DeepView for Item {
    type V = ItemView;

    open spec fn deep_view(&self) -> ItemView {
        ItemView {
            name: self.name@,
            is_dir: self.is_dir,
            data: self.data@,
            fault: match self.fault {
                Some(f) => Some(f@),
                None => None,
            },
        }
    }
}

/// Whether a name stands for a folder in a ZIP file.
pub open spec fn is_folder_name(name: Seq<char>) -> bool {
    name.len() > 0 && (name.last() == '/' || name.last() == '\\')
}

/// A whole entry of that name and data.
pub open spec fn whole_item(name: Seq<char>, data: Seq<u8>) -> ItemView {
    ItemView { name, is_dir: is_folder_name(name), data, fault: None }
}

/// What reading gives where every entry is whole.
pub open spec fn all_read(items: Seq<ItemView>) -> Seq<Result<ItemView, Seq<char>>> {
    items.map_values(|i: ItemView| Ok::<ItemView, Seq<char>>(i))
}

// ---------------------------------------------------------------------------
// Reading
// ---------------------------------------------------------------------------

/// `std::io::Cursor`, which lets bytes be read as a file.
#[verifier::external_type_specification]
#[verifier::external_body]
#[verifier::reject_recursive_types(T)]
pub struct ExCursor<T>(std::io::Cursor<T>);

/// `zip::ZipArchive`, an open ZIP file.
#[verifier::external_type_specification]
#[verifier::external_body]
#[verifier::reject_recursive_types(R)]
pub struct ExZipArchive<R>(zip::ZipArchive<R>);

/// What the entries of an open ZIP file read as, each with its error text.
pub uninterp spec fn items_held(archive: zip::ZipArchive<Cursor<Vec<u8>>>) -> Seq<
    Result<ItemView, Seq<char>>,
>;

/// What the entries of a ZIP file read as, or why it cannot be opened.
pub uninterp spec fn opened_zip(bytes: Seq<u8>) -> Result<
    Seq<Result<ItemView, Seq<char>>>,
    Seq<char>,
>;

/// `zip::ZipArchive::new` on bytes in memory. The result depends on the bytes
/// alone.
#[verifier::external_body]
pub(crate) fn open_zip(bytes: Vec<u8>) -> (r: Result<zip::ZipArchive<Cursor<Vec<u8>>>, String>)
    ensures
        match r {
            Ok(a) => opened_zip(bytes@) == Ok::<_, Seq<char>>(items_held(a)),
            Err(e) => opened_zip(bytes@) == Err::<Seq<Result<ItemView, Seq<char>>>, _>(e@),
        },
{
    zip::ZipArchive::new(Cursor::new(bytes)).map_err(|e| e.to_string())
}

/// `zip::ZipArchive::len`: the number of entries.
#[verifier::external_body]
pub(crate) fn item_count(archive: &zip::ZipArchive<Cursor<Vec<u8>>>) -> (r: usize)
    ensures
        r == items_held(*archive).len(),
{
    archive.len()
}

/// `zip::ZipArchive::by_index`, with the entry's name, kind and data. Reading
/// an entry does not change what the archive holds.
#[verifier::external_body]
pub(crate) fn item_at(archive: &mut zip::ZipArchive<Cursor<Vec<u8>>>, index: usize) -> (r: Result<
    Item,
    String,
>)
    requires
        index < items_held(*old(archive)).len(),
    ensures
        items_held(*final(archive)) == items_held(*old(archive)),
        match r {
            Ok(item) => items_held(*old(archive))[index as int] == Ok::<_, Seq<char>>(
                item.deep_view(),
            ),
            Err(e) => items_held(*old(archive))[index as int] == Err::<ItemView, _>(e@),
        },
{
    let mut entry = archive.by_index(index).map_err(|e| e.to_string())?;
    let name = entry.name().map_err(|e| e.to_string())?.into_owned();
    let is_dir = entry.is_dir();
    let mut data = Vec::new();
    let fault = entry.read_to_end(&mut data).err().map(|e| e.to_string());
    Ok(Item { name, is_dir, data, fault })
}

// ---------------------------------------------------------------------------
// Writing
// ---------------------------------------------------------------------------

/// A ZIP file under construction in memory, held by a `zip::ZipWriter`.
#[verifier::external_body]
pub struct ZipFile {
    inner: zip::ZipWriter<Cursor<Vec<u8>>>,
}

/// The entries that were put into a ZIP file under construction.
pub uninterp spec fn items_put(writer: ZipFile) -> Seq<ItemView>;

/// Whether the entry put last is a file that takes data.
pub uninterp spec fn takes_data(writer: ZipFile) -> bool;

/// Why a file of that name cannot be started behind those entries, if so.
pub uninterp spec fn start_refused(items: Seq<ItemView>, name: Seq<char>) -> Option<Seq<char>>;

/// Why a folder of that name cannot be put behind those entries, if so.
pub uninterp spec fn folder_refused(items: Seq<ItemView>, name: Seq<char>) -> Option<Seq<char>>;

/// Why data cannot be added to the last of those entries, if so.
pub uninterp spec fn data_refused(items: Seq<ItemView>, data: Seq<u8>) -> Option<Seq<char>>;

/// Why a ZIP file of those entries cannot be finished, if so.
pub uninterp spec fn finish_refused(items: Seq<ItemView>) -> Option<Seq<char>>;

/// `zip::ZipWriter::new` on an empty buffer.
#[verifier::external_body]
pub(crate) fn new_zip() -> (r: ZipFile)
    ensures
        items_put(r) == Seq::<ItemView>::empty(),
{
    ZipFile { inner: zip::ZipWriter::new(Cursor::new(Vec::new())) }
}

/// `zip::ZipWriter::start_file`, deflated: an entry of that name, still empty.
/// Nothing is said of the writer after a refusal.
#[verifier::external_body]
pub(crate) fn start_file(writer: &mut ZipFile, name: &str) -> (r: Result<(), String>)
    ensures
        match r {
            Ok(_) => start_refused(items_put(*old(writer)), name@) is None && takes_data(
                *final(writer),
            ) && items_put(*final(writer)) == items_put(*old(writer)).push(
                whole_item(name@, Seq::empty()),
            ),
            Err(e) => start_refused(items_put(*old(writer)), name@) == Some(e@),
        },
{
    let options = zip::write::SimpleFileOptions::default()
        .compression_method(zip::CompressionMethod::Deflated);
    writer.inner.start_file(name, options).map_err(|e| e.to_string())
}

/// `zip::ZipWriter::write_all` into the file that was started last. Nothing is
/// said of the writer after a refusal.
#[verifier::external_body]
pub(crate) fn put_data(writer: &mut ZipFile, data: &[u8]) -> (r: Result<(), String>)
    requires
        takes_data(*old(writer)),
        items_put(*old(writer)).len() > 0,
    ensures
        match r {
            Ok(_) => {
                let before = items_put(*old(writer));
                data_refused(before, data@) is None && takes_data(*final(writer)) && items_put(
                    *final(writer),
                ) == before.drop_last().push(
                    whole_item(before.last().name, before.last().data + data@),
                )
            },
            Err(e) => data_refused(items_put(*old(writer)), data@) == Some(e@),
        },
{
    writer.inner.write_all(data).map_err(|e| e.to_string())
}

/// The name under which a folder is put: with a slash behind it.
pub open spec fn folder_name(name: Seq<char>) -> Seq<char> {
    if is_folder_name(name) {
        name
    } else {
        name.push('/')
    }
}

/// `zip::ZipWriter::add_directory`: an empty entry, its name ending in a slash.
/// Nothing is said of the writer after a refusal.
#[verifier::external_body]
pub(crate) fn add_folder(writer: &mut ZipFile, name: &str) -> (r: Result<(), String>)
    ensures
        match r {
            Ok(_) => folder_refused(items_put(*old(writer)), name@) is None && items_put(
                *final(writer),
            ) == items_put(*old(writer)).push(whole_item(folder_name(name@), Seq::empty())),
            Err(e) => folder_refused(items_put(*old(writer)), name@) == Some(e@),
        },
{
    writer
        .inner
        .add_directory(name, zip::write::SimpleFileOptions::default())
        .map_err(|e| e.to_string())
}

/// `zip::ZipWriter::finish`: a ZIP file that reads as the entries put into it.
/// The bytes themselves are left open.
#[verifier::external_body]
pub(crate) fn finish_zip(writer: ZipFile) -> (r: Result<Vec<u8>, String>)
    ensures
        match r {
            Ok(bytes) => finish_refused(items_put(writer)) is None && opened_zip(bytes@) == Ok::<
                _,
                Seq<char>,
            >(all_read(items_put(writer))),
            Err(e) => finish_refused(items_put(writer)) == Some(e@),
        },
{
    writer.inner.finish().map(|c| c.into_inner()).map_err(|e| e.to_string())
}

} // verus!
