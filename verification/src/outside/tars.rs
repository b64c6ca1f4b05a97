//! TAR files, plain and compressed, by the `tar` and `flate2` crates.
use std::io::{Read, Write};

use flate2::read::GzDecoder;
use tar::Archive;
use vstd::prelude::*;

verus! {

/// One entry of a TAR file, as far as it could be read.
#[derive(Debug)]
pub struct Entry {
    pub name: String,
    /// The byte that tells the kind of the entry.
    pub flag: u8,
    /// What a regular file holds.
    pub data: Vec<u8>,
    /// Why the data ends early, if it does.
    pub fault: Option<String>,
}

/// What an [`Entry`] holds.
#[verifier::ext_equal]
pub struct EntryView {
    pub name: Seq<char>,
    pub flag: u8,
    pub data: Seq<u8>,
    pub fault: Option<Seq<char>>,
}

impl DeepView for Entry {
    type V = EntryView;

    open spec fn deep_view(&self) -> EntryView {
        EntryView {
            name: self.name@,
            flag: self.flag,
            data: self.data@,
            fault: match self.fault {
                Some(f) => Some(f@),
                None => None,
            },
        }
    }
}

/// The owner, the rights and the time of a file.
#[derive(Debug, Clone, Copy)]
pub struct Stamp {
    pub mode: u32,
    pub uid: u64,
    pub gid: u64,
    /// Seconds since 1970.
    pub mtime: u64,
}

/// The byte of a regular file.
pub const REGULAR: u8 = 0x30;

/// What the entries of a TAR file read as, each with its error text, or why
/// there are none.
pub type Listed = Result<Seq<Result<EntryView, Seq<char>>>, Seq<char>>;

/// What the entries of a TAR file read as.
pub uninterp spec fn tar_entries(bytes: Seq<u8>) -> Listed;

/// The same for a TAR file that is compressed with gzip.
pub uninterp spec fn gz_tar_entries(bytes: Seq<u8>) -> Listed;

/// Whether a result is the TAR file of a single file, or why there is none.
/// Machines part names in different ways, so there may be several.
pub uninterp spec fn is_tar_of(
    name: Seq<char>,
    data: Seq<u8>,
    stamp: Stamp,
    r: Result<Seq<u8>, Seq<char>>,
) -> bool;

/// Why bytes cannot be compressed, if so.
pub uninterp spec fn compress_refused(bytes: Seq<u8>) -> Option<Seq<char>>;

/// What a list of entries says.
pub open spec fn listed_view(r: Result<Vec<Result<Entry, String>>, String>) -> Listed {
    match r {
        Ok(list) => Ok(
            list@.map_values(
                |e: Result<Entry, String>|
                    match e {
                        Ok(entry) => Ok::<EntryView, Seq<char>>(entry.deep_view()),
                        Err(f) => Err::<EntryView, Seq<char>>(f@),
                    },
            ),
        ),
        Err(e) => Err(e@),
    }
}

/// Whether a text is one plain name on every machine: not empty, no step, no
/// drive, and without separators and zeros.
pub open spec fn is_plain_name(name: Seq<char>) -> bool {
    &&& name.len() > 0
    &&& name != seq!['.']
    &&& name != seq!['.', '.']
    &&& !name.contains('/')
    &&& !name.contains('\\')
    &&& !name.contains('\0')
    &&& !(name.len() > 1 && name[1] == ':')
}

/// The list of a single file.
pub open spec fn single_file(name: Seq<char>, data: Seq<u8>) -> Listed {
    Ok(seq![Ok(EntryView { name, flag: REGULAR, data, fault: None })])
}

/// `tar::Archive::entries` on bytes in memory, with each entry's path, kind and,
/// of a regular file, data. The result depends on the bytes alone.
#[verifier::external_body]
pub(crate) fn list_tar(bytes: &[u8]) -> (r: Result<Vec<Result<Entry, String>>, String>)
    ensures
        listed_view(r) == tar_entries(bytes@),
{
    let mut archive = Archive::new(bytes);
    let entries = archive.entries().map_err(|e| e.to_string())?;
    let read = entries.map(|e| {
        let mut e = e.map_err(|x| x.to_string())?;
        let name = e.path().map_err(|x| x.to_string())?.to_string_lossy().into_owned();
        let kind = e.header().entry_type();
        let mut data = Vec::new();
        let got = if kind.is_file() { e.read_to_end(&mut data) } else { Ok(0) };
        Ok(Entry { name, flag: kind.as_byte(), data, fault: got.err().map(|x| x.to_string()) })
    });
    Ok(read.collect())
}

/// `tar::Archive::entries` behind a `flate2::read::GzDecoder`, with what
/// [`list_tar`] reads. The result depends on the bytes alone.
#[verifier::external_body]
pub(crate) fn list_gz_tar(bytes: &[u8]) -> (r: Result<Vec<Result<Entry, String>>, String>)
    ensures
        listed_view(r) == gz_tar_entries(bytes@),
{
    let mut archive = Archive::new(GzDecoder::new(bytes));
    let entries = archive.entries().map_err(|e| e.to_string())?;
    let read = entries.map(|e| {
        let mut e = e.map_err(|x| x.to_string())?;
        let name = e.path().map_err(|x| x.to_string())?.to_string_lossy().into_owned();
        let kind = e.header().entry_type();
        let mut data = Vec::new();
        let got = if kind.is_file() { e.read_to_end(&mut data) } else { Ok(0) };
        Ok(Entry { name, flag: kind.as_byte(), data, fault: got.err().map(|x| x.to_string()) })
    });
    Ok(read.collect())
}

/// `tar::Builder::append_data` of one regular file into an empty buffer. Under a
/// plain name there is a TAR file, and it reads as that file.
#[verifier::external_body]
pub(crate) fn tar_of(name: &str, data: &[u8], stamp: &Stamp) -> (r: Result<Vec<u8>, String>)
    ensures
        match r {
            Ok(bytes) => is_tar_of(name@, data@, *stamp, Ok(bytes@)) && (is_plain_name(name@)
                ==> tar_entries(bytes@) == single_file(name@, data@)),
            Err(e) => is_tar_of(name@, data@, *stamp, Err(e@)) && !is_plain_name(name@),
        },
{
    let mut header = tar::Header::new_gnu();
    header.set_entry_type(tar::EntryType::Regular);
    header.set_size(data.len() as u64);
    header.set_mode(stamp.mode);
    header.set_uid(stamp.uid);
    header.set_gid(stamp.gid);
    header.set_mtime(stamp.mtime);
    let mut builder = tar::Builder::new(Vec::new());
    builder.append_data(&mut header, name, data).map_err(|e| e.to_string())?;
    builder.into_inner().map_err(|e| e.to_string())
}

/// `flate2::write::GzEncoder` at the default level: decompressing gives the
/// same bytes back, so the compressed TAR file lists the same entries. The
/// compressed bytes themselves are left open.
#[verifier::external_body]
pub(crate) fn compress(data: &[u8]) -> (r: Result<Vec<u8>, String>)
    ensures
        match r {
            Ok(bytes) => compress_refused(data@) is None && gz_tar_entries(bytes@) == tar_entries(
                data@,
            ),
            Err(e) => compress_refused(data@) == Some(e@),
        },
{
    let mut encoder = flate2::write::GzEncoder::new(Vec::new(), flate2::Compression::default());
    encoder.write_all(data).map_err(|e| e.to_string())?;
    encoder.finish().map_err(|e| e.to_string())
}

} // verus!
