//! Plans for unpacking ZIP and TAR files below a destination folder.
use vstd::prelude::*;

use crate::converters::archive;
use crate::converters::{ConversionError, Failure};
use crate::outside::{tars, zips};
use crate::outside::tars::{Entry, EntryView};
use crate::outside::zips::{Item, ItemView};
use crate::paths;
use crate::text;

verus! {

/// One thing to do when unpacking.
#[derive(Debug)]
pub enum Unpack {
    /// Make a folder.
    Folder(String),
    /// Make the folder, then write the file.
    File { folder: Option<String>, path: String, data: Vec<u8> },
    /// Unpack the next entry of the TAR file to a path. A link is made there;
    /// a regular file holds the data then.
    Entry { path: String, link: bool, data: Vec<u8> },
}

/// What an [`Unpack`] says.
#[verifier::ext_equal]
pub enum UnpackView {
    Folder(Seq<char>),
    File { folder: Option<Seq<char>>, path: Seq<char>, data: Seq<u8> },
    Entry { path: Seq<char>, link: bool, data: Seq<u8> },
}

impl DeepView for Unpack {
    type V = UnpackView;

    open spec fn deep_view(&self) -> UnpackView {
        match self {
            Unpack::Folder(path) => UnpackView::Folder(path@),
            Unpack::File { folder, path, data } => UnpackView::File {
                folder: match folder {
                    Some(f) => Some(f@),
                    None => None,
                },
                path: path@,
                data: data@,
            },
            Unpack::Entry { path, link, data } => UnpackView::Entry {
                path: path@,
                link: *link,
                data: data@,
            },
        }
    }
}

/// A plan for unpacking an archive: make the destination, take the steps in
/// order, then report the failure, if there is one.
#[derive(Debug)]
pub struct Unpacking {
    pub dest: String,
    /// Whether the steps speak of a TAR file that is compressed.
    pub compressed: bool,
    pub steps: Vec<Unpack>,
    pub failure: Option<ConversionError>,
}

/// What the steps of a plan come to.
#[verifier::ext_equal]
pub struct Plan {
    pub steps: Seq<UnpackView>,
    pub failure: Option<Failure>,
}

/// What an [`Unpacking`] says.
#[verifier::ext_equal]
pub struct UnpackingView {
    pub dest: Seq<char>,
    pub compressed: bool,
    pub plan: Plan,
}

/// What a failure says, if there is one.
pub open spec fn failure_view(f: Option<ConversionError>) -> Option<Failure> {
    match f {
        Some(e) => Some(e.deep_view()),
        None => None,
    }
}

impl DeepView for Unpacking {
    type V = UnpackingView;

    open spec fn deep_view(&self) -> UnpackingView {
        UnpackingView {
            dest: self.dest@,
            compressed: self.compressed,
            plan: Plan {
                steps: self.steps.deep_view(),
                failure: failure_view(self.failure),
            },
        }
    }
}

/// The failure of an archive whose content makes no sense.
pub open spec fn malformed(input: Seq<char>, format: Seq<char>, reason: Seq<char>) -> Failure {
    Failure::MalformedData { path: input, format, reason }
}

/// The failure of an archive with an entry that would leave the destination.
pub open spec fn rejected(input: Seq<char>, format: Seq<char>, entry: Seq<char>) -> Failure {
    malformed(input, format, "unsafe entry path rejected: '"@ + entry + "'"@)
}

fn malformed_data(input: &str, format: &str, reason: String) -> (r: ConversionError)
    ensures
        r.deep_view() == malformed(input@, format@, reason@),
{
    ConversionError::MalformedData { path: input.to_owned(), format: format.to_owned(), reason }
}

fn rejected_entry(input: &str, format: &str, entry: &str) -> (r: ConversionError)
    ensures
        r.deep_view() == rejected(input@, format@, entry@),
{
    malformed_data(input, format, text::cat3("unsafe entry path rejected: '", entry, "'"))
}

// ---------------------------------------------------------------------------
// ZIP
// ---------------------------------------------------------------------------

/// A plan with what one entry of a ZIP file adds to it.
pub open spec fn with_item(
    plan: Plan,
    input: Seq<char>,
    dest: Seq<char>,
    item: Result<ItemView, Seq<char>>,
) -> Plan {
    match item {
        Err(reason) => Plan { failure: Some(malformed(input, "ZIP"@, reason)), ..plan },
        Ok(i) => match archive::safe_path(dest, i.name) {
            None => Plan { failure: Some(rejected(input, "ZIP"@, i.name)), ..plan },
            Some(path) => if i.is_dir {
                Plan { steps: plan.steps.push(UnpackView::Folder(path)), failure: None }
            } else {
                Plan {
                    steps: plan.steps.push(
                        UnpackView::File { folder: paths::parent(path), path, data: i.data },
                    ),
                    failure: match i.fault {
                        Some(reason) => Some(Failure::UnwritableOutput { path, reason }),
                        None => None,
                    },
                }
            },
        },
    }
}

/// The plan for a list of ZIP entries: it ends at the first failure.
pub open spec fn zip_plan(
    input: Seq<char>,
    dest: Seq<char>,
    items: Seq<Result<ItemView, Seq<char>>>,
) -> Plan
    decreases items.len(),
{
    if items.len() == 0 {
        Plan { steps: Seq::empty(), failure: None }
    } else {
        let before = zip_plan(input, dest, items.drop_last());
        if before.failure is Some {
            before
        } else {
            with_item(before, input, dest, items.last())
        }
    }
}

/// The plan for a ZIP file that was opened or not.
pub open spec fn zip_outcome(
    input: Seq<char>,
    dest: Seq<char>,
    opened: Result<Seq<Result<ItemView, Seq<char>>>, Seq<char>>,
) -> Plan {
    match opened {
        Err(reason) => Plan {
            steps: Seq::empty(),
            failure: Some(malformed(input, "ZIP"@, reason)),
        },
        Ok(items) => zip_plan(input, dest, items),
    }
}

proof fn lemma_zip_stops(
    input: Seq<char>,
    dest: Seq<char>,
    items: Seq<Result<ItemView, Seq<char>>>,
    k: int,
)
    requires
        0 <= k <= items.len(),
        zip_plan(input, dest, items.take(k)).failure is Some,
    ensures
        zip_plan(input, dest, items) == zip_plan(input, dest, items.take(k)),
    decreases items.len(),
{
    if k == items.len() {
        assert(items.take(k) =~= items);
    } else {
        assert(items.drop_last().take(k) =~= items.take(k));
        lemma_zip_stops(input, dest, items.drop_last(), k);
    }
}

/// What reading an entry came to.
pub open spec fn item_view(r: Result<Item, String>) -> Result<ItemView, Seq<char>> {
    match r {
        Ok(i) => Ok(i.deep_view()),
        Err(e) => Err(e@),
    }
}

/// Adds what one entry asks for to the steps; gives the failure that ends the
/// plan, if there is one.
pub fn plan_item(
    steps: &mut Vec<Unpack>,
    input: &str,
    dest: &str,
    item: Result<Item, String>,
) -> (r: Option<ConversionError>)
    ensures
        (Plan { steps: final(steps).deep_view(), failure: failure_view(r) }) == with_item(
            Plan { steps: old(steps).deep_view(), failure: None },
            input@,
            dest@,
            item_view(item),
        ),
{
    let ghost before = steps.deep_view();
    let i = match item {
        Ok(i) => i,
        Err(reason) => return Some(malformed_data(input, "ZIP", reason)),
    };
    let path = match archive::safe_join(dest, i.name.as_str()) {
        Some(p) => p,
        None => return Some(rejected_entry(input, "ZIP", i.name.as_str())),
    };
    if i.is_dir {
        let ghost step = UnpackView::Folder(path@);
        steps.push(Unpack::Folder(path));
        assert(steps.deep_view() =~= before.push(step));
        None
    } else {
        let folder = paths::parent_of(path.as_str());
        let ghost step = UnpackView::File {
            folder: paths::parent(path@),
            path: path@,
            data: i.data@,
        };
        let failure = match i.fault {
            Some(reason) => Some(
                ConversionError::UnwritableOutput { path: path.clone(), reason },
            ),
            None => None,
        };
        steps.push(Unpack::File { folder, path, data: i.data });
        assert(steps.deep_view() =~= before.push(step));
        failure
    }
}

/// Plans the unpacking of a ZIP file.
pub fn extract_zip(input: &str, content: Vec<u8>, dest: &str) -> (r: Unpacking)
    ensures
        r.deep_view() == (UnpackingView {
            dest: dest@,
            compressed: false,
            plan: zip_outcome(input@, dest@, zips::opened_zip(content@)),
        }),
{
    let mut steps: Vec<Unpack> = Vec::new();
    assert(steps.deep_view() =~= Seq::<UnpackView>::empty());
    let mut zip = match zips::open_zip(content) {
        Ok(a) => a,
        Err(reason) => {
            return Unpacking {
                dest: dest.to_owned(),
                compressed: false,
                steps,
                failure: Some(malformed_data(input, "ZIP", reason)),
            };
        },
    };
    let ghost items = zips::items_held(zip);
    let n = zips::item_count(&zip);
    for k in 0..n
        invariant
            items == zips::items_held(zip),
            zips::opened_zip(content@) == Ok::<_, Seq<char>>(items),
            n == items.len(),
            zip_plan(input@, dest@, items.take(k as int)) == (Plan {
                steps: steps.deep_view(),
                failure: None,
            }),
    {
        let item = zips::item_at(&mut zip, k);
        proof {
            assert(items.take(k + 1).drop_last() =~= items.take(k as int));
            assert(item_view(item) == items[k as int]);
        }
        match plan_item(&mut steps, input, dest, item) {
            None => {},
            Some(e) => {
                proof {
                    lemma_zip_stops(input@, dest@, items, k + 1);
                }
                return Unpacking {
                    dest: dest.to_owned(),
                    compressed: false,
                    steps,
                    failure: Some(e),
                };
            },
        }
    }
    assert(items.take(n as int) =~= items);
    Unpacking { dest: dest.to_owned(), compressed: false, steps, failure: None }
}

// ---------------------------------------------------------------------------
// TAR
// ---------------------------------------------------------------------------

/// Whether an entry is a link, hard or symbolic.
pub open spec fn is_link(flag: u8) -> bool {
    flag == 0x31 || flag == 0x32
}

/// Whether a path is another one or leads through it.
pub open spec fn leads_through(p: Seq<char>, q: Seq<char>) -> bool {
    paths::components(q).is_prefix_of(paths::components(p))
}

/// Whether a path leads through a link that one of the steps makes, or is one.
pub open spec fn crosses_link(steps: Seq<UnpackView>, path: Seq<char>) -> bool {
    exists|k: int|
        0 <= k < steps.len() && ((#[trigger] steps[k]) matches UnpackView::Entry {
            path: made,
            link: true,
            ..
        } && leads_through(path, made))
}

/// A plan with what one entry of a TAR file adds to it. An entry is refused
/// where its path leaves the destination, and where it leads through a link that
/// an earlier entry made.
pub open spec fn with_entry(
    plan: Plan,
    input: Seq<char>,
    dest: Seq<char>,
    entry: Result<EntryView, Seq<char>>,
) -> Plan {
    match entry {
        Err(reason) => Plan { failure: Some(malformed(input, "TAR"@, reason)), ..plan },
        Ok(e) => match archive::safe_path(dest, e.name) {
            None => Plan { failure: Some(rejected(input, "TAR"@, e.name)), ..plan },
            Some(path) => if crosses_link(plan.steps, path) {
                Plan { failure: Some(rejected(input, "TAR"@, e.name)), ..plan }
            } else {
                Plan {
                    steps: plan.steps.push(
                        UnpackView::Entry { path, link: is_link(e.flag), data: e.data },
                    ),
                    failure: match e.fault {
                        Some(reason) => Some(Failure::UnwritableOutput { path, reason }),
                        None => None,
                    },
                }
            },
        },
    }
}

/// The plan for a list of TAR entries: it ends at the first failure.
pub open spec fn tar_plan(
    input: Seq<char>,
    dest: Seq<char>,
    entries: Seq<Result<EntryView, Seq<char>>>,
) -> Plan
    decreases entries.len(),
{
    if entries.len() == 0 {
        Plan { steps: Seq::empty(), failure: None }
    } else {
        let before = tar_plan(input, dest, entries.drop_last());
        if before.failure is Some {
            before
        } else {
            with_entry(before, input, dest, entries.last())
        }
    }
}

/// The plan for a TAR file whose entries were listed or not.
pub open spec fn tar_outcome(
    input: Seq<char>,
    dest: Seq<char>,
    listed: tars::Listed,
) -> Plan {
    match listed {
        Err(reason) => Plan {
            steps: Seq::empty(),
            failure: Some(malformed(input, "TAR"@, reason)),
        },
        Ok(entries) => tar_plan(input, dest, entries),
    }
}

proof fn lemma_tar_stops(
    input: Seq<char>,
    dest: Seq<char>,
    entries: Seq<Result<EntryView, Seq<char>>>,
    k: int,
)
    requires
        0 <= k <= entries.len(),
        tar_plan(input, dest, entries.take(k)).failure is Some,
    ensures
        tar_plan(input, dest, entries) == tar_plan(input, dest, entries.take(k)),
    decreases entries.len(),
{
    if k == entries.len() {
        assert(entries.take(k) =~= entries);
    } else {
        assert(entries.drop_last().take(k) =~= entries.take(k));
        lemma_tar_stops(input, dest, entries.drop_last(), k);
    }
}

/// What reading an entry came to.
pub open spec fn entry_view(r: Result<Entry, String>) -> Result<EntryView, Seq<char>> {
    match r {
        Ok(e) => Ok(e.deep_view()),
        Err(e) => Err(e@),
    }
}

fn goes_through(p: &str, q: &str) -> (r: bool)
    ensures
        r == leads_through(p@, q@),
{
    let long = paths::components_of(p);
    let short = paths::components_of(q);
    let ghost a = paths::components(p@);
    let ghost b = paths::components(q@);
    assert(long.deep_view().len() == long@.len());
    assert(short.deep_view().len() == short@.len());
    if short.len() > long.len() {
        return false;
    }
    for k in 0..short.len()
        invariant
            a == paths::components(p@),
            b == paths::components(q@),
            long.deep_view() == a,
            short.deep_view() == b,
            short@.len() <= long@.len(),
            b.len() <= a.len(),
            forall|j: int| 0 <= j < k ==> a[j] == b[j],
    {
        assert(a[k as int] == long@[k as int].deep_view());
        assert(b[k as int] == short@[k as int].deep_view());
        if !paths::same_step(&long[k], &short[k]) {
            assert(a[k as int] != b[k as int]);
            assert(a.subrange(0, b.len() as int)[k as int] == a[k as int]);
            assert(!leads_through(p@, q@));
            return false;
        }
    }
    assert(b =~= a.subrange(0, b.len() as int));
    true
}

fn meets_link(steps: &Vec<Unpack>, path: &str) -> (r: bool)
    ensures
        r == crosses_link(steps.deep_view(), path@),
{
    let ghost all = steps.deep_view();
    for k in 0..steps.len()
        invariant
            all == steps.deep_view(),
            forall|j: int|
                0 <= j < k ==> !((#[trigger] all[j]) matches UnpackView::Entry {
                    path: made,
                    link: true,
                    ..
                } && leads_through(path@, made)),
    {
        assert(all[k as int] == steps@[k as int].deep_view());
        match &steps[k] {
            Unpack::Entry { path: made, link, .. } => {
                if *link && goes_through(path, made.as_str()) {
                    return true;
                }
            },
            _ => {},
        }
    }
    false
}

/// Adds what one entry asks for to the steps; gives the failure that ends the
/// plan, if there is one.
pub fn plan_entry(
    steps: &mut Vec<Unpack>,
    input: &str,
    dest: &str,
    entry: Result<Entry, String>,
) -> (r: Option<ConversionError>)
    ensures
        (Plan { steps: final(steps).deep_view(), failure: failure_view(r) }) == with_entry(
            Plan { steps: old(steps).deep_view(), failure: None },
            input@,
            dest@,
            entry_view(entry),
        ),
{
    let ghost before = steps.deep_view();
    let e = match entry {
        Ok(e) => e,
        Err(reason) => return Some(malformed_data(input, "TAR", reason)),
    };
    let path = match archive::safe_join(dest, e.name.as_str()) {
        Some(p) => p,
        None => return Some(rejected_entry(input, "TAR", e.name.as_str())),
    };
    if meets_link(steps, path.as_str()) {
        return Some(rejected_entry(input, "TAR", e.name.as_str()));
    }
    let link = e.flag == 0x31 || e.flag == 0x32;
    let failure = match e.fault {
        Some(reason) => Some(ConversionError::UnwritableOutput { path: path.clone(), reason }),
        None => None,
    };
    let ghost step = UnpackView::Entry { path: path@, link, data: e.data@ };
    steps.push(Unpack::Entry { path, link, data: e.data });
    assert(steps.deep_view() =~= before.push(step));
    failure
}

/// Plans the unpacking of a TAR file from the list of its entries.
pub fn unpack_tar_entries(
    input: &str,
    listed: Result<Vec<Result<Entry, String>>, String>,
    dest: &str,
    compressed: bool,
) -> (r: Unpacking)
    ensures
        r.deep_view() == (UnpackingView {
            dest: dest@,
            compressed,
            plan: tar_outcome(input@, dest@, tars::listed_view(listed)),
        }),
{
    let mut steps: Vec<Unpack> = Vec::new();
    assert(steps.deep_view() =~= Seq::<UnpackView>::empty());
    let list = match listed {
        Ok(list) => list,
        Err(reason) => {
            return Unpacking {
                dest: dest.to_owned(),
                compressed,
                steps,
                failure: Some(malformed_data(input, "TAR", reason)),
            };
        },
    };
    let ghost entries = tars::listed_view(listed)->Ok_0;
    assert(entries.take(0) =~= Seq::<Result<EntryView, Seq<char>>>::empty());
    for entry in it: list
        invariant
            it.seq() == list@,
            tars::listed_view(listed) == Ok::<_, Seq<char>>(entries),
            listed == Ok::<_, String>(list),
            entries.len() == list@.len(),
            tar_plan(input@, dest@, entries.take(it.index() as int)) == (Plan {
                steps: steps.deep_view(),
                failure: None,
            }),
    {
        let ghost k = it.index() as int;
        proof {
            assert(entries.take(k + 1).drop_last() =~= entries.take(k));
            assert(entries.take(k + 1).last() == entries[k]);
            assert(entries[k] == entry_view(entry));
        }
        match plan_entry(&mut steps, input, dest, entry) {
            None => {},
            Some(e) => {
                proof {
                    lemma_tar_stops(input@, dest@, entries, k + 1);
                }
                return Unpacking {
                    dest: dest.to_owned(),
                    compressed,
                    steps,
                    failure: Some(e),
                };
            },
        }
    }
    assert(entries.take(list@.len() as int) =~= entries);
    Unpacking { dest: dest.to_owned(), compressed, steps, failure: None }
}

/// Whether a file name says that a TAR file is compressed.
pub open spec fn is_gz_name(input: Seq<char>) -> bool {
    let name = match paths::file_name(input) {
        Some(n) => text::lower(n),
        None => ""@,
    };
    text::ends_with(name, ".gz"@) || text::ends_with(name, ".tgz"@)
}

/// The plan for a TAR file.
pub open spec fn tar_unpacking(
    input: Seq<char>,
    content: Seq<u8>,
    dest: Seq<char>,
) -> UnpackingView {
    let listed = if is_gz_name(input) {
        tars::gz_tar_entries(content)
    } else {
        tars::tar_entries(content)
    };
    UnpackingView {
        dest,
        compressed: is_gz_name(input),
        plan: tar_outcome(input, dest, listed),
    }
}

/// Plans the unpacking of a TAR file, compressed or not as its name says.
pub fn extract_tar(input: &str, content: &[u8], dest: &str) -> (r: Unpacking)
    ensures
        r.deep_view() == tar_unpacking(input@, content@, dest@),
{
    let name = match paths::file_name_of(input) {
        Some(n) => text::to_lower(n.as_str()),
        None => "".to_owned(),
    };
    if text::has_end(name.as_str(), ".gz") || text::has_end(name.as_str(), ".tgz") {
        unpack_tar_entries(input, tars::list_gz_tar(content), dest, true)
    } else {
        unpack_tar_entries(input, tars::list_tar(content), dest, false)
    }
}

// ---------------------------------------------------------------------------
// Either
// ---------------------------------------------------------------------------

/// Whether a file name is that of a ZIP file.
pub open spec fn is_zip_name(input: Seq<char>) -> bool {
    match paths::file_name(input) {
        Some(n) => text::ends_with(text::lower(n), ".zip"@),
        None => text::ends_with(""@, ".zip"@),
    }
}

/// The plan for an archive that was read or not.
pub open spec fn unpacking(
    input: Seq<char>,
    content: Result<Seq<u8>, Seq<char>>,
    dest: Seq<char>,
) -> UnpackingView {
    match content {
        Err(reason) => UnpackingView {
            dest,
            compressed: false,
            plan: Plan {
                steps: Seq::empty(),
                failure: Some(Failure::UnreadableInput { path: input, reason }),
            },
        },
        Ok(bytes) => if is_zip_name(input) {
            UnpackingView {
                dest,
                compressed: false,
                plan: zip_outcome(input, dest, zips::opened_zip(bytes)),
            }
        } else {
            tar_unpacking(input, bytes, dest)
        },
    }
}

/// Plans the unpacking of an archive.
pub fn extract_archive(input: &str, content: Result<Vec<u8>, String>, dest: &str) -> (r: Unpacking)
    ensures
        r.deep_view() == unpacking(
            input@,
            crate::converters::content_view(content),
            dest@,
        ),
{
    let bytes = match content {
        Ok(b) => b,
        Err(reason) => {
            let steps: Vec<Unpack> = Vec::new();
            assert(steps.deep_view() =~= Seq::<UnpackView>::empty());
            return Unpacking {
                dest: dest.to_owned(),
                compressed: false,
                steps,
                failure: Some(ConversionError::UnreadableInput { path: input.to_owned(), reason }),
            };
        },
    };
    let name = match paths::file_name_of(input) {
        Some(n) => text::to_lower(n.as_str()),
        None => "".to_owned(),
    };
    if text::has_end(name.as_str(), ".zip") {
        extract_zip(input, bytes, dest)
    } else {
        extract_tar(input, bytes.as_slice(), dest)
    }
}

} // verus!
