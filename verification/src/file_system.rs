//! Directory listings: the rows shown for a folder, the roots offered at the
//! top, and the folder's images in the order asked for.
//!
//! Reading a directory is left to the caller, who hands in each entry as
//! plain values. A file's type is told by its name alone.

use crate::models::{FileItem, PathTable, SortBy, SortOrder};
use crate::image_sort::stable_sorted;
use crate::text::concat;
use crate::utils::{cache_key, cache_key_of, is_image, is_image_path};
use vstd::prelude::*;
use vstd::string::*;

pub use crate::image_sort::sort_images;

verus! {

/// A point in time, as a distance from the Unix epoch: `secs` whole seconds
/// and `nanos` nanoseconds, before the epoch or after it.
#[derive(Clone, Copy, Debug)]
pub struct Timestamp {
    pub before_epoch: bool,
    pub secs: u64,
    pub nanos: u32,
}

/// What the file system says of an entry.
#[derive(Clone, Copy, Debug)]
pub struct EntryMetadata {
    pub is_dir: bool,
    pub is_file: bool,
    /// When the entry was last modified, where that is known.
    pub modified: Option<Timestamp>,
    /// The entry's length in bytes.
    pub len: u64,
}

/// One entry of a directory that was read: its name, its whole path, and its
/// metadata where they could be had.
pub struct DirEntryInfo {
    pub name: String,
    pub path: String,
    pub metadata: Option<EntryMetadata>,
}

/// An image file of a folder.
pub struct ImageFile {
    pub name: String,
    pub path: String,
    pub modified: Option<Timestamp>,
    pub len: u64,
}

/// A row of a listing as a value.
pub ghost struct Row {
    pub name: Seq<char>,
    pub path: Seq<char>,
    pub is_dir: bool,
    pub date_modified: u64,
    pub size: u64,
}

/// The row that a `FileItem` shows.
pub open spec fn row_of(item: FileItem) -> Row {
    Row {
        name: item.name@,
        path: item.path@,
        is_dir: item.is_dir,
        date_modified: item.date_modified,
        size: item.size,
    }
}

/// The rows that a list of items shows.
pub open spec fn rows_of(items: Seq<FileItem>) -> Seq<Row> {
    items.map_values(|item: FileItem| row_of(item))
}

/// A time in nanoseconds since the epoch, negative before it.
pub open spec fn instant_of(time: Timestamp) -> int {
    if time.before_epoch {
        -(time.secs * 1_000_000_000 + time.nanos)
    } else {
        time.secs * 1_000_000_000 + time.nanos
    }
}

/// The time by which an entry is ranked: a modification time that is not
/// known counts as the epoch.
pub open spec fn modified_instant(modified: Option<Timestamp>) -> int {
    match modified {
        Some(time) => instant_of(time),
        None => 0,
    }
}

/// The time shown for an entry, in whole seconds since the epoch: zero where
/// the time is not known or lies before the epoch.
pub open spec fn modified_seconds(modified: Option<Timestamp>) -> u64 {
    match modified {
        Some(time) => if time.before_epoch {
            0
        } else {
            time.secs
        },
        None => 0,
    }
}

/// The row shown for an entry. An entry without metadata is not shown. A
/// directory is shown with size zero.
pub open spec fn shown_row(entry: DirEntryInfo) -> Option<Row> {
    match entry.metadata {
        Some(metadata) => Some(
            Row {
                name: entry.name@,
                path: entry.path@,
                is_dir: metadata.is_dir,
                date_modified: modified_seconds(metadata.modified),
                size: if metadata.is_dir {
                    0
                } else {
                    metadata.len
                },
            },
        ),
        None => None,
    }
}

/// The rows shown for a directory's entries, in the order in which the
/// entries were read.
pub open spec fn shown_rows(entries: Seq<DirEntryInfo>) -> Seq<Row> {
    entries.filter_map(|entry: DirEntryInfo| shown_row(entry))
}

/// The table after the entries' identifiers have been recorded: every entry
/// that is shown and is no directory is found again under the cache key of
/// its path.
pub open spec fn recorded(table: Map<Seq<char>, Seq<char>>, entries: Seq<DirEntryInfo>) -> Map<
    Seq<char>,
    Seq<char>,
>
    decreases entries.len(),
{
    if entries.len() == 0 {
        table
    } else {
        let before = recorded(table, entries.drop_last());
        let entry = entries.last();
        match entry.metadata {
            Some(metadata) => if metadata.is_dir {
                before
            } else {
                before.insert(cache_key_of(entry.path@), entry.path@)
            },
            None => before,
        }
    }
}

/// The time shown for an entry.
fn seconds_shown(modified: &Option<Timestamp>) -> (secs: u64)
    ensures
        secs == modified_seconds(*modified),
{
    match modified {
        Some(time) => if time.before_epoch {
            0
        } else {
            time.secs
        },
        None => 0,
    }
}

/// The rows for the entries of a directory, in the order read. Each file
/// shown is also recorded in `image_paths` under the cache key of its path.
pub fn get_directory_contents(entries: &Vec<DirEntryInfo>, image_paths: &mut PathTable) -> (items:
    Vec<FileItem>)
    requires
        old(image_paths).well_formed(),
    ensures
        final(image_paths).well_formed(),
        rows_of(items@) == shown_rows(entries@),
        final(image_paths)@ == recorded(old(image_paths)@, entries@),
{
    let mut items: Vec<FileItem> = Vec::new();
    let mut i: usize = 0;
    assert(entries@.take(0) =~= Seq::<DirEntryInfo>::empty());
    assert(rows_of(items@) =~= shown_rows(entries@.take(0)));
    while i < entries.len()
        invariant
            i <= entries@.len(),
            image_paths.well_formed(),
            rows_of(items@) == shown_rows(entries@.take(i as int)),
            image_paths@ == recorded(old(image_paths)@, entries@.take(i as int)),
        decreases entries@.len() - i,
    {
        let entry = &entries[i];
        let ghost seen = entries@.take(i as int);
        let ghost rows = rows_of(items@);
        assert(entries@.take(i + 1).drop_last() =~= seen);
        assert(entries@.take(i + 1).last() == *entry);
        match &entry.metadata {
            Some(metadata) => {
                if !metadata.is_dir {
                    image_paths.insert(cache_key(entry.path.as_str()), entry.path.clone());
                }
                items.push(
                    FileItem {
                        name: entry.name.clone(),
                        path: entry.path.clone(),
                        is_dir: metadata.is_dir,
                        date_modified: seconds_shown(&metadata.modified),
                        size: if metadata.is_dir {
                            0
                        } else {
                            metadata.len
                        },
                    },
                );
                assert(rows_of(items@) =~= rows + seq![shown_row(*entry)->0]);
            },
            None => {},
        }
        i += 1;
    }
    assert(entries@.take(entries@.len() as int) =~= entries@);
    items
}

/// The message for a directory that could not be read, with the reader's
/// own text.
pub fn read_dir_failure(detail: &str) -> (message: String)
    ensures
        message@ == "Failed to read directory: "@ + detail@,
{
    concat("Failed to read directory: ", detail)
}

/// The roots offered at the top of the tree: the home folder where one is
/// known, the file system's root, then one root for each drive.
pub open spec fn root_rows(home: Option<Seq<char>>, drives: Seq<String>) -> Seq<Row> {
    (match home {
        Some(path) => seq![
            Row { name: "Home"@, path, is_dir: true, date_modified: 0, size: 0 },
        ],
        None => Seq::empty(),
    }) + seq![Row { name: "Root"@, path: "/"@, is_dir: true, date_modified: 0, size: 0 }]
        + drives.map_values(|letter: String| drive_row(letter@))
}

/// The root shown for the drive with the given letter: `Drive (C:)` at
/// `C:\` for the letter `C`.
pub open spec fn drive_row(letter: Seq<char>) -> Row {
    Row {
        name: "Drive ("@ + letter + ":)"@,
        path: letter + ":\\"@,
        is_dir: true,
        date_modified: 0,
        size: 0,
    }
}

/// The root for a drive.
fn drive_root(letter: &str) -> (item: FileItem)
    ensures
        row_of(item) == drive_row(letter@),
{
    let mut name = concat("Drive (", letter);
    name.append(":)");
    let path = concat(letter, ":\\");
    FileItem { name, path, is_dir: true, date_modified: 0, size: 0 }
}

/// The roots offered at the top of the tree. `home` is the user's home
/// folder, where the platform knows one; `drives` are the letters of the
/// drives that are there, none where the platform has no drive letters.
pub fn get_root_folders(home: Option<String>, drives: &Vec<String>) -> (roots: Vec<FileItem>)
    ensures
        rows_of(roots@) == root_rows(
            match home {
                Some(path) => Some(path@),
                None => None,
            },
            drives@,
        ),
{
    let mut roots: Vec<FileItem> = Vec::new();
    if let Some(path) = home {
        roots.push(
            FileItem {
                name: String::from_str("Home"),
                path,
                is_dir: true,
                date_modified: 0,
                size: 0,
            },
        );
    }
    roots.push(
        FileItem {
            name: String::from_str("Root"),
            path: String::from_str("/"),
            is_dir: true,
            date_modified: 0,
            size: 0,
        },
    );
    let ghost fixed = rows_of(roots@);
    let mut i: usize = 0;
    while i < drives.len()
        invariant
            i <= drives@.len(),
            rows_of(roots@) == fixed + drives@.take(i as int).map_values(
                |letter: String| drive_row(letter@),
            ),
        decreases drives@.len() - i,
    {
        let ghost before = rows_of(roots@);
        roots.push(drive_root(drives[i].as_str()));
        assert(rows_of(roots@) =~= before.push(drive_row(drives@[i as int]@)));
        assert(drives@.take(i + 1).map_values(|letter: String| drive_row(letter@))
            =~= drives@.take(i as int).map_values(|letter: String| drive_row(letter@)).push(
            drive_row(drives@[i as int]@),
        ));
        i += 1;
    }
    assert(drives@.take(drives@.len() as int) =~= drives@);
    roots
}

/// The image that an entry is listed as: only a regular file whose name is
/// that of an image is listed.
pub open spec fn listed_image(entry: DirEntryInfo) -> Option<ImageFile> {
    match entry.metadata {
        Some(metadata) => if metadata.is_file && is_image_path(entry.path@) {
            Some(
                ImageFile {
                    name: entry.name,
                    path: entry.path,
                    modified: metadata.modified,
                    len: metadata.len,
                },
            )
        } else {
            None
        },
        None => None,
    }
}

/// The images among a directory's entries, in the order read.
pub open spec fn images_among(entries: Seq<DirEntryInfo>) -> Seq<ImageFile> {
    entries.filter_map(|entry: DirEntryInfo| listed_image(entry))
}

/// The paths of a folder's images in the order of the given sort.
pub open spec fn image_list(entries: Seq<DirEntryInfo>, by: SortBy, order: SortOrder) -> Seq<
    Seq<char>,
> {
    stable_sorted(images_among(entries), by, order).map_values(|image: ImageFile| image.path@)
}

/// The images among a directory's entries.
pub fn collect_images(entries: &Vec<DirEntryInfo>) -> (images: Vec<ImageFile>)
    ensures
        images@ == images_among(entries@),
{
    let mut images: Vec<ImageFile> = Vec::new();
    let mut i: usize = 0;
    assert(entries@.take(0) =~= Seq::<DirEntryInfo>::empty());
    while i < entries.len()
        invariant
            i <= entries@.len(),
            images@ == images_among(entries@.take(i as int)),
        decreases entries@.len() - i,
    {
        let entry = &entries[i];
        let ghost found = images@;
        assert(entries@.take(i + 1).drop_last() =~= entries@.take(i as int));
        assert(entries@.take(i + 1).last() == *entry);
        match &entry.metadata {
            Some(metadata) => {
                if metadata.is_file && is_image(entry.path.as_str()) {
                    images.push(
                        ImageFile {
                            name: entry.name.clone(),
                            path: entry.path.clone(),
                            modified: metadata.modified,
                            len: metadata.len,
                        },
                    );
                    assert(images@ =~= found + seq![listed_image(*entry)->0]);
                }
            },
            None => {},
        }
        i += 1;
    }
    assert(entries@.take(entries@.len() as int) =~= entries@);
    images
}

/// The paths of a folder's images, sorted as asked. `entries` are the
/// entries of the folder as they were read.
pub fn get_full_image_list(entries: &Vec<DirEntryInfo>, sort_by: SortBy, sort_order: SortOrder) -> (paths:
    Vec<String>)
    ensures
        paths@.map_values(|path: String| path@) == image_list(entries@, sort_by, sort_order),
{
    let mut images = collect_images(entries);
    sort_images(&mut images, &sort_by, &sort_order);
    let mut paths: Vec<String> = Vec::new();
    let mut i: usize = 0;
    while i < images.len()
        invariant
            i <= images@.len(),
            paths@.len() == i,
            forall|j: int| 0 <= j < i ==> (#[trigger] paths@[j])@ == images@[j].path@,
        decreases images@.len() - i,
    {
        paths.push(images[i].path.clone());
        i += 1;
    }
    assert(paths@.map_values(|path: String| path@) =~= images@.map_values(
        |image: ImageFile| image.path@,
    ));
    paths
}

} // verus!
