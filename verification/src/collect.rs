//! Collecting the text files under a set of directories, from what listing
//! those directories gave. The caller lists; this module decides which
//! files count and which failures are put on record.

use crate::analysis::err;
use crate::analysis::error_views;
use crate::analysis::ErrorView;
use crate::analysis::ProcessingError;
use crate::text::is_stretch_of;
use vstd::prelude::*;

verus! {

/// What listing a directory gave.
#[derive(Debug)]
pub enum DirListing {
    /// The directory could not be listed; the text of the error.
    Unreadable(String),
    /// The entries, in the order in which they were listed.
    Entries(Vec<DirEntry>),
}

/// One entry of a listing.
#[derive(Debug)]
pub enum DirEntry {
    /// The entry could not be read; the text of the error.
    Unreadable(String),
    /// The entry's metadata could not be had.
    NoMetadata { path: String, message: String },
    /// A directory, with what listing it gave.
    Directory { path: String, listing: DirListing },
    /// A regular file, with the extension of its name, if it has one.
    File { path: String, extension: Option<String> },
    /// Neither a directory nor a regular file.
    Other,
}

/// A directory that was asked for, with what listing it gave.
#[derive(Debug)]
pub struct DirScan {
    pub path: String,
    pub listing: DirListing,
}

/// Whether `extension` is `txt` in any mix of upper and lower case.
pub open spec fn is_text_extension(extension: Seq<char>) -> bool {
    &&& extension.len() == 3
    &&& (extension[0] == 't' || extension[0] == 'T')
    &&& (extension[1] == 'x' || extension[1] == 'X')
    &&& (extension[2] == 't' || extension[2] == 'T')
}

/// Whether a file with this extension is collected.
pub open spec fn is_collected(extension: Option<String>) -> bool {
    match extension {
        Some(e) => is_text_extension(e@),
        None => false,
    }
}

/// The files that a listing contributes, in the order of a depth-first walk.
pub open spec fn listing_files(listing: DirListing) -> Seq<Seq<char>>
    decreases listing,
{
    match listing {
        DirListing::Unreadable(_) => Seq::empty(),
        DirListing::Entries(entries) => entries_files(entries@, entries@.len()),
    }
}

/// The files that the first `n` entries contribute.
pub open spec fn entries_files(entries: Seq<DirEntry>, n: nat) -> Seq<Seq<char>>
    decreases entries, n,
{
    if n == 0 || n > entries.len() {
        Seq::empty()
    } else {
        entries_files(entries, (n - 1) as nat) + entry_files(entries[n - 1])
    }
}

/// The files that one entry contributes: itself, when it is a text file,
/// or what its listing contributes, when it is a directory.
pub open spec fn entry_files(entry: DirEntry) -> Seq<Seq<char>>
    decreases entry,
{
    match entry {
        DirEntry::Directory { path, listing } => listing_files(listing),
        DirEntry::File { path, extension } => if is_collected(extension) {
            seq![path@]
        } else {
            Seq::empty()
        },
        _ => Seq::empty(),
    }
}

/// The failures that listing the directory `dir` puts on record, in the
/// order of a depth-first walk.
pub open spec fn listing_errors(dir: Seq<char>, listing: DirListing) -> Seq<ErrorView>
    decreases listing,
{
    match listing {
        DirListing::Unreadable(message) => seq![
            ErrorView { filename: dir, operation: "read_dir"@, message: message@ },
        ],
        DirListing::Entries(entries) => entries_errors(dir, entries@, entries@.len()),
    }
}

/// The failures that the first `n` entries of `dir` put on record.
pub open spec fn entries_errors(dir: Seq<char>, entries: Seq<DirEntry>, n: nat) -> Seq<ErrorView>
    decreases entries, n,
{
    if n == 0 || n > entries.len() {
        Seq::empty()
    } else {
        entries_errors(dir, entries, (n - 1) as nat) + entry_errors(dir, entries[n - 1])
    }
}

/// The failures that one entry of `dir` puts on record. An entry that
/// cannot be read is charged to the directory, one without metadata to
/// its own path.
pub open spec fn entry_errors(dir: Seq<char>, entry: DirEntry) -> Seq<ErrorView>
    decreases entry,
{
    match entry {
        DirEntry::Unreadable(message) => seq![
            ErrorView { filename: dir, operation: "read_dir_entry"@, message: message@ },
        ],
        DirEntry::NoMetadata { path, message } => seq![
            ErrorView { filename: path@, operation: "metadata"@, message: message@ },
        ],
        DirEntry::Directory { path, listing } => listing_errors(path@, listing),
        _ => Seq::empty(),
    }
}

/// The files that the first `n` scans contribute.
pub open spec fn scans_files(scans: Seq<DirScan>, n: nat) -> Seq<Seq<char>>
    decreases n,
{
    if n == 0 || n > scans.len() {
        Seq::empty()
    } else {
        scans_files(scans, (n - 1) as nat) + listing_files(scans[n - 1].listing)
    }
}

/// The failures that the first `n` scans put on record.
pub open spec fn scans_errors(scans: Seq<DirScan>, n: nat) -> Seq<ErrorView>
    decreases n,
{
    if n == 0 || n > scans.len() {
        Seq::empty()
    } else {
        scans_errors(scans, (n - 1) as nat) + listing_errors(
            scans[n - 1].path@,
            scans[n - 1].listing,
        )
    }
}

/// The contents of a list of paths.
pub open spec fn path_views(paths: Seq<String>) -> Seq<Seq<char>> {
    paths.map_values(|p: String| p@)
}

/// Trusted: the extension of the final component of `path`, as
/// `std::path::Path::extension` finds it, when there is one and it is
/// valid Unicode. Where a component begins and ends differs between
/// platforms, so all that is claimed is that an extension, being the
/// portion of a component after its last dot, is a stretch of the path as
/// it was written.
#[verifier::external_body]
fn path_extension(path: &str) -> (extension: Option<String>)
    ensures
        extension matches Some(e) ==> is_stretch_of(e@, path@),
{
    std::path::Path::new(path).extension().and_then(|e| e.to_str()).map(|e| e.to_owned())
}

/// The entry for a regular file at `path`, with the extension that the
/// platform finds in its name; an extension is a stretch of the path.
pub fn file_entry(path: String) -> (entry: DirEntry)
    ensures
        entry matches DirEntry::File { path: p, extension } && p@ == path@ && (
        extension matches Some(e) ==> is_stretch_of(e@, path@)),
{
    let extension = path_extension(path.as_str());
    DirEntry::File { path, extension }
}

/// Decides whether `extension` is `txt` in any mix of upper and lower case.
pub fn has_text_extension(extension: &str) -> (text: bool)
    ensures
        text == is_text_extension(extension@),
{
    if extension.unicode_len() != 3 {
        return false;
    }
    let first = extension.get_char(0);
    let second = extension.get_char(1);
    let third = extension.get_char(2);
    (first == 't' || first == 'T') && (second == 'x' || second == 'X') && (third == 't' || third
        == 'T')
}

fn collect_entry(
    dir: &str,
    entry: &DirEntry,
    files: &mut Vec<String>,
    errors: &mut Vec<ProcessingError>,
)
    ensures
        path_views(final(files)@) == path_views(old(files)@) + entry_files(*entry),
        error_views(final(errors)@) == error_views(old(errors)@) + entry_errors(dir@, *entry),
    decreases entry, 0nat,
{
    match entry {
        DirEntry::Unreadable(message) => {
            errors.push(err(dir, "read_dir_entry", message.clone()));
        },
        DirEntry::NoMetadata { path, message } => {
            errors.push(err(path.as_str(), "metadata", message.clone()));
        },
        DirEntry::Directory { path, listing } => {
            collect_one_dir(path.as_str(), listing, files, errors);
        },
        DirEntry::File { path, extension } => {
            let keep = match extension {
                Some(e) => has_text_extension(e.as_str()),
                None => false,
            };
            if keep {
                files.push(path.clone());
            }
        },
        DirEntry::Other => {},
    }
    proof {
        assert(path_views(final(files)@) =~= path_views(old(files)@) + entry_files(*entry));
        assert(error_views(final(errors)@) =~= error_views(old(errors)@) + entry_errors(
            dir@,
            *entry,
        ));
    }
}

/// Walks what listing `dir` gave, depth first: text files are added to
/// `files`, failures to `errors`, and a failure never ends the walk.
pub fn collect_one_dir(
    dir: &str,
    listing: &DirListing,
    files: &mut Vec<String>,
    errors: &mut Vec<ProcessingError>,
)
    ensures
        path_views(final(files)@) == path_views(old(files)@) + listing_files(*listing),
        error_views(final(errors)@) == error_views(old(errors)@) + listing_errors(dir@, *listing),
    decreases listing, 1nat,
{
    match listing {
        DirListing::Unreadable(message) => {
            errors.push(err(dir, "read_dir", message.clone()));
            proof {
                assert(path_views(final(files)@) =~= path_views(old(files)@) + listing_files(
                    *listing,
                ));
                assert(error_views(final(errors)@) =~= error_views(old(errors)@)
                    + listing_errors(dir@, *listing));
            }
        },
        DirListing::Entries(entries) => {
            let mut i: usize = 0;
            while i < entries.len()
                invariant
                    i <= entries@.len(),
                    *listing == DirListing::Entries(*entries),
                    path_views(files@) == path_views(old(files)@) + entries_files(
                        entries@,
                        i as nat,
                    ),
                    error_views(errors@) == error_views(old(errors)@) + entries_errors(
                        dir@,
                        entries@,
                        i as nat,
                    ),
                decreases entries@.len() - i,
            {
                assert(decreases_to!(*listing => listing->Entries_0));
                collect_entry(dir, &entries[i], files, errors);
                i = i + 1;
                proof {
                    assert(path_views(files@) =~= path_views(old(files)@) + entries_files(
                        entries@,
                        i as nat,
                    ));
                    assert(error_views(errors@) =~= error_views(old(errors)@) + entries_errors(
                        dir@,
                        entries@,
                        i as nat,
                    ));
                }
            }
        },
    }
}

/// Collects the text files under the scanned directories, in the order of
/// a depth-first walk of each, together with every failure met on the way.
pub fn collect_txt_files(dirs: &[DirScan]) -> (found: (Vec<String>, Vec<ProcessingError>))
    ensures
        path_views(found.0@) == scans_files(dirs@, dirs@.len()),
        error_views(found.1@) == scans_errors(dirs@, dirs@.len()),
{
    let mut files: Vec<String> = Vec::new();
    let mut errors: Vec<ProcessingError> = Vec::new();
    let mut i: usize = 0;
    proof {
        assert(path_views(files@) =~= scans_files(dirs@, 0));
        assert(error_views(errors@) =~= scans_errors(dirs@, 0));
    }
    while i < dirs.len()
        invariant
            i <= dirs@.len(),
            path_views(files@) == scans_files(dirs@, i as nat),
            error_views(errors@) == scans_errors(dirs@, i as nat),
        decreases dirs@.len() - i,
    {
        collect_one_dir(dirs[i].path.as_str(), &dirs[i].listing, &mut files, &mut errors);
        i = i + 1;
    }
    (files, errors)
}

} // verus!
