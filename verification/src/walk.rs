//! The decisions of the walk over a directory tree. The caller looks at the
//! file system and hands over what it found; the functions here say what to
//! do with it, and put the tree together.

use crate::filter::{select_entries, selected, FileFilter};
use crate::measure::{measure, measured_with, MeasureError};
use crate::size::FileSizeInfo;
use crate::tree::{PathData, Tree};
use vstd::prelude::*;

verus! {

/// What the caller found at a path.
#[derive(Debug)]
pub enum Found {
    /// Nothing is there.
    Missing,
    /// A file, with its content.
    File(Vec<u8>),
    /// A directory, with the paths of its entries in listing order.
    Directory(Vec<String>),
}

/// Why a walk failed.
#[derive(Debug, PartialEq, Eq)]
pub enum WalkError {
    /// Nothing is at the path.
    NotFound(String),
    /// The file at `path` could not be measured.
    Unmeasured { path: String, codec: MeasureError },
}

/// What is to be done with a path that exists.
#[derive(Debug)]
pub enum Expansion {
    /// The path is a file: this is its node.
    Leaf(PathData),
    /// The path is a directory: these of its entries are to be walked, in
    /// this order, and their nodes put under it.
    Branch { path: String, entries: Vec<String> },
}

/// The node of the file at `path`, given how measuring its content ended: a
/// file with the measurement, or the failure with the path and the codec.
pub open spec fn file_outcome(
    path: String,
    measured: Result<FileSizeInfo, MeasureError>,
) -> Result<PathData, WalkError> {
    match measured {
        Ok(size) => Ok(PathData::File { name: path, size }),
        Err(codec) => Err(WalkError::Unmeasured { path, codec }),
    }
}

/// What is to be done with the file at `path`, given how measuring its
/// content ended.
pub open spec fn leaf_outcome(
    path: String,
    measured: Result<FileSizeInfo, MeasureError>,
) -> Result<Expansion, WalkError> {
    match measured {
        Ok(size) => Ok(Expansion::Leaf(PathData::File { name: path, size })),
        Err(codec) => Err(WalkError::Unmeasured { path, codec }),
    }
}

/// The node of the file at `path`, given how measuring its content ended.
pub fn file_node(
    path: String,
    measured: Result<FileSizeInfo, MeasureError>,
) -> (outcome: Result<PathData, WalkError>)
    ensures
        outcome == file_outcome(path, measured),
{
    match measured {
        Ok(size) => Ok(PathData::file(path, size)),
        Err(codec) => Err(WalkError::Unmeasured { path, codec }),
    }
}

/// What is to be done with `path`, given what was found there. A missing
/// path fails the walk. A file is measured, and becomes a leaf exactly where
/// the measurement succeeds, whatever the brotli pass returned. Of a
/// directory, the entries that the rule keeps are to be walked; the rule is
/// asked about entries only, never about `path` itself.
pub fn expand(
    path: String,
    found: Found,
    filter: &Option<FileFilter>,
) -> (outcome: Result<Expansion, WalkError>)
    ensures
        match found {
            Found::Missing => outcome == Err::<Expansion, WalkError>(WalkError::NotFound(path)),
            Found::File(content) => {
                &&& exists|brotli: Option<usize>|
                    outcome == leaf_outcome(path, #[trigger] measured_with(content@, brotli))
                &&& outcome matches Ok(Expansion::Leaf(PathData::File { size, .. }))
                    ==> size.uncompressed == content@.len()
            },
            Found::Directory(listed) => outcome matches Ok(
                Expansion::Branch { path: at, entries },
            ) && at == path && entries@ == selected(*filter, listed@),
        },
{
    match found {
        Found::Missing => Err(WalkError::NotFound(path)),
        Found::File(content) => {
            let measured = measure(content.as_slice());
            let ghost brotli = choose|brotli: Option<usize>|
                measured == #[trigger] measured_with(content@, brotli);
            let outcome = match file_node(path, measured) {
                Ok(node) => Ok(Expansion::Leaf(node)),
                Err(error) => Err(error),
            };
            assert(outcome == leaf_outcome(path, measured_with(content@, brotli)));
            outcome
        },
        Found::Directory(listed) => {
            let entries = select_entries(listed, filter);
            Ok(Expansion::Branch { path, entries })
        },
    }
}

/// The nodes of a directory's entries, given how the walk of each ended:
/// all of them, in their order, where every walk succeeded; else the error of
/// the first entry whose walk failed.
pub fn gather(
    walked: Vec<Result<PathData, WalkError>>,
) -> (outcome: Result<Vec<PathData>, WalkError>)
    ensures
        match outcome {
            Ok(nodes) => nodes.len() == walked.len() && forall|i: int|
                #![trigger walked[i]]
                #![trigger nodes[i]]
                0 <= i < walked.len() ==> walked[i] == Ok::<PathData, WalkError>(nodes[i]),
            Err(error) => exists|i: int|
                0 <= i < walked.len() && walked[i] == Err::<PathData, WalkError>(error)
                    && forall|j: int| 0 <= j < i ==> walked[j] is Ok,
        },
{
    let mut nodes: Vec<PathData> = Vec::new();
    for outcome in iter: walked
        invariant
            iter.seq() == walked@,
            nodes.len() == iter.index(),
            forall|i: int|
                0 <= i < iter.index() ==> walked[i] == Ok::<PathData, WalkError>(nodes[i]),
    {
        match outcome {
            Ok(node) => {
                nodes.push(node);
            },
            Err(error) => {
                assert(walked[iter.index() as int] == Err::<PathData, WalkError>(error));
                return Err(error);
            },
        }
    }
    Ok(nodes)
}

/// The node of the directory at `path`, given how the walk of each of its
/// entries ended: a directory with the entries' nodes in their order and no
/// total computed yet; or the error of the first entry whose walk failed.
pub fn assemble(
    path: String,
    walked: Vec<Result<PathData, WalkError>>,
) -> (outcome: Result<PathData, WalkError>)
    ensures
        match outcome {
            Ok(node) => {
                &&& node matches PathData::Folder(folder)
                &&& folder.cached() is None
                &&& folder.path_text() == path@
                &&& node@ matches Tree::Folder { path: at, files } && at == path@ && files.len()
                    == walked.len() && (forall|i: int|
                    0 <= i < walked.len() ==> (#[trigger] walked[i] matches Ok(entry) && entry@
                        == files[i]))
                &&& folder.entries().len() == walked.len()
                &&& forall|i: int|
                    #![trigger walked[i]]
                    #![trigger folder.entries()[i]]
                    0 <= i < walked.len() ==> walked[i] == Ok::<PathData, WalkError>(
                        folder.entries()[i],
                    )
            },
            Err(error) => exists|i: int|
                0 <= i < walked.len() && walked[i] == Err::<PathData, WalkError>(error)
                    && forall|j: int| 0 <= j < i ==> walked[j] is Ok,
        },
{
    match gather(walked) {
        Ok(files) => Ok(PathData::folder(path, files)),
        Err(error) => Err(error),
    }
}

} // verus!
