//! One cycle over a tracked location, file by file: what follows from the
//! comparison of a changed file, from the writing of its diff, and from
//! the promotion of the file to the new baseline.
//!
//! The caller does the work in between: it compares, writes and copies,
//! and reports how each step went. A failure settles the file it was met
//! at and no other file.

use vstd::prelude::*;
use crate::comparison::Comparison;
use crate::errors::{FileManagerError, PDFComparisonError, PDFEditorError};
use crate::names::{diff_file_name, diff_name, unknown_name};

verus! {

/// The number of seconds after which a location is to be looked at again.
pub const RECHECK_SECONDS: u64 = 60;

/// A tracked location: the directory of the current files, the directory
/// of their baselines, and the directory that takes the diffs.
pub struct FileManager<P> {
    pub current_path: P,
    pub last_path: P,
    pub diff_path: P,
}

/// Whether one of `comparisons` is a page that differs.
pub open spec fn some_page_differs(comparisons: Seq<Comparison>) -> bool {
    exists|i: int| 0 <= i < comparisons.len() && (#[trigger] comparisons[i])@ is Some
}

/// What follows for a changed file once its pages are compared.
#[derive(Debug)]
pub enum Compared {
    /// No page differs: there is nothing to report, and the file is left
    /// out of the cycle's result.
    Discard,
    /// Write the diff by these results into a file of this name.
    Annotate(Vec<Comparison>, Vec<u8>),
    /// The comparison failed: this is the result for the file.
    Failed(FileManagerError),
}

/// What follows for a changed file once its diff is written.
#[derive(Debug)]
pub enum Annotated<D> {
    /// The diff stands at this path: copy the file over its baseline.
    Promote(D),
    /// The diff could not be written: this is the result for the file,
    /// and its baseline stays as it is.
    Failed(FileManagerError),
}

impl<P> FileManager<P> {
    /// A location made of its three directories.
    pub fn new(current_path: P, last_path: P, diff_path: P) -> (manager: Self)
        ensures
            manager.current_path == current_path,
            manager.last_path == last_path,
            manager.diff_path == diff_path,
    {
        FileManager { current_path, last_path, diff_path }
    }

    /// Whether one of the pages differs from the baseline.
    pub fn has_changes(comparisons: &Vec<Comparison>) -> (changed: bool)
        ensures
            changed == some_page_differs(comparisons@),
    {
        let mut i: usize = 0;
        while i < comparisons.len()
            invariant
                i <= comparisons@.len(),
                forall|k: int| 0 <= k < i ==> (#[trigger] comparisons@[k])@ is None,
            decreases comparisons@.len() - i,
        {
            match &comparisons[i] {
                Comparison::Different(_) => {
                    assert(comparisons@[i as int]@ is Some);
                    return true;
                },
                Comparison::Identical => {},
            }
            i = i + 1;
        }
        false
    }

    /// Takes the comparison of a changed file with its baseline, together
    /// with the file's name and the time in seconds of Unix time.
    ///
    /// A file of which no page differs is discarded. A file with a page
    /// that differs is to be annotated, into a diff file named after the
    /// file and the time. A comparison that failed is the file's result.
    pub fn generate_comparisons(
        &self,
        compared: Result<Vec<Comparison>, PDFComparisonError>,
        file_name: Option<&[u8]>,
        unix_seconds: i64,
    ) -> (next: Compared)
        ensures
            match compared {
                Ok(comparisons) => if some_page_differs(comparisons@) {
                    next matches Compared::Annotate(pages, name) && pages == comparisons && name@
                        == diff_name(
                        match file_name {
                            Some(file_name) => file_name@,
                            None => unknown_name(),
                        },
                        unix_seconds,
                    )
                } else {
                    next is Discard
                },
                Err(error) => next matches Compared::Failed(reason) && reason
                    == FileManagerError::PDFComparisonError(error),
            },
    {
        match compared {
            Ok(comparisons) => {
                if Self::has_changes(&comparisons) {
                    let name = diff_file_name(file_name, unix_seconds);
                    Compared::Annotate(comparisons, name)
                } else {
                    Compared::Discard
                }
            },
            Err(error) => Compared::Failed(FileManagerError::PDFComparisonError(error)),
        }
    }

    /// Takes the outcome of writing a diff to `diff_path`. A diff that was
    /// written leads to the promotion of the file; one that was not is the
    /// file's result.
    pub fn generate_updated_pdfs<D>(
        &self,
        diff_path: D,
        written: Result<(), PDFEditorError>,
    ) -> (next: Annotated<D>)
        ensures
            match written {
                Ok(_) => next matches Annotated::Promote(path) && path == diff_path,
                Err(error) => next matches Annotated::Failed(reason) && reason
                    == FileManagerError::PDFEditorError(error),
            },
    {
        match written {
            Ok(_) => Annotated::Promote(diff_path),
            Err(error) => Annotated::Failed(FileManagerError::PDFEditorError(error)),
        }
    }

    /// Takes the outcome of copying a file over its baseline, after its
    /// diff was written to `diff_path`, and gives the file's result: the
    /// path of the diff, or the error of the copy.
    pub fn update_changed_pdfs<D>(
        &self,
        diff_path: D,
        copied: Result<(), std::io::Error>,
    ) -> (result: Result<D, FileManagerError>)
        ensures
            result == match copied {
                Ok(_) => Ok::<D, FileManagerError>(diff_path),
                Err(error) => Err::<D, FileManagerError>(FileManagerError::Io(error)),
            },
    {
        match copied {
            Ok(_) => Ok(diff_path),
            Err(error) => Err(FileManagerError::Io(error)),
        }
    }
}

} // verus!
