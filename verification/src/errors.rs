//! Error types of the index coordinator and of the directory abstraction.

use vstd::prelude::*;
use vstd::slice::slice_to_vec;

verus! {

/// Error returned by read-side directory operations (`open_read`, `delete`).
#[derive(Clone, PartialEq, Eq, Debug)]
pub enum FileError {
    /// The path names no file in the directory.
    DoesNotExist,
    /// The underlying storage failed.
    IoError,
}

/// Error returned by `open_write`.
#[derive(Clone, PartialEq, Eq, Debug)]
pub enum OpenWriteError {
    /// The path already names a file: rewriting in place is forbidden.
    FileAlreadyExists,
    /// The underlying storage failed.
    IoError,
}

/// Top-level error of the index coordinator.
#[derive(Clone, PartialEq, Eq, Debug)]
pub enum Error {
    /// A file that was to be created already exists; also surfaced when the
    /// writer lockfile is already held.
    FileAlreadyExists(Vec<u8>),
    /// A file that was to be read or deleted does not exist.
    DoesNotExist(Vec<u8>),
    /// A file was read but could not be parsed or validated.
    CorruptedFile(Vec<u8>),
    /// The underlying storage failed.
    IoError,
}

impl Error {
    /// Maps a directory-level read error at `path` to the index-level error.
    pub fn from_file_error(e: FileError, path: &[u8]) -> (r: Error)
        ensures
            e == FileError::DoesNotExist ==> (r matches Error::DoesNotExist(p) && p@ == path@),
            e == FileError::IoError ==> r == Error::IoError,
    {
        match e {
            FileError::DoesNotExist => Error::DoesNotExist(slice_to_vec(path)),
            FileError::IoError => Error::IoError,
        }
    }

    /// Maps a directory-level write error at `path` to the index-level error.
    pub fn from_open_write_error(e: OpenWriteError, path: &[u8]) -> (r: Error)
        ensures
            e == OpenWriteError::FileAlreadyExists ==> (r matches Error::FileAlreadyExists(p)
                && p@ == path@),
            e == OpenWriteError::IoError ==> r == Error::IoError,
    {
        match e {
            OpenWriteError::FileAlreadyExists => Error::FileAlreadyExists(slice_to_vec(path)),
            OpenWriteError::IoError => Error::IoError,
        }
    }
}

} // verus!
