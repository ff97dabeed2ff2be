//! The write-once-read-many directory abstraction.
//!
//! A directory is a process-local virtual filesystem keyed by relative
//! paths (byte strings here). Files are created once and read many times;
//! the only ways to change a file's bytes are `delete` followed by
//! `open_write`, or `atomic_write`. A directory's observable state is the
//! map from paths to byte contents, [`Directory::files`].

use vstd::prelude::*;

use crate::errors::{FileError, OpenWriteError};

verus! {

/// A read-only view over one file's bytes. The source owns its bytes, so
/// they stay readable and unchanged whatever later happens to the
/// directory entry they came from.
#[derive(Debug)]
pub struct ReadOnlySource {
    bytes: Vec<u8>,
}

impl View for ReadOnlySource {
    type V = Seq<u8>;

    closed spec fn view(&self) -> Seq<u8> {
        self.bytes@
    }
}

impl ReadOnlySource {
    /// Wraps owned bytes as a read-only source.
    pub fn new(bytes: Vec<u8>) -> (r: ReadOnlySource)
        ensures
            r@ == bytes@,
    {
        ReadOnlySource { bytes }
    }

    /// The bytes of the source.
    pub fn as_slice(&self) -> (r: &[u8])
        ensures
            r@ == self@,
    {
        self.bytes.as_slice()
    }

    /// Number of bytes.
    pub fn len(&self) -> (r: usize)
        ensures
            r == self@.len(),
    {
        self.bytes.len()
    }
}

/// The buffer after writing `data` at position `pos`: bytes before `pos`
/// are kept, `data` overwrites from `pos` on, and whatever lay beyond the
/// written range is kept.
pub open spec fn write_at(buf: Seq<u8>, pos: int, data: Seq<u8>) -> Seq<u8> {
    if pos + data.len() <= buf.len() {
        buf.subrange(0, pos) + data + buf.subrange(pos + data.len(), buf.len() as int)
    } else {
        buf.subrange(0, pos) + data
    }
}

/// A sequential write handle with a seekable cursor, as handed out by
/// [`Directory::open_write`]. Writes are buffered: they become visible in
/// the directory only when the handle is flushed back through
/// [`Directory::flush_write`].
pub trait SeekableWrite: Sized {
    /// The path this handle writes to.
    spec fn path(&self) -> Seq<u8>;

    /// The buffered bytes.
    spec fn buf(&self) -> Seq<u8>;

    /// The cursor position.
    spec fn pos(&self) -> int;

    /// Writes all of `data` at the cursor, overwriting what lies there
    /// and extending the buffer as needed.
    fn write_all(&mut self, data: &[u8])
        requires
            0 <= old(self).pos() <= old(self).buf().len(),
            old(self).pos() + data@.len() <= usize::MAX,
        ensures
            final(self).path() == old(self).path(),
            final(self).buf() == write_at(old(self).buf(), old(self).pos(), data@),
            final(self).pos() == old(self).pos() + data@.len(),
    ;

    /// Moves the cursor to `pos` from the start.
    fn seek(&mut self, pos: usize)
        requires
            pos <= old(self).buf().len(),
        ensures
            final(self).path() == old(self).path(),
            final(self).buf() == old(self).buf(),
            final(self).pos() == pos,
    ;
}

/// Write-once-read-many virtual filesystem.
///
/// The observable state is `files()`, a map from paths to contents. The
/// contracts pin the map down for each operation; an implementation over
/// fallible storage may in addition fail with an `IoError`, leaving the
/// map unchanged.
pub trait Directory: Sized {
    /// The write handle type of this implementation.
    type Writer: SeekableWrite;

    /// The current contents: a map from each existing path to its bytes.
    spec fn files(&self) -> Map<Seq<u8>, Seq<u8>>;

    /// The implementation's own well-formedness; constructors establish
    /// it and every operation preserves it.
    spec fn inv(&self) -> bool;

    /// Opens a file for read. The returned source holds the file's bytes
    /// at the moment of the call, and keeps them whatever happens later.
    /// A missing path is reported as `DoesNotExist`, and only a missing
    /// path is.
    fn open_read(&self, path: &[u8]) -> (r: Result<ReadOnlySource, FileError>)
        requires
            self.inv(),
        ensures
            (r matches Ok(s) ==> self.files().contains_key(path@) && s@ == self.files()[path@]),
            (!self.files().contains_key(path@) ==> r == Err::<ReadOnlySource, FileError>(
                FileError::DoesNotExist,
            )),
            (r == Err::<ReadOnlySource, FileError>(FileError::DoesNotExist)
                ==> !self.files().contains_key(path@)),
    ;

    /// Creates the file at `path` and returns a write handle over an
    /// empty buffer. An existing path is refused with
    /// `FileAlreadyExists`: rewriting in place is forbidden.
    fn open_write(&mut self, path: &[u8]) -> (r: Result<Self::Writer, OpenWriteError>)
        requires
            old(self).inv(),
        ensures
            final(self).inv(),
            (r matches Ok(w) ==> !old(self).files().contains_key(path@) && final(self).files()
                == old(self).files().insert(path@, Seq::<u8>::empty()) && w.path() == path@
                && w.buf() == Seq::<u8>::empty() && w.pos() == 0),
            (old(self).files().contains_key(path@) ==> (r matches Err(e) && e
                == OpenWriteError::FileAlreadyExists && *final(self) == *old(self))),
            (r matches Err(e) ==> *final(self) == *old(self) && (e
                == OpenWriteError::FileAlreadyExists ==> old(self).files().contains_key(path@))),
    ;

    /// Publishes a write handle's buffered bytes to its path.
    fn flush_write(&mut self, w: Self::Writer) -> (r: Result<(), FileError>)
        requires
            old(self).inv(),
        ensures
            final(self).inv(),
            (r matches Ok(u) ==> final(self).files() == old(self).files().insert(
                w.path(),
                w.buf(),
            )),
            (r matches Err(e) ==> e == FileError::IoError && *final(self) == *old(self)),
    ;

    /// Replaces the contents of `path` with `data`, all or nothing: no
    /// interleaved reader ever observes a mix of old and new bytes. The
    /// path may or may not exist beforehand.
    fn atomic_write(&mut self, path: &[u8], data: &[u8]) -> (r: Result<(), FileError>)
        requires
            old(self).inv(),
        ensures
            final(self).inv(),
            (r matches Ok(u) ==> final(self).files() == old(self).files().insert(path@, data@)),
            (r matches Err(e) ==> e == FileError::IoError && *final(self) == *old(self)),
    ;

    /// Removes the entry at `path`. Sources already opened against it
    /// keep their bytes. A missing path is reported as `DoesNotExist`,
    /// and only a missing path is.
    fn delete(&mut self, path: &[u8]) -> (r: Result<(), FileError>)
        requires
            old(self).inv(),
        ensures
            final(self).inv(),
            (r matches Ok(u) ==> old(self).files().contains_key(path@) && final(self).files()
                == old(self).files().remove(path@)),
            (!old(self).files().contains_key(path@) ==> r == Err::<(), FileError>(
                FileError::DoesNotExist,
            ) && *final(self) == *old(self)),
            (r matches Err(e) ==> *final(self) == *old(self) && (e == FileError::DoesNotExist
                ==> !old(self).files().contains_key(path@))),
    ;

    /// An independently owned handle over the same contents.
    fn box_clone(&self) -> (r: Self)
        requires
            self.inv(),
        ensures
            r.inv(),
            r.files() == self.files(),
    ;
}

} // verus!
