//! The in-memory directory: files are owned byte buffers in a list keyed
//! by path. Intended for tests and for indexes that never touch disk.

use vstd::prelude::*;

use crate::directory::{write_at, Directory, ReadOnlySource, SeekableWrite};
use crate::errors::{FileError, OpenWriteError};
use crate::meta_json::append_bytes;

verus! {

/// One virtual file: a path and its bytes.
#[derive(Debug)]
pub struct RamFile {
    /// The relative path of the file.
    pub path: Vec<u8>,
    /// The file's bytes.
    pub data: Vec<u8>,
}

/// Whether some entry of `s` carries the path `p`.
pub open spec fn has_path(s: Seq<RamFile>, p: Seq<u8>) -> bool {
    exists|k: int| 0 <= k < s.len() && s[k].path@ == p
}

/// The index of the entry of `s` carrying the path `p`.
pub open spec fn path_idx(s: Seq<RamFile>, p: Seq<u8>) -> int {
    choose|k: int| 0 <= k < s.len() && s[k].path@ == p
}

/// The path-to-contents map held by an entry list.
pub open spec fn files_of(s: Seq<RamFile>) -> Map<Seq<u8>, Seq<u8>> {
    Map::new(|p: Seq<u8>| has_path(s, p), |p: Seq<u8>| s[path_idx(s, p)].data@)
}

/// No two entries carry the same path.
pub open spec fn paths_unique(s: Seq<RamFile>) -> bool {
    forall|k1: int, k2: int|
        0 <= k1 < k2 < s.len() ==> s[k1].path@ != s[k2].path@
}

/// Whether `a` and `b` hold the same bytes.
pub fn bytes_eq(a: &[u8], b: &[u8]) -> (r: bool)
    ensures
        r == (a@ == b@),
{
    if a.len() != b.len() {
        proof {
            assert(a@ != b@);
        }
        return false;
    }
    let mut k: usize = 0;
    while k < a.len()
        invariant
            0 <= k <= a@.len(),
            a@.len() == b@.len(),
            forall|t: int| 0 <= t < k ==> a@[t] == b@[t],
        decreases a@.len() - k,
    {
        if a[k] != b[k] {
            return false;
        }
        k += 1;
    }
    proof {
        assert(a@ =~= b@);
    }
    true
}

/// The in-memory directory.
#[derive(Debug)]
pub struct RamDirectory {
    entries: Vec<RamFile>,
}

/// The write handle of the in-memory directory: an owned buffer with a
/// cursor. Bytes reach the directory only through
/// [`Directory::flush_write`].
#[derive(Debug)]
pub struct RamWriter {
    path: Vec<u8>,
    buf: Vec<u8>,
    pos: usize,
}

impl SeekableWrite for RamWriter {
    closed spec fn path(&self) -> Seq<u8> {
        self.path@
    }

    closed spec fn buf(&self) -> Seq<u8> {
        self.buf@
    }

    closed spec fn pos(&self) -> int {
        self.pos as int
    }

    fn write_all(&mut self, data: &[u8]) {
        let mut nb: Vec<u8> = Vec::new();
        let head = vstd::slice::slice_subrange(self.buf.as_slice(), 0, self.pos);
        append_bytes(&mut nb, head);
        append_bytes(&mut nb, data);
        let end: usize = self.pos + data.len();
        if end < self.buf.len() {
            let tail = vstd::slice::slice_subrange(self.buf.as_slice(), end, self.buf.len());
            append_bytes(&mut nb, tail);
        }
        proof {
            if end < self.buf.len() {
                assert(nb@ =~= write_at(self.buf@, self.pos as int, data@));
            } else {
                assert(self.buf@.subrange(0, self.pos as int) + data@ =~= write_at(
                    self.buf@,
                    self.pos as int,
                    data@,
                ));
            }
        }
        self.buf = nb;
        self.pos = end;
    }

    fn seek(&mut self, pos: usize) {
        self.pos = pos;
    }
}

impl RamDirectory {
    /// A fresh, empty in-memory directory.
    pub fn create() -> (r: RamDirectory)
        ensures
            r.files() == Map::<Seq<u8>, Seq<u8>>::empty(),
            r.inv(),
    {
        let r = RamDirectory { entries: Vec::new() };
        proof {
            assert(r.files() =~= Map::<Seq<u8>, Seq<u8>>::empty());
        }
        r
    }

    /// Writes `data` at `path`, replacing what was there; the in-memory
    /// directory cannot fail.
    pub fn ram_atomic_write(&mut self, path: &[u8], data: &[u8])
        requires
            old(self).inv(),
        ensures
            final(self).inv(),
            final(self).files() == old(self).files().insert(path@, data@),
    {
        self.set_entry(path, vstd::slice::slice_to_vec(data));
    }

    /// The index of `path` among the entries, if it exists.
    fn find(&self, path: &[u8]) -> (r: Option<usize>)
        ensures
            (r matches Some(k) ==> k < self.entries@.len() && self.entries@[k as int].path@
                == path@),
            (r is None ==> !has_path(self.entries@, path@)),
    {
        let mut k: usize = 0;
        while k < self.entries.len()
            invariant
                0 <= k <= self.entries@.len(),
                forall|t: int| 0 <= t < k ==> self.entries@[t].path@ != path@,
            decreases self.entries@.len() - k,
        {
            if bytes_eq(self.entries[k].path.as_slice(), path) {
                return Some(k);
            }
            k += 1;
        }
        proof {
            assert(!has_path(self.entries@, path@));
        }
        None
    }

    /// With unique paths, an entry carrying `p` is the entry the map
    /// reads.
    proof fn lemma_lookup(s: Seq<RamFile>, k: int)
        requires
            paths_unique(s),
            0 <= k < s.len(),
        ensures
            has_path(s, s[k].path@),
            path_idx(s, s[k].path@) == k,
            files_of(s)[s[k].path@] == s[k].data@,
    {
        let p = s[k].path@;
        assert(has_path(s, p));
        let k2 = path_idx(s, p);
        assert(0 <= k2 < s.len() && s[k2].path@ == p);
        if k2 != k {
            assert(s[k2].path@ != s[k].path@);
        }
    }

    /// Sets `path` to `data`, replacing the entry or appending a new one.
    fn set_entry(&mut self, path: &[u8], data: Vec<u8>)
        requires
            old(self).inv(),
        ensures
            final(self).inv(),
            final(self).files() == old(self).files().insert(path@, data@),
    {
        let found = self.find(path);
        let ghost s0 = self.entries@;
        match found {
            Some(k) => {
                let entry = RamFile { path: vstd::slice::slice_to_vec(path), data };
                self.entries.set(k, entry);
                proof {
                    let s1 = self.entries@;
                    assert(s1.len() == s0.len());
                    assert forall|q: Seq<u8>| has_path(s1, q) implies (has_path(s0, q) || q
                        == path@) by {
                        let t = choose|t: int| 0 <= t < s1.len() && s1[t].path@ == q;
                        if t != k {
                            assert(s0[t].path@ == q);
                        }
                    };
                    assert forall|q: Seq<u8>| has_path(s0, q) implies has_path(s1, q) by {
                        let t = choose|t: int| 0 <= t < s0.len() && s0[t].path@ == q;
                        if t == k {
                            assert(s0[t].path@ == path@);
                            assert(s1[k as int].path@ == q);
                        } else {
                            assert(s1[t].path@ == q);
                        }
                    };
                    assert forall|t1: int, t2: int| 0 <= t1 < t2 < s1.len() implies s1[t1].path@
                        != s1[t2].path@ by {
                        if t1 != k && t2 != k {
                            assert(s0[t1].path@ != s0[t2].path@);
                        } else if t1 == k {
                            assert(s0[k as int].path@ == path@);
                            assert(s0[t2].path@ != path@);
                        } else {
                            assert(s0[k as int].path@ == path@);
                            assert(s0[t1].path@ != path@);
                        }
                    };
                    assert forall|q: Seq<u8>| has_path(s1, q) && q != path@ implies files_of(
                        s1,
                    )[q] == files_of(s0)[q] by {
                        let t = choose|t: int| 0 <= t < s1.len() && s1[t].path@ == q;
                        assert(t != k);
                        assert(s0[t].path@ == q);
                        Self::lemma_lookup(s1, t);
                        Self::lemma_lookup(s0, t);
                    };
                    Self::lemma_lookup(s1, k as int);
                    assert(files_of(s1) =~= files_of(s0).insert(path@, data@));
                }
            },
            None => {
                let entry = RamFile { path: vstd::slice::slice_to_vec(path), data };
                self.entries.push(entry);
                proof {
                    let s1 = self.entries@;
                    assert(s1.len() == s0.len() + 1);
                    assert(s1[s0.len() as int].path@ == path@);
                    assert forall|t1: int, t2: int| 0 <= t1 < t2 < s1.len() implies s1[t1].path@
                        != s1[t2].path@ by {
                        if t2 == s0.len() {
                            assert(s1[t1].path@ == s0[t1].path@);
                            assert(s0[t1].path@ != path@);
                        } else {
                            assert(s0[t1].path@ != s0[t2].path@);
                        }
                    };
                    assert forall|q: Seq<u8>| has_path(s1, q) implies (has_path(s0, q) || q
                        == path@) by {
                        let t = choose|t: int| 0 <= t < s1.len() && s1[t].path@ == q;
                        if t < s0.len() {
                            assert(s0[t].path@ == q);
                        }
                    };
                    assert forall|q: Seq<u8>| has_path(s0, q) implies has_path(s1, q) by {
                        let t = choose|t: int| 0 <= t < s0.len() && s0[t].path@ == q;
                        assert(s1[t].path@ == q);
                    };
                    assert forall|q: Seq<u8>| has_path(s1, q) && q != path@ implies files_of(
                        s1,
                    )[q] == files_of(s0)[q] by {
                        let t = choose|t: int| 0 <= t < s1.len() && s1[t].path@ == q;
                        assert(t < s0.len());
                        Self::lemma_lookup(s1, t);
                        Self::lemma_lookup(s0, t);
                    };
                    Self::lemma_lookup(s1, s0.len() as int);
                    assert(files_of(s1) =~= files_of(s0).insert(path@, data@));
                }
            },
        }
    }
}

impl Directory for RamDirectory {
    type Writer = RamWriter;

    closed spec fn files(&self) -> Map<Seq<u8>, Seq<u8>> {
        files_of(self.entries@)
    }

    closed spec fn inv(&self) -> bool {
        paths_unique(self.entries@)
    }

    fn open_read(&self, path: &[u8]) -> (r: Result<ReadOnlySource, FileError>) {
        match self.find(path) {
            Some(k) => {
                let data = vstd::slice::slice_to_vec(self.entries[k].data.as_slice());
                proof {
                    Self::lemma_lookup(self.entries@, k as int);
                }
                Ok(ReadOnlySource::new(data))
            },
            None => Err(FileError::DoesNotExist),
        }
    }

    fn open_write(&mut self, path: &[u8]) -> (r: Result<RamWriter, OpenWriteError>) {
        match self.find(path) {
            Some(k) => {
                proof {
                    Self::lemma_lookup(self.entries@, k as int);
                }
                Err(OpenWriteError::FileAlreadyExists)
            },
            None => {
                self.set_entry(path, Vec::new());
                Ok(RamWriter { path: vstd::slice::slice_to_vec(path), buf: Vec::new(), pos: 0 })
            },
        }
    }

    fn flush_write(&mut self, w: RamWriter) -> (r: Result<(), FileError>) {
        let RamWriter { path, buf, pos: _ } = w;
        self.set_entry(path.as_slice(), buf);
        Ok(())
    }

    fn atomic_write(&mut self, path: &[u8], data: &[u8]) -> (r: Result<(), FileError>) {
        self.set_entry(path, vstd::slice::slice_to_vec(data));
        Ok(())
    }

    fn delete(&mut self, path: &[u8]) -> (r: Result<(), FileError>) {
        let found = self.find(path);
        let ghost s0 = self.entries@;
        match found {
            Some(k) => {
                proof {
                    Self::lemma_lookup(self.entries@, k as int);
                }
                self.entries.remove(k);
                proof {
                    let s1 = self.entries@;
                    assert(s1 =~= s0.subrange(0, k as int) + s0.subrange(
                        k as int + 1,
                        s0.len() as int,
                    ));
                    assert forall|t: int| 0 <= t < s1.len() implies s1[t] == (if t < k {
                        s0[t]
                    } else {
                        s0[t + 1]
                    }) by {};
                    assert forall|t1: int, t2: int| 0 <= t1 < t2 < s1.len() implies s1[t1].path@
                        != s1[t2].path@ by {};
                    assert forall|q: Seq<u8>| has_path(s1, q) implies (has_path(s0, q) && q
                        != path@) by {
                        let t = choose|t: int| 0 <= t < s1.len() && s1[t].path@ == q;
                        let t0 = if t < k {
                            t
                        } else {
                            t + 1
                        };
                        assert(s0[t0].path@ == q);
                        if q == path@ {
                            assert(t0 != k);
                            assert(s0[t0].path@ != s0[k as int].path@);
                        }
                    };
                    assert forall|q: Seq<u8>| has_path(s0, q) && q != path@ implies has_path(
                        s1,
                        q,
                    ) by {
                        let t = choose|t: int| 0 <= t < s0.len() && s0[t].path@ == q;
                        assert(t != k);
                        if t < k {
                            assert(s1[t].path@ == q);
                        } else {
                            assert(s1[t - 1].path@ == q);
                        }
                    };
                    assert forall|q: Seq<u8>| has_path(s1, q) implies files_of(s1)[q] == files_of(
                        s0,
                    )[q] by {
                        let t = choose|t: int| 0 <= t < s1.len() && s1[t].path@ == q;
                        let t0 = if t < k {
                            t
                        } else {
                            t + 1
                        };
                        assert(s0[t0].path@ == q);
                        Self::lemma_lookup(s1, t);
                        Self::lemma_lookup(s0, t0);
                    };
                    assert(files_of(s1) =~= files_of(s0).remove(path@));
                }
                Ok(())
            },
            None => Err(FileError::DoesNotExist),
        }
    }

    fn box_clone(&self) -> (r: RamDirectory) {
        let mut entries: Vec<RamFile> = Vec::new();
        let mut k: usize = 0;
        while k < self.entries.len()
            invariant
                0 <= k <= self.entries@.len(),
                entries@.len() == k,
                forall|t: int|
                    0 <= t < k ==> (entries@[t].path@ == self.entries@[t].path@
                        && entries@[t].data@ == self.entries@[t].data@),
            decreases self.entries@.len() - k,
        {
            let e = RamFile {
                path: vstd::slice::slice_to_vec(self.entries[k].path.as_slice()),
                data: vstd::slice::slice_to_vec(self.entries[k].data.as_slice()),
            };
            entries.push(e);
            k += 1;
        }
        let r = RamDirectory { entries };
        proof {
            let s0 = self.entries@;
            let s1 = r.entries@;
            assert forall|q: Seq<u8>| has_path(s1, q) implies has_path(s0, q) by {
                let t = choose|t: int| 0 <= t < s1.len() && s1[t].path@ == q;
                assert(s0[t].path@ == q);
            };
            assert forall|q: Seq<u8>| has_path(s0, q) implies has_path(s1, q) by {
                let t = choose|t: int| 0 <= t < s0.len() && s0[t].path@ == q;
                assert(s1[t].path@ == q);
            };
            assert forall|q: Seq<u8>| has_path(s1, q) implies files_of(s1)[q] == files_of(s0)[q] by {
                let t = choose|t: int| 0 <= t < s1.len() && s1[t].path@ == q;
                assert(s0[t].path@ == q);
                assert(paths_unique(s1));
                Self::lemma_lookup(s1, t);
                Self::lemma_lookup(s0, t);
            };
            assert(r.files() =~= self.files());
        }
        r
    }
}

} // verus!
