//! Version readers: read-only cursors bound to the snapshot of one
//! historical version of a file.

use vstd::prelude::*;
use crate::bridge::{slot_wf, Bridge};
use crate::buffer::{buf_filled, spec_avail, spec_min, stream_read_all, stream_read_into};
use crate::error::BridgeError;
use crate::file_ops::{resolve_file_spec, spec_version_of};
use crate::seek::{resolve_seek, spec_seek, spec_to_seek, to_seek_from};
use crate::store::VersionData;
use crate::table::{slot_of, ReaderHandle, Resource};

verus! {

/// Whether the version chain holds a version with the given number.
pub open spec fn has_version(vs: Seq<VersionData>, num: u64) -> bool {
    exists|j: int| 0 <= j < vs.len() && vs[j].num == num
}

/// Finds the version with the given number in a chain.
fn find_version(vs: &Vec<VersionData>, num: u64) -> (r: Option<usize>)
    ensures
        match r {
            Some(j) => j < vs@.len() && vs@[j as int].num == num,
            None => !has_version(vs@, num),
        },
{
    let n = vs.len();
    let mut i: usize = 0;
    while i < n
        invariant
            i <= n,
            n == vs@.len(),
            forall|k: int| 0 <= k < i ==> vs@[k].num != num,
        decreases n - i,
    {
        if vs[i].num == num {
            return Some(i);
        }
        i += 1;
    }
    None
}

impl Bridge {
    /// Opens a read-only cursor over the snapshot of one historical
    /// version of an open file, bound to a fresh token.  The requested
    /// version must exist in the file's chain.
    pub fn file_version_reader(&mut self, token: usize, ver_num: u64) -> (r: Result<
        usize,
        BridgeError,
    >)
        requires
            old(self).wf(),
        ensures
            final(self).wf(),
            final(self).repos == old(self).repos,
            match resolve_file_spec(*old(self), token) {
                Ok(he) => {
                    if !has_version(he.1.versions@, ver_num) {
                        r == Err::<usize, BridgeError>(BridgeError::NoVersion) && *final(self)
                            == *old(self)
                    } else {
                        &&& r == Ok::<usize, BridgeError>(old(self).table.slots@.len() as usize)
                        &&& final(self).table.slots@.len() == old(self).table.slots@.len() + 1
                        &&& forall|t: int|
                            0 <= t < old(self).table.slots@.len() ==> final(self).table.slots@[t]
                                == old(self).table.slots@[t]
                        &&& final(self).table.slots@.last() matches Some(
                            Resource::VersionReader(rh),
                        ) && rh.pos == 0 && rh.version.num == ver_num && exists|j: int|
                            0 <= j < he.1.versions@.len() && (#[trigger] he.1.versions@[j]).num
                                == ver_num && rh.content@ == he.1.versions@[j].content@
                                && rh.version == spec_version_of(he.1.versions@[j])
                    }
                },
                Err(e) => r == Err::<usize, BridgeError>(e) && *final(self) == *old(self),
            },
    {
        let (ri, j) = match self.resolve_file(token) {
            Ok(p) => p,
            Err(e) => return Err(e),
        };
        let reader = match &self.repos[ri] {
            Some(store) => {
                let e = &store.data.entries[j];
                match find_version(&e.versions, ver_num) {
                    Some(k) => {
                        let v = &e.versions[k];
                        ReaderHandle {
                            version: crate::values::Version {
                                num: v.num,
                                content_len: v.content.len() as u64,
                                created_at: v.created_at,
                            },
                            content: vstd::slice::slice_to_vec(v.content.as_slice()),
                            pos: 0,
                        }
                    },
                    None => {
                        return Err(BridgeError::NoVersion);
                    },
                }
            },
            None => {
                return Err(BridgeError::NotFound);
            },
        };
        let t = self.table.bind(Resource::VersionReader(reader));
        proof {
            assert forall|u: int|
                0 <= u < self.table.slots@.len() implies slot_wf(
                self.repos@.len() as int,
                #[trigger] self.table.slots@[u],
            ) by {
                if u < old(self).table.slots@.len() {
                    assert(self.table.slots@[u] == old(self).table.slots@[u]);
                    assert(slot_wf(old(self).repos@.len() as int, old(self).table.slots@[u]));
                }
            }
        }
        Ok(t)
    }

    /// Moves a version reader's cursor.
    fn set_reader_pos(&mut self, token: usize, p: u64)
        requires
            old(self).wf(),
            slot_of(old(self).table.slots@, token) matches Some(Resource::VersionReader(_)),
        ensures
            final(self).wf(),
            final(self).repos == old(self).repos,
            old(self).table.slots@[token as int] matches Some(Resource::VersionReader(rh))
                && final(self).table.slots@ == old(self).table.slots@.update(
                token as int,
                Some(Resource::VersionReader(ReaderHandle { pos: p, ..rh })),
            ),
    {
        match &mut self.table.slots[token] {
            Some(Resource::VersionReader(rh)) => {
                rh.pos = p;
            },
            _ => {},
        }
        proof {
            assert forall|u: int|
                0 <= u < self.table.slots@.len() implies slot_wf(
                self.repos@.len() as int,
                #[trigger] self.table.slots@[u],
            ) by {
                assert(slot_wf(old(self).repos@.len() as int, old(self).table.slots@[u]));
            }
        }
    }

    /// Reads from the reader's cursor into the caller's buffer: copies up
    /// to the buffer's length from the version snapshot, advances the
    /// cursor by the count copied, and returns that count; zero means end
    /// of stream.
    pub fn reader_read(&mut self, token: usize, dst: &mut Vec<u8>) -> (r: Result<
        usize,
        BridgeError,
    >)
        requires
            old(self).wf(),
        ensures
            final(self).wf(),
            final(self).repos == old(self).repos,
            match slot_of(old(self).table.slots@, token) {
                Some(Resource::VersionReader(rh)) => {
                    let n = spec_min(
                        old(dst)@.len() as int,
                        spec_avail(rh.content@.len(), rh.pos) as int,
                    );
                    &&& r == Ok::<usize, BridgeError>(n as usize)
                    &&& buf_filled(old(dst)@, final(dst)@, rh.content@, rh.pos as int, 0, n)
                    &&& final(self).table.slots@ == old(self).table.slots@.update(
                        token as int,
                        Some(
                            Resource::VersionReader(
                                ReaderHandle { pos: (rh.pos + n) as u64, ..rh },
                            ),
                        ),
                    )
                },
                s => r == Err::<usize, BridgeError>(
                    if s is None {
                        BridgeError::NoResourceAttached
                    } else {
                        BridgeError::WrongResourceKind
                    },
                ) && *final(self) == *old(self) && *final(dst) == *old(dst),
            },
    {
        if token >= self.table.slots.len() {
            return Err(BridgeError::NoResourceAttached);
        }
        let pos0 = match &self.table.slots[token] {
            Some(Resource::VersionReader(rh)) => rh.pos,
            Some(_) => {
                return Err(BridgeError::WrongResourceKind);
            },
            None => {
                return Err(BridgeError::NoResourceAttached);
            },
        };
        let mut p = pos0;
        let n = match &self.table.slots[token] {
            Some(Resource::VersionReader(rh)) => stream_read_into(&rh.content, &mut p, dst, 0),
            _ => 0,
        };
        self.set_reader_pos(token, p);
        Ok(n)
    }

    /// Reads everything between the reader's cursor and the end of the
    /// version snapshot, by the same two-phase protocol as a file; the
    /// cursor ends at the end of the snapshot.
    pub fn reader_read_all(&mut self, token: usize) -> (r: Result<Vec<u8>, BridgeError>)
        requires
            old(self).wf(),
        ensures
            final(self).wf(),
            final(self).repos == old(self).repos,
            match slot_of(old(self).table.slots@, token) {
                Some(Resource::VersionReader(rh)) => {
                    let len = rh.content@.len() as int;
                    let newpos = if rh.pos <= len {
                        len
                    } else {
                        rh.pos as int
                    };
                    &&& r matches Ok(out)
                    &&& (rh.pos <= len ==> out@ == rh.content@.subrange(rh.pos as int, len))
                    &&& (rh.pos > len ==> out@.len() == 0)
                    &&& final(self).table.slots@ == old(self).table.slots@.update(
                        token as int,
                        Some(
                            Resource::VersionReader(ReaderHandle { pos: newpos as u64, ..rh }),
                        ),
                    )
                },
                s => r == Err::<Vec<u8>, BridgeError>(
                    if s is None {
                        BridgeError::NoResourceAttached
                    } else {
                        BridgeError::WrongResourceKind
                    },
                ) && *final(self) == *old(self),
            },
    {
        if token >= self.table.slots.len() {
            return Err(BridgeError::NoResourceAttached);
        }
        let pos0 = match &self.table.slots[token] {
            Some(Resource::VersionReader(rh)) => rh.pos,
            Some(_) => {
                return Err(BridgeError::WrongResourceKind);
            },
            None => {
                return Err(BridgeError::NoResourceAttached);
            },
        };
        let mut p = pos0;
        let out = match &self.table.slots[token] {
            Some(Resource::VersionReader(rh)) => stream_read_all(&rh.content, &mut p),
            _ => Vec::new(),
        };
        self.set_reader_pos(token, p);
        Ok(out)
    }

    /// Repositions the reader's cursor inside the version snapshot, from a
    /// numeric offset and a symbolic origin code; returns the new absolute
    /// position, rejecting one outside the representable range.
    pub fn reader_seek(&mut self, token: usize, offset: i64, whence: i32) -> (r: Result<
        u64,
        BridgeError,
    >)
        requires
            old(self).wf(),
            0 <= whence <= 2,
        ensures
            final(self).wf(),
            final(self).repos == old(self).repos,
            match slot_of(old(self).table.slots@, token) {
                Some(Resource::VersionReader(rh)) => {
                    match spec_seek(
                        rh.content@.len() as u64,
                        rh.pos,
                        spec_to_seek(offset, whence),
                    ) {
                        Some(np) => r == Ok::<u64, BridgeError>(np) && final(self).table.slots@
                            == old(self).table.slots@.update(
                            token as int,
                            Some(Resource::VersionReader(ReaderHandle { pos: np, ..rh })),
                        ),
                        None => r == Err::<u64, BridgeError>(BridgeError::InvalidArgument)
                            && *final(self) == *old(self),
                    }
                },
                s => r == Err::<u64, BridgeError>(
                    if s is None {
                        BridgeError::NoResourceAttached
                    } else {
                        BridgeError::WrongResourceKind
                    },
                ) && *final(self) == *old(self),
            },
    {
        if token >= self.table.slots.len() {
            return Err(BridgeError::NoResourceAttached);
        }
        let (pos0, len) = match &self.table.slots[token] {
            Some(Resource::VersionReader(rh)) => (rh.pos, rh.content.len()),
            Some(_) => {
                return Err(BridgeError::WrongResourceKind);
            },
            None => {
                return Err(BridgeError::NoResourceAttached);
            },
        };
        let spec = to_seek_from(offset, whence);
        match resolve_seek(len as u64, pos0, spec) {
            Some(np) => {
                self.set_reader_pos(token, np);
                Ok(np)
            },
            None => Err(BridgeError::InvalidArgument),
        }
    }
}

} // verus!
