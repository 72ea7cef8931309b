//! Operations on an open file handle: queries marshalled into value
//! objects, the buffer-bridge transfers at the handle's cursor, and the
//! commit that turns written content into a new version.

use vstd::prelude::*;
use crate::bridge::{lemma_update_repo, slot_wf, Bridge};
use crate::buffer::{buf_filled, spec_avail, spec_min, spec_written, stream_read_all, stream_read_into, stream_write};
use crate::error::BridgeError;
use crate::seek::{resolve_seek, spec_seek, spec_to_seek, to_seek_from};
use crate::store::{entry_idx, entry_of, has_entry, lemma_entry_at, lemma_update_entry, paths_unique, Entry, VersionData};
use crate::table::{slot_of, FileHandle, Resource};
use crate::values::{FileKind, Metadata, Timestamp, Version};

verus! {

/// The metadata a file or directory entry is marshalled into.
pub open spec fn spec_metadata_of(e: Entry) -> Metadata {
    Metadata {
        kind: e.kind,
        content_len: e.content@.len() as u64,
        curr_version: e.curr_version,
        created_at: e.created_at,
        modified_at: e.modified_at,
    }
}

/// The value object a committed version is marshalled into.
pub open spec fn spec_version_of(v: VersionData) -> Version {
    Version { num: v.num, content_len: v.content@.len() as u64, created_at: v.created_at }
}

/// Resolving a file token: the handle it addresses and the entry that
/// handle points at, or the error the operation reports instead.
pub open spec fn resolve_file_spec(b: Bridge, token: usize) -> Result<
    (FileHandle, Entry),
    BridgeError,
> {
    match slot_of(b.table.slots@, token) {
        Some(Resource::File(h)) => {
            if h.repo_idx >= b.repos@.len() || b.repos@[h.repo_idx as int] is None {
                Err(BridgeError::NotFound)
            } else {
                let entries = b.repos@[h.repo_idx as int]->0.data.entries@;
                if !has_entry(entries, h.path@) {
                    Err(BridgeError::NotFound)
                } else if entry_of(entries, h.path@).kind == FileKind::Dir {
                    Err(BridgeError::NotFile)
                } else {
                    Ok((h, entry_of(entries, h.path@)))
                }
            }
        },
        Some(_) => Err(BridgeError::WrongResourceKind),
        None => Err(BridgeError::NoResourceAttached),
    }
}

impl Bridge {
    /// Finds the repository cell and entry index a file token addresses.
    pub(crate) fn resolve_file(&self, token: usize) -> (r: Result<(usize, usize), BridgeError>)
        requires
            self.wf(),
        ensures
            match r {
                Ok(rij) => resolve_file_spec(*self, token) matches Ok(he) && he.0.repo_idx == rij.0
                    && rij.0 < self.repos@.len() && self.repos@[rij.0 as int] is Some
                    && rij.1 < self.repos@[rij.0 as int]->0.data.entries@.len()
                    && self.repos@[rij.0 as int]->0.data.entries@[rij.1 as int] == he.1
                    && rij.1 == entry_idx(self.repos@[rij.0 as int]->0.data.entries@, he.0.path@),
                Err(e) => resolve_file_spec(*self, token) == Err::<(FileHandle, Entry), BridgeError>(
                    e,
                ),
            },
    {
        if token >= self.table.slots.len() {
            return Err(BridgeError::NoResourceAttached);
        }
        match &self.table.slots[token] {
            Some(Resource::File(h)) => {
                let ri = h.repo_idx;
                match &self.repos[ri] {
                    Some(store) => {
                        proof {
                            assert(self.repos@[ri as int] matches Some(st) ==> paths_unique(
                                st.data.entries@,
                            ));
                        }
                        match crate::store::find_entry(&store.data.entries, h.path.as_str()) {
                            Some(j) => {
                                proof {
                                    lemma_entry_at(store.data.entries@, j as int);
                                }
                                match store.data.entries[j].kind {
                                    FileKind::Dir => Err(BridgeError::NotFile),
                                    FileKind::File => Ok((ri, j)),
                                }
                            },
                            None => Err(BridgeError::NotFound),
                        }
                    },
                    None => Err(BridgeError::NotFound),
                }
            },
            Some(_) => Err(BridgeError::WrongResourceKind),
            None => Err(BridgeError::NoResourceAttached),
        }
    }

    /// Moves a file handle's cursor.
    fn set_file_pos(&mut self, token: usize, p: u64)
        requires
            old(self).wf(),
            slot_of(old(self).table.slots@, token) matches Some(Resource::File(_)),
        ensures
            final(self).wf(),
            final(self).repos == old(self).repos,
            old(self).table.slots@[token as int] matches Some(Resource::File(h))
                && final(self).table.slots@ == old(self).table.slots@.update(
                token as int,
                Some(Resource::File(FileHandle { pos: p, ..h })),
            ),
    {
        match &mut self.table.slots[token] {
            Some(Resource::File(h)) => {
                h.pos = p;
            },
            _ => {},
        }
        proof {
            assert forall|u: int|
                0 <= u < self.table.slots@.len() implies slot_wf(
                self.repos@.len() as int,
                #[trigger] self.table.slots@[u],
            ) by {
                assert(slot_wf(old(self).repos@.len() as int, old(self).table.slots@[u]));
            }
        }
    }

    /// Queries the metadata of the entry an open file addresses.
    pub fn file_metadata(&self, token: usize) -> (r: Result<Metadata, BridgeError>)
        requires
            self.wf(),
        ensures
            match resolve_file_spec(*self, token) {
                Ok(he) => r == Ok::<Metadata, BridgeError>(spec_metadata_of(he.1)),
                Err(e) => r == Err::<Metadata, BridgeError>(e),
            },
    {
        let (ri, j) = match self.resolve_file(token) {
            Ok(p) => p,
            Err(e) => return Err(e),
        };
        match &self.repos[ri] {
            Some(store) => {
                let e = &store.data.entries[j];
                Ok(
                    Metadata {
                        kind: e.kind,
                        content_len: e.content.len() as u64,
                        curr_version: e.curr_version,
                        created_at: e.created_at,
                        modified_at: e.modified_at,
                    },
                )
            },
            None => Err(BridgeError::NotFound),
        }
    }

    /// Queries the number of the newest committed version of an open file.
    pub fn file_curr_version(&self, token: usize) -> (r: Result<u64, BridgeError>)
        requires
            self.wf(),
        ensures
            match resolve_file_spec(*self, token) {
                Ok(he) => r == Ok::<u64, BridgeError>(he.1.curr_version),
                Err(e) => r == Err::<u64, BridgeError>(e),
            },
    {
        let (ri, j) = match self.resolve_file(token) {
            Ok(p) => p,
            Err(e) => return Err(e),
        };
        match &self.repos[ri] {
            Some(store) => Ok(store.data.entries[j].curr_version),
            None => Err(BridgeError::NotFound),
        }
    }

    /// Queries the version history of an open file, oldest first, each
    /// version marshalled into its value object.
    pub fn file_history(&self, token: usize) -> (r: Result<Vec<Version>, BridgeError>)
        requires
            self.wf(),
        ensures
            match resolve_file_spec(*self, token) {
                Ok(he) => r matches Ok(vs) && vs@.len() == he.1.versions@.len() && forall|i: int|
                    0 <= i < vs@.len() ==> vs@[i] == spec_version_of(he.1.versions@[i]),
                Err(e) => r == Err::<Vec<Version>, BridgeError>(e),
            },
    {
        let (ri, j) = match self.resolve_file(token) {
            Ok(p) => p,
            Err(e) => return Err(e),
        };
        match &self.repos[ri] {
            Some(store) => Ok(marshal_versions(&store.data.entries[j].versions)),
            None => Err(BridgeError::NotFound),
        }
    }

    /// Reads from the file's cursor into the caller's buffer: copies up to
    /// the buffer's length, advances the cursor by the count copied, and
    /// returns that count; zero means end of stream.
    pub fn file_read(&mut self, token: usize, dst: &mut Vec<u8>) -> (r: Result<usize, BridgeError>)
        requires
            old(self).wf(),
        ensures
            final(self).wf(),
            final(self).repos == old(self).repos,
            match resolve_file_spec(*old(self), token) {
                Ok(he) => {
                    if !he.0.read {
                        r == Err::<usize, BridgeError>(BridgeError::CannotRead) && *final(self)
                            == *old(self) && *final(dst) == *old(dst)
                    } else {
                        let n = spec_min(
                            old(dst)@.len() as int,
                            spec_avail(he.1.content@.len(), he.0.pos) as int,
                        );
                        &&& r == Ok::<usize, BridgeError>(n as usize)
                        &&& buf_filled(old(dst)@, final(dst)@, he.1.content@, he.0.pos as int, 0, n)
                        &&& final(self).table.slots@ == old(self).table.slots@.update(
                            token as int,
                            Some(
                                Resource::File(
                                    FileHandle { pos: (he.0.pos + n) as u64, ..he.0 },
                                ),
                            ),
                        )
                    }
                },
                Err(e) => r == Err::<usize, BridgeError>(e) && *final(self) == *old(self)
                    && *final(dst) == *old(dst),
            },
    {
        let (ri, j) = match self.resolve_file(token) {
            Ok(p) => p,
            Err(e) => return Err(e),
        };
        let (pos0, can_read) = match &self.table.slots[token] {
            Some(Resource::File(h)) => (h.pos, h.read),
            _ => (0, false),
        };
        if !can_read {
            return Err(BridgeError::CannotRead);
        }
        let mut p = pos0;
        let n = match &self.repos[ri] {
            Some(store) => stream_read_into(&store.data.entries[j].content, &mut p, dst, 0),
            None => 0,
        };
        self.set_file_pos(token, p);
        Ok(n)
    }

    /// Reads everything between the file's cursor and the end of its
    /// content, by the two-phase protocol: measure and allocate, then loop
    /// reading until a read returns zero, and size the buffer to what was
    /// transferred.  The cursor ends at the end of the content.
    pub fn file_read_all(&mut self, token: usize) -> (r: Result<Vec<u8>, BridgeError>)
        requires
            old(self).wf(),
        ensures
            final(self).wf(),
            final(self).repos == old(self).repos,
            match resolve_file_spec(*old(self), token) {
                Ok(he) => {
                    if !he.0.read {
                        r == Err::<Vec<u8>, BridgeError>(BridgeError::CannotRead) && *final(self)
                            == *old(self)
                    } else {
                        let len = he.1.content@.len() as int;
                        let newpos = if he.0.pos <= len {
                            len
                        } else {
                            he.0.pos as int
                        };
                        &&& r matches Ok(out)
                        &&& (he.0.pos <= len ==> out@ == he.1.content@.subrange(
                            he.0.pos as int,
                            len,
                        ))
                        &&& (he.0.pos > len ==> out@.len() == 0)
                        &&& final(self).table.slots@ == old(self).table.slots@.update(
                            token as int,
                            Some(Resource::File(FileHandle { pos: newpos as u64, ..he.0 })),
                        )
                    }
                },
                Err(e) => r == Err::<Vec<u8>, BridgeError>(e) && *final(self) == *old(self),
            },
    {
        let (ri, j) = match self.resolve_file(token) {
            Ok(p) => p,
            Err(e) => return Err(e),
        };
        let (pos0, can_read) = match &self.table.slots[token] {
            Some(Resource::File(h)) => (h.pos, h.read),
            _ => (0, false),
        };
        if !can_read {
            return Err(BridgeError::CannotRead);
        }
        let mut p = pos0;
        let out = match &self.repos[ri] {
            Some(store) => stream_read_all(&store.data.entries[j].content, &mut p),
            None => Vec::new(),
        };
        self.set_file_pos(token, p);
        Ok(out)
    }

    /// Repositions the file's cursor from a numeric offset and a symbolic
    /// origin code, and returns the new absolute position; a position that
    /// would fall outside the representable range is rejected and nothing
    /// moves.
    pub fn file_seek(&mut self, token: usize, offset: i64, whence: i32) -> (r: Result<
        u64,
        BridgeError,
    >)
        requires
            old(self).wf(),
            0 <= whence <= 2,
        ensures
            final(self).wf(),
            final(self).repos == old(self).repos,
            match resolve_file_spec(*old(self), token) {
                Ok(he) => {
                    match spec_seek(
                        he.1.content@.len() as u64,
                        he.0.pos,
                        spec_to_seek(offset, whence),
                    ) {
                        Some(np) => r == Ok::<u64, BridgeError>(np) && final(self).table.slots@
                            == old(self).table.slots@.update(
                            token as int,
                            Some(Resource::File(FileHandle { pos: np, ..he.0 })),
                        ),
                        None => r == Err::<u64, BridgeError>(BridgeError::InvalidArgument)
                            && *final(self) == *old(self),
                    }
                },
                Err(e) => r == Err::<u64, BridgeError>(e) && *final(self) == *old(self),
            },
    {
        let (ri, j) = match self.resolve_file(token) {
            Ok(p) => p,
            Err(e) => return Err(e),
        };
        let pos0 = match &self.table.slots[token] {
            Some(Resource::File(h)) => h.pos,
            _ => 0,
        };
        let len = match &self.repos[ri] {
            Some(store) => store.data.entries[j].content.len(),
            None => 0,
        };
        let spec = to_seek_from(offset, whence);
        match resolve_seek(len as u64, pos0, spec) {
            Some(np) => {
                self.set_file_pos(token, np);
                Ok(np)
            },
            None => Err(BridgeError::InvalidArgument),
        }
    }

    /// Writes the caller's buffer at the file's cursor, growing the content
    /// as needed, and advances the cursor past what was written; returns
    /// the count consumed.  The write lands in the working content; it
    /// becomes a durable version only when the file is finished.
    pub fn file_write(&mut self, token: usize, src: &Vec<u8>) -> (r: Result<usize, BridgeError>)
        requires
            old(self).wf(),
        ensures
            final(self).wf(),
            match resolve_file_spec(*old(self), token) {
                Ok(he) => {
                    if !he.0.write {
                        r == Err::<usize, BridgeError>(BridgeError::CannotWrite) && *final(self)
                            == *old(self)
                    } else if he.0.pos + src@.len() > usize::MAX {
                        r == Err::<usize, BridgeError>(BridgeError::InvalidArgument) && *final(self)
                            == *old(self)
                    } else {
                        &&& r == Ok::<usize, BridgeError>(src@.len() as usize)
                        &&& crate::open_ops::repos_with_entries(
                            old(self).repos@,
                            final(self).repos@,
                            he.0.repo_idx,
                            final(self).repos@[he.0.repo_idx as int]->0.data.entries@,
                        )
                        &&& entries_rewritten(
                            old(self).repos@[he.0.repo_idx as int]->0.data.entries@,
                            final(self).repos@[he.0.repo_idx as int]->0.data.entries@,
                            he.0.path@,
                            spec_written(he.1.content@, he.0.pos as nat, src@),
                        )
                        &&& final(self).table.slots@ == old(self).table.slots@.update(
                            token as int,
                            Some(
                                Resource::File(
                                    FileHandle { pos: (he.0.pos + src@.len()) as u64, ..he.0 },
                                ),
                            ),
                        )
                    }
                },
                Err(e) => r == Err::<usize, BridgeError>(e) && *final(self) == *old(self),
            },
    {
        let (ri, j) = match self.resolve_file(token) {
            Ok(p) => p,
            Err(e) => return Err(e),
        };
        let (pos0, can_write) = match &self.table.slots[token] {
            Some(Resource::File(h)) => (h.pos, h.write),
            _ => (0, false),
        };
        if !can_write {
            return Err(BridgeError::CannotWrite);
        }
        if pos0 > usize::MAX as u64 {
            return Err(BridgeError::InvalidArgument);
        }
        if src.len() > usize::MAX - (pos0 as usize) {
            return Err(BridgeError::InvalidArgument);
        }
        let ghost entries0 = self.repos@[ri as int]->0.data.entries@;
        let mut p = pos0;
        let n = match &mut self.repos[ri] {
            Some(store) => {
                let e = &mut store.data.entries[j];
                match stream_write(&mut e.content, &mut p, src) {
                    Ok(n) => n,
                    Err(_) => 0,
                }
            },
            None => 0,
        };
        proof {
            lemma_update_entry(entries0, j as int, self.repos@[ri as int]->0.data.entries@[j as int]);
            lemma_update_repo(old(self).repos@, ri as int, self.repos@[ri as int]);
        }
        self.set_file_pos(token, p);
        Ok(n)
    }
}

/// The second entry sequence is the first with the entry under `path`
/// carrying new working content; everything else, the entry's version
/// chain and stamps included, is untouched.
pub open spec fn entries_rewritten(
    entries0: Seq<Entry>,
    entries1: Seq<Entry>,
    path: Seq<char>,
    content: Seq<u8>,
) -> bool {
    &&& entries1.len() == entries0.len()
    &&& forall|j: int|
        0 <= j < entries0.len() && entries0[j].path@ != path ==> entries1[j] == entries0[j]
    &&& forall|j: int|
        0 <= j < entries0.len() && entries0[j].path@ == path ==> {
            let e0 = entries0[j];
            let e1 = #[trigger] entries1[j];
            &&& e1.path == e0.path
            &&& e1.kind == e0.kind
            &&& e1.content@ == content
            &&& e1.curr_version == e0.curr_version
            &&& e1.versions == e0.versions
            &&& e1.created_at == e0.created_at
            &&& e1.modified_at == e0.modified_at
        }
}

/// A content sequence resized to `n` bytes: truncated, or zero-padded at
/// the end.
pub open spec fn spec_resized(c: Seq<u8>, n: nat) -> Seq<u8> {
    Seq::new(
        n,
        |i: int|
            if i < c.len() {
                c[i]
            } else {
                0u8
            },
    )
}

/// The second entry is the first with `data` committed: the working
/// content is `data`, the version counter advanced by one, and one version
/// holding `data` appended to the chain with the commit time.
pub open spec fn entry_committed(e0: Entry, e1: Entry, data: Seq<u8>, now_secs: i64) -> bool {
    &&& e1.path == e0.path
    &&& e1.kind == e0.kind
    &&& e1.content@ == data
    &&& e1.curr_version == e0.curr_version + 1
    &&& e1.versions@.len() == e0.versions@.len() + 1
    &&& forall|k: int| 0 <= k < e0.versions@.len() ==> e1.versions@[k] == e0.versions@[k]
    &&& e1.versions@.last().num == e0.curr_version + 1
    &&& e1.versions@.last().content@ == data
    &&& e1.versions@.last().created_at == now_secs
    &&& e1.created_at == e0.created_at
    &&& e1.modified_at == now_secs
}

/// The second entry sequence is the first with `data` committed to the
/// entry under `path`, every other entry untouched.
pub open spec fn entries_committed(
    entries0: Seq<Entry>,
    entries1: Seq<Entry>,
    path: Seq<char>,
    data: Seq<u8>,
    now_secs: i64,
) -> bool {
    &&& entries1.len() == entries0.len()
    &&& forall|j: int|
        0 <= j < entries0.len() && entries0[j].path@ != path ==> entries1[j] == entries0[j]
    &&& forall|j: int|
        0 <= j < entries0.len() && entries0[j].path@ == path ==> entry_committed(
            entries0[j],
            #[trigger] entries1[j],
            data,
            now_secs,
        )
}

impl Bridge {
    /// Commits the file's working content as a new version: the version
    /// counter advances by one and a snapshot of the content joins the
    /// chain.  Pending writes become durable only here.
    pub fn file_finish(&mut self, token: usize, now: Timestamp) -> (r: Result<(), BridgeError>)
        requires
            old(self).wf(),
            now.secs <= i64::MAX,
        ensures
            final(self).wf(),
            final(self).table.slots@ == old(self).table.slots@,
            match resolve_file_spec(*old(self), token) {
                Ok(he) => {
                    if !he.0.write {
                        r == Err::<(), BridgeError>(BridgeError::CannotWrite) && *final(self)
                            == *old(self)
                    } else if he.1.curr_version == u64::MAX {
                        r == Err::<(), BridgeError>(BridgeError::InvalidArgument) && *final(self)
                            == *old(self)
                    } else {
                        &&& r == Ok::<(), BridgeError>(())
                        &&& crate::open_ops::repos_with_entries(
                            old(self).repos@,
                            final(self).repos@,
                            he.0.repo_idx,
                            final(self).repos@[he.0.repo_idx as int]->0.data.entries@,
                        )
                        &&& entries_committed(
                            old(self).repos@[he.0.repo_idx as int]->0.data.entries@,
                            final(self).repos@[he.0.repo_idx as int]->0.data.entries@,
                            he.0.path@,
                            he.1.content@,
                            now.secs as i64,
                        )
                    }
                },
                Err(e) => r == Err::<(), BridgeError>(e) && *final(self) == *old(self),
            },
    {
        let (ri, j) = match self.resolve_file(token) {
            Ok(p) => p,
            Err(e) => return Err(e),
        };
        let can_write = match &self.table.slots[token] {
            Some(Resource::File(h)) => h.write,
            _ => false,
        };
        if !can_write {
            return Err(BridgeError::CannotWrite);
        }
        let cv = match &self.repos[ri] {
            Some(store) => store.data.entries[j].curr_version,
            None => 0,
        };
        if cv == u64::MAX {
            return Err(BridgeError::InvalidArgument);
        }
        let now_secs = crate::time_to_secs(now);
        let ghost entries0 = self.repos@[ri as int]->0.data.entries@;
        match &mut self.repos[ri] {
            Some(store) => {
                let e = &mut store.data.entries[j];
                let snapshot = vstd::slice::slice_to_vec(e.content.as_slice());
                e.curr_version = cv + 1;
                e.versions.push(VersionData { num: cv + 1, content: snapshot, created_at: now_secs });
                e.modified_at = now_secs;
            },
            None => {},
        }
        proof {
            lemma_update_entry(entries0, j as int, self.repos@[ri as int]->0.data.entries@[j as int]);
            lemma_update_repo(old(self).repos@, ri as int, self.repos@[ri as int]);
        }
        Ok(())
    }

    /// Replaces the file's whole content in one atomic write and commits
    /// it as a new version; the cursor ends past what was written.  This
    /// is the single-part variant for files not opened for incremental
    /// writing.
    pub fn file_write_once(&mut self, token: usize, src: &Vec<u8>, now: Timestamp) -> (r: Result<
        (),
        BridgeError,
    >)
        requires
            old(self).wf(),
            now.secs <= i64::MAX,
        ensures
            final(self).wf(),
            match resolve_file_spec(*old(self), token) {
                Ok(he) => {
                    if !he.0.write {
                        r == Err::<(), BridgeError>(BridgeError::CannotWrite) && *final(self)
                            == *old(self)
                    } else if he.1.curr_version == u64::MAX {
                        r == Err::<(), BridgeError>(BridgeError::InvalidArgument) && *final(self)
                            == *old(self)
                    } else {
                        &&& r == Ok::<(), BridgeError>(())
                        &&& crate::open_ops::repos_with_entries(
                            old(self).repos@,
                            final(self).repos@,
                            he.0.repo_idx,
                            final(self).repos@[he.0.repo_idx as int]->0.data.entries@,
                        )
                        &&& entries_committed(
                            old(self).repos@[he.0.repo_idx as int]->0.data.entries@,
                            final(self).repos@[he.0.repo_idx as int]->0.data.entries@,
                            he.0.path@,
                            src@,
                            now.secs as i64,
                        )
                        &&& final(self).table.slots@ == old(self).table.slots@.update(
                            token as int,
                            Some(
                                Resource::File(
                                    FileHandle { pos: src@.len() as u64, ..he.0 },
                                ),
                            ),
                        )
                    }
                },
                Err(e) => r == Err::<(), BridgeError>(e) && *final(self) == *old(self),
            },
    {
        let (ri, j) = match self.resolve_file(token) {
            Ok(p) => p,
            Err(e) => return Err(e),
        };
        let can_write = match &self.table.slots[token] {
            Some(Resource::File(h)) => h.write,
            _ => false,
        };
        if !can_write {
            return Err(BridgeError::CannotWrite);
        }
        let cv = match &self.repos[ri] {
            Some(store) => store.data.entries[j].curr_version,
            None => 0,
        };
        if cv == u64::MAX {
            return Err(BridgeError::InvalidArgument);
        }
        let now_secs = crate::time_to_secs(now);
        let ghost entries0 = self.repos@[ri as int]->0.data.entries@;
        match &mut self.repos[ri] {
            Some(store) => {
                let e = &mut store.data.entries[j];
                e.content = vstd::slice::slice_to_vec(src.as_slice());
                let snapshot = vstd::slice::slice_to_vec(src.as_slice());
                e.curr_version = cv + 1;
                e.versions.push(VersionData { num: cv + 1, content: snapshot, created_at: now_secs });
                e.modified_at = now_secs;
            },
            None => {},
        }
        proof {
            lemma_update_entry(entries0, j as int, self.repos@[ri as int]->0.data.entries@[j as int]);
            lemma_update_repo(old(self).repos@, ri as int, self.repos@[ri as int]);
        }
        self.set_file_pos(token, src.len() as u64);
        Ok(())
    }

    /// Resizes the file's working content: truncates it, or zero-pads it
    /// at the end.  The cursor does not move; the resize becomes durable
    /// at the next commit.
    pub fn file_set_len(&mut self, token: usize, len: u64, now: Timestamp) -> (r: Result<
        (),
        BridgeError,
    >)
        requires
            old(self).wf(),
            now.secs <= i64::MAX,
        ensures
            final(self).wf(),
            final(self).table.slots@ == old(self).table.slots@,
            match resolve_file_spec(*old(self), token) {
                Ok(he) => {
                    if !he.0.write {
                        r == Err::<(), BridgeError>(BridgeError::CannotWrite) && *final(self)
                            == *old(self)
                    } else if len > usize::MAX {
                        r == Err::<(), BridgeError>(BridgeError::InvalidArgument) && *final(self)
                            == *old(self)
                    } else {
                        &&& r == Ok::<(), BridgeError>(())
                        &&& crate::open_ops::repos_with_entries(
                            old(self).repos@,
                            final(self).repos@,
                            he.0.repo_idx,
                            final(self).repos@[he.0.repo_idx as int]->0.data.entries@,
                        )
                        &&& crate::open_ops::entries_with_content(
                            old(self).repos@[he.0.repo_idx as int]->0.data.entries@,
                            final(self).repos@[he.0.repo_idx as int]->0.data.entries@,
                            he.0.path@,
                            spec_resized(he.1.content@, len as nat),
                            now.secs as i64,
                        )
                    }
                },
                Err(e) => r == Err::<(), BridgeError>(e) && *final(self) == *old(self),
            },
    {
        let (ri, j) = match self.resolve_file(token) {
            Ok(p) => p,
            Err(e) => return Err(e),
        };
        let can_write = match &self.table.slots[token] {
            Some(Resource::File(h)) => h.write,
            _ => false,
        };
        if !can_write {
            return Err(BridgeError::CannotWrite);
        }
        if len > usize::MAX as u64 {
            return Err(BridgeError::InvalidArgument);
        }
        let target = len as usize;
        let now_secs = crate::time_to_secs(now);
        let ghost entries0 = self.repos@[ri as int]->0.data.entries@;
        let resized: Vec<u8> = match &self.repos[ri] {
            Some(store) => resize_copy(&store.data.entries[j].content, target),
            None => Vec::new(),
        };
        match &mut self.repos[ri] {
            Some(store) => {
                let e = &mut store.data.entries[j];
                e.content = resized;
                e.modified_at = now_secs;
            },
            None => {},
        }
        proof {
            lemma_update_entry(entries0, j as int, self.repos@[ri as int]->0.data.entries@[j as int]);
            lemma_update_repo(old(self).repos@, ri as int, self.repos@[ri as int]);
        }
        Ok(())
    }
}

/// Copies a content buffer at a new size: truncated, or zero-padded at
/// the end.
fn resize_copy(c: &Vec<u8>, n: usize) -> (r: Vec<u8>)
    ensures
        r@ == spec_resized(c@, n as nat),
{
    let mut r: Vec<u8> = Vec::new();
    let mut i: usize = 0;
    while i < n
        invariant
            i <= n,
            r@.len() == i,
            forall|k: int| 0 <= k < i ==> r@[k] == spec_resized(c@, n as nat)[k],
        decreases n - i,
    {
        let b = if i < c.len() {
            c[i]
        } else {
            0
        };
        r.push(b);
        i += 1;
    }
    proof {
        assert(r@ =~= spec_resized(c@, n as nat));
    }
    r
}

/// Marshals a version chain into its value objects, oldest first.
pub(crate) fn marshal_versions(vs: &Vec<VersionData>) -> (r: Vec<Version>)
    ensures
        r@.len() == vs@.len(),
        forall|i: int| 0 <= i < vs@.len() ==> r@[i] == spec_version_of(vs@[i]),
{
    let mut r: Vec<Version> = Vec::new();
    let n = vs.len();
    let mut i: usize = 0;
    while i < n
        invariant
            i <= n,
            n == vs@.len(),
            r@.len() == i,
            forall|k: int| 0 <= k < i ==> r@[k] == spec_version_of(vs@[k]),
        decreases n - i,
    {
        let v = &vs[i];
        r.push(Version { num: v.num, content_len: v.content.len() as u64, created_at: v.created_at });
        i += 1;
    }
    r
}

} // verus!
