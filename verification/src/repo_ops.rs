//! Operations on an open repository: existence and kind queries, the
//! marshalled summary, password maintenance, and entry creation and
//! removal at rooted paths.

use vstd::prelude::*;
use crate::bridge::{has_repo, is_repo_at, lemma_update_repo, slot_wf, Bridge};
use crate::error::BridgeError;
use crate::file_ops::{spec_metadata_of, spec_version_of};
use crate::paths::{path_is_rooted, spec_path_rooted};
use crate::store::{
    entry_of, has_entry, lemma_entry_at, lemma_push_entry, paths_unique, Entry, RepoStore,
};
use crate::table::{slot_of, RepoHandle, Resource};
use crate::values::{FileKind, Metadata, MemLimit, OpsLimit, RepoInfo, Timestamp, Version};

verus! {

/// The format version string an opened repository reports.
pub open spec fn spec_format_version() -> Seq<char> {
    "0.1.0"@
}

/// Returns the format version string an opened repository reports.
pub fn format_version() -> (r: &'static str)
    ensures
        r@ == spec_format_version(),
{
    "0.1.0"
}

/// Resolving a repository token: the handle and the store it addresses, or
/// the error the operation reports instead.
pub open spec fn resolve_repo_spec(b: Bridge, token: usize) -> Result<
    (RepoHandle, RepoStore),
    BridgeError,
> {
    match slot_of(b.table.slots@, token) {
        Some(Resource::Repository(h)) => {
            if h.repo_idx >= b.repos@.len() || b.repos@[h.repo_idx as int] is None {
                Err(BridgeError::NotFound)
            } else {
                Ok((h, b.repos@[h.repo_idx as int]->0))
            }
        },
        Some(_) => Err(BridgeError::WrongResourceKind),
        None => Err(BridgeError::NoResourceAttached),
    }
}

/// The metadata reported for the store's root directory, which always
/// exists and carries the repository's creation time.
pub open spec fn spec_root_metadata(s: RepoStore) -> Metadata {
    Metadata {
        kind: FileKind::Dir,
        content_len: 0,
        curr_version: 0,
        created_at: s.data.created_at,
        modified_at: s.data.created_at,
    }
}

impl Bridge {
    /// Finds the repository cell a repository token addresses.
    pub(crate) fn resolve_repo(&self, token: usize) -> (r: Result<usize, BridgeError>)
        requires
            self.wf(),
        ensures
            match r {
                Ok(ri) => resolve_repo_spec(*self, token) matches Ok(hs) && hs.0.repo_idx == ri
                    && ri < self.repos@.len() && self.repos@[ri as int] == Some(hs.1),
                Err(e) => resolve_repo_spec(*self, token) == Err::<
                    (RepoHandle, RepoStore),
                    BridgeError,
                >(e),
            },
    {
        let h = match self.get_repo(token) {
            Ok(h) => h,
            Err(e) => return Err(e),
        };
        proof {
            assert(slot_wf(self.repos@.len() as int, self.table.slots@[token as int]));
        }
        match &self.repos[h.repo_idx] {
            Some(_) => Ok(h.repo_idx),
            None => Err(BridgeError::NotFound),
        }
    }

    /// Reports whether a repository exists at the given location.
    pub fn repo_exists(&self, uri: &str) -> (r: bool)
        ensures
            r == has_repo(self.repos@, uri@),
    {
        match self.find_repo(uri) {
            Some(i) => {
                proof {
                    assert(is_repo_at(self.repos@[i as int], uri@));
                }
                true
            },
            None => false,
        }
    }

    /// Marshals the summary of an open repository: its identity, settings,
    /// whether this opening is read-only, and its creation time.
    pub fn repo_info(&self, token: usize) -> (r: Result<RepoInfo, BridgeError>)
        requires
            self.wf(),
        ensures
            match resolve_repo_spec(*self, token) {
                Ok(hs) => r matches Ok(info) && info.volume_id@ == hs.1.data.volume_id@
                    && info.version@ == spec_format_version() && info.uri@ == hs.1.uri@
                    && info.ops_limit == hs.1.data.ops_limit && info.mem_limit
                    == hs.1.data.mem_limit && info.cipher == hs.1.data.cipher && info.compress
                    == hs.1.data.compress && info.version_limit == hs.1.data.version_limit
                    && info.dedup_chunk == hs.1.data.dedup_chunk && info.read_only
                    == hs.0.read_only && info.created_at == hs.1.data.created_at,
                Err(e) => r == Err::<RepoInfo, BridgeError>(e),
            },
    {
        let h = match self.get_repo(token) {
            Ok(h) => h,
            Err(e) => return Err(e),
        };
        proof {
            assert(slot_wf(self.repos@.len() as int, self.table.slots@[token as int]));
        }
        match &self.repos[h.repo_idx] {
            Some(store) => Ok(
                RepoInfo {
                    volume_id: vstd::slice::slice_to_vec(store.data.volume_id.as_slice()),
                    version: String::from_str(format_version()),
                    uri: store.uri.clone(),
                    ops_limit: store.data.ops_limit,
                    mem_limit: store.data.mem_limit,
                    cipher: store.data.cipher,
                    compress: store.data.compress,
                    version_limit: store.data.version_limit,
                    dedup_chunk: store.data.dedup_chunk,
                    read_only: h.read_only,
                    created_at: store.data.created_at,
                },
            ),
            None => Err(BridgeError::NotFound),
        }
    }

    /// Changes the password and key-derivation cost of an open repository,
    /// after checking the old password.
    pub fn repo_reset_password(
        &mut self,
        token: usize,
        old_pwd: &str,
        new_pwd: &str,
        ops_limit: OpsLimit,
        mem_limit: MemLimit,
    ) -> (r: Result<(), BridgeError>)
        requires
            old(self).wf(),
        ensures
            final(self).wf(),
            final(self).table.slots@ == old(self).table.slots@,
            match resolve_repo_spec(*old(self), token) {
                Ok(hs) => {
                    if hs.0.read_only {
                        r == Err::<(), BridgeError>(BridgeError::ReadOnly)
                            && *final(self) == *old(self)
                    } else if hs.1.password@ != old_pwd@ {
                        r == Err::<(), BridgeError>(BridgeError::InvalidPassword) && *final(self)
                            == *old(self)
                    } else {
                        &&& r == Ok::<(), BridgeError>(())
                        &&& final(self).repos@.len() == old(self).repos@.len()
                        &&& forall|i: int|
                            0 <= i < old(self).repos@.len() && i != hs.0.repo_idx
                                ==> final(self).repos@[i] == old(self).repos@[i]
                        &&& final(self).repos@[hs.0.repo_idx as int] matches Some(ns)
                            && ns.uri == hs.1.uri && ns.password@ == new_pwd@ && ns.data.entries
                            == hs.1.data.entries && ns.data.volume_id == hs.1.data.volume_id
                            && ns.data.ops_limit == ops_limit && ns.data.mem_limit == mem_limit
                            && ns.data.cipher == hs.1.data.cipher && ns.data.compress
                            == hs.1.data.compress && ns.data.version_limit
                            == hs.1.data.version_limit && ns.data.dedup_chunk
                            == hs.1.data.dedup_chunk && ns.data.created_at
                            == hs.1.data.created_at
                    }
                },
                Err(e) => r == Err::<(), BridgeError>(e) && *final(self) == *old(self),
            },
    {
        let ri = match self.resolve_repo(token) {
            Ok(ri) => ri,
            Err(e) => return Err(e),
        };
        let h = match self.get_repo(token) {
            Ok(h) => h,
            Err(e) => return Err(e),
        };
        if h.read_only {
            return Err(BridgeError::ReadOnly);
        }
        let pwd_ok = match &self.repos[h.repo_idx] {
            Some(store) => crate::values::str_eq(store.password.as_str(), old_pwd),
            None => {
                return Err(BridgeError::NotFound);
            },
        };
        if !pwd_ok {
            return Err(BridgeError::InvalidPassword);
        }
        match &mut self.repos[h.repo_idx] {
            Some(store) => {
                store.password = String::from_str(new_pwd);
                store.data.ops_limit = ops_limit;
                store.data.mem_limit = mem_limit;
            },
            None => {},
        }
        proof {
            lemma_update_repo(old(self).repos@, h.repo_idx as int, self.repos@[h.repo_idx as int]);
        }
        Ok(())
    }

    /// Checks that a repository's super block can be repaired at its
    /// location: the repository must be there and the password must open
    /// it.
    pub fn repo_repair_super_block(&self, uri: &str, pwd: &str) -> (r: Result<(), BridgeError>)
        requires
            self.wf(),
        ensures
            if !has_repo(self.repos@, uri@) {
                r == Err::<(), BridgeError>(BridgeError::NotFound)
            } else if self.repos@[crate::bridge::repo_idx_of(self.repos@, uri@)]->0.password@
                != pwd@ {
                r == Err::<(), BridgeError>(BridgeError::InvalidPassword)
            } else {
                r is Ok
            },
    {
        match self.find_repo(uri) {
            Some(i) => {
                let pwd_ok = match &self.repos[i] {
                    Some(store) => crate::values::str_eq(store.password.as_str(), pwd),
                    None => false,
                };
                proof {
                    crate::bridge::lemma_repo_at(self.repos@, i as int);
                }
                if pwd_ok {
                    Ok(())
                } else {
                    Err(BridgeError::InvalidPassword)
                }
            },
            None => Err(BridgeError::NotFound),
        }
    }

    /// Reports whether a rooted path names anything in the repository; the
    /// root itself always exists.
    pub fn repo_path_exists(&self, token: usize, path: &str) -> (r: Result<bool, BridgeError>)
        requires
            self.wf(),
        ensures
            match resolve_repo_spec(*self, token) {
                Ok(hs) => {
                    if !spec_path_rooted(path@) {
                        r == Err::<bool, BridgeError>(BridgeError::InvalidPath)
                    } else {
                        r == Ok::<bool, BridgeError>(
                            path@ == seq!['/'] || has_entry(hs.1.data.entries@, path@),
                        )
                    }
                },
                Err(e) => r == Err::<bool, BridgeError>(e),
            },
    {
        let ri = match self.resolve_repo(token) {
            Ok(ri) => ri,
            Err(e) => return Err(e),
        };
        if !path_is_rooted(path) {
            return Err(BridgeError::InvalidPath);
        }
        if path.unicode_len() == 1 {
            proof {
                assert(path@ =~= seq!['/']);
            }
            return Ok(true);
        }
        match &self.repos[ri] {
            Some(store) => {
                match crate::store::find_entry(&store.data.entries, path) {
                    Some(j) => {
                        proof {
                            assert(has_entry(store.data.entries@, path@));
                        }
                        Ok(true)
                    },
                    None => Ok(false),
                }
            },
            None => Err(BridgeError::NotFound),
        }
    }

    /// Reports whether a rooted path names a file.
    pub fn repo_is_file(&self, token: usize, path: &str) -> (r: Result<bool, BridgeError>)
        requires
            self.wf(),
        ensures
            match resolve_repo_spec(*self, token) {
                Ok(hs) => {
                    if !spec_path_rooted(path@) {
                        r == Err::<bool, BridgeError>(BridgeError::InvalidPath)
                    } else {
                        r == Ok::<bool, BridgeError>(
                            path@ != seq!['/'] && has_entry(hs.1.data.entries@, path@)
                                && entry_of(hs.1.data.entries@, path@).kind == FileKind::File,
                        )
                    }
                },
                Err(e) => r == Err::<bool, BridgeError>(e),
            },
    {
        let ri = match self.resolve_repo(token) {
            Ok(ri) => ri,
            Err(e) => return Err(e),
        };
        if !path_is_rooted(path) {
            return Err(BridgeError::InvalidPath);
        }
        if path.unicode_len() == 1 {
            proof {
                assert(path@ =~= seq!['/']);
            }
            return Ok(false);
        }
        match &self.repos[ri] {
            Some(store) => {
                proof {
                    assert(self.repos@[ri as int] matches Some(st) ==> paths_unique(
                        st.data.entries@,
                    ));
                }
                match crate::store::find_entry(&store.data.entries, path) {
                    Some(j) => {
                        proof {
                            lemma_entry_at(store.data.entries@, j as int);
                        }
                        match store.data.entries[j].kind {
                            FileKind::File => Ok(true),
                            FileKind::Dir => Ok(false),
                        }
                    },
                    None => Ok(false),
                }
            },
            None => Err(BridgeError::NotFound),
        }
    }

    /// Reports whether a rooted path names a directory; the root is one.
    pub fn repo_is_dir(&self, token: usize, path: &str) -> (r: Result<bool, BridgeError>)
        requires
            self.wf(),
        ensures
            match resolve_repo_spec(*self, token) {
                Ok(hs) => {
                    if !spec_path_rooted(path@) {
                        r == Err::<bool, BridgeError>(BridgeError::InvalidPath)
                    } else {
                        r == Ok::<bool, BridgeError>(
                            path@ == seq!['/'] || (has_entry(hs.1.data.entries@, path@)
                                && entry_of(hs.1.data.entries@, path@).kind == FileKind::Dir),
                        )
                    }
                },
                Err(e) => r == Err::<bool, BridgeError>(e),
            },
    {
        let ri = match self.resolve_repo(token) {
            Ok(ri) => ri,
            Err(e) => return Err(e),
        };
        if !path_is_rooted(path) {
            return Err(BridgeError::InvalidPath);
        }
        if path.unicode_len() == 1 {
            proof {
                assert(path@ =~= seq!['/']);
            }
            return Ok(true);
        }
        match &self.repos[ri] {
            Some(store) => {
                proof {
                    assert(self.repos@[ri as int] matches Some(st) ==> paths_unique(
                        st.data.entries@,
                    ));
                }
                match crate::store::find_entry(&store.data.entries, path) {
                    Some(j) => {
                        proof {
                            lemma_entry_at(store.data.entries@, j as int);
                        }
                        match store.data.entries[j].kind {
                            FileKind::Dir => Ok(true),
                            FileKind::File => Ok(false),
                        }
                    },
                    None => Ok(false),
                }
            },
            None => Err(BridgeError::NotFound),
        }
    }

    /// Queries the metadata of whatever a rooted path names.
    pub fn repo_metadata(&self, token: usize, path: &str) -> (r: Result<Metadata, BridgeError>)
        requires
            self.wf(),
        ensures
            match resolve_repo_spec(*self, token) {
                Ok(hs) => {
                    if !spec_path_rooted(path@) {
                        r == Err::<Metadata, BridgeError>(BridgeError::InvalidPath)
                    } else if path@ == seq!['/'] {
                        r == Ok::<Metadata, BridgeError>(spec_root_metadata(hs.1))
                    } else if has_entry(hs.1.data.entries@, path@) {
                        r == Ok::<Metadata, BridgeError>(
                            spec_metadata_of(entry_of(hs.1.data.entries@, path@)),
                        )
                    } else {
                        r == Err::<Metadata, BridgeError>(BridgeError::NotFound)
                    }
                },
                Err(e) => r == Err::<Metadata, BridgeError>(e),
            },
    {
        let ri = match self.resolve_repo(token) {
            Ok(ri) => ri,
            Err(e) => return Err(e),
        };
        if !path_is_rooted(path) {
            return Err(BridgeError::InvalidPath);
        }
        match &self.repos[ri] {
            Some(store) => {
                if path.unicode_len() == 1 {
                    proof {
                        assert(path@ =~= seq!['/']);
                    }
                    return Ok(
                        Metadata {
                            kind: FileKind::Dir,
                            content_len: 0,
                            curr_version: 0,
                            created_at: store.data.created_at,
                            modified_at: store.data.created_at,
                        },
                    );
                }
                proof {
                    assert(self.repos@[ri as int] matches Some(st) ==> paths_unique(
                        st.data.entries@,
                    ));
                }
                match crate::store::find_entry(&store.data.entries, path) {
                    Some(j) => {
                        proof {
                            lemma_entry_at(store.data.entries@, j as int);
                        }
                        let e = &store.data.entries[j];
                        Ok(
                            Metadata {
                                kind: e.kind,
                                content_len: e.content.len() as u64,
                                curr_version: e.curr_version,
                                created_at: e.created_at,
                                modified_at: e.modified_at,
                            },
                        )
                    },
                    None => Err(BridgeError::NotFound),
                }
            },
            None => Err(BridgeError::NotFound),
        }
    }

    /// Queries the version history of the file a rooted path names, oldest
    /// first.
    pub fn repo_history(&self, token: usize, path: &str) -> (r: Result<Vec<Version>, BridgeError>)
        requires
            self.wf(),
        ensures
            match resolve_repo_spec(*self, token) {
                Ok(hs) => {
                    if !spec_path_rooted(path@) {
                        r == Err::<Vec<Version>, BridgeError>(BridgeError::InvalidPath)
                    } else if path@ == seq!['/'] {
                        r == Err::<Vec<Version>, BridgeError>(BridgeError::NotFile)
                    } else if !has_entry(hs.1.data.entries@, path@) {
                        r == Err::<Vec<Version>, BridgeError>(BridgeError::NotFound)
                    } else if entry_of(hs.1.data.entries@, path@).kind == FileKind::Dir {
                        r == Err::<Vec<Version>, BridgeError>(BridgeError::NotFile)
                    } else {
                        r matches Ok(vs) && vs@.len() == entry_of(
                            hs.1.data.entries@,
                            path@,
                        ).versions@.len() && forall|i: int|
                            0 <= i < vs@.len() ==> vs@[i] == spec_version_of(
                                entry_of(hs.1.data.entries@, path@).versions@[i],
                            )
                    }
                },
                Err(e) => r == Err::<Vec<Version>, BridgeError>(e),
            },
    {
        let ri = match self.resolve_repo(token) {
            Ok(ri) => ri,
            Err(e) => return Err(e),
        };
        if !path_is_rooted(path) {
            return Err(BridgeError::InvalidPath);
        }
        if path.unicode_len() == 1 {
            proof {
                assert(path@ =~= seq!['/']);
            }
            return Err(BridgeError::NotFile);
        }
        match &self.repos[ri] {
            Some(store) => {
                proof {
                    assert(self.repos@[ri as int] matches Some(st) ==> paths_unique(
                        st.data.entries@,
                    ));
                }
                match crate::store::find_entry(&store.data.entries, path) {
                    Some(j) => {
                        proof {
                            lemma_entry_at(store.data.entries@, j as int);
                        }
                        match store.data.entries[j].kind {
                            FileKind::Dir => Err(BridgeError::NotFile),
                            FileKind::File => Ok(
                                crate::file_ops::marshal_versions(&store.data.entries[j].versions),
                            ),
                        }
                    },
                    None => Err(BridgeError::NotFound),
                }
            },
            None => Err(BridgeError::NotFound),
        }
    }

    /// Creates a directory at a rooted path that names nothing yet.
    pub fn repo_create_dir(&mut self, token: usize, path: &str, now: Timestamp) -> (r: Result<
        (),
        BridgeError,
    >)
        requires
            old(self).wf(),
            now.secs <= i64::MAX,
        ensures
            final(self).wf(),
            final(self).table.slots@ == old(self).table.slots@,
            match resolve_repo_spec(*old(self), token) {
                Ok(hs) => {
                    if !spec_path_rooted(path@) {
                        r == Err::<(), BridgeError>(BridgeError::InvalidPath) && *final(self)
                            == *old(self)
                    } else if hs.0.read_only {
                        r == Err::<(), BridgeError>(BridgeError::ReadOnly)
                            && *final(self) == *old(self)
                    } else if path@ == seq!['/'] || has_entry(hs.1.data.entries@, path@) {
                        r == Err::<(), BridgeError>(BridgeError::AlreadyExists) && *final(self)
                            == *old(self)
                    } else {
                        &&& r == Ok::<(), BridgeError>(())
                        &&& crate::open_ops::repos_with_entries(
                            old(self).repos@,
                            final(self).repos@,
                            hs.0.repo_idx,
                            final(self).repos@[hs.0.repo_idx as int]->0.data.entries@,
                        )
                        &&& entries_plus_dir(
                            hs.1.data.entries@,
                            final(self).repos@[hs.0.repo_idx as int]->0.data.entries@,
                            path@,
                            now.secs as i64,
                        )
                    }
                },
                Err(e) => r == Err::<(), BridgeError>(e) && *final(self) == *old(self),
            },
    {
        let ri = match self.resolve_repo(token) {
            Ok(ri) => ri,
            Err(e) => return Err(e),
        };
        if !path_is_rooted(path) {
            return Err(BridgeError::InvalidPath);
        }
        let read_only = match self.get_repo(token) {
            Ok(h) => h.read_only,
            Err(e) => return Err(e),
        };
        if read_only {
            return Err(BridgeError::ReadOnly);
        }
        if path.unicode_len() == 1 {
            proof {
                assert(path@ =~= seq!['/']);
            }
            return Err(BridgeError::AlreadyExists);
        }
        let exists_already = match &self.repos[ri] {
            Some(store) => crate::store::find_entry(&store.data.entries, path).is_some(),
            None => {
                return Err(BridgeError::NotFound);
            },
        };
        if exists_already {
            proof {
                let entries = self.repos@[ri as int]->0.data.entries@;
                assert(has_entry(entries, path@));
            }
            return Err(BridgeError::AlreadyExists);
        }
        let now_secs = crate::time_to_secs(now);
        let e = Entry {
            path: String::from_str(path),
            kind: FileKind::Dir,
            content: Vec::new(),
            curr_version: 0,
            versions: Vec::new(),
            created_at: now_secs,
            modified_at: now_secs,
        };
        match &mut self.repos[ri] {
            Some(store) => {
                proof {
                    lemma_push_entry(store.data.entries@, e);
                }
                store.data.entries.push(e);
            },
            None => {},
        }
        proof {
            lemma_update_repo(old(self).repos@, ri as int, self.repos@[ri as int]);
        }
        Ok(())
    }
}

/// The second entry sequence is the first with one fresh directory entry
/// appended.
pub open spec fn entries_plus_dir(
    entries0: Seq<Entry>,
    entries1: Seq<Entry>,
    path: Seq<char>,
    now_secs: i64,
) -> bool {
    &&& entries1.len() == entries0.len() + 1
    &&& forall|j: int| 0 <= j < entries0.len() ==> entries1[j] == entries0[j]
    &&& {
        let e = entries1[entries0.len() as int];
        &&& e.path@ == path
        &&& e.kind == FileKind::Dir
        &&& e.content@.len() == 0
        &&& e.curr_version == 0
        &&& e.versions@.len() == 0
        &&& e.created_at == now_secs
        &&& e.modified_at == now_secs
    }
}

} // verus!
