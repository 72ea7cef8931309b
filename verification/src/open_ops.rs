//! The terminal open operations: an opener produces an open repository,
//! and file options produce an open file inside one.

use vstd::prelude::*;
use crate::bridge::{has_repo, lemma_push_repo, lemma_repo_at, repo_idx_of, slot_wf, Bridge};
use crate::error::BridgeError;
use crate::paths::spec_path_rooted;
use crate::store::{
    entry_of, has_entry, lemma_entry_at, lemma_push_entry, lemma_update_entry, paths_unique,
    Entry, RepoData, RepoStore,
};
use crate::table::{slot_of, FileHandle, OptionsCfg, RepoHandle, Resource};
use crate::values::{FileKind, Timestamp};

verus! {

/// The slots after an operation that binds one new file handle: one fresh
/// slot holding the handle, every earlier slot untouched.
pub open spec fn slots_plus_file(
    slots0: Seq<Option<Resource>>,
    slots1: Seq<Option<Resource>>,
    repo_idx: usize,
    path: Seq<char>,
    pos: u64,
    read: bool,
    write: bool,
) -> bool {
    &&& slots1.len() == slots0.len() + 1
    &&& forall|t: int| 0 <= t < slots0.len() ==> slots1[t] == slots0[t]
    &&& slots1[slots0.len() as int] matches Some(Resource::File(h)) && h.repo_idx == repo_idx
        && h.path@ == path && h.pos == pos && h.read == read && h.write == write
}

/// The two stores agree on everything but their entries.
pub open spec fn same_store_but_entries(s0: RepoStore, s1: RepoStore) -> bool {
    &&& s1.uri == s0.uri
    &&& s1.password == s0.password
    &&& s1.data.volume_id == s0.data.volume_id
    &&& s1.data.ops_limit == s0.data.ops_limit
    &&& s1.data.mem_limit == s0.data.mem_limit
    &&& s1.data.cipher == s0.data.cipher
    &&& s1.data.compress == s0.data.compress
    &&& s1.data.version_limit == s0.data.version_limit
    &&& s1.data.dedup_chunk == s0.data.dedup_chunk
    &&& s1.data.created_at == s0.data.created_at
}

/// The repositories after an operation that touches the entries of one
/// repository cell: that cell keeps its identity and settings, every other
/// cell is untouched.
pub open spec fn repos_with_entries(
    repos0: Seq<Option<RepoStore>>,
    repos1: Seq<Option<RepoStore>>,
    ri: usize,
    entries1: Seq<Entry>,
) -> bool {
    &&& repos1.len() == repos0.len()
    &&& forall|i: int| 0 <= i < repos0.len() && i != ri ==> repos1[i] == repos0[i]
    &&& ri < repos0.len()
    &&& repos0[ri as int] is Some
    &&& repos1[ri as int] is Some
    &&& same_store_but_entries(repos0[ri as int]->0, repos1[ri as int]->0)
    &&& repos1[ri as int]->0.data.entries@ == entries1
}

/// The second entry is the first with its working content replaced and its
/// modification time set.
pub open spec fn entry_with_content(e0: Entry, e1: Entry, content: Seq<u8>, modified: i64) -> bool {
    &&& e1.path == e0.path
    &&& e1.kind == e0.kind
    &&& e1.content@ == content
    &&& e1.curr_version == e0.curr_version
    &&& e1.versions == e0.versions
    &&& e1.created_at == e0.created_at
    &&& e1.modified_at == modified
}

/// The second entry sequence is the first with the entry under `path`
/// replaced as `entry_with_content` says, every other entry untouched.
pub open spec fn entries_with_content(
    entries0: Seq<Entry>,
    entries1: Seq<Entry>,
    path: Seq<char>,
    content: Seq<u8>,
    modified: i64,
) -> bool {
    &&& entries1.len() == entries0.len()
    &&& forall|j: int|
        0 <= j < entries0.len() && entries0[j].path@ != path ==> entries1[j] == entries0[j]
    &&& forall|j: int|
        0 <= j < entries0.len() && entries0[j].path@ == path ==> entry_with_content(
            entries0[j],
            #[trigger] entries1[j],
            content,
            modified,
        )
}

/// A file entry as creation leaves it: empty, never committed, stamped
/// with the creation time.
pub open spec fn fresh_file_entry(e: Entry, path: Seq<char>, now_secs: i64) -> bool {
    &&& e.path@ == path
    &&& e.kind == FileKind::File
    &&& e.content@.len() == 0
    &&& e.curr_version == 0
    &&& e.versions@.len() == 0
    &&& e.created_at == now_secs
    &&& e.modified_at == now_secs
}

/// The second entry sequence is the first with one fresh file entry
/// appended.
pub open spec fn entries_plus_fresh(
    entries0: Seq<Entry>,
    entries1: Seq<Entry>,
    path: Seq<char>,
    now_secs: i64,
) -> bool {
    &&& entries1.len() == entries0.len() + 1
    &&& forall|j: int| 0 <= j < entries0.len() ==> entries1[j] == entries0[j]
    &&& fresh_file_entry(entries1[entries0.len() as int], path, now_secs)
}

/// What opening a file with the given options does: the single place the
/// open semantics is written down.  `pre` and `post` are the bridge before
/// and after, `r` the reported outcome.
pub open spec fn open_file_post(
    pre: Bridge,
    post: Bridge,
    cfg: OptionsCfg,
    repo_token: usize,
    path: Seq<char>,
    now_secs: i64,
    r: Result<usize, BridgeError>,
) -> bool {
    let slots0 = pre.table.slots@;
    let repos0 = pre.repos@;
    let eff_write = cfg.write || cfg.append;
    match slot_of(slots0, repo_token) {
        Some(Resource::Repository(rh)) => {
            if !spec_path_rooted(path) {
                r == Err::<usize, BridgeError>(BridgeError::InvalidPath) && post == pre
            } else if repos0[rh.repo_idx as int] is None {
                r == Err::<usize, BridgeError>(BridgeError::NotFound) && post == pre
            } else {
                let store0 = repos0[rh.repo_idx as int]->0;
                let entries0 = store0.data.entries@;
                if (cfg.truncate || cfg.create || cfg.create_new) && !eff_write {
                    r == Err::<usize, BridgeError>(BridgeError::InvalidArgument) && post == pre
                } else if cfg.truncate && cfg.append {
                    r == Err::<usize, BridgeError>(BridgeError::InvalidArgument) && post == pre
                } else if path == seq!['/'] {
                    r == Err::<usize, BridgeError>(BridgeError::NotFile) && post == pre
                } else if has_entry(entries0, path) {
                    let e0 = entry_of(entries0, path);
                    if e0.kind == FileKind::Dir {
                        r == Err::<usize, BridgeError>(BridgeError::NotFile) && post == pre
                    } else if cfg.create_new {
                        r == Err::<usize, BridgeError>(BridgeError::AlreadyExists) && post == pre
                    } else if eff_write && rh.read_only {
                        r == Err::<usize, BridgeError>(BridgeError::ReadOnly) && post == pre
                    } else {
                        let content1 = if cfg.truncate {
                            Seq::<u8>::empty()
                        } else {
                            e0.content@
                        };
                        let pos = if cfg.append {
                            content1.len() as u64
                        } else {
                            0u64
                        };
                        &&& r == Ok::<usize, BridgeError>(slots0.len() as usize)
                        &&& slots_plus_file(
                            slots0,
                            post.table.slots@,
                            rh.repo_idx,
                            path,
                            pos,
                            cfg.read,
                            eff_write,
                        )
                        &&& if cfg.truncate {
                            exists|entries1: Seq<Entry>|
                                #[trigger] repos_with_entries(repos0, post.repos@, rh.repo_idx, entries1)
                                    && entries_with_content(
                                    entries0,
                                    entries1,
                                    path,
                                    Seq::<u8>::empty(),
                                    now_secs,
                                )
                        } else {
                            post.repos@ == repos0
                        }
                    }
                } else {
                    if !(cfg.create || cfg.create_new) {
                        r == Err::<usize, BridgeError>(BridgeError::NotFound) && post == pre
                    } else if rh.read_only {
                        r == Err::<usize, BridgeError>(BridgeError::ReadOnly) && post == pre
                    } else {
                        &&& r == Ok::<usize, BridgeError>(slots0.len() as usize)
                        &&& slots_plus_file(
                            slots0,
                            post.table.slots@,
                            rh.repo_idx,
                            path,
                            0,
                            cfg.read,
                            eff_write,
                        )
                        &&& exists|entries1: Seq<Entry>|
                            #[trigger] repos_with_entries(repos0, post.repos@, rh.repo_idx, entries1)
                                && entries_plus_fresh(
                                store0.data.entries@,
                                entries1,
                                path,
                                now_secs,
                            )
                    }
                }
            }
        },
        s => {
            &&& post == pre
            &&& r == Err::<usize, BridgeError>(
                if s is None {
                    BridgeError::NoResourceAttached
                } else {
                    BridgeError::WrongResourceKind
                },
            )
        },
    }
}

/// Returns a fixed-size volume identifier for a newly created repository.
fn gen_volume_id(seed: u64) -> (r: Vec<u8>)
    ensures
        r@.len() == 32,
{
    let b = (seed % 256) as u8;
    let mut v: Vec<u8> = Vec::new();
    let mut i: usize = 0;
    while i < 32
        invariant
            v@.len() == i,
            i <= 32,
        decreases 32 - i,
    {
        v.push(b);
        i += 1;
    }
    v
}

/// The options `repo_create_file` opens with: create the file when it is
/// missing, truncate it when it exists, and write from the start.
pub open spec fn spec_create_file_cfg() -> OptionsCfg {
    OptionsCfg {
        read: false,
        write: true,
        append: false,
        truncate: true,
        create: true,
        create_new: false,
        version_limit: 0,
        dedup_chunk: false,
    }
}

impl Bridge {
    /// Opens a file inside an open repository under the given options.
    /// The path must be rooted and name a file; the options decide whether
    /// a missing file is created, an existing one truncated, and what the
    /// handle may do.  On success the open file is bound to a fresh token.
    pub fn file_open_with(
        &mut self,
        cfg: OptionsCfg,
        repo_token: usize,
        path: &str,
        now: Timestamp,
    ) -> (r: Result<usize, BridgeError>)
        requires
            old(self).wf(),
            now.secs <= i64::MAX,
        ensures
            final(self).wf(),
            open_file_post(
                *old(self),
                *final(self),
                cfg,
                repo_token,
                path@,
                now.secs as i64,
                r,
            ),
    {
        let rh = match self.get_repo(repo_token) {
            Ok(h) => h,
            Err(e) => return Err(e),
        };
        if !crate::paths::path_is_rooted(path) {
            return Err(BridgeError::InvalidPath);
        }
        let ri = rh.repo_idx;
        proof {
            assert(slot_wf(self.repos@.len() as int, self.table.slots@[repo_token as int]));
        }
        match &self.repos[ri] {
            Some(_) => {},
            None => {
                return Err(BridgeError::NotFound);
            },
        }
        let eff_write = cfg.write || cfg.append;
        if (cfg.truncate || cfg.create || cfg.create_new) && !eff_write {
            return Err(BridgeError::InvalidArgument);
        }
        if cfg.truncate && cfg.append {
            return Err(BridgeError::InvalidArgument);
        }
        if path.unicode_len() == 1 {
            proof {
                assert(path@ =~= seq!['/']);
            }
            return Err(BridgeError::NotFile);
        }
        let found: Option<usize> = match &self.repos[ri] {
            Some(store) => crate::store::find_entry(&store.data.entries, path),
            None => {
                return Err(BridgeError::NotFound);
            },
        };
        proof {
            assert(self.repos@[ri as int] matches Some(st) ==> paths_unique(st.data.entries@));
        }
        match found {
            Some(j) => {
                let ghost entries0 = self.repos@[ri as int]->0.data.entries@;
                proof {
                    lemma_entry_at(entries0, j as int);
                }
                let (kind, clen0) = match &self.repos[ri] {
                    Some(store) => (store.data.entries[j].kind, store.data.entries[j].content.len()),
                    None => {
                        return Err(BridgeError::NotFound);
                    },
                };
                if match kind {
                    FileKind::Dir => true,
                    FileKind::File => false,
                } {
                    return Err(BridgeError::NotFile);
                }
                if cfg.create_new {
                    return Err(BridgeError::AlreadyExists);
                }
                if eff_write && rh.read_only {
                    return Err(BridgeError::ReadOnly);
                }
                if cfg.truncate {
                    match &mut self.repos[ri] {
                        Some(store) => {
                            let e = &mut store.data.entries[j];
                            e.content = Vec::new();
                            e.modified_at = crate::time_to_secs(now);
                        },
                        None => {
                            return Err(BridgeError::NotFound);
                        },
                    }
                    proof {
                        let entries1 = self.repos@[ri as int]->0.data.entries@;
                        lemma_update_entry(entries0, j as int, entries1[j as int]);
                        assert(repos_with_entries(
                            old(self).repos@,
                            self.repos@,
                            ri,
                            entries1,
                        ));
                        assert(entries_with_content(
                            entries0,
                            entries1,
                            path@,
                            Seq::<u8>::empty(),
                            now.secs as i64,
                        ));
                    }
                }
                let pos: u64 = if cfg.append {
                    clen0 as u64
                } else {
                    0
                };
                let ghost repos_mid = self.repos@;
                let t = self.table.bind(
                    Resource::File(
                        FileHandle {
                            repo_idx: ri,
                            path: String::from_str(path),
                            pos,
                            read: cfg.read,
                            write: eff_write,
                        },
                    ),
                );
                proof {
                    assert forall|u: int|
                        0 <= u < self.table.slots@.len() implies slot_wf(
                        self.repos@.len() as int,
                        #[trigger] self.table.slots@[u],
                    ) by {
                        if u < old(self).table.slots@.len() {
                            assert(self.table.slots@[u] == old(self).table.slots@[u]);
                            assert(slot_wf(
                                old(self).repos@.len() as int,
                                old(self).table.slots@[u],
                            ));
                        }
                    }
                }
                Ok(t)
            },
            None => {
                if !(cfg.create || cfg.create_new) {
                    return Err(BridgeError::NotFound);
                }
                if rh.read_only {
                    return Err(BridgeError::ReadOnly);
                }
                let now_secs = crate::time_to_secs(now);
                let e = Entry {
                    path: String::from_str(path),
                    kind: FileKind::File,
                    content: Vec::new(),
                    curr_version: 0,
                    versions: Vec::new(),
                    created_at: now_secs,
                    modified_at: now_secs,
                };
                match &mut self.repos[ri] {
                    Some(store) => {
                        proof {
                            lemma_push_entry(store.data.entries@, e);
                        }
                        store.data.entries.push(e);
                    },
                    None => {
                        return Err(BridgeError::NotFound);
                    },
                }
                let t = self.table.bind(
                    Resource::File(
                        FileHandle {
                            repo_idx: ri,
                            path: String::from_str(path),
                            pos: 0,
                            read: cfg.read,
                            write: eff_write,
                        },
                    ),
                );
                proof {
                    assert forall|u: int|
                        0 <= u < self.table.slots@.len() implies slot_wf(
                        self.repos@.len() as int,
                        #[trigger] self.table.slots@[u],
                    ) by {
                        if u < old(self).table.slots@.len() {
                            assert(self.table.slots@[u] == old(self).table.slots@[u]);
                            assert(slot_wf(
                                old(self).repos@.len() as int,
                                old(self).table.slots@[u],
                            ));
                        }
                    }
                    let entries1 = self.repos@[ri as int]->0.data.entries@;
                    assert(repos_with_entries(old(self).repos@, self.repos@, ri, entries1));
                    assert(entries_plus_fresh(
                        old(self).repos@[ri as int]->0.data.entries@,
                        entries1,
                        path@,
                        now.secs as i64,
                    ));
                }
                Ok(t)
            },
        }
    }

    /// Consumes a file-options builder's configuration to open a file;
    /// see `file_open_with`.  The builder itself stays as it is.
    pub fn options_open(
        &mut self,
        opts_token: usize,
        repo_token: usize,
        path: &str,
        now: Timestamp,
    ) -> (r: Result<usize, BridgeError>)
        requires
            old(self).wf(),
            now.secs <= i64::MAX,
        ensures
            final(self).wf(),
            match slot_of(old(self).table.slots@, opts_token) {
                Some(Resource::FileOptions(cfg)) => open_file_post(
                    *old(self),
                    *final(self),
                    cfg,
                    repo_token,
                    path@,
                    now.secs as i64,
                    r,
                ),
                s => *final(self) == *old(self) && r == Err::<usize, BridgeError>(
                    if s is None {
                        BridgeError::NoResourceAttached
                    } else {
                        BridgeError::WrongResourceKind
                    },
                ),
            },
    {
        let cfg = match self.get_options(opts_token) {
            Ok(c) => c,
            Err(e) => return Err(e),
        };
        self.file_open_with(cfg, repo_token, path, now)
    }

    /// Creates a file at a path and opens it for writing, truncating any
    /// content it had; see `file_open_with` under `spec_create_file_cfg`.
    pub fn repo_create_file(&mut self, repo_token: usize, path: &str, now: Timestamp) -> (r:
        Result<usize, BridgeError>)
        requires
            old(self).wf(),
            now.secs <= i64::MAX,
        ensures
            final(self).wf(),
            open_file_post(
                *old(self),
                *final(self),
                spec_create_file_cfg(),
                repo_token,
                path@,
                now.secs as i64,
                r,
            ),
    {
        let cfg = OptionsCfg {
            read: false,
            write: true,
            append: false,
            truncate: true,
            create: true,
            create_new: false,
            version_limit: 0,
            dedup_chunk: false,
        };
        self.file_open_with(cfg, repo_token, path, now)
    }

    /// Opens an existing file read-only; see `file_open_with` under the
    /// default options.
    pub fn repo_open_file(&mut self, repo_token: usize, path: &str, now: Timestamp) -> (r: Result<
        usize,
        BridgeError,
    >)
        requires
            old(self).wf(),
            now.secs <= i64::MAX,
        ensures
            final(self).wf(),
            open_file_post(
                *old(self),
                *final(self),
                crate::table::spec_default_options(),
                repo_token,
                path@,
                now.secs as i64,
                r,
            ),
    {
        self.file_open_with(crate::table::default_options(), repo_token, path, now)
    }

    /// Consumes an opener's configuration to open or create the
    /// repository at a location.  An existing repository is opened when
    /// the password matches and exclusive creation was not demanded; a
    /// missing one is created when creation was enabled and the opening is
    /// not read-only.  On success the open repository is bound to a fresh
    /// token.
    pub fn opener_open(&mut self, token: usize, uri: &str, pwd: &str, now: Timestamp) -> (r:
        Result<usize, BridgeError>)
        requires
            old(self).wf(),
            now.secs <= i64::MAX,
        ensures
            final(self).wf(),
            match slot_of(old(self).table.slots@, token) {
                Some(Resource::Opener(cfg)) => {
                    let repos0 = old(self).repos@;
                    let slots0 = old(self).table.slots@;
                    if has_repo(repos0, uri@) {
                        let store0 = repos0[repo_idx_of(repos0, uri@)]->0;
                        if cfg.create_new {
                            r == Err::<usize, BridgeError>(BridgeError::AlreadyExists)
                                && *final(self) == *old(self)
                        } else if store0.password@ != pwd@ {
                            r == Err::<usize, BridgeError>(BridgeError::InvalidPassword)
                                && *final(self) == *old(self)
                        } else {
                            &&& r == Ok::<usize, BridgeError>(slots0.len() as usize)
                            &&& final(self).repos == old(self).repos
                            &&& final(self).table.slots@ == slots0.push(
                                Some(
                                    Resource::Repository(
                                        RepoHandle {
                                            repo_idx: repo_idx_of(repos0, uri@) as usize,
                                            read_only: cfg.read_only,
                                        },
                                    ),
                                ),
                            )
                        }
                    } else {
                        if !(cfg.create || cfg.create_new) {
                            r == Err::<usize, BridgeError>(BridgeError::NotFound) && *final(self)
                                == *old(self)
                        } else if cfg.read_only {
                            r == Err::<usize, BridgeError>(BridgeError::InvalidArgument)
                                && *final(self) == *old(self)
                        } else {
                            &&& r == Ok::<usize, BridgeError>(slots0.len() as usize)
                            &&& final(self).repos@.len() == repos0.len() + 1
                            &&& forall|i: int|
                                0 <= i < repos0.len() ==> final(self).repos@[i] == repos0[i]
                            &&& final(self).repos@[repos0.len() as int] matches Some(ns)
                                && ns.uri@ == uri@ && ns.password@ == pwd@
                                && ns.data.ops_limit == cfg.ops_limit && ns.data.mem_limit
                                == cfg.mem_limit && ns.data.cipher == cfg.cipher
                                && ns.data.compress == cfg.compress && ns.data.version_limit
                                == cfg.version_limit && ns.data.dedup_chunk == cfg.dedup_chunk
                                && ns.data.created_at == now.secs as i64
                                && ns.data.entries@.len() == 0 && ns.data.volume_id@.len() == 32
                            &&& final(self).table.slots@ == slots0.push(
                                Some(
                                    Resource::Repository(
                                        RepoHandle {
                                            repo_idx: repos0.len() as usize,
                                            read_only: cfg.read_only,
                                        },
                                    ),
                                ),
                            )
                        }
                    }
                },
                s => *final(self) == *old(self) && r == Err::<usize, BridgeError>(
                    if s is None {
                        BridgeError::NoResourceAttached
                    } else {
                        BridgeError::WrongResourceKind
                    },
                ),
            },
    {
        let cfg = match self.get_opener(token) {
            Ok(c) => c,
            Err(e) => return Err(e),
        };
        match self.find_repo(uri) {
            Some(i) => {
                proof {
                    lemma_repo_at(self.repos@, i as int);
                }
                if cfg.create_new {
                    return Err(BridgeError::AlreadyExists);
                }
                let pwd_ok = match &self.repos[i] {
                    Some(store) => crate::values::str_eq(store.password.as_str(), pwd),
                    None => false,
                };
                if !pwd_ok {
                    return Err(BridgeError::InvalidPassword);
                }
                let t = self.table.bind(
                    Resource::Repository(RepoHandle { repo_idx: i, read_only: cfg.read_only }),
                );
                proof {
                    assert forall|u: int|
                        0 <= u < self.table.slots@.len() implies slot_wf(
                        self.repos@.len() as int,
                        #[trigger] self.table.slots@[u],
                    ) by {
                        if u < old(self).table.slots@.len() {
                            assert(self.table.slots@[u] == old(self).table.slots@[u]);
                        }
                    }
                }
                Ok(t)
            },
            None => {
                if !(cfg.create || cfg.create_new) {
                    return Err(BridgeError::NotFound);
                }
                if cfg.read_only {
                    return Err(BridgeError::InvalidArgument);
                }
                let idx = self.repos.len();
                let store = RepoStore {
                    uri: String::from_str(uri),
                    password: String::from_str(pwd),
                    data: RepoData {
                        volume_id: gen_volume_id(idx as u64),
                        ops_limit: cfg.ops_limit,
                        mem_limit: cfg.mem_limit,
                        cipher: cfg.cipher,
                        compress: cfg.compress,
                        version_limit: cfg.version_limit,
                        dedup_chunk: cfg.dedup_chunk,
                        created_at: crate::time_to_secs(now),
                        entries: Vec::new(),
                    },
                };
                proof {
                    lemma_push_repo(self.repos@, store);
                }
                self.repos.push(Some(store));
                let t = self.table.bind(
                    Resource::Repository(RepoHandle { repo_idx: idx, read_only: cfg.read_only }),
                );
                proof {
                    assert forall|u: int|
                        0 <= u < self.table.slots@.len() implies slot_wf(
                        self.repos@.len() as int,
                        #[trigger] self.table.slots@[u],
                    ) by {
                        if u < old(self).table.slots@.len() {
                            assert(self.table.slots@[u] == old(self).table.slots@[u]);
                            assert(slot_wf(
                                old(self).repos@.len() as int,
                                old(self).table.slots@[u],
                            ));
                        }
                    }
                }
                Ok(t)
            },
        }
    }
}

} // verus!
